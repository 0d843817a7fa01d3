//! The token classifier: the grammar that routes one loosely-typed parameter
//! token to one of four destinations.
//!
//! A token is matched against four separator grammars in decreasing
//! specificity — `KEY:=VALUE` (JSON-typed body field), `KEY==VALUE` (query
//! pair), `KEY:VALUE` (header), `KEY=VALUE` (plain body field) — and the first
//! grammar that matches wins. A grammar matches when the token splits at the
//! first occurrence of its separator into a key that holds no occurrence of
//! the separator (the header key may be empty, every other key must not) and a
//! non-empty value, the remainder of the token. A token matching no grammar is
//! rejected with the offending text verbatim.

use vstd::prelude::*;
use vstd::string::*;

use crate::error::{Error, ErrorKind};

verus! {

/// The index of the first occurrence of the two-character separator `c0 c1`
/// at or after position `i`, or `-1`.
pub open spec fn find2_from(t: Seq<char>, c0: char, c1: char, i: int) -> int
    decreases t.len() - i,
{
    if i < 0 || i + 1 >= t.len() {
        -1
    } else if t[i] == c0 && t[i + 1] == c1 {
        i
    } else {
        find2_from(t, c0, c1, i + 1)
    }
}

/// The index of the first occurrence of the two-character separator `c0 c1`,
/// or `-1`.
pub open spec fn find2(t: Seq<char>, c0: char, c1: char) -> int {
    find2_from(t, c0, c1, 0)
}

/// The index of the first occurrence of the character `c0` at or after
/// position `i`, or `-1`.
pub open spec fn find1_from(t: Seq<char>, c0: char, i: int) -> int
    decreases t.len() - i,
{
    if i < 0 || i >= t.len() {
        -1
    } else if t[i] == c0 {
        i
    } else {
        find1_from(t, c0, i + 1)
    }
}

/// The index of the first occurrence of the character `c0`, or `-1`.
pub open spec fn find1(t: Seq<char>, c0: char) -> int {
    find1_from(t, c0, 0)
}

/// What `find2_from` returns: the least index at or after `i` where the
/// separator occurs, or `-1` when it occurs nowhere at or after `i`.
pub proof fn lemma_find2_from(t: Seq<char>, c0: char, c1: char, i: int)
    requires
        0 <= i,
    ensures
        find2_from(t, c0, c1, i) == -1 || find2_from(t, c0, c1, i) >= i,
        find2_from(t, c0, c1, i) == -1 ==> forall|j: int|
            i <= j && j + 1 < t.len() ==> !(#[trigger] t[j] == c0 && t[j + 1] == c1),
        find2_from(t, c0, c1, i) >= 0 ==> {
            let r = find2_from(t, c0, c1, i);
            i <= r && r + 1 < t.len() && t[r] == c0 && t[r + 1] == c1 && forall|j: int|
                i <= j < r ==> !(#[trigger] t[j] == c0 && t[j + 1] == c1)
        },
    decreases t.len() - i,
{
    if i + 1 >= t.len() {
    } else if t[i] == c0 && t[i + 1] == c1 {
    } else {
        lemma_find2_from(t, c0, c1, i + 1);
    }
}

/// What `find1_from` returns, in the same way.
pub proof fn lemma_find1_from(t: Seq<char>, c0: char, i: int)
    requires
        0 <= i,
    ensures
        find1_from(t, c0, i) == -1 || find1_from(t, c0, i) >= i,
        find1_from(t, c0, i) == -1 ==> forall|j: int| i <= j < t.len() ==> t[j] != c0,
        find1_from(t, c0, i) >= 0 ==> {
            let r = find1_from(t, c0, i);
            i <= r && r < t.len() && t[r] == c0 && forall|j: int| i <= j < r ==> t[j] != c0
        },
    decreases t.len() - i,
{
    if i >= t.len() {
    } else if t[i] == c0 {
    } else {
        lemma_find1_from(t, c0, i + 1);
    }
}

/// Where one parameter token is routed, with the key and value it splits
/// into. A `JsonField` value is the raw JSON text; it is parsed when the
/// token is folded into an accumulator.
#[derive(Debug)]
pub enum ParamKind {
    JsonField { key: String, value: String },
    QueryPair { key: String, value: String },
    Header { key: String, value: String },
    BodyField { key: String, value: String },
}

/// The spec-level image of `ParamKind`.
pub enum ParamKindV {
    JsonField { key: Seq<char>, value: Seq<char> },
    QueryPair { key: Seq<char>, value: Seq<char> },
    Header { key: Seq<char>, value: Seq<char> },
    BodyField { key: Seq<char>, value: Seq<char> },
}

impl View for ParamKind {
    type V = ParamKindV;

    open spec fn view(&self) -> ParamKindV {
        match self {
            ParamKind::JsonField { key, value } => ParamKindV::JsonField {
                key: key@,
                value: value@,
            },
            ParamKind::QueryPair { key, value } => ParamKindV::QueryPair {
                key: key@,
                value: value@,
            },
            ParamKind::Header { key, value } => ParamKindV::Header { key: key@, value: value@ },
            ParamKind::BodyField { key, value } => ParamKindV::BodyField {
                key: key@,
                value: value@,
            },
        }
    }
}

/// The classification of one token: the four grammars tried in decreasing
/// specificity, or nothing.
pub open spec fn spec_classify(t: Seq<char>) -> Option<ParamKindV> {
    let ij = find2(t, ':', '=');
    let iq = find2(t, '=', '=');
    let ih = find1(t, ':');
    let ib = find1(t, '=');
    if 1 <= ij && ij + 2 < t.len() {
        Some(ParamKindV::JsonField { key: t.subrange(0, ij), value: t.subrange(ij + 2, t.len() as int) })
    } else if 1 <= iq && iq + 2 < t.len() {
        Some(ParamKindV::QueryPair { key: t.subrange(0, iq), value: t.subrange(iq + 2, t.len() as int) })
    } else if 0 <= ih && ih + 1 < t.len() {
        Some(ParamKindV::Header { key: t.subrange(0, ih), value: t.subrange(ih + 1, t.len() as int) })
    } else if 1 <= ib && ib + 1 < t.len() {
        Some(ParamKindV::BodyField { key: t.subrange(0, ib), value: t.subrange(ib + 1, t.len() as int) })
    } else {
        None
    }
}

/// Find the first occurrence of the two-character separator `c0 c1`.
pub(crate) fn find_two(s: &str, c0: char, c1: char) -> (r: Option<usize>)
    ensures
        match r {
            Some(i) => find2(s@, c0, c1) == i && i + 1 < s@.len(),
            None => find2(s@, c0, c1) == -1,
        },
{
    let n = s.unicode_len();
    if n < 2 {
        return None;
    }
    let mut i: usize = 0;
    while i + 1 < n
        invariant
            n == s@.len(),
            2 <= n,
            i + 1 <= n,
            find2(s@, c0, c1) == find2_from(s@, c0, c1, i as int),
        decreases n - i,
    {
        if s.get_char(i) == c0 && s.get_char(i + 1) == c1 {
            return Some(i);
        }
        i = i + 1;
    }
    None
}

/// Find the first occurrence of the character `c0`.
pub(crate) fn find_one(s: &str, c0: char) -> (r: Option<usize>)
    ensures
        match r {
            Some(i) => find1(s@, c0) == i && i < s@.len(),
            None => find1(s@, c0) == -1,
        },
{
    let n = s.unicode_len();
    let mut i: usize = 0;
    while i < n
        invariant
            n == s@.len(),
            i <= n,
            find1(s@, c0) == find1_from(s@, c0, i as int),
        decreases n - i,
    {
        if s.get_char(i) == c0 {
            return Some(i);
        }
        i = i + 1;
    }
    None
}

/// Classify one parameter token, or reject it with an argument error carrying
/// the token verbatim.
pub fn classify(token: &str) -> (r: Result<ParamKind, Error>)
    ensures
        match spec_classify(token@) {
            Some(p) => r matches Ok(pk) && pk@ == p,
            None => r matches Err(e) && e.spec_kind() == ErrorKind::Argument && e.spec_detail()
                == token@,
        },
{
    let n = token.unicode_len();
    if let Some(i) = find_two(token, ':', '=') {
        if 1 <= i && i + 2 < n {
            let key = String::from_str(token.substring_char(0, i));
            let value = String::from_str(token.substring_char(i + 2, n));
            return Ok(ParamKind::JsonField { key, value });
        }
    }
    if let Some(i) = find_two(token, '=', '=') {
        if 1 <= i && i + 2 < n {
            let key = String::from_str(token.substring_char(0, i));
            let value = String::from_str(token.substring_char(i + 2, n));
            return Ok(ParamKind::QueryPair { key, value });
        }
    }
    if let Some(i) = find_one(token, ':') {
        if i + 1 < n {
            let key = String::from_str(token.substring_char(0, i));
            let value = String::from_str(token.substring_char(i + 1, n));
            return Ok(ParamKind::Header { key, value });
        }
    }
    if let Some(i) = find_one(token, '=') {
        if 1 <= i && i + 1 < n {
            let key = String::from_str(token.substring_char(0, i));
            let value = String::from_str(token.substring_char(i + 1, n));
            return Ok(ParamKind::BodyField { key, value });
        }
    }
    Err(Error::argument_error(token))
}

/// No occurrence of the two-character separator `c0 c1` anywhere in `t`.
pub open spec fn no_two(t: Seq<char>, c0: char, c1: char) -> bool {
    forall|j: int| 0 <= j && j + 1 < t.len() ==> !(#[trigger] t[j] == c0 && t[j + 1] == c1)
}

/// No occurrence of the character `c0` anywhere in `t`.
pub open spec fn no_one(t: Seq<char>, c0: char) -> bool {
    forall|j: int| 0 <= j < t.len() ==> t[j] != c0
}

pub(crate) proof fn lemma_find2_absent(t: Seq<char>, c0: char, c1: char)
    requires
        no_two(t, c0, c1),
    ensures
        find2(t, c0, c1) == -1,
{
    lemma_find2_from(t, c0, c1, 0);
}

pub(crate) proof fn lemma_find1_absent(t: Seq<char>, c0: char)
    requires
        no_one(t, c0),
    ensures
        find1(t, c0) == -1,
{
    lemma_find1_from(t, c0, 0);
}

pub(crate) proof fn lemma_find2_at(t: Seq<char>, c0: char, c1: char, i: int)
    requires
        0 <= i,
        i + 1 < t.len(),
        t[i] == c0 && t[i + 1] == c1,
        forall|j: int| 0 <= j < i ==> !(#[trigger] t[j] == c0 && t[j + 1] == c1),
    ensures
        find2(t, c0, c1) == i,
{
    lemma_find2_from(t, c0, c1, 0);
}

pub(crate) proof fn lemma_find1_at(t: Seq<char>, c0: char, i: int)
    requires
        0 <= i,
        i < t.len(),
        t[i] == c0,
        forall|j: int| 0 <= j < i ==> t[j] != c0,
    ensures
        find1(t, c0) == i,
{
    lemma_find1_from(t, c0, 0);
}

/// Law: a token written `k:=v`, with `k` non-empty and free of the `:=`
/// separator and `v` non-empty, classifies as the JSON-typed body field
/// `(k, v)`.
pub proof fn lemma_classify_json_field(k: Seq<char>, v: Seq<char>)
    requires
        k.len() >= 1,
        v.len() >= 1,
        no_two(k, ':', '='),
    ensures
        spec_classify(k + seq![':', '='] + v) == Some(
            ParamKindV::JsonField { key: k, value: v },
        ),
{
    let t = k + seq![':', '='] + v;
    assert(t.len() == k.len() + 2 + v.len());
    assert(t[k.len() as int] == ':' && t[k.len() + 1 as int] == '=');
    assert forall|j: int| 0 <= j < k.len() implies !(#[trigger] t[j] == ':' && t[j + 1] == '=') by {
        if j + 1 < k.len() {
            assert(t[j] == k[j] && t[j + 1] == k[j + 1]);
        } else {
            assert(t[j] == k[j] && t[j + 1] == ':');
        }
    }
    lemma_find2_at(t, ':', '=', k.len() as int);
    assert(t.subrange(0, k.len() as int) =~= k);
    assert(t.subrange(k.len() + 2 as int, t.len() as int) =~= v);
}

/// Law: a token written `k==v`, with `k` non-empty, free of the `==`
/// separator and not ending in `=`, `v` non-empty, and no `:=` occurring
/// anywhere in the token, classifies as the query pair `(k, v)`.
pub proof fn lemma_classify_query_pair(k: Seq<char>, v: Seq<char>)
    requires
        k.len() >= 1,
        v.len() >= 1,
        no_two(k, '=', '='),
        k[k.len() - 1] != '=',
        no_two(k + seq!['=', '='] + v, ':', '='),
    ensures
        spec_classify(k + seq!['=', '='] + v) == Some(
            ParamKindV::QueryPair { key: k, value: v },
        ),
{
    let t = k + seq!['=', '='] + v;
    assert(t.len() == k.len() + 2 + v.len());
    lemma_find2_absent(t, ':', '=');
    assert(t[k.len() as int] == '=' && t[k.len() + 1 as int] == '=');
    assert forall|j: int| 0 <= j < k.len() implies !(#[trigger] t[j] == '=' && t[j + 1] == '=') by {
        if j + 1 < k.len() {
            assert(t[j] == k[j] && t[j + 1] == k[j + 1]);
        } else {
            assert(t[j] == k[j] && j == k.len() - 1);
        }
    }
    lemma_find2_at(t, '=', '=', k.len() as int);
    assert(t.subrange(0, k.len() as int) =~= k);
    assert(t.subrange(k.len() + 2 as int, t.len() as int) =~= v);
}

/// Law: a token written `k:v`, with `k` (possibly empty) free of `:` and `v`
/// non-empty, and with neither `:=` nor `==` occurring anywhere in the token,
/// classifies as the header `(k, v)`.
pub proof fn lemma_classify_header(k: Seq<char>, v: Seq<char>)
    requires
        v.len() >= 1,
        no_one(k, ':'),
        no_two(k + seq![':'] + v, ':', '='),
        no_two(k + seq![':'] + v, '=', '='),
    ensures
        spec_classify(k + seq![':'] + v) == Some(ParamKindV::Header { key: k, value: v }),
{
    let t = k + seq![':'] + v;
    assert(t.len() == k.len() + 1 + v.len());
    lemma_find2_absent(t, ':', '=');
    lemma_find2_absent(t, '=', '=');
    assert(t[k.len() as int] == ':');
    assert forall|j: int| 0 <= j < k.len() implies t[j] != ':' by {
        assert(t[j] == k[j]);
    }
    lemma_find1_at(t, ':', k.len() as int);
    assert(t.subrange(0, k.len() as int) =~= k);
    assert(t.subrange(k.len() + 1 as int, t.len() as int) =~= v);
}

/// Law: a token written `k=v`, with `k` non-empty and free of `=`, `v`
/// non-empty, no `:` occurring anywhere in the token and no `==` occurrence
/// either, classifies as the plain body field `(k, v)`.
pub proof fn lemma_classify_body_field(k: Seq<char>, v: Seq<char>)
    requires
        k.len() >= 1,
        v.len() >= 1,
        no_one(k, '='),
        no_one(k + seq!['='] + v, ':'),
        no_two(k + seq!['='] + v, '=', '='),
    ensures
        spec_classify(k + seq!['='] + v) == Some(ParamKindV::BodyField { key: k, value: v }),
{
    let t = k + seq!['='] + v;
    assert(t.len() == k.len() + 1 + v.len());
    assert forall|j: int| 0 <= j && j + 1 < t.len() implies !(#[trigger] t[j] == ':' && t[j + 1] == '=') by {
        assert(t[j] != ':');
    }
    lemma_find2_absent(t, ':', '=');
    lemma_find2_absent(t, '=', '=');
    lemma_find1_absent(t, ':');
    assert(t[k.len() as int] == '=');
    assert forall|j: int| 0 <= j < k.len() implies t[j] != '=' by {
        assert(t[j] == k[j]);
    }
    lemma_find1_at(t, '=', k.len() as int);
    assert(t.subrange(0, k.len() as int) =~= k);
    assert(t.subrange(k.len() + 1 as int, t.len() as int) =~= v);
}

/// Law: a token in which neither separator character occurs at all matches no
/// grammar; classifying it fails, and the error carries the token verbatim.
pub proof fn lemma_classify_no_separator(t: Seq<char>)
    requires
        no_one(t, ':'),
        no_one(t, '='),
    ensures
        spec_classify(t) == None::<ParamKindV>,
{
    assert forall|j: int| 0 <= j && j + 1 < t.len() implies !(#[trigger] t[j] == ':' && t[j + 1] == '=') by {}
    assert forall|j: int| 0 <= j && j + 1 < t.len() implies !(#[trigger] t[j] == '=' && t[j + 1] == '=') by {}
    lemma_find2_absent(t, ':', '=');
    lemma_find2_absent(t, '=', '=');
    lemma_find1_absent(t, ':');
    lemma_find1_absent(t, '=');
}

} // verus!
