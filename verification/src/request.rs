//! The request accumulator: it folds classified parameter tokens into a
//! mutable builder (query pairs appended to the URL in call order, header and
//! body fields inserted with last-write-wins on duplicate keys) and snapshots
//! the builder into an immutable request descriptor.

use vstd::prelude::*;
use vstd::string::*;

use crate::encode::{form_enc, form_encode, lemma_form_enc_chars, form_enc_output_char};
use crate::error::{Error, ErrorKind};
use crate::outside::{canonical_json, json_canon, parse_url, url_parsed};
use crate::token::{classify, find1, lemma_find1_from, spec_classify, ParamKind, ParamKindV};

verus! {

/// A body field value: plain text (from a `key=value` token) or canonical
/// JSON text (from a `key:=value` token, already validated and
/// re-serialized).
#[derive(Debug)]
pub enum BodyValue {
    Text(String),
    Json(String),
}

/// The spec-level image of `BodyValue`.
pub enum BodyValueV {
    Text(Seq<char>),
    Json(Seq<char>),
}

impl View for BodyValue {
    type V = BodyValueV;

    open spec fn view(&self) -> BodyValueV {
        match self {
            BodyValue::Text(s) => BodyValueV::Text(s@),
            BodyValue::Json(s) => BodyValueV::Json(s@),
        }
    }
}

impl BodyValue {
    /// An owned copy with the same content.
    pub fn dup(&self) -> (r: BodyValue)
        ensures
            r@ == self@,
    {
        match self {
            BodyValue::Text(s) => BodyValue::Text(s.clone()),
            BodyValue::Json(s) => BodyValue::Json(s.clone()),
        }
    }
}

/// The views of a vector of header pairs.
pub open spec fn pairs_view(v: Seq<(String, String)>) -> Seq<(Seq<char>, Seq<char>)> {
    Seq::new(v.len(), |i: int| (v[i].0@, v[i].1@))
}

/// The views of a vector of body entries.
pub open spec fn body_view(v: Seq<(String, BodyValue)>) -> Seq<(Seq<char>, BodyValueV)> {
    Seq::new(v.len(), |i: int| (v[i].0@, v[i].1@))
}

/// ASCII lower-casing of one scalar value.
pub open spec fn lower32(u: u32) -> u32 {
    if 65 <= u && u <= 90 {
        (u + 32) as u32
    } else {
        u
    }
}

/// Texts equal up to ASCII case, the equivalence under which header names are
/// deduplicated.
pub open spec fn chars_eq_ic(a: Seq<char>, b: Seq<char>) -> bool {
    a.len() == b.len() && forall|i: int|
        0 <= i < a.len() ==> lower32(#[trigger] a[i] as u32) == lower32(b[i] as u32)
}

/// Compare two texts up to ASCII case.
pub fn eq_ignore_case(a: &str, b: &str) -> (r: bool)
    ensures
        r == chars_eq_ic(a@, b@),
{
    let na = a.unicode_len();
    let nb = b.unicode_len();
    if na != nb {
        return false;
    }
    let mut i: usize = 0;
    while i < na
        invariant
            na == a@.len(),
            na == b@.len(),
            i <= na,
            forall|j: int| 0 <= j < i ==> lower32(#[trigger] a@[j] as u32) == lower32(
                b@[j] as u32,
            ),
        decreases na - i,
    {
        let ca = a.get_char(i) as u32;
        let cb = b.get_char(i) as u32;
        let la = if 65 <= ca && ca <= 90 {
            ca + 32
        } else {
            ca
        };
        let lb = if 65 <= cb && cb <= 90 {
            cb + 32
        } else {
            cb
        };
        if la != lb {
            return false;
        }
        i = i + 1;
    }
    true
}

/// Insert a header, replacing the value of an existing name equal up to ASCII
/// case (the stored spelling of the name is kept), else appending.
pub open spec fn header_insert(
    hs: Seq<(Seq<char>, Seq<char>)>,
    k: Seq<char>,
    v: Seq<char>,
) -> Seq<(Seq<char>, Seq<char>)>
    decreases hs.len(),
{
    if hs.len() == 0 {
        seq![(k, v)]
    } else if chars_eq_ic(hs[0].0, k) {
        seq![(hs[0].0, v)] + hs.drop_first()
    } else {
        seq![hs[0]] + header_insert(hs.drop_first(), k, v)
    }
}

/// Insert a body entry, replacing the value of an equal existing key (the
/// entry keeps its position), else appending.
pub open spec fn body_insert(
    bs: Seq<(Seq<char>, BodyValueV)>,
    k: Seq<char>,
    v: BodyValueV,
) -> Seq<(Seq<char>, BodyValueV)>
    decreases bs.len(),
{
    if bs.len() == 0 {
        seq![(k, v)]
    } else if bs[0].0 == k {
        seq![(bs[0].0, v)] + bs.drop_first()
    } else {
        seq![bs[0]] + body_insert(bs.drop_first(), k, v)
    }
}

/// Header names pairwise distinct up to ASCII case.
pub open spec fn headers_unique(hs: Seq<(Seq<char>, Seq<char>)>) -> bool {
    forall|i: int, j: int| 0 <= i < j < hs.len() ==> !chars_eq_ic(#[trigger] hs[i].0, #[trigger] hs[j].0)
}

/// Body keys pairwise distinct.
pub open spec fn body_keys_unique(bs: Seq<(Seq<char>, BodyValueV)>) -> bool {
    forall|i: int, j: int| 0 <= i < j < bs.len() ==> #[trigger] bs[i].0 != #[trigger] bs[j].0
}

proof fn lemma_header_insert_shape(hs: Seq<(Seq<char>, Seq<char>)>, k: Seq<char>, v: Seq<char>)
    ensures
        forall|m: int| 0 <= m < header_insert(hs, k, v).len() ==> (#[trigger] header_insert(
            hs,
            k,
            v,
        )[m].0 == k || exists|j: int| 0 <= j < hs.len() && header_insert(hs, k, v)[m].0 == hs[j].0),
        headers_unique(hs) ==> headers_unique(header_insert(hs, k, v)),
        hs.len() <= header_insert(hs, k, v).len() <= hs.len() + 1,
    decreases hs.len(),
{
    let r = header_insert(hs, k, v);
    if hs.len() == 0 {
    } else if chars_eq_ic(hs[0].0, k) {
        assert forall|m: int| 0 <= m < r.len() implies (#[trigger] r[m].0 == k || exists|j: int|
            0 <= j < hs.len() && r[m].0 == hs[j].0) by {
            if m == 0 {
                assert(r[0].0 == hs[0].0);
            } else {
                assert(r[m].0 == hs[m].0);
            }
        }
        if headers_unique(hs) {
            assert forall|i: int, j: int| 0 <= i < j < r.len() implies !chars_eq_ic(
                #[trigger] r[i].0,
                #[trigger] r[j].0,
            ) by {
                assert(r[i].0 == hs[i].0);
                assert(r[j].0 == hs[j].0);
            }
        }
    } else {
        lemma_header_insert_shape(hs.drop_first(), k, v);
        let rr = header_insert(hs.drop_first(), k, v);
        assert forall|m: int| 0 <= m < r.len() implies (#[trigger] r[m].0 == k || exists|j: int|
            0 <= j < hs.len() && r[m].0 == hs[j].0) by {
            if m == 0 {
                assert(r[0].0 == hs[0].0);
            } else {
                assert(r[m] == rr[m - 1]);
                if rr[m - 1].0 == k {
                } else {
                    let j0 = choose|j0: int|
                        0 <= j0 < hs.drop_first().len() && rr[m - 1].0 == hs.drop_first()[j0].0;
                    assert(hs.drop_first()[j0].0 == hs[j0 + 1].0);
                }
            }
        }
        if headers_unique(hs) {
            assert forall|i: int, j: int| 0 <= i < j < hs.drop_first().len() implies !chars_eq_ic(
                #[trigger] hs.drop_first()[i].0,
                #[trigger] hs.drop_first()[j].0,
            ) by {
                assert(hs.drop_first()[i].0 == hs[i + 1].0);
                assert(hs.drop_first()[j].0 == hs[j + 1].0);
            }
            assert(headers_unique(rr));
            assert forall|i: int, j: int| 0 <= i < j < r.len() implies !chars_eq_ic(
                #[trigger] r[i].0,
                #[trigger] r[j].0,
            ) by {
                if i == 0 {
                    assert(r[0].0 == hs[0].0);
                    assert(r[j] == rr[j - 1]);
                    if rr[j - 1].0 == k {
                    } else {
                        let j0 = choose|j0: int|
                            0 <= j0 < hs.drop_first().len() && rr[j - 1].0 == hs.drop_first()[j0].0;
                        assert(hs.drop_first()[j0].0 == hs[j0 + 1].0);
                        assert(!chars_eq_ic(hs[0].0, hs[j0 + 1].0));
                    }
                } else {
                    assert(r[i] == rr[i - 1]);
                    assert(r[j] == rr[j - 1]);
                }
            }
        }
    }
}

proof fn lemma_body_insert_shape(bs: Seq<(Seq<char>, BodyValueV)>, k: Seq<char>, v: BodyValueV)
    ensures
        forall|m: int| 0 <= m < body_insert(bs, k, v).len() ==> (#[trigger] body_insert(
            bs,
            k,
            v,
        )[m].0 == k || exists|j: int| 0 <= j < bs.len() && body_insert(bs, k, v)[m].0 == bs[j].0),
        body_keys_unique(bs) ==> body_keys_unique(body_insert(bs, k, v)),
        bs.len() <= body_insert(bs, k, v).len() <= bs.len() + 1,
    decreases bs.len(),
{
    let r = body_insert(bs, k, v);
    if bs.len() == 0 {
    } else if bs[0].0 == k {
        assert forall|m: int| 0 <= m < r.len() implies (#[trigger] r[m].0 == k || exists|j: int|
            0 <= j < bs.len() && r[m].0 == bs[j].0) by {
            if m == 0 {
                assert(r[0].0 == bs[0].0);
            } else {
                assert(r[m].0 == bs[m].0);
            }
        }
        if body_keys_unique(bs) {
            assert forall|i: int, j: int| 0 <= i < j < r.len() implies #[trigger] r[i].0
                != #[trigger] r[j].0 by {
                assert(r[i].0 == bs[i].0);
                assert(r[j].0 == bs[j].0);
            }
        }
    } else {
        lemma_body_insert_shape(bs.drop_first(), k, v);
        let rr = body_insert(bs.drop_first(), k, v);
        assert forall|m: int| 0 <= m < r.len() implies (#[trigger] r[m].0 == k || exists|j: int|
            0 <= j < bs.len() && r[m].0 == bs[j].0) by {
            if m == 0 {
                assert(r[0].0 == bs[0].0);
            } else {
                assert(r[m] == rr[m - 1]);
                if rr[m - 1].0 == k {
                } else {
                    let j0 = choose|j0: int|
                        0 <= j0 < bs.drop_first().len() && rr[m - 1].0 == bs.drop_first()[j0].0;
                    assert(bs.drop_first()[j0].0 == bs[j0 + 1].0);
                }
            }
        }
        if body_keys_unique(bs) {
            assert forall|i: int, j: int| 0 <= i < j < bs.drop_first().len() implies #[trigger] bs.drop_first()[i].0
                != #[trigger] bs.drop_first()[j].0 by {
                assert(bs.drop_first()[i].0 == bs[i + 1].0);
                assert(bs.drop_first()[j].0 == bs[j + 1].0);
            }
            assert(body_keys_unique(rr));
            assert forall|i: int, j: int| 0 <= i < j < r.len() implies #[trigger] r[i].0
                != #[trigger] r[j].0 by {
                if i == 0 {
                    assert(r[0].0 == bs[0].0);
                    assert(r[j] == rr[j - 1]);
                    if rr[j - 1].0 == k {
                    } else {
                        let j0 = choose|j0: int|
                            0 <= j0 < bs.drop_first().len() && rr[j - 1].0 == bs.drop_first()[j0].0;
                        assert(bs.drop_first()[j0].0 == bs[j0 + 1].0);
                    }
                } else {
                    assert(r[i] == rr[i - 1]);
                    assert(r[j] == rr[j - 1]);
                }
            }
        }
    }
}

proof fn lemma_header_insert_found(
    hs: Seq<(Seq<char>, Seq<char>)>,
    k: Seq<char>,
    v: Seq<char>,
    i: int,
)
    requires
        0 <= i < hs.len(),
        chars_eq_ic(hs[i].0, k),
        forall|j: int| 0 <= j < i ==> !chars_eq_ic(#[trigger] hs[j].0, k),
    ensures
        header_insert(hs, k, v) =~= hs.update(i, (hs[i].0, v)),
    decreases i,
{
    if i == 0 {
        assert(header_insert(hs, k, v) =~= hs.update(0, (hs[0].0, v)));
    } else {
        assert(!chars_eq_ic(hs[0].0, k));
        assert forall|j: int| 0 <= j < i - 1 implies !chars_eq_ic(
            #[trigger] hs.drop_first()[j].0,
            k,
        ) by {
            assert(hs.drop_first()[j].0 == hs[j + 1].0);
        }
        assert(hs.drop_first()[i - 1].0 == hs[i].0);
        lemma_header_insert_found(hs.drop_first(), k, v, i - 1);
        assert(header_insert(hs, k, v) =~= hs.update(i, (hs[i].0, v)));
    }
}

proof fn lemma_header_insert_missing(hs: Seq<(Seq<char>, Seq<char>)>, k: Seq<char>, v: Seq<char>)
    requires
        forall|j: int| 0 <= j < hs.len() ==> !chars_eq_ic(#[trigger] hs[j].0, k),
    ensures
        header_insert(hs, k, v) =~= hs.push((k, v)),
    decreases hs.len(),
{
    if hs.len() == 0 {
        assert(header_insert(hs, k, v) =~= hs.push((k, v)));
    } else {
        assert forall|j: int| 0 <= j < hs.drop_first().len() implies !chars_eq_ic(
            #[trigger] hs.drop_first()[j].0,
            k,
        ) by {
            assert(hs.drop_first()[j].0 == hs[j + 1].0);
        }
        lemma_header_insert_missing(hs.drop_first(), k, v);
        assert(header_insert(hs, k, v) =~= hs.push((k, v)));
    }
}

proof fn lemma_body_insert_found(
    bs: Seq<(Seq<char>, BodyValueV)>,
    k: Seq<char>,
    v: BodyValueV,
    i: int,
)
    requires
        0 <= i < bs.len(),
        bs[i].0 == k,
        forall|j: int| 0 <= j < i ==> #[trigger] bs[j].0 != k,
    ensures
        body_insert(bs, k, v) =~= bs.update(i, (bs[i].0, v)),
    decreases i,
{
    if i == 0 {
        assert(body_insert(bs, k, v) =~= bs.update(0, (bs[0].0, v)));
    } else {
        assert(bs[0].0 != k);
        assert forall|j: int| 0 <= j < i - 1 implies #[trigger] bs.drop_first()[j].0 != k by {
            assert(bs.drop_first()[j].0 == bs[j + 1].0);
        }
        assert(bs.drop_first()[i - 1].0 == bs[i].0);
        lemma_body_insert_found(bs.drop_first(), k, v, i - 1);
        assert(body_insert(bs, k, v) =~= bs.update(i, (bs[i].0, v)));
    }
}

proof fn lemma_body_insert_missing(bs: Seq<(Seq<char>, BodyValueV)>, k: Seq<char>, v: BodyValueV)
    requires
        forall|j: int| 0 <= j < bs.len() ==> #[trigger] bs[j].0 != k,
    ensures
        body_insert(bs, k, v) =~= bs.push((k, v)),
    decreases bs.len(),
{
    if bs.len() == 0 {
        assert(body_insert(bs, k, v) =~= bs.push((k, v)));
    } else {
        assert forall|j: int| 0 <= j < bs.drop_first().len() implies #[trigger] bs.drop_first()[j].0
            != k by {
            assert(bs.drop_first()[j].0 == bs[j + 1].0);
        }
        lemma_body_insert_missing(bs.drop_first(), k, v);
        assert(body_insert(bs, k, v) =~= bs.push((k, v)));
    }
}

/// Insert a header pair into the vector, last write winning on a name equal
/// up to ASCII case.
fn insert_header_pair(hs: &mut Vec<(String, String)>, k: String, v: String)
    ensures
        pairs_view(final(hs)@) == header_insert(pairs_view(old(hs)@), k@, v@),
{
    let ghost pre = hs@;
    let ghost orig = pairs_view(hs@);
    let mut i: usize = 0;
    while i < hs.len()
        invariant
            i <= hs@.len(),
            hs@ == pre,
            pre == old(hs)@,
            orig == pairs_view(pre),
            forall|j: int| 0 <= j < i ==> !chars_eq_ic(#[trigger] orig[j].0, k@),
        decreases hs@.len() - i,
    {
        let found = eq_ignore_case(hs[i].0.as_str(), k.as_str());
        if found {
            let ghost gv = v;
            let entry = hs.remove(i);
            let ghost ge = entry;
            let name = entry.0;
            hs.insert(i, (name, v));
            proof {
                lemma_header_insert_found(orig, k@, gv@, i as int);
                pre.remove_ensures(i as int);
                pre.remove(i as int).insert_ensures(i as int, (ge.0, gv));
                assert(hs@ == pre.remove(i as int).insert(i as int, (ge.0, gv)));
                assert forall|j: int| 0 <= j < pairs_view(hs@).len() implies pairs_view(hs@)[j]
                    == orig.update(i as int, (orig[i as int].0, gv@))[j] by {
                    if j < i as int {
                        assert(hs@[j] == pre[j]);
                    } else if j > i as int {
                        assert(hs@[j] == pre.remove(i as int)[j - 1]);
                        assert(pre.remove(i as int)[j - 1] == pre[j]);
                    } else {
                        assert(hs@[j] == (ge.0, gv));
                        assert(ge.0@ == orig[j].0);
                    }
                }
                assert(pairs_view(hs@) =~= orig.update(i as int, (orig[i as int].0, gv@)));
            }
            return ;
        }
        proof {
            assert(orig[i as int].0 == hs@[i as int].0@);
        }
        i = i + 1;
    }
    hs.push((k, v));
    proof {
        lemma_header_insert_missing(orig, k@, v@);
        assert(pairs_view(hs@) =~= orig.push((k@, v@)));
    }
}

/// Insert a body entry into the vector, last write winning on an equal key.
fn insert_body_entry(bs: &mut Vec<(String, BodyValue)>, k: String, v: BodyValue)
    ensures
        body_view(final(bs)@) == body_insert(body_view(old(bs)@), k@, v@),
{
    let ghost pre = bs@;
    let ghost orig = body_view(bs@);
    let mut i: usize = 0;
    while i < bs.len()
        invariant
            i <= bs@.len(),
            bs@ == pre,
            pre == old(bs)@,
            orig == body_view(pre),
            forall|j: int| 0 <= j < i ==> #[trigger] orig[j].0 != k@,
        decreases bs@.len() - i,
    {
        let found = bs[i].0.eq(&k);
        if found {
            let ghost gv = v;
            let entry = bs.remove(i);
            let ghost ge = entry;
            let name = entry.0;
            bs.insert(i, (name, v));
            proof {
                lemma_body_insert_found(orig, k@, gv@, i as int);
                pre.remove_ensures(i as int);
                pre.remove(i as int).insert_ensures(i as int, (ge.0, gv));
                assert(bs@ == pre.remove(i as int).insert(i as int, (ge.0, gv)));
                assert forall|j: int| 0 <= j < body_view(bs@).len() implies body_view(bs@)[j]
                    == orig.update(i as int, (orig[i as int].0, gv@))[j] by {
                    if j < i as int {
                        assert(bs@[j] == pre[j]);
                    } else if j > i as int {
                        assert(bs@[j] == pre.remove(i as int)[j - 1]);
                        assert(pre.remove(i as int)[j - 1] == pre[j]);
                    } else {
                        assert(bs@[j] == (ge.0, gv));
                        assert(ge.0@ == orig[j].0);
                    }
                }
                assert(body_view(bs@) =~= orig.update(i as int, (orig[i as int].0, gv@)));
            }
            return ;
        }
        proof {
            assert(orig[i as int].0 == bs@[i as int].0@);
        }
        i = i + 1;
    }
    bs.push((k, v));
    proof {
        lemma_body_insert_missing(orig, k@, v@);
        assert(body_view(bs@) =~= orig.push((k@, v@)));
    }
}

/// Whether a URL head already carries a query.
pub open spec fn has_query(u: Seq<char>) -> bool {
    find1(u, '?') >= 0
}

/// The query string of a URL head: everything after the first `?`, empty when
/// there is none.
pub open spec fn query_of(u: Seq<char>) -> Seq<char> {
    if find1(u, '?') < 0 {
        Seq::empty()
    } else {
        u.subrange(find1(u, '?') + 1, u.len() as int)
    }
}

/// The text appended to a URL head to fold in one query pair: `?` or `&`
/// depending on whether a query is already present, then the encoded pair.
pub open spec fn query_suffix(has_q: bool, k: Seq<char>, v: Seq<char>) -> Seq<char> {
    (if has_q {
        seq!['&']
    } else {
        seq!['?']
    }) + form_enc(k) + seq!['='] + form_enc(v)
}

/// The spec-level image of `RequestBuilder`: the URL head (everything before
/// the fragment, with appended query pairs), the fragment (empty or starting
/// with `#`), the header mapping, the body mapping, and the form-mode flag.
pub struct BuilderV {
    pub head: Seq<char>,
    pub frag: Seq<char>,
    pub headers: Seq<(Seq<char>, Seq<char>)>,
    pub body: Seq<(Seq<char>, BodyValueV)>,
    pub form: bool,
}

/// The request accumulator: one instance per invocation.
#[derive(Debug)]
pub struct RequestBuilder {
    url_head: String,
    url_frag: String,
    headers: Vec<(String, String)>,
    body: Vec<(String, BodyValue)>,
    form: bool,
}

impl View for RequestBuilder {
    type V = BuilderV;

    closed spec fn view(&self) -> BuilderV {
        BuilderV {
            head: self.url_head@,
            frag: self.url_frag@,
            headers: pairs_view(self.headers@),
            body: body_view(self.body@),
            form: self.form,
        }
    }
}

/// The accumulator's invariant: header names distinct up to ASCII case, body
/// keys distinct, and no `#` in the URL head (the fragment was split off).
pub open spec fn builder_wf(b: BuilderV) -> bool {
    headers_unique(b.headers) && body_keys_unique(b.body) && crate::token::no_one(b.head, '#')
}

/// The part of a normalized URL before its fragment.
pub open spec fn split_head(u: Seq<char>) -> Seq<char> {
    if find1(u, '#') < 0 {
        u
    } else {
        u.subrange(0, find1(u, '#'))
    }
}

/// The fragment of a normalized URL, `#` included; empty when there is none.
pub open spec fn split_frag(u: Seq<char>) -> Seq<char> {
    if find1(u, '#') < 0 {
        Seq::empty()
    } else {
        u.subrange(find1(u, '#'), u.len() as int)
    }
}

/// The effect of folding one token into the accumulator, or nothing when the
/// token is rejected (no grammar matches, or a JSON-typed value is invalid).
pub open spec fn apply_param(b: BuilderV, t: Seq<char>) -> Option<BuilderV> {
    match spec_classify(t) {
        None => None,
        Some(ParamKindV::QueryPair { key, value }) => Some(
            BuilderV { head: b.head + query_suffix(has_query(b.head), key, value), ..b },
        ),
        Some(ParamKindV::Header { key, value }) => Some(
            BuilderV { headers: header_insert(b.headers, key, value), ..b },
        ),
        Some(ParamKindV::BodyField { key, value }) => Some(
            BuilderV { body: body_insert(b.body, key, BodyValueV::Text(value)), ..b },
        ),
        Some(ParamKindV::JsonField { key, value }) => match json_canon(value) {
            Some(c) => Some(BuilderV { body: body_insert(b.body, key, BodyValueV::Json(c)), ..b }),
            None => None,
        },
    }
}

/// The effect of folding a sequence of tokens in order, or nothing when one
/// of them is rejected.
pub open spec fn apply_params(b: BuilderV, ts: Seq<Seq<char>>) -> Option<BuilderV>
    decreases ts.len(),
{
    if ts.len() == 0 {
        Some(b)
    } else {
        match apply_param(b, ts[0]) {
            Some(b2) => apply_params(b2, ts.drop_first()),
            None => None,
        }
    }
}

proof fn lemma_apply_params_push(b: BuilderV, ts: Seq<Seq<char>>, t: Seq<char>)
    ensures
        apply_params(b, ts.push(t)) == (match apply_params(b, ts) {
            Some(b2) => apply_param(b2, t),
            None => None,
        }),
    decreases ts.len(),
{
    if ts.len() == 0 {
        assert(ts.push(t)[0] == t);
        assert(ts.push(t).drop_first() =~= Seq::<Seq<char>>::empty());
        assert(apply_params(b, ts) == Some(b));
        match apply_param(b, t) {
            Some(b2) => {
                assert(apply_params(b, ts.push(t)) == apply_params(b2, ts.push(t).drop_first()));
                assert(apply_params(b2, ts.push(t).drop_first()) == Some(b2));
            },
            None => {
                assert(apply_params(b, ts.push(t)) is None);
            },
        }
    } else {
        assert(ts.push(t)[0] == ts[0]);
        assert(ts.push(t).drop_first() =~= ts.drop_first().push(t));
        match apply_param(b, ts[0]) {
            Some(b2) => {
                lemma_apply_params_push(b2, ts.drop_first(), t);
                assert(apply_params(b, ts.push(t)) == apply_params(b2, ts.drop_first().push(t)));
                assert(apply_params(b, ts) == apply_params(b2, ts.drop_first()));
            },
            None => {
                assert(apply_params(b, ts.push(t)) is None);
                assert(apply_params(b, ts) is None);
            },
        }
    }
}

/// An immutable request descriptor: the resolved URL, the header mapping, the
/// body mapping, and the form-mode flag.
#[derive(Debug)]
pub struct Request {
    pub url: String,
    pub headers: Vec<(String, String)>,
    pub body: Vec<(String, BodyValue)>,
    pub form: bool,
}

/// The spec-level image of `Request`.
pub struct ReqV {
    pub url: Seq<char>,
    pub headers: Seq<(Seq<char>, Seq<char>)>,
    pub body: Seq<(Seq<char>, BodyValueV)>,
    pub form: bool,
}

impl View for Request {
    type V = ReqV;

    open spec fn view(&self) -> ReqV {
        ReqV {
            url: self.url@,
            headers: pairs_view(self.headers@),
            body: body_view(self.body@),
            form: self.form,
        }
    }
}

/// The descriptor an accumulator state snapshots to.
pub open spec fn spec_build(b: BuilderV) -> ReqV {
    ReqV { url: b.head + b.frag, headers: b.headers, body: b.body, form: b.form }
}

/// Law: finalization is idempotent — two descriptors snapshotted from the
/// same accumulator state, with no fold in between, are identical.
pub proof fn lemma_finalize_idempotent(b: BuilderV, r1: ReqV, r2: ReqV)
    requires
        r1 == spec_build(b),
        r2 == spec_build(b),
    ensures
        r1 == r2,
{
}

pub(crate) fn dup_pairs(v: &Vec<(String, String)>) -> (r: Vec<(String, String)>)
    ensures
        pairs_view(r@) == pairs_view(v@),
{
    let mut r: Vec<(String, String)> = Vec::new();
    let mut i: usize = 0;
    while i < v.len()
        invariant
            i <= v@.len(),
            r@.len() == i,
            forall|j: int| 0 <= j < i ==> #[trigger] r@[j].0@ == v@[j].0@ && r@[j].1@ == v@[j].1@,
        decreases v@.len() - i,
    {
        let name = v[i].0.clone();
        let value = v[i].1.clone();
        r.push((name, value));
        i = i + 1;
    }
    proof {
        assert(pairs_view(r@) =~= pairs_view(v@));
    }
    r
}

fn dup_body(v: &Vec<(String, BodyValue)>) -> (r: Vec<(String, BodyValue)>)
    ensures
        body_view(r@) == body_view(v@),
{
    let mut r: Vec<(String, BodyValue)> = Vec::new();
    let mut i: usize = 0;
    while i < v.len()
        invariant
            i <= v@.len(),
            r@.len() == i,
            forall|j: int| 0 <= j < i ==> #[trigger] r@[j].0@ == v@[j].0@ && r@[j].1@ == v@[j].1@,
        decreases v@.len() - i,
    {
        let name = v[i].0.clone();
        let value = v[i].1.dup();
        r.push((name, value));
        i = i + 1;
    }
    proof {
        assert(body_view(r@) =~= body_view(v@));
    }
    r
}

impl Request {
    /// Start an accumulator: parse the base URL eagerly (failing fast on a
    /// malformed URL), split its fragment off, and begin with empty header
    /// and body mappings.
    pub fn new(url: &str, form: bool) -> (r: Result<RequestBuilder, Error>)
        ensures
            match r {
                Ok(b) => builder_wf(b@) && (url_parsed(url@) matches Some(n) && b@.head
                    == split_head(n) && b@.frag == split_frag(n) && b@.head + b@.frag == n)
                    && b@.headers.len() == 0 && b@.body.len() == 0 && b@.form == form,
                Err(e) => url_parsed(url@) is None && e.spec_kind() == ErrorKind::Url,
            },
    {
        match parse_url(url) {
            Err(m) => Err(Error::new(ErrorKind::Url, m)),
            Ok(n) => {
                let nlen = n.as_str().unicode_len();
                let (head, frag) = match crate::token::find_one(n.as_str(), '#') {
                    Some(h) => (
                        String::from_str(n.as_str().substring_char(0, h)),
                        String::from_str(n.as_str().substring_char(h, nlen)),
                    ),
                    None => (n, String::new()),
                };
                proof {
                    lemma_find1_from(n@, '#', 0);
                }
                Ok(
                    RequestBuilder {
                        url_head: head,
                        url_frag: frag,
                        headers: Vec::new(),
                        body: Vec::new(),
                        form,
                    },
                )
            },
        }
    }
}

impl RequestBuilder {
    /// Classify one token and merge it into its destination: a query pair is
    /// appended to the URL head (encoded), a header or body field is inserted
    /// with last-write-wins, a JSON-typed field is validated and stored in
    /// canonical form. A rejected token leaves the accumulator unchanged.
    pub fn add_param(&mut self, param: &str) -> (r: Result<(), Error>)
        requires
            builder_wf(old(self)@),
        ensures
            builder_wf(final(self)@),
            match apply_param(old(self)@, param@) {
                Some(b2) => r matches Ok(u) && final(self)@ == b2,
                None => final(self)@ == old(self)@ && (r matches Err(e) && (match spec_classify(
                    param@,
                ) {
                    None => e.spec_kind() == ErrorKind::Argument && e.spec_detail() == param@,
                    Some(_) => e.spec_kind() == ErrorKind::Json,
                })),
            },
    {
        let p = match classify(param) {
            Ok(p) => p,
            Err(e) => {
                return Err(e);
            },
        };
        match p {
            ParamKind::QueryPair { key, value } => {
                let ghost pre = self@;
                let has_q = crate::token::find_one(self.url_head.as_str(), '?').is_some();
                if has_q {
                    self.url_head.append("&");
                } else {
                    self.url_head.append("?");
                }
                let ek = form_encode(key.as_str());
                self.url_head.append(ek.as_str());
                self.url_head.append("=");
                let ev = form_encode(value.as_str());
                self.url_head.append(ev.as_str());
                proof {
                    reveal_strlit("&");
                    reveal_strlit("?");
                    reveal_strlit("=");
                    assert("&"@ =~= seq!['&']);
                    assert("?"@ =~= seq!['?']);
                    assert("="@ =~= seq!['=']);
                    assert(self.url_head@ =~= pre.head + query_suffix(
                        has_query(pre.head),
                        key@,
                        value@,
                    ));
                    lemma_form_enc_chars(key@);
                    lemma_form_enc_chars(value@);
                    assert forall|j: int| 0 <= j < self.url_head@.len() implies self.url_head@[j]
                        != '#' by {
                        let sfx = query_suffix(has_query(pre.head), key@, value@);
                        if j >= pre.head.len() {
                            let m = j - pre.head.len();
                            assert(sfx[m] == self.url_head@[j]);
                            if m == 0 {
                            } else if m <= form_enc(key@).len() {
                                assert(sfx[m] == form_enc(key@)[m - 1]);
                                assert(form_enc_output_char(form_enc(key@)[m - 1]));
                            } else if m == form_enc(key@).len() + 1 {
                                assert(sfx[m] == '=');
                            } else {
                                assert(sfx[m] == form_enc(value@)[m - form_enc(key@).len() - 2]);
                                assert(form_enc_output_char(
                                    form_enc(value@)[m - form_enc(key@).len() - 2],
                                ));
                            }
                        }
                    }
                    assert(self@ == apply_param(pre, param@).unwrap());
                }
                Ok(())
            },
            ParamKind::Header { key, value } => {
                let ghost pre = self@;
                insert_header_pair(&mut self.headers, key, value);
                proof {
                    lemma_header_insert_shape(pre.headers, key@, value@);
                    assert(self@ == apply_param(pre, param@).unwrap());
                }
                Ok(())
            },
            ParamKind::BodyField { key, value } => {
                let ghost pre = self@;
                insert_body_entry(&mut self.body, key, BodyValue::Text(value));
                proof {
                    lemma_body_insert_shape(pre.body, key@, BodyValueV::Text(value@));
                    assert(self@ == apply_param(pre, param@).unwrap());
                }
                Ok(())
            },
            ParamKind::JsonField { key, value } => {
                match canonical_json(value.as_str()) {
                    Ok(c) => {
                        let ghost pre = self@;
                        let ghost cv = c@;
                        insert_body_entry(&mut self.body, key, BodyValue::Json(c));
                        proof {
                            lemma_body_insert_shape(pre.body, key@, BodyValueV::Json(cv));
                            assert(self@ == apply_param(pre, param@).unwrap());
                        }
                        Ok(())
                    },
                    Err(m) => Err(Error::new(ErrorKind::Json, m)),
                }
            },
        }
    }

    /// Fold in each token in order, stopping at the first rejected token:
    /// state accumulated from earlier tokens is kept (the descriptor is never
    /// used after a failure), and nothing panics.
    pub fn add_params(&mut self, params: &Vec<String>) -> (r: Result<(), Error>)
        requires
            builder_wf(old(self)@),
        ensures
            builder_wf(final(self)@),
            match apply_params(old(self)@, params.deep_view()) {
                Some(b2) => r matches Ok(u) && final(self)@ == b2,
                None => r matches Err(e) && (e.spec_kind() == ErrorKind::Argument || e.spec_kind()
                    == ErrorKind::Json) && exists|i: int|
                    0 <= i < params.deep_view().len() && apply_params(
                        old(self)@,
                        #[trigger] params.deep_view().take(i),
                    ) == Some(final(self)@) && apply_param(final(self)@, params.deep_view()[i])
                        is None,
            },
    {
        let ghost ts = params.deep_view();
        let ghost start = self@;
        let mut i: usize = 0;
        proof {
            assert(ts.take(0) =~= Seq::<Seq<char>>::empty());
        }
        while i < params.len()
            invariant
                builder_wf(self@),
                i <= params@.len(),
                ts == params.deep_view(),
                ts.len() == params@.len(),
                start == old(self)@,
                apply_params(start, ts.take(i as int)) == Some(self@),
                forall|j: int| 0 <= j < ts.len() ==> #[trigger] ts[j] == params@[j]@,
            decreases params@.len() - i,
        {
            let ghost before = self@;
            match self.add_param(params[i].as_str()) {
                Ok(_) => {
                    proof {
                        lemma_apply_params_push(start, ts.take(i as int), ts[i as int]);
                        assert(ts.take(i + 1) =~= ts.take(i as int).push(ts[i as int]));
                    }
                },
                Err(e) => {
                    proof {
                        lemma_apply_params_push(start, ts.take(i as int), ts[i as int]);
                        assert(ts.take(i + 1) =~= ts.take(i as int).push(ts[i as int]));
                        assert(apply_params(start, ts.take(i + 1)) is None);
                        lemma_apply_params_none(start, ts, i as int);
                    }
                    return Err(e);
                },
            }
            i = i + 1;
        }
        proof {
            assert(ts.take(ts.len() as int) =~= ts);
        }
        Ok(())
    }

    /// Snapshot the accumulator into an immutable descriptor. The accumulator
    /// itself is unaffected and can be snapshotted again.
    pub fn build(&self) -> (r: Request)
        ensures
            r@ == spec_build(self@),
    {
        let mut url = self.url_head.clone();
        url.append(self.url_frag.as_str());
        Request {
            url,
            headers: dup_pairs(&self.headers),
            body: dup_body(&self.body),
            form: self.form,
        }
    }
}

/// One query pair as it appears inside a query string: encoded key, `=`,
/// encoded value.
pub open spec fn pair_text(k: Seq<char>, v: Seq<char>) -> Seq<char> {
    form_enc(k) + seq!['='] + form_enc(v)
}

/// A sequence of query pairs as they appear inside a query string, joined by
/// `&`.
pub open spec fn joined_pairs(ps: Seq<(Seq<char>, Seq<char>)>) -> Seq<char>
    decreases ps.len(),
{
    if ps.len() == 0 {
        Seq::empty()
    } else if ps.len() == 1 {
        pair_text(ps[0].0, ps[0].1)
    } else {
        pair_text(ps[0].0, ps[0].1) + seq!['&'] + joined_pairs(ps.drop_first())
    }
}

/// A URL head after folding in a sequence of query pairs, one at a time.
pub open spec fn append_pairs(head: Seq<char>, ps: Seq<(Seq<char>, Seq<char>)>) -> Seq<char>
    decreases ps.len(),
{
    if ps.len() == 0 {
        head
    } else {
        append_pairs(head + query_suffix(has_query(head), ps[0].0, ps[0].1), ps.drop_first())
    }
}

proof fn lemma_find1_concat_left(a: Seq<char>, b: Seq<char>, c0: char)
    requires
        find1(a, c0) >= 0,
    ensures
        find1(a + b, c0) == find1(a, c0),
{
    crate::token::lemma_find1_from(a, c0, 0);
    let r = find1(a, c0);
    assert((a + b)[r] == c0);
    assert forall|j: int| 0 <= j < r implies (a + b)[j] != c0 by {
        assert((a + b)[j] == a[j]);
    }
    crate::token::lemma_find1_at(a + b, c0, r);
}

proof fn lemma_find1_concat_right(a: Seq<char>, b: Seq<char>, c0: char)
    requires
        find1(a, c0) == -1,
    ensures
        find1(b, c0) == -1 ==> find1(a + b, c0) == -1,
        find1(b, c0) >= 0 ==> find1(a + b, c0) == a.len() + find1(b, c0),
{
    crate::token::lemma_find1_from(a, c0, 0);
    crate::token::lemma_find1_from(b, c0, 0);
    if find1(b, c0) == -1 {
        assert forall|j: int| 0 <= j < (a + b).len() implies (a + b)[j] != c0 by {
            if j < a.len() {
                assert((a + b)[j] == a[j]);
            } else {
                assert((a + b)[j] == b[j - a.len()]);
            }
        }
        crate::token::lemma_find1_absent(a + b, c0);
    } else {
        let rb = find1(b, c0);
        assert((a + b)[a.len() + rb] == b[rb]);
        assert forall|j: int| 0 <= j < a.len() + rb implies (a + b)[j] != c0 by {
            if j < a.len() {
                assert((a + b)[j] == a[j]);
            } else {
                assert((a + b)[j] == b[j - a.len()]);
            }
        }
        crate::token::lemma_find1_at(a + b, c0, a.len() + rb);
    }
}

proof fn lemma_pair_text_no_qmark(k: Seq<char>, v: Seq<char>)
    ensures
        crate::token::no_one(pair_text(k, v), '?'),
{
    lemma_form_enc_chars(k);
    lemma_form_enc_chars(v);
    let p = pair_text(k, v);
    assert forall|j: int| 0 <= j < p.len() implies p[j] != '?' by {
        if j < form_enc(k).len() {
            assert(p[j] == form_enc(k)[j]);
            assert(form_enc_output_char(form_enc(k)[j]));
        } else if j == form_enc(k).len() {
            assert(p[j] == '=');
        } else {
            assert(p[j] == form_enc(v)[j - form_enc(k).len() - 1]);
            assert(form_enc_output_char(form_enc(v)[j - form_enc(k).len() - 1]));
        }
    }
}

/// Law: the URL's query string after accumulation equals the original URL's
/// query string with each query pair appended in token order — untouched when
/// no query pair was folded in. A head without a query gains `?` and then
/// exactly the joined pairs; a head with one keeps its query and gains `&`
/// and the joined pairs.
pub proof fn lemma_query_accumulation(head: Seq<char>, ps: Seq<(Seq<char>, Seq<char>)>)
    ensures
        query_of(append_pairs(head, ps)) == (if has_query(head) {
            if ps.len() == 0 {
                query_of(head)
            } else {
                query_of(head) + seq!['&'] + joined_pairs(ps)
            }
        } else {
            joined_pairs(ps)
        }),
    decreases ps.len(),
{
    crate::token::lemma_find1_from(head, '?', 0);
    if ps.len() == 0 {
    } else {
        let k = ps[0].0;
        let v = ps[0].1;
        let hq = has_query(head);
        let sfx = query_suffix(hq, k, v);
        let head2 = head + sfx;
        assert(append_pairs(head, ps) == append_pairs(head2, ps.drop_first()));
        lemma_pair_text_no_qmark(k, v);
        assert(sfx =~= (if hq {
            seq!['&']
        } else {
            seq!['?']
        }) + pair_text(k, v));
        if !hq {
            assert(find1(head, '?') == -1);
            assert(sfx[0] == '?');
            assert forall|j: int| 0 <= j < sfx.len() implies (j == 0 || sfx[j] != '?') by {
                if j > 0 {
                    assert(sfx[j] == pair_text(k, v)[j - 1]);
                }
            }
            crate::token::lemma_find1_at(sfx, '?', 0);
            lemma_find1_concat_right(head, sfx, '?');
            assert(find1(head2, '?') == head.len());
            assert(has_query(head2));
            assert(query_of(head2) =~= pair_text(k, v));
            lemma_query_accumulation(head2, ps.drop_first());
            if ps.len() == 1 {
                assert(ps.drop_first().len() == 0);
                assert(query_of(append_pairs(head2, ps.drop_first())) == query_of(head2));
                assert(joined_pairs(ps) == pair_text(k, v));
            } else {
                assert(query_of(append_pairs(head2, ps.drop_first())) == query_of(head2)
                    + seq!['&'] + joined_pairs(ps.drop_first()));
                assert(query_of(head2) + seq!['&'] + joined_pairs(ps.drop_first()) =~= pair_text(
                    k,
                    v,
                ) + seq!['&'] + joined_pairs(ps.drop_first()));
                assert(joined_pairs(ps) == pair_text(k, v) + seq!['&'] + joined_pairs(
                    ps.drop_first(),
                ));
            }
        } else {
            let rq = find1(head, '?');
            assert(sfx[0] == '&');
            assert forall|j: int| 0 <= j < sfx.len() implies sfx[j] != '?' by {
                if j > 0 {
                    assert(sfx[j] == pair_text(k, v)[j - 1]);
                }
            }
            crate::token::lemma_find1_absent(sfx, '?');
            lemma_find1_concat_left(head, sfx, '?');
            assert(find1(head2, '?') == rq);
            assert(has_query(head2));
            assert(query_of(head2) =~= query_of(head) + sfx);
            lemma_query_accumulation(head2, ps.drop_first());
            if ps.len() == 1 {
                assert(query_of(append_pairs(head2, ps.drop_first())) == query_of(head2));
                assert(query_of(head) + sfx =~= query_of(head) + seq!['&'] + joined_pairs(ps));
            } else {
                assert(query_of(append_pairs(head2, ps.drop_first())) == query_of(head2)
                    + seq!['&'] + joined_pairs(ps.drop_first()));
                assert(query_of(head2) + seq!['&'] + joined_pairs(ps.drop_first()) =~= query_of(
                    head,
                ) + seq!['&'] + (pair_text(k, v) + seq!['&'] + joined_pairs(ps.drop_first())));
                assert(joined_pairs(ps) == pair_text(k, v) + seq!['&'] + joined_pairs(
                    ps.drop_first(),
                ));
            }
        }
    }
}

/// The query pairs among a token sequence, in classification order.
pub open spec fn query_pairs_of(ts: Seq<Seq<char>>) -> Seq<(Seq<char>, Seq<char>)>
    decreases ts.len(),
{
    if ts.len() == 0 {
        Seq::empty()
    } else {
        let rest = query_pairs_of(ts.drop_first());
        match spec_classify(ts[0]) {
            Some(ParamKindV::QueryPair { key, value }) => seq![(key, value)] + rest,
            _ => rest,
        }
    }
}

/// Law: over any accepted token sequence, the accumulator's URL head is the
/// original head with exactly the query tokens' pairs folded in, in token
/// order; the other token kinds leave it untouched.
pub proof fn lemma_accumulated_head(b: BuilderV, ts: Seq<Seq<char>>, b2: BuilderV)
    requires
        apply_params(b, ts) == Some(b2),
    ensures
        b2.head == append_pairs(b.head, query_pairs_of(ts)),
    decreases ts.len(),
{
    if ts.len() == 0 {
    } else {
        let b1 = apply_param(b, ts[0]).unwrap();
        lemma_accumulated_head(b1, ts.drop_first(), b2);
        let rest = query_pairs_of(ts.drop_first());
        match spec_classify(ts[0]) {
            Some(ParamKindV::QueryPair { key, value }) => {
                assert(b1.head == b.head + query_suffix(has_query(b.head), key, value));
                let ps = seq![(key, value)] + rest;
                assert(ps[0] == (key, value));
                assert(ps.drop_first() =~= rest);
                assert(append_pairs(b.head, ps) == append_pairs(b1.head, rest));
            },
            Some(ParamKindV::Header { key, value }) => {
                assert(b1.head == b.head);
            },
            Some(ParamKindV::BodyField { key, value }) => {
                assert(b1.head == b.head);
            },
            Some(ParamKindV::JsonField { key, value }) => {
                assert(b1.head == b.head);
            },
            None => {
                assert(false);
            },
        }
    }
}

/// Law: the URL's query string after accumulation equals the original URL's
/// query string with each query pair appended in token order, and is
/// untouched when no query token was supplied.
pub proof fn lemma_query_string_after_accumulation(b: BuilderV, ts: Seq<Seq<char>>, b2: BuilderV)
    requires
        apply_params(b, ts) == Some(b2),
    ensures
        query_of(b2.head) == (if has_query(b.head) {
            if query_pairs_of(ts).len() == 0 {
                query_of(b.head)
            } else {
                query_of(b.head) + seq!['&'] + joined_pairs(query_pairs_of(ts))
            }
        } else {
            joined_pairs(query_pairs_of(ts))
        }),
{
    lemma_accumulated_head(b, ts, b2);
    lemma_query_accumulation(b.head, query_pairs_of(ts));
}

proof fn lemma_apply_params_none(b: BuilderV, ts: Seq<Seq<char>>, i: int)
    requires
        0 <= i < ts.len(),
        apply_params(b, ts.take(i + 1)) is None,
    ensures
        apply_params(b, ts) is None,
    decreases ts.len(),
{
    if i == 0 {
        assert(ts.take(1).len() == 1);
        assert(ts.take(1)[0] == ts[0]);
        assert(ts.take(1).drop_first() =~= Seq::<Seq<char>>::empty());
        if apply_param(b, ts[0]) is Some {
            let b2 = apply_param(b, ts[0]).unwrap();
            assert(apply_params(b, ts.take(1)) == apply_params(b2, ts.take(1).drop_first()));
            assert(apply_params(b2, ts.take(1).drop_first()) == Some(b2));
            assert(false);
        }
    } else {
        assert(ts.take(i + 1)[0] == ts[0]);
        match apply_param(b, ts[0]) {
            None => {},
            Some(b2) => {
                assert(ts.take(i + 1).drop_first() =~= ts.drop_first().take(i));
                lemma_apply_params_none(b2, ts.drop_first(), i - 1);
            },
        }
    }
}

} // verus!
