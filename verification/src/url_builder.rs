//! A standalone URL query builder with a two-pattern token grammar of its
//! own: a token holding a `key=value` split — a maximal run of non-`=`
//! characters, one `=`, and another maximal non-empty run — appends that pair
//! to the URL's query string; a token whose first such shape is `key==value`
//! (the runs separated by two `=`) is accepted and ignored; any other token
//! is rejected. The earliest position where a pattern matches wins.

use vstd::prelude::*;
use vstd::string::*;

use crate::encode::form_encode;
use crate::error::{Error, ErrorKind};
use crate::outside::{parse_url, url_parsed};
use crate::request::{has_query, query_suffix, split_frag, split_head};
use crate::token::find_one;

verus! {

/// Whether position `i` is the `=` of a `key=value` match: preceded and
/// followed by a non-`=` character.
pub open spec fn pair_sep_at(t: Seq<char>, i: int) -> bool {
    1 <= i && i + 1 < t.len() && t[i] == '=' && t[i - 1] != '=' && t[i + 1] != '='
}

/// The first `key=value` separator position at or after `i`, or `-1`.
pub open spec fn pair_sep_from(t: Seq<char>, i: int) -> int
    decreases t.len() - i,
{
    if i < 1 || i + 1 >= t.len() {
        -1
    } else if pair_sep_at(t, i) {
        i
    } else {
        pair_sep_from(t, i + 1)
    }
}

/// The first `key=value` separator position, or `-1`.
pub open spec fn pair_sep_index(t: Seq<char>) -> int {
    pair_sep_from(t, 1)
}

/// Whether position `i` starts the `==` of a `key==value` match.
pub open spec fn skip_sep_at(t: Seq<char>, i: int) -> bool {
    1 <= i && i + 2 < t.len() && t[i] == '=' && t[i + 1] == '=' && t[i - 1] != '=' && t[i + 2]
        != '='
}

/// The first `key==value` separator position at or after `i`, or `-1`.
pub open spec fn skip_sep_from(t: Seq<char>, i: int) -> int
    decreases t.len() - i,
{
    if i < 1 || i + 2 >= t.len() {
        -1
    } else if skip_sep_at(t, i) {
        i
    } else {
        skip_sep_from(t, i + 1)
    }
}

/// The first `key==value` separator position, or `-1`.
pub open spec fn skip_sep_index(t: Seq<char>) -> int {
    skip_sep_from(t, 1)
}

/// The start of the maximal non-`=` run ending just before `i`.
pub open spec fn run_start(t: Seq<char>, i: int) -> int
    decreases i,
{
    if i <= 0 {
        0
    } else if t[i - 1] == '=' {
        i
    } else {
        run_start(t, i - 1)
    }
}

/// The end of the maximal non-`=` run starting at `i`.
pub open spec fn run_end(t: Seq<char>, i: int) -> int
    decreases t.len() - i,
{
    if i >= t.len() {
        t.len() as int
    } else if t[i] == '=' {
        i
    } else {
        run_end(t, i + 1)
    }
}

/// The query pair a token contributes, if it matches `key=value`.
pub open spec fn url_pair(t: Seq<char>) -> Option<(Seq<char>, Seq<char>)> {
    let qi = pair_sep_index(t);
    if qi < 0 {
        None
    } else {
        Some(
            (t.subrange(run_start(t, qi), qi), t.subrange(qi + 1, run_end(t, qi + 1))),
        )
    }
}

/// The effect of one token on the URL head: a matched pair is appended
/// (encoded), a `key==value` token leaves it unchanged, anything else is
/// rejected.
pub open spec fn url_apply(head: Seq<char>, t: Seq<char>) -> Option<Seq<char>> {
    match url_pair(t) {
        Some((k, v)) => Some(head + query_suffix(has_query(head), k, v)),
        None => if skip_sep_index(t) >= 0 {
            Some(head)
        } else {
            None
        },
    }
}

/// The effect of a sequence of tokens in order, or nothing when one is
/// rejected.
pub open spec fn url_apply_all(head: Seq<char>, ts: Seq<Seq<char>>) -> Option<Seq<char>>
    decreases ts.len(),
{
    if ts.len() == 0 {
        Some(head)
    } else {
        match url_apply(head, ts[0]) {
            Some(h2) => url_apply_all(h2, ts.drop_first()),
            None => None,
        }
    }
}

proof fn lemma_url_apply_all_push(head: Seq<char>, ts: Seq<Seq<char>>, t: Seq<char>)
    ensures
        url_apply_all(head, ts.push(t)) == (match url_apply_all(head, ts) {
            Some(h2) => url_apply(h2, t),
            None => None,
        }),
    decreases ts.len(),
{
    if ts.len() == 0 {
        assert(ts.push(t)[0] == t);
        assert(ts.push(t).drop_first() =~= Seq::<Seq<char>>::empty());
        match url_apply(head, t) {
            Some(h2) => {
                assert(url_apply_all(head, ts.push(t)) == url_apply_all(
                    h2,
                    ts.push(t).drop_first(),
                ));
                assert(url_apply_all(h2, ts.push(t).drop_first()) == Some(h2));
            },
            None => {},
        }
    } else {
        assert(ts.push(t)[0] == ts[0]);
        assert(ts.push(t).drop_first() =~= ts.drop_first().push(t));
        match url_apply(head, ts[0]) {
            Some(h2) => {
                lemma_url_apply_all_push(h2, ts.drop_first(), t);
            },
            None => {},
        }
    }
}

/// Find the first `key=value` separator position.
fn find_pair_sep(t: &str) -> (r: Option<usize>)
    ensures
        match r {
            Some(i) => pair_sep_index(t@) == i && 0 < i && i + 1 < t@.len(),
            None => pair_sep_index(t@) == -1,
        },
{
    let n = t.unicode_len();
    if n < 3 {
        return None;
    }
    let mut i: usize = 1;
    while i + 1 < n
        invariant
            1 <= i,
            i + 1 <= n,
            n == t@.len(),
            pair_sep_index(t@) == pair_sep_from(t@, i as int),
        decreases n - i,
    {
        if t.get_char(i) == '=' && t.get_char(i - 1) != '=' && t.get_char(i + 1) != '=' {
            return Some(i);
        }
        i = i + 1;
    }
    None
}

/// Find the first `key==value` separator position.
fn find_skip_sep(t: &str) -> (r: Option<usize>)
    ensures
        match r {
            Some(i) => skip_sep_index(t@) == i,
            None => skip_sep_index(t@) == -1,
        },
{
    let n = t.unicode_len();
    if n < 4 {
        return None;
    }
    let mut i: usize = 1;
    while i + 2 < n
        invariant
            1 <= i,
            i + 2 <= n,
            n == t@.len(),
            skip_sep_index(t@) == skip_sep_from(t@, i as int),
        decreases n - i,
    {
        if t.get_char(i) == '=' && t.get_char(i + 1) == '=' && t.get_char(i - 1) != '='
            && t.get_char(i + 2) != '=' {
            return Some(i);
        }
        i = i + 1;
    }
    None
}

/// Find the start of the maximal non-`=` run ending just before `q`.
fn find_run_start(t: &str, q: usize) -> (r: usize)
    requires
        q < t@.len(),
    ensures
        r == run_start(t@, q as int),
        r <= q,
{
    let mut j: usize = q;
    while j > 0
        invariant
            j <= q,
            q < t@.len(),
            run_start(t@, q as int) == run_start(t@, j as int),
        decreases j,
    {
        if t.get_char(j - 1) == '=' {
            return j;
        }
        j = j - 1;
    }
    j
}

/// Find the end of the maximal non-`=` run starting at `s`.
fn find_run_end(t: &str, s: usize) -> (r: usize)
    requires
        s <= t@.len(),
    ensures
        r == run_end(t@, s as int),
        s <= r <= t@.len(),
{
    let n = t.unicode_len();
    let mut m: usize = s;
    while m < n
        invariant
            s <= m <= n,
            n == t@.len(),
            run_end(t@, s as int) == run_end(t@, m as int),
        decreases n - m,
    {
        if t.get_char(m) == '=' {
            return m;
        }
        m = m + 1;
    }
    m
}

/// The spec-level image of `UrlBuilder`: the URL up to its fragment, and the
/// fragment.
pub struct UrlBuilderV {
    pub head: Seq<char>,
    pub frag: Seq<char>,
}

/// A URL under construction: query pairs can be folded in, the fragment
/// stays at the end.
#[derive(Debug)]
pub struct UrlBuilder {
    url_head: String,
    url_frag: String,
}

impl View for UrlBuilder {
    type V = UrlBuilderV;

    closed spec fn view(&self) -> UrlBuilderV {
        UrlBuilderV { head: self.url_head@, frag: self.url_frag@ }
    }
}

impl UrlBuilder {
    /// Parse the base URL eagerly, failing fast when it is malformed.
    pub fn parse(url: &str) -> (r: Result<UrlBuilder, Error>)
        ensures
            match r {
                Ok(b) => url_parsed(url@) matches Some(n) && b@.head == split_head(n) && b@.frag
                    == split_frag(n) && b@.head + b@.frag == n,
                Err(e) => url_parsed(url@) is None && e.spec_kind() == ErrorKind::Url,
            },
    {
        match parse_url(url) {
            Err(m) => Err(Error::new(ErrorKind::Url, m)),
            Ok(n) => {
                let nlen = n.as_str().unicode_len();
                let (head, frag) = match find_one(n.as_str(), '#') {
                    Some(h) => (
                        String::from_str(n.as_str().substring_char(0, h)),
                        String::from_str(n.as_str().substring_char(h, nlen)),
                    ),
                    None => (n, String::new()),
                };
                Ok(UrlBuilder { url_head: head, url_frag: frag })
            },
        }
    }

    /// Fold one token into the query string, ignore it, or reject it, per
    /// the grammar above.
    fn add_param(&mut self, param: &str) -> (r: Result<(), Error>)
        ensures
            final(self)@.frag == old(self)@.frag,
            match url_apply(old(self)@.head, param@) {
                Some(h2) => r matches Ok(u) && final(self)@.head == h2,
                None => final(self)@ == old(self)@ && (r matches Err(e) && e.spec_kind()
                    == ErrorKind::Argument && e.spec_detail() == param@),
            },
    {
        let t = param;
        let n = t.unicode_len();
        if let Some(q) = find_pair_sep(t) {
            let j = find_run_start(t, q);
            let m = find_run_end(t, q + 1);
            let key = t.substring_char(j, q);
            let value = t.substring_char(q + 1, m);
            let ghost pre = self@;
            let has_q = find_one(self.url_head.as_str(), '?').is_some();
            if has_q {
                self.url_head.append("&");
            } else {
                self.url_head.append("?");
            }
            let ek = form_encode(key);
            self.url_head.append(ek.as_str());
            self.url_head.append("=");
            let ev = form_encode(value);
            self.url_head.append(ev.as_str());
            proof {
                reveal_strlit("&");
                reveal_strlit("?");
                reveal_strlit("=");
                assert("&"@ =~= seq!['&']);
                assert("?"@ =~= seq!['?']);
                assert("="@ =~= seq!['=']);
                assert(self.url_head@ =~= pre.head + query_suffix(
                    has_query(pre.head),
                    key@,
                    value@,
                ));
            }
            return Ok(());
        }
        if find_skip_sep(t).is_some() {
            return Ok(());
        }
        Err(Error::argument_error(param))
    }

    /// Fold in each token in order, failing on the first rejected one.
    pub fn add_params(&mut self, values: &Vec<String>) -> (r: Result<(), Error>)
        ensures
            final(self)@.frag == old(self)@.frag,
            match url_apply_all(old(self)@.head, values.deep_view()) {
                Some(h2) => r matches Ok(u) && final(self)@.head == h2,
                None => r matches Err(e) && e.spec_kind() == ErrorKind::Argument,
            },
    {
        let ghost ts = values.deep_view();
        let ghost start = self@;
        let mut i: usize = 0;
        proof {
            assert(ts.take(0) =~= Seq::<Seq<char>>::empty());
        }
        while i < values.len()
            invariant
                i <= values@.len(),
                ts == values.deep_view(),
                ts.len() == values@.len(),
                start == old(self)@,
                self@.frag == start.frag,
                url_apply_all(start.head, ts.take(i as int)) == Some(self@.head),
                forall|j: int| 0 <= j < ts.len() ==> #[trigger] ts[j] == values@[j]@,
            decreases values@.len() - i,
        {
            match self.add_param(values[i].as_str()) {
                Ok(_) => {
                    proof {
                        lemma_url_apply_all_push(start.head, ts.take(i as int), ts[i as int]);
                        assert(ts.take(i + 1) =~= ts.take(i as int).push(ts[i as int]));
                    }
                },
                Err(e) => {
                    proof {
                        lemma_url_apply_all_push(start.head, ts.take(i as int), ts[i as int]);
                        assert(ts.take(i + 1) =~= ts.take(i as int).push(ts[i as int]));
                        lemma_url_apply_all_none(start.head, ts, i as int);
                    }
                    return Err(e);
                },
            }
            i = i + 1;
        }
        proof {
            assert(ts.take(ts.len() as int) =~= ts);
        }
        Ok(())
    }

    /// The URL as text, fragment re-attached.
    pub fn build(self) -> (r: String)
        ensures
            r@ == self@.head + self@.frag,
    {
        let mut url = self.url_head;
        url.append(self.url_frag.as_str());
        url
    }
}

proof fn lemma_url_apply_all_none(head: Seq<char>, ts: Seq<Seq<char>>, i: int)
    requires
        0 <= i < ts.len(),
        url_apply_all(head, ts.take(i + 1)) is None,
    ensures
        url_apply_all(head, ts) is None,
    decreases ts.len(),
{
    if i == 0 {
        assert(ts.take(1).len() == 1);
        assert(ts.take(1)[0] == ts[0]);
        assert(ts.take(1).drop_first() =~= Seq::<Seq<char>>::empty());
        if url_apply(head, ts[0]) is Some {
            let h2 = url_apply(head, ts[0]).unwrap();
            assert(url_apply_all(head, ts.take(1)) == url_apply_all(h2, ts.take(1).drop_first()));
            assert(url_apply_all(h2, ts.take(1).drop_first()) == Some(h2));
            assert(false);
        }
    } else {
        assert(ts.take(i + 1)[0] == ts[0]);
        match url_apply(head, ts[0]) {
            None => {},
            Some(h2) => {
                assert(ts.take(i + 1).drop_first() =~= ts.drop_first().take(i));
                lemma_url_apply_all_none(h2, ts.drop_first(), i - 1);
            },
        }
    }
}

} // verus!
