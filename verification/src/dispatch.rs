//! The request dispatcher's decisions: the supported methods, the method
//! semantics (which requests carry a body), the body serialization (JSON or
//! form-encoded, per the form-mode flag), and the content-type selection —
//! everything about sending a request except the transport itself, which the
//! surrounding program performs on the plan produced here.
//!
//! A JSON-typed body field under form mode serializes through its canonical
//! JSON text, form-encoded like any other value.

use vstd::prelude::*;
use vstd::string::*;

use crate::encode::{form_enc, form_encode, json_escape, json_escaped};
use crate::request::{
    body_view, chars_eq_ic, dup_pairs, eq_ignore_case, pairs_view, BodyValue, BodyValueV, Request,
};

verus! {

/// The supported HTTP methods. A method string is validated into this type
/// before it can reach the dispatcher.
#[derive(Clone, Copy, PartialEq, Eq, Structural, Debug)]
pub enum Method {
    Delete,
    Get,
    Head,
    Options,
    Patch,
    Post,
    Put,
}

/// The method a (lower-case) name designates, if any.
pub open spec fn method_of_name(s: Seq<char>) -> Option<Method> {
    if s == "delete"@ {
        Some(Method::Delete)
    } else if s == "get"@ {
        Some(Method::Get)
    } else if s == "head"@ {
        Some(Method::Head)
    } else if s == "options"@ {
        Some(Method::Options)
    } else if s == "patch"@ {
        Some(Method::Patch)
    } else if s == "post"@ {
        Some(Method::Post)
    } else if s == "put"@ {
        Some(Method::Put)
    } else {
        None
    }
}

/// The lower-case name of a method.
pub open spec fn method_name(m: Method) -> Seq<char> {
    match m {
        Method::Delete => "delete"@,
        Method::Get => "get"@,
        Method::Head => "head"@,
        Method::Options => "options"@,
        Method::Patch => "patch"@,
        Method::Post => "post"@,
        Method::Put => "put"@,
    }
}

fn str_eq(a: &str, b: &str) -> (r: bool)
    ensures
        r == (a@ == b@),
{
    let sa = String::from_str(a);
    let sb = String::from_str(b);
    sa.eq(&sb)
}

impl Method {
    /// Validate a method name. An unsupported name yields nothing; it is the
    /// calling surface's fault if one gets this far, and it must fail loudly
    /// rather than default.
    pub fn from_name(s: &str) -> (r: Option<Method>)
        ensures
            r == method_of_name(s@),
    {
        if str_eq(s, "delete") {
            Some(Method::Delete)
        } else if str_eq(s, "get") {
            Some(Method::Get)
        } else if str_eq(s, "head") {
            Some(Method::Head)
        } else if str_eq(s, "options") {
            Some(Method::Options)
        } else if str_eq(s, "patch") {
            Some(Method::Patch)
        } else if str_eq(s, "post") {
            Some(Method::Post)
        } else if str_eq(s, "put") {
            Some(Method::Put)
        } else {
            None
        }
    }

    /// The lower-case name of this method.
    pub fn name(&self) -> (r: &'static str)
        ensures
            r@ == method_name(*self),
    {
        match self {
            Method::Delete => "delete",
            Method::Get => "get",
            Method::Head => "head",
            Method::Options => "options",
            Method::Patch => "patch",
            Method::Post => "post",
            Method::Put => "put",
        }
    }
}

/// The methods that must not carry a body when the body mapping is empty.
pub open spec fn empty_body_omitted(m: Method) -> bool {
    m == Method::Get || m == Method::Head || m == Method::Options || m == Method::Delete
}

/// Whether a request with this method and body mapping attaches a body.
pub open spec fn attaches_body(m: Method, bs: Seq<(Seq<char>, BodyValueV)>) -> bool {
    !(empty_body_omitted(m) && bs.len() == 0)
}

/// The text a body value contributes: plain text as itself, a JSON-typed
/// value as its canonical JSON text.
pub open spec fn body_value_text(v: BodyValueV) -> Seq<char> {
    match v {
        BodyValueV::Text(s) => s,
        BodyValueV::Json(c) => c,
    }
}

/// One entry of a JSON body: quoted escaped key, `:`, and the value — a
/// plain value as a JSON string literal, a JSON-typed value verbatim.
pub open spec fn json_entry(k: Seq<char>, v: BodyValueV) -> Seq<char> {
    seq!['"'] + json_escaped(k) + seq!['"', ':'] + (match v {
        BodyValueV::Text(s) => seq!['"'] + json_escaped(s) + seq!['"'],
        BodyValueV::Json(c) => c,
    })
}

/// The entries of a JSON body, joined by `,`.
pub open spec fn json_entries(bs: Seq<(Seq<char>, BodyValueV)>) -> Seq<char>
    decreases bs.len(),
{
    if bs.len() == 0 {
        Seq::empty()
    } else if bs.len() == 1 {
        json_entry(bs[0].0, bs[0].1)
    } else {
        json_entry(bs[0].0, bs[0].1) + seq![','] + json_entries(bs.drop_first())
    }
}

/// A body mapping serialized as a compact JSON object, in entry order.
pub open spec fn json_body_text(bs: Seq<(Seq<char>, BodyValueV)>) -> Seq<char> {
    seq!['{'] + json_entries(bs) + seq!['}']
}

/// One entry of a form-encoded body.
pub open spec fn form_entry(k: Seq<char>, v: BodyValueV) -> Seq<char> {
    form_enc(k) + seq!['='] + form_enc(body_value_text(v))
}

/// The entries of a form-encoded body, joined by `&`.
pub open spec fn form_entries(bs: Seq<(Seq<char>, BodyValueV)>) -> Seq<char>
    decreases bs.len(),
{
    if bs.len() == 0 {
        Seq::empty()
    } else if bs.len() == 1 {
        form_entry(bs[0].0, bs[0].1)
    } else {
        form_entry(bs[0].0, bs[0].1) + seq!['&'] + form_entries(bs.drop_first())
    }
}

/// The serialized body under the given mode: form-encoded or JSON.
pub open spec fn spec_body_text(form: bool, bs: Seq<(Seq<char>, BodyValueV)>) -> Seq<char> {
    if form {
        form_entries(bs)
    } else {
        json_body_text(bs)
    }
}

/// The content type auto-selected for an attached body.
pub open spec fn content_type_text(form: bool) -> Seq<char> {
    if form {
        "application/x-www-form-urlencoded"@
    } else {
        "application/json"@
    }
}

/// Whether the user supplied a content-type header (any spelling of the
/// name): if so, it overrides the auto-selected one.
pub open spec fn spec_has_content_type(hs: Seq<(Seq<char>, Seq<char>)>) -> bool {
    exists|i: int| 0 <= i < hs.len() && chars_eq_ic(#[trigger] hs[i].0, "content-type"@)
}

proof fn lemma_json_entries_push(bs: Seq<(Seq<char>, BodyValueV)>, e: (Seq<char>, BodyValueV))
    ensures
        json_entries(bs.push(e)) == (if bs.len() == 0 {
            json_entry(e.0, e.1)
        } else {
            json_entries(bs) + seq![','] + json_entry(e.0, e.1)
        }),
    decreases bs.len(),
{
    if bs.len() == 0 {
        assert(bs.push(e)[0] == e);
        assert(bs.push(e).len() == 1);
    } else {
        assert(bs.push(e)[0] == bs[0]);
        assert(bs.push(e).drop_first() =~= bs.drop_first().push(e));
        lemma_json_entries_push(bs.drop_first(), e);
        if bs.len() == 1 {
            assert(bs.drop_first().len() == 0);
            assert(json_entries(bs.push(e)) == json_entry(bs[0].0, bs[0].1) + seq![',']
                + json_entries(bs.drop_first().push(e)));
            assert(json_entries(bs.drop_first().push(e)) == json_entry(e.0, e.1));
        } else {
            assert(json_entries(bs.push(e)) == json_entry(bs[0].0, bs[0].1) + seq![','] + (
            json_entries(bs.drop_first()) + seq![','] + json_entry(e.0, e.1)));
            assert(json_entry(bs[0].0, bs[0].1) + seq![','] + (json_entries(bs.drop_first())
                + seq![','] + json_entry(e.0, e.1)) =~= (json_entry(bs[0].0, bs[0].1) + seq![',']
                + json_entries(bs.drop_first())) + seq![','] + json_entry(e.0, e.1));
        }
    }
}

proof fn lemma_form_entries_push(bs: Seq<(Seq<char>, BodyValueV)>, e: (Seq<char>, BodyValueV))
    ensures
        form_entries(bs.push(e)) == (if bs.len() == 0 {
            form_entry(e.0, e.1)
        } else {
            form_entries(bs) + seq!['&'] + form_entry(e.0, e.1)
        }),
    decreases bs.len(),
{
    if bs.len() == 0 {
        assert(bs.push(e)[0] == e);
        assert(bs.push(e).len() == 1);
    } else {
        assert(bs.push(e)[0] == bs[0]);
        assert(bs.push(e).drop_first() =~= bs.drop_first().push(e));
        lemma_form_entries_push(bs.drop_first(), e);
        if bs.len() == 1 {
            assert(bs.drop_first().len() == 0);
            assert(form_entries(bs.push(e)) == form_entry(bs[0].0, bs[0].1) + seq!['&']
                + form_entries(bs.drop_first().push(e)));
            assert(form_entries(bs.drop_first().push(e)) == form_entry(e.0, e.1));
        } else {
            assert(form_entries(bs.push(e)) == form_entry(bs[0].0, bs[0].1) + seq!['&'] + (
            form_entries(bs.drop_first()) + seq!['&'] + form_entry(e.0, e.1)));
            assert(form_entry(bs[0].0, bs[0].1) + seq!['&'] + (form_entries(bs.drop_first())
                + seq!['&'] + form_entry(e.0, e.1)) =~= (form_entry(bs[0].0, bs[0].1) + seq!['&']
                + form_entries(bs.drop_first())) + seq!['&'] + form_entry(e.0, e.1));
        }
    }
}

/// Serialize a body mapping as a compact JSON object, in entry order.
pub fn serialize_json_body(bs: &Vec<(String, BodyValue)>) -> (r: String)
    ensures
        r@ == json_body_text(body_view(bs@)),
{
    let ghost bv = body_view(bs@);
    let mut out = String::from_str("{");
    proof {
        reveal_strlit("{");
        assert(out@ =~= seq!['{']);
        assert(bv.take(0) =~= Seq::<(Seq<char>, BodyValueV)>::empty());
    }
    let mut i: usize = 0;
    while i < bs.len()
        invariant
            i <= bs@.len(),
            bv == body_view(bs@),
            bv.len() == bs@.len(),
            out@ == seq!['{'] + json_entries(bv.take(i as int)),
        decreases bs@.len() - i,
    {
        if i > 0 {
            out.append(",");
        }
        out.append("\"");
        let ek = json_escape(bs[i].0.as_str());
        out.append(ek.as_str());
        out.append("\":");
        match &bs[i].1 {
            BodyValue::Text(s) => {
                out.append("\"");
                let ev = json_escape(s.as_str());
                out.append(ev.as_str());
                out.append("\"");
            },
            BodyValue::Json(c) => {
                out.append(c.as_str());
            },
        }
        proof {
            reveal_strlit(",");
            reveal_strlit("\"");
            reveal_strlit("\":");
            assert(","@ =~= seq![',']);
            assert("\""@ =~= seq!['"']);
            assert("\":"@ =~= seq!['"', ':']);
            lemma_json_entries_push(bv.take(i as int), bv[i as int]);
            assert(bv.take(i + 1) =~= bv.take(i as int).push(bv[i as int]));
            assert(bv[i as int].0 == bs@[i as int].0@);
            assert(bv[i as int].1 == bs@[i as int].1@);
            assert(out@ =~= seq!['{'] + json_entries(bv.take(i + 1)));
        }
        i = i + 1;
    }
    out.append("}");
    proof {
        reveal_strlit("}");
        assert("}"@ =~= seq!['}']);
        assert(bv.take(bv.len() as int) =~= bv);
        assert(out@ =~= seq!['{'] + json_entries(bv) + seq!['}']);
    }
    out
}

/// Serialize a body mapping as `application/x-www-form-urlencoded`, in entry
/// order; a JSON-typed value contributes its canonical JSON text.
pub fn serialize_form_body(bs: &Vec<(String, BodyValue)>) -> (r: String)
    ensures
        r@ == form_entries(body_view(bs@)),
{
    let ghost bv = body_view(bs@);
    let mut out = String::new();
    proof {
        assert(bv.take(0) =~= Seq::<(Seq<char>, BodyValueV)>::empty());
        assert(out@ =~= form_entries(bv.take(0)));
    }
    let mut i: usize = 0;
    while i < bs.len()
        invariant
            i <= bs@.len(),
            bv == body_view(bs@),
            bv.len() == bs@.len(),
            out@ == form_entries(bv.take(i as int)),
        decreases bs@.len() - i,
    {
        if i > 0 {
            out.append("&");
        }
        let ek = form_encode(bs[i].0.as_str());
        out.append(ek.as_str());
        out.append("=");
        match &bs[i].1 {
            BodyValue::Text(s) => {
                let ev = form_encode(s.as_str());
                out.append(ev.as_str());
            },
            BodyValue::Json(c) => {
                let ev = form_encode(c.as_str());
                out.append(ev.as_str());
            },
        }
        proof {
            reveal_strlit("&");
            reveal_strlit("=");
            assert("&"@ =~= seq!['&']);
            assert("="@ =~= seq!['=']);
            lemma_form_entries_push(bv.take(i as int), bv[i as int]);
            assert(bv.take(i + 1) =~= bv.take(i as int).push(bv[i as int]));
            assert(bv[i as int].0 == bs@[i as int].0@);
            assert(bv[i as int].1 == bs@[i as int].1@);
            assert(out@ =~= form_entries(bv.take(i + 1)));
        }
        i = i + 1;
    }
    proof {
        assert(bv.take(bv.len() as int) =~= bv);
    }
    out
}

/// Whether the header mapping holds a content-type header, under any
/// spelling of the name.
pub fn has_content_type(hs: &Vec<(String, String)>) -> (r: bool)
    ensures
        r == spec_has_content_type(pairs_view(hs@)),
{
    let ghost hv = pairs_view(hs@);
    let mut i: usize = 0;
    while i < hs.len()
        invariant
            i <= hs@.len(),
            hv == pairs_view(hs@),
            hv.len() == hs@.len(),
            forall|j: int| 0 <= j < i ==> !chars_eq_ic(#[trigger] hv[j].0, "content-type"@),
        decreases hs@.len() - i,
    {
        let found = eq_ignore_case(hs[i].0.as_str(), "content-type");
        if found {
            proof {
                assert(hv[i as int].0 == hs@[i as int].0@);
            }
            return true;
        }
        proof {
            assert(hv[i as int].0 == hs@[i as int].0@);
        }
        i = i + 1;
    }
    false
}

/// Everything the transport needs to issue one request: the method, the
/// resolved URL, the user headers verbatim, the auto-selected content type
/// (absent when the body is absent or the user supplied one), and the
/// serialized body (absent for a bodyless request).
#[derive(Debug)]
pub struct RequestPlan {
    pub method: Method,
    pub url: String,
    pub headers: Vec<(String, String)>,
    pub auto_content_type: Option<String>,
    pub body: Option<String>,
}

impl Request {
    /// Plan the outgoing request: decide whether a body is attached (GET,
    /// HEAD, OPTIONS and DELETE with an empty body mapping carry none),
    /// serialize it under the selected mode, and select the content type
    /// unless a user header overrides it. The user headers travel verbatim.
    pub fn plan(&self, method: Method) -> (p: RequestPlan)
        ensures
            p.method == method,
            p.url@ == self@.url,
            pairs_view(p.headers@) == self@.headers,
            p.body is Some == attaches_body(method, self@.body),
            (p.body matches Some(b) ==> b@ == spec_body_text(self@.form, self@.body)),
            p.auto_content_type is Some == (attaches_body(method, self@.body)
                && !spec_has_content_type(self@.headers)),
            (p.auto_content_type matches Some(c) ==> c@ == content_type_text(self@.form)),
    {
        let attach = if self.body.len() == 0 {
            match method {
                Method::Get | Method::Head | Method::Options | Method::Delete => false,
                _ => true,
            }
        } else {
            true
        };
        let body = if attach {
            if self.form {
                Some(serialize_form_body(&self.body))
            } else {
                Some(serialize_json_body(&self.body))
            }
        } else {
            None
        };
        let auto_content_type = if attach && !has_content_type(&self.headers) {
            if self.form {
                Some(String::from_str("application/x-www-form-urlencoded"))
            } else {
                Some(String::from_str("application/json"))
            }
        } else {
            None
        };
        RequestPlan {
            method,
            url: self.url.clone(),
            headers: dup_pairs(&self.headers),
            auto_content_type,
            body,
        }
    }
}

} // verus!
