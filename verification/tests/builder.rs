use rural::error::ErrorKind;
use rural::request::{BodyValue, Request};

#[test]
fn query_tokens_append_to_url_in_order() {
    let mut b = Request::new("http://x/y", false).unwrap();
    b.add_param("a==1").unwrap();
    b.add_param("b==2").unwrap();
    let req = b.build();
    assert_eq!(req.url, "http://x/y?a=1&b=2");
}

#[test]
fn query_appends_to_existing_query() {
    let mut b = Request::new("http://x/y?p=q", false).unwrap();
    b.add_param("a==1").unwrap();
    let req = b.build();
    assert_eq!(req.url, "http://x/y?p=q&a=1");
}

#[test]
fn query_pairs_are_form_encoded() {
    let mut b = Request::new("http://x/y", false).unwrap();
    b.add_param("band==the who").unwrap();
    let req = b.build();
    assert_eq!(req.url, "http://x/y?band=the+who");
}

#[test]
fn query_goes_before_fragment() {
    let mut b = Request::new("http://x/y#frag", false).unwrap();
    b.add_param("a==1").unwrap();
    let req = b.build();
    assert_eq!(req.url, "http://x/y?a=1#frag");
}

#[test]
fn duplicate_query_keys_are_kept() {
    let mut b = Request::new("http://x/y", false).unwrap();
    b.add_param("a==1").unwrap();
    b.add_param("a==2").unwrap();
    let req = b.build();
    assert_eq!(req.url, "http://x/y?a=1&a=2");
}

#[test]
fn malformed_url_fails_fast() {
    let err = Request::new("not a url", false).unwrap_err();
    assert_eq!(err.kind(), ErrorKind::Url);
}

#[test]
fn headers_last_write_wins_case_insensitively() {
    let mut b = Request::new("http://x/", false).unwrap();
    b.add_param("X-Tag:one").unwrap();
    b.add_param("x-tag:two").unwrap();
    let req = b.build();
    assert_eq!(req.headers.len(), 1);
    // The first spelling of the name is kept, the value is replaced.
    assert_eq!(req.headers[0].0, "X-Tag");
    assert_eq!(req.headers[0].1, "two");
}

#[test]
fn body_fields_keep_insertion_order_and_dedupe() {
    let mut b = Request::new("http://x/", false).unwrap();
    b.add_param("bass=john").unwrap();
    b.add_param("drums=keith").unwrap();
    b.add_param("bass=entwistle").unwrap();
    let req = b.build();
    assert_eq!(req.body.len(), 2);
    assert_eq!(req.body[0].0, "bass");
    match &req.body[0].1 {
        BodyValue::Text(s) => assert_eq!(s, "entwistle"),
        other => panic!("wrong value: {:?}", other),
    }
    assert_eq!(req.body[1].0, "drums");
}

#[test]
fn json_field_is_canonicalized() {
    let mut b = Request::new("http://x/", false).unwrap();
    b.add_param("others:=[\"pete\", \"roger\"]").unwrap();
    let req = b.build();
    assert_eq!(req.body.len(), 1);
    match &req.body[0].1 {
        BodyValue::Json(s) => assert_eq!(s, "[\"pete\",\"roger\"]"),
        other => panic!("wrong value: {:?}", other),
    }
}

#[test]
fn invalid_json_field_fails() {
    let mut b = Request::new("http://x/", false).unwrap();
    let err = b.add_param("tag:=not json").unwrap_err();
    assert_eq!(err.kind(), ErrorKind::Json);
    // The failed token left the accumulator unchanged.
    assert_eq!(b.build().body.len(), 0);
}

#[test]
fn add_params_stops_at_first_error() {
    let mut b = Request::new("http://x/", false).unwrap();
    let params = vec![
        String::from("a==1"),
        String::from("nosep"),
        String::from("b==2"),
    ];
    let err = b.add_params(&params).unwrap_err();
    assert_eq!(err.kind(), ErrorKind::Argument);
    assert_eq!(err.detail(), "nosep");
    // State from the token before the failure is kept.
    assert_eq!(b.build().url, "http://x/?a=1");
}

#[test]
fn finalize_is_idempotent() {
    let mut b = Request::new("http://x/y", true).unwrap();
    let params = vec![
        String::from("a==1"),
        String::from("h:v"),
        String::from("k=w"),
    ];
    b.add_params(&params).unwrap();
    let r1 = b.build();
    let r2 = b.build();
    assert_eq!(r1.url, r2.url);
    assert_eq!(r1.form, r2.form);
    assert_eq!(r1.headers, r2.headers);
    assert_eq!(r1.body.len(), r2.body.len());
    for i in 0..r1.body.len() {
        assert_eq!(r1.body[i].0, r2.body[i].0);
        match (&r1.body[i].1, &r2.body[i].1) {
            (BodyValue::Text(a), BodyValue::Text(b)) => assert_eq!(a, b),
            (BodyValue::Json(a), BodyValue::Json(b)) => assert_eq!(a, b),
            _ => panic!("descriptors differ"),
        }
    }
}

#[test]
fn url_is_normalized_by_parsing() {
    let b = Request::new("HTTP://X/Y", false).unwrap();
    let req = b.build();
    assert_eq!(req.url, "http://x/Y");
}
