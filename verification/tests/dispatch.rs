use rural::dispatch::Method;
use rural::request::Request;

#[test]
fn method_names_round_trip() {
    for name in ["delete", "get", "head", "options", "patch", "post", "put"] {
        let m = Method::from_name(name).unwrap();
        assert_eq!(m.name(), name);
    }
    assert!(Method::from_name("brew").is_none());
    assert!(Method::from_name("GET").is_none());
}

#[test]
fn post_json_body() {
    let mut b = Request::new("http://example/echo", false).unwrap();
    b.add_param("name=john").unwrap();
    b.add_param("tag:=[\"x\",\"y\"]").unwrap();
    let plan = b.build().plan(Method::Post);
    assert_eq!(plan.method, Method::Post);
    assert_eq!(plan.url, "http://example/echo");
    assert_eq!(plan.body.as_deref(), Some("{\"name\":\"john\",\"tag\":[\"x\",\"y\"]}"));
    assert_eq!(plan.auto_content_type.as_deref(), Some("application/json"));
}

#[test]
fn post_form_body() {
    let mut b = Request::new("http://example/echo", true).unwrap();
    b.add_param("name=john").unwrap();
    b.add_param("tag:=[\"x\",\"y\"]").unwrap();
    let plan = b.build().plan(Method::Post);
    // A JSON-typed field under form mode serializes through its canonical
    // JSON text, form-encoded.
    assert_eq!(plan.body.as_deref(), Some("name=john&tag=%5B%22x%22%2C%22y%22%5D"));
    assert_eq!(
        plan.auto_content_type.as_deref(),
        Some("application/x-www-form-urlencoded")
    );
}

#[test]
fn form_encoding_escapes_values() {
    let mut b = Request::new("http://example/echo", true).unwrap();
    b.add_param("band=the who").unwrap();
    let plan = b.build().plan(Method::Post);
    assert_eq!(plan.body.as_deref(), Some("band=the+who"));
}

#[test]
fn json_escaping_in_body() {
    let mut b = Request::new("http://example/echo", false).unwrap();
    b.add_param("quote=say \"hi\"\n").unwrap();
    let plan = b.build().plan(Method::Post);
    assert_eq!(plan.body.as_deref(), Some("{\"quote\":\"say \\\"hi\\\"\\n\"}"));
}

#[test]
fn get_with_empty_body_attaches_nothing() {
    for m in [Method::Get, Method::Head, Method::Options, Method::Delete] {
        let plan = Request::new("http://x/", false).unwrap().build().plan(m);
        assert!(plan.body.is_none());
        assert!(plan.auto_content_type.is_none());
    }
}

#[test]
fn post_with_empty_body_attaches_empty_object() {
    let plan = Request::new("http://x/", false).unwrap().build().plan(Method::Post);
    assert_eq!(plan.body.as_deref(), Some("{}"));
    assert_eq!(plan.auto_content_type.as_deref(), Some("application/json"));
}

#[test]
fn get_with_body_fields_attaches_them() {
    let mut b = Request::new("http://x/", false).unwrap();
    b.add_param("k=v").unwrap();
    let plan = b.build().plan(Method::Get);
    assert_eq!(plan.body.as_deref(), Some("{\"k\":\"v\"}"));
}

#[test]
fn user_content_type_overrides_auto_selection() {
    let mut b = Request::new("http://x/", false).unwrap();
    b.add_param("k=v").unwrap();
    b.add_param("Content-Type:text/plain").unwrap();
    let plan = b.build().plan(Method::Post);
    assert!(plan.auto_content_type.is_none());
    assert_eq!(plan.headers.len(), 1);
    assert_eq!(plan.headers[0].0, "Content-Type");
    assert_eq!(plan.headers[0].1, "text/plain");
}

#[test]
fn headers_travel_verbatim() {
    let mut b = Request::new("http://x/", false).unwrap();
    b.add_param("keyboard:the rabbit").unwrap();
    b.add_param("keyboard-also:pete").unwrap();
    let plan = b.build().plan(Method::Get);
    assert_eq!(plan.headers.len(), 2);
    assert_eq!(plan.headers[0].0, "keyboard");
    assert_eq!(plan.headers[0].1, "the rabbit");
    assert_eq!(plan.headers[1].0, "keyboard-also");
    assert_eq!(plan.headers[1].1, "pete");
}
