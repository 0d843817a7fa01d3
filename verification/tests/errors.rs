use rural::error::{Error, ErrorKind};
use rural::request::Request;

#[test]
fn argument_message() {
    let e = Error::argument_error("x;y");
    assert_eq!(e.message(), "An invalid argument was provided: x;y");
}

#[test]
fn url_message() {
    let e = Request::new("no scheme", false).unwrap_err();
    assert_eq!(e.kind(), ErrorKind::Url);
    assert!(e.message().starts_with("An error occurred while parsing the URL: "));
}

#[test]
fn json_message() {
    let mut b = Request::new("http://x/", false).unwrap();
    let e = b.add_param("k:=oops").unwrap_err();
    assert_eq!(e.kind(), ErrorKind::Json);
    assert!(e.message().starts_with("An error occurred while parsing a JSON argument: "));
}

#[test]
fn http_message() {
    let e = Error::new(ErrorKind::Http, String::from("boom"));
    assert_eq!(e.message(), "An error occurred while making an HTTP request: boom");
}

#[test]
fn io_message() {
    let e = Error::new(ErrorKind::Io, String::from("boom"));
    assert_eq!(e.message(), "An I/O error occured: boom");
}
