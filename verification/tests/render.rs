use rural::dispatch::Method;
use rural::render::{render, RenderOptions, ResponseInfo};

fn sample_response() -> ResponseInfo {
    ResponseInfo {
        version: String::from("HTTP/1.1"),
        status: String::from("200 OK"),
        headers: vec![
            (String::from("content-length"), String::from("2")),
            (String::from("server"), String::from("nginx")),
        ],
        body: String::from("ok"),
    }
}

fn plain_options() -> RenderOptions {
    RenderOptions {
        show_headers: false,
        show_both: false,
        suppress_info: false,
        colorize: false,
        out_file: None,
    }
}

#[test]
fn body_only_is_exactly_the_body() {
    let out = render(&sample_response(), &plain_options(), Method::Get);
    assert_eq!(out.text, "ok");
    assert!(out.write.is_none());
}

#[test]
fn headers_only_has_no_body() {
    let mut opts = plain_options();
    opts.show_headers = true;
    let out = render(&sample_response(), &opts, Method::Get);
    assert_eq!(
        out.text,
        "HTTP/1.1 200 OK\ncontent-length: 2\nserver: nginx"
    );
    assert!(out.write.is_none());
}

#[test]
fn both_separates_block_and_body_with_one_blank_line() {
    let mut opts = plain_options();
    opts.show_both = true;
    let out = render(&sample_response(), &opts, Method::Get);
    assert_eq!(
        out.text,
        "HTTP/1.1 200 OK\ncontent-length: 2\nserver: nginx\n\nok"
    );
}

#[test]
fn suppress_info_drops_the_status_line() {
    let mut opts = plain_options();
    opts.show_headers = true;
    opts.suppress_info = true;
    let out = render(&sample_response(), &opts, Method::Get);
    assert_eq!(out.text, "content-length: 2\nserver: nginx");
}

#[test]
fn head_shows_status_and_headers_and_empty_body_section() {
    // A HEAD response carries no body; the status line and header block are
    // shown whatever the flags say, with an empty body section after them.
    let mut info = sample_response();
    info.headers = vec![(String::from("content-length"), String::from("0"))];
    info.body = String::new();
    let out = render(&info, &plain_options(), Method::Head);
    assert_eq!(out.text, "HTTP/1.1 200 OK\ncontent-length: 0\n\n");
    assert!(out.write.is_none());
}

#[test]
fn output_file_diverts_the_raw_body() {
    let mut opts = plain_options();
    opts.out_file = Some(String::from("body.out"));
    let out = render(&sample_response(), &opts, Method::Get);
    assert_eq!(out.text, "");
    let w = out.write.unwrap();
    assert_eq!(w.path, "body.out");
    assert_eq!(w.contents, "ok");
}

#[test]
fn output_file_with_headers_keeps_the_block_in_the_text() {
    let mut opts = plain_options();
    opts.show_both = true;
    opts.out_file = Some(String::from("body.out"));
    let out = render(&sample_response(), &opts, Method::Get);
    assert_eq!(
        out.text,
        "HTTP/1.1 200 OK\ncontent-length: 2\nserver: nginx"
    );
    assert_eq!(out.write.unwrap().contents, "ok");
}

#[test]
fn headers_only_suppresses_file_write() {
    let mut opts = plain_options();
    opts.show_headers = true;
    opts.out_file = Some(String::from("body.out"));
    let out = render(&sample_response(), &opts, Method::Get);
    assert!(out.write.is_none());
}

#[test]
fn colorized_body_still_embeds_the_text() {
    // With colors requested but a non-JSON body, the body falls back to the
    // raw text; the painted status and header pieces embed their originals.
    let mut opts = plain_options();
    opts.show_both = true;
    opts.colorize = true;
    let out = render(&sample_response(), &opts, Method::Get);
    assert!(out.text.contains("200 OK"));
    assert!(out.text.contains("content-length"));
    assert!(out.text.contains("nginx"));
    assert!(out.text.contains("ok"));
}
