use rural::error::ErrorKind;
use rural::url_builder::UrlBuilder;

#[test]
fn builds_a_get_url_from_query_tokens() {
    let mut b = UrlBuilder::parse("http://x/y").unwrap();
    let params = vec![String::from("a=1"), String::from("b=2")];
    b.add_params(&params).unwrap();
    assert_eq!(b.build(), "http://x/y?a=1&b=2");
}

#[test]
fn double_equals_tokens_are_accepted_and_ignored() {
    let mut b = UrlBuilder::parse("http://x/y").unwrap();
    let params = vec![String::from("a==1"), String::from("b=2")];
    b.add_params(&params).unwrap();
    assert_eq!(b.build(), "http://x/y?b=2");
}

#[test]
fn unmatched_token_is_rejected() {
    let mut b = UrlBuilder::parse("http://x/y").unwrap();
    let params = vec![String::from("nonsense")];
    let err = b.add_params(&params).unwrap_err();
    assert_eq!(err.kind(), ErrorKind::Argument);
    assert_eq!(err.detail(), "nonsense");
}

#[test]
fn pair_is_taken_at_the_first_matching_run() {
    // In `x==y=z` the first `key=value` shape is `y=z`.
    let mut b = UrlBuilder::parse("http://x/").unwrap();
    let params = vec![String::from("x==y=z")];
    b.add_params(&params).unwrap();
    assert_eq!(b.build(), "http://x/?y=z");
}

#[test]
fn values_are_form_encoded() {
    let mut b = UrlBuilder::parse("http://x/").unwrap();
    let params = vec![String::from("band=the who")];
    b.add_params(&params).unwrap();
    assert_eq!(b.build(), "http://x/?band=the+who");
}

#[test]
fn malformed_url_is_rejected() {
    let err = UrlBuilder::parse("::nope::").unwrap_err();
    assert_eq!(err.kind(), ErrorKind::Url);
}
