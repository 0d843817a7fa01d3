use rural::error::ErrorKind;
use rural::token::{classify, ParamKind};

#[test]
fn json_field_token() {
    match classify("others:=[\"a\",\"b\"]").unwrap() {
        ParamKind::JsonField { key, value } => {
            assert_eq!(key, "others");
            assert_eq!(value, "[\"a\",\"b\"]");
        },
        other => panic!("wrong kind: {:?}", other),
    }
}

#[test]
fn query_pair_token() {
    match classify("band==the who").unwrap() {
        ParamKind::QueryPair { key, value } => {
            assert_eq!(key, "band");
            assert_eq!(value, "the who");
        },
        other => panic!("wrong kind: {:?}", other),
    }
}

#[test]
fn header_token() {
    match classify("keyboard:the rabbit").unwrap() {
        ParamKind::Header { key, value } => {
            assert_eq!(key, "keyboard");
            assert_eq!(value, "the rabbit");
        },
        other => panic!("wrong kind: {:?}", other),
    }
}

#[test]
fn body_field_token() {
    match classify("bass=john").unwrap() {
        ParamKind::BodyField { key, value } => {
            assert_eq!(key, "bass");
            assert_eq!(value, "john");
        },
        other => panic!("wrong kind: {:?}", other),
    }
}

#[test]
fn no_separator_fails_with_original_text() {
    let err = classify("nosep").unwrap_err();
    assert_eq!(err.kind(), ErrorKind::Argument);
    assert_eq!(err.detail(), "nosep");
    assert_eq!(err.message(), "An invalid argument was provided: nosep");
}

#[test]
fn empty_token_fails() {
    let err = classify("").unwrap_err();
    assert_eq!(err.kind(), ErrorKind::Argument);
    assert_eq!(err.detail(), "");
}

#[test]
fn json_beats_header() {
    // `a:=b` holds both a `:=` and a `:`; the JSON grammar wins.
    match classify("a:=b").unwrap() {
        ParamKind::JsonField { key, value } => {
            assert_eq!(key, "a");
            assert_eq!(value, "b");
        },
        other => panic!("wrong kind: {:?}", other),
    }
}

#[test]
fn query_beats_header_and_body() {
    // `k:a==b` holds `==`, `:` and `=`; the query grammar wins, and the key
    // runs to the first `==`.
    match classify("k:a==b").unwrap() {
        ParamKind::QueryPair { key, value } => {
            assert_eq!(key, "k:a");
            assert_eq!(value, "b");
        },
        other => panic!("wrong kind: {:?}", other),
    }
}

#[test]
fn json_key_may_hold_a_bare_colon() {
    // The key runs to the first full `:=` occurrence; a lone `:` inside it
    // does not end it.
    match classify("a:b:=c").unwrap() {
        ParamKind::JsonField { key, value } => {
            assert_eq!(key, "a:b");
            assert_eq!(value, "c");
        },
        other => panic!("wrong kind: {:?}", other),
    }
}

#[test]
fn header_beats_body() {
    // `a=b:c` holds both `:` and `=`; the header grammar wins.
    match classify("a=b:c").unwrap() {
        ParamKind::Header { key, value } => {
            assert_eq!(key, "a=b");
            assert_eq!(value, "c");
        },
        other => panic!("wrong kind: {:?}", other),
    }
}

#[test]
fn header_key_may_be_empty() {
    match classify(":v").unwrap() {
        ParamKind::Header { key, value } => {
            assert_eq!(key, "");
            assert_eq!(value, "v");
        },
        other => panic!("wrong kind: {:?}", other),
    }
}

#[test]
fn empty_value_fails() {
    assert_eq!(classify("a=").unwrap_err().kind(), ErrorKind::Argument);
    assert_eq!(classify("a:").unwrap_err().kind(), ErrorKind::Argument);
}

#[test]
fn trailing_double_equals_is_a_body_field() {
    // `a==` cannot be a query pair (its value would be empty); the body
    // grammar then matches with the value `=`.
    match classify("a==").unwrap() {
        ParamKind::BodyField { key, value } => {
            assert_eq!(key, "a");
            assert_eq!(value, "=");
        },
        other => panic!("wrong kind: {:?}", other),
    }
}

#[test]
fn empty_key_fails_for_body() {
    // `=v` has no non-empty key before its only separator.
    assert_eq!(classify("=v").unwrap_err().kind(), ErrorKind::Argument);
}
