//! The two text encodings the request assembly needs, each verified against a
//! character-exact specification:
//!
//! - `application/x-www-form-urlencoded` byte serialization, as the `url`
//!   crate's serializer performs it (alphanumerics and `*-._` pass, space
//!   becomes `+`, every other byte becomes `%XX` with upper-case hex), used
//!   for query-string pairs and form bodies;
//! - JSON string escaping, as serde_json performs it (`"` and `\` and the
//!   control characters escaped, the latter as `\u00xy` with lower-case hex,
//!   everything else verbatim), used when the body is serialized as JSON.

use vstd::prelude::*;
use vstd::string::*;
use vstd::utf8::encode_utf8;

use crate::outside::chars_to_string;

verus! {

/// The digits of upper-case hexadecimal.
pub open spec fn hex_upper() -> Seq<char> {
    "0123456789ABCDEF"@
}

/// The digits of lower-case hexadecimal.
pub open spec fn hex_lower() -> Seq<char> {
    "0123456789abcdef"@
}

/// The bytes the form-urlencoded serializer passes through unchanged:
/// `0-9 A-Z a-z * - . _`.
pub open spec fn form_safe(b: u8) -> bool {
    (48 <= b && b <= 57) || (65 <= b && b <= 90) || (97 <= b && b <= 122) || b == 42 || b == 45
        || b == 46 || b == 95
}

/// The form-urlencoded image of one byte.
pub open spec fn form_enc_byte(b: u8) -> Seq<char> {
    if form_safe(b) {
        seq![b as char]
    } else if b == 32 {
        seq!['+']
    } else {
        seq!['%', hex_upper()[b as int / 16], hex_upper()[b as int % 16]]
    }
}

/// The form-urlencoded image of a byte string.
pub open spec fn form_enc_bytes(bs: Seq<u8>) -> Seq<char>
    decreases bs.len(),
{
    if bs.len() == 0 {
        Seq::empty()
    } else {
        form_enc_byte(bs[0]) + form_enc_bytes(bs.drop_first())
    }
}

/// The form-urlencoded image of a text: its UTF-8 bytes, byte-serialized.
pub open spec fn form_enc(s: Seq<char>) -> Seq<char> {
    form_enc_bytes(encode_utf8(s))
}

proof fn lemma_form_enc_bytes_push(bs: Seq<u8>, b: u8)
    ensures
        form_enc_bytes(bs.push(b)) == form_enc_bytes(bs) + form_enc_byte(b),
    decreases bs.len(),
{
    if bs.len() == 0 {
        assert(bs.push(b)[0] == b);
        assert(bs.push(b).drop_first() =~= Seq::<u8>::empty());
        assert(form_enc_bytes(bs.push(b)) == form_enc_byte(b) + form_enc_bytes(Seq::empty()));
        assert(form_enc_byte(b) + form_enc_bytes(Seq::<u8>::empty()) =~= form_enc_byte(b));
        assert(form_enc_bytes(bs) + form_enc_byte(b) =~= form_enc_byte(b));
    } else {
        assert(bs.push(b).drop_first() =~= bs.drop_first().push(b));
        lemma_form_enc_bytes_push(bs.drop_first(), b);
        assert(form_enc_bytes(bs.push(b)) == form_enc_byte(bs[0]) + (form_enc_bytes(bs.drop_first())
            + form_enc_byte(b)));
        assert(form_enc_byte(bs[0]) + (form_enc_bytes(bs.drop_first()) + form_enc_byte(b)) =~= (
        form_enc_byte(bs[0]) + form_enc_bytes(bs.drop_first())) + form_enc_byte(b));
    }
}

/// Every character a form-urlencoded image consists of: the safe bytes as
/// characters, `+`, `%`, and hexadecimal digits. In particular none of the
/// characters that structure a URL or a query string (`?`, `#`, `&`, `=`)
/// can occur in it.
pub open spec fn form_enc_output_char(c: char) -> bool {
    ('0' <= c && c <= '9') || ('A' <= c && c <= 'Z') || ('a' <= c && c <= 'z') || c == '*' || c
        == '-' || c == '.' || c == '_' || c == '+' || c == '%'
}

proof fn lemma_form_enc_byte_chars(b: u8)
    ensures
        forall|i: int| 0 <= i < form_enc_byte(b).len() ==> form_enc_output_char(
            #[trigger] form_enc_byte(b)[i],
        ),
{
    reveal_strlit("0123456789ABCDEF");
    if form_safe(b) {
        assert(form_enc_byte(b)[0] == b as char);
        assert(b as char as u8 == b);
    }
}

proof fn lemma_form_enc_bytes_chars(bs: Seq<u8>)
    ensures
        forall|i: int| 0 <= i < form_enc_bytes(bs).len() ==> form_enc_output_char(
            #[trigger] form_enc_bytes(bs)[i],
        ),
    decreases bs.len(),
{
    if bs.len() > 0 {
        lemma_form_enc_byte_chars(bs[0]);
        lemma_form_enc_bytes_chars(bs.drop_first());
        let head = form_enc_byte(bs[0]);
        let tail = form_enc_bytes(bs.drop_first());
        assert forall|i: int| 0 <= i < form_enc_bytes(bs).len() implies form_enc_output_char(
            #[trigger] form_enc_bytes(bs)[i],
        ) by {
            if i < head.len() {
                assert(form_enc_bytes(bs)[i] == head[i]);
            } else {
                assert(form_enc_bytes(bs)[i] == tail[i - head.len()]);
            }
        }
    }
}

/// The form-urlencoded image of any text consists of safe output characters
/// only.
pub proof fn lemma_form_enc_chars(s: Seq<char>)
    ensures
        forall|i: int| 0 <= i < form_enc(s).len() ==> form_enc_output_char(
            #[trigger] form_enc(s)[i],
        ),
{
    lemma_form_enc_bytes_chars(encode_utf8(s));
}

fn hex_upper_char(n: u8) -> (c: char)
    requires
        n < 16,
    ensures
        c == hex_upper()[n as int],
{
    proof {
        reveal_strlit("0123456789ABCDEF");
    }
    "0123456789ABCDEF".get_char(n as usize)
}

fn hex_lower_char(n: u8) -> (c: char)
    requires
        n < 16,
    ensures
        c == hex_lower()[n as int],
{
    proof {
        reveal_strlit("0123456789abcdef");
    }
    "0123456789abcdef".get_char(n as usize)
}

/// Encode a text as `application/x-www-form-urlencoded`.
pub fn form_encode(s: &str) -> (r: String)
    ensures
        r@ == form_enc(s@),
{
    let bs: Vec<u8> = s.as_bytes_vec();
    let mut out: Vec<char> = Vec::new();
    let mut i: usize = 0;
    proof {
        assert(bs@.take(0) =~= Seq::<u8>::empty());
    }
    while i < bs.len()
        invariant
            i <= bs@.len(),
            bs@ == encode_utf8(s@),
            out@ == form_enc_bytes(bs@.take(i as int)),
        decreases bs@.len() - i,
    {
        let b = bs[i];
        if (48 <= b && b <= 57) || (65 <= b && b <= 90) || (97 <= b && b <= 122) || b == 42 || b
            == 45 || b == 46 || b == 95 {
            out.push(b as char);
        } else if b == 32 {
            out.push('+');
        } else {
            out.push('%');
            out.push(hex_upper_char(b / 16));
            out.push(hex_upper_char(b % 16));
        }
        proof {
            lemma_form_enc_bytes_push(bs@.take(i as int), bs@[i as int]);
            assert(bs@.take(i + 1) =~= bs@.take(i as int).push(bs@[i as int]));
            assert(out@ =~= form_enc_bytes(bs@.take(i + 1)));
        }
        i = i + 1;
    }
    proof {
        assert(bs@.take(bs@.len() as int) =~= bs@);
    }
    chars_to_string(&out)
}

/// The JSON-escaped image of one character, as serde_json writes it.
pub open spec fn esc_char(c: char) -> Seq<char> {
    if c == '"' {
        seq!['\\', '"']
    } else if c == '\\' {
        seq!['\\', '\\']
    } else if c == '\u{8}' {
        seq!['\\', 'b']
    } else if c == '\t' {
        seq!['\\', 't']
    } else if c == '\n' {
        seq!['\\', 'n']
    } else if c == '\u{c}' {
        seq!['\\', 'f']
    } else if c == '\r' {
        seq!['\\', 'r']
    } else if (c as u32) < 32 {
        seq!['\\', 'u', '0', '0', hex_lower()[c as u32 as int / 16], hex_lower()[c as u32 as int % 16]]
    } else {
        seq![c]
    }
}

/// The JSON-escaped image of a text (the content between the quotes of a JSON
/// string literal).
pub open spec fn json_escaped(s: Seq<char>) -> Seq<char>
    decreases s.len(),
{
    if s.len() == 0 {
        Seq::empty()
    } else {
        esc_char(s[0]) + json_escaped(s.drop_first())
    }
}

proof fn lemma_json_escaped_push(s: Seq<char>, c: char)
    ensures
        json_escaped(s.push(c)) == json_escaped(s) + esc_char(c),
    decreases s.len(),
{
    if s.len() == 0 {
        assert(s.push(c)[0] == c);
        assert(s.push(c).drop_first() =~= Seq::<char>::empty());
        assert(json_escaped(s.push(c)) == esc_char(c) + json_escaped(Seq::empty()));
        assert(esc_char(c) + json_escaped(Seq::<char>::empty()) =~= esc_char(c));
        assert(json_escaped(s) + esc_char(c) =~= esc_char(c));
    } else {
        assert(s.push(c).drop_first() =~= s.drop_first().push(c));
        lemma_json_escaped_push(s.drop_first(), c);
        assert(esc_char(s[0]) + (json_escaped(s.drop_first()) + esc_char(c)) =~= (esc_char(s[0])
            + json_escaped(s.drop_first())) + esc_char(c));
    }
}

/// Escape a text for inclusion in a JSON string literal.
pub fn json_escape(s: &str) -> (r: String)
    ensures
        r@ == json_escaped(s@),
{
    let n = s.unicode_len();
    let mut out: Vec<char> = Vec::new();
    let mut i: usize = 0;
    proof {
        assert(s@.take(0) =~= Seq::<char>::empty());
    }
    while i < n
        invariant
            i <= n,
            n == s@.len(),
            out@ == json_escaped(s@.take(i as int)),
        decreases n - i,
    {
        let c = s.get_char(i);
        if c == '"' {
            out.push('\\');
            out.push('"');
        } else if c == '\\' {
            out.push('\\');
            out.push('\\');
        } else if c == '\u{8}' {
            out.push('\\');
            out.push('b');
        } else if c == '\t' {
            out.push('\\');
            out.push('t');
        } else if c == '\n' {
            out.push('\\');
            out.push('n');
        } else if c == '\u{c}' {
            out.push('\\');
            out.push('f');
        } else if c == '\r' {
            out.push('\\');
            out.push('r');
        } else if (c as u32) < 32 {
            let u = c as u32;
            out.push('\\');
            out.push('u');
            out.push('0');
            out.push('0');
            out.push(hex_lower_char((u / 16) as u8));
            out.push(hex_lower_char((u % 16) as u8));
        } else {
            out.push(c);
        }
        proof {
            lemma_json_escaped_push(s@.take(i as int), s@[i as int]);
            assert(s@.take(i + 1) =~= s@.take(i as int).push(s@[i as int]));
            assert(out@ =~= json_escaped(s@.take(i + 1)));
        }
        i = i + 1;
    }
    proof {
        assert(s@.take(n as int) =~= s@);
    }
    chars_to_string(&out)
}

} // verus!
