use vstd::prelude::*;
use vstd::utf8::encode_utf8;

verus! {

/// Relies on String::push: appends one character at the end.
#[verifier::external_body]
pub(crate) fn push_char(s: &mut String, c: char)
    ensures
        final(s)@ == old(s)@.push(c),
{
    s.push(c)
}

/// Whether a character is an ASCII lowercase letter.
pub open spec fn is_lower(c: char) -> bool {
    'a' <= c && c <= 'z'
}

/// The identifier derived from a URI: its ASCII lowercase letters, in order.
/// Different URIs may give the same identifier.
pub open spec fn identifier_of(uri: Seq<char>) -> Seq<char> {
    uri.filter(|c: char| is_lower(c))
}

/// A character other than an ASCII lowercase letter, put anywhere into a URI,
/// leaves its identifier unchanged: URIs that differ only in such characters,
/// such as `/a_b` and `/ab`, get the same identifier.
pub proof fn lemma_identifier_ignores_other_chars(uri: Seq<char>, i: int, c: char)
    requires
        0 <= i <= uri.len(),
        !is_lower(c),
    ensures
        identifier_of(uri.insert(i, c)) == identifier_of(uri),
{
    broadcast use Seq::filter_distributes_over_add;

    let p = |x: char| is_lower(x);
    assert(uri.insert(i, c) =~= uri.take(i) + seq![c] + uri.skip(i));
    assert(uri =~= uri.take(i) + uri.skip(i));
    assert(seq![c].filter(p) =~= Seq::<char>::empty()) by {
        reveal_with_fuel(Seq::filter, 2);
        assert(seq![c].drop_last() =~= Seq::<char>::empty());
    }
}

/// A URI with each character that is not an ASCII lowercase letter replaced by `_`.
pub open spec fn underscored(uri: Seq<char>) -> Seq<char> {
    uri.map_values(|c: char| if is_lower(c) { c } else { '_' })
}

/// The first index at or after `i` where `s` holds something other than `c`.
pub open spec fn first_other_at_or_after(s: Seq<char>, c: char, i: int) -> int
    decreases s.len() - i,
{
    if i >= s.len() {
        s.len() as int
    } else if s[i] != c {
        i
    } else {
        first_other_at_or_after(s, c, i + 1)
    }
}

/// A text without its leading underscores.
pub open spec fn trim_leading_underscores(s: Seq<char>) -> Seq<char> {
    s.skip(first_other_at_or_after(s, '_', 0))
}

/// The suffix that names a regression test after the URI it replays.
pub open spec fn test_suffix_of(uri: Seq<char>) -> Seq<char> {
    trim_leading_underscores(underscored(uri))
}

/// The identifier for a handler of `uri`: the URI's ASCII lowercase letters.
pub fn derive_identifier(uri: &str) -> (r: String)
    ensures
        r@ == identifier_of(uri@),
{
    let n = uri.unicode_len();
    let mut out = String::new();
    let mut i: usize = 0;
    while i < n
        invariant
            n == uri@.len(),
            0 <= i <= n,
            out@ == identifier_of(uri@.take(i as int)),
        decreases n - i,
    {
        let c = uri.get_char(i);
        proof {
            assert(uri@.take(i + 1) =~= uri@.take(i as int).push(c));
            uri@.take(i as int).lemma_filter_push(c, |c: char| is_lower(c));
        }
        if 'a' <= c && c <= 'z' {
            push_char(&mut out, c);
        }
        i = i + 1;
    }
    assert(uri@.take(n as int) =~= uri@);
    out
}

/// The suffix that names a regression test for `uri`: the URI with every
/// character other than an ASCII lowercase letter turned into `_`, leading
/// underscores removed.
pub fn test_suffix(uri: &str) -> (r: String)
    ensures
        r@ == test_suffix_of(uri@),
{
    let n = uri.unicode_len();
    let mut safe = String::new();
    let mut i: usize = 0;
    while i < n
        invariant
            n == uri@.len(),
            0 <= i <= n,
            safe@ == underscored(uri@.take(i as int)),
        decreases n - i,
    {
        let c = uri.get_char(i);
        assert(uri@.take(i + 1) =~= uri@.take(i as int).push(c));
        if 'a' <= c && c <= 'z' {
            push_char(&mut safe, c);
        } else {
            push_char(&mut safe, '_');
        }
        assert(safe@ =~= underscored(uri@.take(i + 1)));
        i = i + 1;
    }
    assert(uri@.take(n as int) =~= uri@);
    let text = safe.as_str();
    let mut k: usize = 0;
    while k < n && text.get_char(k) == '_'
        invariant
            n == text@.len(),
            0 <= k <= n,
            first_other_at_or_after(text@, '_', 0) == first_other_at_or_after(text@, '_', k as int),
        decreases n - k,
    {
        k = k + 1;
    }
    assert(first_other_at_or_after(text@, '_', k as int) == k);
    assert(text@.subrange(k as int, n as int) =~= text@.skip(k as int));
    text.substring_char(k, n).to_owned()
}

/// The lower-case hexadecimal digit for a value below 16.
pub open spec fn hex_digit(n: u8) -> char {
    if n < 10 {
        (n + 48) as u8 as char
    } else {
        (n + 87) as u8 as char
    }
}

/// The value of a lower-case hexadecimal digit.
pub open spec fn hex_value(c: char) -> int {
    if c <= '9' {
        c as int - 48
    } else {
        c as int - 87
    }
}

/// How one byte is written inside a byte string literal: quote, backslash
/// and the common control characters by their escapes, other printable ASCII
/// as itself, everything else as `\xNN`.
pub open spec fn escape_byte(b: u8) -> Seq<char> {
    if b == 34 {
        seq!['\\', '"']
    } else if b == 92 {
        seq!['\\', '\\']
    } else if b == 10 {
        seq!['\\', 'n']
    } else if b == 13 {
        seq!['\\', 'r']
    } else if b == 9 {
        seq!['\\', 't']
    } else if 0x20 <= b < 0x7f {
        seq![b as char]
    } else {
        seq!['\\', 'x', hex_digit(b / 16), hex_digit(b % 16)]
    }
}

/// The contents of a byte string literal that stands for `bytes`.
pub open spec fn escaped(bytes: Seq<u8>) -> Seq<char>
    decreases bytes.len(),
{
    if bytes.len() == 0 {
        Seq::empty()
    } else {
        escape_byte(bytes[0]) + escaped(bytes.drop_first())
    }
}

/// The byte that the two-character escape `\c` stands for.
pub open spec fn simple_escape(c: char) -> u8 {
    if c == 'n' {
        10
    } else if c == 'r' {
        13
    } else if c == 't' {
        9
    } else if c == '0' {
        0
    } else {
        c as u32 as u8
    }
}

/// The bytes that the contents `s` of a byte string literal stand for, read
/// as the compiler reads `\xNN`, `\n`, `\r`, `\t`, `\0`, `\\` and `\"`.
pub open spec fn unescape(s: Seq<char>) -> Seq<u8>
    decreases s.len(),
{
    if s.len() == 0 {
        Seq::empty()
    } else if s[0] == '\\' && s.len() >= 4 && s[1] == 'x' {
        seq![(hex_value(s[2]) * 16 + hex_value(s[3])) as u8] + unescape(s.skip(4))
    } else if s[0] == '\\' && s.len() >= 2 {
        seq![simple_escape(s[1])] + unescape(s.skip(2))
    } else {
        seq![s[0] as u32 as u8] + unescape(s.skip(1))
    }
}

proof fn lemma_unescape_one(b: u8, rest: Seq<char>)
    ensures
        unescape(escape_byte(b) + rest) == seq![b] + unescape(rest),
{
    let s = escape_byte(b) + rest;
    let k = escape_byte(b).len() as int;
    assert(s.skip(k) =~= rest);
    if !(b == 34 || b == 92 || b == 10 || b == 13 || b == 9 || (0x20 <= b < 0x7f)) {
        assert((b / 16) * 16 + b % 16 == b);
        assert(hex_value(hex_digit(b / 16)) == (b / 16) as int);
        assert(hex_value(hex_digit(b % 16)) == (b % 16) as int);
    }
}

/// Reading back the escaped form of any bytes gives those bytes: the
/// literal in a generated test holds the captured body byte for byte.
pub proof fn lemma_escaped_round_trip(bytes: Seq<u8>)
    ensures
        unescape(escaped(bytes)) == bytes,
    decreases bytes.len(),
{
    if bytes.len() > 0 {
        lemma_escaped_round_trip(bytes.drop_first());
        lemma_unescape_one(bytes[0], escaped(bytes.drop_first()));
        assert(seq![bytes[0]] + bytes.drop_first() =~= bytes);
    }
}

proof fn lemma_escaped_push(bytes: Seq<u8>, b: u8)
    ensures
        escaped(bytes.push(b)) == escaped(bytes) + escape_byte(b),
    decreases bytes.len(),
{
    if bytes.len() == 0 {
        assert(bytes.push(b).drop_first() =~= Seq::<u8>::empty());
        assert(escaped(Seq::<u8>::empty()) == Seq::<char>::empty());
        assert(escaped(bytes) == Seq::<char>::empty());
        assert(bytes.push(b)[0] == b);
        assert(escape_byte(b) + Seq::<char>::empty() =~= escape_byte(b));
        assert(Seq::<char>::empty() + escape_byte(b) =~= escape_byte(b));
    } else {
        lemma_escaped_push(bytes.drop_first(), b);
        assert(bytes.push(b).drop_first() =~= bytes.drop_first().push(b));
        assert(bytes.push(b)[0] == bytes[0]);
        assert(escape_byte(bytes[0]) + (escaped(bytes.drop_first()) + escape_byte(b)) =~= escape_byte(
            bytes[0],
        ) + escaped(bytes.drop_first()) + escape_byte(b));
    }
}

/// The lower-case hexadecimal digit for a value below 16.
fn hex_char(n: u8) -> (c: char)
    requires
        n < 16,
    ensures
        c == hex_digit(n),
{
    if n < 10 {
        (n + 48) as char
    } else {
        (n + 87) as char
    }
}

/// The contents of a byte string literal that stands for the UTF-8 bytes of
/// `text`.
pub fn escape_byte_literal(text: &str) -> (r: String)
    ensures
        r@ == escaped(encode_utf8(text@)),
{
    let bytes = text.as_bytes();
    let mut out = String::new();
    let mut i: usize = 0;
    while i < bytes.len()
        invariant
            0 <= i <= bytes@.len(),
            bytes@ == encode_utf8(text@),
            out@ == escaped(bytes@.take(i as int)),
        decreases bytes@.len() - i,
    {
        let b = bytes[i];
        let ghost before = out@;
        if b == 34 {
            push_char(&mut out, '\\');
            push_char(&mut out, '"');
        } else if b == 92 {
            push_char(&mut out, '\\');
            push_char(&mut out, '\\');
        } else if b == 10 {
            push_char(&mut out, '\\');
            push_char(&mut out, 'n');
        } else if b == 13 {
            push_char(&mut out, '\\');
            push_char(&mut out, 'r');
        } else if b == 9 {
            push_char(&mut out, '\\');
            push_char(&mut out, 't');
        } else if 0x20 <= b && b < 0x7f {
            push_char(&mut out, b as char);
        } else {
            push_char(&mut out, '\\');
            push_char(&mut out, 'x');
            push_char(&mut out, hex_char(b / 16));
            push_char(&mut out, hex_char(b % 16));
        }
        proof {
            assert(out@ =~= before + escape_byte(b));
            assert(bytes@.take(i + 1) =~= bytes@.take(i as int).push(b));
            lemma_escaped_push(bytes@.take(i as int), b);
        }
        i = i + 1;
    }
    assert(bytes@.take(i as int) =~= bytes@);
    out
}

/// The text of a new route handler for `route_path`, named `name`.
pub open spec fn handler_fn_text(name: Seq<char>, route_path: Seq<char>) -> Seq<char> {
    "\n\n#[get(\""@ + route_path + "\")]\nasync fn "@ + name
        + "() -> impl Responder {\n    \"TODO: implement this handler\"\n}\n\n"@
}

/// The text of a test that requests `uri` from the handler `name` and expects
/// success and the placeholder payload.
pub open spec fn integration_test_text(name: Seq<char>, uri: Seq<char>) -> Seq<char> {
    "\n\n    #[actix_rt::test]\n    async fn test_"@ + name
        + "() {\n        let mut app = atest::init_service(App::new().service("@ + name
        + ")).await;\n\n        let req = atest::TestRequest::with_uri(\""@ + uri
        + "\").to_request();\n        let resp = atest::call_service(&mut app, req).await;\n\n        dbg!(resp.status());\n        assert!(resp.status().is_success());\n\n        let bytes = atest::read_body(resp).await;\n        assert_eq!(\n            bytes,\n            Bytes::from_static(b\"TODO: implement this handler\")\n        );\n    }\n\n"@
}

/// The text of a test that requests `uri` from the handler `name` and expects
/// status 500 with `body` as the payload, byte for byte: the body's UTF-8
/// bytes go into the byte string literal in escaped form.
pub open spec fn regression_test_text(name: Seq<char>, uri: Seq<char>, body: Seq<char>) -> Seq<char> {
    "\n\n    #[actix_rt::test]\n    async fn test_"@ + name + "_"@ + test_suffix_of(uri)
        + "() {\n        let mut app = atest::init_service(App::new().service("@ + name
        + ")).await;\n\n        let req = atest::TestRequest::with_uri(\""@ + uri
        + "\").to_request();\n        let resp = atest::call_service(&mut app, req).await;\n\n        assert_eq!(resp.status(), 500);\n\n        let bytes = atest::read_body(resp).await;\n        assert_eq!(\n            bytes,\n            Bytes::from_static(b\""@
        + escaped(encode_utf8(body)) + "\")\n        );\n    }\n\n"@
}

/// The call that registers the handler `name` with the application.
pub open spec fn registration_text(name: Seq<char>) -> Seq<char> {
    ".service("@ + name + ")"@
}

/// The attribute that binds a handler to `route_path`.
pub open spec fn route_attr_text(route_path: Seq<char>) -> Seq<char> {
    "#[get(\""@ + route_path + "\")]"@
}

/// A new route handler for `route_path`, named `handler_name`, surrounded by
/// blank lines.
pub fn format_handler_fn(handler_name: &str, route_path: &str) -> (r: String)
    ensures
        r@ == handler_fn_text(handler_name@, route_path@),
{
    let mut r = String::new();
    r.append("\n\n#[get(\"");
    r.append(route_path);
    r.append("\")]\nasync fn ");
    r.append(handler_name);
    r.append("() -> impl Responder {\n    \"TODO: implement this handler\"\n}\n\n");
    r
}

/// A test that requests `uri` from `handler_name` and expects success and the
/// placeholder payload, surrounded by blank lines.
pub fn format_integration_test(handler_name: &str, uri: &str) -> (r: String)
    ensures
        r@ == integration_test_text(handler_name@, uri@),
{
    let mut r = String::new();
    r.append("\n\n    #[actix_rt::test]\n    async fn test_");
    r.append(handler_name);
    r.append("() {\n        let mut app = atest::init_service(App::new().service(");
    r.append(handler_name);
    r.append(")).await;\n\n        let req = atest::TestRequest::with_uri(\"");
    r.append(uri);
    r.append(
        "\").to_request();\n        let resp = atest::call_service(&mut app, req).await;\n\n        dbg!(resp.status());\n        assert!(resp.status().is_success());\n\n        let bytes = atest::read_body(resp).await;\n        assert_eq!(\n            bytes,\n            Bytes::from_static(b\"TODO: implement this handler\")\n        );\n    }\n\n",
    );
    r
}

/// A test that requests `uri` from `handler_name` and expects status 500 with
/// `response_body` as the payload, byte for byte, surrounded by blank lines.
pub fn format_regression_test(handler_name: &str, uri: &str, response_body: &str) -> (r: String)
    ensures
        r@ == regression_test_text(handler_name@, uri@, response_body@),
{
    let suffix = test_suffix(uri);
    let mut r = String::new();
    r.append("\n\n    #[actix_rt::test]\n    async fn test_");
    r.append(handler_name);
    r.append("_");
    r.append(suffix.as_str());
    r.append("() {\n        let mut app = atest::init_service(App::new().service(");
    r.append(handler_name);
    r.append(")).await;\n\n        let req = atest::TestRequest::with_uri(\"");
    r.append(uri);
    r.append(
        "\").to_request();\n        let resp = atest::call_service(&mut app, req).await;\n\n        assert_eq!(resp.status(), 500);\n\n        let bytes = atest::read_body(resp).await;\n        assert_eq!(\n            bytes,\n            Bytes::from_static(b\"",
    );
    let literal = escape_byte_literal(response_body);
    r.append(literal.as_str());
    r.append("\")\n        );\n    }\n\n");
    r
}

/// The call that registers `handler_name` with the application.
pub fn format_service_registration(handler_name: &str) -> (r: String)
    ensures
        r@ == registration_text(handler_name@),
{
    let mut r = String::new();
    r.append(".service(");
    r.append(handler_name);
    r.append(")");
    r
}

/// The attribute that binds a handler to `route_path`.
pub fn route_attr(route_path: &str) -> (r: String)
    ensures
        r@ == route_attr_text(route_path@),
{
    let mut r = String::new();
    r.append("#[get(\"");
    r.append(route_path);
    r.append("\")]");
    r
}

} // verus!
