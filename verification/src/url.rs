//! Percent-encoding of URL paths and the `file://` URLs of directories.

use vstd::prelude::*;
use vstd::utf8::{
    decode_utf8, encode_scalar, encode_utf8, has_width_1_encoding, encode_utf8_decode_utf8, encode_utf8_valid_utf8, is_ascii_chars,
    is_ascii_chars_encode_utf8, valid_utf8,
};
use crate::chars::chars_of;

verus! {

/// What `String::from_utf8_lossy` makes of `bytes`.
pub uninterp spec fn utf8_lossy(bytes: Seq<u8>) -> Seq<char>;

/// The text of `bytes` read as UTF-8: the decoded characters when the bytes
/// are valid, else what `String::from_utf8_lossy` makes of them.
pub open spec fn lossy_text(bytes: Seq<u8>) -> Seq<char> {
    if valid_utf8(bytes) {
        decode_utf8(bytes)
    } else {
        utf8_lossy(bytes)
    }
}

/// Decodes `bytes` with `String::from_utf8_lossy`, which replaces invalid
/// sequences by U+FFFD. Claims, as std documents, that valid UTF-8 decodes
/// to its characters, and that the text of other bytes is `utf8_lossy` of
/// them; how invalid sequences are replaced is left unsaid.
#[verifier::external_body]
pub(crate) fn from_utf8_lossy(bytes: &[u8]) -> (text: String)
    ensures
        valid_utf8(bytes@) ==> text@ == decode_utf8(bytes@),
        !valid_utf8(bytes@) ==> text@ == utf8_lossy(bytes@),
{
    String::from_utf8_lossy(bytes).into_owned()
}

/// Bytes that a URL path keeps as they are: ASCII letters and digits and
/// `-`, `_`, `.`, `~`, `/`, `:`.
pub open spec fn url_safe(b: u8) -> bool {
    (65 <= b <= 90) || (97 <= b <= 122) || (48 <= b <= 57) || b == 45 || b == 95 || b == 46 || b
        == 126 || b == 47 || b == 58
}

/// The upper-case hexadecimal digit for `d < 16`.
pub open spec fn hex_upper(d: int) -> char {
    if d < 10 {
        (48 + d) as char
    } else {
        (55 + d) as char
    }
}

/// The characters that stand for byte `b` in a URL path.
pub open spec fn percent_byte(b: u8) -> Seq<char> {
    if url_safe(b) {
        seq![b as char]
    } else {
        seq!['%', hex_upper(b as int / 16), hex_upper(b as int % 16)]
    }
}

/// `bytes` percent-encoded.
pub open spec fn percent_encoded(bytes: Seq<u8>) -> Seq<char>
    decreases bytes.len(),
{
    if bytes.len() == 0 {
        seq![]
    } else {
        percent_encoded(bytes.drop_last()) + percent_byte(bytes.last())
    }
}

fn hex_digit_upper(d: u8) -> (c: char)
    requires
        d < 16,
    ensures
        c == hex_upper(d as int),
{
    if d < 10 {
        (48 + d) as char
    } else {
        (55 + d) as char
    }
}

/// Percent-encodes the UTF-8 bytes of `input`, keeping the bytes of
/// `url_safe` as they are.
pub fn percent_encode_url_path(input: &str) -> (output: String)
    ensures
        output@ == percent_encoded(encode_utf8(input@)),
{
    let bytes = input.as_bytes();
    let mut output = String::new();
    let mut i: usize = 0;
    while i < bytes.len()
        invariant
            i <= bytes.len(),
            bytes@ == encode_utf8(input@),
            output@ == percent_encoded(bytes@.subrange(0, i as int)),
        decreases bytes.len() - i,
    {
        let b = bytes[i];
        if (65 <= b && b <= 90) || (97 <= b && b <= 122) || (48 <= b && b <= 57) || b == 45 || b
            == 95 || b == 46 || b == 126 || b == 47 || b == 58 {
            output.push(b as char);
        } else {
            output.push('%');
            output.push(hex_digit_upper(b / 16));
            output.push(hex_digit_upper(b % 16));
        }
        assert(bytes@.subrange(0, i + 1).drop_last() == bytes@.subrange(0, i as int));
        i = i + 1;
    }
    assert(bytes@.subrange(0, bytes.len() as int) == bytes@);
    output
}

/// The value of a hexadecimal digit, in either case.
pub open spec fn hex_digit_value(b: u8) -> Option<u8> {
    if 48 <= b <= 57 {
        Some((b - 48) as u8)
    } else if 97 <= b <= 102 {
        Some((b - 97 + 10) as u8)
    } else if 65 <= b <= 70 {
        Some((b - 65 + 10) as u8)
    } else {
        None
    }
}

/// The value of the hexadecimal digit `byte`, in either case.
pub fn hex_value(byte: u8) -> (res: Option<u8>)
    ensures
        res == hex_digit_value(byte),
{
    if 48 <= byte && byte <= 57 {
        Some(byte - 48)
    } else if 97 <= byte && byte <= 102 {
        Some(byte - 97 + 10)
    } else if 65 <= byte && byte <= 70 {
        Some(byte - 65 + 10)
    } else {
        None
    }
}

/// Percent-decoding the bytes `s[pos..]` onto `out`: `%` and two hex digits
/// stand for one byte; anything else, malformed escapes included, is copied.
pub open spec fn percent_decode_from(s: Seq<u8>, pos: int, out: Seq<u8>) -> Seq<u8>
    decreases s.len() - pos,
{
    if pos < 0 || pos >= s.len() {
        out
    } else if s[pos] == 37 && pos + 2 < s.len() && hex_digit_value(s[pos + 1]) is Some
        && hex_digit_value(s[pos + 2]) is Some {
        percent_decode_from(
            s,
            pos + 3,
            out.push(
                (hex_digit_value(s[pos + 1])->0 * 16 + hex_digit_value(s[pos + 2])->0) as u8,
            ),
        )
    } else {
        percent_decode_from(s, pos + 1, out.push(s[pos]))
    }
}

/// The text of a percent-encoded URL path: its UTF-8 bytes decoded, then
/// read as UTF-8 with invalid sequences replaced.
pub open spec fn percent_decoded(input: Seq<char>) -> Seq<char> {
    lossy_text(percent_decode_from(encode_utf8(input), 0, seq![]))
}

/// Decodes the percent-encoding of a URL path. `+` stays as it is, since it
/// stands for a space only in query strings, and malformed escapes are kept
/// literally.
pub fn percent_decode_path(input: &str) -> (output: String)
    ensures
        output@ == percent_decoded(input@),
{
    let bytes = input.as_bytes();
    let mut out: Vec<u8> = Vec::new();
    let mut position: usize = 0;
    while position < bytes.len()
        invariant
            position <= bytes.len(),
            bytes@ == encode_utf8(input@),
            percent_decode_from(bytes@, 0, seq![]) == percent_decode_from(
                bytes@,
                position as int,
                out@,
            ),
        decreases bytes.len() - position,
    {
        if bytes[position] == 37 && bytes.len() - position > 2 {
            let high = hex_value(bytes[position + 1]);
            let low = hex_value(bytes[position + 2]);
            if high.is_some() && low.is_some() {
                let h = high.unwrap();
                let l = low.unwrap();
                out.push(h * 16 + l);
                position = position + 3;
                continue ;
            }
        }
        out.push(bytes[position]);
        position = position + 1;
    }
    from_utf8_lossy(out.as_slice())
}

/// The `file://` URL of a directory path: backslashes become slashes, on
/// Windows the path follows `file:///` without its leading slashes, a
/// trailing slash is added when missing, and the result is percent-encoded.
pub open spec fn file_url(path: Seq<char>, windows: bool) -> Seq<char> {
    let p = path.map_values(|c: char| if c == '\\' { '/' } else { c });
    let u = if windows {
        "file:///"@ + p.skip(leading_slashes(p, 0) as int)
    } else {
        "file://"@ + p
    };
    let v = if u.len() > 0 && u.last() == '/' {
        u
    } else {
        u.push('/')
    };
    percent_encoded(encode_utf8(v))
}

/// Number of slashes that begin `s` from `i` on.
pub open spec fn leading_slashes(s: Seq<char>, i: int) -> nat
    decreases s.len() - i,
{
    if 0 <= i < s.len() && s[i] == '/' {
        1 + leading_slashes(s, i + 1)
    } else {
        0
    }
}

pub proof fn lemma_leading_slashes(s: Seq<char>, i: int)
    ensures
        0 <= i <= s.len() ==> i + leading_slashes(s, i) <= s.len(),
    decreases s.len() - i,
{
    if 0 <= i < s.len() && s[i] == '/' {
        lemma_leading_slashes(s, i + 1);
    }
}

/// The `file://` URL of a directory, given as its canonical path, ending in
/// a slash and percent-encoded: the base URL a preview page resolves relative
/// links against. See `file_url`.
pub fn path_to_file_url(canonical: &str, windows: bool) -> (href: String)
    ensures
        href@ == file_url(canonical@, windows),
{
    let s = chars_of(canonical);
    let ghost p = canonical@.map_values(|c: char| if c == '\\' { '/' } else { c });
    let mut path: Vec<char> = Vec::new();
    let mut i: usize = 0;
    while i < s.len()
        invariant
            i <= s.len(),
            s@ == canonical@,
            p == canonical@.map_values(|c: char| if c == '\\' { '/' } else { c }),
            path@ == p.subrange(0, i as int),
        decreases s.len() - i,
    {
        if s[i] == '\\' {
            path.push('/');
        } else {
            path.push(s[i]);
        }
        i = i + 1;
        assert(path@ =~= p.subrange(0, i as int));
    }
    assert(path@ =~= p);
    let mut url = String::new();
    let mut start: usize = 0;
    if windows {
        url.push_str("file:///");
        while start < path.len() && path[start] == '/'
            invariant
                start <= path.len(),
                leading_slashes(path@, 0) == start + leading_slashes(path@, start as int),
            decreases path.len() - start,
        {
            start = start + 1;
        }
    } else {
        url.push_str("file://");
    }
    let mut k = start;
    let ghost base = url@;
    while k < path.len()
        invariant
            start <= k <= path.len(),
            url@ == base + path@.subrange(start as int, k as int),
        decreases path.len() - k,
    {
        url.push(path[k]);
        k = k + 1;
        assert(url@ =~= base + path@.subrange(start as int, k as int));
    }
    assert(path@.subrange(start as int, path.len() as int) =~= path@.skip(start as int));
    let u = chars_of(url.as_str());
    if u.len() == 0 || u[u.len() - 1] != '/' {
        url.push('/');
    }
    percent_encode_url_path(url.as_str())
}

/// The bytes of the percent-encoded text of `bytes` (it is ASCII).
pub open spec fn percent_codes(bytes: Seq<u8>) -> Seq<u8> {
    percent_encoded(bytes).map_values(|c: char| c as u8)
}

proof fn lemma_percent_encoded_append(a: Seq<u8>, b: Seq<u8>)
    ensures
        percent_encoded(a + b) == percent_encoded(a) + percent_encoded(b),
    decreases b.len(),
{
    if b.len() == 0 {
        assert(a + b =~= a);
        assert(percent_encoded(b) =~= seq![]);
        assert(percent_encoded(a) + percent_encoded(b) =~= percent_encoded(a));
    } else {
        lemma_percent_encoded_append(a, b.drop_last());
        assert((a + b).drop_last() =~= a + b.drop_last());
        assert((a + b).last() == b.last());
        assert(percent_encoded(a) + percent_encoded(b) =~= percent_encoded(a) + percent_encoded(
            b.drop_last(),
        ) + percent_byte(b.last()));
    }
}

proof fn lemma_percent_encoded_single(b: u8)
    ensures
        percent_encoded(seq![b]) == percent_byte(b),
{
    let s = seq![b];
    assert(s.drop_last() =~= seq![]);
    assert(percent_encoded(s.drop_last()) == Seq::<char>::empty());
    assert(percent_encoded(s) =~= percent_byte(b));
}

proof fn lemma_percent_encoded_ascii(bytes: Seq<u8>)
    ensures
        is_ascii_chars(percent_encoded(bytes)),
    decreases bytes.len(),
{
    if bytes.len() > 0 {
        lemma_percent_encoded_ascii(bytes.drop_last());
        let p = percent_encoded(bytes.drop_last());
        let t = percent_byte(bytes.last());
        let e = percent_encoded(bytes);
        assert(e == p + t);
        assert forall|i: int| 0 <= i < e.len() implies '\0' <= #[trigger] e[i] <= '\u{7f}' by {
            if i < p.len() {
                assert(e[i] == p[i]);
            } else {
                assert(e[i] == t[i - p.len()]);
            }
        }
    }
}

/// Decoding from `a.len() + k` looks only at bytes after `a`.
proof fn lemma_decode_shift(a: Seq<u8>, c: Seq<u8>, k: int, out: Seq<u8>)
    requires
        0 <= k,
    ensures
        percent_decode_from(a + c, a.len() + k, out) == percent_decode_from(c, k, out),
    decreases c.len() - k,
{
    let s = a + c;
    let pos = a.len() + k;
    if k < c.len() {
        assert(s[pos] == c[k]);
        if k + 1 < c.len() {
            assert(s[pos + 1] == c[k + 1]);
        }
        if k + 2 < c.len() {
            assert(s[pos + 2] == c[k + 2]);
        }
        lemma_decode_shift(a, c, k + 1, out.push(c[k]));
        if k + 2 < c.len() && c[k] == 37 && hex_digit_value(c[k + 1]) is Some
            && hex_digit_value(c[k + 2]) is Some {
            lemma_decode_shift(
                a,
                c,
                k + 3,
                out.push((hex_digit_value(c[k + 1])->0 * 16 + hex_digit_value(c[k + 2])->0) as u8),
            );
        }
    }
}

proof fn lemma_hex_roundtrip(d: int)
    requires
        0 <= d < 16,
    ensures
        hex_digit_value((hex_upper(d) as u32) as u8) == Some(d as u8),
{
}

proof fn lemma_decode_codes(bytes: Seq<u8>, out: Seq<u8>)
    ensures
        percent_decode_from(percent_codes(bytes), 0, out) == out + bytes,
    decreases bytes.len(),
{
    if bytes.len() == 0 {
        assert(percent_encoded(bytes) =~= seq![]);
        assert(percent_codes(bytes) =~= seq![]);
        assert(out + bytes =~= out);
    } else {
        let x = bytes[0];
        let rest = bytes.drop_first();
        assert(seq![x] + rest =~= bytes);
        lemma_percent_encoded_append(seq![x], rest);
        lemma_percent_encoded_single(x);
        let head = percent_byte(x).map_values(|c: char| c as u8);
        let tail = percent_codes(rest);
        assert(percent_codes(bytes) =~= head + tail);
        lemma_decode_codes(rest, out.push(x));
        if url_safe(x) {
            assert(head =~= seq![x]);
            assert(x != 37);
            lemma_decode_shift(head, tail, 0, out.push(x));
            assert((head + tail)[0] == x);
        } else {
            lemma_hex_roundtrip(x as int / 16);
            lemma_hex_roundtrip(x as int % 16);
            assert(head.len() == 3);
            assert(head[0] == 37);
            let s = head + tail;
            assert(s[0] == 37 && s[1] == head[1] && s[2] == head[2]);
            assert(hex_digit_value(s[1]) == Some((x as int / 16) as u8));
            assert(hex_digit_value(s[2]) == Some((x as int % 16) as u8));
            assert(((x as int / 16) * 16 + x as int % 16) as u8 == x);
            lemma_decode_shift(head, tail, 0, out.push(x));
        }
        assert(out.push(x) + rest =~= out + bytes);
    }
}

/// Decoding a percent-encoded URL path gives back the text that was
/// encoded.
pub proof fn percent_decoding_undoes_encoding(text: Seq<char>)
    ensures
        percent_decoded(percent_encoded(encode_utf8(text))) == text,
{
    let bytes = encode_utf8(text);
    let e = percent_encoded(bytes);
    lemma_percent_encoded_ascii(bytes);
    is_ascii_chars_encode_utf8(e);
    assert(encode_utf8(e) =~= percent_codes(bytes));
    lemma_decode_codes(bytes, seq![]);
    assert(Seq::<u8>::empty() + bytes =~= bytes);
    encode_utf8_valid_utf8(text);
    encode_utf8_decode_utf8(text);
}

proof fn lemma_encode_utf8_append(a: Seq<char>, b: Seq<char>)
    ensures
        encode_utf8(a + b) == encode_utf8(a) + encode_utf8(b),
    decreases a.len(),
{
    if a.len() == 0 {
        assert(a + b =~= b);
        assert(encode_utf8(a) + encode_utf8(b) =~= encode_utf8(b));
    } else {
        assert((a + b)[0] == a[0]);
        assert((a + b).drop_first() =~= a.drop_first() + b);
        lemma_encode_utf8_append(a.drop_first(), b);
        assert(encode_utf8(a) + encode_utf8(b) =~= encode_scalar(a[0] as u32) + encode_utf8(
            a.drop_first(),
        ) + encode_utf8(b));
    }
}

/// The base URL of a preview ends with `/`, so that relative links
/// resolve inside the document's directory.
pub proof fn file_url_ends_with_slash(path: Seq<char>, windows: bool)
    ensures
        file_url(path, windows).len() > 0,
        file_url(path, windows).last() == '/',
{
    let p = path.map_values(|c: char| if c == '\\' { '/' } else { c });
    let u = if windows {
        "file:///"@ + p.skip(leading_slashes(p, 0) as int)
    } else {
        "file://"@ + p
    };
    let v = if u.len() > 0 && u.last() == '/' {
        u
    } else {
        u.push('/')
    };
    assert(v.len() > 0 && v.last() == '/');
    let front = v.drop_last();
    assert(v =~= front + seq!['/']);
    lemma_encode_utf8_append(front, seq!['/']);
    assert(seq!['/'].drop_first() =~= Seq::<char>::empty());
    assert((47u32 & 0x7F) == 47) by (bit_vector);
    assert('/' as u32 == 47u32);
    let slash = seq!['/'];
    assert(slash[0] as u32 == 47u32);
    assert(has_width_1_encoding(47u32));
    assert(encode_scalar(47u32) =~= seq![47u8]);
    assert(encode_utf8(slash.drop_first()) =~= Seq::<u8>::empty());
    assert(encode_utf8(slash) == encode_scalar(slash[0] as u32) + encode_utf8(slash.drop_first()));
    assert(encode_utf8(slash) =~= seq![47u8]);
    let x = encode_utf8(front);
    let y = x + seq![47u8];
    assert(y.drop_last() =~= x);
    assert(y.last() == 47u8);
    assert(percent_byte(47u8) =~= seq!['/']);
}

/// What the reader says when a file has no parent directory.
pub fn no_parent_message(file: &str) -> (message: String)
    ensures
        message@ == "could not find parent directory for "@ + file@,
{
    let mut message = String::new();
    message.push_str("could not find parent directory for ");
    message.push_str(file);
    message
}

/// Whether `c` may stand in a percent-encoded path: an ASCII letter or
/// digit, one of `-`, `_`, `.`, `~`, `/`, `:`, or the `%` of an escape.
pub open spec fn url_path_char(c: char) -> bool {
    ('A' <= c && c <= 'Z') || ('a' <= c && c <= 'z') || ('0' <= c && c <= '9') || c == '-' || c
        == '_' || c == '.' || c == '~' || c == '/' || c == ':' || c == '%'
}

/// Percent-encoded text holds only ASCII letters and digits, `-`, `_`, `.`,
/// `~`, `/`, `:` and `%`: in particular no space, `#` or `?`, which would
/// end the path of a URL.
pub proof fn percent_encoding_keeps_only_path_characters(bytes: Seq<u8>)
    ensures
        forall|i: int| 0 <= i < percent_encoded(bytes).len() ==> url_path_char(#[trigger] percent_encoded(bytes)[i]),
    decreases bytes.len(),
{
    if bytes.len() > 0 {
        percent_encoding_keeps_only_path_characters(bytes.drop_last());
        let p = percent_encoded(bytes.drop_last());
        let b = bytes.last();
        let t = percent_byte(b);
        let e = percent_encoded(bytes);
        assert(e == p + t);
        assert forall|k: int| 0 <= k < t.len() implies url_path_char(#[trigger] t[k]) by {
            if !url_safe(b) {
                if k == 1 {
                    assert(0 <= b as int / 16 < 16);
                } else if k == 2 {
                    assert(0 <= b as int % 16 < 16);
                }
            }
        }
        assert forall|i: int| 0 <= i < e.len() implies url_path_char(#[trigger] e[i]) by {
            if i < p.len() {
                assert(e[i] == p[i]);
            } else {
                assert(e[i] == t[i - p.len()]);
            }
        }
    }
}

/// The base URL of a preview holds only the characters of
/// `percent_encoding_keeps_only_path_characters`, so none of the
/// directory's name is read as a query or a fragment.
pub proof fn file_urls_keep_only_path_characters(path: Seq<char>, windows: bool)
    ensures
        forall|i: int| 0 <= i < file_url(path, windows).len() ==> url_path_char(#[trigger] file_url(path, windows)[i]),
{
    let p = path.map_values(|c: char| if c == '\\' { '/' } else { c });
    let u = if windows {
        "file:///"@ + p.skip(leading_slashes(p, 0) as int)
    } else {
        "file://"@ + p
    };
    let v = if u.len() > 0 && u.last() == '/' {
        u
    } else {
        u.push('/')
    };
    percent_encoding_keeps_only_path_characters(encode_utf8(v));
}

} // verus!
