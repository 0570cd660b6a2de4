use vstd::prelude::*;
use vstd::string::*;
use vstd::utf8::{encode_utf8, is_char_boundary, length_of_first_scalar, pop_first_scalar, valid_utf8};

use super::element::{image_format_code, ImageKind};
use crate::protocol::text::{byte_hex, decimal, digit_char, hex_char, hex_of, hex_string, push_decimal};

verus! {

/// Errors of reading images and their file names.
#[derive(Debug, Clone, Copy, PartialEq, Eq, Structural)]
pub enum ImageError {
    InvalidFilename,
    /// The bytes are not an image whose dimensions can be read.
    UnreadableImage,
    /// The text is not base64.
    InvalidBase64,
}

/// The text of an error.
pub open spec fn image_error_text(e: ImageError) -> Seq<char> {
    match e {
        ImageError::InvalidFilename => "invalid filename for image."@,
        ImageError::UnreadableImage => "unreadable image."@,
        ImageError::InvalidBase64 => "invalid base64 data."@,
    }
}

impl ImageError {
    /// The text of the error (see `image_error_text`).
    pub fn describe(&self) -> (s: String)
        ensures
            s@ == image_error_text(*self),
    {
        match self {
            ImageError::InvalidFilename => String::from_str("invalid filename for image."),
            ImageError::UnreadableImage => String::from_str("unreadable image."),
            ImageError::InvalidBase64 => String::from_str("invalid base64 data."),
        }
    }
}

/// The file extension of an image format number; JPEG for an unknown one.
pub open spec fn extension_of(format: u32) -> Seq<char> {
    if format == 3 || format == 1001 || format == 2001 {
        "png"@
    } else if format == 4 {
        "face"@
    } else if format == 1002 {
        "webp"@
    } else if format == 1005 {
        "bmp"@
    } else if format == 2000 {
        "gif"@
    } else {
        "jpg"@
    }
}

/// Each kind of image the client recognises goes on the wire under its own number (PNG 1001,
/// JPEG 1000, GIF 2000, WebP 1002, BMP 1005; distinct kinds never share one), and the file name
/// made for that number ends in the kind's own extension. The other numbers the client meets
/// name a PNG (3, 2001), a face (4) or a JPEG (1003).
pub proof fn lemma_format_numbers(k1: ImageKind, k2: ImageKind)
    ensures
        image_format_code(Some(ImageKind::Png)) == 1001,
        image_format_code(Some(ImageKind::Jpeg)) == 1000,
        image_format_code(Some(ImageKind::Gif)) == 2000,
        image_format_code(Some(ImageKind::WebP)) == 1002,
        image_format_code(Some(ImageKind::Bmp)) == 1005,
        k1 != k2 && k1 != ImageKind::Other && k2 != ImageKind::Other
            ==> image_format_code(Some(k1)) != image_format_code(Some(k2)),
        extension_of(image_format_code(Some(ImageKind::Png))) == "png"@,
        extension_of(image_format_code(Some(ImageKind::Jpeg))) == "jpg"@,
        extension_of(image_format_code(Some(ImageKind::Gif))) == "gif"@,
        extension_of(image_format_code(Some(ImageKind::WebP))) == "webp"@,
        extension_of(image_format_code(Some(ImageKind::Bmp))) == "bmp"@,
        extension_of(1002) == "webp"@,
        extension_of(1005) == "bmp"@,
        extension_of(2000) == "gif"@,
        extension_of(4) == "face"@,
        extension_of(3) == "png"@ && extension_of(1001) == "png"@ && extension_of(2001) == "png"@,
        extension_of(1000) == "jpg"@ && extension_of(1003) == "jpg"@,
{
}

/// The file extension of an image format.
pub trait ToExtension {
    fn to_extension(&self) -> &'static str;
}

impl ToExtension for u32 {
    /// The extension of this format number (see `extension_of`).
    fn to_extension(&self) -> (e: &'static str)
        ensures
            e@ == extension_of(*self),
    {
        match *self {
            3 => "png",
            4 => "face",
            1000 => "jpg",
            1001 => "png",
            1002 => "webp",
            1003 => "jpg",
            1005 => "bmp",
            2000 => "gif",
            2001 => "png",
            _ => "jpg",
        }
    }
}

/// The file name of an image: its digest in hexadecimal, its size, `-`, its width, `-`, its
/// height, `.` and the extension of its format; missing numbers count as 0.
pub open spec fn image_filename(md5: Seq<u8>, size: Option<u64>, width: Option<u32>, height: Option<u32>, typee: Option<u32>) -> Seq<char> {
    let num = |o: Option<u64>| match o { Some(n) => n, None => 0u64 };
    hex_of(md5) + decimal(num(size) as nat) + "-"@
        + decimal(match width { Some(n) => n, None => 0u32 } as nat) + "-"@
        + decimal(match height { Some(n) => n, None => 0u32 } as nat) + "."@
        + extension_of(match typee { Some(n) => n, None => 0u32 })
}

/// Builds the file name of an image from its parameters (see `image_filename`).
pub fn parse_filename_from_params(md5: [u8; 16], size: Option<u64>, width: Option<u32>, height: Option<u32>, typee: Option<u32>) -> (name: String)
    ensures
        name@ == image_filename(md5@, size, width, height, typee),
{
    let mut name = hex_string(&md5);
    push_decimal(&mut name, match size { Some(n) => n, None => 0 });
    name.append("-");
    push_decimal(&mut name, match width { Some(n) => n as u64, None => 0 });
    name.append("-");
    push_decimal(&mut name, match height { Some(n) => n as u64, None => 0 });
    name.append(".");
    let format: u32 = match typee { Some(n) => n, None => 0 };
    name.append(format.to_extension());
    name
}


// ---------------------------------------------------------------------------------------------
// Reading a file name back
// ---------------------------------------------------------------------------------------------

/// Where the first `-` at or after `from` is; the length where there is none.
pub open spec fn dash_at(b: Seq<u8>, from: int) -> int
    decreases b.len() - from,
{
    if from < 0 || from >= b.len() {
        b.len() as int
    } else if b[from] == 0x2d {
        from
    } else {
        dash_at(b, from + 1)
    }
}

/// Where the last `.` before `end` is; -1 where there is none.
pub open spec fn last_dot(b: Seq<u8>, end: int) -> int
    decreases end,
{
    if end <= 0 {
        -1
    } else if b[end - 1] == 0x2e {
        end - 1
    } else {
        last_dot(b, end - 1)
    }
}

/// Whether every byte is a decimal digit.
pub open spec fn all_digits(d: Seq<u8>) -> bool {
    forall|i: int| 0 <= i < d.len() ==> 0x30 <= #[trigger] d[i] <= 0x39
}

/// The number that decimal digits write.
pub open spec fn digits_value(d: Seq<u8>) -> nat
    decreases d.len(),
{
    if d.len() == 0 {
        0
    } else {
        digits_value(d.drop_last()) * 10 + (d.last() - 0x30) as nat
    }
}

/// An unsigned number as `str::parse` reads it: an optional `+` and at least one decimal digit,
/// with nothing else, of a value at most `max`; `None` otherwise.
pub open spec fn parse_unsigned(d: Seq<u8>, max: nat) -> Option<nat> {
    let digits = if d.len() > 1 && d[0] == 0x2b { d.drop_first() } else { d };
    if digits.len() > 0 && all_digits(digits) && digits_value(digits) <= max {
        Some(digits_value(digits))
    } else {
        None
    }
}

/// A number read as `parse_unsigned` does, 0 where it cannot be read.
pub open spec fn number_or_zero(d: Seq<u8>, max: nat) -> nat {
    match parse_unsigned(d, max) {
        Some(n) => n,
        None => 0,
    }
}

/// What a file name gives back, taken in `-`-separated pieces: the first 32 bytes (the digest),
/// the number after them in the first piece (the size), the second piece (the width) and the
/// third (the height), cut at the last `.` where that falls in it, each 0 where it is missing or
/// is not a number; and the bytes after the last `.` (the extension), the whole name where there
/// is no `.`.
pub open spec fn filename_params(b: Seq<u8>) -> (Seq<u8>, u64, u32, u32, Seq<u8>) {
    let e0 = dash_at(b, 0);
    let e1 = dash_at(b, e0 + 1);
    let e2 = dash_at(b, e1 + 1);
    let dot = last_dot(b, b.len() as int);
    let h_end = if e1 < dot && dot < e2 { dot } else { e2 };
    let size = number_or_zero(b.subrange(32, e0), u64::MAX as nat) as u64;
    let width = if e0 < b.len() { number_or_zero(b.subrange(e0 + 1, e1), u32::MAX as nat) as u32 } else { 0u32 };
    let height = if e0 < b.len() && e1 < b.len() { number_or_zero(b.subrange(e1 + 1, h_end), u32::MAX as nat) as u32 } else { 0u32 };
    (b.subrange(0, 32), size, width, height, b.subrange(dot + 1, b.len() as int))
}

/// Whether a file name can be read: its first piece holds at least the 32 bytes of the digest,
/// and a character starts after them.
pub open spec fn filename_readable(b: Seq<u8>) -> bool {
    dash_at(b, 0) >= 32 && is_char_boundary(b, 32)
}

proof fn lemma_dash_at(b: Seq<u8>, from: int)
    requires
        0 <= from,
    ensures
        from <= dash_at(b, from) <= b.len() || (from > b.len() && dash_at(b, from) == b.len()),
        dash_at(b, from) < b.len() ==> b[dash_at(b, from)] == 0x2d,
    decreases b.len() - from,
{
    if from < b.len() && b[from] != 0x2d {
        lemma_dash_at(b, from + 1);
    }
}

proof fn lemma_last_dot(b: Seq<u8>, end: int)
    requires
        end <= b.len(),
    ensures
        -1 <= last_dot(b, end) < end || (end <= 0 && last_dot(b, end) == -1),
        last_dot(b, end) >= 0 ==> b[last_dot(b, end)] == 0x2e,
    decreases end,
{
    if end > 0 && b[end - 1] != 0x2e {
        lemma_last_dot(b, end - 1);
    }
}

/// After a character boundary that starts a one-byte character comes another boundary.
proof fn lemma_boundary_after_ascii(b: Seq<u8>, j: int)
    requires
        valid_utf8(b),
        0 <= j < b.len(),
        is_char_boundary(b, j),
        b[j] < 0x80,
    ensures
        is_char_boundary(b, j + 1),
    decreases j,
{
    reveal_with_fuel(is_char_boundary, 2);
    let l = length_of_first_scalar(b);
    let rest = pop_first_scalar(b);
    assert(1 <= l <= 4);
    if j == 0 {
        assert(l == 1);
        assert(rest =~= b.subrange(1, b.len() as int));
    } else {
        assert(is_char_boundary(rest, j - l));
        vstd::utf8::is_char_boundary_start_end_of_seq(rest);
        assert(j - l >= 0) by {
            if j - l < 0 {
                assert(!is_char_boundary(rest, j - l));
            }
        }
        assert(rest[j - l] == b[j]);
        if j - l < rest.len() {
            lemma_boundary_after_ascii(rest, j - l);
        }
    }
}

fn dash_from(b: &[u8], from: usize) -> (e: usize)
    requires
        from <= b@.len(),
    ensures
        e == dash_at(b@, from as int),
        from <= e <= b@.len(),
{
    proof {
        lemma_dash_at(b@, from as int);
    }
    let n: usize = b.len();
    let mut i: usize = from;
    while i < n
        invariant
            n == b@.len(),
            from <= i <= n,
            dash_at(b@, from as int) == dash_at(b@, i as int),
        decreases n - i,
    {
        if b[i] == 0x2d {
            return i;
        }
        i = i + 1;
    }
    i
}

proof fn lemma_digits_grow(d: Seq<u8>, k: int)
    requires
        0 <= k <= d.len(),
        all_digits(d),
    ensures
        digits_value(d.subrange(0, k)) <= digits_value(d),
    decreases d.len() - k,
{
    if k < d.len() {
        let next = d.subrange(0, k + 1);
        assert(next.drop_last() =~= d.subrange(0, k));
        assert(0x30 <= d[k] <= 0x39);
        lemma_digits_grow(d, k + 1);
    } else {
        assert(d.subrange(0, k) =~= d);
    }
}

/// Reads `b[from..to]` as `parse_unsigned` does, with the bound `max`.
fn parse_number(b: &[u8], from: usize, to: usize, max: u64) -> (r: Option<u64>)
    requires
        from <= to <= b@.len(),
    ensures
        match parse_unsigned(b@.subrange(from as int, to as int), max as nat) {
            Some(v) => r == Some(v as u64),
            None => r is None,
        },
{
    let ghost d = b@.subrange(from as int, to as int);
    if to == from {
        return None;
    }
    let mut i: usize = from;
    if b[from] == 0x2b {
        if to - from == 1 {
            return None;
        }
        i = from + 1;
    }
    let ghost start = i as int;
    let ghost digits = b@.subrange(start, to as int);
    assert(digits =~= (if d.len() > 1 && d[0] == 0x2b { d.drop_first() } else { d }));
    let mut v: u64 = 0;
    while i < to
        invariant
            from <= start <= i <= to <= b@.len(),
            start < to,
            d == b@.subrange(from as int, to as int),
            digits == b@.subrange(start, to as int),
            digits == (if d.len() > 1 && d[0] == 0x2b { d.drop_first() } else { d }),
            all_digits(b@.subrange(start, i as int)),
            v as nat == digits_value(b@.subrange(start, i as int)),
            v <= max,
        decreases to - i,
    {
        let c = b[i];
        let prefix = Ghost(b@.subrange(start, i as int + 1));
        assert(prefix@.drop_last() =~= b@.subrange(start, i as int));
        if c < 0x30 || c > 0x39 {
            assert(!all_digits(digits)) by {
                assert(digits[i - start] == c);
            }
            return None;
        }
        let dig: u64 = (c - 0x30) as u64;
        if dig > max || v > (max - dig) / 10 {
            proof {
                if dig <= max {
                    assert(v * 10 + dig > max) by (nonlinear_arith)
                        requires
                            v > (max - dig) / 10,
                            dig <= max,
                    ;
                }
                if all_digits(digits) {
                    assert(digits.subrange(0, i - start + 1) =~= prefix@);
                    lemma_digits_grow(digits, i - start + 1);
                }
            }
            return None;
        }
        proof {
            assert(v * 10 + dig <= max) by (nonlinear_arith)
                requires
                    v <= (max - dig) / 10,
                    dig <= max,
            ;
        }
        v = v * 10 + dig;
        assert forall|k: int| 0 <= k < prefix@.len() implies 0x30 <= #[trigger] prefix@[k] <= 0x39 by {
            if k < prefix@.len() - 1 {
                assert(prefix@[k] == b@.subrange(start, i as int)[k]);
            }
        }
        i = i + 1;
    }
    assert(b@.subrange(start, i as int) =~= digits);
    Some(v)
}

fn last_dot_before(b: &[u8]) -> (r: Option<usize>)
    ensures
        match r {
            Some(j) => j == last_dot(b@, b@.len() as int) && j < b@.len() && b@[j as int] == 0x2e,
            None => last_dot(b@, b@.len() as int) == -1,
        },
{
    proof {
        lemma_last_dot(b@, b@.len() as int);
    }
    let mut end: usize = b.len();
    while end > 0
        invariant
            end <= b@.len(),
            last_dot(b@, b@.len() as int) == last_dot(b@, end as int),
        decreases end,
    {
        if b[end - 1] == 0x2e {
            return Some(end - 1);
        }
        end = end - 1;
    }
    None
}

/// Reads the parameters of an image back from its file name (see `filename_params`). The name's
/// first piece must hold the 32 bytes of the digest, ending on a character boundary.
pub fn parse_params_from_filename(filename: &str) -> (r: Result<(&str, u64, u32, u32, &str), ImageError>)
    requires
        filename_readable(filename.spec_bytes()),
    ensures
        r matches Ok((md5, size, width, height, extension))
            && (md5.spec_bytes(), size, width, height, extension.spec_bytes()) == filename_params(filename.spec_bytes()),
{
    let b = filename.as_bytes();
    let n: usize = b.len();
    let ghost bs = filename.spec_bytes();
    let e0 = dash_from(b, 0);
    let (md5, _) = filename.split_at(32);
    let size: u64 = match parse_number(b, 32, e0, u64::MAX) {
        Some(v) => v,
        None => 0,
    };
    let dot = last_dot_before(b);
    let mut width: u32 = 0;
    let mut height: u32 = 0;
    if e0 < n {
        let e1 = dash_from(b, e0 + 1);
        width = match parse_number(b, e0 + 1, e1, u32::MAX as u64) {
            Some(v) => v as u32,
            None => 0,
        };
        if e1 < n {
            let e2 = dash_from(b, e1 + 1);
            let h_end: usize = match dot {
                Some(j) => if e1 < j && j < e2 { j } else { e2 },
                None => e2,
            };
            height = match parse_number(b, e1 + 1, h_end, u32::MAX as u64) {
                Some(v) => v as u32,
                None => 0,
            };
        }
    }
    let extension = match dot {
        Some(j) => {
            proof {
                vstd::utf8::encode_utf8_valid_utf8(filename@);
                vstd::utf8::is_char_boundary_iff_not_is_continuation_byte(bs, j as int);
                lemma_boundary_after_ascii(bs, j as int);
            }
            let (_, tail) = filename.split_at(j + 1);
            tail
        },
        None => {
            assert(bs.subrange(0, bs.len() as int) =~= bs);
            filename
        },
    };
    Ok((md5, size, width, height, extension))
}


// ---------------------------------------------------------------------------------------------
// What a file name gives back
// ---------------------------------------------------------------------------------------------

/// The bytes of ASCII characters, one each.
pub open spec fn ascii_bytes(c: Seq<char>) -> Seq<u8> {
    Seq::new(c.len(), |i: int| c[i] as u8)
}

/// Whether every character is ASCII and none is `-` or `.`.
pub open spec fn plain_chars(c: Seq<char>) -> bool {
    forall|i: int| 0 <= i < c.len() ==> (#[trigger] c[i] as u32) < 128 && (c[i] as u32) != 0x2d && (c[i] as u32) != 0x2e
}

/// Whether no byte is `-` or `.`.
pub open spec fn plain_bytes(x: Seq<u8>) -> bool {
    forall|i: int| 0 <= i < x.len() ==> #[trigger] x[i] != 0x2d && x[i] != 0x2e
}

proof fn lemma_plain_concat(a: Seq<char>, b: Seq<char>)
    requires
        plain_chars(a),
        plain_chars(b),
    ensures
        plain_chars(a + b),
{
    assert forall|i: int| 0 <= i < (a + b).len() implies ((#[trigger] (a + b)[i]) as u32) < 128 && ((a + b)[i] as u32) != 0x2d && ((a + b)[i] as u32) != 0x2e by {
        if i < a.len() {
            assert((a + b)[i] == a[i]);
        } else {
            assert((a + b)[i] == b[i - a.len()]);
        }
    }
}

proof fn lemma_ascii_char(x: char)
    requires
        (x as u32) < 128,
    ensures
        (x as u8) as u32 == x as u32,
        '\0' <= x <= '\u{7f}',
{
}

proof fn lemma_plain_bytes(c: Seq<char>)
    requires
        plain_chars(c),
    ensures
        plain_bytes(ascii_bytes(c)),
{
    assert forall|i: int| 0 <= i < ascii_bytes(c).len() implies #[trigger] ascii_bytes(c)[i] != 0x2d && ascii_bytes(c)[i] != 0x2e by {
        let x = c[i];
        assert((x as u32) < 128 && (x as u32) != 0x2d && (x as u32) != 0x2e);
        assert(ascii_bytes(c)[i] == x as u8);
        lemma_ascii_char(x);
    }
}

proof fn lemma_hex_plain(m: Seq<u8>)
    ensures
        plain_chars(hex_of(m)),
        hex_of(m).len() == 2 * m.len(),
    decreases m.len(),
{
    if m.len() > 0 {
        lemma_hex_plain(m.drop_last());
        let x = m.last();
        let h = byte_hex(x);
        assert(x / 16 < 16 && x % 16 < 16);
        assert(plain_chars(h)) by {
            assert forall|i: int| 0 <= i < h.len() implies ((#[trigger] h[i]) as u32) < 128 && (h[i] as u32) != 0x2d && (h[i] as u32) != 0x2e by {
                let d: nat = if i == 0 { (x / 16) as nat } else { (x % 16) as nat };
                assert(h[i] == hex_char(d));
            }
        }
        lemma_plain_concat(hex_of(m.drop_last()), h);
    }
}

/// The digits of a number's decimal form are plain characters, and their bytes read back as it.
proof fn lemma_decimal_digits(n: nat)
    ensures
        plain_chars(decimal(n)),
        decimal(n).len() >= 1,
        all_digits(ascii_bytes(decimal(n))),
        digits_value(ascii_bytes(decimal(n))) == n,
    decreases n,
{
    let d = ascii_bytes(decimal(n));
    if n < 10 {
        assert(decimal(n) == seq![digit_char(n)]);
        assert(d.drop_last() =~= Seq::<u8>::empty());
        assert(d.last() == (48 + n) as u8);
        assert(digits_value(d) == digits_value(d.drop_last()) * 10 + (d.last() - 0x30) as nat);
    } else {
        lemma_decimal_digits(n / 10);
        let p = decimal(n / 10);
        let c = digit_char(n % 10);
        assert(decimal(n) == p.push(c));
        assert(d.drop_last() =~= ascii_bytes(p));
        assert(d.last() == (48 + n % 10) as u8);
        vstd::arithmetic::div_mod::lemma_fundamental_div_mod(n as int, 10);
        assert(digits_value(d) == digits_value(d.drop_last()) * 10 + (d.last() - 0x30) as nat);
        assert(plain_chars(decimal(n))) by {
            assert forall|i: int| 0 <= i < decimal(n).len() implies ((#[trigger] decimal(n)[i]) as u32) < 128 && (decimal(n)[i] as u32) != 0x2d && (decimal(n)[i] as u32) != 0x2e by {
                if i < p.len() {
                    assert(decimal(n)[i] == p[i]);
                }
            }
        }
        assert forall|i: int| 0 <= i < d.len() implies 0x30 <= #[trigger] d[i] <= 0x39 by {
            if i < d.len() - 1 {
                assert(d[i] == ascii_bytes(p)[i]);
            }
        }
    }
}

proof fn lemma_extension_plain(t: u32)
    ensures
        plain_chars(extension_of(t)),
{
    reveal_strlit("png");
    reveal_strlit("face");
    reveal_strlit("webp");
    reveal_strlit("bmp");
    reveal_strlit("gif");
    reveal_strlit("jpg");
}

proof fn lemma_encode_ascii(c: Seq<char>)
    requires
        forall|i: int| 0 <= i < c.len() ==> (#[trigger] c[i] as u32) < 128,
    ensures
        encode_utf8(c) == ascii_bytes(c),
{
    assert forall|i: int| 0 <= i < c.len() implies '\0' <= #[trigger] c[i] && c[i] <= '\u{7f}' by {
        lemma_ascii_char(c[i]);
    }
    assert(vstd::utf8::is_ascii_chars(c));
    vstd::utf8::is_ascii_chars_encode_utf8(c);
    assert(encode_utf8(c) =~= ascii_bytes(c));
}

proof fn lemma_dash_at_is(b: Seq<u8>, from: int, k: int)
    requires
        0 <= from <= k <= b.len(),
        forall|i: int| from <= i < k ==> #[trigger] b[i] != 0x2d,
        k < b.len() ==> b[k] == 0x2d,
    ensures
        dash_at(b, from) == k,
    decreases k - from,
{
    if from < k {
        lemma_dash_at_is(b, from + 1, k);
    }
}

proof fn lemma_last_dot_is(b: Seq<u8>, end: int, k: int)
    requires
        0 <= k < end <= b.len(),
        b[k] == 0x2e,
        forall|i: int| k < i < end ==> #[trigger] b[i] != 0x2e,
    ensures
        last_dot(b, end) == k,
    decreases end - k,
{
    if end - 1 > k {
        lemma_last_dot_is(b, end - 1, k);
    }
}

/// The bytes of a file name laid out as digest, size, `-`, width, `-`, height, `.`, extension.
pub open spec fn name_layout(hb: Seq<u8>, b1: Seq<u8>, b2: Seq<u8>, b3: Seq<u8>, eb: Seq<u8>) -> Seq<u8> {
    hb + b1 + seq![0x2du8] + b2 + seq![0x2du8] + b3 + seq![0x2eu8] + eb
}

#[verifier::spinoff_prover]
proof fn lemma_layout_params(hb: Seq<u8>, b1: Seq<u8>, b2: Seq<u8>, b3: Seq<u8>, eb: Seq<u8>)
    requires
        hb.len() == 32,
        plain_bytes(hb),
        plain_bytes(eb),
        b1.len() >= 1 && all_digits(b1) && digits_value(b1) <= u64::MAX,
        b2.len() >= 1 && all_digits(b2) && digits_value(b2) <= u32::MAX,
        b3.len() >= 1 && all_digits(b3) && digits_value(b3) <= u32::MAX,
    ensures
        dash_at(name_layout(hb, b1, b2, b3, eb), 0) == 32 + b1.len(),
        filename_params(name_layout(hb, b1, b2, b3, eb)) == (hb, digits_value(b1) as u64, digits_value(b2) as u32, digits_value(b3) as u32, eb),
{
    let b = name_layout(hb, b1, b2, b3, eb);
    let e0: int = 32 + b1.len() as int;
    let e1: int = e0 + 1 + b2.len();
    let dot: int = e1 + 1 + b3.len();
    assert(b.len() == dot + 1 + eb.len());
    assert forall|i: int| 0 <= i < e0 implies #[trigger] b[i] != 0x2d by {
        if i < 32 {
            assert(b[i] == hb[i]);
        } else {
            assert(b[i] == b1[i - 32]);
        }
    }
    assert(b[e0] == 0x2d);
    lemma_dash_at_is(b, 0, e0);
    assert forall|i: int| e0 + 1 <= i < e1 implies #[trigger] b[i] != 0x2d by {
        assert(b[i] == b2[i - e0 - 1]);
    }
    assert(b[e1] == 0x2d);
    lemma_dash_at_is(b, e0 + 1, e1);
    assert forall|i: int| e1 + 1 <= i < b.len() implies #[trigger] b[i] != 0x2d && b[i] != 0x2e || i == dot by {
        if i < dot {
            assert(b[i] == b3[i - e1 - 1]);
        } else if i > dot {
            assert(b[i] == eb[i - dot - 1]);
        }
    }
    assert(b[dot] == 0x2e);
    lemma_dash_at_is(b, e1 + 1, b.len() as int);
    lemma_last_dot_is(b, b.len() as int, dot);
    assert(b.subrange(0, 32) =~= hb);
    assert(b.subrange(32, e0) =~= b1);
    assert(b.subrange(e0 + 1, e1) =~= b2);
    assert(b.subrange(e1 + 1, dot) =~= b3);
    assert(b1[0] != 0x2b && b2[0] != 0x2b && b3[0] != 0x2b);
    assert(parse_unsigned(b3, u32::MAX as nat) == Some(digits_value(b3)));
    assert(parse_unsigned(b1, u64::MAX as nat) == Some(digits_value(b1)));
    assert(parse_unsigned(b2, u32::MAX as nat) == Some(digits_value(b2)));
    assert(b.subrange(dot + 1, b.len() as int) =~= eb);
}

/// A file name made from an image's parameters reads back as them.
pub proof fn lemma_params_of_filename(md5: Seq<u8>, size: Option<u64>, width: Option<u32>, height: Option<u32>, typee: Option<u32>)
    requires
        md5.len() == 16,
    ensures
        filename_readable(encode_utf8(image_filename(md5, size, width, height, typee))),
        filename_params(encode_utf8(image_filename(md5, size, width, height, typee))) == (
            encode_utf8(hex_of(md5)),
            match size { Some(n) => n, None => 0u64 },
            match width { Some(n) => n, None => 0u32 },
            match height { Some(n) => n, None => 0u32 },
            encode_utf8(extension_of(match typee { Some(n) => n, None => 0u32 })),
        ),
{
    reveal_strlit("-");
    reveal_strlit(".");
    let s0: u64 = match size { Some(n) => n, None => 0u64 };
    let w0: u32 = match width { Some(n) => n, None => 0u32 };
    let h0: u32 = match height { Some(n) => n, None => 0u32 };
    let t0: u32 = match typee { Some(n) => n, None => 0u32 };
    let hc = hex_of(md5);
    let c1 = decimal(s0 as nat);
    let c2 = decimal(w0 as nat);
    let c3 = decimal(h0 as nat);
    let ec = extension_of(t0);
    lemma_hex_plain(md5);
    lemma_decimal_digits(s0 as nat);
    lemma_decimal_digits(w0 as nat);
    lemma_decimal_digits(h0 as nat);
    lemma_extension_plain(t0);
    let dash = seq!['-'];
    let dot = seq!['.'];
    let name = image_filename(md5, size, width, height, typee);
    assert(name == hc + c1 + dash + c2 + dash + c3 + dot + ec);
    let hb = ascii_bytes(hc);
    let b1 = ascii_bytes(c1);
    let b2 = ascii_bytes(c2);
    let b3 = ascii_bytes(c3);
    let eb = ascii_bytes(ec);
    assert(forall|i: int| 0 <= i < name.len() ==> (#[trigger] name[i] as u32) < 128
        && ascii_bytes(name)[i] == name_layout(hb, b1, b2, b3, eb)[i]) by {
        assert forall|i: int| 0 <= i < name.len() implies (#[trigger] name[i] as u32) < 128
            && ascii_bytes(name)[i] == name_layout(hb, b1, b2, b3, eb)[i] by {
            let a1 = hc.len() as int;
            let a2 = a1 + c1.len();
            let a3 = a2 + 1;
            let a4 = a3 + c2.len();
            let a5 = a4 + 1;
            let a6 = a5 + c3.len();
            let a7 = a6 + 1;
            if i < a1 {
                assert(name[i] == hc[i]);
            } else if i < a2 {
                assert(name[i] == c1[i - a1]);
            } else if i < a3 {
                assert(name[i] == '-');
            } else if i < a4 {
                assert(name[i] == c2[i - a3]);
            } else if i < a5 {
                assert(name[i] == '-');
            } else if i < a6 {
                assert(name[i] == c3[i - a5]);
            } else if i < a7 {
                assert(name[i] == '.');
            } else {
                assert(name[i] == ec[i - a7]);
            }
        }
    }
    assert(ascii_bytes(name) =~= name_layout(hb, b1, b2, b3, eb));
    lemma_encode_ascii(name);
    lemma_encode_ascii(hc);
    lemma_encode_ascii(ec);
    lemma_plain_bytes(hc);
    lemma_plain_bytes(ec);
    lemma_layout_params(hb, b1, b2, b3, eb);
    let b = name_layout(hb, b1, b2, b3, eb);
    assert(b[32] == b1[0]);
    vstd::utf8::encode_utf8_valid_utf8(name);
    vstd::utf8::is_char_boundary_iff_not_is_continuation_byte(b, 32);
}

} // verus!
