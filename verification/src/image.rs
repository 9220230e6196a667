//! The last image: its dimensions, its size, and its preview.
use vstd::endian::Endian;
use vstd::prelude::*;

use crate::outside::u32_of;
use crate::text::{decimal, digit, from_chars, push_chars, push_decimal, to_chars, trim, trimmed};

verus! {

/// The id under which clients ask for the last image.
pub const LAST_IMAGE_ID: &'static str = "last_image";

/// The eight bytes that every PNG file begins with.
pub open spec fn png_signature() -> Seq<u8> {
    seq![0x89, 0x50, 0x4E, 0x47, 0x0D, 0x0A, 0x1A, 0x0A]
}

/// The name of the first chunk of a PNG file, `IHDR`.
pub open spec fn png_header_name() -> Seq<u8> {
    seq![0x49, 0x48, 0x44, 0x52]
}

/// Width and height of a PNG image, as its first chunk has them; nothing for other data.
pub open spec fn png_size(data: Seq<u8>) -> Option<(u32, u32)> {
    if data.len() >= 24 && data.take(8) == png_signature() && data.subrange(12, 16)
        == png_header_name() {
        Some(
            (
                u32_of(data.subrange(16, 20), Endian::Big),
                u32_of(data.subrange(20, 24), Endian::Big),
            ),
        )
    } else {
        None
    }
}

/// The number that four bytes at `at` stand for, the most significant first.
fn be_u32(data: &[u8], at: usize) -> (r: u32)
    requires
        at + 4 <= data.len(),
    ensures
        r == u32_of(data@.subrange(at as int, at + 4), Endian::Big),
{
    let b0: u32 = data[at] as u32;
    let b1: u32 = data[at + 1] as u32;
    let b2: u32 = data[at + 2] as u32;
    let b3: u32 = data[at + 3] as u32;
    0x100_0000 * b0 + 0x1_0000 * b1 + 0x100 * b2 + b3
}

/// Width and height of a PNG image, as its first chunk has them; nothing for other data.
pub fn png_dimensions(data: &[u8]) -> (r: Option<(u32, u32)>)
    ensures
        r == png_size(data@),
{
    if data.len() < 24 {
        return None;
    }
    let signed = data[0] == 0x89 && data[1] == 0x50 && data[2] == 0x4E && data[3] == 0x47 && data[4]
        == 0x0D && data[5] == 0x0A && data[6] == 0x1A && data[7] == 0x0A;
    proof {
        let head = data@.take(8);
        if signed {
            assert(head =~= png_signature());
        } else {
            let s = png_signature();
            assert(head[0] == data@[0] && head[1] == data@[1] && head[2] == data@[2] && head[3]
                == data@[3] && head[4] == data@[4] && head[5] == data@[5] && head[6] == data@[6]
                && head[7] == data@[7]);
            assert(s[0] == 0x89 && s[1] == 0x50 && s[2] == 0x4E && s[3] == 0x47 && s[4] == 0x0D
                && s[5] == 0x0A && s[6] == 0x1A && s[7] == 0x0A);
            assert(head != s);
        }
    }
    if !signed {
        return None;
    }
    let named = data[12] == 0x49 && data[13] == 0x48 && data[14] == 0x44 && data[15] == 0x52;
    proof {
        let name = data@.subrange(12, 16);
        if named {
            assert(name =~= png_header_name());
        } else {
            let s = png_header_name();
            assert(name[0] == data@[12] && name[1] == data@[13] && name[2] == data@[14] && name[3]
                == data@[15]);
            assert(s[0] == 0x49 && s[1] == 0x48 && s[2] == 0x44 && s[3] == 0x52);
            assert(name != s);
        }
    }
    if !named {
        return None;
    }
    Some((be_u32(data, 16), be_u32(data, 20)))
}

/// `a / b`, rounded to the nearest integer, and to the even one of two that are equally near.
pub open spec fn rounded_quotient(a: nat, b: nat) -> nat {
    let q = a / b;
    let r = a % b;
    if 2 * r < b || (2 * r == b && q % 2 == 0) {
        q
    } else {
        q + 1
    }
}

/// The smallest power of two by which a number must be divided to leave at most 53 bits, which is
/// what a double-precision number has for its digits.
pub open spec fn double_step(n: nat) -> nat
    decreases n,
{
    if n < 0x20_0000_0000_0000 {
        1
    } else {
        2 * double_step(n / 2)
    }
}

/// The double-precision number nearest to an integer: the integer itself up to 53 bits.
pub open spec fn as_double(n: nat) -> nat {
    rounded_quotient(n, double_step(n)) * double_step(n)
}

/// How often a size is divided by 1024 to give it in the largest unit that it fills: bytes,
/// kilobytes, megabytes or gigabytes.
pub open spec fn size_unit(bytes: nat) -> nat {
    if bytes < 1024 {
        0
    } else if bytes < 1024 * 1024 {
        1
    } else if bytes < 1024 * 1024 * 1024 {
        2
    } else {
        3
    }
}

/// The name of a unit.
pub open spec fn unit_name(unit: nat) -> Seq<char> {
    if unit == 0 {
        "B"@
    } else if unit == 1 {
        "KB"@
    } else if unit == 2 {
        "MB"@
    } else {
        "GB"@
    }
}

/// 1024 to the given power.
pub open spec fn unit_size(unit: nat) -> nat {
    if unit == 0 {
        1
    } else if unit == 1 {
        1024
    } else if unit == 2 {
        1024 * 1024
    } else {
        1024 * 1024 * 1024
    }
}

/// A size for people to read: plain bytes below 1024, else the double-precision quotient by the
/// unit, rounded to one digit behind the point.
pub open spec fn size_text(bytes: nat) -> Seq<char> {
    let unit = size_unit(bytes);
    if unit == 0 {
        decimal(bytes) + "B"@
    } else {
        let tenths = rounded_quotient(10 * as_double(bytes), unit_size(unit));
        decimal(tenths / 10) + seq!['.', digit((tenths % 10) as int)] + unit_name(unit)
    }
}

/// `a / b`, rounded to the nearest integer, and to the even one of two that are equally near.
fn round_quotient(a: u128, b: u128) -> (r: u128)
    requires
        0 < b <= 0x1_0000_0000_0000_0000,
    ensures
        r == rounded_quotient(a as nat, b as nat),
        r <= a / b + 1,
{
    let q: u128 = a / b;
    let r: u128 = a % b;
    if 2 * r < b || (2 * r == b && q % 2 == 0) {
        q
    } else {
        proof {
            assert(q < u128::MAX) by {
                if b == 1 {
                    assert(r == 0);
                } else {
                    assert(q <= a / 2) by (nonlinear_arith)
                        requires
                            q == a / b,
                            b >= 2,
                    ;
                }
            }
        }
        q + 1
    }
}

/// The smallest power of two by which a number must be divided to leave at most 53 bits.
fn step_of_double(n: u64) -> (r: u64)
    ensures
        r == double_step(n as nat),
        1 <= r <= 0x1000,
        n >= 0x20_0000_0000_0000 ==> r * 0x10_0000_0000_0000 <= n,
    decreases n,
{
    if n < 0x20_0000_0000_0000 {
        1
    } else {
        2 * step_of_double(n / 2)
    }
}

/// The double-precision number nearest to an integer.
fn to_double(n: u64) -> (r: u128)
    ensures
        r == as_double(n as nat),
        r <= n + 0x1000,
{
    let step: u128 = step_of_double(n) as u128;
    let q = round_quotient(n as u128, step);
    proof {
        let (qi, ni, si) = (q as int, n as int, step as int);
        assert(qi * si <= ni + si) by (nonlinear_arith)
            requires
                qi <= ni / si + 1,
                si > 0,
        ;
        assert(qi * si >= 0) by (nonlinear_arith)
            requires
                qi >= 0,
                si > 0,
        ;
    }
    q * step
}

/// A size for people to read.
pub fn human_size(bytes: usize) -> (r: String)
    ensures
        r@ == size_text(bytes as nat),
{
    let bytes: u64 = bytes as u64;
    let mut out = String::new();
    if bytes < 1024 {
        push_decimal(&mut out, bytes);
        push_chars(&mut out, to_chars("B").as_slice());
        assert(out@ =~= size_text(bytes as nat));
        return out;
    }
    let (size, name): (u128, &str) = if bytes < 1024 * 1024 {
        (1024, "KB")
    } else if bytes < 1024 * 1024 * 1024 {
        (1024 * 1024, "MB")
    } else {
        (1024 * 1024 * 1024, "GB")
    };
    let ten_fold: u128 = 10 * to_double(bytes);
    let tenths = round_quotient(ten_fold, size);
    proof {
        let (a, b) = (ten_fold as int, size as int);
        assert(a / b <= a / 1024) by (nonlinear_arith)
            requires
                a >= 0,
                b >= 1024,
        ;
    }
    let whole: u64 = (tenths / 10) as u64;
    push_decimal(&mut out, whole);
    out.push('.');
    push_decimal(&mut out, (tenths % 10) as u64);
    push_chars(&mut out, to_chars(name).as_slice());
    assert(out@ =~= size_text(bytes as nat));
    out
}

/// The dimensions of an image for people to read.
pub open spec fn size_label(size: Option<(u32, u32)>) -> Seq<char> {
    match size {
        Some((w, h)) => decimal(w as nat) + "x"@ + decimal(h as nat),
        None => "?x?"@,
    }
}

/// The preview of an image: its mime type, its dimensions where they are known, and its size.
pub open spec fn image_preview(mime: Seq<char>, data: Seq<u8>) -> Seq<char> {
    "[image]  "@ + mime + "  "@ + size_label(png_size(data)) + "  "@ + size_text(data.len())
}

/// The preview of an image.
pub fn make_image_preview(mime: &str, data: &[u8]) -> (r: String)
    ensures
        r@ == image_preview(mime@, data@),
{
    let mut out = String::new();
    push_chars(&mut out, to_chars("[image]  ").as_slice());
    push_chars(&mut out, to_chars(mime).as_slice());
    push_chars(&mut out, to_chars("  ").as_slice());
    let ghost before = out@;
    match png_dimensions(data) {
        Some((w, h)) => {
            push_decimal(&mut out, w as u64);
            push_chars(&mut out, to_chars("x").as_slice());
            push_decimal(&mut out, h as u64);
        },
        None => {
            push_chars(&mut out, to_chars("?x?").as_slice());
        },
    }
    assert(out@ =~= before + size_label(png_size(data@)));
    push_chars(&mut out, to_chars("  ").as_slice());
    push_chars(&mut out, to_chars(human_size(data.len()).as_str()).as_slice());
    assert(out@ =~= image_preview(mime@, data@));
    out
}

/// The last image, as mime type and bytes, given what its two files hold. Without either of them
/// there is none.
pub open spec fn last_image(meta: Option<Seq<char>>, data: Option<Seq<u8>>) -> Option<
    (Seq<char>, Seq<u8>),
> {
    match (meta, data) {
        (Some(m), Some(d)) => Some((trimmed(m), d)),
        _ => None,
    }
}

/// The content of an image, if there is one.
pub open spec fn image_view(image: Option<(String, Vec<u8>)>) -> Option<(Seq<char>, Seq<u8>)> {
    match image {
        Some(p) => Some((p.0@, p.1@)),
        None => None,
    }
}

/// The bytes of what was read, if it could be read.
pub open spec fn bytes_view(data: Option<Vec<u8>>) -> Option<Seq<u8>> {
    match data {
        Some(d) => Some(d@),
        None => None,
    }
}

/// The last image, given the text of its meta file and the bytes of its data file, each as far as
/// it could be read.
pub fn read_last_image(meta: Option<&str>, data: Option<Vec<u8>>) -> (r: Option<(String, Vec<u8>)>)
    ensures
        image_view(r) == last_image(crate::index::text_view(meta), bytes_view(data)),
{
    let meta = match meta {
        Some(meta) => meta,
        None => return None,
    };
    let data = match data {
        Some(data) => data,
        None => return None,
    };
    Some((from_chars(trim(to_chars(meta).as_slice())), data))
}

/// The preview of the last image, given what its two files hold.
pub fn last_image_preview(meta: Option<&str>, data: Option<Vec<u8>>) -> (r: Option<String>)
    ensures
        match last_image(crate::index::text_view(meta), bytes_view(data)) {
            Some((m, d)) => r matches Some(p) && p@ == image_preview(m, d),
            None => r is None,
        },
{
    match read_last_image(meta, data) {
        Some((mime, data)) => Some(make_image_preview(mime.as_str(), data.as_slice())),
        None => None,
    }
}

// ---------------------------------------------------------------------------------------------
// Laws
// ---------------------------------------------------------------------------------------------

/// The dimensions of a PNG image are the two numbers behind the name of its first chunk, four bytes
/// each, the most significant first, whatever follows and however long it is.
pub proof fn law_png_dimensions_are_read(
    length: Seq<u8>,
    width: Seq<u8>,
    height: Seq<u8>,
    rest: Seq<u8>,
)
    requires
        length.len() == 4,
        width.len() == 4,
        height.len() == 4,
    ensures
        png_size(
            seq![0x89u8, 0x50, 0x4E, 0x47, 0x0D, 0x0A, 0x1A, 0x0A] + length
                + seq![0x49u8, 0x48, 0x44, 0x52] + width + height + rest,
        ) matches Some((w, h)) && w == 0x100_0000 * width[0] + 0x1_0000 * width[1] + 0x100
            * width[2] + width[3] && h == 0x100_0000 * height[0] + 0x1_0000 * height[1] + 0x100
            * height[2] + height[3],
{
    let data = seq![0x89u8, 0x50, 0x4E, 0x47, 0x0D, 0x0A, 0x1A, 0x0A] + length
        + seq![0x49u8, 0x48, 0x44, 0x52] + width + height + rest;
    assert(data.take(8) =~= png_signature());
    assert(data.subrange(12, 16) =~= png_header_name());
    assert(data.subrange(16, 20) =~= width);
    assert(data.subrange(20, 24) =~= height);
}

/// Only a PNG image has dimensions: data that is too short, or does not begin as such an image
/// does, has none.
pub proof fn law_other_data_has_no_dimensions(data: Seq<u8>)
    ensures
        png_size(data) is Some ==> data.len() >= 24 && data[0] == 0x89 && data[1] == 0x50 && data[2]
            == 0x4E && data[3] == 0x47 && data[4] == 0x0D && data[5] == 0x0A && data[6] == 0x1A
            && data[7] == 0x0A && data[12] == 0x49 && data[13] == 0x48 && data[14] == 0x44
            && data[15] == 0x52,
{
    if png_size(data) is Some {
        let head = data.take(8);
        let name = data.subrange(12, 16);
        assert(head[0] == data[0] && head[1] == data[1] && head[2] == data[2] && head[3] == data[3]
            && head[4] == data[4] && head[5] == data[5] && head[6] == data[6] && head[7]
            == data[7]);
        assert(name[0] == data[12] && name[1] == data[13] && name[2] == data[14] && name[3]
            == data[15]);
    }
}

/// A rounded quotient is as near as any integer is, and even where two are equally near.
proof fn lemma_rounded_quotient(a: nat, b: nat)
    requires
        b > 0,
    ensures
        ({
            let q = rounded_quotient(a, b) as int;
            &&& -b <= 2 * (a - q * b) <= b
            &&& 2 * (a - q * b) == b || 2 * (a - q * b) == -b ==> q % 2 == 0
        }),
{
    let (x, y) = (a as int, b as int);
    let q = x / y;
    let r = x % y;
    vstd::arithmetic::div_mod::lemma_fundamental_div_mod(x, y);
    vstd::arithmetic::div_mod::lemma_mod_bound(x, y);
    assert(y * q == q * y) by (nonlinear_arith);
    assert((q + 1) * y == q * y + y) by (nonlinear_arith);
}

/// The step of double-precision numbers is small beside the number.
proof fn lemma_double_step(n: nat)
    ensures
        double_step(n) > 0,
        n < 0x20_0000_0000_0000 ==> double_step(n) == 1,
        n >= 0x20_0000_0000_0000 ==> double_step(n) * 0x10_0000_0000_0000 <= n,
    decreases n,
{
    if n >= 0x20_0000_0000_0000 {
        lemma_double_step(n / 2);
    }
}

/// A size is given in bytes below 1024, and else in the largest of three units that it fills, with
/// one digit behind the point. The number that is shown is the nearest of its kind, the even one
/// where two are equally near; only for sizes beyond 53 bits is it the nearest to a number that is
/// off by one part in as much. Returned are the tenths that are shown, and that number.
pub proof fn law_size_is_rounded_to_a_tenth(bytes: nat) -> (r: (nat, nat))
    ensures
        bytes < 1024 ==> size_text(bytes) == decimal(bytes) + "B"@,
        bytes >= 1024 ==> ({
            let (tenths, near) = r;
            let (unit, name) = if bytes < 0x10_0000 {
                (0x400int, "KB"@)
            } else if bytes < 0x4000_0000 {
                (0x10_0000, "MB"@)
            } else {
                (0x4000_0000, "GB"@)
            };
            &&& size_text(bytes) == decimal(tenths / 10) + "."@ + decimal(tenths % 10) + name
            &&& -unit <= 2 * (10 * near - tenths * unit) <= unit
            &&& 2 * (10 * near - tenths * unit) == unit || 2 * (10 * near - tenths * unit) == -unit
                ==> tenths % 2 == 0
            &&& bytes < 0x20_0000_0000_0000 ==> near == bytes
            &&& -bytes <= 0x20_0000_0000_0000 * (near - bytes) <= bytes
        }),
{
    let near = as_double(bytes);
    let step = double_step(bytes);
    let unit = unit_size(size_unit(bytes));
    let tenths = rounded_quotient(10 * near, unit);
    lemma_double_step(bytes);
    lemma_rounded_quotient(bytes, step);
    lemma_rounded_quotient(10 * near, unit);
    if bytes < 0x20_0000_0000_0000 {
        assert(rounded_quotient(bytes, 1) == bytes);
        assert(near == bytes);
    }
    reveal_strlit(".");
    if bytes >= 1024 {
        assert(decimal(tenths % 10) =~= seq![digit((tenths % 10) as int)]);
        assert(seq!['.', digit((tenths % 10) as int)] =~= "."@ + decimal(tenths % 10));
        assert(size_text(bytes) =~= decimal(tenths / 10) + "."@ + decimal(tenths % 10) + unit_name(
            size_unit(bytes),
        ));
    }
    (tenths, near)
}

/// The preview of an image shows its mime type whole, its dimensions where they are known, and its
/// size, in that order.
pub proof fn law_image_preview_shows_all(mime: Seq<char>, data: Seq<u8>)
    ensures
        ({
            let preview = image_preview(mime, data);
            let dims = match png_size(data) {
                Some((w, h)) => decimal(w as nat) + "x"@ + decimal(h as nat),
                None => "?x?"@,
            };
            let tail = "  "@ + dims + "  "@ + size_text(data.len());
            &&& preview.take(9) == "[image]  "@
            &&& preview.subrange(9, 9int + mime.len()) == mime
            &&& preview.skip(9int + mime.len()) == tail
        }),
{
    let preview = image_preview(mime, data);
    reveal_strlit("[image]  ");
    assert(preview.take(9) =~= "[image]  "@);
    assert(preview.subrange(9, 9int + mime.len()) =~= mime);
    assert(preview.skip(9int + mime.len()) =~= "  "@ + size_label(png_size(data)) + "  "@ + size_text(
        data.len(),
    ));
}

/// There is an image where both its files can be read, of any size, and only there: its bytes are
/// those of the one, all of them, and its mime type is the text of the other, trimmed.
pub proof fn law_image_takes_both_files(meta: Seq<char>, data: Seq<u8>)
    ensures
        last_image(Some(meta), Some(data)) == Some((trimmed(meta), data)),
        last_image(None, Some(data)) is None,
        last_image(Some(meta), None) is None,
        last_image(None, None) is None,
        LAST_IMAGE_ID@ == "last_image"@,
{
}

/// What was read of an image is its mime type and its bytes, whole.
pub proof fn law_content_of_an_image_is_whole(
    image: Option<(String, Vec<u8>)>,
    data: Option<Vec<u8>>,
)
    ensures
        image is None <==> image_view(image) is None,
        image matches Some(p) ==> image_view(image) == Some((p.0@, p.1@)),
        data is None <==> bytes_view(data) is None,
        data matches Some(d) ==> bytes_view(data) == Some(d@),
{
}

}
