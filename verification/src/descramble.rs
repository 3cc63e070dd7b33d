//! The tile descrambler: the content provider splits a page image into
//! `n` horizontal bands of near-equal height (the remainder rows go to
//! the last band) and serves the bands in reverse order. Undoing that is
//! a pure re-ordering of pixel rows; decoding and re-encoding the image
//! are the only outside steps. Lossy input is re-encoded lossy, anything
//! else is forced to a lossless format.
use vstd::prelude::*;

use core::sync::atomic::AtomicBool;
use core::sync::atomic::Ordering;
use std::io::Cursor;

use crate::CoreError;
use vstd::arithmetic::div_mod::{
    lemma_fundamental_div_mod, lemma_fundamental_div_mod_converse,
};
use vstd::arithmetic::mul::lemma_mul_inequality;

verus! {

/// The image formats the descrambler distinguishes.
#[derive(Clone, Copy, Debug, PartialEq, Eq, Structural)]
pub enum ImgFormat {
    Jpeg,
    Png,
    WebP,
    Other,
}

/// Magic-number sniffing of the formats this library cares about.
pub open spec fn sniff_spec(b: Seq<u8>) -> ImgFormat {
    if b.len() >= 3 && b[0] == 0xff && b[1] == 0xd8 && b[2] == 0xff {
        ImgFormat::Jpeg
    } else if b.len() >= 8 && b[0] == 0x89 && b[1] == 0x50 && b[2] == 0x4e && b[3] == 0x47 && b[4]
        == 0x0d && b[5] == 0x0a && b[6] == 0x1a && b[7] == 0x0a {
        ImgFormat::Png
    } else if b.len() >= 12 && b[0] == 0x52 && b[1] == 0x49 && b[2] == 0x46 && b[3] == 0x46 && b[8]
        == 0x57 && b[9] == 0x45 && b[10] == 0x42 && b[11] == 0x50 {
        ImgFormat::WebP
    } else {
        ImgFormat::Other
    }
}

/// Detects JPEG, PNG or WebP from the leading magic bytes.
pub fn sniff_format(bytes: &[u8]) -> (r: ImgFormat)
    ensures
        r == sniff_spec(bytes@),
{
    let n = bytes.len();
    if n >= 3 && bytes[0] == 0xff && bytes[1] == 0xd8 && bytes[2] == 0xff {
        ImgFormat::Jpeg
    } else if n >= 8 && bytes[0] == 0x89 && bytes[1] == 0x50 && bytes[2] == 0x4e && bytes[3]
        == 0x47 && bytes[4] == 0x0d && bytes[5] == 0x0a && bytes[6] == 0x1a && bytes[7] == 0x0a {
        ImgFormat::Png
    } else if n >= 12 && bytes[0] == 0x52 && bytes[1] == 0x49 && bytes[2] == 0x46 && bytes[3]
        == 0x46 && bytes[8] == 0x57 && bytes[9] == 0x45 && bytes[10] == 0x42 && bytes[11] == 0x50 {
        ImgFormat::WebP
    } else {
        ImgFormat::Other
    }
}

/// The sniffed format with unknown input read as JPEG, as the decoder
/// fallback does.
pub open spec fn effective_format(b: Seq<u8>) -> ImgFormat {
    if sniff_spec(b) == ImgFormat::Other {
        ImgFormat::Jpeg
    } else {
        sniff_spec(b)
    }
}

/// The MIME type for a detected format.
pub fn mime_from_format(fmt: ImgFormat) -> (r: &'static str)
    ensures
        fmt == ImgFormat::Jpeg ==> r@ == "image/jpeg"@,
        fmt == ImgFormat::Png ==> r@ == "image/png"@,
        fmt == ImgFormat::WebP ==> r@ == "image/webp"@,
        fmt == ImgFormat::Other ==> r@ == "application/octet-stream"@,
{
    match fmt {
        ImgFormat::Jpeg => "image/jpeg",
        ImgFormat::Png => "image/png",
        ImgFormat::WebP => "image/webp",
        ImgFormat::Other => "application/octet-stream",
    }
}

/// What decoding an image to RGBA yields: `None` exactly where the
/// decoder rejects the bytes, else the pixel buffer and dimensions —
/// a function of the bytes alone.
pub uninterp spec fn img_decode_of(b: Seq<u8>) -> Option<(Seq<u8>, int, int)>;

/// What encoding an RGBA buffer of the given dimensions yields, as JPEG
/// (after the RGB conversion) or as PNG: a function of the arguments
/// alone, `None` exactly where the encoder rejects the buffer or the
/// dimensions.
pub uninterp spec fn img_encode_of(pixels: Seq<u8>, w: int, h: int, as_jpeg: bool) -> Option<
    Seq<u8>,
>;

/// Relies on `image::load_from_memory` and `DynamicImage::to_rgba8`:
/// whether the bytes decode, and to which pixels and dimensions, depends
/// on the bytes alone, and the RGBA buffer holds exactly `4 * w * h`
/// bytes.
#[verifier::external_body]
pub(crate) fn decode_rgba(bytes: &[u8]) -> (r: Result<(Vec<u8>, u32, u32), String>)
    ensures
        r is Ok <==> img_decode_of(bytes@) is Some,
        r is Ok ==> ({
            let d = img_decode_of(bytes@)->Some_0;
            r->Ok_0.0@ == d.0 && r->Ok_0.1 as int == d.1 && r->Ok_0.2 as int == d.2
                && r->Ok_0.0@.len() == 4 * d.1 * d.2
        }),
{
    let img = image::load_from_memory(bytes).map_err(|e| format!("decode image failed: {e}"))?;
    let rgba = img.to_rgba8();
    let (w, h) = rgba.dimensions();
    Ok((rgba.into_raw(), w, h))
}

/// Relies on `image::RgbaImage::from_raw`, `DynamicImage::to_rgb8` and
/// `DynamicImage::write_to`: whether re-encoding a pixel buffer
/// succeeds, and to which bytes, is a function of the buffer, the
/// dimensions and the chosen format alone.
#[verifier::external_body]
pub(crate) fn encode_rgba(pixels: &Vec<u8>, w: u32, h: u32, as_jpeg: bool) -> (r: Result<
    Vec<u8>,
    String,
>)
    requires
        pixels@.len() == 4 * (w as int) * (h as int),
    ensures
        r is Ok <==> img_encode_of(pixels@, w as int, h as int, as_jpeg) is Some,
        r is Ok ==> r->Ok_0@ == img_encode_of(pixels@, w as int, h as int, as_jpeg)->Some_0,
{
    let img = image::RgbaImage::from_raw(w, h, pixels.clone())
        .ok_or_else(|| "image buffer create failed".to_string())?;
    let mut out: Vec<u8> = Vec::new();
    if as_jpeg {
        let rgb = image::DynamicImage::ImageRgba8(img).to_rgb8();
        image::DynamicImage::ImageRgb8(rgb)
            .write_to(&mut Cursor::new(&mut out), image::ImageFormat::Jpeg)
            .map_err(|e| format!("encode image failed: {e}"))?;
    } else {
        image::DynamicImage::ImageRgba8(img)
            .write_to(&mut Cursor::new(&mut out), image::ImageFormat::Png)
            .map_err(|e| format!("encode image failed: {e}"))?;
    }
    Ok(out)
}

/// The source row a descrambled output row `r` is copied from, for an
/// image of `h` rows cut into `n` bands of `h / n` rows each, remainder
/// to the last: the last band comes out on top, and so on down.
pub open spec fn desc_src_row(h: int, n: int, r: int) -> int {
    let ch = h / n;
    let rem = h % n;
    if r < ch + rem {
        (n - 1) * ch + r
    } else {
        let q = r - rem;
        let i = n - 1 - q / ch;
        i * ch + q % ch
    }
}

/// The source row a *scrambled* output row `q` is copied from: the
/// inverse re-ordering, which is what the provider applies.
pub open spec fn scr_src_row(h: int, n: int, q: int) -> int {
    let ch = h / n;
    let i = if ch == 0 || q / ch >= n - 1 {
        n - 1
    } else {
        q / ch
    };
    let band_end = if i == n - 1 {
        h
    } else {
        (i + 1) * ch
    };
    h - band_end + (q - i * ch)
}

/// The facts every band computation leans on: how `h` splits into `n`
/// bands of `h / n` rows with `h % n` left over.
proof fn lemma_band_basics(h: int, n: int)
    requires
        1 <= n,
        0 <= h,
    ensures
        h == n * (h / n) + h % n,
        0 <= h % n < n,
        0 <= h / n,
        n * (h / n) <= h,
        (h / n) + (h % n) <= h,
        (n - 1) * (h / n) <= n * (h / n),
{
    lemma_fundamental_div_mod(h, n);
    let ch = h / n;
    let rem = h % n;
    assert(0 <= rem < n) by (nonlinear_arith)
        requires
            1 <= n,
            0 <= h,
            rem == h % n,
    ;
    assert(0 <= ch) by (nonlinear_arith)
        requires
            1 <= n,
            0 <= h,
            ch == h / n,
    ;
    assert((n - 1) * ch <= n * ch && 1 * ch == ch && n * ch >= ch) by (nonlinear_arith)
        requires
            1 <= n,
            0 <= ch,
    ;
}

/// Row mappings stay in range.
pub proof fn lemma_desc_src_row_in_range(h: int, n: int, r: int)
    requires
        2 <= n,
        0 <= r < h,
    ensures
        0 <= desc_src_row(h, n, r) < h,
{
    let ch = h / n;
    let rem = h % n;
    lemma_band_basics(h, n);
    if r < ch + rem {
        assert((n - 1) * ch + r < n * ch + rem) by (nonlinear_arith)
            requires
                r < ch + rem,
        ;
        assert(0 <= (n - 1) * ch) by (nonlinear_arith)
            requires
                1 <= n,
                0 <= ch,
        ;
    } else {
        let q = r - rem;
        assert(ch > 0) by {
            if ch == 0 {
                assert(n * ch == 0) by (nonlinear_arith)
                    requires
                        ch == 0,
                ;
            }
        }
        lemma_fundamental_div_mod(q, ch);
        let d = q / ch;
        let b = q % ch;
        assert(0 <= b < ch) by (nonlinear_arith)
            requires
                0 < ch,
                0 <= q,
                b == q % ch,
        ;
        assert(q < n * ch);
        assert(1 <= d < n) by (nonlinear_arith)
            requires
                0 < ch,
                ch <= q,
                q < n * ch,
                q == ch * d + b,
                0 <= b < ch,
        ;
        let i = n - 1 - d;
        assert(0 <= i <= n - 2);
        assert(i * ch + b < h) by (nonlinear_arith)
            requires
                0 <= i <= n - 2,
                0 <= b < ch,
                h == n * ch + rem,
                0 <= rem,
        ;
        assert(0 <= i * ch + b) by (nonlinear_arith)
            requires
                0 <= i,
                0 <= ch,
                0 <= b,
        ;
    }
}

/// The provider's shuffle and the descrambler's re-ordering cancel:
/// reading row `desc_src_row(r)` of a scrambled image reaches the
/// original row `r`.
pub proof fn lemma_scr_desc_inverse(h: int, n: int, r: int)
    requires
        2 <= n,
        0 <= r < h,
    ensures
        scr_src_row(h, n, desc_src_row(h, n, r)) == r,
{
    let ch = h / n;
    let rem = h % n;
    lemma_band_basics(h, n);
    lemma_desc_src_row_in_range(h, n, r);
    let p = desc_src_row(h, n, r);
    if r < ch + rem {
        assert(p == (n - 1) * ch + r);
        if ch == 0 {
            assert((n - 1) * ch == 0) by (nonlinear_arith)
                requires
                    ch == 0,
            ;
            assert(p == r);
            assert(scr_src_row(h, n, p) == h - h + (p - (n - 1) * ch));
        } else {
            lemma_fundamental_div_mod(r, ch);
            let a = r / ch;
            let b = r % ch;
            assert(0 <= b < ch) by (nonlinear_arith)
                requires
                    0 < ch,
                    0 <= r,
                    b == r % ch,
            ;
            assert(0 <= a) by (nonlinear_arith)
                requires
                    0 < ch,
                    0 <= r,
                    a == r / ch,
            ;
            assert(p == (n - 1 + a) * ch + b) by (nonlinear_arith)
                requires
                    p == (n - 1) * ch + r,
                    r == ch * a + b,
            ;
            lemma_fundamental_div_mod_converse(p, ch, n - 1 + a, b);
            assert(p / ch == n - 1 + a);
            assert(p / ch >= n - 1);
            assert(scr_src_row(h, n, p) == h - h + (p - (n - 1) * ch));
        }
    } else {
        let q = r - rem;
        assert(ch > 0);
        lemma_fundamental_div_mod(q, ch);
        let d = q / ch;
        let b = q % ch;
        assert(0 <= b < ch) by (nonlinear_arith)
            requires
                0 < ch,
                0 <= q,
                b == q % ch,
        ;
        assert(q < n * ch);
        assert(1 <= d < n) by (nonlinear_arith)
            requires
                0 < ch,
                ch <= q,
                q < n * ch,
                q == ch * d + b,
                0 <= b < ch,
        ;
        let i = n - 1 - d;
        assert(p == i * ch + b);
        lemma_fundamental_div_mod_converse(p, ch, i, b);
        assert(p / ch == i);
        assert(i < n - 1);
        assert(scr_src_row(h, n, p) == h - (i + 1) * ch + (p - i * ch));
        assert(h - (i + 1) * ch + b == q + rem) by (nonlinear_arith)
            requires
                h == n * ch + rem,
                i == n - 1 - d,
                q == ch * d + b,
        ;
        assert(p - i * ch == b);
    }
}

/// `out` holds the rows of `src` re-ordered by `map_row`: byte-for-byte,
/// row `r` of `out` is row `map_row(r)` of `src`.
pub open spec fn rows_mapped(
    out: Seq<u8>,
    src: Seq<u8>,
    w: int,
    h: int,
    map_row: spec_fn(int) -> int,
) -> bool {
    &&& out.len() == src.len()
    &&& forall|r: int, t: int|
        0 <= r < h && 0 <= t < 4 * w ==> #[trigger] out[r * (4 * w) + t] == src[map_row(r) * (4
            * w) + t]
}

/// The descrambled pixel buffer: every output row taken from its
/// `desc_src_row` source row.
pub open spec fn descrambled(out: Seq<u8>, src: Seq<u8>, w: int, h: int, n: int) -> bool {
    rows_mapped(out, src, w, h, |r: int| desc_src_row(h, n, r))
}

/// The scrambled pixel buffer: the shuffle the provider applies.
pub open spec fn scrambled(out: Seq<u8>, src: Seq<u8>, w: int, h: int, n: int) -> bool {
    rows_mapped(out, src, w, h, |r: int| scr_src_row(h, n, r))
}

fn desc_src_row_exec(h: u32, n: u32, r: u32) -> (m: u32)
    requires
        2 <= n,
        r < h,
    ensures
        m as int == desc_src_row(h as int, n as int, r as int),
        m < h,
{
    proof {
        lemma_band_basics(h as int, n as int);
        lemma_desc_src_row_in_range(h as int, n as int, r as int);
    }
    let ch = h / n;
    let rem = h % n;
    if r < ch + rem {
        proof {
            assert((n as int - 1) * (ch as int) + r < h) by (nonlinear_arith)
                requires
                    h as int == (n as int) * (ch as int) + rem,
                    (r as int) < (ch as int) + rem,
                    0 <= ch as int,
                    0 <= rem,
                    1 <= n as int,
            ;
            assert(0 <= (n as int - 1) * (ch as int)) by (nonlinear_arith)
                requires
                    1 <= n as int,
                    0 <= ch as int,
            ;
        }
        (n - 1) * ch + r
    } else {
        proof {
            assert(ch > 0);
        }
        let q = r - rem;
        proof {
            lemma_fundamental_div_mod(q as int, ch as int);
            let d = (q as int) / (ch as int);
            let b = (q as int) % (ch as int);
            assert(0 <= b < ch as int) by (nonlinear_arith)
                requires
                    0 < ch as int,
                    0 <= q as int,
                    b == (q as int) % (ch as int),
            ;
            assert(1 <= d < n as int) by (nonlinear_arith)
                requires
                    0 < ch as int,
                    ch as int <= q as int,
                    (q as int) < (n as int) * (ch as int),
                    q as int == (ch as int) * d + b,
                    0 <= b < ch as int,
            ;
            assert((q as int) < (n as int) * (ch as int)) by {
                assert(q as int == r - rem < h - rem);
            }
        }
        let i = n - 1 - q / ch;
        proof {
            assert((i as int) * (ch as int) + (q as int) % (ch as int) < h) by (nonlinear_arith)
                requires
                    0 <= i as int <= n as int - 2,
                    0 <= (q as int) % (ch as int) < ch as int,
                    h as int == (n as int) * (ch as int) + rem,
                    0 <= rem,
            ;
            assert(0 <= (i as int) * (ch as int)) by (nonlinear_arith)
                requires
                    0 <= i as int,
                    0 <= ch as int,
            ;
        }
        i * ch + q % ch
    }
}

fn scr_src_row_exec(h: u32, n: u32, q: u32) -> (m: u32)
    requires
        2 <= n,
        q < h,
    ensures
        m as int == scr_src_row(h as int, n as int, q as int),
        m < h,
{
    proof {
        lemma_band_basics(h as int, n as int);
    }
    let ch = h / n;
    let i: u32 = if ch == 0 || q / ch >= n - 1 {
        n - 1
    } else {
        q / ch
    };
    proof {
        if ch > 0 {
            lemma_fundamental_div_mod(q as int, ch as int);
            let d = (q as int) / (ch as int);
            let b = (q as int) % (ch as int);
            assert(0 <= b < ch as int) by (nonlinear_arith)
                requires
                    0 < ch as int,
                    0 <= q as int,
                    b == (q as int) % (ch as int),
            ;
            assert(0 <= d) by (nonlinear_arith)
                requires
                    0 < ch as int,
                    0 <= q as int,
                    q as int == (ch as int) * d + b,
                    b < ch as int,
            ;
            if i < n - 1 {
                assert(i as int == d);
                assert((i as int) * (ch as int) <= q as int && (q as int) < (i as int + 1) * (
                ch as int)) by (nonlinear_arith)
                    requires
                        q as int == (ch as int) * (i as int) + b,
                        0 <= b < ch as int,
                        0 <= i as int,
                ;
                assert((i as int + 1) * (ch as int) <= h as int) by (nonlinear_arith)
                    requires
                        i as int + 1 <= n as int,
                        0 <= ch as int,
                        (n as int) * (ch as int) <= h as int,
                ;
            } else {
                assert(d >= n as int - 1);
                assert((i as int) * (ch as int) <= q as int && (n as int - 1) * (ch as int)
                    <= q as int) by (nonlinear_arith)
                    requires
                        i as int == n as int - 1,
                        n as int - 1 <= d,
                        0 < ch as int,
                        q as int == (ch as int) * d + b,
                        0 <= b,
                ;
            }
        } else {
            assert((n as int) * (ch as int) == 0 && (n as int - 1) * (ch as int) == 0 && (
            i as int) * (ch as int) == 0) by (nonlinear_arith)
                requires
                    ch as int == 0,
            ;
        }
    }
    let band_end: u32 = if i == n - 1 {
        h
    } else {
        (i + 1) * ch
    };
    h - band_end + (q - i * ch)
}

/// Copies the rows of `src` into a fresh buffer through the chosen row
/// mapping, checking a cancellation flag every 64 rows when one is
/// supplied.
#[verifier::rlimit(60)]
fn remap_rows(
    src: &Vec<u8>,
    w: u32,
    h: u32,
    n: u32,
    descramble: bool,
    cancel: Option<&AtomicBool>,
) -> (r: Result<Vec<u8>, CoreError>)
    requires
        2 <= n,
        1 <= w,
        1 <= h,
        src@.len() == 4 * (w as int) * (h as int),
    ensures
        r is Ok && descramble ==> descrambled(r->Ok_0@, src@, w as int, h as int, n as int),
        r is Ok && !descramble ==> scrambled(r->Ok_0@, src@, w as int, h as int, n as int),
        r is Err ==> r->Err_0 is Cancelled,
        cancel is None ==> r is Ok,
{
    let src_len: usize = src.len();
    let ghost len = src@.len() as int;
    proof {
        assert(4 * (w as int) <= len) by (nonlinear_arith)
            requires
                1 <= h as int,
                0 <= w as int,
                len == 4 * (w as int) * (h as int),
        ;
    }
    let rb: usize = 4 * (w as usize);
    proof {
        assert((h as int) * (rb as int) == len) by (nonlinear_arith)
            requires
                rb as int == 4 * (w as int),
                len == 4 * (w as int) * (h as int),
        ;
    }
    let mut out: Vec<u8> = Vec::new();
    let mut r: u32 = 0;
    while r < h
        invariant
            2 <= n,
            1 <= w,
            1 <= h,
            rb as int == 4 * (w as int),
            src@.len() == len,
            src_len as int == len,
            len == 4 * (w as int) * (h as int),
            (h as int) * (rb as int) == len,
            0 <= r <= h,
            out@.len() == (r as int) * (rb as int),
            forall|rr: int, t: int|
                0 <= rr < r && 0 <= t < rb ==> #[trigger] out@[rr * (rb as int) + t] == src@[(if
                    descramble {
                    desc_src_row(h as int, n as int, rr)
                } else {
                    scr_src_row(h as int, n as int, rr)
                }) * (rb as int) + t],
        decreases h - r,
    {
        if r % 64 == 0 {
            match cancel {
                Some(flag) => {
                    if flag.load(Ordering::Relaxed) {
                        return Err(CoreError::Cancelled);
                    }
                },
                None => {},
            }
        }
        let m: u32 = if descramble {
            desc_src_row_exec(h, n, r)
        } else {
            scr_src_row_exec(h, n, r)
        };
        proof {
            assert((m as int) * (rb as int) + (rb as int) <= (h as int) * (rb as int)
                && 0 <= (m as int) * (rb as int) && (r as int) * (rb as int) + (rb as int) <= (
            h as int) * (rb as int) && 0 <= (r as int) * (rb as int)) by (nonlinear_arith)
                requires
                    m as int + 1 <= h as int,
                    r as int + 1 <= h as int,
                    0 <= m as int,
                    0 <= r as int,
                    0 <= rb as int,
            ;
        }
        let src_off: usize = (m as usize) * rb;
        let mut t: usize = 0;
        while t < rb
            invariant
                rb as int == 4 * (w as int),
                src@.len() == len,
                src_len as int == len,
                (h as int) * (rb as int) == len,
                m < h,
                r < h,
                2 <= n,
                src_off as int == (m as int) * (rb as int),
                src_off as int + rb as int <= len,
                (r as int) * (rb as int) + (rb as int) <= len,
                0 <= t <= rb,
                out@.len() == (r as int) * (rb as int) + t as int,
                forall|rr: int, tt: int|
                    0 <= rr < r && 0 <= tt < rb ==> #[trigger] out@[rr * (rb as int) + tt]
                        == src@[(if descramble {
                        desc_src_row(h as int, n as int, rr)
                    } else {
                        scr_src_row(h as int, n as int, rr)
                    }) * (rb as int) + tt],
                forall|tt: int|
                    0 <= tt < t ==> #[trigger] out@[(r as int) * (rb as int) + tt] == src@[(
                    m as int) * (rb as int) + tt],
                m as int == (if descramble {
                    desc_src_row(h as int, n as int, r as int)
                } else {
                    scr_src_row(h as int, n as int, r as int)
                }),
            decreases rb - t,
        {
            let b = src[src_off + t];
            out.push(b);
            proof {
                assert forall|rr: int, tt: int|
                    0 <= rr < r && 0 <= tt < rb implies #[trigger] out@[rr * (rb as int) + tt]
                    == src@[(if descramble {
                    desc_src_row(h as int, n as int, rr)
                } else {
                    scr_src_row(h as int, n as int, rr)
                }) * (rb as int) + tt] by {
                    assert(rr * (rb as int) + tt < (r as int) * (rb as int) + t as int)
                        by (nonlinear_arith)
                        requires
                            0 <= rr < r as int,
                            0 <= tt < rb as int,
                            0 <= t as int,
                    ;
                }
            }
            t = t + 1;
        }
        proof {
            assert((r as int) * (rb as int) + (rb as int) == (r as int + 1) * (rb as int))
                by (nonlinear_arith);
        }
        r = r + 1;
    }
    proof {
        assert(out@.len() == len);
        assert forall|rr: int, t: int|
            0 <= rr < h && 0 <= t < 4 * (w as int) implies #[trigger] out@[rr * (4 * (
        w as int)) + t] == src@[(if descramble {
            desc_src_row(h as int, n as int, rr)
        } else {
            scr_src_row(h as int, n as int, rr)
        }) * (4 * (w as int)) + t] by {
            assert(out@[rr * (rb as int) + t] == src@[(if descramble {
                desc_src_row(h as int, n as int, rr)
            } else {
                scr_src_row(h as int, n as int, rr)
            }) * (rb as int) + t]);
        }
    }
    Ok(out)
}

/// Descrambles a raw RGBA buffer: every output row is taken from its
/// `desc_src_row` source row, polling the cancellation flag every 64
/// rows.
pub fn descramble_rows(src: &Vec<u8>, w: u32, h: u32, n: u32, cancel: Option<&AtomicBool>) -> (r:
    Result<Vec<u8>, CoreError>)
    requires
        2 <= n,
        1 <= w,
        1 <= h,
        src@.len() == 4 * (w as int) * (h as int),
    ensures
        r is Ok ==> descrambled(r->Ok_0@, src@, w as int, h as int, n as int),
        r is Err ==> r->Err_0 is Cancelled,
        cancel is None ==> r is Ok,
{
    remap_rows(src, w, h, n, true, cancel)
}

/// Applies the provider's shuffle to a raw RGBA buffer: the inverse of
/// `descramble_rows`.
pub fn scramble_rows(src: &Vec<u8>, w: u32, h: u32, n: u32) -> (r: Vec<u8>)
    requires
        2 <= n,
        1 <= w,
        1 <= h,
        src@.len() == 4 * (w as int) * (h as int),
    ensures
        scrambled(r@, src@, w as int, h as int, n as int),
{
    match remap_rows(src, w, h, n, false, None) {
        Ok(v) => v,
        Err(_) => vstd::pervasive::unreached(),
    }
}

/// Band reversal undoes itself: descrambling a scrambled buffer gives
/// back the original pixels, for every image and every band count.
pub proof fn lemma_descramble_round_trip(
    orig: Seq<u8>,
    mid: Seq<u8>,
    out: Seq<u8>,
    w: int,
    h: int,
    n: int,
)
    requires
        2 <= n,
        1 <= w,
        1 <= h,
        orig.len() == 4 * w * h,
        scrambled(mid, orig, w, h, n),
        descrambled(out, mid, w, h, n),
    ensures
        out == orig,
{
    let rb = 4 * w;
    assert(h * rb == orig.len()) by (nonlinear_arith)
        requires
            orig.len() == 4 * w * h,
            rb == 4 * w,
    ;
    assert forall|r: int, t: int| 0 <= r < h && 0 <= t < rb implies #[trigger] out[r * rb + t]
        == orig[r * rb + t] by {
        lemma_desc_src_row_in_range(h, n, r);
        let p = desc_src_row(h, n, r);
        lemma_scr_desc_inverse(h, n, r);
        assert(out[r * rb + t] == mid[p * rb + t]);
        assert(mid[p * rb + t] == orig[scr_src_row(h, n, p) * rb + t]);
    }
    assert(out =~= orig) by {
        assert forall|idx: int| 0 <= idx < orig.len() implies out[idx] == orig[idx] by {
            lemma_fundamental_div_mod(idx, rb);
            let r = idx / rb;
            let t = idx % rb;
            assert(0 <= t < rb) by (nonlinear_arith)
                requires
                    0 < rb,
                    0 <= idx,
                    t == idx % rb,
            ;
            assert(idx == rb * r + t);
            assert(0 <= r < h) by (nonlinear_arith)
                requires
                    idx == rb * r + t,
                    0 <= t < rb,
                    0 <= idx,
                    idx < h * rb,
                    0 < rb,
            ;
            assert(out[r * rb + t] == orig[r * rb + t]);
            assert(rb * r == r * rb) by (nonlinear_arith);
        }
    }
}


/// The descrambled pixel buffer in closed form: byte `idx` comes from
/// the `desc_src_row` source row of the row `idx` lies in.
pub open spec fn descramble_pixels(src: Seq<u8>, w: int, h: int, n: int) -> Seq<u8> {
    Seq::new(
        src.len(),
        |idx: int| src[desc_src_row(h, n, idx / (4 * w)) * (4 * w) + idx % (4 * w)],
    )
}

/// A buffer satisfying `descrambled` is exactly `descramble_pixels`.
pub proof fn lemma_descrambled_is_pixels(out: Seq<u8>, src: Seq<u8>, w: int, h: int, n: int)
    requires
        2 <= n,
        1 <= w,
        1 <= h,
        src.len() == 4 * w * h,
        descrambled(out, src, w, h, n),
    ensures
        out == descramble_pixels(src, w, h, n),
{
    let rb = 4 * w;
    assert(h * rb == src.len()) by (nonlinear_arith)
        requires
            src.len() == 4 * w * h,
            rb == 4 * w,
    ;
    assert(out =~= descramble_pixels(src, w, h, n)) by {
        assert forall|idx: int|
            0 <= idx < src.len() implies out[idx] == descramble_pixels(src, w, h, n)[idx] by {
            lemma_fundamental_div_mod(idx, rb);
            let r = idx / rb;
            let t = idx % rb;
            assert(0 <= t < rb) by (nonlinear_arith)
                requires
                    0 < rb,
                    0 <= idx,
                    t == idx % rb,
            ;
            assert(idx == rb * r + t);
            assert(0 <= r < h) by (nonlinear_arith)
                requires
                    idx == rb * r + t,
                    0 <= t < rb,
                    0 <= idx,
                    idx < h * rb,
                    0 < rb,
            ;
            assert(out[r * rb + t] == src[desc_src_row(h, n, r) * rb + t]);
            assert(rb * r == r * rb) by (nonlinear_arith);
        }
    }
}

/// The format a descrambled image is written back in: JPEG stays JPEG
/// (lossy in, lossy out), everything else is forced to lossless PNG.
pub open spec fn out_format(b: Seq<u8>) -> ImgFormat {
    if effective_format(b) == ImgFormat::Jpeg {
        ImgFormat::Jpeg
    } else {
        ImgFormat::Png
    }
}

/// Undo the provider's band shuffle on raw image bytes, polling the
/// cancellation flag at the 64-row checkpoints. A segmentation count of
/// one or less returns the bytes unchanged with the detected format —
/// so does an image the decoder reports as zero-sized. Otherwise the
/// image is decoded, its rows re-ordered exactly as `descramble_pixels`
/// says, and re-encoded; without a cancellation flag the call succeeds
/// exactly when the re-encoding does.
pub fn descramble_image_bytes_with_cancel(
    bytes: &[u8],
    num: i64,
    cancel: Option<&AtomicBool>,
) -> (r: Result<(Vec<u8>, ImgFormat), CoreError>)
    requires
        num <= 0xffff_ffff,
    ensures
        num <= 1 ==> r is Ok && r->Ok_0.0@ == bytes@ && r->Ok_0.1 == effective_format(bytes@),
        num > 1 ==> match img_decode_of(bytes@) {
            Option::None => r is Err && r->Err_0 is Decode,
            Option::Some(d) => {
                if d.1 == 0 || d.2 == 0 {
                    r is Ok && r->Ok_0.0@ == bytes@ && r->Ok_0.1 == effective_format(bytes@)
                } else {
                    let enc = img_encode_of(
                        descramble_pixels(d.0, d.1, d.2, num as int),
                        d.1,
                        d.2,
                        effective_format(bytes@) == ImgFormat::Jpeg,
                    );
                    &&& r is Ok ==> r->Ok_0.1 == out_format(bytes@) && enc is Some
                        && r->Ok_0.0@ == enc->Some_0
                    &&& r is Err ==> (r->Err_0 is Cancelled || r->Err_0 is Decode)
                    &&& enc is None ==> r is Err
                    &&& cancel is None ==> (r is Ok <==> enc is Some)
                    &&& (cancel is None && r is Err) ==> r->Err_0 is Decode
                }
            },
        },
{
    let sniffed = sniff_format(bytes);
    let fmt_in = if sniffed == ImgFormat::Other {
        ImgFormat::Jpeg
    } else {
        sniffed
    };
    if num <= 1 {
        return Ok((vstd::slice::slice_to_vec(bytes), fmt_in));
    }
    let (pixels, w, h) = match decode_rgba(bytes) {
        Ok(v) => v,
        Err(message) => {
            return Err(CoreError::Decode { message });
        },
    };
    if w == 0 || h == 0 {
        return Ok((vstd::slice::slice_to_vec(bytes), fmt_in));
    }
    let n32: u32 = num as u32;
    let out_pixels = match descramble_rows(&pixels, w, h, n32, cancel) {
        Ok(v) => v,
        Err(e) => {
            return Err(e);
        },
    };
    proof {
        lemma_descrambled_is_pixels(
            out_pixels@,
            pixels@,
            w as int,
            h as int,
            n32 as int,
        );
    }
    let as_jpeg = fmt_in == ImgFormat::Jpeg;
    let encoded = match encode_rgba(&out_pixels, w, h, as_jpeg) {
        Ok(v) => v,
        Err(message) => {
            return Err(CoreError::Decode { message });
        },
    };
    let fmt_out = if as_jpeg {
        ImgFormat::Jpeg
    } else {
        ImgFormat::Png
    };
    Ok((encoded, fmt_out))
}

/// `descramble_image_bytes_with_cancel` without a cancellation flag: a
/// count of one or less is the identity on bytes and format, and above
/// one the call succeeds exactly when the decoded image re-encodes.
pub fn descramble_image_bytes(bytes: &[u8], num: i64) -> (r: Result<
    (Vec<u8>, ImgFormat),
    CoreError,
>)
    requires
        num <= 0xffff_ffff,
    ensures
        num <= 1 ==> r is Ok && r->Ok_0.0@ == bytes@ && r->Ok_0.1 == effective_format(bytes@),
        num > 1 ==> match img_decode_of(bytes@) {
            Option::None => r is Err && r->Err_0 is Decode,
            Option::Some(d) => {
                if d.1 == 0 || d.2 == 0 {
                    r is Ok && r->Ok_0.0@ == bytes@ && r->Ok_0.1 == effective_format(bytes@)
                } else {
                    let enc = img_encode_of(
                        descramble_pixels(d.0, d.1, d.2, num as int),
                        d.1,
                        d.2,
                        effective_format(bytes@) == ImgFormat::Jpeg,
                    );
                    &&& r is Ok <==> enc is Some
                    &&& r is Ok ==> r->Ok_0.1 == out_format(bytes@) && r->Ok_0.0@
                        == enc->Some_0
                    &&& r is Err ==> r->Err_0 is Decode
                }
            },
        },
{
    descramble_image_bytes_with_cancel(bytes, num, None)
}

} // verus!
