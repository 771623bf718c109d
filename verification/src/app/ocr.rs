use vstd::prelude::*;

use crate::app::text::{chars_of, string_push};

verus! {

/// Whether `char::is_alphanumeric` holds of a character (Unicode alphabetic or numeric).
pub uninterp spec fn alphanumeric(c: char) -> bool;

/// Whether a character is white space (the Unicode `White_Space` property, as
/// `char::is_whitespace` documents it): tab to carriage return, space, next line, no-break
/// space, ogham space mark, the en quad to hair space range, line and paragraph separators,
/// narrow no-break space, medium mathematical space and ideographic space.
pub open spec fn whitespace(c: char) -> bool {
    let u = c as u32;
    ||| 0x9 <= u <= 0xd
    ||| u == 0x20
    ||| u == 0x85
    ||| u == 0xa0
    ||| u == 0x1680
    ||| 0x2000 <= u <= 0x200a
    ||| u == 0x2028
    ||| u == 0x2029
    ||| u == 0x202f
    ||| u == 0x205f
    ||| u == 0x3000
}

/// `char::is_alphanumeric`: the contract claims only that the answer is the one `alphanumeric`
/// names for the character; the Unicode tables behind it are not stated.
#[verifier::external_body]
fn is_alphanumeric(c: char) -> (r: bool)
    ensures
        r == alphanumeric(c),
{
    c.is_alphanumeric()
}

/// Whether a character is white space (see `whitespace`).
fn is_whitespace(c: char) -> (r: bool)
    ensures
        r == whitespace(c),
{
    let u = c as u32;
    (0x9 <= u && u <= 0xd) || u == 0x20 || u == 0x85 || u == 0xa0 || u == 0x1680 || (0x2000 <= u && u <= 0x200a)
        || u == 0x2028 || u == 0x2029 || u == 0x202f || u == 0x205f || u == 0x3000
}

/// Whether a character survives OCR clean-up: letters, digits, white space and `- , . '`.
pub open spec fn ocr_keeps(c: char) -> bool {
    alphanumeric(c) || whitespace(c) || c == '-' || c == ',' || c == '.' || c == '\''
}

/// The characters of `s` that survive OCR clean-up, in order.
pub open spec fn ocr_kept(s: Seq<char>) -> Seq<char>
    decreases s.len(),
{
    if s.len() == 0 {
        s
    } else {
        let k = ocr_kept(s.drop_last());
        if ocr_keeps(s.last()) {
            k.push(s.last())
        } else {
            k
        }
    }
}

/// Clean-up keeps only characters it accepts, never lengthens a text, and cleaning a cleaned
/// text changes nothing.
pub proof fn lemma_sanitize_idempotent(s: Seq<char>)
    ensures
        forall|i: int| 0 <= i < ocr_kept(s).len() ==> ocr_keeps(#[trigger] ocr_kept(s)[i]),
        ocr_kept(s).len() <= s.len(),
        ocr_kept(ocr_kept(s)) == ocr_kept(s),
    decreases s.len(),
{
    if s.len() > 0 {
        lemma_sanitize_idempotent(s.drop_last());
        let k = ocr_kept(s.drop_last());
        if ocr_keeps(s.last()) {
            assert(k.push(s.last()).drop_last() =~= k);
        }
    }
}

/// Keep only alphanumeric, whitespace, and a handful of punctuation.
pub fn sanitize_ocr_text(input: &str) -> (r: String)
    ensures
        r@ == ocr_kept(input@),
{
    let cs = chars_of(input);
    let mut out = String::new();
    let mut i: usize = 0;
    while i < cs.len()
        invariant
            i <= cs@.len(),
            out@ == ocr_kept(cs@.subrange(0, i as int)),
        decreases cs.len() - i,
    {
        let c = cs[i];
        proof {
            assert(cs@.subrange(0, i + 1).drop_last() =~= cs@.subrange(0, i as int));
            assert(cs@.subrange(0, i + 1).last() == c);
        }
        if is_alphanumeric(c) || is_whitespace(c) || c == '-' || c == ',' || c == '.' || c == '\'' {
            string_push(&mut out, c);
        }
        i += 1;
    }
    proof {
        assert(cs@.subrange(0, cs@.len() as int) =~= cs@);
    }
    out
}

/// The value of a gray pixel after thresholding: black below the cutoff, white from it on.
pub open spec fn thresholded(v: u8, cutoff: u8) -> u8 {
    if v < cutoff { 0 } else { 255 }
}

/// Simple black-white threshold over gray pixel values.
pub fn threshold_image(pixels: &Vec<u8>, cutoff: u8) -> (r: Vec<u8>)
    ensures
        r@.len() == pixels@.len(),
        forall|i: int| 0 <= i < pixels@.len() ==> #[trigger] r@[i] == thresholded(pixels@[i], cutoff),
{
    let mut out: Vec<u8> = Vec::new();
    let mut i: usize = 0;
    while i < pixels.len()
        invariant
            i <= pixels@.len(),
            out@.len() == i,
            forall|j: int| 0 <= j < i ==> #[trigger] out@[j] == thresholded(pixels@[j], cutoff),
        decreases pixels.len() - i,
    {
        let v = pixels[i];
        out.push(if v < cutoff { 0 } else { 255 });
        i += 1;
    }
    out
}

/// Whether an RGB pixel is close enough to white: every channel within the tolerance of 255.
pub open spec fn near_white(r: u8, g: u8, b: u8) -> bool {
    255 - r < 50 && 255 - g < 50 && 255 - b < 50
}

/// "Red button" pipeline over RGB triples: near-white pixels become black, all others white.
pub fn white_invert_image(rgb: &Vec<u8>) -> (r: Vec<u8>)
    requires
        rgb@.len() % 3 == 0,
    ensures
        r@.len() == rgb@.len(),
        forall|p: int| 0 <= p < rgb@.len() / 3 ==> {
            let v: u8 = if near_white(rgb@[3 * p], rgb@[3 * p + 1], rgb@[3 * p + 2]) { 0 } else { 255 };
            &&& #[trigger] r@[3 * p] == v
            &&& r@[3 * p + 1] == v
            &&& r@[3 * p + 2] == v
        },
{
    let tol: u8 = 50;
    let mut out: Vec<u8> = Vec::new();
    let mut i: usize = 0;
    let ghost mut k: int = 0;
    while i < rgb.len()
        invariant
            i <= rgb@.len(),
            rgb@.len() % 3 == 0,
            tol == 50,
            i == 3 * k,
            out@.len() == i,
            forall|p: int| 0 <= p < k ==> {
                let v: u8 = if near_white(rgb@[3 * p], rgb@[3 * p + 1], rgb@[3 * p + 2]) { 0 } else { 255 };
                &&& #[trigger] out@[3 * p] == v
                &&& out@[3 * p + 1] == v
                &&& out@[3 * p + 2] == v
            },
        decreases rgb.len() - i,
    {
        let r = rgb[i];
        let g = rgb[i + 1];
        let b = rgb[i + 2];
        let inverted_black = (255u8 - r < tol) && (255u8 - g < tol) && (255u8 - b < tol);
        let v: u8 = if inverted_black { 0 } else { 255 };
        let ghost before = out@;
        out.push(v);
        out.push(v);
        out.push(v);
        proof {
            assert(near_white(r, g, b) == inverted_black);
            assert forall|p: int| 0 <= p < k + 1 implies {
                let w: u8 = if near_white(rgb@[3 * p], rgb@[3 * p + 1], rgb@[3 * p + 2]) { 0 } else { 255 };
                &&& #[trigger] out@[3 * p] == w
                &&& out@[3 * p + 1] == w
                &&& out@[3 * p + 2] == w
            } by {
                if p < k {
                    assert(out@[3 * p] == before[3 * p]);
                    assert(out@[3 * p + 1] == before[3 * p + 1]);
                    assert(out@[3 * p + 2] == before[3 * p + 2]);
                }
            }
        }
        i += 3;
        proof {
            k = k + 1;
        }
    }
    assert(k == rgb@.len() / 3);
    out
}

/// If cropping fails, one of these errors will be returned.
#[derive(Debug, Clone, Copy, PartialEq, Eq, Structural)]
pub enum CropError {
    /// The region reaches past the right or bottom edge of the image.
    OutOfBounds { x1: u32, y1: u32, x2: u32, y2: u32, width: u32, height: u32 },
    /// The region has no width or no height.
    InvalidRegion { x1: u32, y1: u32, x2: u32, y2: u32, width: u32, height: u32 },
}

/// `a - b`, or 0 where `b` is larger.
pub open spec fn sat_diff(a: u32, b: u32) -> u32 {
    if a >= b { (a - b) as u32 } else { 0 }
}

/// The width and height of the crop (x1,y1)–(x2,y2) of an image of the given size, or why
/// there is none.
pub fn crop_extent(x1: u32, y1: u32, x2: u32, y2: u32, img_w: u32, img_h: u32) -> (r: Result<(u32, u32), CropError>)
    ensures
        x2 > img_w || y2 > img_h ==> r == Err::<(u32, u32), CropError>(
            CropError::OutOfBounds { x1, y1, x2, y2, width: img_w, height: img_h },
        ),
        !(x2 > img_w || y2 > img_h) && (x2 <= x1 || y2 <= y1) ==> r == Err::<(u32, u32), CropError>(
            CropError::InvalidRegion { x1, y1, x2, y2, width: sat_diff(x2, x1), height: sat_diff(y2, y1) },
        ),
        !(x2 > img_w || y2 > img_h) && !(x2 <= x1 || y2 <= y1) ==> r == Ok::<(u32, u32), CropError>(
            ((x2 - x1) as u32, (y2 - y1) as u32),
        ),
{
    if x2 > img_w || y2 > img_h {
        return Err(CropError::OutOfBounds { x1, y1, x2, y2, width: img_w, height: img_h });
    }
    let w = x2.saturating_sub(x1);
    let h = y2.saturating_sub(y1);
    if w == 0 || h == 0 {
        return Err(CropError::InvalidRegion { x1, y1, x2, y2, width: w, height: h });
    }
    Ok((w, h))
}

} // verus!
