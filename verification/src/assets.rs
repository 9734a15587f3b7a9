//! Icons and fonts that never fail to load: an icon whose bytes do not decode is replaced
//! by a drawn one, and the first font among the candidates that parses is taken.
use ab_glyph::FontArc;
use vstd::prelude::*;

verus! {

/// An RGBA image: `width` x `height` pixels, row by row, four bytes per pixel.
pub struct RgbaPixels {
    pub width: u32,
    pub height: u32,
    pub pixels: Vec<u8>,
}

/// Colour of the drawn icon's background.
pub open spec fn background() -> [u8; 4] {
    [40u8, 40u8, 46u8, 255u8]
}

/// Pixel `(x, y)` of the 64x64 drawn icon: a four-pixel frame and a cross along both
/// diagonals in `cor`, the rest in the dark background colour.
pub open spec fn fallback_pixel(x: int, y: int, cor: [u8; 4]) -> [u8; 4] {
    let frame = x < 4 || x > 59 || y < 4 || y > 59;
    let cross = (-2 < x - y < 2) || (-2 < x + y - 63 < 2);
    if frame || cross {
        cor
    } else {
        background()
    }
}

/// Byte `i` of the drawn icon's pixel bytes.
pub open spec fn fallback_byte(i: int, cor: [u8; 4]) -> u8 {
    fallback_pixel((i / 4) % 64, i / 256, cor)[i % 4]
}

/// `img` is the drawn 64x64 icon in colour `cor`.
pub open spec fn is_fallback_icon(img: RgbaPixels, cor: [u8; 4]) -> bool {
    &&& img.width == 64
    &&& img.height == 64
    &&& img.pixels@.len() == 16384
    &&& forall|x: int, y: int, k: int|
        0 <= x < 64 && 0 <= y < 64 && 0 <= k < 4 ==> img.pixels@[(y * 64 + x) * 4 + k]
            == #[trigger] fallback_pixel(x, y, cor)[k]
}

proof fn lemma_pixel_index(x: int, y: int, k: int)
    requires
        0 <= x < 64,
        0 <= y < 64,
        0 <= k < 4,
    ensures
        0 <= (y * 64 + x) * 4 + k < 16384,
        ((y * 64 + x) * 4 + k) / 4 % 64 == x,
        ((y * 64 + x) * 4 + k) / 256 == y,
        ((y * 64 + x) * 4 + k) % 4 == k,
{
    assert(((y * 64 + x) * 4 + k) == y * 256 + x * 4 + k) by (nonlinear_arith);
}

/// The drawn 64x64 icon in colour `cor`.
pub fn fallback_icon(cor: [u8; 4]) -> (img: RgbaPixels)
    ensures
        img.width == 64,
        img.height == 64,
        img.pixels@.len() == 16384,
        forall|x: int, y: int, k: int|
            0 <= x < 64 && 0 <= y < 64 && 0 <= k < 4 ==> img.pixels@[(y * 64 + x) * 4 + k]
                == #[trigger] fallback_pixel(x, y, cor)[k],
{
    let bg: [u8; 4] = [40, 40, 46, 255];
    assert(bg == background());
    let mut pixels: Vec<u8> = Vec::new();
    let mut i: usize = 0;
    while i < 16384
        invariant
            i <= 16384,
            pixels@.len() == i,
            bg == background(),
            forall|j: int| 0 <= j < i ==> pixels@[j] == #[trigger] fallback_byte(j, cor),
        decreases 16384 - i,
    {
        let x: i32 = ((i / 4) % 64) as i32;
        let y: i32 = (i / 256) as i32;
        let k: usize = i % 4;
        let frame = x < 4 || x > 59 || y < 4 || y > 59;
        let cross = (-2 < x - y && x - y < 2) || (-2 < x + y - 63 && x + y - 63 < 2);
        let byte = if frame || cross {
            cor[k]
        } else {
            bg[k]
        };
        assert(byte == fallback_byte(i as int, cor));
        pixels.push(byte);
        i += 1;
    }
    proof {
        assert forall|x: int, y: int, k: int|
            0 <= x < 64 && 0 <= y < 64 && 0 <= k < 4 implies pixels@[(y * 64 + x) * 4 + k]
                == #[trigger] fallback_pixel(x, y, cor)[k] by {
            lemma_pixel_index(x, y, k);
            assert(pixels@[(y * 64 + x) * 4 + k] == fallback_byte((y * 64 + x) * 4 + k, cor));
        }
    }
    RgbaPixels { width: 64, height: 64, pixels }
}

/// What `image::load_from_memory` followed by `to_rgba8` makes of `bytes`: the width, the
/// height and the RGBA bytes of the image, or `None` when the bytes do not decode.
pub uninterp spec fn png_decoded(bytes: Seq<u8>) -> Option<(u32, u32, Seq<u8>)>;

/// Calls `image::load_from_memory`, which guesses the format from the bytes and decodes
/// them, and converts the image to RGBA with `to_rgba8`. The result is named, not
/// described: it is `png_decoded` of the bytes, a function of the bytes alone.
#[verifier::external_body]
fn decode_png(bytes: &[u8]) -> (r: Option<(u32, u32, Vec<u8>)>)
    ensures
        match r {
            Some((w, h, p)) => png_decoded(bytes@) == Some((w, h, p@)),
            None => png_decoded(bytes@) is None,
        },
{
    match image::load_from_memory(bytes) {
        Ok(img) => {
            let rgba = img.to_rgba8();
            Some((rgba.width(), rgba.height(), rgba.into_raw()))
        },
        Err(_) => None,
    }
}

/// The decoded image if there is one, else the drawn icon in colour `cor`.
pub fn image_or_fallback(decoded: Option<(u32, u32, Vec<u8>)>, cor: [u8; 4]) -> (img: RgbaPixels)
    ensures
        match decoded {
            Some((w, h, p)) => img.width == w && img.height == h && img.pixels@ == p@,
            None => is_fallback_icon(img, cor),
        },
{
    match decoded {
        Some((w, h, p)) => RgbaPixels { width: w, height: h, pixels: p },
        None => fallback_icon(cor),
    }
}

/// The icon for the bytes `dados` of an image file (`None` when the file could not be read):
/// the decoded image when the bytes decode, else the drawn icon in colour `cor`, so that a
/// missing or broken file never stops the program.
pub fn carregar_png_ou_fallback(dados: Option<Vec<u8>>, cor: [u8; 4]) -> (img: RgbaPixels)
    ensures
        match dados {
            Some(d) => match png_decoded(d@) {
                Some((w, h, p)) => img.width == w && img.height == h && img.pixels@ == p,
                None => is_fallback_icon(img, cor),
            },
            None => is_fallback_icon(img, cor),
        },
{
    match dados {
        Some(d) => image_or_fallback(decode_png(d.as_slice()), cor),
        None => fallback_icon(cor),
    }
}

#[verifier::external_type_specification]
#[verifier::external_body]
pub struct ExFontArc(FontArc);

/// Whether `ab_glyph::FontArc::try_from_vec` accepts `data` as a font.
pub uninterp spec fn font_parses(data: Seq<u8>) -> bool;

/// Calls `ab_glyph::FontArc::try_from_vec`, which parses `data` as a TrueType or OpenType
/// font. Whether it succeeds is named (`font_parses`), as a function of the bytes alone;
/// nothing is said of the font it gives.
#[verifier::external_body]
fn parse_font(data: Vec<u8>) -> (r: Option<FontArc>)
    ensures
        r is Some <==> font_parses(data@),
{
    FontArc::try_from_vec(data).ok()
}

/// Candidate `c` (the bytes of a font file, `None` when it could not be read) holds a font.
pub open spec fn usable_font(c: Option<Vec<u8>>) -> bool {
    c matches Some(d) && font_parses(d@)
}

/// The first candidate that holds a font, with its index; `None` when none does.
pub fn first_parsable_font(candidates: Vec<Option<Vec<u8>>>) -> (r: Option<(usize, FontArc)>)
    ensures
        match r {
            Some((i, _)) => i < candidates@.len() && usable_font(candidates@[i as int]) && forall|
                j: int,
            | 0 <= j < i ==> !usable_font(#[trigger] candidates@[j]),
            None => forall|j: int|
                0 <= j < candidates@.len() ==> !usable_font(#[trigger] candidates@[j]),
        },
{
    let ghost all = candidates@;
    let n = candidates.len();
    let mut rest = candidates;
    let mut i: usize = 0;
    while rest.len() > 0
        invariant
            i + rest@.len() == all.len(),
            all.len() == n,
            all == candidates@,
            rest@ == all.skip(i as int),
            forall|j: int| 0 <= j < i ==> !usable_font(#[trigger] all[j]),
        decreases rest@.len(),
    {
        let c = rest.remove(0);
        assert(c == all[i as int]);
        if let Some(data) = c {
            if let Some(font) = parse_font(data) {
                assert(usable_font(all[i as int]));
                return Some((i, font));
            }
        }
        assert(rest@ =~= all.skip(i + 1));
        i += 1;
    }
    None
}

} // verus!
