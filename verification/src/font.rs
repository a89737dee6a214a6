//! The font atlas: its image, decoded into the texture that the renderer
//! uploads, and lookups in its metrics: which glyph draws a code point, and
//! which kerning pair adjusts two neighbouring code points. The glyphs'
//! metrics are real numbers and stay with the renderer; these functions find
//! them by position.
use vstd::prelude::*;
use std::collections::HashMap;

verus! {

broadcast use vstd::std_specs::hash::group_hash_axioms;

/// What `image::load_from_memory` followed by `to_rgba8` makes of the bytes
/// `png`: its width, height and RGBA8 pixel bytes, or `None` when the bytes
/// are no image that the crate decodes.
pub uninterp spec fn decoded_rgba8(png: Seq<u8>) -> Option<(u32, u32, Seq<u8>)>;

/// Calls `image::load_from_memory` on `png`, converts the image with
/// `to_rgba8`, and returns its `dimensions` and the bytes of `into_raw`; any
/// decoding error becomes `None`. The contract claims only that the result is
/// a function of the bytes (named `decoded_rgba8`); what the decoder computes
/// is not stated.
#[verifier::external_body]
fn decode_rgba8(png: &[u8]) -> (image: Option<(u32, u32, Vec<u8>)>)
    ensures
        match image {
            Some((width, height, pixels)) => decoded_rgba8(png@) == Some((width, height, pixels@)),
            None => decoded_rgba8(png@) is None,
        },
{
    match image::load_from_memory(png) {
        Ok(decoded) => {
            let rgba = decoded.to_rgba8();
            let (width, height) = rgba.dimensions();
            Some((width, height, rgba.into_raw()))
        },
        Err(_) => None,
    }
}

/// The atlas image as the texture upload takes it.
#[derive(Debug, Clone, PartialEq, Eq)]
pub struct AtlasImage {
    pub width: u32,
    pub height: u32,
    /// Bytes of one row: four per pixel.
    pub bytes_per_row: u32,
    /// Rows in the image.
    pub rows_per_image: u32,
    /// RGBA8 pixel bytes, row after row.
    pub pixels: Vec<u8>,
}

/// The upload layout of a decoded image of `width` by `height` pixels: rows
/// of four bytes per pixel, `height` rows. A row's byte count must fit a
/// `u32`.
pub fn atlas_image(width: u32, height: u32, pixels: Vec<u8>) -> (atlas: AtlasImage)
    requires
        4 * width <= u32::MAX,
    ensures
        atlas.width == width,
        atlas.height == height,
        atlas.bytes_per_row == 4 * width,
        atlas.rows_per_image == height,
        atlas.pixels@ == pixels@,
{
    AtlasImage { width, height, bytes_per_row: 4 * width, rows_per_image: height, pixels }
}

/// The atlas image that the PNG bytes `png` hold: `None` when they are no
/// image the decoder reads, or when a row of the image is too long for its
/// byte count to fit a `u32`.
pub fn decode_font_atlas(png: &[u8]) -> (atlas: Option<AtlasImage>)
    ensures
        match decoded_rgba8(png@) {
            None => atlas is None,
            Some((width, height, pixels)) => if 4 * width <= u32::MAX {
                atlas matches Some(a) && a.width == width && a.height == height && a.bytes_per_row
                    == 4 * width && a.rows_per_image == height && a.pixels@ == pixels
            } else {
                atlas is None
            },
        },
{
    match decode_rgba8(png) {
        None => None,
        Some((width, height, pixels)) => {
            if width <= 0x3FFF_FFFF {
                Some(atlas_image(width, height, pixels))
            } else {
                None
            }
        },
    }
}

/// `i` is the last position of `code` in `codes`.
pub open spec fn is_last_position(codes: Seq<u32>, code: u32, i: int) -> bool {
    &&& 0 <= i < codes.len()
    &&& codes[i] == code
    &&& forall|j: int| i < j < codes.len() ==> codes[j] != code
}

/// A map from each code point of `codes` (the glyphs' code points, in atlas
/// order) to its position; where a code point occurs twice, the later glyph
/// wins.
pub fn glyph_index_map(codes: &[u32]) -> (map: HashMap<u32, usize>)
    ensures
        forall|code: u32| map@.contains_key(code) <==> codes@.contains(code),
        forall|code: u32|
            #[trigger] map@.contains_key(code) ==> is_last_position(
                codes@,
                code,
                map@[code] as int,
            ),
{
    let mut map: HashMap<u32, usize> = HashMap::new();
    let mut i: usize = 0;
    while i < codes.len()
        invariant
            i <= codes@.len(),
            forall|code: u32|
                map@.contains_key(code) <==> codes@.subrange(0, i as int).contains(code),
            forall|code: u32|
                #[trigger] map@.contains_key(code) ==> is_last_position(
                    codes@.subrange(0, i as int),
                    code,
                    map@[code] as int,
                ),
        decreases codes@.len() - i,
    {
        let ghost before = map@;
        map.insert(codes[i], i);
        proof {
            let prefix = codes@.subrange(0, i as int);
            let next = codes@.subrange(0, i + 1);
            assert(next =~= prefix.push(codes@[i as int]));
            assert forall|code: u32| map@.contains_key(code) <==> next.contains(code) by {
                if next.contains(code) {
                    let k = choose|k: int| 0 <= k < next.len() && next[k] == code;
                    if k < prefix.len() {
                        assert(prefix[k] == code);
                    }
                }
                if prefix.contains(code) {
                    let k = choose|k: int| 0 <= k < prefix.len() && prefix[k] == code;
                    assert(next[k] == code);
                }
                if code == codes@[i as int] {
                    assert(next[i as int] == code);
                }
            }
            assert forall|code: u32| #[trigger] map@.contains_key(code) implies is_last_position(
                next,
                code,
                map@[code] as int,
            ) by {
                if code != codes@[i as int] {
                    assert(before.contains_key(code));
                    assert(is_last_position(prefix, code, before[code] as int));
                }
            }
        }
        i = i + 1;
    }
    assert(codes@.subrange(0, codes@.len() as int) =~= codes@);
    map
}

/// The position of the first kerning pair for `unicode1` followed by
/// `unicode2`; `None` when there is none (no adjustment).
pub fn find_kerning_pair(pairs: &[(u32, u32)], unicode1: u32, unicode2: u32) -> (found: Option<
    usize,
>)
    ensures
        found is None <==> !pairs@.contains((unicode1, unicode2)),
        found matches Some(i) ==> {
            &&& i < pairs@.len()
            &&& pairs@[i as int] == (unicode1, unicode2)
            &&& forall|j: int| 0 <= j < i ==> pairs@[j] != (unicode1, unicode2)
        },
{
    let mut i: usize = 0;
    while i < pairs.len()
        invariant
            i <= pairs@.len(),
            forall|j: int| 0 <= j < i ==> pairs@[j] != (unicode1, unicode2),
        decreases pairs@.len() - i,
    {
        let (first, second) = pairs[i];
        if first == unicode1 && second == unicode2 {
            return Some(i);
        }
        i = i + 1;
    }
    None
}

} // verus!
