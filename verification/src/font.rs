//! The PC Screen Font (version 2) that the kernel draws text with: its
//! header, and the bitmap of each glyph.
use vstd::prelude::*;
use crate::bytes::{le_value, read_u32};

verus! {

/// The size of the font header.
pub const PSF_HEADER_SIZE: usize = 32;

/// The fields of the font header that drawing needs.
#[derive(Clone, Copy, Debug, PartialEq, Eq, Structural)]
pub struct PsfHeader {
    pub header_size: u32,
    pub glyph_count: u32,
    pub character_bytes: u32,
    pub height: u32,
    pub width: u32,
}

/// The header at the start of `font`.
pub open spec fn psf_header(font: Seq<u8>) -> PsfHeader {
    PsfHeader {
        header_size: le_value(font, 8, 4) as u32,
        glyph_count: le_value(font, 16, 4) as u32,
        character_bytes: le_value(font, 20, 4) as u32,
        height: le_value(font, 24, 4) as u32,
        width: le_value(font, 28, 4) as u32,
    }
}

/// The font holds its header and every glyph its header announces.
pub open spec fn font_well_formed(font: Seq<u8>) -> bool {
    let header = psf_header(font);
    &&& font.len() >= PSF_HEADER_SIZE
    &&& header.header_size + header.glyph_count * header.character_bytes <= font.len()
    &&& font.len() <= usize::MAX
}

/// The glyph drawn for `character`: its own when the font has it, else the
/// first one.
pub open spec fn glyph_index(character: char, glyph_count: u32) -> nat {
    if (character as u32) < glyph_count {
        character as nat
    } else {
        0
    }
}

/// The header of `font`.
pub fn get_font_header(font: &[u8]) -> (r: PsfHeader)
    requires
        font@.len() >= PSF_HEADER_SIZE,
    ensures
        r == psf_header(font@),
{
    PsfHeader {
        header_size: read_u32(font, 8),
        glyph_count: read_u32(font, 16),
        character_bytes: read_u32(font, 20),
        height: read_u32(font, 24),
        width: read_u32(font, 28),
    }
}

/// The width and the height of a glyph.
pub fn get_character_dimensions(font: &[u8]) -> (r: (usize, usize))
    requires
        font@.len() >= PSF_HEADER_SIZE,
    ensures
        r.0 == psf_header(font@).width,
        r.1 == psf_header(font@).height,
{
    let font_header = get_font_header(font);
    (font_header.width as usize, font_header.height as usize)
}

/// The number of glyphs.
pub fn get_glyph_count(font: &[u8]) -> (r: usize)
    requires
        font@.len() >= PSF_HEADER_SIZE,
    ensures
        r == psf_header(font@).glyph_count,
{
    let font_header = get_font_header(font);
    font_header.glyph_count as usize
}

/// The glyph index of `character` in a font of `glyph_count` glyphs.
pub fn glyph_of(character: char, glyph_count: u32) -> (r: u32)
    ensures
        r == glyph_index(character, glyph_count),
        glyph_count > 0 ==> r < glyph_count,
{
    let code = character as u32;
    if code < glyph_count {
        code
    } else {
        0
    }
}

/// The font holds the bitmap of glyph 0, which characters it has no glyph
/// for are drawn with: it has a glyph, or room for one after the header.
pub open spec fn has_first_glyph(font: Seq<u8>) -> bool {
    psf_header(font).glyph_count > 0 || psf_header(font).header_size + psf_header(font).character_bytes <= font.len()
}

/// The bitmap of the glyph for `character` (the first glyph for a
/// character the font does not have).
pub fn get_glyph_bitmap(font: &[u8], character: char) -> (r: &[u8])
    requires
        font_well_formed(font@),
        has_first_glyph(font@),
    ensures
        ({
            let header = psf_header(font@);
            let start = header.header_size + glyph_index(character, header.glyph_count) * header.character_bytes;
            r@ == font@.subrange(start, start + header.character_bytes)
        }),
{
    let font_header = get_font_header(font);
    let glyph = glyph_of(character, font_header.glyph_count) as usize;
    let header_size = font_header.header_size as usize;
    let character_bytes = font_header.character_bytes as usize;
    proof {
        let g = glyph as int;
        let n = font_header.glyph_count as int;
        let cb = character_bytes as int;
        if n > 0 {
            assert((g + 1) * cb <= n * cb) by (nonlinear_arith)
                requires
                    g < n,
                    cb >= 0,
            ;
        }
        assert(g * cb + cb == (g + 1) * cb) by (nonlinear_arith);
    }
    &font[header_size + glyph * character_bytes..header_size + (glyph + 1) * character_bytes]
}

/// The bitmap of the glyph drawn for `character`, as `get_glyph_bitmap`
/// gives it.
pub open spec fn glyph_bitmap(font: Seq<u8>, character: char) -> Seq<u8> {
    let header = psf_header(font);
    let start = header.header_size + glyph_index(character, header.glyph_count) * header.character_bytes;
    font.subrange(start, start + header.character_bytes)
}

/// Every glyph bitmap of a well-formed font has `character_bytes` bytes; a
/// character the font has no glyph for is drawn as the character 0, and
/// one it has is its own slice of the font.
pub proof fn law_glyph_bitmaps(font: Seq<u8>, character: char)
    requires
        font_well_formed(font),
        has_first_glyph(font),
    ensures
        glyph_bitmap(font, character).len() == psf_header(font).character_bytes,
        (character as u32) >= psf_header(font).glyph_count ==> glyph_bitmap(font, character) == glyph_bitmap(
            font,
            0 as char,
        ),
        (character as u32) < psf_header(font).glyph_count ==> glyph_bitmap(font, character) == font.subrange(
            psf_header(font).header_size + (character as u32) * psf_header(font).character_bytes,
            psf_header(font).header_size + (character as u32) * psf_header(font).character_bytes
                + psf_header(font).character_bytes,
        ),
{
    let header = psf_header(font);
    let g = glyph_index(character, header.glyph_count);
    if header.glyph_count > 0 {
        assert(g < header.glyph_count);
        assert(g * header.character_bytes + header.character_bytes <= header.glyph_count * header.character_bytes)
            by (nonlinear_arith)
            requires
                g < header.glyph_count,
        ;
    }
}

} // verus!
