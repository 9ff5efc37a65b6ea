//! Drawing text on a linear frame buffer: each glyph of the font is rendered
//! once into a cache, in the frame buffer's pixel format, and drawn by
//! copying its rows.
use vstd::prelude::*;
use vstd::arithmetic::power2::{pow2, lemma2_to64};
use crate::font::{PsfHeader, psf_header, font_well_formed, glyph_index, get_font_header, glyph_of, PSF_HEADER_SIZE};

verus! {

/// A frame buffer's geometry and where in a pixel its colour bytes are.
/// Each colour byte index is that of the colour's high-order byte.
#[derive(Clone, Copy, Debug, PartialEq, Eq, Structural)]
pub struct FrameBuffer {
    pub width: usize,
    pub height: usize,
    pub pitch: usize,
    pub bytes_per_pixel: u8,
    pub red_byte: u8,
    pub green_byte: u8,
    pub blue_byte: u8,
}

/// The colour bytes lie within a pixel.
pub open spec fn pixel_format_ok(frame_buffer: FrameBuffer) -> bool {
    &&& frame_buffer.bytes_per_pixel >= 1
    &&& frame_buffer.red_byte < frame_buffer.bytes_per_pixel
    &&& frame_buffer.green_byte < frame_buffer.bytes_per_pixel
    &&& frame_buffer.blue_byte < frame_buffer.bytes_per_pixel
}

/// Each glyph of the font takes the rows its header announces.
pub open spec fn glyphs_fit(header: PsfHeader) -> bool {
    header.height * ((header.width + 7) / 8) <= header.character_bytes
}

/// The pixel at column `x` and row `y` of glyph `glyph` is set. Rows are
/// stored byte-aligned, most significant bit first.
pub open spec fn glyph_bit(font: Seq<u8>, glyph: int, x: int, y: int) -> bool {
    let header = psf_header(font);
    let bytes_per_row = (header.width + 7) / 8;
    let byte = font[header.header_size + y * bytes_per_row + x / 8 + glyph * header.character_bytes];
    byte & (1u8 << ((7 - x % 8) as u8)) != 0
}

/// The colour byte of that pixel: all ones when set, else zero.
pub open spec fn glyph_color(font: Seq<u8>, glyph: int, x: int, y: int) -> u8 {
    if glyph_bit(font, glyph, x, y) {
        0xFF
    } else {
        0x00
    }
}

/// The size of a rendered glyph.
pub open spec fn rendered_size(frame_buffer: FrameBuffer, header: PsfHeader) -> int {
    header.width * header.height * frame_buffer.bytes_per_pixel
}

/// `old` with the first `n` pixels of glyph `glyph` rendered at `base`: the
/// colour bytes of each pixel take its colour, the other bytes stay.
pub open spec fn rendered_upto(
    old: Seq<u8>,
    frame_buffer: FrameBuffer,
    font: Seq<u8>,
    glyph: int,
    base: int,
    n: int,
) -> Seq<u8> {
    let bpp = frame_buffer.bytes_per_pixel as int;
    let width = psf_header(font).width as int;
    Seq::new(
        old.len(),
        |p: int|
            {
                let q = p - base;
                let offset = q % bpp;
                if 0 <= q < n * bpp && (offset == frame_buffer.red_byte || offset == frame_buffer.green_byte
                    || offset == frame_buffer.blue_byte) {
                    glyph_color(font, glyph, (q / bpp) % width, (q / bpp) / width)
                } else {
                    old[p]
                }
            },
    )
}

/// Where byte `k` of pixel `n` lies: in the pixel `n`, at offset `k`.
proof fn lemma_pixel_position(n: int, bpp: int, k: int)
    requires
        0 <= n,
        0 <= k < bpp,
    ensures
        (n * bpp + k) / bpp == n,
        (n * bpp + k) % bpp == k,
{
    vstd::arithmetic::div_mod::lemma_fundamental_div_mod_converse(n * bpp + k, bpp, n, k);
}

/// A byte before pixel `n` belongs to a pixel before `n`.
proof fn lemma_pixel_order(q: int, bpp: int, n: int)
    requires
        0 <= q,
        bpp > 0,
        0 <= n,
    ensures
        q < n * bpp <==> q / bpp < n,
        q < (n + 1) * bpp && !(q < n * bpp) ==> q / bpp == n,
{
    vstd::arithmetic::div_mod::lemma_fundamental_div_mod(q, bpp);
    vstd::arithmetic::div_mod::lemma_mod_pos_bound(q, bpp);
    let d = q / bpp;
    assert(q < n * bpp <==> d < n) by (nonlinear_arith)
        requires
            q == bpp * d + q % bpp,
            0 <= q % bpp < bpp,
            bpp > 0,
    ;
    assert(q < (n + 1) * bpp ==> d < n + 1) by (nonlinear_arith)
        requires
            q == bpp * d + q % bpp,
            0 <= q % bpp < bpp,
            bpp > 0,
    ;
}

/// Bit `s` of a byte, tested with a mask, is the bit of its value: the
/// value divided by the mask (a power of two) is odd.
proof fn lemma_byte_bit(byte: u8, s: u8)
    by (bit_vector)
    requires
        s < 8,
    ensures
        (byte & (1u8 << s) != 0) == ((byte / (1u8 << s)) % 2 == 1),
        s == 0 ==> 1u8 << s == 1,
        s == 1 ==> 1u8 << s == 2,
        s == 2 ==> 1u8 << s == 4,
        s == 3 ==> 1u8 << s == 8,
        s == 4 ==> 1u8 << s == 16,
        s == 5 ==> 1u8 << s == 32,
        s == 6 ==> 1u8 << s == 64,
        s == 7 ==> 1u8 << s == 128,
{
}

/// The rows of a glyph are stored byte-aligned and most significant bit
/// first, the leftmost pixel in the highest bit: once a glyph is rendered,
/// each colour byte of the pixel at column `x` of row `y` is all ones
/// exactly when bit `7 - x % 8` (counted from the lowest) of byte `x / 8`
/// of that row of the glyph is set, and zero otherwise.
pub proof fn law_glyph_rows_most_significant_bit_first(
    old: Seq<u8>,
    frame_buffer: FrameBuffer,
    font: Seq<u8>,
    glyph: int,
    base: int,
    x: int,
    y: int,
    color_byte: int,
)
    requires
        pixel_format_ok(frame_buffer),
        0 <= x < psf_header(font).width,
        0 <= y < psf_header(font).height,
        0 <= base,
        base + rendered_size(frame_buffer, psf_header(font)) <= old.len(),
        color_byte == frame_buffer.red_byte || color_byte == frame_buffer.green_byte || color_byte
            == frame_buffer.blue_byte,
    ensures
        ({
            let header = psf_header(font);
            let row_byte = font[header.header_size + y * ((header.width + 7) / 8) + x / 8 + glyph
                * header.character_bytes];
            let set = (row_byte as nat / pow2((7 - x % 8) as nat)) % 2 == 1;
            rendered_upto(old, frame_buffer, font, glyph, base, header.width * header.height)[base + (y
                * header.width + x) * frame_buffer.bytes_per_pixel + color_byte] == if set {
                0xFFu8
            } else {
                0x00u8
            }
        }),
{
    let header = psf_header(font);
    let w = header.width as int;
    let h = header.height as int;
    let bpp = frame_buffer.bytes_per_pixel as int;
    let n = y * w + x;
    assert(n < w * h) by (nonlinear_arith)
        requires
            0 <= y < h,
            0 <= x < w,
            n == y * w + x,
    ;
    assert((n + 1) * bpp <= w * h * bpp) by (nonlinear_arith)
        requires
            0 <= n < w * h,
            bpp >= 1,
    ;
    assert(n * bpp + bpp == (n + 1) * bpp) by (nonlinear_arith);
    assert(0 <= n * bpp) by (nonlinear_arith)
        requires
            0 <= n,
            bpp >= 1,
    ;
    lemma_pixel_position(n, bpp, color_byte);
    vstd::arithmetic::div_mod::lemma_fundamental_div_mod_converse(n, w, y, x);
    let q = n * bpp + color_byte;
    assert(q / bpp == n && q % bpp == color_byte);
    assert(glyph_color(font, glyph, (q / bpp) % w, (q / bpp) / w) == glyph_color(font, glyph, x, y));
    let row_byte = font[header.header_size + y * ((header.width + 7) / 8) + x / 8 + glyph * header.character_bytes];
    let s = (7 - x % 8) as u8;
    lemma_byte_bit(row_byte, s);
    lemma2_to64();
    assert(pow2((7 - x % 8) as nat) == (1u8 << s) as nat) by {
        if s == 0 {
        } else if s == 1 {
        } else if s == 2 {
        } else if s == 3 {
        } else if s == 4 {
        } else if s == 5 {
        } else if s == 6 {
        } else {
        }
    }
    assert(glyph_bit(font, glyph, x, y) == ((row_byte as nat / pow2((7 - x % 8) as nat)) % 2 == 1));
}

/// Renders glyph `glyph` of `font` at `base` in `buffer`, in the frame
/// buffer's pixel format.
pub fn render_glyph(frame_buffer: &FrameBuffer, font: &[u8], glyph: u32, buffer: &mut [u8], base: usize)
    requires
        pixel_format_ok(*frame_buffer),
        font_well_formed(font@),
        glyphs_fit(psf_header(font@)),
        glyph < psf_header(font@).glyph_count,
        base + rendered_size(*frame_buffer, psf_header(font@)) <= old(buffer)@.len(),
    ensures
        final(buffer)@ == rendered_upto(
            old(buffer)@,
            *frame_buffer,
            font@,
            glyph as int,
            base as int,
            psf_header(font@).width * psf_header(font@).height,
        ),
{
    let font_header = get_font_header(font);
    let width = font_header.width as usize;
    let height = font_header.height as usize;
    let bpp = frame_buffer.bytes_per_pixel as usize;
    let bytes_per_row = ((font_header.width as u64 + 7) / 8) as usize;
    let buffer_length = buffer.len();
    let ghost old_buffer = buffer@;
    let ghost fb = *frame_buffer;
    proof {
        let g = glyph as int;
        let n = font_header.glyph_count as int;
        let cb = font_header.character_bytes as int;
        assert((g + 1) * cb <= n * cb) by (nonlinear_arith)
            requires
                g < n,
                cb >= 0,
        ;
        assert(g * cb + cb == (g + 1) * cb) by (nonlinear_arith);
        assert(buffer@ == rendered_upto(old_buffer, fb, font@, glyph as int, base as int, 0));
    }
    let glyph_start = font_header.header_size as usize + glyph as usize * font_header.character_bytes as usize;
    let mut glyph_y: usize = 0;
    while glyph_y < height
        invariant
            glyph_y <= height,
            fb == *frame_buffer,
            pixel_format_ok(fb),
            font_header == psf_header(font@),
            width == font_header.width,
            height == font_header.height,
            bpp == fb.bytes_per_pixel,
            bytes_per_row == (font_header.width + 7) / 8,
            glyph_start + font_header.character_bytes <= font@.len(),
            glyph_start == font_header.header_size + glyph * font_header.character_bytes,
            glyphs_fit(font_header),
            font_well_formed(font@),
            base + width * height * bpp <= buffer@.len(),
            buffer@.len() == old_buffer.len(),
            buffer_length == buffer@.len(),
            buffer@ == rendered_upto(old_buffer, fb, font@, glyph as int, base as int, glyph_y * width),
        decreases height - glyph_y,
    {
        let mut glyph_x: usize = 0;
        while glyph_x < width
            invariant
                glyph_x <= width,
                glyph_y < height,
                fb == *frame_buffer,
                pixel_format_ok(fb),
                font_header == psf_header(font@),
                width == font_header.width,
                height == font_header.height,
                bpp == fb.bytes_per_pixel,
                bytes_per_row == (font_header.width + 7) / 8,
                glyph_start + font_header.character_bytes <= font@.len(),
                glyph_start == font_header.header_size + glyph * font_header.character_bytes,
                glyphs_fit(font_header),
                font_well_formed(font@),
                base + width * height * bpp <= buffer@.len(),
                buffer@.len() == old_buffer.len(),
                buffer_length == buffer@.len(),
                buffer@ == rendered_upto(old_buffer, fb, font@, glyph as int, base as int, glyph_y * width + glyph_x),
            decreases width - glyph_x,
        {
            let ghost n = glyph_y * width + glyph_x;
            proof {
                assert(glyph_y * bytes_per_row + glyph_x / 8 < height * bytes_per_row) by (nonlinear_arith)
                    requires
                        glyph_y < height,
                        glyph_x < width,
                        bytes_per_row == (width + 7) / 8,
                ;
                assert(glyph_y * bytes_per_row <= height * bytes_per_row) by (nonlinear_arith)
                    requires
                        glyph_y < height,
                ;
                assert(glyph_y * width <= height * width) by (nonlinear_arith)
                    requires
                        glyph_y < height,
                ;
                assert(width * height * bpp == (width * height) * bpp);
                assert(n < width * height) by (nonlinear_arith)
                    requires
                        glyph_y < height,
                        glyph_x < width,
                        n == glyph_y * width + glyph_x,
                ;
                assert((n + 1) * bpp <= width * height * bpp) by (nonlinear_arith)
                    requires
                        n < width * height,
                        bpp >= 1,
                ;
                assert(n * bpp + bpp == (n + 1) * bpp) by (nonlinear_arith);
                assert(height * bytes_per_row <= font_header.character_bytes);
                assert(glyph_start + glyph_y * bytes_per_row + glyph_x / 8 < font@.len());
                assert(base + n * bpp + bpp <= buffer_length);
                assert(n <= n * bpp) by (nonlinear_arith)
                    requires
                        bpp >= 1,
                        n >= 0,
                ;
            }
            let byte_index = glyph_y * bytes_per_row + glyph_x / 8;
            let byte = font[glyph_start + byte_index];
            // The rows are stored most significant bit first.
            let bit_index = 7 - glyph_x % 8;
            let bit = byte & (1u8 << (bit_index as u8)) != 0;
            // Every colour byte of the pixel takes the same value.
            let color: u8 = if bit { 0xFF } else { 0x00 };
            let pixel_index = (glyph_y * width + glyph_x) * bpp;
            let ghost before = buffer@;
            buffer[base + pixel_index + frame_buffer.red_byte as usize] = color;
            buffer[base + pixel_index + frame_buffer.green_byte as usize] = color;
            buffer[base + pixel_index + frame_buffer.blue_byte as usize] = color;
            proof {
                assert(color == glyph_color(font@, glyph as int, glyph_x as int, glyph_y as int));
                lemma_pixel_position(n, bpp as int, fb.red_byte as int);
                lemma_pixel_position(n, bpp as int, fb.green_byte as int);
                lemma_pixel_position(n, bpp as int, fb.blue_byte as int);
                vstd::arithmetic::div_mod::lemma_fundamental_div_mod_converse(n, width as int, glyph_y as int, glyph_x as int);
                let after = rendered_upto(old_buffer, fb, font@, glyph as int, base as int, n + 1);
                assert forall|p: int| 0 <= p < buffer@.len() implies buffer@[p] == after[p] by {
                    let q = p - base;
                    if 0 <= q {
                        lemma_pixel_order(q, bpp as int, n);
                        lemma_pixel_order(q, bpp as int, n + 1);
                        if q < (n + 1) * bpp && !(q < n * bpp) {
                            vstd::arithmetic::div_mod::lemma_fundamental_div_mod(q, bpp as int);
                            assert(q == n * bpp + q % (bpp as int)) by (nonlinear_arith)
                                requires
                                    q == bpp * (q / (bpp as int)) + q % (bpp as int),
                                    q / (bpp as int) == n,
                            ;
                        }
                    }
                }
                assert(buffer@ =~= after);
            }
            glyph_x = glyph_x + 1;
        }
        assert(glyph_y * width + width == (glyph_y + 1) * width) by (nonlinear_arith);
        glyph_y = glyph_y + 1;
    }
    assert(height * width == width * height) by (nonlinear_arith);
}

/// Renders `character` (the first glyph when the font does not have it)
/// at the start of `buffer`, in the frame buffer's pixel format.
///
/// This does not use the font's unicode table: it is meant for kernel
/// logging, and the character cache is too small for unicode.
pub fn render_character(frame_buffer: &FrameBuffer, font: &[u8], character: char, buffer: &mut [u8])
    requires
        pixel_format_ok(*frame_buffer),
        font_well_formed(font@),
        glyphs_fit(psf_header(font@)),
        psf_header(font@).glyph_count > 0,
        rendered_size(*frame_buffer, psf_header(font@)) <= old(buffer)@.len(),
    ensures
        final(buffer)@ == rendered_upto(
            old(buffer)@,
            *frame_buffer,
            font@,
            glyph_index(character, psf_header(font@).glyph_count) as int,
            0,
            psf_header(font@).width * psf_header(font@).height,
        ),
{
    let font_header = get_font_header(font);
    let glyph = glyph_of(character, font_header.glyph_count);
    render_glyph(frame_buffer, font, glyph, buffer, 0);
}

/// Where the rendered glyph `glyph` starts in the character cache.
pub fn get_character_cache_offset(frame_buffer: &FrameBuffer, font: &[u8], glyph_index: usize) -> (r: usize)
    requires
        font@.len() >= PSF_HEADER_SIZE,
        glyph_index * rendered_size(*frame_buffer, psf_header(font@)) <= usize::MAX,
    ensures
        r == glyph_index * rendered_size(*frame_buffer, psf_header(font@)),
{
    let font_header = get_font_header(font);
    let width = font_header.width as u128;
    let height = font_header.height as u128;
    let bpp = frame_buffer.bytes_per_pixel as u128;
    if glyph_index == 0 || width == 0 || height == 0 || bpp == 0 {
        proof {
            let w = width as int;
            let h = height as int;
            let b = bpp as int;
            assert(glyph_index * (w * h * b) == 0) by (nonlinear_arith)
                requires
                    glyph_index == 0 || w == 0 || h == 0 || b == 0,
            ;
        }
        return 0;
    }
    proof {
        let w = width as int;
        let h = height as int;
        let b = bpp as int;
        assert(w * h <= 0xffff_ffff * 0xffff_ffff) by (nonlinear_arith)
            requires
                0 <= w <= 0xffff_ffff,
                0 <= h <= 0xffff_ffff,
        ;
        assert(w * h * b <= 0xffff_ffff * 0xffff_ffff * 0xff) by (nonlinear_arith)
            requires
                0 <= w * h <= 0xffff_ffff * 0xffff_ffff,
                0 <= b <= 0xff,
        ;
        assert(w * h * b <= glyph_index * (w * h * b)) by (nonlinear_arith)
            requires
                glyph_index >= 1,
                w * h * b >= 0,
        ;
    }
    let size = width * height * bpp;
    glyph_index * size as usize
}

/// Byte `p` of the character cache: the glyphs, rendered one after the
/// other on a zeroed background.
pub open spec fn cache_byte(frame_buffer: FrameBuffer, font: Seq<u8>, p: int) -> u8 {
    let size = rendered_size(frame_buffer, psf_header(font));
    let base = (p / size) * size;
    rendered_upto(
        Seq::new((p + 1) as nat, |i: int| 0u8),
        frame_buffer,
        font,
        p / size,
        base,
        psf_header(font).width * psf_header(font).height,
    )[p]
}

/// The character cache: every glyph of the font, rendered in the frame
/// buffer's pixel format.
pub fn build_character_cache(frame_buffer: &FrameBuffer, font: &[u8]) -> (r: Vec<u8>)
    requires
        pixel_format_ok(*frame_buffer),
        font_well_formed(font@),
        glyphs_fit(psf_header(font@)),
        psf_header(font@).glyph_count * rendered_size(*frame_buffer, psf_header(font@)) <= usize::MAX,
    ensures
        r@.len() == psf_header(font@).glyph_count * rendered_size(*frame_buffer, psf_header(font@)),
        forall|p: int| 0 <= p < r@.len() ==> #[trigger] r@[p] == cache_byte(*frame_buffer, font@, p),
{
    let font_header = get_font_header(font);
    let glyph_count = font_header.glyph_count as usize;
    let total = get_character_cache_offset(frame_buffer, font, glyph_count);
    let ghost size = rendered_size(*frame_buffer, font_header);
    let mut cache: Vec<u8> = Vec::new();
    let mut k: usize = 0;
    while k < total
        invariant
            k <= total,
            cache@.len() == k,
            forall|p: int| 0 <= p < k ==> cache@[p] == 0,
        decreases total - k,
    {
        cache.push(0);
        k = k + 1;
    }
    let mut glyph: usize = 0;
    while glyph < glyph_count
        invariant
            glyph <= glyph_count,
            glyph_count == font_header.glyph_count,
            font_header == psf_header(font@),
            size == rendered_size(*frame_buffer, font_header),
            total == glyph_count * size,
            pixel_format_ok(*frame_buffer),
            font_well_formed(font@),
            glyphs_fit(font_header),
            cache@.len() == total,
            forall|p: int| 0 <= p < glyph * size ==> #[trigger] cache@[p] == cache_byte(*frame_buffer, font@, p),
            forall|p: int| glyph * size <= p < total ==> #[trigger] cache@[p] == 0,
        decreases glyph_count - glyph,
    {
        proof {
            assert(glyph * size + size <= total) by (nonlinear_arith)
                requires
                    glyph < glyph_count,
                    total == glyph_count * size,
                    size >= 0,
            ;
        }
        let base = get_character_cache_offset(frame_buffer, font, glyph);
        let ghost before = cache@;
        render_glyph(frame_buffer, font, glyph as u32, cache.as_mut_slice(), base);
        proof {
            let n = font_header.width * font_header.height;
            let bpp = frame_buffer.bytes_per_pixel as int;
            assert(size == n * bpp) by (nonlinear_arith)
                requires
                    size == font_header.width * font_header.height * bpp,
                    n == font_header.width * font_header.height,
            ;
            assert forall|p: int| 0 <= p < (glyph + 1) * size implies #[trigger] cache@[p] == cache_byte(
                *frame_buffer,
                font@,
                p,
            ) by {
                if p >= glyph * size {
                    assert(glyph * size + size == (glyph + 1) * size) by (nonlinear_arith);
                    vstd::arithmetic::div_mod::lemma_fundamental_div_mod_converse(p, size, glyph as int, p - glyph * size);
                    assert(before[p] == 0);
                }
            }
            assert forall|p: int| (glyph + 1) * size <= p < total implies #[trigger] cache@[p] == 0 by {
                assert(glyph * size + size == (glyph + 1) * size) by (nonlinear_arith);
            }
        }
        glyph = glyph + 1;
    }
    cache
}

/// The width and the height of a character.
pub fn get_character_dimensions(font: &[u8]) -> (r: (usize, usize))
    requires
        font@.len() >= PSF_HEADER_SIZE,
    ensures
        r.0 == psf_header(font@).width,
        r.1 == psf_header(font@).height,
{
    crate::font::get_character_dimensions(font)
}

/// The width and the height of the screen.
pub fn get_screen_dimensions(frame_buffer: &FrameBuffer) -> (r: (usize, usize))
    ensures
        r == (frame_buffer.width, frame_buffer.height),
{
    (frame_buffer.width, frame_buffer.height)
}

/// `old` with the first `n` bytes (row by row) of the rendered glyph
/// `glyph` of `cache` copied to column `x`, row `y` of the screen.
pub open spec fn drawn_upto(
    old: Seq<u8>,
    frame_buffer: FrameBuffer,
    font: Seq<u8>,
    cache: Seq<u8>,
    glyph: int,
    x: int,
    y: int,
    n: int,
) -> Seq<u8> {
    let header = psf_header(font);
    let bpp = frame_buffer.bytes_per_pixel as int;
    let pitch = frame_buffer.pitch as int;
    let row_length = header.width * bpp;
    let cache_start = glyph * rendered_size(frame_buffer, header);
    Seq::new(
        old.len(),
        |p: int|
            {
                let row = p / pitch - y;
                let column = p % pitch - x * bpp;
                if 0 <= row < header.height && 0 <= column < row_length && row * row_length + column < n {
                    cache[cache_start + row * row_length + column]
                } else {
                    old[p]
                }
            },
    )
}

/// The screen with `character` drawn at column `x`, row `y`: unchanged when
/// the character would not fit on the screen.
pub open spec fn drawn(
    old: Seq<u8>,
    frame_buffer: FrameBuffer,
    font: Seq<u8>,
    cache: Seq<u8>,
    character: char,
    x: int,
    y: int,
) -> Seq<u8> {
    let header = psf_header(font);
    if x + header.width > frame_buffer.width || y + header.height > frame_buffer.height {
        old
    } else {
        drawn_upto(
            old,
            frame_buffer,
            font,
            cache,
            glyph_index(character, header.glyph_count) as int,
            x,
            y,
            header.height * (header.width * frame_buffer.bytes_per_pixel),
        )
    }
}

/// Where byte `column` of row `row` of a character at `x`, `y` lies on the
/// screen, and back.
proof fn lemma_screen_position(p: int, pitch: int, y: int, row: int, x_bytes: int, column: int)
    requires
        0 <= y + row,
        0 <= x_bytes,
        0 <= column,
        x_bytes + column < pitch,
        p == (y + row) * pitch + x_bytes + column,
    ensures
        p / pitch == y + row,
        p % pitch == x_bytes + column,
{
    vstd::arithmetic::div_mod::lemma_fundamental_div_mod_converse(p, pitch, y + row, x_bytes + column);
}

/// Draws `character` (the first glyph when the font does not have it) at
/// column `x`, row `y` of the screen `pixels`, copying its rows from the
/// character cache; nothing is drawn when it would not fit on the screen.
pub fn draw_character(
    frame_buffer: &FrameBuffer,
    pixels: &mut [u8],
    font: &[u8],
    cache: &[u8],
    character: char,
    x: usize,
    y: usize,
)
    requires
        font_well_formed(font@),
        psf_header(font@).glyph_count > 0,
        frame_buffer.pitch >= frame_buffer.width * frame_buffer.bytes_per_pixel,
        frame_buffer.height * frame_buffer.pitch <= old(pixels)@.len(),
        cache@.len() == psf_header(font@).glyph_count * rendered_size(*frame_buffer, psf_header(font@)),
    ensures
        final(pixels)@ == drawn(old(pixels)@, *frame_buffer, font@, cache@, character, x as int, y as int),
{
    let font_header = get_font_header(font);
    let character_width = font_header.width as usize;
    let character_height = font_header.height as usize;
    let glyph = glyph_of(character, font_header.glyph_count) as usize;
    let (screen_width, screen_height) = get_screen_dimensions(frame_buffer);
    if x > screen_width || character_width > screen_width - x || y > screen_height || character_height
        > screen_height - y {
        return;
    }
    let bpp = frame_buffer.bytes_per_pixel as usize;
    let pitch = frame_buffer.pitch;
    let cache_length = cache.len();
    let pixels_length = pixels.len();
    let ghost old_pixels = pixels@;
    let ghost fb = *frame_buffer;
    let ghost rs = rendered_size(fb, font_header);
    proof {
        let w = character_width as int;
        let h = character_height as int;
        let b = bpp as int;
        assert(rs == h * (w * b)) by (nonlinear_arith)
            requires
                rs == w * h * b,
        ;
        assert((glyph + 1) * rs <= font_header.glyph_count * rs) by (nonlinear_arith)
            requires
                glyph < font_header.glyph_count,
                rs >= 0,
        ;
        assert(glyph * rs + rs == (glyph + 1) * rs) by (nonlinear_arith);
        assert((x + w) * b <= screen_width * b) by (nonlinear_arith)
            requires
                x + w <= screen_width,
                b >= 0,
        ;
        assert(x * b + w * b == (x + w) * b) by (nonlinear_arith);
        assert((y + h) * pitch <= screen_height * pitch) by (nonlinear_arith)
            requires
                y + h <= screen_height,
                pitch >= 0,
        ;
        assert(pixels@ == drawn_upto(old_pixels, fb, font@, cache@, glyph as int, x as int, y as int, 0));
    }
    let row_length = character_width * bpp;
    assert(glyph * rs <= cache_length);
    let cache_start = get_character_cache_offset(frame_buffer, font, glyph);
    let mut row: usize = 0;
    while row < character_height
        invariant
            row <= character_height,
            fb == *frame_buffer,
            font_header == psf_header(font@),
            character_width == font_header.width,
            character_height == font_header.height,
            bpp == fb.bytes_per_pixel,
            pitch == fb.pitch,
            glyph == glyph_index(character, font_header.glyph_count),
            x + character_width <= fb.width,
            y + character_height <= fb.height,
            fb.pitch >= fb.width * fb.bytes_per_pixel,
            fb.height * fb.pitch <= pixels@.len(),
            pixels@.len() == old_pixels.len(),
            row_length == character_width * bpp,
            x * bpp + row_length <= pitch,
            (y + character_height) * pitch <= pixels@.len(),
            rs == character_height * row_length,
            rs == rendered_size(fb, font_header),
            cache_start == glyph * rs,
            cache_start + rs <= cache@.len(),
            cache_length == cache@.len(),
            pixels_length == pixels@.len(),
            pixels@ == drawn_upto(old_pixels, fb, font@, cache@, glyph as int, x as int, y as int, row * row_length),
        decreases character_height - row,
    {
        proof {
            assert((y + row + 1) * pitch <= (y + character_height) * pitch) by (nonlinear_arith)
                requires
                    row < character_height,
                    pitch >= 0,
            ;
            assert((y + row) * pitch + pitch == (y + row + 1) * pitch) by (nonlinear_arith);
            assert(row * row_length + row_length <= character_height * row_length) by (nonlinear_arith)
                requires
                    row < character_height,
                    row_length >= 0,
            ;
        }
        let row_cache = cache_start + row * row_length;
        let row_pixels = (y + row) * pitch + x * bpp;
        let mut k: usize = 0;
        while k < row_length
            invariant
                k <= row_length,
                row < character_height,
                fb == *frame_buffer,
                font_header == psf_header(font@),
                character_width == font_header.width,
                character_height == font_header.height,
                bpp == fb.bytes_per_pixel,
                pitch == fb.pitch,
                glyph == glyph_index(character, font_header.glyph_count),
                pixels@.len() == old_pixels.len(),
                row_length == character_width * bpp,
                x * bpp + row_length <= pitch,
                (y + row) * pitch + pitch <= pixels@.len(),
                rs == character_height * row_length,
                rs == rendered_size(fb, font_header),
                cache_start == glyph * rs,
                row * row_length + row_length <= rs,
                cache_start + rs <= cache@.len(),
                row_cache == cache_start + row * row_length,
                cache_length == cache@.len(),
                pixels_length == pixels@.len(),
                row_pixels == (y + row) * pitch + x * bpp,
                pixels@ == drawn_upto(
                    old_pixels,
                    fb,
                    font@,
                    cache@,
                    glyph as int,
                    x as int,
                    y as int,
                    row * row_length + k,
                ),
            decreases row_length - k,
        {
            let ghost n = row * row_length + k;
            let ghost before = pixels@;
            let value = cache[row_cache + k];
            pixels[row_pixels + k] = value;
            proof {
                assert(pixels@ == before.update(row_pixels + k, value));
                assert(value == cache@[cache_start + n]);
                let pitch_i = pitch as int;
                let xb = (x * bpp) as int;
                lemma_screen_position(row_pixels + k, pitch_i, y as int, row as int, xb, k as int);
                let after = drawn_upto(old_pixels, fb, font@, cache@, glyph as int, x as int, y as int, n + 1);
                let pos = row_pixels + k;
                assert forall|p: int| 0 <= p < pixels@.len() implies pixels@[p] == after[p] by {
                    let r = p / pitch_i - y;
                    let c = p % pitch_i - xb;
                    if p == pos {
                        assert(r == row && c == k);
                        let spec_length = psf_header(font@).width * (fb.bytes_per_pixel as int);
                        assert(spec_length == row_length);
                        assert(r * spec_length + c == n);
                        assert(0 <= r < psf_header(font@).height && 0 <= c < spec_length);
                        assert(after[p] == cache@[glyph * rendered_size(fb, psf_header(font@)) + r * spec_length + c]);
                        assert(r * spec_length == row * row_length) by (nonlinear_arith)
                            requires
                                r == row,
                                spec_length == row_length,
                        ;
                        assert(glyph * rendered_size(fb, psf_header(font@)) == cache_start);
                        assert(after[p] == cache@[cache_start + row * row_length + k]);
                    } else {
                        assert(pixels@[p] == before[p]);
                        if 0 <= r < character_height && 0 <= c < row_length && r * row_length + c == n {
                            vstd::arithmetic::div_mod::lemma_fundamental_div_mod_converse(n, row_length as int, row as int, k as int);
                            vstd::arithmetic::div_mod::lemma_fundamental_div_mod_converse(n, row_length as int, r, c);
                            vstd::arithmetic::div_mod::lemma_fundamental_div_mod(p, pitch_i);
                            assert(p == (y + row) * pitch_i + xb + k) by (nonlinear_arith)
                                requires
                                    p == pitch_i * (p / pitch_i) + p % pitch_i,
                                    p / pitch_i == y + r,
                                    p % pitch_i == xb + c,
                                    r == row,
                                    c == k,
                            ;
                            assert(false);
                        }
                        assert(before[p] == after[p]);
                    }
                }
                assert(pixels@ =~= after);
            }
            k = k + 1;
        }
        assert(row * row_length + row_length == (row + 1) * row_length) by (nonlinear_arith);
        row = row + 1;
    }
}

} // verus!
