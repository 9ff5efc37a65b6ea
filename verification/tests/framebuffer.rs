use osmium::font::{get_character_dimensions, get_font_header, get_glyph_bitmap, get_glyph_count, glyph_of};
use osmium::framebuffer::{
    build_character_cache, draw_character, get_character_cache_offset, get_screen_dimensions, render_character,
    FrameBuffer,
};

/// A font of two glyphs, 3 pixels wide and 2 high.
fn font() -> Vec<u8> {
    let mut bytes = Vec::new();
    for value in [0x864a_b572u32, 0, 32, 0, 2, 2, 2, 3] {
        bytes.extend_from_slice(&value.to_le_bytes());
    }
    bytes.extend_from_slice(&[0b1010_0000, 0b0100_0000]);
    bytes.extend_from_slice(&[0b1110_0000, 0b0000_0000]);
    bytes
}

fn frame_buffer() -> FrameBuffer {
    FrameBuffer { width: 4, height: 3, pitch: 16, bytes_per_pixel: 3, red_byte: 2, green_byte: 1, blue_byte: 0 }
}

#[test]
fn font_header_and_glyphs() {
    let font = font();
    let header = get_font_header(&font);
    assert_eq!(header.header_size, 32);
    assert_eq!(header.character_bytes, 2);
    assert_eq!(get_character_dimensions(&font), (3, 2));
    assert_eq!(get_glyph_count(&font), 2);
    assert_eq!(get_glyph_bitmap(&font, '\u{1}'), &[0b1110_0000, 0]);
    // A character the font does not have is drawn as the first glyph.
    assert_eq!(get_glyph_bitmap(&font, 'A'), &[0b1010_0000, 0b0100_0000]);
    assert_eq!(glyph_of('A', 2), 0);
    assert_eq!(glyph_of('\u{1}', 2), 1);
}

#[test]
fn characters_render_in_the_pixel_format() {
    let font = font();
    let mut buffer = vec![7u8; 18];
    render_character(&frame_buffer(), &font, 'A', &mut buffer);
    // Glyph 0: row 0 is 101, row 1 is 010; every colour byte of a pixel takes its colour.
    assert_eq!(
        buffer,
        vec![0xff, 0xff, 0xff, 0, 0, 0, 0xff, 0xff, 0xff, 0, 0, 0, 0xff, 0xff, 0xff, 0, 0, 0]
    );
    let mut buffer = vec![7u8; 24];
    let spaced = FrameBuffer { bytes_per_pixel: 4, ..frame_buffer() };
    render_character(&spaced, &font, '\u{1}', &mut buffer);
    assert_eq!(&buffer[0..4], &[0xff, 0xff, 0xff, 7]);
    assert_eq!(&buffer[12..16], &[0, 0, 0, 7]);
}

#[test]
fn cache_holds_every_glyph() {
    let font = font();
    let cache = build_character_cache(&frame_buffer(), &font);
    assert_eq!(cache.len(), 36);
    assert_eq!(get_character_cache_offset(&frame_buffer(), &font, 1), 18);
    assert_eq!(&cache[18..27], &[0xff; 9]);
    assert_eq!(&cache[27..36], &[0; 9]);
    assert_eq!(&cache[0..3], &[0xff; 3]);
}

#[test]
fn characters_are_drawn_from_the_cache() {
    let font = font();
    let fb = frame_buffer();
    assert_eq!(get_screen_dimensions(&fb), (4, 3));
    let cache = build_character_cache(&fb, &font);
    let mut pixels = vec![1u8; 48];
    draw_character(&fb, &mut pixels, &font, &cache, '\u{1}', 1, 1);
    assert_eq!(&pixels[16..19], &[1, 1, 1]);
    assert_eq!(&pixels[19..28], &[0xff; 9]);
    assert_eq!(&pixels[28..32], &[1; 4]);
    assert_eq!(&pixels[35..44], &[0; 9]);
    assert_eq!(&pixels[0..16], &[1; 16]);
    // A character that would not fit is not drawn.
    let before = pixels.clone();
    draw_character(&fb, &mut pixels, &font, &cache, 'A', 2, 0);
    assert_eq!(pixels, before);
}

#[test]
fn a_font_without_glyphs_still_has_room_for_the_first() {
    let mut font = Vec::new();
    for value in [0x864a_b572u32, 0, 32, 0, 0, 2, 2, 3] {
        font.extend_from_slice(&value.to_le_bytes());
    }
    font.extend_from_slice(&[0b0110_0000, 0b1000_0000]);
    assert_eq!(get_glyph_count(&font), 0);
    assert_eq!(get_glyph_bitmap(&font, 'x'), &[0b0110_0000, 0b1000_0000]);
}
