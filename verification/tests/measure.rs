use kozue::measure::{advance_units, advances};

fn be16(out: &mut Vec<u8>, v: u16) {
    out.extend_from_slice(&v.to_be_bytes());
}

fn be32(out: &mut Vec<u8>, v: u32) {
    out.extend_from_slice(&v.to_be_bytes());
}

const UNITS_PER_EM: u16 = 2048;

/// The advances of the glyphs: none, and those of `a` to `z`.
fn glyph_advances() -> Vec<u16> {
    (0..27).map(|i| 500 + 10 * i).collect()
}

/// A font with the letters `a` to `z`, and nothing but their advances.
fn font() -> Vec<u8> {
    let glyphs = glyph_advances();

    let mut head = Vec::new();
    be32(&mut head, 0x0001_0000); // version
    be32(&mut head, 0x0001_0000); // revision
    be32(&mut head, 0); // checksum adjustment
    be32(&mut head, 0x5F0F_3CF5); // magic
    be16(&mut head, 0); // flags
    be16(&mut head, UNITS_PER_EM);
    head.extend_from_slice(&[0; 16]); // dates
    head.extend_from_slice(&[0; 8]); // bounding box
    for v in [0, 8, 2, 0, 0] {
        be16(&mut head, v); // style, smallest size, direction, location format, data format
    }

    let mut hhea = Vec::new();
    be32(&mut hhea, 0x0001_0000);
    hhea.extend_from_slice(&[0; 30]);
    be16(&mut hhea, glyphs.len() as u16);

    let mut maxp = Vec::new();
    be32(&mut maxp, 0x0000_5000);
    be16(&mut maxp, glyphs.len() as u16);

    let mut hmtx = Vec::new();
    for &advance in &glyphs {
        be16(&mut hmtx, advance);
        be16(&mut hmtx, 0);
    }

    // One trimmed table for Unicode.
    let mut cmap = Vec::new();
    for v in [0, 1, 0, 3] {
        be16(&mut cmap, v);
    }
    be32(&mut cmap, 12);
    for v in [6, 10 + 2 * 26, 0, 'a' as u16, 26] {
        be16(&mut cmap, v);
    }
    for glyph in 1..=26 {
        be16(&mut cmap, glyph);
    }

    let tables: [(&[u8; 4], Vec<u8>); 5] =
        [(b"cmap", cmap), (b"head", head), (b"hhea", hhea), (b"hmtx", hmtx), (b"maxp", maxp)];
    let mut out = Vec::new();
    be32(&mut out, 0x0001_0000);
    for v in [tables.len() as u16, 64, 2, 16] {
        be16(&mut out, v);
    }
    let mut offset = 12 + 16 * tables.len() as u32;
    for (tag, data) in &tables {
        out.extend_from_slice(*tag);
        be32(&mut out, 0);
        be32(&mut out, offset);
        be32(&mut out, data.len() as u32);
        offset += (data.len() as u32 + 3) / 4 * 4;
    }
    for (_, data) in &tables {
        out.extend_from_slice(data);
        while out.len() % 4 != 0 {
            out.push(0);
        }
    }
    out
}

/// The width and the height of `text` at `font_size`.
fn measure(text: &str, font_size: f64) -> (f64, f64) {
    let (advances, units_per_em) = advances(text, &font()).expect("the font parses");
    let width = advances.iter().map(|&a| a as f64 / units_per_em as f64 * font_size).sum();
    (width, font_size * 1.2)
}

#[test]
fn empty_string_has_zero_width() {
    let (w, h) = measure("", 16.0);
    assert_eq!(w, 0.0);
    assert!((h - 16.0 * 1.2).abs() < 1e-9);
}

#[test]
fn ascii_width_is_positive_and_scales() {
    let (w1, _) = measure("Hello", 16.0);
    let (w2, _) = measure("Hello", 32.0);
    assert!(w1 > 0.0);
    // Width scales linearly with font size.
    assert!((w2 - w1 * 2.0).abs() < 1e-6);
}

#[test]
fn wider_text_is_wider() {
    let (short, _) = measure("i", 16.0);
    let (long, _) = measure("iiiiii", 16.0);
    assert!(long > short);
}

#[test]
fn japanese_uses_one_em_fallback() {
    // Each missing glyph contributes exactly font_size (1 em).
    let font_size = 20.0;
    let (w, _) = measure("開始", font_size);
    assert!((w - 2.0 * font_size).abs() < 1e-9);
}

#[test]
fn advances_are_those_of_the_font() {
    let glyphs = glyph_advances();
    assert_eq!(
        advances("abz開", &font()),
        Some((vec![glyphs[1], glyphs[2], glyphs[26], UNITS_PER_EM], UNITS_PER_EM))
    );
}

#[test]
fn bytes_that_are_no_font_have_no_advances() {
    assert_eq!(advances("a", b"no font"), None);
    assert_eq!(advances("", &[]), None);
}

#[test]
fn a_missing_advance_is_one_em() {
    assert_eq!(advance_units(Some(7), 100), 7);
    assert_eq!(advance_units(None, 100), 100);
}
