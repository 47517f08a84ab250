use dowse::tray::decode_rgba_png;

fn encode(width: u32, height: u32, color: png::ColorType, data: &[u8]) -> Vec<u8> {
    let mut out = Vec::new();
    {
        let mut enc = png::Encoder::new(&mut out, width, height);
        enc.set_color(color);
        enc.set_depth(png::BitDepth::Eight);
        let mut writer = enc.write_header().unwrap();
        writer.write_image_data(data).unwrap();
    }
    out
}

#[test]
fn rgb_icon_becomes_opaque_rgba() {
    let png_bytes = encode(2, 1, png::ColorType::Rgb, &[1, 2, 3, 4, 5, 6]);
    let (rgba, w, h) = decode_rgba_png(&png_bytes).expect("a valid RGB png");
    assert_eq!((w, h), (2, 1));
    assert_eq!(rgba, vec![1, 2, 3, 255, 4, 5, 6, 255]);
}

#[test]
fn rgba_icon_is_kept_as_is() {
    let png_bytes = encode(1, 1, png::ColorType::Rgba, &[9, 8, 7, 6]);
    assert_eq!(decode_rgba_png(&png_bytes), Some((vec![9, 8, 7, 6], 1, 1)));
}

#[test]
fn other_colour_types_and_garbage_are_refused() {
    let gray = encode(1, 1, png::ColorType::Grayscale, &[5]);
    assert_eq!(decode_rgba_png(&gray), None);
    assert_eq!(decode_rgba_png(b"not a png"), None);
}
