use chess_menu::assets::{carregar_png_ou_fallback, fallback_icon, first_parsable_font, image_or_fallback};

fn pixel(p: &[u8], x: usize, y: usize) -> [u8; 4] {
    let i = (y * 64 + x) * 4;
    [p[i], p[i + 1], p[i + 2], p[i + 3]]
}

#[test]
fn drawn_icon_has_frame_cross_and_background() {
    let cor = [200, 10, 20, 255];
    let img = fallback_icon(cor);
    assert_eq!((img.width, img.height, img.pixels.len()), (64, 64, 16384));
    assert_eq!(pixel(&img.pixels, 0, 0), cor);
    assert_eq!(pixel(&img.pixels, 3, 30), cor);
    assert_eq!(pixel(&img.pixels, 60, 30), cor);
    assert_eq!(pixel(&img.pixels, 30, 30), cor);
    assert_eq!(pixel(&img.pixels, 31, 32), cor);
    assert_eq!(pixel(&img.pixels, 20, 43), cor);
    assert_eq!(pixel(&img.pixels, 10, 30), [40, 40, 46, 255]);
    assert_eq!(pixel(&img.pixels, 30, 36), [40, 40, 46, 255]);
    assert_eq!(pixel(&img.pixels, 5, 20), [40, 40, 46, 255]);
}

#[test]
fn missing_or_broken_file_gives_the_drawn_icon() {
    let cor = [1, 2, 3, 4];
    let drawn = fallback_icon(cor);
    let missing = carregar_png_ou_fallback(None, cor);
    assert_eq!(missing.pixels, drawn.pixels);
    let broken = carregar_png_ou_fallback(Some(b"not an image".to_vec()), cor);
    assert_eq!((broken.width, broken.height), (64, 64));
    assert_eq!(broken.pixels, drawn.pixels);
}

#[test]
fn png_bytes_are_decoded() {
    let raw: Vec<u8> = vec![255, 0, 0, 255, 0, 255, 0, 128];
    let img = image::RgbaImage::from_raw(2, 1, raw.clone()).unwrap();
    let mut bytes: Vec<u8> = Vec::new();
    img.write_to(&mut std::io::Cursor::new(&mut bytes), image::ImageFormat::Png).unwrap();
    let loaded = carregar_png_ou_fallback(Some(bytes), [9, 9, 9, 9]);
    assert_eq!((loaded.width, loaded.height), (2, 1));
    assert_eq!(loaded.pixels, raw);
}

#[test]
fn decoded_image_is_kept_as_given() {
    let img = image_or_fallback(Some((1, 1, vec![5, 6, 7, 8])), [0, 0, 0, 0]);
    assert_eq!((img.width, img.height, img.pixels), (1, 1, vec![5, 6, 7, 8]));
    let drawn = image_or_fallback(None, [0, 0, 0, 0]);
    assert_eq!((drawn.width, drawn.height), (64, 64));
}

#[test]
fn no_font_among_unreadable_or_broken_candidates() {
    assert!(first_parsable_font(vec![]).is_none());
    assert!(first_parsable_font(vec![None, Some(b"not a font".to_vec()), None]).is_none());
}
