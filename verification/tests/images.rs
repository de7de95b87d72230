use std::io::Cursor;

use dockman::glyphs::{glyph_pixels, lay_out_line, GlyphBox};
use dockman::icons::{generate_terminal_image_string, half_block_image_string, IconImage};
use dockman::raster::{half_block_icon_string, load_icon_rgba, load_image_pixels, load_image_raw_rgba, terminal_preview, Decoded};

fn red_png(w: u32, h: u32) -> Vec<u8> {
    let img = image::RgbaImage::from_pixel(w, h, image::Rgba([255, 0, 0, 255]));
    let mut out = Cursor::new(Vec::new());
    img.write_to(&mut out, image::ImageFormat::Png).unwrap();
    out.into_inner()
}

#[test]
fn raster_icons_are_decoded_and_scaled() {
    let png = red_png(4, 4);
    match load_image_raw_rgba("/icons/app.PNG", &png, 2) {
        Decoded::Pixels(w, h, p) => {
            assert_eq!((w, h), (2, 2));
            assert_eq!(p.len(), 16);
            assert_eq!(&p[0..4], &[255, 0, 0, 255]);
        },
        _ => panic!("a png decodes"),
    }
    assert!(matches!(load_image_raw_rgba("/icons/app.SVG", &png, 2), Decoded::Vector));
    assert!(matches!(load_image_raw_rgba("/icons/app", &png, 2), Decoded::Skipped));
    assert!(matches!(load_image_raw_rgba("/icons/app.png", b"not an image", 2), Decoded::Failed));
}

#[test]
fn the_extension_names_the_format() {
    let png = red_png(4, 4);
    assert!(matches!(load_image_raw_rgba("/icons/app.jpg", &png, 2), Decoded::Failed));
    assert!(matches!(load_image_raw_rgba("/icons/app.xyz", &png, 2), Decoded::Failed));
    assert!(load_icon_rgba("foot", Some(("foot.jpg", &png)), 8).is_none());
    assert!(terminal_preview("icon.jpg", &png).is_none());
}

#[test]
fn terminal_pixels_are_twice_as_wide_as_high() {
    let png = red_png(4, 4);
    match load_image_pixels("a.png", &png, 4) {
        Decoded::Pixels(w, h, p) => {
            assert_eq!((w, h), (4, 2));
            assert_eq!(p.len(), 24);
            assert_eq!(&p[0..3], &[255, 0, 0]);
        },
        _ => panic!("a png decodes"),
    }
    assert!(matches!(load_image_pixels("a.svg", &png, 4), Decoded::Vector));
    match load_image_pixels("a.png", &png, 16) {
        Decoded::Pixels(w, h, _) => assert_eq!((w, h), (16, 8)),
        _ => panic!("a png decodes"),
    }
}

#[test]
fn app_icons_keep_their_aspect() {
    let png = red_png(4, 2);
    assert!(load_icon_rgba("", Some(("foot.png", &png)), 8).is_none());
    assert!(load_icon_rgba("foot", None, 8).is_none());
    let (p, w, h) = load_icon_rgba("foot", Some(("foot.png", &png)), 8).expect("decodes");
    assert_eq!((w, h), (8, 4));
    assert_eq!(p.len(), 8 * 4 * 4);
    assert!(load_icon_rgba("foot", Some(("foot.png", b"junk")), 8).is_none());
}

#[test]
fn previews_use_half_blocks() {
    let png = red_png(2, 2);
    let s = terminal_preview("icon.png", &png).expect("decodes");
    assert!(s.starts_with("\x1b[38;2;255;0;0m\x1b[48;2;255;0;0m\u{2580}"));
    assert!(s.ends_with("\x1b[0m\n"));
    assert!(terminal_preview("icon.png", b"junk").is_none());
}

#[test]
fn half_blocks_pair_rows() {
    let rgb = vec![1, 2, 3, 4, 5, 6, 7, 8, 9];
    let s = half_block_image_string(1, 3, &rgb);
    assert_eq!(
        s,
        "\x1b[38;2;1;2;3m\x1b[48;2;4;5;6m\u{2580}\x1b[0m\n\x1b[38;2;7;8;9m\x1b[48;2;7;8;9m\u{2580}\x1b[0m\n"
    );
    assert_eq!(half_block_icon_string(false, None), "\u{1F4C1} [No Icon Found]");
    assert_eq!(half_block_icon_string(true, None), "\u{1F4C1} [Rasterize Error]");
    assert_eq!(half_block_icon_string(true, Some((1, 3, rgb))), s);
}

#[test]
fn kitty_command_carries_base64_pixels() {
    let img = IconImage::Rgba { width: 1, height: 1, pixels: vec![255, 0, 0, 255] };
    assert_eq!(generate_terminal_image_string(&img), "\x1b_Ga=T,f=32,s=1,v=1;/wAA/w==\x1b\\");
    assert_eq!(generate_terminal_image_string(&IconImage::NotFound), "\u{1F4C1} [No Icon Found]");
    assert_eq!(generate_terminal_image_string(&IconImage::Unreadable), "\u{1F4C1} [Rasterize Error]");
}

#[test]
fn glyph_pixels_land_below_the_baseline_origin() {
    let g = GlyphBox { width: 2, height: 2, xmin: 0, ymin: 0 };
    let bitmap = [0u8, 255, 128, 0];
    assert_eq!(glyph_pixels(64, 4, 4, &g, &bitmap, 1, 3), vec![(56, 1), (36, 2)]);
    let g = GlyphBox { width: 2, height: 2, xmin: -2, ymin: 1 };
    assert_eq!(glyph_pixels(64, 4, 4, &g, &bitmap, 1, 3), vec![(32, 1)]);
    assert_eq!(glyph_pixels(59, 4, 4, &GlyphBox { width: 2, height: 2, xmin: 0, ymin: 0 }, &bitmap, 1, 3), vec![(36, 2)]);
}

#[test]
fn pens_advance_and_stop_at_the_edge() {
    assert_eq!(lay_out_line(10, &vec![5, 7, 9], 20, true), (vec![10, 15], 22));
    assert_eq!(lay_out_line(10, &vec![5, 7, 9], 20, false), (vec![10, 15, 22], 31));
    assert_eq!(lay_out_line(10, &vec![], 20, true), (vec![], 10));
}
