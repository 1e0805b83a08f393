use ferail_gpui::image_edit::load::{decode_for_save, prepare_for_edit, LoadOutcome};
use ferail_gpui::image_edit::{
    edited_copy_leaf, editable_image_name, encode_image, flatten_alpha, needs_display_copy,
    save_extension, stroke_color, too_large_to_edit, EditMode,
};

#[test]
fn jpeg_encode_flattens_alpha_and_extension_gate_works() {
    let rgba = vec![255u8; 4 * 4 * 4];
    assert!(encode_image(&rgba, 4, 4, "jpg").is_ok());
    assert!(encode_image(&rgba, 4, 4, "png").is_ok());
    assert!(editable_image_name("a.PNG"));
    assert!(editable_image_name("photo.jpeg"));
    assert!(!editable_image_name("clip.gif"));
    assert!(!editable_image_name("doc.txt"));
    assert!(!editable_image_name("noext"));
}

#[test]
fn encoded_bytes_are_real_images_in_the_asked_format() {
    let rgba: Vec<u8> = (0..(8 * 8)).flat_map(|i| [i as u8, 0, 255 - i as u8, 128]).collect();
    let jpg = encode_image(&rgba, 8, 8, "jpeg").unwrap();
    assert_eq!(&jpg[..2], &[0xFF, 0xD8]);
    let png = encode_image(&rgba, 8, 8, "png").unwrap();
    assert_eq!(&png[..8], b"\x89PNG\r\n\x1a\n");
    let decoded = image::load_from_memory(&png).unwrap().to_rgba8();
    assert_eq!(decoded.as_raw(), &rgba);
    // An extension the crate does not know is written as PNG.
    let unknown = encode_image(&rgba, 8, 8, "zzz").unwrap();
    assert_eq!(&unknown[..8], b"\x89PNG\r\n\x1a\n");
    let bmp = encode_image(&rgba, 8, 8, "bmp").unwrap();
    assert_eq!(&bmp[..2], b"BM");
    let tif = encode_image(&rgba, 8, 8, "TIF").unwrap();
    assert!(&tif[..4] == b"II*\0" || &tif[..4] == b"MM\0*");
    // A format this build has no encoder for is an error, not PNG bytes.
    assert!(encode_image(&rgba, 8, 8, "gif").is_err());
}

#[test]
fn a_short_buffer_is_refused() {
    let rgba = vec![0u8; 4 * 3];
    assert_eq!(encode_image(&rgba, 2, 2, "png").unwrap_err(), "buffer size mismatch");
}

#[test]
fn alpha_is_dropped_pixel_by_pixel() {
    assert_eq!(flatten_alpha(&[1, 2, 3, 4, 5, 6, 7, 8, 9]), vec![1, 2, 3, 5, 6, 7]);
    assert!(flatten_alpha(&[]).is_empty());
}

#[test]
fn size_limits_for_editing_and_preview() {
    assert!(!too_large_to_edit(8000, 8000));
    assert!(too_large_to_edit(8001, 8000));
    assert!(!too_large_to_edit(u32::MAX, 0));
    assert!(needs_display_copy(2049, 10));
    assert!(needs_display_copy(10, 4000));
    assert!(!needs_display_copy(2048, 2048));
}

#[test]
fn stroke_colours() {
    assert_eq!(stroke_color(EditMode::Redact, 3), (0, 0, 0));
    assert_eq!(stroke_color(EditMode::Annotate, 0), (0xE5, 0x3E, 0x3E));
    assert_eq!(stroke_color(EditMode::Annotate, 4), (0x2B, 0x6C, 0xE5));
    assert_eq!(stroke_color(EditMode::Annotate, 99), (0, 0, 0));
}

#[test]
fn saved_copies_are_named_beside_the_original() {
    assert_eq!(edited_copy_leaf("photo", "edited", "png", 1), "photo edited.png");
    assert_eq!(edited_copy_leaf("photo", "edited", "png", 2), "photo edited 2.png");
    assert_eq!(edited_copy_leaf("a b", "bearbeitet", "jpg", 17), "a b bearbeitet 17.jpg");
    assert_eq!(save_extension(Some("JPG")), "jpg");
    assert_eq!(save_extension(None), "png");
}

#[test]
fn an_image_is_taken_in_at_full_size_when_it_fits() {
    let rgba: Vec<u8> = (0..(6 * 4)).flat_map(|i| [i as u8, 3, 200, 255]).collect();
    let png = encode_image(&rgba, 6, 4, "png").unwrap();
    match prepare_for_edit(&png, "PNG") {
        LoadOutcome::Ready { full_w, full_h, rgba: px, w, h } => {
            assert_eq!((full_w, full_h, w, h), (6, 4, 6, 4));
            assert_eq!(px, rgba);
        }
        _ => panic!("expected a loaded image"),
    }
    let (w, h, px) = decode_for_save(&png, Some("png")).unwrap();
    assert_eq!((w, h), (6, 4));
    assert_eq!(px, rgba);
}

#[test]
fn a_wide_image_gets_a_display_copy_that_fits() {
    let (w, h) = (3000u32, 10u32);
    let rgba = vec![90u8; (w * h * 4) as usize];
    let png = encode_image(&rgba, w, h, "png").unwrap();
    match prepare_for_edit(&png, "png") {
        LoadOutcome::Ready { full_w, full_h, rgba: px, w: dw, h: dh } => {
            assert_eq!((full_w, full_h), (3000, 10));
            assert_eq!(dw, 2048);
            assert!(dh <= 10 && dh >= 1);
            assert_eq!(px.len(), (dw * dh * 4) as usize);
        }
        _ => panic!("expected a loaded image"),
    }
}

#[test]
fn bytes_that_are_no_image_are_refused() {
    assert!(matches!(prepare_for_edit(b"not an image", "png"), LoadOutcome::Undecodable));
    assert!(matches!(prepare_for_edit(b"whatever", "txt"), LoadOutcome::Undecodable));
    assert!(matches!(prepare_for_edit(b"whatever", ""), LoadOutcome::Undecodable));
    assert!(decode_for_save(b"x", None).is_err());
    assert!(decode_for_save(b"x", Some("txt")).unwrap_err().contains("txt"));
}
