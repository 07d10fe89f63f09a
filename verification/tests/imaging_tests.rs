use base64::Engine;
use llmchat::imaging::{data_uri_bytes, decode_data_uri, encode_rgba_png, image_data_uri, to_data_uri};

#[test]
fn builds_data_uri() {
    let uri = to_data_uri("image/png", &[1, 2, 3]);
    assert!(uri.starts_with("data:image/png;base64,"));
    let decoded = base64::engine::general_purpose::STANDARD
        .decode(uri.strip_prefix("data:image/png;base64,").unwrap())
        .unwrap();
    assert_eq!(decoded, vec![1, 2, 3]);
}

#[test]
fn encodes_gray_samples_to_png_uri() {
    // A 2x2 gray image (one channel), every pixel at 255.
    let uri = encode_rgba_png(2, 2, &[255, 255, 255, 255], 1).unwrap();
    assert!(uri.starts_with("data:image/png;base64,"));
    let b64 = uri.split(',').nth(1).unwrap();
    let bytes = base64::engine::general_purpose::STANDARD.decode(b64).unwrap();
    let img = image::load_from_memory(&bytes).unwrap().to_rgba8();
    assert_eq!(img.width(), 2);
    assert_eq!(img.height(), 2);
    assert_eq!(img.get_pixel(0, 0).0, [255, 255, 255, 255]);
}

#[test]
fn rejects_missing_data() {
    assert!(encode_rgba_png(10, 10, &[0, 0], 3).is_err());
}

#[test]
fn reports_how_much_data_is_missing() {
    assert_eq!(
        encode_rgba_png(10, 10, &[0, 0], 3),
        Err("datos insuficientes: 2 < 300".to_string())
    );
}

#[test]
fn refuses_unexpected_channel_counts() {
    assert_eq!(encode_rgba_png(1, 1, &[1, 2], 2), Err("canales inesperados".to_string()));
}

#[test]
fn leaves_out_samples_past_the_last_pixel() {
    let uri = encode_rgba_png(1, 1, &[1, 2, 3, 4], 3).unwrap();
    let png = data_uri_bytes(&uri).unwrap();
    let img = image::load_from_memory(&png).unwrap().to_rgba8();
    assert_eq!((img.width(), img.height()), (1, 1));
    assert_eq!(img.get_pixel(0, 0).0, [1, 2, 3, 255]);
    let uri = encode_rgba_png(2, 1, &[7, 8, 9, 10], 1).unwrap();
    let png = data_uri_bytes(&uri).unwrap();
    let img = image::load_from_memory(&png).unwrap().to_rgba8();
    assert_eq!((img.width(), img.height()), (2, 1));
    assert_eq!(img.get_pixel(1, 0).0, [8, 8, 8, 255]);
}

#[test]
fn refuses_images_without_pixels() {
    assert!(encode_rgba_png(0, 3, &[], 1).is_err());
    assert!(encode_rgba_png(0, 0, &[], 2).is_err());
}

#[test]
fn converts_rgb_and_cmyk_samples() {
    let uri = encode_rgba_png(2, 1, &[10, 20, 30, 40, 50, 60], 3).unwrap();
    let bytes = data_uri_bytes(&uri).unwrap();
    let img = image::load_from_memory(&bytes).unwrap().to_rgba8();
    assert_eq!(img.get_pixel(0, 0).0, [10, 20, 30, 255]);
    assert_eq!(img.get_pixel(1, 0).0, [40, 50, 60, 255]);

    // CMYK (0, 255, 0, 0) is pure magenta; black ink darkens every channel.
    let uri = encode_rgba_png(2, 1, &[0, 255, 0, 0, 0, 0, 0, 255], 4).unwrap();
    let bytes = data_uri_bytes(&uri).unwrap();
    let img = image::load_from_memory(&bytes).unwrap().to_rgba8();
    assert_eq!(img.get_pixel(0, 0).0, [255, 0, 255, 255]);
    assert_eq!(img.get_pixel(1, 0).0, [0, 0, 0, 255]);
}

#[test]
fn cmyk_conversion_matches_the_float_formula() {
    // Every (ink, black) pair, through a 1x1 image, against the formula in f32.
    for c in (0..=255u32).step_by(5) {
        for k in (0..=255u32).step_by(3) {
            let uri = encode_rgba_png(1, 1, &[c as u8, 0, 0, k as u8], 4).unwrap();
            let bytes = data_uri_bytes(&uri).unwrap();
            let img = image::load_from_memory(&bytes).unwrap().to_rgba8();
            let cf = c as f32 / 255.0;
            let kf = k as f32 / 255.0;
            let expected = (255.0 * (1.0 - cf) * (1.0 - kf)).round() as u8;
            assert_eq!(img.get_pixel(0, 0).0[0], expected, "c={c} k={k}");
        }
    }
}

#[test]
fn data_uri_gives_back_its_bytes() {
    let payload = vec![0u8, 1, 2, 250, 255, 7];
    let uri = to_data_uri("application/octet-stream", &payload);
    assert_eq!(data_uri_bytes(&uri), Some(payload));
    assert_eq!(data_uri_bytes("no comma here"), None);
    assert_eq!(data_uri_bytes("data:x;base64,@@@"), None);
}

#[test]
fn decodes_preview_pixels() {
    let uri = encode_rgba_png(3, 2, &[9; 6], 1).unwrap();
    let px = decode_data_uri(&uri).unwrap();
    assert_eq!((px.width, px.height), (3, 2));
    assert_eq!(px.rgba.len(), 3 * 2 * 4);
    assert_eq!(&px.rgba[0..4], &[9, 9, 9, 255]);
    assert!(decode_data_uri("data:image/png;base64,AAAA").is_none());
}

#[test]
fn shrinks_large_previews() {
    let uri = encode_rgba_png(1000, 10, &vec![0u8; 1000 * 10], 1).unwrap();
    let px = decode_data_uri(&uri).unwrap();
    assert_eq!(px.width, 800);
    assert_eq!(px.height, 8);
}

#[test]
fn reads_image_files_as_png_uris() {
    let png_uri = encode_rgba_png(1, 1, &[1, 2, 3], 3).unwrap();
    let png = data_uri_bytes(&png_uri).unwrap();
    let uri = image_data_uri(&png, "png").unwrap();
    assert!(uri.starts_with("data:image/png;base64,"));
    assert!(image_data_uri(&png, "unknown").is_err());
    assert!(image_data_uri(&[1, 2, 3], "png").is_err());
}

#[test]
fn image_files_keep_their_pixels_and_huge_ones_shrink() {
    let png = data_uri_bytes(&encode_rgba_png(2, 1, &[10, 20, 30, 40, 50, 60], 3).unwrap()).unwrap();
    let uri = image_data_uri(&png, "png").unwrap();
    let img = image::load_from_memory(&data_uri_bytes(&uri).unwrap()).unwrap().to_rgba8();
    assert_eq!((img.width(), img.height()), (2, 1));
    assert_eq!(img.get_pixel(1, 0).0, [40, 50, 60, 255]);
    let big = data_uri_bytes(&encode_rgba_png(3000, 10, &vec![5u8; 30000], 1).unwrap()).unwrap();
    let uri = image_data_uri(&big, "png").unwrap();
    let img = image::load_from_memory(&data_uri_bytes(&uri).unwrap()).unwrap().to_rgba8();
    assert_eq!(img.width(), 2048);
    assert!(img.height() <= 10);
    assert_eq!(img.get_pixel(0, 0).0, [5, 5, 5, 255]);
}

#[test]
fn encodes_base64_with_padding() {
    assert_eq!(to_data_uri("text/plain", b"Man"), "data:text/plain;base64,TWFu");
    assert_eq!(to_data_uri("text/plain", b"Ma"), "data:text/plain;base64,TWE=");
    assert_eq!(to_data_uri("text/plain", b"M"), "data:text/plain;base64,TQ==");
    assert_eq!(to_data_uri("text/plain", &[0xfb, 0xff]), "data:text/plain;base64,+/8=");
    assert_eq!(to_data_uri("text/plain", b""), "data:text/plain;base64,");
}
