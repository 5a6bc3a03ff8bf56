use mandelbrot::encode::{encode_image, EncodeError};

#[test]
fn encode_gray_png() {
    let pixels = vec![16u8; 6];
    let bytes = encode_image(&pixels, (3, 2)).unwrap();
    assert_eq!(&bytes[..8], &[0x89, b'P', b'N', b'G', 0x0d, 0x0a, 0x1a, 0x0a]);
    assert_ne!(bytes, pixels);
    assert_eq!(encode_image(&pixels, (3, 2)).unwrap(), bytes);
}

#[test]
fn encode_wrong_length() {
    let pixels = vec![0u8; 5];
    assert_eq!(encode_image(&pixels, (3, 2)), Err(EncodeError::SizeMismatch));
}

#[test]
fn encode_side_too_large() {
    let pixels = vec![0u8; 0];
    let wide = (u32::MAX as usize) + 1;
    assert_eq!(encode_image(&pixels, (wide, 0)), Err(EncodeError::TooLarge));
}

#[test]
fn encode_zero_side_fails_in_encoder() {
    let pixels: Vec<u8> = Vec::new();
    assert_eq!(encode_image(&pixels, (0, 4)), Err(EncodeError::Encoder));
}
