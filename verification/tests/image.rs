use scene_assets::error::LoadError;
use scene_assets::image::load_image;
use scene_assets::image::Image;

fn encode(width: u32, height: u32, color: png::ColorType, data: &[u8]) -> Vec<u8> {
    let mut out = Vec::new();
    {
        let mut encoder = png::Encoder::new(&mut out, width, height);
        encoder.set_color(color);
        encoder.set_depth(png::BitDepth::Eight);
        let mut writer = encoder.write_header().unwrap();
        writer.write_image_data(data).unwrap();
    }
    out
}

#[test]
fn rgb_image_decodes_to_its_samples() {
    let data: Vec<u8> = (0..2 * 3 * 3).map(|i| i as u8 * 7).collect();
    let bytes = encode(2, 3, png::ColorType::RGB, &data);
    assert_eq!(load_image(&bytes), Ok(Image { width: 2, height: 3, data }));
}

#[test]
fn grayscale_image_decodes_to_one_sample_per_pixel() {
    let data = vec![0u8, 64, 128, 255];
    let bytes = encode(4, 1, png::ColorType::Grayscale, &data);
    assert_eq!(load_image(&bytes), Ok(Image { width: 4, height: 1, data }));
}

#[test]
fn bytes_that_are_no_image_are_malformed() {
    assert_eq!(load_image(&[]), Err(LoadError::MalformedStream));
    assert_eq!(load_image(b"not an image at all"), Err(LoadError::MalformedStream));
}

#[test]
fn truncated_image_is_malformed() {
    let data = vec![9u8; 16 * 16 * 3];
    let bytes = encode(16, 16, png::ColorType::RGB, &data);
    assert_eq!(load_image(&bytes[..20]), Err(LoadError::MalformedStream));
    assert_eq!(load_image(&bytes[..bytes.len() / 2]), Err(LoadError::MalformedStream));
}
