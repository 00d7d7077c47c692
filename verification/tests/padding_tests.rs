use image_tagger::model::{preprocess, target_size, WHITE};
use image_tagger::padding::{to_position, Padding, Position};
use image_tagger::pixels::RgbImage;

fn solid(width: u32, height: u32, color: [u8; 3]) -> RgbImage {
    let mut data = Vec::new();
    for _ in 0..(width as usize * height as usize) {
        data.extend_from_slice(&color);
    }
    RgbImage::from_raw(width, height, data).unwrap()
}

fn numbered(width: u32, height: u32) -> RgbImage {
    let mut data = Vec::new();
    for y in 0..height {
        for x in 0..width {
            data.push(x as u8);
            data.push(y as u8);
            data.push(7);
        }
    }
    RgbImage::from_raw(width, height, data).unwrap()
}

#[test]
fn center_of_wide_canvas() {
    assert_eq!(to_position([100, 50], [200, 50], &Position::Center), Some((50, 0)));
}

#[test]
fn every_position_on_a_larger_canvas() {
    let size = [10, 20];
    let pad = [40, 100];
    assert_eq!(to_position(size, pad, &Position::Top), Some((15, 0)));
    assert_eq!(to_position(size, pad, &Position::Bottom), Some((15, 80)));
    assert_eq!(to_position(size, pad, &Position::Left), Some((0, 40)));
    assert_eq!(to_position(size, pad, &Position::Right), Some((30, 40)));
    assert_eq!(to_position(size, pad, &Position::TopLeft), Some((0, 0)));
    assert_eq!(to_position(size, pad, &Position::TopRight), Some((30, 0)));
    assert_eq!(to_position(size, pad, &Position::BottomLeft), Some((0, 80)));
    assert_eq!(to_position(size, pad, &Position::BottomRight), Some((30, 80)));
    assert_eq!(to_position(size, pad, &Position::Center), Some((15, 40)));
}

#[test]
fn image_larger_than_canvas_has_no_position() {
    assert_eq!(to_position([11, 5], [10, 5], &Position::Center), None);
    assert_eq!(to_position([5, 11], [5, 10], &Position::TopLeft), None);
    assert_eq!(to_position([5, 5], [5, 5], &Position::BottomRight), Some((0, 0)));
}

#[test]
fn odd_slack_rounds_down() {
    assert_eq!(to_position([2, 2], [5, 7], &Position::Center), Some((1, 2)));
}

#[test]
fn largest_sizes_do_not_overflow() {
    assert_eq!(
        to_position([0, 0], [u32::MAX, u32::MAX], &Position::BottomRight),
        Some((4294967295, 4294967295))
    );
}

#[test]
fn square_of_a_wide_image() {
    let image = solid(200, 100, [1, 2, 3]);
    assert_eq!(image.to_position_square(), Some(((0, 50), (200, 200))));
    let (canvas, origin) = image.padding_square(WHITE);
    assert_eq!(origin, (0, 50));
    assert_eq!(canvas.dimensions(), (200, 200));
    assert_eq!(canvas.as_raw().len(), 200 * 200 * 3);
    for x in [0u32, 57, 199] {
        assert_eq!(canvas.get_pixel(x, 0), [255, 255, 255]);
        assert_eq!(canvas.get_pixel(x, 49), [255, 255, 255]);
        assert_eq!(canvas.get_pixel(x, 50), [1, 2, 3]);
        assert_eq!(canvas.get_pixel(x, 149), [1, 2, 3]);
        assert_eq!(canvas.get_pixel(x, 150), [255, 255, 255]);
        assert_eq!(canvas.get_pixel(x, 199), [255, 255, 255]);
    }
}

#[test]
fn square_of_a_tall_image_with_odd_slack() {
    let image = numbered(2, 5);
    let (canvas, origin) = image.padding_square([9, 9, 9]);
    assert_eq!(origin, (1, 0));
    assert_eq!(canvas.dimensions(), (5, 5));
    for y in 0..5u32 {
        assert_eq!(canvas.get_pixel(0, y), [9, 9, 9]);
        assert_eq!(canvas.get_pixel(1, y), [0, y as u8, 7]);
        assert_eq!(canvas.get_pixel(2, y), [1, y as u8, 7]);
        assert_eq!(canvas.get_pixel(3, y), [9, 9, 9]);
        assert_eq!(canvas.get_pixel(4, y), [9, 9, 9]);
    }
}

#[test]
fn padding_places_the_image_at_the_position() {
    let image = numbered(2, 2);
    let (canvas, origin) = image.padding([4, 3], &Position::BottomRight, [0, 0, 0]);
    assert_eq!(origin, (2, 1));
    assert_eq!(canvas.dimensions(), (4, 3));
    let expected: Vec<u8> = vec![
        0, 0, 0, 0, 0, 0, 0, 0, 0, 0, 0, 0, //
        0, 0, 0, 0, 0, 0, 0, 0, 7, 1, 0, 7, //
        0, 0, 0, 0, 0, 0, 0, 1, 7, 1, 1, 7,
    ];
    assert_eq!(canvas.into_raw(), expected);
}

#[test]
fn padding_leaves_an_image_that_does_not_fit() {
    let image = numbered(3, 2);
    let raw = image.as_raw().clone();
    let (same, origin) = image.padding([2, 2], &Position::Center, WHITE);
    assert_eq!(origin, (0, 0));
    assert_eq!(same.dimensions(), (3, 2));
    assert_eq!(same.into_raw(), raw);
}

#[test]
fn method_and_function_agree_on_the_position() {
    let image = solid(3, 4, [0, 0, 0]);
    assert_eq!(
        Padding::to_position(&image, [9, 9], &Position::Right),
        to_position([3, 4], [9, 9], &Position::Right)
    );
    assert_eq!(Padding::to_position(&image, [2, 9], &Position::Right), None);
}

#[test]
fn empty_image_pads_to_an_empty_square() {
    let image = RgbImage::from_raw(0, 0, Vec::new()).unwrap();
    let (canvas, origin) = image.padding_square(WHITE);
    assert_eq!(origin, (0, 0));
    assert_eq!(canvas.dimensions(), (0, 0));
    assert!(canvas.into_raw().is_empty());
}

#[test]
fn from_raw_wants_three_bytes_per_pixel() {
    assert!(RgbImage::from_raw(2, 2, vec![0; 12]).is_some());
    assert!(RgbImage::from_raw(2, 2, vec![0; 11]).is_none());
    assert!(RgbImage::from_raw(2, 2, vec![0; 13]).is_none());
    assert!(RgbImage::from_raw(0, 5, Vec::new()).is_some());
}

#[test]
fn get_pixel_reads_rows_from_the_top() {
    let image = numbered(3, 2);
    assert_eq!(image.get_pixel(0, 0), [0, 0, 7]);
    assert_eq!(image.get_pixel(2, 0), [2, 0, 7]);
    assert_eq!(image.get_pixel(1, 1), [1, 1, 7]);
}

#[test]
fn preprocess_without_resampling_is_the_padded_square() {
    let image = numbered(4, 2);
    let tensor = preprocess(image, 4);
    assert_eq!(tensor.dimensions(), (4, 4));
    for x in 0..4u32 {
        assert_eq!(tensor.get_pixel(x, 0), [255, 255, 255]);
        assert_eq!(tensor.get_pixel(x, 1), [x as u8, 0, 7]);
        assert_eq!(tensor.get_pixel(x, 2), [x as u8, 1, 7]);
        assert_eq!(tensor.get_pixel(x, 3), [255, 255, 255]);
    }
}

#[test]
fn preprocess_resamples_to_the_target_size() {
    let tensor = preprocess(solid(200, 100, [10, 20, 30]), 448);
    assert_eq!(tensor.dimensions(), (448, 448));
    assert_eq!(tensor.as_raw().len(), 448 * 448 * 3);
    // The middle row lies well inside the image, the top row well inside the padding.
    let middle = tensor.get_pixel(224, 224);
    assert!((9..=11).contains(&middle[0]) && (19..=21).contains(&middle[1]));
    let top = tensor.get_pixel(224, 2);
    assert!(top[0] >= 254 && top[1] >= 254 && top[2] >= 254);
}

#[test]
fn preprocess_shrinks_a_large_square() {
    let tensor = preprocess(solid(64, 64, [200, 100, 50]), 16);
    assert_eq!(tensor.dimensions(), (16, 16));
    let p = tensor.get_pixel(8, 8);
    assert!((199..=201).contains(&p[0]) && (99..=101).contains(&p[1]) && (49..=51).contains(&p[2]));
}

#[test]
fn tensor_as_floats_keeps_height_width_channel_order() {
    let tensor = preprocess(numbered(2, 2), 2);
    let floats: Vec<f32> = tensor.as_raw().iter().map(|&b| b as f32).collect();
    assert_eq!(floats, vec![0.0, 0.0, 7.0, 1.0, 0.0, 7.0, 0.0, 1.0, 7.0, 1.0, 1.0, 7.0]);
}

#[test]
fn target_size_is_the_second_dimension() {
    assert_eq!(target_size(&[1, 448, 448, 3]), Some(448));
    assert_eq!(target_size(&[-1, 224, 224, 3]), Some(224));
    assert_eq!(target_size(&[1, 4294967295]), Some(u32::MAX));
}

#[test]
fn target_size_of_an_unusable_shape() {
    assert_eq!(target_size(&[]), None);
    assert_eq!(target_size(&[1]), None);
    assert_eq!(target_size(&[1, -1, 448, 3]), None);
    assert_eq!(target_size(&[1, 0, 448, 3]), None);
    assert_eq!(target_size(&[1, 4294967296]), None);
}
