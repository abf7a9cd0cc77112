use model_renderer::direction::{Axis, Direction};
use model_renderer::geometry::{infer_uv, ElementRotation, ModelTransform, Vec3};
use model_renderer::model::Element;
use model_renderer::texture::{first_frame, get_with_uv, uv_to_pixel, Image};

const BLOCK: i32 = 16000;

fn numbered(width: u32, height: u32) -> Image {
    let mut pixels = Vec::new();
    for y in 0..height {
        for x in 0..width {
            pixels.push([x as u8, y as u8, 7, 255]);
        }
    }
    Image { width, height, pixels }
}

fn pixel(img: &Image, x: u32, y: u32) -> [u8; 4] {
    img.pixels[(y * img.width + x) as usize]
}

#[test]
fn unit_cube_up_face_uv() {
    let from = Vec3::new(0, 0, 0);
    let to = Vec3::new(BLOCK, BLOCK, BLOCK);
    assert_eq!(infer_uv(from, to, Direction::UP), (0, 0, 16000, 16000));
}

#[test]
fn unit_cube_north_face_uv_is_sorted() {
    // Each coordinate pair is sorted after the sign is applied, so a full
    // cube face covers the whole texture the right way round.
    let from = Vec3::new(0, 0, 0);
    let to = Vec3::new(BLOCK, BLOCK, BLOCK);
    assert_eq!(infer_uv(from, to, Direction::NORTH), (0, 0, 16000, 16000));
}

#[test]
fn partial_element_uv_per_face() {
    // from (2,0,4) to (6,8,12) pixels.
    let from = Vec3::new(2000, 0, 4000);
    let to = Vec3::new(6000, 8000, 12000);
    assert_eq!(infer_uv(from, to, Direction::UP), (2000, 4000, 6000, 12000));
    assert_eq!(infer_uv(from, to, Direction::NORTH), (10000, 0, 14000, 8000));
    assert_eq!(infer_uv(from, to, Direction::SOUTH), (2000, 8000, 6000, 16000));
    assert_eq!(infer_uv(from, to, Direction::WEST), (4000, 8000, 12000, 16000));
    assert_eq!(infer_uv(from, to, Direction::EAST), (4000, 0, 12000, 8000));
    assert_eq!(infer_uv(from, to, Direction::DOWN), (10000, 4000, 14000, 12000));
}

#[test]
fn unit_element_transform_has_identity_linear_part() {
    let e = Element { from: Vec3::new(0, 0, 0), to: Vec3::new(BLOCK, BLOCK, BLOCK), rotation: None, faces: Vec::new() };
    let m = e.to_model_matrix();
    assert_eq!(
        m,
        ModelTransform { center_twice: (16000, 16000, 16000), size: (16000, 16000, 16000), rotation: None }
    );
}

#[test]
fn rotated_element_transform() {
    let rotation = ElementRotation { origin: Vec3::new(8000, 8000, 8000), axis: Axis::Y, angle: 45000, rescale: true };
    let e = Element { from: Vec3::new(1000, 0, 2000), to: Vec3::new(5000, 3000, 2000), rotation: Some(rotation), faces: Vec::new() };
    let m = e.to_model_matrix();
    assert_eq!(m.center_twice, (6000, 3000, 4000));
    assert_eq!(m.size, (4000, 3000, 0));
    assert_eq!(m.rotation, Some((Axis::Y, 45000)));
}

#[test]
fn region_flipped_vertically() {
    let src = numbered(4, 4);
    let down = get_with_uv(&src, 0, 0, 4, 4);
    let up = get_with_uv(&src, 0, 4, 4, 0);
    assert_eq!((up.width, up.height), (4, 4));
    assert_eq!(down, src);
    for y in 0..4 {
        for x in 0..4 {
            assert_eq!(pixel(&up, x, y), pixel(&down, x, 3 - y));
        }
    }
}

#[test]
fn region_flipped_horizontally_and_cropped() {
    let src = numbered(4, 4);
    let r = get_with_uv(&src, 3, 1, 1, 3);
    assert_eq!((r.width, r.height), (2, 2));
    assert_eq!(pixel(&r, 0, 0), [2, 1, 7, 255]);
    assert_eq!(pixel(&r, 1, 0), [1, 1, 7, 255]);
    assert_eq!(pixel(&r, 0, 1), [2, 2, 7, 255]);
}

#[test]
fn empty_region_is_one_transparent_column() {
    let src = numbered(4, 4);
    let r = get_with_uv(&src, 2, 0, 2, 3);
    assert_eq!((r.width, r.height), (1, 3));
    assert!(r.pixels.iter().all(|p| *p == [0, 0, 0, 0]));
}

#[test]
fn uv_scaling_rounds_up() {
    assert_eq!(uv_to_pixel(0, 16), 0);
    assert_eq!(uv_to_pixel(16000, 16), 16);
    assert_eq!(uv_to_pixel(1000, 16), 1);
    assert_eq!(uv_to_pixel(1001, 16), 2);
    assert_eq!(uv_to_pixel(8000, 5), 3);
}

#[test]
fn first_frame_of_sprite_sheet() {
    let sheet = numbered(2, 6);
    let frame = first_frame(sheet);
    assert_eq!((frame.width, frame.height), (2, 2));
    assert_eq!(frame.pixels, vec![[0, 0, 7, 255], [1, 0, 7, 255], [0, 1, 7, 255], [1, 1, 7, 255]]);
    let wide = numbered(3, 2);
    assert_eq!(first_frame(wide.clone()), wide);
}

#[test]
fn image_duplicate_is_equal() {
    let img = numbered(3, 3);
    assert_eq!(img.duplicate(), img);
}
