use pixel_physician::image_buf::{Image, Rgb};
use pixel_physician::squaring::{Coord, SectionedImage, Size};
use pixel_physician::util::compute_sliding;

fn rgb(r: u8, g: u8, b: u8) -> Rgb {
    Rgb { r, g, b }
}

/// A 10-by-10 image whose pixel at `(x, y)` encodes its own coordinates.
fn coordinate_image() -> Image {
    let mut data = Vec::new();
    for y in 0..10u8 {
        for x in 0..10u8 {
            data.push(rgb(x, y, 77));
        }
    }
    Image::from_pixels(10, 10, data).unwrap()
}

#[test]
fn sectioner_count_10_by_10_in_4_by_4() {
    let img = coordinate_image();
    let sec = SectionedImage { texture: &img, section_size: Size { width: 4, height: 4 } };
    let count = sec.section_count();
    assert_eq!(count, Coord { x: 3, y: 3 });
}

#[test]
fn sectioner_coords_row_major() {
    let img = coordinate_image();
    let sec = SectionedImage { texture: &img, section_size: Size { width: 4, height: 4 } };
    let coords = sec.section_coords();
    assert_eq!(coords.len(), 9);
    assert_eq!(coords[0], Coord { x: 0, y: 0 });
    assert_eq!(coords[1], Coord { x: 1, y: 0 });
    assert_eq!(coords[3], Coord { x: 0, y: 1 });
    assert_eq!(coords[8], Coord { x: 2, y: 2 });
}

#[test]
fn sectioner_clips_final_section() {
    // The section at (2, 2) covers only the bottom-right 2-by-2 corner of the
    // image; the rest of the 4-by-4 buffer keeps the defined default fill.
    let img = coordinate_image();
    let sec = SectionedImage { texture: &img, section_size: Size { width: 4, height: 4 } };
    let s = sec.get_section(Coord { x: 2, y: 2 });
    assert_eq!(s.width, 4);
    assert_eq!(s.height, 4);
    for dy in 0..4u32 {
        for dx in 0..4u32 {
            let expected = if dx < 2 && dy < 2 {
                rgb((8 + dx) as u8, (8 + dy) as u8, 77)
            } else {
                rgb(0, 0, 0)
            };
            assert_eq!(s.get_pixel(dx, dy), expected);
        }
    }
}

#[test]
fn sectioner_interior_section_is_exact() {
    let img = coordinate_image();
    let sec = SectionedImage { texture: &img, section_size: Size { width: 4, height: 4 } };
    let s = sec.get_section(Coord { x: 1, y: 0 });
    for dy in 0..4u32 {
        for dx in 0..4u32 {
            assert_eq!(s.get_pixel(dx, dy), rgb((4 + dx) as u8, dy as u8, 77));
        }
    }
}

#[test]
fn size_area() {
    assert_eq!(Size { width: 3, height: 4 }.area(), 12);
    assert_eq!(Size { width: 0, height: 9 }.area(), 0);
}

#[test]
fn compute_sliding_values() {
    assert_eq!(compute_sliding(0), 0);
    assert_eq!(compute_sliding(100), 100);
    assert_eq!(compute_sliding(255), 255);
    assert_eq!(compute_sliding(256), 255);
    assert_eq!(compute_sliding(400), 111);
    assert_eq!(compute_sliding(511), 0);
}
