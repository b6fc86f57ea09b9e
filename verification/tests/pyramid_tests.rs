use pixel_physician::image_buf::{Image, Rgb};
use pixel_physician::pyramid::{build_pyramid, get_tile_size};
use pixel_physician::squaring::Size;
use pixel_physician::Error;

fn rgb(r: u8, g: u8, b: u8) -> Rgb {
    Rgb { r, g, b }
}

fn uniform(width: u32, height: u32, c: Rgb) -> Image {
    let n = (width as usize) * (height as usize);
    Image::from_pixels(width, height, vec![c; n]).unwrap()
}

#[test]
fn tile_size_sequence_64() {
    // At level k the cell is the capture over 2^(k+1) per axis.
    let cap = uniform(64, 64, rgb(1, 2, 3));
    assert_eq!(get_tile_size(&cap, 0), Some(Size { width: 32, height: 32 }));
    assert_eq!(get_tile_size(&cap, 1), Some(Size { width: 16, height: 16 }));
    assert_eq!(get_tile_size(&cap, 2), Some(Size { width: 8, height: 8 }));
    assert_eq!(get_tile_size(&cap, 3), Some(Size { width: 4, height: 4 }));
    // 2-by-2 cells cover only 4 pixels, which is not above the threshold.
    assert_eq!(get_tile_size(&cap, 4), None);
}

#[test]
fn tile_size_respects_shape_not_area() {
    // Two captures of equal area: the narrow one yields no level at all,
    // the square one yields one.
    let narrow = uniform(100, 1, rgb(0, 0, 0));
    assert_eq!(get_tile_size(&narrow, 0), None);
    let square = uniform(10, 10, rgb(0, 0, 0));
    assert_eq!(get_tile_size(&square, 0), Some(Size { width: 5, height: 5 }));
}

#[test]
fn pyramid_level_count_64() {
    let cap = uniform(64, 64, rgb(40, 50, 60));
    let levels = build_pyramid(&cap).unwrap();
    assert_eq!(levels.len(), 4);
}

#[test]
fn pyramid_32_uniform() {
    // A 32-by-32 uniform capture yields at least one level; every level has
    // exactly the capture's dimensions and, the palette being uniform, the
    // capture's color everywhere.
    let c = rgb(10, 20, 30);
    let cap = uniform(32, 32, c);
    let levels = build_pyramid(&cap).unwrap();
    assert!(levels.len() >= 1);
    assert_eq!(levels.len(), 3);
    for lvl in &levels {
        assert_eq!(lvl.width, 32);
        assert_eq!(lvl.height, 32);
        for y in 0..32 {
            for x in 0..32 {
                assert_eq!(lvl.get_pixel(x, y), c);
            }
        }
    }
}

#[test]
fn pyramid_capture_too_small() {
    let cap = uniform(4, 4, rgb(0, 0, 0));
    assert_eq!(build_pyramid(&cap).unwrap_err(), Error::CaptureTooSmall);
}

#[test]
fn pyramid_reconstructs_half_split() {
    // An 8-by-8 capture, left half red, right half blue, has exactly one
    // level. Its palette tiles are uniform 4-by-4 crops of the capture, the
    // downscaled source keeps one pixel per half, and the rebuilt level
    // equals the capture. A resize that handed its input back unchanged, or
    // returned a constant buffer, would break this.
    let red = rgb(255, 0, 0);
    let blue = rgb(0, 0, 255);
    let mut data = Vec::new();
    for _y in 0..8 {
        for x in 0..8 {
            data.push(if x < 4 { red } else { blue });
        }
    }
    let cap = Image::from_pixels(8, 8, data).unwrap();
    let levels = build_pyramid(&cap).unwrap();
    assert_eq!(levels.len(), 1);
    let lvl = &levels[0];
    assert_eq!(lvl.width, 8);
    assert_eq!(lvl.height, 8);
    for y in 0..8 {
        for x in 0..8 {
            let expected = if x < 4 { red } else { blue };
            assert_eq!(lvl.get_pixel(x, y), expected);
        }
    }
}

#[test]
fn pyramid_orders_levels_fine_to_coarse() {
    // A gradient capture: every level's mosaic differs, so the order is
    // observable. Entry 0 of the pyramid is the finest grid (smallest
    // cells, the last level index) and the coarsest grid comes last, each
    // byte-identical to a direct single-level build of the same cell size.
    let mut data = Vec::new();
    for y in 0..32u32 {
        for x in 0..32u32 {
            data.push(rgb((x * 8) as u8, (y * 8) as u8, 0));
        }
    }
    let cap = Image::from_pixels(32, 32, data).unwrap();
    let sizes: Vec<Size> = (0..u32::MAX).map_while(|k| get_tile_size(&cap, k)).collect();
    let levels = build_pyramid(&cap).unwrap();
    assert_eq!(levels.len(), sizes.len());
    for (i, lvl) in levels.iter().enumerate() {
        let expected = pixel_physician::pyramid::mosaify(&cap, sizes[sizes.len() - 1 - i]).unwrap();
        assert_eq!(lvl.data, expected.data);
    }
}
