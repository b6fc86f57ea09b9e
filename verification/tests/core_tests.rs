use pixel_physician::image_buf::{Image, Rgb};
use pixel_physician::mosaic::build_mosaic;
use pixel_physician::squaring::Size;
use pixel_physician::tiles::{Tile, TileSet};
use pixel_physician::Error;

fn rgb(r: u8, g: u8, b: u8) -> Rgb {
    Rgb { r, g, b }
}

fn uniform(width: u32, height: u32, c: Rgb) -> Image {
    let n = (width as usize) * (height as usize);
    Image::from_pixels(width, height, vec![c; n]).unwrap()
}

#[test]
fn tile_uniform_average() {
    let c = rgb(7, 130, 201);
    for n in [1u32, 2, 3, 5] {
        let t = Tile::from_image(uniform(n, n, c)).unwrap();
        assert_eq!(t.average_color(), c);
    }
}

#[test]
fn tile_average_truncates() {
    // (1 + 2) / 2 == 1: the fractional remainder is discarded, not rounded.
    let img = Image::from_pixels(2, 1, vec![rgb(1, 0, 255), rgb(2, 1, 254)]).unwrap();
    let t = Tile::from_image(img).unwrap();
    assert_eq!(t.average_color(), rgb(1, 0, 254));
}

#[test]
fn tile_zero_pixel_error() {
    let img = Image::from_pixels(0, 5, vec![]).unwrap();
    assert_eq!(Tile::from_image(img).unwrap_err(), Error::ZeroPixelImage);
}

#[test]
fn closest_tile_matches_brute_force() {
    let colors = [
        rgb(0, 0, 0),
        rgb(255, 0, 0),
        rgb(0, 255, 0),
        rgb(0, 0, 255),
        rgb(120, 130, 140),
        rgb(200, 10, 90),
    ];
    let palette: Vec<Image> = colors.iter().map(|c| uniform(2, 2, *c)).collect();
    let ts = TileSet::from_images(palette).unwrap();
    let queries = [rgb(10, 10, 10), rgb(250, 5, 80), rgb(100, 140, 150), rgb(0, 200, 30)];
    for q in queries {
        let idx = ts.closest_tile(&q);
        let dist = |c: Rgb| -> i64 {
            let dr = c.r as i64 - q.r as i64;
            let dg = c.g as i64 - q.g as i64;
            let db = c.b as i64 - q.b as i64;
            dr * dr + dg * dg + db * db
        };
        for c in colors {
            assert!(dist(colors[idx]) <= dist(c));
        }
    }
}

#[test]
fn closest_tile_tie_break_lowest_index() {
    // Tiles 1 and 2 share one average color; the lower index must win.
    let palette = vec![
        uniform(2, 2, rgb(0, 0, 255)),
        uniform(2, 2, rgb(255, 0, 0)),
        uniform(2, 2, rgb(255, 0, 0)),
    ];
    let ts = TileSet::from_images(palette).unwrap();
    for _ in 0..5 {
        assert_eq!(ts.closest_tile(&rgb(255, 0, 0)), 1);
    }
    // A query equidistant from two distinct averages also takes the lower index.
    let palette2 = vec![uniform(2, 2, rgb(100, 0, 0)), uniform(2, 2, rgb(102, 0, 0))];
    let ts2 = TileSet::from_images(palette2).unwrap();
    assert_eq!(ts2.closest_tile(&rgb(101, 0, 0)), 0);
}

#[test]
fn tileset_empty_error() {
    assert_eq!(TileSet::from_images(vec![]).unwrap_err(), Error::EmptyTileSet);
}

#[test]
fn tileset_dimension_mismatch() {
    let imgs = vec![uniform(2, 2, rgb(1, 2, 3)), uniform(3, 2, rgb(4, 5, 6))];
    assert_eq!(
        TileSet::from_images(imgs).unwrap_err(),
        Error::DimensionMismatch {
            expected: Size { width: 2, height: 2 },
            actual: Size { width: 3, height: 2 },
        }
    );
}

#[test]
fn tileset_zero_pixel_error() {
    let imgs = vec![uniform(0, 0, rgb(0, 0, 0)), uniform(0, 0, rgb(0, 0, 0))];
    assert_eq!(TileSet::from_images(imgs).unwrap_err(), Error::ZeroPixelImage);
}

#[test]
fn build_mosaic_dimensions() {
    let source = uniform(3, 2, rgb(9, 9, 9));
    let tiles = vec![uniform(4, 5, rgb(9, 9, 9))];
    let out = build_mosaic(source, tiles, 4, 5).unwrap();
    assert_eq!(out.width, 12);
    assert_eq!(out.height, 10);
    assert_eq!(out.data.len(), 120);
}

#[test]
fn build_mosaic_idempotent() {
    let mut source = uniform(2, 2, rgb(0, 0, 0));
    source.set_pixel(0, 0, rgb(250, 0, 0));
    source.set_pixel(1, 1, rgb(0, 0, 250));
    let tiles = vec![uniform(3, 3, rgb(255, 0, 0)), uniform(3, 3, rgb(0, 0, 255))];
    let a = build_mosaic(source.clone(), tiles.clone(), 3, 3).unwrap();
    let b = build_mosaic(source, tiles, 3, 3).unwrap();
    assert_eq!(a.width, b.width);
    assert_eq!(a.height, b.height);
    assert_eq!(a.data, b.data);
}

#[test]
fn build_mosaic_single_red_pixel() {
    // Palette: solid red and solid blue 2-by-2 tiles; source: one pure red
    // pixel. The output is 2 by 2 and all pure red.
    let red = rgb(255, 0, 0);
    let palette = vec![uniform(2, 2, red), uniform(2, 2, rgb(0, 0, 255))];
    let source = uniform(1, 1, red);
    let out = build_mosaic(source, palette, 2, 2).unwrap();
    assert_eq!(out.width, 2);
    assert_eq!(out.height, 2);
    for y in 0..2 {
        for x in 0..2 {
            assert_eq!(out.get_pixel(x, y), red);
        }
    }
}

#[test]
fn build_mosaic_tile_size_mismatch() {
    let source = uniform(1, 1, rgb(0, 0, 0));
    let tiles = vec![uniform(2, 2, rgb(0, 0, 0))];
    assert_eq!(
        build_mosaic(source, tiles, 3, 3).unwrap_err(),
        Error::DimensionMismatch {
            expected: Size { width: 3, height: 3 },
            actual: Size { width: 2, height: 2 },
        }
    );
}

#[test]
fn build_mosaic_output_too_large() {
    // 65536 source columns of 65536-pixel-wide tiles would need an output
    // wider than any 32-bit extent.
    let source = uniform(65536, 1, rgb(0, 0, 0));
    let tiles = vec![uniform(65536, 1, rgb(0, 0, 0))];
    assert_eq!(build_mosaic(source, tiles, 65536, 1).unwrap_err(), Error::OutputTooLarge);
}
