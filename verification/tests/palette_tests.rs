use lisa::palette::{
    download_target, image_path, opaque_colors, output_path, paint_palette, palette_layout, palettify_image,
    sample_color, PaletteLayout, Raster, Rgba,
};

const CLEAR: Rgba = Rgba { r: 0, g: 0, b: 0, a: 0 };

fn color(i: u8) -> Rgba {
    Rgba { r: i, g: 10 + i, b: 20 + i, a: 255 }
}

fn image(width: u32, height: u32, f: impl Fn(u32, u32) -> Rgba) -> Raster {
    let rows = (0..height).map(|y| (0..width).map(|x| f(x, y)).collect()).collect();
    Raster::from_rows(width, rows).unwrap()
}

fn at(r: &Raster, x: u32, y: u32) -> Rgba {
    r.row(y)[x as usize]
}

#[test]
fn layout_of_the_palette() {
    assert_eq!(
        palette_layout(8, 4, 20),
        PaletteLayout { width: 8, height: 20, palette_top: 9, block_width: 2, block_height: 5 }
    );
    assert_eq!(
        palette_layout(10, 100, 125),
        PaletteLayout { width: 10, height: 125, palette_top: 105, block_width: 2, block_height: 10 }
    );
}

#[test]
fn rows_of_other_widths_are_refused() {
    assert!(Raster::from_rows(2, vec![vec![CLEAR, CLEAR], vec![CLEAR]]).is_none());
    let r = Raster::from_rows(2, vec![vec![CLEAR, CLEAR]]).unwrap();
    assert_eq!((r.width(), r.height()), (2, 1));
}

#[test]
fn painted_image_blocks_and_border() {
    let input = image(9, 4, |x, y| color((x + y) as u8));
    let colors: Vec<Rgba> = (0..8).map(|i| color(100 + i)).collect();
    let out = paint_palette(&input, 20, &colors);
    assert_eq!((out.width(), out.height()), (9, 20));
    for y in 0..4 {
        for x in 0..9 {
            assert_eq!(at(&out, x, y), color((x + y) as u8));
        }
    }
    // border rows
    for y in 4..9 {
        for x in 0..9 {
            assert_eq!(at(&out, x, y), CLEAR);
        }
    }
    // blocks are 2 wide and 5 high, four to a row
    for n in 0..8u32 {
        let (col, row) = (n % 4, n / 4);
        for y in 9 + 5 * row..9 + 5 * (row + 1) {
            for x in 2 * col..2 * (col + 1) {
                assert_eq!(at(&out, x, y), colors[n as usize]);
            }
        }
    }
    // the column left over on the right stays clear
    for y in 9..20 {
        assert_eq!(at(&out, 8, y), CLEAR);
    }
    // and so does the last row, below the blocks
    for x in 0..9 {
        assert_eq!(at(&out, x, 19), CLEAR);
    }
}

#[test]
fn opaque_colors_row_by_row() {
    let input = image(3, 2, |x, y| if (x + y) % 2 == 0 { color((10 * y + x) as u8) } else { CLEAR });
    assert_eq!(opaque_colors(&input), vec![color(0), color(2), color(11)]);
}

#[test]
fn samples_come_from_opaque_pixels() {
    let input = image(5, 5, |x, y| if x == 3 && y == 1 { color(42) } else { CLEAR });
    for _ in 0..20 {
        assert_eq!(sample_color(&input), color(42));
    }
    let out = palettify_image(&input, 10);
    assert_eq!(out.height(), 10);
    assert_eq!(at(&out, 3, 1), color(42));
    assert_eq!(at(&out, 0, 0), CLEAR);
    // palette_top 10 means no room for blocks: everything below is clear
    let out = palettify_image(&input, 14);
    for x in 0..5 {
        for y in 10..14 {
            let p = at(&out, x, y);
            assert!(p == CLEAR || p == color(42));
        }
    }
    assert_eq!(at(&out, 0, 10), color(42));
    assert_eq!(at(&out, 4, 10), CLEAR);
}

#[test]
fn palette_paths() {
    assert_eq!(image_path("cat.png"), "./palette/cat.png");
    assert_eq!(output_path(1700000000), "./palette/1700000000.jpg");
    assert_eq!(download_target(""), None);
    assert_eq!(
        download_target(" https://a.b/c d.png\t"),
        Some(("https://a.b/cd.png".to_string(), "./palette/cd.png".to_string()))
    );
    assert_eq!(download_target("   "), Some((String::new(), "./palette/".to_string())));
}
