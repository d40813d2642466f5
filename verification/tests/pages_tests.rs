use stitchery::catalog::Rgb;
use stitchery::geometry::Size;
use stitchery::pages::{
    legend_pages, legend_slot, overlay_labels, tile_counts, tile_pixels, tiles, total_pages,
};

fn rgb(r: u8, g: u8, b: u8) -> Rgb {
    Rgb { r, g, b }
}

#[test]
fn legend_page_counts() {
    assert_eq!(legend_pages(0), 1);
    assert_eq!(legend_pages(1), 1);
    assert_eq!(legend_pages(69), 1);
    assert_eq!(legend_pages(70), 2);
    assert_eq!(legend_pages(80), 2);
    assert_eq!(legend_pages(144), 2);
    assert_eq!(legend_pages(145), 3);
}

#[test]
fn one_tile_pattern_pages() {
    // A 50x70 pattern fills exactly one tile page:
    // total = 3 cover/preview pages + 1 legend page + 1 tile page.
    let size = Size { x: 50, y: 70 };
    let (tx, ty) = tile_counts(size);
    assert_eq!((tx, ty), (1, 1));
    assert_eq!(tiles(size).len(), 1);
    assert_eq!(total_pages(size, 10), 3 + 1 + 1);
}

#[test]
fn many_tile_pattern_pages() {
    // A 120x140 pattern with 80 distinct colors:
    // legend pages = ceil((80 - 69) / 75) + 1 = 2, tile pages = 3 * 2 = 6,
    // total = 3 + 2 + 6 = 11.
    let size = Size { x: 120, y: 140 };
    assert_eq!(legend_pages(80), 2);
    let (tx, ty) = tile_counts(size);
    assert_eq!((tx, ty), (3, 2));
    assert_eq!(tiles(size).len(), 6);
    assert_eq!(total_pages(size, 80), 11);
}

#[test]
fn tiles_cover_the_pattern() {
    let size = Size { x: 120, y: 140 };
    let ts = tiles(size);
    assert_eq!(ts.len(), 6);
    // row-major order, partial tiles at the right edge
    assert_eq!((ts[0].x0, ts[0].y0, ts[0].w, ts[0].h), (0, 0, 50, 70));
    assert_eq!((ts[1].x0, ts[1].y0, ts[1].w, ts[1].h), (50, 0, 50, 70));
    assert_eq!((ts[2].x0, ts[2].y0, ts[2].w, ts[2].h), (100, 0, 20, 70));
    assert_eq!((ts[3].x0, ts[3].y0, ts[3].w, ts[3].h), (0, 70, 50, 70));
    assert_eq!((ts[5].ix, ts[5].iy), (2, 1));
    // every stitch lies in exactly one tile
    let mut covered = vec![0u32; 120 * 140];
    for t in &ts {
        for y in t.y0..t.y0 + t.h {
            for x in t.x0..t.x0 + t.w {
                covered[(y * 120 + x) as usize] += 1;
            }
        }
    }
    assert!(covered.iter().all(|&n| n == 1));
}

#[test]
fn tile_pixels_extracts_sub_raster() {
    let size = Size { x: 4, y: 3 };
    let mut img = Vec::new();
    for i in 0..12u8 {
        img.push(rgb(i, 0, 0));
    }
    let ts = tiles(size);
    assert_eq!(ts.len(), 1);
    let all = tile_pixels(&img, size, ts[0]);
    assert_eq!(all.len(), 12);
    assert_eq!(all[5], rgb(5, 0, 0));
    // a hand-made 2x2 slice anchored at (1, 1)
    let t = stitchery::pages::Tile { x0: 1, y0: 1, w: 2, h: 2, ix: 0, iy: 0 };
    let s = tile_pixels(&img, size, t);
    let got: Vec<u8> = s.iter().map(|p| p.r).collect();
    assert_eq!(got, vec![5, 6, 9, 10]);
}

#[test]
fn legend_slots_walk_columns_then_pages() {
    assert_eq!(legend_slot(0), (0, 0, 0));
    assert_eq!(legend_slot(22), (0, 0, 22));
    assert_eq!(legend_slot(23), (0, 1, 0));
    assert_eq!(legend_slot(68), (0, 2, 22));
    assert_eq!(legend_slot(69), (1, 0, 0));
    assert_eq!(legend_slot(93), (1, 0, 24));
    assert_eq!(legend_slot(94), (1, 1, 0));
    assert_eq!(legend_slot(143), (1, 2, 24));
    assert_eq!(legend_slot(144), (2, 0, 0));
}

#[test]
fn overlay_labels_count_from_tile_offset() {
    let labels = overlay_labels(Size { x: 25, y: 30 }, 1, 2);
    assert_eq!(labels.cols, vec![60, 70]);
    assert_eq!(labels.col_end, Some(75));
    assert_eq!(labels.rows, vec![170, 160, 150]);
    assert_eq!(labels.row_end, None);
}
