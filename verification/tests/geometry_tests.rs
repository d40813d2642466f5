use stitchery::assign::{argmax_first, argmin_first, center_of, scatter, smooth_centers, update_centers};
use stitchery::geometry::{cell_of_pixel, div_ceil_u64, output_size, seed_center, window3x3, window4, Coord, Size};

fn c(x: u32, y: u32) -> Coord {
    Coord { x, y }
}

#[test]
fn div_ceil_basics() {
    assert_eq!(div_ceil_u64(0, 5), 0);
    assert_eq!(div_ceil_u64(1, 5), 1);
    assert_eq!(div_ceil_u64(5, 5), 1);
    assert_eq!(div_ceil_u64(6, 5), 2);
}

#[test]
fn output_size_square() {
    let s = output_size(Size { x: 16, y: 16 }, 16);
    assert_eq!((s.x, s.y), (16, 16));
}

#[test]
fn output_size_landscape() {
    let s = output_size(Size { x: 200, y: 100 }, 16);
    assert_eq!((s.x, s.y), (16, 8));
}

#[test]
fn output_size_portrait() {
    let s = output_size(Size { x: 100, y: 200 }, 16);
    assert_eq!((s.x, s.y), (8, 16));
}

#[test]
fn output_size_rounds_up() {
    // 10 * 2 / 3 = 6.67, kept as 7 so the aspect ratio is preserved upward.
    let s = output_size(Size { x: 3, y: 2 }, 10);
    assert_eq!((s.x, s.y), (10, 7));
}

#[test]
fn index_round_trip() {
    let s = Size { x: 7, y: 5 };
    let p = c(3, 4);
    let idx = s.coord_to_idx(p);
    assert_eq!(idx, 3 + 7 * 4);
    let q = s.idx_to_coord(idx);
    assert_eq!((q.x, q.y), (3, 4));
}

#[test]
fn cell_of_pixel_halves() {
    let cell = cell_of_pixel(c(5, 5), Size { x: 10, y: 10 }, Size { x: 2, y: 2 });
    assert_eq!((cell.x, cell.y), (1, 1));
    let cell = cell_of_pixel(c(4, 0), Size { x: 10, y: 10 }, Size { x: 2, y: 2 });
    assert_eq!((cell.x, cell.y), (0, 0));
}

#[test]
fn seed_center_grid() {
    let p = seed_center(1, 0, Size { x: 16, y: 8 }, Size { x: 4, y: 2 });
    assert_eq!((p.x, p.y), (4, 0));
    let p = seed_center(3, 1, Size { x: 16, y: 8 }, Size { x: 4, y: 2 });
    assert_eq!((p.x, p.y), (12, 4));
}

#[test]
fn window3x3_interior_scan_order() {
    let w = window3x3(c(1, 1), Size { x: 3, y: 3 });
    let got: Vec<(u32, u32)> = w.iter().map(|p| (p.x, p.y)).collect();
    assert_eq!(
        got,
        vec![
            (0, 0),
            (0, 1),
            (0, 2),
            (1, 0),
            (1, 1),
            (1, 2),
            (2, 0),
            (2, 1),
            (2, 2)
        ]
    );
}

#[test]
fn window3x3_corner_clamped() {
    let w = window3x3(c(0, 0), Size { x: 2, y: 2 });
    let got: Vec<(u32, u32)> = w.iter().map(|p| (p.x, p.y)).collect();
    assert_eq!(got, vec![(0, 0), (0, 1), (1, 0), (1, 1)]);
}

#[test]
fn window4_edge() {
    let w = window4(c(0, 0), Size { x: 2, y: 1 });
    let got: Vec<(u32, u32)> = w.iter().map(|p| (p.x, p.y)).collect();
    assert_eq!(got, vec![(1, 0)]);
}

#[test]
fn argmin_keeps_first_of_ties() {
    assert_eq!(argmin_first(&vec![5, 3, 3, 7]), 1);
    assert_eq!(argmin_first(&vec![9]), 0);
}

#[test]
fn argmax_keeps_first_of_ties() {
    assert_eq!(argmax_first(&vec![1, 9, 9]), 1);
    assert_eq!(argmax_first(&vec![2, 1]), 0);
}

#[test]
fn scatter_partitions_pixels() {
    let buckets = scatter(&vec![0, 1, 0, 2], 3);
    assert_eq!(buckets.len(), 3);
    assert_eq!(buckets[0], vec![0, 2]);
    assert_eq!(buckets[1], vec![1]);
    assert_eq!(buckets[2], vec![3]);
    // every pixel index appears exactly once over all buckets
    let mut seen = vec![false; 4];
    for b in &buckets {
        for &i in b {
            assert!(!seen[i]);
            seen[i] = true;
        }
    }
    assert!(seen.iter().all(|&s| s));
}

#[test]
fn center_of_empty_falls_back() {
    let p = center_of(&vec![], Size { x: 4, y: 4 }, c(2, 3));
    assert_eq!((p.x, p.y), (2, 3));
}

#[test]
fn center_of_is_floored_mean() {
    // pixels (1,0) and (2,1) in a 4x4 raster: indices 1 and 6.
    let p = center_of(&vec![1, 6], Size { x: 4, y: 4 }, c(0, 0));
    assert_eq!((p.x, p.y), (1, 0));
}

#[test]
fn update_centers_mixes_mean_and_fallback() {
    let buckets = vec![vec![], vec![5]];
    let originals = vec![c(1, 1), c(0, 0)];
    let centers = update_centers(&buckets, Size { x: 4, y: 4 }, &originals);
    assert_eq!((centers[0].x, centers[0].y), (1, 1));
    assert_eq!((centers[1].x, centers[1].y), (1, 1));
}

#[test]
fn smooth_centers_blends_two_cells() {
    // A 2x1 output grid; each cell's only neighbor is the other cell.
    let centers = vec![c(10, 10), c(20, 30)];
    let out = smooth_centers(&centers, Size { x: 2, y: 1 });
    assert_eq!((out[0].x, out[0].y), (14, 18));
    assert_eq!((out[1].x, out[1].y), (16, 22));
}
