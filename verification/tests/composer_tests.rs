use stitchery::catalog::{Catalog, Rgb};
use stitchery::composer::{
    histogram, legend, recolor, select_symbol_fonts, sort_by_floss, with_floss, Rgba,
};
use stitchery::symbols::symbols;

fn rgb(r: u8, g: u8, b: u8) -> Rgb {
    Rgb { r, g, b }
}

fn rgba(r: u8, g: u8, b: u8, a: u8) -> Rgba {
    Rgba { r, g, b, a }
}

fn small_catalog() -> Catalog {
    Catalog::from_records(&vec![
        (Some(666), rgb(227, 29, 66)),
        (Some(798), rgb(70, 106, 142)),
        (Some(5200), rgb(255, 255, 255)),
        (Some(310), rgb(0, 0, 0)),
    ])
}

#[test]
fn recolor_makes_transparent_pixels_white() {
    // Any pixel with alpha zero is recolored to opaque white before
    // histogramming, so it never receives a glyph.
    let cat = small_catalog();
    let pixels = vec![rgba(10, 20, 30, 0), rgba(250, 20, 40, 255)];
    let out = recolor(&pixels, &cat);
    assert_eq!(out[0], rgb(255, 255, 255));
    assert_eq!(out[1], rgb(227, 29, 66));
    let hist = histogram(&out);
    assert_eq!(hist.len(), 1);
    assert_eq!(hist[0].color, rgb(227, 29, 66));
}

#[test]
fn recolor_snaps_every_opaque_pixel_to_catalog() {
    let cat = small_catalog();
    let pixels = vec![
        rgba(255, 0, 0, 255),
        rgba(0, 0, 255, 255),
        rgba(5, 5, 5, 255),
    ];
    let out = recolor(&pixels, &cat);
    assert_eq!(out[0], rgb(227, 29, 66));
    assert_eq!(out[1], rgb(70, 106, 142));
    assert_eq!(out[2], rgb(0, 0, 0));
}

#[test]
fn histogram_counts_and_skips_white() {
    let red = rgb(200, 0, 0);
    let blue = rgb(0, 0, 200);
    let white = rgb(255, 255, 255);
    let hist = histogram(&vec![red, white, blue, red, red, white]);
    assert_eq!(hist.len(), 2);
    assert_eq!(hist[0].color, red);
    assert_eq!(hist[0].count, 3);
    assert_eq!(hist[1].color, blue);
    assert_eq!(hist[1].count, 1);
}

#[test]
fn legend_records_sort_by_floss() {
    let cat = small_catalog();
    let hist = histogram(&vec![
        rgb(70, 106, 142),
        rgb(227, 29, 66),
        rgb(0, 0, 0),
        rgb(227, 29, 66),
    ]);
    let records = with_floss(&hist, &cat);
    let sorted = sort_by_floss(&records);
    let flosses: Vec<u64> = sorted.iter().map(|r| r.floss).collect();
    assert_eq!(flosses, vec![310, 666, 798]);
    let reds: Vec<u64> = sorted.iter().filter(|r| r.floss == 666).map(|r| r.count).collect();
    assert_eq!(reds, vec![2]);
}

#[test]
fn symbol_alphabet_is_injective() {
    // Symbol assignment maps the i-th legend color to the i-th alphabet
    // entry; the entries are pairwise distinct, so the assignment is a
    // bijection onto the first entries of the alphabet.
    let syms = symbols();
    assert_eq!(syms.len(), 200);
    assert_eq!(syms[0], 'A');
    assert_eq!(syms[25], 'Z');
    assert_eq!(syms[26], 'a');
    for i in 0..syms.len() {
        for j in (i + 1)..syms.len() {
            assert_ne!(syms[i], syms[j]);
        }
    }
}

#[test]
fn legend_snaps_counts_and_orders() {
    // end to end: snap, histogram, floss numbers, floss order; the
    // transparent pixel becomes background and is not listed
    let cat = small_catalog();
    let pixels = vec![
        rgba(255, 0, 0, 255),
        rgba(255, 0, 0, 255),
        rgba(0, 0, 255, 255),
        rgba(2, 2, 2, 255),
        rgba(120, 120, 120, 0),
    ];
    let records = legend(&pixels, &cat).unwrap();
    let listed: Vec<(u64, u64)> = records.iter().map(|r| (r.floss, r.count)).collect();
    assert_eq!(listed, vec![(310, 1), (666, 2), (798, 1)]);
}

#[test]
fn legend_refuses_more_colors_than_symbols() {
    // 201 distinct catalog colors, each used by one pixel: one more color
    // than the symbol alphabet can mark
    let mut records = Vec::new();
    let mut pixels = Vec::new();
    for i in 0..201u32 {
        let r = (i % 16) as u8;
        let g = (i / 16) as u8;
        records.push((Some(i as u64 + 1), rgb(r, g, 100)));
        pixels.push(rgba(r, g, 100, 255));
    }
    let cat = Catalog::from_records(&records);
    assert!(legend(&pixels, &cat).is_none());
    // one fewer color fits
    pixels.pop();
    assert!(legend(&pixels, &cat).is_some());
}

#[test]
fn symbol_fonts_first_match_wins() {
    let coverage = vec![
        vec![false, true, true],
        vec![true, false],
        vec![false, false],
        vec![],
    ];
    let chosen = select_symbol_fonts(&coverage);
    assert_eq!(chosen, vec![Some(1), Some(0), None, None]);
}
