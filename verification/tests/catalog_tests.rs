use stitchery::catalog::{Catalog, Rgb};

fn rgb(r: u8, g: u8, b: u8) -> Rgb {
    Rgb { r, g, b }
}

#[test]
fn from_records_drops_null_floss() {
    let cat = Catalog::from_records(&vec![
        (Some(310), rgb(0, 0, 0)),
        (None, rgb(1, 2, 3)),
        (Some(666), rgb(227, 29, 66)),
    ]);
    assert_eq!(cat.len(), 2);
    assert_eq!(cat.entries[0].floss, 310);
    assert_eq!(cat.entries[1].floss, 666);
}

#[test]
fn floss_of_last_duplicate_wins() {
    let cat = Catalog::from_records(&vec![
        (Some(1), rgb(255, 0, 0)),
        (Some(2), rgb(255, 0, 0)),
        (Some(3), rgb(0, 0, 255)),
    ]);
    assert_eq!(cat.floss_of(rgb(255, 0, 0)), Some(2));
    assert_eq!(cat.floss_of(rgb(0, 0, 255)), Some(3));
    assert_eq!(cat.floss_of(rgb(9, 9, 9)), None);
}

#[test]
fn nearest_finds_exact_color_wherever_listed() {
    // An exact match has Lab distance zero and must win even when it is not
    // the first entry; this fails if the distance wrapper were constant.
    let cat = Catalog::from_records(&vec![
        (Some(1), rgb(0, 0, 255)),
        (Some(2), rgb(255, 0, 0)),
    ]);
    assert_eq!(cat.nearest(rgb(255, 0, 0)), 1);
    assert_eq!(cat.nearest(rgb(0, 0, 255)), 0);
}

#[test]
fn nearest_picks_perceptually_closest() {
    let cat = Catalog::from_records(&vec![
        (Some(1), rgb(255, 0, 0)),
        (Some(2), rgb(0, 255, 0)),
        (Some(3), rgb(0, 0, 255)),
        (Some(4), rgb(255, 255, 255)),
    ]);
    assert_eq!(cat.nearest(rgb(250, 10, 5)), 0);
    assert_eq!(cat.nearest(rgb(10, 240, 20)), 1);
    assert_eq!(cat.nearest(rgb(20, 10, 250)), 2);
    assert_eq!(cat.nearest(rgb(250, 250, 250)), 3);
}

#[test]
fn nearest_tie_takes_first_entry() {
    let cat = Catalog::from_records(&vec![
        (Some(7), rgb(40, 50, 60)),
        (Some(8), rgb(40, 50, 60)),
    ]);
    assert_eq!(cat.nearest(rgb(40, 50, 60)), 0);
}
