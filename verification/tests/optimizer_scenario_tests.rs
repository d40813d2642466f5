// Scenario tests that drive the annealing loop around the library's
// decision functions, with plain floating-point glue for the color
// arithmetic, as the surrounding binary does.

use palette::FromColor;
use stitchery::assign::{argmax_first, argmin_first, refine_positions};
use stitchery::cluster::Clustering;
use stitchery::geometry::{cell_of_pixel, output_size, seed_center, Coord, Size};
use stitchery::geometry::window3x3;

const T_FINAL: f64 = 1.0;
const ALPHA: f64 = 0.7;
const EPSILON_PALETTE: f64 = 1.0;
const EPSILON_CLUSTER: f64 = 0.25;

#[derive(Clone, Copy, Debug, PartialEq)]
struct Lab3 {
    l: f64,
    a: f64,
    b: f64,
}

fn lab(r: u8, g: u8, b: u8) -> Lab3 {
    let c: palette::rgb::Srgb<f64> = palette::rgb::Srgb::new(r, g, b).into_format();
    let l = palette::Lab::<palette::white_point::D65, f64>::from_color(c);
    Lab3 {
        l: l.l,
        a: l.a,
        b: l.b,
    }
}

fn dist(p: Lab3, q: Lab3) -> f64 {
    ((p.l - q.l).powi(2) + (p.a - q.a).powi(2) + (p.b - q.b).powi(2)).sqrt()
}

fn add(p: Lab3, q: Lab3) -> Lab3 {
    Lab3 {
        l: p.l + q.l,
        a: p.a + q.a,
        b: p.b + q.b,
    }
}

fn scale(p: Lab3, s: f64) -> Lab3 {
    Lab3 {
        l: p.l * s,
        a: p.a * s,
        b: p.b * s,
    }
}

fn mean(colors: &[Lab3]) -> Lab3 {
    let mut m = Lab3 { l: 0.0, a: 0.0, b: 0.0 };
    for c in colors {
        m = add(m, *c);
    }
    scale(m, 1.0 / colors.len() as f64)
}

fn perturb(c: &mut Lab3, dx: f64, dy: f64) {
    c.l += dx;
    c.a += dy;
    c.b += dy;
}

struct Sp {
    center: Coord,
    palette_color: Lab3,
    probability: f64,
    cond: Vec<f64>,
    sp_color: Lab3,
    original_center: Coord,
    original_color: Lab3,
}

fn seed_superpixels(img: &[Lab3], in_size: Size, out_size: Size, init: Lab3) -> Vec<Sp> {
    let mut sps = Vec::new();
    for gy in 0..out_size.y {
        for gx in 0..out_size.x {
            let center = seed_center(gx, gy, in_size, out_size);
            sps.push(Sp {
                center,
                palette_color: init,
                probability: 1.0 / (out_size.x * out_size.y) as f64,
                cond: vec![0.5, 0.5],
                sp_color: Lab3 { l: 0.0, a: 0.0, b: 0.0 },
                original_center: center,
                original_color: img[(center.x + center.y * in_size.x) as usize],
            });
        }
    }
    sps
}

/// One SP_REFINE pass; returns the per-pixel choices so a caller can watch
/// for a fixed point.
fn sp_refine(sps: &mut Vec<Sp>, img: &[Lab3], in_size: Size, out_size: Size) -> Vec<usize> {
    let spatial =
        45.0 * ((out_size.x * out_size.y) as f64 / (in_size.x * in_size.y) as f64).powf(0.5);
    let mut choices = Vec::new();
    for idx in 0..img.len() {
        let p = Coord {
            x: idx as u32 % in_size.x,
            y: idx as u32 / in_size.x,
        };
        let window = window3x3(cell_of_pixel(p, in_size, out_size), out_size);
        let keys: Vec<u64> = window
            .iter()
            .map(|c| {
                let sp = &sps[(c.x + c.y * out_size.x) as usize];
                let dx = sp.center.x as f64 - p.x as f64;
                let dy = sp.center.y as f64 - p.y as f64;
                (dist(img[idx], sp.palette_color) + spatial * (dx * dx + dy * dy).sqrt())
                    .to_bits()
            })
            .collect();
        let best = window[argmin_first(&keys)];
        choices.push((best.x + best.y * out_size.x) as usize);
    }
    let originals: Vec<Coord> = sps.iter().map(|sp| sp.original_center).collect();
    let (buckets, new_centers) = refine_positions(&choices, in_size, out_size, &originals);
    for (sp, bucket) in sps.iter_mut().zip(&buckets) {
        sp.sp_color = if bucket.is_empty() {
            sp.original_color
        } else {
            mean(&bucket.iter().map(|&i| img[i]).collect::<Vec<_>>())
        };
    }
    let mut new_colors = Vec::with_capacity(sps.len());
    for j in 0..out_size.y {
        for i in 0..out_size.x {
            let sp = &sps[(i + j * out_size.x) as usize];
            let mut w_sum = 0.0;
            let mut avg = Lab3 { l: 0.0, a: 0.0, b: 0.0 };
            for n in window3x3(Coord { x: i, y: j }, out_size) {
                let next = sps[(n.x + n.y * out_size.x) as usize].sp_color;
                let w = std::f64::consts::E.powf(-1.0 * (sp.sp_color.l - next.l).abs());
                avg = add(avg, scale(next, w));
                w_sum += w;
            }
            new_colors.push(add(scale(sp.sp_color, 0.5), scale(scale(avg, 1.0 / w_sum), 0.5)));
        }
    }
    for (k, sp) in sps.iter_mut().enumerate() {
        sp.center = new_centers[k];
        sp.sp_color = new_colors[k];
    }
    choices
}

fn associate(sps: &mut Vec<Sp>, palette: &mut Vec<(Lab3, f64)>, t: f64) {
    for sp in sps.iter_mut() {
        sp.cond = palette
            .iter()
            .map(|(c, pi)| pi * std::f64::consts::E.powf(-1.0 * dist(sp.sp_color, *c) / t))
            .collect();
        let keys: Vec<u64> = sp.cond.iter().map(|p| p.to_bits()).collect();
        sp.palette_color = palette[argmax_first(&keys)].0;
        let denom: f64 = sp.cond.iter().sum();
        for p in sp.cond.iter_mut() {
            *p /= denom;
        }
    }
    for (i, entry) in palette.iter_mut().enumerate() {
        entry.1 = sps.iter().map(|sp| sp.cond[i] * sp.probability).sum();
    }
}

fn palette_refine(sps: &[Sp], palette: &mut Vec<(Lab3, f64)>) -> f64 {
    let mut total = 0.0;
    for (i, entry) in palette.iter_mut().enumerate() {
        let mut new_color = Lab3 { l: 0.0, a: 0.0, b: 0.0 };
        for sp in sps {
            new_color = add(new_color, scale(sp.sp_color, sp.cond[i] * sp.probability / entry.1));
        }
        total += dist(entry.0, new_color);
        entry.0 = new_color;
    }
    total
}

/// The full annealing loop at the given starting temperature, driven by the
/// library's convergence and cluster bookkeeping.
fn anneal(
    img: &[Lab3],
    in_size: Size,
    out_size: Size,
    k_max: usize,
    delta: (f64, f64),
    mut t: f64,
) -> (Vec<Sp>, Vec<(Lab3, f64)>, Clustering) {
    let init = mean(img);
    let mut sps = seed_superpixels(img, in_size, out_size, init);
    let mut clustering = Clustering::new();
    let mut palette = vec![(init, 0.5), (init, 0.5)];
    perturb(&mut palette[1].0, delta.0, delta.1);
    let mut rounds = 0;
    while t > T_FINAL {
        rounds += 1;
        assert!(rounds < 20000, "the annealing did not converge");
        sp_refine(&mut sps, img, in_size, out_size);
        associate(&mut sps, &mut palette, t);
        let total_change = palette_refine(&sps, &mut palette);
        if total_change < EPSILON_PALETTE {
            t *= ALPHA;
            if clustering.clusters.len() < k_max {
                let split: Vec<bool> = clustering
                    .clusters
                    .iter()
                    .map(|c| dist(palette[c.a].0, palette[c.b].0) > EPSILON_CLUSTER)
                    .collect();
                let result = clustering.expand(&split, k_max);
                for (a, b) in result.splits {
                    palette[a].1 /= 2.0;
                    palette[b].1 /= 2.0;
                    let ca = palette[a];
                    let cb = palette[b];
                    palette.push(ca);
                    palette.push(cb);
                }
                if let Some(pairs) = result.collapse {
                    let mut np = Vec::new();
                    for (a, b) in pairs {
                        np.push((
                            scale(add(palette[a].0, palette[b].0), 0.5),
                            palette[a].1 + palette[b].1,
                        ));
                    }
                    palette = np;
                } else {
                    for i in result.perturb {
                        perturb(&mut palette[i].0, delta.0, delta.1);
                    }
                }
            }
        }
    }
    (sps, palette, clustering)
}

#[test]
fn solid_input_converges_to_single_color() {
    // A solid 16x16 input with one color: the Lab point cloud has no
    // variance, the starting temperature is already at the floor, and the
    // palette never splits; every output pixel snaps to the catalog entry
    // nearest the input color.
    let solid = lab(230, 30, 60);
    let img = vec![solid; 16 * 16];
    let in_size = Size { x: 16, y: 16 };
    let out_size = output_size(in_size, 16);
    assert_eq!((out_size.x, out_size.y), (16, 16));
    let t0 = 1.1 * 0.0;
    let (sps, _, clustering) = anneal(&img, in_size, out_size, 1, (0.0, 0.0), t0);
    assert_eq!(clustering.clusters.len(), 1);

    // snapping with the optimizer's channel tilt
    let catalog = [
        (666u64, (227u8, 29u8, 66u8)),
        (798, (70, 106, 142)),
        (5200, (255, 255, 255)),
        (310, (0, 0, 0)),
    ];
    for sp in &sps {
        let tilted = Lab3 {
            l: sp.palette_color.l,
            a: sp.palette_color.a * 1.1,
            b: sp.palette_color.b * 1.1,
        };
        let snapped = catalog
            .iter()
            .min_by_key(|(_, (r, g, b))| float_ord::FloatOrd(dist(lab(*r, *g, *b), tilted)))
            .unwrap();
        assert_eq!(snapped.0, 666);
    }
}

#[test]
fn checker_input_settles_on_two_catalog_colors() {
    // A two-by-two checker of pure red and blue, pixelized at sixteen to a
    // side with two colors: the annealed palette snaps onto exactly the two
    // catalog entries nearest to red and to blue.
    let red = lab(255, 0, 0);
    let blue = lab(0, 0, 255);
    let img = vec![red, blue, blue, red];
    let in_size = Size { x: 2, y: 2 };
    let out_size = output_size(in_size, 16);
    // first principal axis of the two-point cloud, scaled as the seed delta
    let d = dist(red, blue);
    let axis = scale(add(red, scale(blue, -1.0)), 1.0 / d);
    let variance = d * d / 3.0;
    let (sps, _, _) = anneal(
        &img,
        in_size,
        out_size,
        2,
        (1.5 * axis.l, 1.5 * axis.a),
        1.1 * variance,
    );

    let catalog = [
        (666u64, (227u8, 29u8, 66u8)),
        (798, (70, 106, 142)),
        (820, (14, 54, 92)),
        (5200, (255, 255, 255)),
        (310, (0, 0, 0)),
        (321, (199, 43, 59)),
    ];
    let expected_red = catalog
        .iter()
        .min_by_key(|(_, (r, g, b))| float_ord::FloatOrd(dist(lab(*r, *g, *b), red)))
        .unwrap()
        .0;
    let expected_blue = catalog
        .iter()
        .min_by_key(|(_, (r, g, b))| float_ord::FloatOrd(dist(lab(*r, *g, *b), blue)))
        .unwrap()
        .0;
    let mut seen = std::collections::BTreeSet::new();
    for sp in &sps {
        let tilted = Lab3 {
            l: sp.palette_color.l,
            a: sp.palette_color.a * 1.1,
            b: sp.palette_color.b * 1.1,
        };
        let snapped = catalog
            .iter()
            .min_by_key(|(_, (r, g, b))| float_ord::FloatOrd(dist(lab(*r, *g, *b), tilted)))
            .unwrap();
        seen.insert(snapped.0);
    }
    let expected: std::collections::BTreeSet<u64> =
        [expected_red, expected_blue].into_iter().collect();
    assert_eq!(seen, expected);
}

/// First principal axis of the centered Lab point cloud and its explained
/// variance, by power iteration on the 3x3 covariance matrix.
fn principal_axis(img: &[Lab3]) -> (Lab3, f64) {
    let m = mean(img);
    let mut cov = [[0.0f64; 3]; 3];
    for c in img {
        let d = [c.l - m.l, c.a - m.a, c.b - m.b];
        for i in 0..3 {
            for j in 0..3 {
                cov[i][j] += d[i] * d[j];
            }
        }
    }
    let n = img.len() as f64 - 1.0;
    for row in cov.iter_mut() {
        for v in row.iter_mut() {
            *v /= n;
        }
    }
    let mut v = [1.0f64, 1.0, 1.0];
    let mut eigen = 0.0;
    for _ in 0..200 {
        let w = [
            cov[0][0] * v[0] + cov[0][1] * v[1] + cov[0][2] * v[2],
            cov[1][0] * v[0] + cov[1][1] * v[1] + cov[1][2] * v[2],
            cov[2][0] * v[0] + cov[2][1] * v[1] + cov[2][2] * v[2],
        ];
        let norm = (w[0] * w[0] + w[1] * w[1] + w[2] * w[2]).sqrt();
        v = [w[0] / norm, w[1] / norm, w[2] / norm];
        eigen = norm;
    }
    (
        Lab3 {
            l: v[0],
            a: v[1],
            b: v[2],
        },
        eigen,
    )
}

#[test]
fn gradient_palette_orders_along_principal_axis() {
    // A 64x64 gradient annealed toward four colors: the four palette
    // entries, projected onto the input's first principal axis, are
    // strictly ordered with spacings well past the cluster threshold.
    let in_size = Size { x: 64, y: 64 };
    let mut img = Vec::new();
    for _y in 0..64 {
        for x in 0..64u32 {
            let t = x as f64 / 63.0;
            let r = (30.0 + t * 200.0) as u8;
            let g = (20.0 + t * 180.0) as u8;
            let b = (60.0 + t * 150.0) as u8;
            img.push(lab(r, g, b));
        }
    }
    let (axis, variance) = principal_axis(&img);

    let out_size = output_size(in_size, 16);
    let (_, palette, clustering) = anneal(
        &img,
        in_size,
        out_size,
        4,
        (1.5 * axis.l, 1.5 * axis.a),
        1.1 * variance,
    );
    assert!(clustering.collapsed);
    assert_eq!(palette.len(), 4);
    let mut proj: Vec<f64> = palette
        .iter()
        .map(|(c, _)| c.l * axis.l + c.a * axis.a + c.b * axis.b)
        .collect();
    proj.sort_by(|x, y| x.partial_cmp(y).unwrap());
    for pair in proj.windows(2) {
        assert!(pair[1] - pair[0] > EPSILON_CLUSTER);
    }
}

#[test]
fn refine_reaches_fixed_point_on_flat_regions() {
    // With the temperature held and the palette unchanged, repeated
    // SP_REFINE passes on a few constant-color regions settle: the pixel
    // assignment and the centers stop moving within a bounded number of
    // passes.
    let colors = [lab(200, 40, 40), lab(40, 200, 40), lab(40, 40, 200), lab(220, 220, 40)];
    let in_size = Size { x: 16, y: 16 };
    let mut img = Vec::new();
    for y in 0..16 {
        for x in 0..16 {
            let region = (x / 8) + 2 * (y / 8);
            img.push(colors[region as usize]);
        }
    }
    let out_size = Size { x: 4, y: 4 };
    let init = mean(&img);
    let mut sps = seed_superpixels(&img, in_size, out_size, init);
    // fix one assigned color per superpixel from its region
    for sp in sps.iter_mut() {
        sp.palette_color = img[(sp.center.x + sp.center.y * in_size.x) as usize];
    }
    let mut last: Option<(Vec<usize>, Vec<(u32, u32)>)> = None;
    let mut settled = false;
    for _ in 0..100 {
        let choices = sp_refine(&mut sps, &img, in_size, out_size);
        let centers: Vec<(u32, u32)> = sps.iter().map(|sp| (sp.center.x, sp.center.y)).collect();
        if let Some((pc, cc)) = &last {
            if *pc == choices && *cc == centers {
                settled = true;
                break;
            }
        }
        last = Some((choices, centers));
    }
    assert!(settled, "refinement did not reach a fixed point");
}
