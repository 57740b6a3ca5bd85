// The Planckian locus the temperature slider walks, measured against
// tabulated blackbody chromaticities. What is measured is the library's
// exact integer evaluation of the fit; the shader that applies it on the GPU
// is not exercised here.

use open_darkroom_lib::colorimetry::locus_chromaticity;

/// Tabulated chromaticities of a Planckian (blackbody) radiator under the CIE
/// 1931 2° observer. 2856 K is CIE standard illuminant A.
const PLANCKIAN_LOCUS: [(f32, f64, f64); 15] = [
    (2000.0, 0.5267, 0.4133),
    (2500.0, 0.4770, 0.4137),
    (2856.0, 0.44758, 0.40745),
    (3000.0, 0.4369, 0.4041),
    (3500.0, 0.4053, 0.3907),
    (4000.0, 0.3805, 0.3768),
    (4500.0, 0.3608, 0.3636),
    (5000.0, 0.3451, 0.3516),
    (5500.0, 0.3325, 0.3411),
    (6000.0, 0.3221, 0.3318),
    (6500.0, 0.3135, 0.3237),
    (7000.0, 0.3064, 0.3166),
    (8000.0, 0.2952, 0.3048),
    (9000.0, 0.2869, 0.2956),
    (10000.0, 0.2807, 0.2884),
];

/// The temperature range the UI offers.
const UI_TEMP_RANGE: (f32, f32) = (2200.0, 8800.0);

/// Chromaticity slack against the table above: the cubic fit tracks the
/// locus to about 1.6e-4 from 4000 K up and loses roughly half a thousandth
/// toward the bottom of its range.
fn locus_tol(temp: f32) -> f64 {
    if temp < 4000.0 {
        8e-4
    } else {
        3e-4
    }
}

/// The locus chromaticities for `temps`, in kelvin.
fn locus(temps: &[f32]) -> Vec<(f64, f64)> {
    temps
        .iter()
        .map(|&t| {
            let (x, y) = locus_chromaticity((t as f64 * 1000.0).round() as u32);
            (x as f64 / 1e9, y as f64 / 1e9)
        })
        .collect()
}

#[test]
fn the_locus_matches_published_blackbody_chromaticities() {
    let temps: Vec<f32> = PLANCKIAN_LOCUS.iter().map(|&(t, _, _)| t).collect();
    let got = locus(&temps);

    for (&(temp, want_x, want_y), &(x, y)) in PLANCKIAN_LOCUS.iter().zip(got.iter()) {
        let tol = locus_tol(temp);
        assert!(
            (x - want_x).abs() < tol,
            "{temp} K: chromaticity x expected {want_x:.5}, got {x:.5} (off by {:.1e})",
            (x - want_x).abs()
        );
        assert!(
            (y - want_y).abs() < tol,
            "{temp} K: chromaticity y expected {want_y:.5}, got {y:.5} (off by {:.1e})",
            (y - want_y).abs()
        );
    }
}

#[test]
fn the_locus_is_continuous_across_its_branch_boundaries() {
    const STEP_TOL: f64 = 2e-4;

    for boundary in [2222.0f32, 4000.0] {
        let got = locus(&[boundary - 0.1, boundary + 0.1]);
        let (below, above) = (got[0], got[1]);

        assert!(
            (below.0 - above.0).abs() < STEP_TOL && (below.1 - above.1).abs() < STEP_TOL,
            "the locus steps at {boundary} K: ({:.6}, {:.6}) → ({:.6}, {:.6})",
            below.0,
            below.1,
            above.0,
            above.1
        );
    }
}

#[test]
fn the_locus_runs_monotonically_across_the_slider_range() {
    let (min, max) = UI_TEMP_RANGE;
    let temps: Vec<f32> = (0..=132)
        .map(|i| min + (max - min) * i as f32 / 132.0)
        .collect();
    let got = locus(&temps);

    for i in 1..got.len() {
        assert!(
            got[i].0 < got[i - 1].0,
            "chromaticity x rose from {:.0} K to {:.0} K ({:.6} → {:.6})",
            temps[i - 1],
            temps[i],
            got[i - 1].0,
            got[i].0
        );
    }

    // y peaks near 2250 K and falls away on both sides, so the check starts
    // past the bend.
    let bend = temps.iter().position(|&t| t >= 2500.0).unwrap();
    for i in bend + 1..got.len() {
        assert!(
            got[i].1 < got[i - 1].1,
            "chromaticity y rose from {:.0} K to {:.0} K ({:.6} → {:.6})",
            temps[i - 1],
            temps[i],
            got[i - 1].1,
            got[i].1
        );
    }
}

#[test]
fn temperatures_below_the_floor_are_clamped() {
    assert_eq!(locus_chromaticity(500_000), locus_chromaticity(1_000_000));
    assert_eq!(locus_chromaticity(0), locus_chromaticity(1_000_000));
}

#[test]
fn the_locus_at_illuminant_a_has_an_exact_value() {
    // The fit evaluated exactly at 2856 K and rounded down to 1e-9.
    let (x, y) = locus_chromaticity(2_856_000);
    assert_eq!((x, y), (447_070_675, 407_508_798));
}
