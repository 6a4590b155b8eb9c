use fractal_clock::fractal::{branch_segments, quantize, Node};
use fractal_clock::geom::{Fp2, Rotor};

fn seed(x: i64, y: i64) -> Node {
    Node {
        pos: Fp2 { x, y },
        dir: Fp2 { x, y },
    }
}

// the rotors that unit vectors pointing along +x produce for hand length 0.8
fn rotor_along_x() -> Rotor {
    Rotor {
        re: -800_000,
        im: 0,
    }
}

#[test]
fn quantize_exact_values() {
    assert_eq!(quantize(0), 0);
    assert_eq!(quantize(1_000_000), 255);
    assert_eq!(quantize(700_000), 179);
    // rounding boundary: 255 * l + 500_000 reaches one scale unit at l = 1961
    assert_eq!(quantize(1_961), 1);
    assert_eq!(quantize(1_960), 0);
}

#[test]
fn branch_count_at_full_luminance_budget() {
    // with a luminance factor of one the budget never runs out, so every
    // depth emits exactly 2 * (2^(depth+1) - 2) segments
    for depth in 0u8..=14 {
        let segs = branch_segments(
            seed(800_000, 0),
            seed(800_000, 0),
            rotor_along_x(),
            rotor_along_x(),
            depth,
            700_000,
            1_000_000,
            2_500_000,
            900_000,
        );
        let expected = 2 * ((1u64 << (depth as u32 + 1)) - 2);
        assert_eq!(segs.len() as u64, expected, "depth {}", depth);
    }
}

#[test]
fn depth_zero_emits_no_branch_segments() {
    let segs = branch_segments(
        seed(800_000, 0),
        seed(800_000, 0),
        rotor_along_x(),
        rotor_along_x(),
        0,
        700_000,
        800_000,
        2_500_000,
        900_000,
    );
    assert_eq!(segs.len(), 0);
}

#[test]
fn zero_luminance_factor_stops_before_the_first_level() {
    // luminance decays before a level is drawn, so a zero factor blacks
    // out the very first level and nothing is emitted
    let segs = branch_segments(
        seed(800_000, 0),
        seed(800_000, 0),
        rotor_along_x(),
        rotor_along_x(),
        14,
        700_000,
        0,
        2_500_000,
        900_000,
    );
    assert_eq!(segs.len(), 0);
}

#[test]
fn luminance_strictly_decreases_across_levels() {
    let segs = branch_segments(
        seed(800_000, 0),
        seed(800_000, 0),
        rotor_along_x(),
        rotor_along_x(),
        10,
        700_000,
        800_000,
        2_500_000,
        900_000,
    );
    let mut lums: Vec<u8> = Vec::new();
    for s in segs.iter() {
        if lums.last() != Some(&s.lum) {
            lums.push(s.lum);
        }
    }
    assert!(lums.len() > 1);
    for w in lums.windows(2) {
        assert!(w[0] > w[1], "levels must get strictly dimmer: {:?}", lums);
    }
    assert!(*lums.last().unwrap() > 0);
}

#[test]
fn luminance_cutoff_ends_emission_early() {
    // with a decay factor of 0.1 the third level already quantises to
    // black: levels one and two are emitted (4 + 8 segments), nothing more
    let segs = branch_segments(
        seed(800_000, 0),
        seed(800_000, 0),
        rotor_along_x(),
        rotor_along_x(),
        14,
        700_000,
        100_000,
        2_500_000,
        900_000,
    );
    assert_eq!(segs.len(), 12);
    assert_eq!(segs[0].lum, quantize(70_000));
    assert_eq!(segs[4].lum, quantize(7_000));
}

#[test]
fn branch_geometry_first_level() {
    // a rotor of (-0.8, 0) flips and shrinks each direction; the first
    // level's segments run from each seed tip to tip + rotated direction
    let segs = branch_segments(
        seed(800_000, 0),
        seed(800_000, 0),
        rotor_along_x(),
        rotor_along_x(),
        1,
        700_000,
        1_000_000,
        2_500_000,
        900_000,
    );
    assert_eq!(segs.len(), 4);
    let s = &segs[0];
    assert_eq!((s.p0.x, s.p0.y), (800_000, 0));
    // new direction: (-0.8) * 0.8 = -0.64
    assert_eq!((s.p1.x, s.p1.y), (800_000 - 640_000, 0));
    // width decayed once: 2.5 * 0.9
    assert_eq!(s.width, 2_250_000);
}

#[test]
fn width_decays_per_level() {
    let segs = branch_segments(
        seed(800_000, 0),
        seed(800_000, 0),
        rotor_along_x(),
        rotor_along_x(),
        3,
        700_000,
        1_000_000,
        2_000_000,
        500_000,
    );
    // level sizes 4, 8, 16; widths 1.0, 0.5, 0.25
    assert_eq!(segs.len(), 28);
    assert_eq!(segs[0].width, 1_000_000);
    assert_eq!(segs[4].width, 500_000);
    assert_eq!(segs[12].width, 250_000);
}
