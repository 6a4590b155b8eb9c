use fractal_clock::color::{Palette, Rgba};
use fractal_clock::fractal::{branch_segments, Node};
use fractal_clock::geom::{Fp2, RectPx, Rotor};
use fractal_clock::render::{derive_rotor, generate, HandUnits, Primitive, RenderOptions};

fn viewport_100px() -> RectPx {
    RectPx {
        min_x: 0,
        min_y: 0,
        max_x: 100_000_000,
        max_y: 100_000_000,
    }
}

fn units_along_x() -> HandUnits {
    let u = Fp2 { x: 1_000_000, y: 0 };
    HandUnits {
        second: u,
        minute: u,
        hour: u,
    }
}

fn no_decor() -> RenderOptions {
    RenderOptions {
        ring_decoration: false,
        colored_pointer_overlay: false,
    }
}

fn empty_table() -> Vec<Fp2> {
    Vec::new()
}

#[test]
fn derive_rotor_along_x() {
    // equal hand and hour units: the rotor is the hand length rotated by pi
    let r = derive_rotor(
        800_000,
        &Fp2 { x: 1_000_000, y: 0 },
        &Fp2 { x: 1_000_000, y: 0 },
    );
    assert_eq!(r, Rotor { re: -800_000, im: 0 });
    // opposite units: the half turn cancels and the rotor points forward
    let r2 = derive_rotor(
        800_000,
        &Fp2 { x: -1_000_000, y: 0 },
        &Fp2 { x: 1_000_000, y: 0 },
    );
    assert_eq!(r2, Rotor { re: 800_000, im: 0 });
}

#[test]
fn generate_hand_lines_exact_device_coordinates() {
    let prims = generate(
        250_000,
        2_500_000,
        0,
        800_000,
        800_000,
        900_000,
        2_000_000,
        40_000,
        &Palette::default(),
        &units_along_x(),
        &viewport_100px(),
        &empty_table(),
        &empty_table(),
        no_decor(),
    );
    // depth 0: just the three hand lines
    assert_eq!(prims.len(), 3);
    match prims[0] {
        Primitive::Line { p0, p1, width, color } => {
            assert_eq!((p0.x, p0.y), (50_000_000, 50_000_000));
            assert_eq!((p1.x, p1.y), (70_000_000, 50_000_000));
            assert_eq!(width, 2_500_000);
            assert_eq!(
                color,
                Rgba {
                    r: 255,
                    g: 255,
                    b: 255,
                    a: 0
                }
            );
        }
        _ => panic!("expected a hand line"),
    }
    // the hour hand is fixed at half length
    match prims[2] {
        Primitive::Line { p1, .. } => {
            assert_eq!((p1.x, p1.y), (62_500_000, 50_000_000));
        }
        _ => panic!("expected a hand line"),
    }
}

#[test]
fn pointer_overlay_adds_colored_lines() {
    let pal = Palette::default();
    let prims = generate(
        250_000,
        2_500_000,
        0,
        800_000,
        800_000,
        900_000,
        2_000_000,
        40_000,
        &pal,
        &units_along_x(),
        &viewport_100px(),
        &empty_table(),
        &empty_table(),
        RenderOptions {
            ring_decoration: false,
            colored_pointer_overlay: true,
        },
    );
    assert_eq!(prims.len(), 6);
    // overlay comes first, slightly narrower, in the hand's own color
    match prims[0] {
        Primitive::Line { width, color, .. } => {
            assert_eq!(width, 2_325_000);
            assert_eq!(color, pal.red);
        }
        _ => panic!("expected the overlay line"),
    }
    match prims[2] {
        Primitive::Line { color, .. } => assert_eq!(color, pal.green),
        _ => panic!("expected the overlay line"),
    }
    match prims[4] {
        Primitive::Line { color, .. } => assert_eq!(color, pal.blue),
        _ => panic!("expected the overlay line"),
    }
}

#[test]
fn generate_counts_hands_plus_branches() {
    // luminance factor one: full budget; depth 2 gives 2*(2^3-2) = 12
    let prims = generate(
        250_000,
        2_500_000,
        2,
        800_000,
        1_000_000,
        900_000,
        2_000_000,
        40_000,
        &Palette::default(),
        &units_along_x(),
        &viewport_100px(),
        &empty_table(),
        &empty_table(),
        no_decor(),
    );
    assert_eq!(prims.len(), 3 + 12);
}

#[test]
fn culling_drops_offscreen_branches_without_touching_the_recursion() {
    // hands opposite the hour hand: the rotor points outward, so every
    // branch runs away from the origin, outside the zoom-1 view square
    let u = Fp2 {
        x: -1_000_000,
        y: 0,
    };
    let hands = HandUnits {
        second: u,
        minute: u,
        hour: Fp2 { x: 1_000_000, y: 0 },
    };
    let culled = generate(
        1_000_000,
        2_500_000,
        2,
        800_000,
        1_000_000,
        900_000,
        2_000_000,
        40_000,
        &Palette::default(),
        &hands,
        &viewport_100px(),
        &empty_table(),
        &empty_table(),
        no_decor(),
    );
    // only the three hand lines survive; all twelve branch segments lie
    // left of the viewport
    assert_eq!(culled.len(), 3);

    // the recursion itself is blind to the viewport: the same seeds and
    // rotors still produce all twelve segments
    let r = derive_rotor(800_000, &u, &hands.hour);
    let seed = Node {
        pos: Fp2 { x: -800_000, y: 0 },
        dir: Fp2 { x: -800_000, y: 0 },
    };
    let segs = branch_segments(
        seed, seed, r, r, 2, 700_000, 1_000_000, 2_500_000, 900_000,
    );
    assert_eq!(segs.len(), 12);
    // wider zoom: the same branches fit the view and are all emitted
    let visible = generate(
        250_000,
        2_500_000,
        2,
        800_000,
        1_000_000,
        900_000,
        2_000_000,
        40_000,
        &Palette::default(),
        &hands,
        &viewport_100px(),
        &empty_table(),
        &empty_table(),
        no_decor(),
    );
    assert_eq!(visible.len(), 3 + 12);
}

#[test]
fn ring_decoration_counts_and_hour_labels() {
    let mut ruling: Vec<Fp2> = Vec::new();
    for _ in 0..120 {
        ruling.push(Fp2 { x: 1_880_000, y: 0 });
    }
    let mut txt: Vec<Fp2> = Vec::new();
    for _ in 0..24 {
        txt.push(Fp2 { x: 1_780_000, y: 0 });
    }
    let prims = generate(
        250_000,
        2_500_000,
        0,
        800_000,
        800_000,
        900_000,
        2_000_000,
        40_000,
        &Palette::default(),
        &units_along_x(),
        &viewport_100px(),
        &ruling,
        &txt,
        RenderOptions {
            ring_decoration: true,
            colored_pointer_overlay: false,
        },
    );
    // 3 hands + 2 circles + 120 tick squares + 24 hour numbers
    assert_eq!(prims.len(), 3 + 2 + 120 + 24);
    let hours: Vec<u8> = prims
        .iter()
        .filter_map(|p| match p {
            Primitive::Text { hour, .. } => Some(*hour),
            _ => None,
        })
        .collect();
    assert_eq!(hours.len(), 24);
    assert_eq!(hours[0], 12);
    assert_eq!(hours[1], 1);
    assert_eq!(hours[11], 11);
    assert_eq!(hours[12], 12);
    assert_eq!(hours[23], 11);
    let circles = prims
        .iter()
        .filter(|p| matches!(p, Primitive::Circle { .. }))
        .count();
    assert_eq!(circles, 2);
}

#[test]
fn derive_rotor_quarter_turn_apart() {
    // hand at a quarter turn, hour hand at zero: the rotor is the hand
    // length at three quarter turns
    let r = derive_rotor(
        800_000,
        &Fp2 { x: 0, y: 1_000_000 },
        &Fp2 { x: 1_000_000, y: 0 },
    );
    assert_eq!(r, Rotor { re: 0, im: -800_000 });
}

#[test]
fn branch_rotation_with_imaginary_rotor() {
    // a rotor of (0, -0.8) turns a direction a quarter turn clockwise and
    // shrinks it
    let seed = Node {
        pos: Fp2 { x: 0, y: 800_000 },
        dir: Fp2 { x: 0, y: 800_000 },
    };
    let r = Rotor { re: 0, im: -800_000 };
    let segs = branch_segments(seed, seed, r, r, 1, 700_000, 1_000_000, 2_500_000, 900_000);
    assert_eq!(segs.len(), 4);
    assert_eq!((segs[0].p0.x, segs[0].p0.y), (0, 800_000));
    assert_eq!((segs[0].p1.x, segs[0].p1.y), (640_000, 800_000));
}

#[test]
fn default_palette_is_the_documented_one() {
    let pal = Palette::default();
    let white = Rgba {
        r: 255,
        g: 255,
        b: 255,
        a: 255,
    };
    assert_eq!(pal.white, white);
    assert_eq!(pal.border, white);
    assert_eq!(
        pal.red,
        Rgba {
            r: 255,
            g: 0,
            b: 0,
            a: 255
        }
    );
    assert_eq!(
        pal.yellow,
        Rgba {
            r: 255,
            g: 255,
            b: 0,
            a: 255
        }
    );
}
