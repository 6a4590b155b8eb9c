//! The clock's persistent state: the current time, the user-tunable
//! parameters with their documented defaults, and the diagnostic count of
//! the primitives painted last frame.
//!
//! The canonical behaviour is the 24-hour face: the second hand revolves
//! every 120 seconds, the minute hand every 2 hours, the hour hand once a
//! day, and each hand's phase is a quarter turn at time zero.

use vstd::prelude::*;
use crate::fixed::SCALE;
use crate::color::{Palette, spec_default_palette};
use crate::geom::{Fp2, RectPx, norm1};
use crate::render::{
    generate, spec_generate, prims_view, units_wf, HandUnits, Primitive, RenderOptions,
};

verus! {

/// The second hand's revolution, in milliseconds.
pub const SECOND_HAND_PERIOD_MS: u64 = 120_000;

/// The minute hand's revolution, in milliseconds.
pub const MINUTE_HAND_PERIOD_MS: u64 = 7_200_000;

/// The hour hand's revolution (one day), in milliseconds.
pub const HOUR_HAND_PERIOD_MS: u64 = 86_400_000;

/// A full turn, in the angle unit of this library (micro-turns).
pub const FULL_TURN: u64 = 1_000_000;

/// Every hand points at twelve at time zero: a quarter-turn phase offset.
pub const QUARTER_TURN: u64 = 250_000;

/// The angle of a hand with the given revolution period at the given time:
/// the elapsed fraction of the revolution, offset by a quarter turn.
pub open spec fn spec_hand_angle(t: int, p: int) -> int {
    (t % p) * 1_000_000 / p + 250_000
}

/// Compute one hand's angle in micro-turns.
pub fn hand_angle(time_ms: u64, period_ms: u64) -> (a: u64)
    requires
        0 < period_ms <= 86_400_000,
    ensures
        a as int == spec_hand_angle(time_ms as int, period_ms as int),
        250_000 <= a < 1_250_000,
{
    let r = time_ms % period_ms;
    proof {
        let ri = r as int;
        let pi = period_ms as int;
        assert(ri * 1_000_000 < pi * 1_000_000) by (nonlinear_arith)
            requires
                0 <= ri < pi,
        ;
        vstd::arithmetic::div_mod::lemma_multiply_divide_lt(ri * 1_000_000, pi, 1_000_000);
        vstd::arithmetic::div_mod::lemma_div_pos_is_pos(ri * 1_000_000, pi);
        assert(ri * 1_000_000 <= 86_400_000 * 1_000_000) by (nonlinear_arith)
            requires
                0 <= ri <= 86_400_000,
        ;
    }
    let q = r * 1_000_000 / period_ms;
    q + 250_000
}

/// A hand's angle at time zero is exactly its phase offset.
pub proof fn lemma_hand_angle_at_zero(p: int)
    requires
        0 < p,
    ensures
        spec_hand_angle(0, p) == QUARTER_TURN as int,
{
    vstd::arithmetic::div_mod::lemma_small_mod(0, p as nat);
    assert(0int % p == 0);
    assert(0int * 1_000_000 == 0) by (nonlinear_arith);
    vstd::arithmetic::div_mod::lemma_div_of0(p);
}

/// A hand's angle is periodic in its own revolution period.
pub proof fn lemma_hand_angle_periodic(t: int, p: int)
    requires
        0 < p,
    ensures
        spec_hand_angle(t + p, p) == spec_hand_angle(t, p),
{
    vstd::arithmetic::div_mod::lemma_mod_multiples_vanish(1, t, p);
    assert(1 * p + t == t + p);
}

/// The clock: face constants, palette, tunable parameters, time, and the
/// diagnostic primitive count of the last painted frame.
#[derive(Clone, Copy, Debug, PartialEq, Eq, Structural)]
pub struct H24Clock {
    /// face radius, fixed-point logical units
    pub radius: i64,
    /// stroke of the face border, fixed-point logical units
    pub border_width: i64,
    /// distance of the tick ring from the centre
    pub ruling_distance: i64,
    /// distance of the hour numbers from the centre
    pub txt_distance: i64,
    pub palette: Palette,
    /// freeze time advancement
    pub paused: bool,
    /// milliseconds since midnight
    pub time_ms: u64,
    /// inverse scale of the view window, in (0, 1]
    pub zoom: i64,
    /// stroke width of the primary hands, in [0, 5]
    pub start_line_width: i64,
    /// recursion depth for branching, in [0, 14]
    pub depth: u8,
    /// hand length of the second and minute hands, in [0, 1]
    pub length_factor: i64,
    /// per-level brightness decay, in [0, 1]
    pub luminance_factor: i64,
    /// per-level stroke-width decay, in [0, 1]
    pub width_factor: i64,
    /// primitives emitted last frame; diagnostic only
    pub line_count: usize,
}

/// The documented default state.
pub open spec fn spec_default_clock() -> H24Clock {
    H24Clock {
        radius: 2_000_000,
        border_width: 40_000,
        ruling_distance: 1_880_000,
        txt_distance: 1_780_000,
        palette: spec_default_palette(),
        paused: false,
        time_ms: 0,
        zoom: 250_000,
        start_line_width: 2_500_000,
        depth: 9,
        length_factor: 800_000,
        luminance_factor: 800_000,
        width_factor: 900_000,
        line_count: 0,
    }
}

impl Default for H24Clock {
    fn default() -> (c: H24Clock)
        ensures
            c == spec_default_clock(),
    {
        H24Clock {
            radius: 2_000_000,
            border_width: 40_000,
            ruling_distance: 1_880_000,
            txt_distance: 1_780_000,
            palette: Palette::default(),
            paused: false,
            time_ms: 0,
            zoom: 250_000,
            start_line_width: 2_500_000,
            depth: 9,
            length_factor: 800_000,
            luminance_factor: 800_000,
            width_factor: 900_000,
            line_count: 0,
        }
    }
}

impl H24Clock {
    /// Parameter values the generator accepts: the slider ranges of the
    /// settings panel, with a strictly positive zoom (a zero zoom is a
    /// degenerate transform and stays outside the contract).
    pub open spec fn params_wf(self) -> bool {
        &&& 0 < self.zoom <= SCALE
        &&& 0 <= self.start_line_width <= 5 * SCALE
        &&& self.depth <= 14
        &&& 0 <= self.length_factor <= SCALE
        &&& 0 <= self.luminance_factor <= SCALE
        &&& 0 <= self.width_factor <= SCALE
        &&& 0 <= self.radius <= 4 * SCALE
        &&& 0 <= self.border_width <= SCALE
    }

    /// Advance the clock to the given time, or to the fallback when no
    /// time source is available. When paused, nothing changes at all.
    pub fn update(&mut self, current: Option<u64>, fallback: u64)
        ensures
            old(self).paused ==> *final(self) == *old(self),
            final(self).time_ms == (if old(self).paused {
                old(self).time_ms
            } else {
                match current {
                    Option::Some(t) => t,
                    Option::None => fallback,
                }
            }),
            *final(self) == (H24Clock { time_ms: final(self).time_ms, ..*old(self) }),
    {
        if !self.paused {
            self.time_ms = match current {
                Option::Some(t) => t,
                Option::None => fallback,
            };
        }
    }

    /// Restore the six numeric parameters to their documented defaults,
    /// leaving the pause flag and the current time untouched.
    pub fn reset(&mut self)
        ensures
            final(self).paused == old(self).paused,
            final(self).time_ms == old(self).time_ms,
            *final(self) == (H24Clock {
                zoom: 250_000,
                start_line_width: 2_500_000,
                depth: 9,
                length_factor: 800_000,
                luminance_factor: 800_000,
                width_factor: 900_000,
                ..*old(self)
            }),
    {
        self.zoom = 250_000;
        self.start_line_width = 2_500_000;
        self.depth = 9;
        self.length_factor = 800_000;
        self.luminance_factor = 800_000;
        self.width_factor = 900_000;
    }

    /// The displayed time, split into hours, minutes, seconds and
    /// milliseconds of the current day.
    pub fn time_hms(&self) -> (r: (u64, u64, u64, u64))
        ensures
            r.0 == (self.time_ms % 86_400_000) / 3_600_000,
            r.1 == (self.time_ms % 3_600_000) / 60_000,
            r.2 == (self.time_ms % 60_000) / 1_000,
            r.3 == self.time_ms % 1_000,
    {
        (
            (self.time_ms % 86_400_000) / 3_600_000,
            (self.time_ms % 3_600_000) / 60_000,
            (self.time_ms % 60_000) / 1_000,
            self.time_ms % 1_000,
        )
    }

    /// The three hand angles at the clock's current time, in micro-turns:
    /// second, minute, hour.
    pub fn hand_angles(&self) -> (a: (u64, u64, u64))
        ensures
            a.0 as int == spec_hand_angle(self.time_ms as int, SECOND_HAND_PERIOD_MS as int),
            a.1 as int == spec_hand_angle(self.time_ms as int, MINUTE_HAND_PERIOD_MS as int),
            a.2 as int == spec_hand_angle(self.time_ms as int, HOUR_HAND_PERIOD_MS as int),
    {
        (
            hand_angle(self.time_ms, SECOND_HAND_PERIOD_MS),
            hand_angle(self.time_ms, MINUTE_HAND_PERIOD_MS),
            hand_angle(self.time_ms, HOUR_HAND_PERIOD_MS),
        )
    }

    /// Paint one frame: generate the primitives for the current parameters
    /// and record their count. Everything else in the state is untouched.
    pub fn paint(
        &mut self,
        hands: &HandUnits,
        viewport: &RectPx,
        ruling: &Vec<Fp2>,
        txt: &Vec<Fp2>,
        opts: RenderOptions,
    ) -> (out: Vec<Primitive>)
        requires
            old(self).params_wf(),
            viewport.is_viewport(),
            units_wf(*hands),
            opts.ring_decoration ==> ruling@.len() == 120 && txt@.len() == 24,
            forall|i: int|
                0 <= i < ruling@.len() ==> norm1(#[trigger] ruling@[i]@) <= 4 * (SCALE as int),
            forall|i: int|
                0 <= i < txt@.len() ==> norm1(#[trigger] txt@[i]@) <= 4 * (SCALE as int),
        ensures
            prims_view(out@) == spec_generate(
                *viewport,
                old(self).zoom as int,
                old(self).start_line_width as int,
                old(self).depth as nat,
                old(self).length_factor as int,
                old(self).luminance_factor as int,
                old(self).width_factor as int,
                old(self).radius as int,
                old(self).border_width as int,
                old(self).palette,
                hands.second@,
                hands.minute@,
                hands.hour@,
                crate::render::pts_view(ruling@),
                crate::render::pts_view(txt@),
                opts,
            ),
            final(self).line_count == out@.len(),
            *final(self) == (H24Clock { line_count: final(self).line_count, ..*old(self) }),
    {
        let prims = generate(
            self.zoom,
            self.start_line_width,
            self.depth,
            self.length_factor,
            self.luminance_factor,
            self.width_factor,
            self.radius,
            self.border_width,
            &self.palette,
            hands,
            viewport,
            ruling,
            txt,
            opts,
        );
        self.line_count = prims.len();
        prims
    }
}

} // verus!
