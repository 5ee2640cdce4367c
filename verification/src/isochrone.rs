//! How isochrones are drawn.
use crate::text::str_equals;
use vstd::prelude::*;

verus! {

/// How an isochrone is drawn: as circles around the reached stops, or as a
/// contour line.
#[derive(Clone, Copy, Debug, PartialEq, Eq, Structural)]
pub enum DisplayMode {
    Circles,
    ContourLine,
}

/// The mode a name stands for: `circles` or `contour_line`.
pub open spec fn display_mode_named(name: Seq<char>) -> Option<DisplayMode> {
    if name == "circles"@ {
        Some(DisplayMode::Circles)
    } else if name == "contour_line"@ {
        Some(DisplayMode::ContourLine)
    } else {
        None
    }
}

impl DisplayMode {
    /// The mode with the given name; `None` for any other text.
    pub fn from_name(name: &str) -> (res: Option<DisplayMode>)
        ensures
            res == display_mode_named(name@),
    {
        if str_equals(name, "circles") {
            Some(DisplayMode::Circles)
        } else if str_equals(name, "contour_line") {
            Some(DisplayMode::ContourLine)
        } else {
            None
        }
    }

    /// The name of the mode.
    pub fn name(&self) -> (res: &'static str)
        ensures
            display_mode_named(res@) == Some(*self),
    {
        proof {
            reveal_strlit("circles");
            reveal_strlit("contour_line");
            assert("circles"@.len() != "contour_line"@.len());
        }
        match self {
            DisplayMode::Circles => "circles",
            DisplayMode::ContourLine => "contour_line",
        }
    }
}

/// The number of isochrones for a time limit and an interval (both in
/// minutes): the limit divided by the interval, none for a negative limit.
pub open spec fn isochrone_count(time_limit: i64, interval: i64) -> int {
    if time_limit >= 0 {
        time_limit / interval
    } else {
        0
    }
}

/// The time limits (in minutes) of the isochrones for a time limit and an
/// interval: the multiples of the interval from the first up to the limit,
/// each taken as a `u32` the way `as` converts it.
pub fn isochrone_limits(time_limit: i64, interval: i64) -> (res: Vec<u32>)
    requires
        interval > 0,
    ensures
        res@.len() == isochrone_count(time_limit, interval),
        forall|i: int| 0 <= i < res@.len() ==> #[trigger] res@[i] == (((i + 1) * interval) as u32),
{
    let count: i64 = if time_limit >= 0 {
        time_limit / interval
    } else {
        0
    };
    assert(count * interval <= if time_limit >= 0 { time_limit as int } else { 0 }) by (nonlinear_arith)
        requires
            interval > 0,
            count == (if time_limit >= 0 { time_limit / interval } else { 0 }),
    ;
    let mut res: Vec<u32> = Vec::new();
    let mut i: i64 = 0;
    while i < count
        invariant
            0 <= i <= count,
            count == isochrone_count(time_limit, interval),
            interval > 0,
            count * interval <= if time_limit >= 0 { time_limit as int } else { 0 },
            res@.len() == i,
            forall|k: int| 0 <= k < i ==> #[trigger] res@[k] == (((k + 1) * interval) as u32),
        decreases count - i,
    {
        assert((i + 1) * interval <= count * interval) by (nonlinear_arith)
            requires
                i + 1 <= count,
                interval > 0,
        ;
        let limit: i64 = (i + 1) * interval;
        res.push(#[verifier::truncate] (limit as u32));
        i = i + 1;
    }
    res
}

} // verus!
