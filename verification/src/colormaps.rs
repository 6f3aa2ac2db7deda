//! Color maps of 2D histograms and the options that decide how a count is
//! mapped to a color: the display range, the transparent zero of a log scale,
//! and the reversal of a map.
use vstd::prelude::*;

verus! {

/// The color maps a 2D histogram can be drawn with.
#[derive(Clone, Copy, Debug, PartialEq, Eq, Structural)]
pub enum ColorMap {
    Viridis,
    Fast,
    SmoothCoolWarm,
    BentCoolWarm,
    Plasma,
    Blackbody,
    Inferno,
    Kindlmann,
    ExtendedKindlmann,
}

impl Default for ColorMap {
    fn default() -> (r: Self)
        ensures
            r == ColorMap::Viridis,
    {
        ColorMap::Viridis
    }
}

/// How counts are mapped onto a color map.
#[derive(Clone, Copy, Debug, PartialEq, Eq, Structural)]
pub struct ColormapOptions {
    pub log_norm: bool,
    pub reverse: bool,
    pub custom_display_range: bool,
    pub display_min: u64,
    pub display_max: u64,
}

impl Default for ColormapOptions {
    fn default() -> (r: Self)
        ensures
            r.log_norm,
            !r.reverse,
            !r.custom_display_range,
            r.display_min == 0,
            r.display_max == u64::MAX,
    {
        ColormapOptions {
            log_norm: true,
            reverse: false,
            custom_display_range: false,
            display_min: 0,
            display_max: u64::MAX,
        }
    }
}

impl ColormapOptions {
    /// A zero count is drawn transparent on a log scale.
    pub fn is_transparent(&self, value: u64) -> (r: bool)
        ensures
            r == (value == 0 && self.log_norm),
    {
        value == 0 && self.log_norm
    }

    /// The range of counts the map spans: the custom range when one is set,
    /// else the histogram's own `min` and `max`.
    pub fn display_range(&self, min: u64, max: u64) -> (r: (u64, u64))
        ensures
            r == (if self.custom_display_range {
                (self.display_min, self.display_max)
            } else {
                (min, max)
            }),
    {
        if self.custom_display_range {
            (self.display_min, self.display_max)
        } else {
            (min, max)
        }
    }

    /// The smallest count a custom range may start at: 1 on a log scale, else 0.
    pub fn min_display_value(&self) -> (r: u64)
        ensures
            r == (if self.log_norm {
                1u64
            } else {
                0u64
            }),
    {
        if self.log_norm {
            1
        } else {
            0
        }
    }
}

/// A color map with its colors in reverse order and its stop positions kept:
/// stop `i` keeps its position and takes the color of stop `n - 1 - i`.
pub open spec fn reversed_spec<S>(data: Seq<(S, i32, i32, i32)>) -> Seq<(S, i32, i32, i32)> {
    Seq::new(
        data.len(),
        |i: int| (data[i].0, data[data.len() - 1 - i].1, data[data.len() - 1 - i].2, data[data.len() - 1 - i].3),
    )
}

/// Reverses the colors of a color map; see `reversed_spec`.
pub fn reversed_colors<S: Copy>(color_data: &Vec<(S, i32, i32, i32)>) -> (r: Vec<(S, i32, i32, i32)>)
    ensures
        r@ == reversed_spec(color_data@),
{
    let n = color_data.len();
    let mut r: Vec<(S, i32, i32, i32)> = Vec::new();
    let mut i: usize = 0;
    while i < n
        invariant
            i <= n == color_data.len(),
            r@ == reversed_spec(color_data@).take(i as int),
        decreases n - i,
    {
        let scalar = color_data[i].0;
        let j = n - 1 - i;
        let red = color_data[j].1;
        let green = color_data[j].2;
        let blue = color_data[j].3;
        r.push((scalar, red, green, blue));
        i += 1;
        assert(r@ =~= reversed_spec(color_data@).take(i as int));
    }
    assert(reversed_spec(color_data@).take(n as int) =~= reversed_spec(color_data@));
    r
}

/// Reversing a color map twice gives it back.
pub proof fn lemma_reverse_twice<S>(data: Seq<(S, i32, i32, i32)>)
    ensures
        reversed_spec(reversed_spec(data)) == data,
{
    let once = reversed_spec(data);
    let twice = reversed_spec(once);
    assert forall|i: int| 0 <= i < data.len() implies twice[i] == data[i] by {
        let j = data.len() - 1 - i;
        assert(once[j].1 == data[i].1);
    }
    assert(twice =~= data);
}

} // verus!
