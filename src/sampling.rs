//! Sub-pixel sample patterns used for supersampling.

use vstd::prelude::*;

verus! {

/// Sub-pixel offsets are given in hundredths of a pixel: an offset `(dx, dy)`
/// stands for `(dx / OFFSET_SCALE, dy / OFFSET_SCALE)` pixels.
pub const OFFSET_SCALE: i32 = 100;

/// The fixed sets of sub-pixel sample positions a pixel can be averaged over.
#[derive(Clone, Copy, Debug, PartialEq, Eq, Structural)]
pub enum SamplePattern {
    Four,
    Six,
    Nine,
}

/// `s` holds the offsets `t`, entry by entry.
pub open spec fn holds_offsets(s: Seq<(i32, i32)>, t: Seq<(int, int)>) -> bool {
    &&& s.len() == t.len()
    &&& forall|i: int| 0 <= i < s.len() ==> (#[trigger] s[i].0 as int, s[i].1 as int) == t[i]
}

/// The offsets of each pattern, in hundredths of a pixel, in the order in
/// which they are sampled.
pub open spec fn offsets_of(p: SamplePattern) -> Seq<(int, int)> {
    match p {
        SamplePattern::Four => seq![(-25, -25), (25, -25), (-25, 25), (25, 25)],
        SamplePattern::Six => seq![(-33, -33), (0, -33), (33, -33), (-33, 0), (0, 0), (33, 0)],
        SamplePattern::Nine => seq![
            (-33, -33),
            (0, -33),
            (33, -33),
            (-33, 0),
            (0, 0),
            (33, 0),
            (-33, 33),
            (0, 33),
            (33, 33),
        ],
    }
}

impl SamplePattern {
    /// The sub-pixel offsets of this pattern, in hundredths of a pixel.
    pub fn get_offsets(&self) -> (r: Vec<(i32, i32)>)
        ensures
            holds_offsets(r@, offsets_of(*self)),
    {
        let r = match self {
            SamplePattern::Four => vec![(-25, -25), (25, -25), (-25, 25), (25, 25)],
            SamplePattern::Six => vec![(-33, -33), (0, -33), (33, -33), (-33, 0), (0, 0), (33, 0)],
            SamplePattern::Nine => vec![
                (-33, -33),
                (0, -33),
                (33, -33),
                (-33, 0),
                (0, 0),
                (33, 0),
                (-33, 33),
                (0, 33),
                (33, 33),
            ],
        };
        r
    }
}

} // verus!
