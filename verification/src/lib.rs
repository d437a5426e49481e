use vstd::prelude::*;

pub mod fixed;
pub mod utils;
pub mod uielement;
pub mod panel;
pub mod textbox;

verus! {

/// A layout margin: either an absolute pixel count, or a fraction of the
/// parent's dimension. The fraction is carried as a fixed-point value
/// scaled by 65536, so `Pct(32768)` means one half.
pub enum Margin {
    Px(u32),
    Pct(u32),
}

/// What resolving a margin against a parent dimension yields: `Px(n)` is
/// `n` itself, `Pct(p)` is `floor(dim * p / 65536)`, saturated at `u32::MAX`.
pub open spec fn resolve_spec(m: Margin, dim: u32) -> int {
    match m {
        Margin::Px(n) => n as int,
        Margin::Pct(p) => {
            let v = (dim as int * p as int) / 65536;
            if v > u32::MAX as int {
                u32::MAX as int
            } else {
                v
            }
        },
    }
}

impl Margin {
    /// Resolve this margin against one dimension of the parent's bounding
    /// box: pixels pass through, a fraction takes its floored share of the
    /// dimension.
    pub fn resolve(&self, dim: u32) -> (r: u32)
        ensures
            r == resolve_spec(*self, dim),
    {
        match self {
            Margin::Px(n) => *n,
            Margin::Pct(p) => {
                proof {
                    crate::fixed::lemma_mul_bound(dim as int, *p as int, 0xFFFFFFFF, 0xFFFFFFFF);
                }
                let v: u64 = (dim as u64 * *p as u64) / 65536;
                if v > u32::MAX as u64 {
                    u32::MAX
                } else {
                    v as u32
                }
            },
        }
    }
}

/// An absolute pixel margin.
pub fn px(n: u32) -> (m: Margin)
    ensures
        m == Margin::Px(n),
{
    Margin::Px(n)
}

/// A fractional margin; `p` is the fraction scaled by 65536.
pub fn pct(p: u32) -> (m: Margin)
    ensures
        m == Margin::Pct(p),
{
    Margin::Pct(p)
}

} // verus!

