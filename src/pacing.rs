use vstd::prelude::*;

use vstd::arithmetic::div_mod::lemma_basic_div;

verus! {

/// The algorithm families that each have a base step duration.
#[derive(Clone, Copy, Debug, PartialEq, Eq, Structural)]
pub enum SortFamily {
    Shuffle,
    Bubble,
    Insertion,
    Selection,
    Cocktail,
    Shell,
    Quick,
    Merge,
    Radix,
}

/// Base step durations, in nanoseconds, one per family. Shared read-only by every array.
#[derive(Clone, Copy, Debug, PartialEq, Eq, Structural)]
pub struct SleepTimes {
    pub shuffle: u64,
    pub bubble: u64,
    pub insertion: u64,
    pub selection: u64,
    pub cocktail: u64,
    pub shell: u64,
    pub quick: u64,
    pub merge: u64,
    pub radix: u64,
}

/// How a family's step count grows with the array length.
pub enum Growth {
    Linear,
    Quadratic,
    ThreeHalves,
}

pub open spec fn growth_of(f: SortFamily) -> Growth {
    match f {
        SortFamily::Bubble | SortFamily::Insertion | SortFamily::Selection
        | SortFamily::Cocktail => Growth::Quadratic,
        SortFamily::Shell => Growth::ThreeHalves,
        _ => Growth::Linear,
    }
}

/// `r` is the integer square root of `x`.
pub open spec fn is_floor_sqrt(r: int, x: int) -> bool {
    0 <= r && r * r <= x < (r + 1) * (r + 1)
}

/// The integer square root of `x >= 0`.
pub open spec fn sqrt_floor(x: int) -> int {
    choose|r: int| is_floor_sqrt(r, x)
}

/// What a family's step count is divided by, for `n` items.
pub open spec fn scaling_factor(f: SortFamily, n: int) -> int {
    match growth_of(f) {
        Growth::Linear => n,
        Growth::Quadratic => n * n,
        Growth::ThreeHalves => sqrt_floor(n * n * n),
    }
}

/// An integer square root is unique.
pub proof fn lemma_floor_sqrt_unique(a: int, b: int, x: int)
    requires
        is_floor_sqrt(a, x),
        is_floor_sqrt(b, x),
    ensures
        a == b,
{
    if a < b {
        assert((a + 1) * (a + 1) <= b * b) by (nonlinear_arith)
            requires
                0 <= a < b,
        ;
    } else if b < a {
        assert((b + 1) * (b + 1) <= a * a) by (nonlinear_arith)
            requires
                0 <= b < a,
        ;
    }
}

/// `sqrt_floor` is the integer square root.
pub proof fn lemma_sqrt_floor(x: int)
    requires
        x >= 0,
    ensures
        is_floor_sqrt(sqrt_floor(x), x),
{
    let q = choose_floor_sqrt(x);
    assert(is_floor_sqrt(q, x));
}

impl SleepTimes {
    /// The pause after each step of family `f` on `n` items.
    pub open spec fn step_spec(&self, f: SortFamily, n: int) -> int {
        (self.base_spec(f) as int) / scaling_factor(f, n)
    }

    pub open spec fn base_spec(&self, f: SortFamily) -> u64 {
        match f {
            SortFamily::Shuffle => self.shuffle,
            SortFamily::Bubble => self.bubble,
            SortFamily::Insertion => self.insertion,
            SortFamily::Selection => self.selection,
            SortFamily::Cocktail => self.cocktail,
            SortFamily::Shell => self.shell,
            SortFamily::Quick => self.quick,
            SortFamily::Merge => self.merge,
            SortFamily::Radix => self.radix,
        }
    }

    /// The base duration of a family.
    pub fn base(&self, f: SortFamily) -> (r: u64)
        ensures
            r == self.base_spec(f),
    {
        match f {
            SortFamily::Shuffle => self.shuffle,
            SortFamily::Bubble => self.bubble,
            SortFamily::Insertion => self.insertion,
            SortFamily::Selection => self.selection,
            SortFamily::Cocktail => self.cocktail,
            SortFamily::Shell => self.shell,
            SortFamily::Quick => self.quick,
            SortFamily::Merge => self.merge,
            SortFamily::Radix => self.radix,
        }
    }

    /// The pause after each step of family `f` on an array of `n > 0` items: the base
    /// duration divided by `n`, `n * n` or `floor(n ^ 1.5)`, as the family's work grows.
    pub fn step_nanos(&self, f: SortFamily, n: usize) -> (r: u64)
        requires
            n > 0,
        ensures
            r == self.step_spec(f, n as int),
    {
        let base = self.base(f);
        match f {
            SortFamily::Bubble | SortFamily::Insertion | SortFamily::Selection
            | SortFamily::Cocktail => {
                let sq = square(n);
                ((base as u128) / sq) as u64
            },
            SortFamily::Shell => {
                let r = shell_step(base, n);
                proof {
                    let x = n * n * n;
                    lemma_sqrt_floor(x);
                    let q = choose|q: int| #[trigger] is_floor_sqrt(q, x) && r == (base as int) / q;
                    lemma_floor_sqrt_unique(q, sqrt_floor(x), x);
                }
                r
            },
            _ => base / (n as u64),
        }
    }
}

/// `n * n`, which always fits in a `u128`.
fn square(n: usize) -> (r: u128)
    requires
        n > 0,
    ensures
        r == n * n,
        r >= 1,
{
    let m = n as u128;
    proof {
        assert(m * m <= u128::MAX && m * m >= 1) by (nonlinear_arith)
            requires
                1 <= m <= 0xFFFF_FFFF_FFFF_FFFFu128,
        ;
    }
    m * m
}

/// The integer square root of `x`, by bisection.
pub fn floor_sqrt(x: u128) -> (r: u128)
    ensures
        is_floor_sqrt(r as int, x as int),
{
    let mut lo: u128 = 0;
    let mut hi: u128 = 0x1_0000_0000_0000_0000;
    proof {
        assert(hi * hi > u128::MAX) by (nonlinear_arith)
            requires
                hi == 0x1_0000_0000_0000_0000u128,
        ;
    }
    while hi - lo > 1
        invariant
            lo < hi <= 0x1_0000_0000_0000_0000u128,
            lo * lo <= x,
            x < hi * hi,
        decreases hi - lo,
    {
        let mid = lo + (hi - lo) / 2;
        proof {
            assert(mid * mid < 0x1_0000_0000_0000_0000u128 * 0x1_0000_0000_0000_0000u128)
                by (nonlinear_arith)
                requires
                    mid < 0x1_0000_0000_0000_0000u128,
            ;
        }
        if mid <= 0xFFFF_FFFF_FFFF_FFFF && mid * mid <= x {
            lo = mid;
        } else {
            proof {
                if mid > 0xFFFF_FFFF_FFFF_FFFF {
                    assert(mid == 0x1_0000_0000_0000_0000u128 || mid < 0x1_0000_0000_0000_0000u128);
                }
            }
            hi = mid;
        }
    }
    proof {
        assert(hi == lo + 1);
    }
    lo
}

/// The shell-sort pause: `base / floor(n ^ 1.5)`, or 0 when `n ^ 3` passes the range of
/// `u128` (its root then exceeds every `u64`).
fn shell_step(base: u64, n: usize) -> (r: u64)
    requires
        n > 0,
    ensures
        exists|q: int| #[trigger] is_floor_sqrt(q, n * n * n) && r == (base as int) / q,
{
    let sq = square(n);
    match sq.checked_mul(n as u128) {
        Some(cube) => {
            let q = floor_sqrt(cube);
            proof {
                assert(cube >= 1) by (nonlinear_arith)
                    requires
                        cube == sq * n,
                        sq >= 1,
                        n >= 1,
                ;
            }
            proof {
                assert(q > 0) by (nonlinear_arith)
                    requires
                        is_floor_sqrt(q as int, cube as int),
                        cube >= 1,
                ;
            }
            let r = ((base as u128) / q) as u64;
            assert(is_floor_sqrt(q as int, n * n * n));
            r
        },
        None => {
            proof {
                let x = n * n * n;
                let q = choose_floor_sqrt(x);
                assert(q >= 0x1_0000_0000_0000_0000) by (nonlinear_arith)
                    requires
                        is_floor_sqrt(q, x),
                        x > u128::MAX,
                ;
                lemma_basic_div(base as int, q);
                assert(is_floor_sqrt(q, n * n * n));
            }
            0
        },
    }
}

/// Every natural number has an integer square root.
proof fn choose_floor_sqrt(x: int) -> (q: int)
    requires
        x >= 0,
    ensures
        is_floor_sqrt(q, x),
    decreases x,
{
    if x == 0 {
        assert(is_floor_sqrt(0, 0)) by (nonlinear_arith);
        0
    } else {
        let p = choose_floor_sqrt(x - 1);
        if (p + 1) * (p + 1) <= x {
            assert((p + 1) * (p + 1) == x) by (nonlinear_arith)
                requires
                    (p + 1) * (p + 1) <= x,
                    x - 1 < (p + 1) * (p + 1),
            ;
            assert(x < (p + 2) * (p + 2)) by (nonlinear_arith)
                requires
                    (p + 1) * (p + 1) == x,
                    p >= 0,
            ;
            assert(is_floor_sqrt(p + 1, x)) by (nonlinear_arith)
                requires
                    (p + 1) * (p + 1) == x,
                    x < (p + 2) * (p + 2),
                    p >= 0,
            ;
            p + 1
        } else {
            assert(is_floor_sqrt(p, x)) by (nonlinear_arith)
                requires
                    is_floor_sqrt(p, x - 1),
                    (p + 1) * (p + 1) > x,
            ;
            p
        }
    }
}

} // verus!
