use vstd::prelude::*;

verus! {

/// Largest sum of three luminance differences.
pub const DIFF_SUM_MAX: u32 = 7_650_000;

/// `g` is the outline shade for a sum `d` of three luminance differences:
/// `g == floor((1 - sqrt(d / (3 * LUMIN_MAX))) * 255)`. In integers:
/// `255 - g` is the least `s >= 0` with `s * s >= 255 * 255 * d / (3 * LUMIN_MAX)`,
/// that is with `2000 * s * s >= 17 * d`.
pub open spec fn is_shade(d: int, g: int) -> bool {
    let s = 255 - g;
    &&& 0 <= g <= 255
    &&& 2000 * (s * s) >= 17 * d
    &&& s == 0 || 2000 * ((s - 1) * (s - 1)) < 17 * d
}

/// The outline shade for the difference sum `d`; see `is_shade`.
pub open spec fn shade_of(d: int) -> u8 {
    choose|g: u8| is_shade(d, g as int)
}

/// A difference sum has one shade at most.
pub proof fn lemma_shade_unique(d: int, g1: int, g2: int)
    requires
        is_shade(d, g1),
        is_shade(d, g2),
    ensures
        g1 == g2,
{
    let s1 = 255 - g1;
    let s2 = 255 - g2;
    if s1 < s2 {
        assert((s2 - 1) * (s2 - 1) >= s1 * s1) by (nonlinear_arith)
            requires
                0 <= s1 <= s2 - 1,
        ;
    } else if s2 < s1 {
        assert((s1 - 1) * (s1 - 1) >= s2 * s2) by (nonlinear_arith)
            requires
                0 <= s2 <= s1 - 1,
        ;
    }
}

/// Maps the sum of three luminance differences to a grayscale byte: 255
/// where there is no difference, darker as the mean difference grows.
pub fn gray_value(diff_sum: u32) -> (g: u8)
    requires
        diff_sum <= DIFF_SUM_MAX,
    ensures
        is_shade(diff_sum as int, g as int),
        g == shade_of(diff_sum as int),
{
    let target: u64 = 17 * diff_sum as u64;
    let mut s: u64 = 0;
    loop
        invariant
            s <= 255,
            target == 17 * diff_sum,
            target <= 17 * DIFF_SUM_MAX,
            s == 0 || 2000 * ((s - 1) * (s - 1)) < target,
        ensures
            s <= 255,
            2000 * (s * s) >= target,
            s == 0 || 2000 * ((s - 1) * (s - 1)) < target,
        decreases 255 - s,
    {
        assert(s * s <= 255 * 255) by (nonlinear_arith)
            requires
                s <= 255,
        ;
        if 2000 * (s * s) >= target {
            break;
        }
        assert(s < 255) by (nonlinear_arith)
            requires
                2000 * (s * s) < 17 * 7_650_000,
        ;
        s = s + 1;
    }
    let g = (255 - s) as u8;
    assert(is_shade(diff_sum as int, g as int));
    proof {
        let c = shade_of(diff_sum as int);
        lemma_shade_unique(diff_sum as int, g as int, c as int);
    }
    g
}

/// No difference at all gives white.
pub proof fn lemma_shade_of_zero()
    ensures
        shade_of(0) == 255,
{
    assert(is_shade(0, 255));
    lemma_shade_unique(0, shade_of(0) as int, 255);
}

} // verus!
