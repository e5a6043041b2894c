use vstd::prelude::*;

verus! {

/// Percentage of completed pages out of `total`, rounded to the nearest
/// whole percent (halves round up), as the progress reports carry it.
pub open spec fn spec_percent(completed: int, total: int) -> int
    recommends
        0 < total,
        0 <= completed <= total,
{
    (200 * completed + total) / (2 * total)
}

/// Progress percentage for `completed` pages done out of `total`.
pub fn percent(completed: u16, total: u16) -> (p: u8)
    requires
        0 < total,
        completed <= total,
    ensures
        p == spec_percent(completed as int, total as int),
        p <= 100,
        completed == total ==> p == 100,
{
    let num: u32 = 200 * (completed as u32) + (total as u32);
    let den: u32 = 2 * (total as u32);
    let p32: u32 = num / den;
    proof {
        lemma_percent_range(completed as int, total as int);
    }
    p32 as u8
}

/// The rounded percentage never exceeds 100, and all pages done means 100.
pub proof fn lemma_percent_range(completed: int, total: int)
    requires
        0 < total,
        0 <= completed <= total,
    ensures
        0 <= spec_percent(completed, total) <= 100,
        completed == total ==> spec_percent(completed, total) == 100,
{
    assert(0 <= (200 * completed + total) / (2 * total) <= 100) by (nonlinear_arith)
        requires
            0 < total,
            0 <= completed <= total,
    ;
    if completed == total {
        assert((200 * total + total) / (2 * total) == 100) by (nonlinear_arith)
            requires
                0 < total,
        ;
    }
}

/// Monotonicity of progress: more completed pages never lowers the percentage.
pub proof fn lemma_percent_monotone(c1: int, c2: int, total: int)
    requires
        0 < total,
        0 <= c1 <= c2 <= total,
    ensures
        spec_percent(c1, total) <= spec_percent(c2, total),
{
    assert((200 * c1 + total) / (2 * total) <= (200 * c2 + total) / (2 * total))
        by (nonlinear_arith)
        requires
            0 < total,
            0 <= c1 <= c2 <= total,
    ;
}

} // verus!
