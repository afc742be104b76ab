//! A newly connected output: the mode it starts in and where it is placed.

use vstd::prelude::*;

verus! {

/// Index of the first mode flagged preferred.
pub open spec fn first_preferred(preferred: Seq<bool>, i: int) -> Option<int>
    decreases preferred.len() - i,
{
    if i < 0 || i >= preferred.len() {
        None
    } else if preferred[i] {
        Some(i)
    } else {
        first_preferred(preferred, i + 1)
    }
}

/// The mode to start in: the first preferred one, else the first one; none
/// for a connector without modes.
pub open spec fn pick_mode_spec(preferred: Seq<bool>) -> Option<int> {
    if preferred.len() == 0 {
        None
    } else {
        match first_preferred(preferred, 0) {
            Some(i) => Some(i),
            None => Some(0),
        }
    }
}

proof fn lemma_first_preferred(preferred: Seq<bool>, i: int)
    requires
        0 <= i,
    ensures
        first_preferred(preferred, i) matches Some(k) ==> i <= k < preferred.len() && preferred[k]
            && forall|j: int| i <= j < k ==> !preferred[j],
        first_preferred(preferred, i) is None ==> forall|j: int|
            i <= j < preferred.len() ==> !preferred[j],
    decreases preferred.len() - i,
{
    if i < preferred.len() {
        lemma_first_preferred(preferred, i + 1);
    }
}

/// Choose the mode of a connector whose modes carry the given preferred
/// flags, in the connector's order.
pub fn pick_mode(preferred: &[bool]) -> (r: Option<usize>)
    ensures
        r matches Some(i) ==> pick_mode_spec(preferred@) == Some(i as int),
        r is None ==> pick_mode_spec(preferred@) is None,
        r matches Some(i) ==> i < preferred@.len() && (preferred@[i as int] || forall|j: int|
            0 <= j < preferred@.len() ==> !preferred@[j]),
{
    proof {
        lemma_first_preferred(preferred@, 0);
    }
    if preferred.len() == 0 {
        return None;
    }
    let mut i: usize = 0;
    while i < preferred.len()
        invariant
            0 <= i <= preferred@.len(),
            first_preferred(preferred@, 0) == first_preferred(preferred@, i as int),
        decreases preferred@.len() - i,
    {
        if preferred[i] {
            return Some(i);
        }
        i = i + 1;
    }
    Some(0)
}

/// Sum of the widths.
pub open spec fn width_sum(widths: Seq<i32>) -> int
    decreases widths.len(),
{
    if widths.len() == 0 {
        0
    } else {
        width_sum(widths.drop_last()) + widths.last()
    }
}

/// Every running total of the widths fits in `i32`.
pub open spec fn sums_fit(widths: Seq<i32>) -> bool {
    forall|k: int| 0 <= k <= widths.len() ==> i32::MIN <= #[trigger] width_sum(widths.take(k)) <= i32::MAX
}

/// Outputs extend to the right: a new output goes at `x` = the total width
/// of the outputs already there, `y` = 0.
pub fn next_output_x(widths: &[i32]) -> (x: i32)
    requires
        sums_fit(widths@),
    ensures
        x == width_sum(widths@),
{
    let mut total: i32 = 0;
    let mut i: usize = 0;
    assert(widths@.take(0) =~= Seq::<i32>::empty());
    while i < widths.len()
        invariant
            0 <= i <= widths@.len(),
            sums_fit(widths@),
            total == width_sum(widths@.take(i as int)),
        decreases widths@.len() - i,
    {
        assert(widths@.take(i + 1).drop_last() =~= widths@.take(i as int));
        assert(i32::MIN <= width_sum(widths@.take(i + 1)) <= i32::MAX);
        total = total + widths[i];
        i = i + 1;
    }
    assert(widths@.take(i as int) =~= widths@);
    total
}

} // verus!
