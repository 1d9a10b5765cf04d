use vstd::prelude::*;

verus! {

/// The point at which a bisection of `lo ..= hi` probes.
pub open spec fn midpoint(lo: int, hi: int) -> int {
    lo + (hi - lo) / 2
}

/// The outcome of bisecting `lo ..= hi` for the largest value that fits,
/// when `best` is the largest fitting value probed so far: a probe that fits
/// moves the search above it, one that does not moves it below.
pub open spec fn search_max(lo: int, hi: int, fits: spec_fn(int) -> bool, best: Option<int>) -> Option<
    int,
>
    decreases hi - lo + 1,
{
    if lo > hi {
        best
    } else {
        let mid = midpoint(lo, hi);
        if fits(mid) {
            search_max(mid + 1, hi, fits, Some(mid))
        } else {
            search_max(lo, mid - 1, fits, best)
        }
    }
}

/// Whatever fits at some value fits at every smaller value of the range.
pub open spec fn downward_closed(lo: int, hi: int, fits: spec_fn(int) -> bool) -> bool {
    forall|a: int, b: int| lo <= a <= b <= hi && #[trigger] fits(b) ==> #[trigger] fits(a)
}

/// A bisection returns a value that was probed and fits, or the best value it
/// started with.
pub proof fn lemma_search_sound(lo: int, hi: int, fits: spec_fn(int) -> bool, best: Option<int>)
    ensures
        match search_max(lo, hi, fits, best) {
            Some(k) => best == Some(k) || (lo <= k <= hi && fits(k)),
            None => best is None,
        },
    decreases hi - lo + 1,
{
    if lo <= hi {
        let mid = midpoint(lo, hi);
        if fits(mid) {
            lemma_search_sound(mid + 1, hi, fits, Some(mid));
        } else {
            lemma_search_sound(lo, mid - 1, fits, best);
        }
    }
}

/// Where fitting is downward closed on `base ..= top`, a bisection within it
/// finds the largest value that fits, and finds none only where none fits.
/// The search is at `lo ..= hi`; nothing above `hi` fits, and `best` is the
/// value just below `lo` if that fits, or nothing below `lo` fits.
pub proof fn lemma_search_max(
    base: int,
    top: int,
    lo: int,
    hi: int,
    fits: spec_fn(int) -> bool,
    best: Option<int>,
)
    requires
        base <= lo,
        hi <= top,
        downward_closed(base, top, fits),
        forall|j: int| hi < j <= top ==> !#[trigger] fits(j),
        match best {
            Some(b) => base <= b && b == lo - 1 && lo <= hi + 1 && fits(b),
            None => forall|j: int| base <= j < lo ==> !#[trigger] fits(j),
        },
    ensures
        match search_max(lo, hi, fits, best) {
            Some(k) => base <= k <= top && fits(k) && forall|j: int|
                k < j <= top ==> !#[trigger] fits(j),
            None => forall|j: int| base <= j <= top ==> !#[trigger] fits(j),
        },
    decreases hi - lo + 1,
{
    if lo <= hi {
        let mid = midpoint(lo, hi);
        if fits(mid) {
            lemma_search_max(base, top, mid + 1, hi, fits, Some(mid));
        } else {
            assert forall|j: int| mid - 1 < j <= top implies !#[trigger] fits(j) by {
                if fits(j) {
                    assert(fits(mid));
                }
            }
            lemma_search_max(base, top, lo, mid - 1, fits, best);
        }
    }
}

} // verus!
