//! Sequences that others hold in the same order.
use vstd::prelude::*;

verus! {

/// Whether a sequence is made of the items of another at some indexes, which rise.
pub open spec fn picked<A>(short: Seq<A>, long: Seq<A>, at: Seq<int>) -> bool {
    &&& at.len() == short.len()
    &&& forall|i: int|
        0 <= i < at.len() ==> 0 <= #[trigger] at[i] < long.len() && long[at[i]] == short[i]
    &&& forall|i: int, j: int| 0 <= i < j < at.len() ==> at[i] < at[j]
}

/// Whether a sequence is another with some items left out.
pub open spec fn subsequence<A>(short: Seq<A>, long: Seq<A>) -> bool {
    exists|at: Seq<int>| picked(short, long, at)
}

/// A sequence is a subsequence of itself.
pub proof fn lemma_whole<A>(all: Seq<A>)
    ensures
        subsequence(all, all),
{
    assert(picked(all, all, Seq::new(all.len(), |i: int| i)));
}

/// What is left out of what was left out is left out.
pub proof fn lemma_twice<A>(a: Seq<A>, b: Seq<A>, c: Seq<A>)
    requires
        subsequence(a, b),
        subsequence(b, c),
    ensures
        subsequence(a, c),
{
    let first = choose|at: Seq<int>| picked(a, b, at);
    let second = choose|at: Seq<int>| picked(b, c, at);
    let both = Seq::new(a.len(), |i: int| second[first[i]]);
    assert forall|i: int| 0 <= i < both.len() implies 0 <= #[trigger] both[i] < c.len()
        && c[both[i]] == a[i] by {
        assert(0 <= first[i] < b.len());
    }
    assert forall|i: int, j: int| 0 <= i < j < both.len() implies both[i] < both[j] by {
        assert(0 <= first[i] < first[j] < b.len());
    }
    assert(picked(a, c, both));
}

/// Items at the start can be left out.
pub proof fn lemma_left_out<A>(short: Seq<A>, long: Seq<A>, n: int)
    requires
        0 <= n <= long.len(),
        subsequence(short, long.skip(n)),
    ensures
        subsequence(short, long),
{
    let at = choose|at: Seq<int>| picked(short, long.skip(n), at);
    let moved = at.map_values(|i: int| i + n);
    assert forall|i: int| 0 <= i < moved.len() implies 0 <= #[trigger] moved[i] < long.len()
        && long[moved[i]] == short[i] by {
        assert(0 <= at[i] < long.skip(n).len());
    }
    assert(picked(short, long, moved));
}

/// The first item can be taken in.
pub proof fn lemma_taken_in<A>(short: Seq<A>, long: Seq<A>)
    requires
        long.len() > 0,
        subsequence(short, long.skip(1)),
    ensures
        subsequence(seq![long[0]] + short, long),
{
    let at = choose|at: Seq<int>| picked(short, long.skip(1), at);
    let more = seq![0int] + at.map_values(|i: int| i + 1);
    let all = seq![long[0]] + short;
    assert forall|i: int| 0 <= i < more.len() implies 0 <= #[trigger] more[i] < long.len()
        && long[more[i]] == all[i] by {
        if i > 0 {
            assert(0 <= at[i - 1] < long.skip(1).len());
        }
    }
    assert forall|i: int, j: int| 0 <= i < j < more.len() implies more[i] < more[j] by {
        assert(0 <= at[j - 1] < long.skip(1).len());
        if i > 0 {
            assert(at[i - 1] < at[j - 1]);
        }
    }
    assert(picked(all, long, more));
}

} // verus!
