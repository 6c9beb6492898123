//! The app activation history (pids), most recent first.
use vstd::prelude::*;

use crate::sequences;

verus! {

/// How many apps the history remembers.
pub const HISTORY: usize = 64;

/// The test for every pid but this one.
pub open spec fn other_than(pid: i32) -> spec_fn(i32) -> bool {
    |p: i32| p != pid
}

/// `mru` without the app with this pid.
pub open spec fn others(mru: Seq<i32>, pid: i32) -> Seq<i32> {
    mru.filter(other_than(pid))
}

/// The history after the app with this pid was activated: it comes first, its
/// earlier place is forgotten, and so is what then stands behind the last
/// place.
pub open spec fn noted(mru: Seq<i32>, pid: i32) -> Seq<i32> {
    let all = seq![pid] + others(mru, pid);
    if all.len() > HISTORY {
        all.take(HISTORY as int)
    } else {
        all
    }
}

/// Notes that the app with this pid was activated.
pub fn note_activation(mru: &mut Vec<i32>, pid: i32)
    ensures
        final(mru)@ == noted(old(mru)@, pid),
{
    let ghost before = mru@;
    let ghost f = other_than(pid);
    let mut out: Vec<i32> = Vec::new();
    out.push(pid);
    let mut i: usize = 0;
    assert(out@ =~= seq![pid] + before.take(0).filter(f));
    while i < mru.len()
        invariant
            i <= mru.len(),
            before == mru@,
            f == other_than(pid),
            out@ == seq![pid] + before.take(i as int).filter(f),
        decreases mru.len() - i,
    {
        proof {
            assert(before.take(i + 1).drop_last() =~= before.take(i as int));
            reveal(Seq::filter);
        }
        let ghost so_far = before.take(i as int).filter(f);
        if mru[i] != pid {
            out.push(mru[i]);
            assert(out@ =~= seq![pid] + so_far.push(before[i as int]));
        }
        i = i + 1;
    }
    assert(before.take(i as int) =~= before);
    out.truncate(HISTORY);
    assert(out@ =~= noted(before, pid));
    *mru = out;
}

/// The app that was just activated comes first, the history is never longer
/// than it may be, and it names no app twice if it did not before.
pub proof fn law_history(mru: Seq<i32>, pid: i32)
    ensures
        noted(mru, pid).len() > 0,
        noted(mru, pid)[0] == pid,
        noted(mru, pid).len() <= HISTORY,
        mru.no_duplicates() ==> noted(mru, pid).no_duplicates(),
{
    let f = other_than(pid);
    let kept = others(mru, pid);
    let all = seq![pid] + kept;
    if mru.no_duplicates() {
        lemma_filter_no_duplicates(mru, f);
        assert forall|i: int, j: int| 0 <= i < all.len() && 0 <= j < all.len() && i
            != j implies all[i] != all[j] by {
            if i > 0 {
                mru.lemma_filter_pred(f, i - 1);
            }
            if j > 0 {
                mru.lemma_filter_pred(f, j - 1);
            }
        }
    }
}

proof fn lemma_filter_no_duplicates(s: Seq<i32>, f: spec_fn(i32) -> bool)
    requires
        s.no_duplicates(),
    ensures
        s.filter(f).no_duplicates(),
    decreases s.len(),
{
    reveal(Seq::filter);
    if s.len() > 0 {
        let init = s.drop_last();
        lemma_filter_no_duplicates(init, f);
        assert forall|i: int| 0 <= i < init.filter(f).len() implies init.filter(f)[i]
            != s.last() by {
            assert(init.filter(f).contains(init.filter(f)[i]));
            init.lemma_filter_contains_rev(f, init.filter(f)[i]);
            let k = choose|k: int| 0 <= k < init.len() && init[k] == init.filter(f)[i];
            assert(s[k] == init.filter(f)[i]);
        }
    }
}

/// The apps that are remembered and were not just activated keep their order.
pub proof fn law_others_keep_their_order(mru: Seq<i32>, pid: i32)
    ensures
        noted(mru, pid).drop_first().is_prefix_of(others(mru, pid)),
{
    let kept = others(mru, pid);
    let r = noted(mru, pid).drop_first();
    assert(r =~= kept.take(r.len() as int));
}

/// Noting the same activation again changes nothing.
pub proof fn law_noting_is_idempotent(mru: Seq<i32>, pid: i32)
    ensures
        noted(noted(mru, pid), pid) == noted(mru, pid),
{
    let f = other_than(pid);
    let kept = others(mru, pid);
    let r = noted(mru, pid);
    let tail = r.drop_first();
    assert forall|i: int| 0 <= i < tail.len() implies f(#[trigger] tail[i]) by {
        mru.lemma_filter_pred(f, i);
        assert(tail[i] == kept[i]);
    }
    assert(r =~= seq![pid] + tail);
    Seq::filter_distributes_over_add(seq![pid], tail, f);
    sequences::lemma_filter_all(tail, f);
    let one = seq![pid];
    assert(one.drop_last() =~= Seq::empty());
    reveal_with_fuel(Seq::filter, 2);
    assert(one.filter(f) =~= Seq::empty());
    assert(r.filter(f) =~= tail);
    assert(noted(r, pid) =~= r);
}

/// The history after an activation: the app, then every other one in the order
/// before, where they are fewer than 64; else the first 63 of these.
pub proof fn law_what_is_remembered(mru: Seq<i32>, pid: i32)
    ensures
        others(mru, pid).len() < 64 ==> noted(mru, pid) == seq![pid] + others(mru, pid),
        others(mru, pid).len() >= 64 ==> noted(mru, pid) == seq![pid] + others(mru, pid).take(63),
{
    if others(mru, pid).len() >= 64 {
        assert((seq![pid] + others(mru, pid)).take(64) =~= seq![pid] + others(mru, pid).take(63));
    }
}

/// Of the others each counts as often as before, in its turn.
pub proof fn law_who_the_others_are(mru: Seq<i32>, pid: i32, q: i32)
    ensures
        others(Seq::empty(), pid).len() == 0,
        q != pid ==> others(mru.push(q), pid) == others(mru, pid).push(q),
        others(mru.push(pid), pid) == others(mru, pid),
{
    reveal(Seq::filter);
    assert(mru.push(q).drop_last() =~= mru);
    assert(mru.push(pid).drop_last() =~= mru);
    assert(Seq::<i32>::empty().filter(other_than(pid)) =~= Seq::empty());
}

} // verus!
