//! Window thumbnails: which of the windows that the system can share are
//! captured.
use vstd::prelude::*;

verus! {

/// A window that the system can share, with its size in thousandths of a
/// point, rounded down.
#[derive(Clone, Copy, Debug, PartialEq, Eq, Structural)]
pub struct Shareable {
    pub id: u32,
    pub width: i64,
    pub height: i64,
}

/// A shared window is captured where its thumbnail is asked for and it is at
/// least one point wide and high.
pub open spec fn captured(ids: Seq<u32>, w: Shareable) -> bool {
    ids.contains(w.id) && w.width >= 1000 && w.height >= 1000
}

/// Whether `ids` holds `id`.
fn holds(ids: &Vec<u32>, id: u32) -> (r: bool)
    ensures
        r == ids@.contains(id),
{
    let mut i: usize = 0;
    while i < ids.len()
        invariant
            i <= ids.len(),
            forall|j: int| 0 <= j < i ==> ids@[j] != id,
        decreases ids.len() - i,
    {
        if ids[i] == id {
            return true;
        }
        i = i + 1;
    }
    false
}

/// The windows of `listed` to capture for the thumbnails in `ids`, in the
/// order in which they are listed.
pub fn capture_windows(ids: &Vec<u32>, listed: &Vec<Shareable>) -> (r: Vec<Shareable>)
    ensures
        r@ == listed@.filter(|w: Shareable| captured(ids@, w)),
{
    let ghost f = |w: Shareable| captured(ids@, w);
    let mut out: Vec<Shareable> = Vec::new();
    let mut i: usize = 0;
    assert(listed@.take(0).filter(f) =~= Seq::empty());
    while i < listed.len()
        invariant
            i <= listed.len(),
            f == (|w: Shareable| captured(ids@, w)),
            out@ == listed@.take(i as int).filter(f),
        decreases listed.len() - i,
    {
        proof {
            assert(listed@.take(i + 1).drop_last() =~= listed@.take(i as int));
            reveal(Seq::filter);
        }
        let w: Shareable = listed[i];
        if w.width >= 1000 && w.height >= 1000 && holds(ids, w.id) {
            out.push(w);
        }
        i = i + 1;
    }
    assert(listed@.take(i as int) =~= listed@);
    out
}

/// Nothing but a window whose thumbnail is asked for is ever captured.
pub proof fn law_captures_only_what_is_asked(ids: Seq<u32>, listed: Seq<Shareable>, i: int)
    requires
        0 <= i < listed.filter(|w: Shareable| captured(ids, w)).len(),
    ensures
        ids.contains(listed.filter(|w: Shareable| captured(ids, w))[i].id),
{
    listed.lemma_filter_pred(|w: Shareable| captured(ids, w), i);
}

/// Of the windows that can be shared, each is captured, in its turn, just where
/// its thumbnail is asked for and it is at least one point (a thousand
/// thousandths) wide and as high.
pub proof fn law_each_window_is_judged_alone(ids: Seq<u32>, listed: Seq<Shareable>, w: Shareable)
    ensures
        ({
            let before = listed.filter(|w: Shareable| captured(ids, w));
            let after = listed.push(w).filter(|w: Shareable| captured(ids, w));
            let asked = exists|k: int| 0 <= k < ids.len() && #[trigger] ids[k] == w.id;
            &&& asked && w.width >= 1000 && w.height >= 1000 ==> after == before.push(w)
            &&& !asked || w.width < 1000 || w.height < 1000 ==> after == before
        }),
{
    reveal(Seq::filter);
    assert(listed.push(w).drop_last() =~= listed);
}

} // verus!
