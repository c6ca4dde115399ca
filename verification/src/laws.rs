//! The navigator's laws: the state invariant every reachable worker state
//! satisfies, and the proved properties of navigation — prefetch
//! correctness, reversal freshness, boundary idempotence, monotone list
//! repair and the save round trip.

use vstd::prelude::*;

use crate::item::{placeholder_view, ItemView};
use crate::store::{item_of, loadable, wrote, StoreView};
use crate::worker::{
    init_worker, next_step, prev_step, repair, Direction, SlotView, WorkerView,
};

verus! {

/// Candidate names are pairwise distinct, as file names in one directory are.
pub open spec fn unique_names(files: Seq<Seq<char>>) -> bool {
    forall|i: int, j: int|
        #![trigger files[i], files[j]]
        0 <= i < j < files.len() ==> files[i] != files[j]
}

/// Two items agree on everything but the caption — which a later save may
/// have changed in the store after the item was loaded.
pub open spec fn agrees_but_caption(it: ItemView, that: ItemView) -> bool {
    &&& it.name == that.name
    &&& it.img == that.img
    &&& it.width == that.width
    &&& it.height == that.height
    &&& it.wrong_size == that.wrong_size
}

/// The worker invariant.  Construction establishes it and every command
/// preserves it: the position and the slot index stay in range, the item at
/// the position and the slot item stay loadable, the slot item is the one
/// its index names — image-identical to its store entry — and the slot sits
/// one step beyond the position in the recorded direction, or on the
/// position itself at a boundary.
pub open spec fn inv(store: StoreView, w: WorkerView) -> bool {
    &&& store.wf()
    &&& unique_names(w.files)
    &&& (match w.position {
        Some(p) => 0 <= p < w.files.len() && loadable(store, w.files[p]),
        None => true,
    })
    &&& (w.files.len() == 0 ==> w.position is None && w.slot is None)
    &&& (match w.slot {
        Some(s) => {
            &&& 0 <= s.index < w.files.len()
            &&& s.item.name == w.files[s.index]
            &&& agrees_but_caption(s.item, item_of(store, w.files[s.index]))
            &&& loadable(store, w.files[s.index])
        },
        None => true,
    })
    &&& (w.position is None && w.files.len() > 0 ==> (match w.slot {
        Some(s) => s.index == 0 && w.direction == Direction::Forward,
        None => false,
    }))
    &&& (w.direction == Direction::Forward ==> match (w.slot, w.position) {
        (Some(s), Some(p)) => s.index == p + 1 || s.index == p,
        _ => true,
    })
    &&& (w.direction == Direction::Backward ==> match (w.slot, w.position) {
        (Some(s), Some(p)) => s.index == p - 1 || s.index == p,
        _ => true,
    })
}

/// List repair only ever shrinks the list: nothing is added, no duplicate
/// appears, and once a name is gone it stays gone.
pub proof fn lemma_repair_shrinks(store: StoreView, files: Seq<Seq<char>>, pos: int)
    ensures
        ({
            let (fs, item, ix) = repair(store, files, pos);
            &&& fs.len() <= files.len()
            &&& forall|n: Seq<char>| #[trigger] fs.contains(n) ==> files.contains(n)
            &&& (unique_names(files) ==> unique_names(fs))
        }),
    decreases files.len(),
{
    if 0 <= pos < files.len() && !loadable(store, files[pos]) {
        let files2 = files.remove(pos);
        assert forall|n: Seq<char>| #[trigger] files2.contains(n) implies files.contains(n) by {
            let k = choose|k: int| 0 <= k < files2.len() && files2[k] == n;
            if k < pos {
                assert(files[k] == n);
            } else {
                assert(files[k + 1] == n);
            }
        }
        if unique_names(files) {
            assert forall|i: int, j: int|
                #![trigger files2[i], files2[j]]
                0 <= i < j < files2.len() implies files2[i] != files2[j] by {
                let i0: int = if i < pos {
                    i
                } else {
                    i + 1
                };
                let j0: int = if j < pos {
                    j
                } else {
                    j + 1
                };
                assert(files2[i] == files[i0]);
                assert(files2[j] == files[j0]);
            }
        }
        if files2.len() > 0 {
            let pos2: int = if pos >= files2.len() {
                files2.len() - 1
            } else {
                pos
            };
            lemma_repair_shrinks(store, files2, pos2);
            let (fs, item, ix) = repair(store, files2, pos2);
            assert forall|n: Seq<char>| #[trigger] fs.contains(n) implies files.contains(n) by {
                assert(files2.contains(n));
            }
        }
    }
}

/// What a successful repair delivers: an index at or below the start and in
/// range, holding a loadable entry whose loaded item is returned; when the
/// list ran empty the placeholder is returned instead.
pub proof fn lemma_repair_delivers(store: StoreView, files: Seq<Seq<char>>, pos: int)
    requires
        0 <= pos < files.len(),
    ensures
        ({
            let (fs, item, ix) = repair(store, files, pos);
            &&& (fs.len() > 0 ==> 0 <= ix <= pos && ix < fs.len() && item == item_of(store, fs[ix])
                && loadable(store, fs[ix]))
            &&& (fs.len() == 0 ==> item == placeholder_view())
        }),
    decreases files.len(),
{
    if !loadable(store, files[pos]) {
        let files2 = files.remove(pos);
        if files2.len() > 0 {
            let pos2: int = if pos >= files2.len() {
                files2.len() - 1
            } else {
                pos
            };
            lemma_repair_delivers(store, files2, pos2);
        }
    }
}

/// Repair never removes anything below a loadable entry at `d` at or below
/// its start: the prefix up to `d` survives unchanged and the scan ends at
/// or above `d` — so the list cannot run empty.
pub proof fn lemma_repair_prefix(store: StoreView, files: Seq<Seq<char>>, pos: int, d: int)
    requires
        0 <= d <= pos < files.len(),
        loadable(store, files[d]),
    ensures
        ({
            let (fs, item, ix) = repair(store, files, pos);
            &&& fs.len() > d
            &&& d <= ix
            &&& forall|j: int| 0 <= j <= d ==> fs[j] == files[j]
        }),
    decreases files.len(),
{
    if !loadable(store, files[pos]) {
        assert(pos != d);
        let files2 = files.remove(pos);
        assert(files2.len() > d);
        assert(forall|j: int| 0 <= j <= d ==> files2[j] == files[j]);
        let pos2: int = if pos >= files2.len() {
            files2.len() - 1
        } else {
            pos
        };
        assert(d <= pos2);
        lemma_repair_prefix(store, files2, pos2, d);
    }
}

/// A repair started one step below a loadable entry at `d` ends after at
/// most one removal: either the neighbour at `d - 1` loads, or it is removed
/// and the entry from `d` — shifted onto `d - 1` — loads in its place.
pub proof fn lemma_repair_below(store: StoreView, files: Seq<Seq<char>>, d: int)
    requires
        1 <= d < files.len(),
        loadable(store, files[d]),
    ensures
        ({
            let (fs, item, ix) = repair(store, files, d - 1);
            ||| {
                &&& fs == files
                &&& ix == d - 1
                &&& item == item_of(store, files[d - 1])
                &&& loadable(store, files[d - 1])
            }
            ||| {
                &&& fs == files.remove(d - 1)
                &&& ix == d - 1
                &&& item == item_of(store, files[d])
                &&& !loadable(store, files[d - 1])
            }
        }),
{
    if !loadable(store, files[d - 1]) {
        let files2 = files.remove(d - 1);
        assert(files2.len() == files.len() - 1);
        assert(files2[d - 1] == files[d]);
        assert(d - 1 < files2.len());
        assert(loadable(store, files2[d - 1]));
        assert(repair(store, files2, d - 1) == (files2, item_of(store, files2[d - 1]), d - 1));
    }
}

/// What the common movement tail does from a sound delivery at `idx`: the
/// reply carries the delivered item, the invariant is re-established, the
/// list only shrinks and stays non-empty, and the new position names the
/// delivered item.
proof fn lemma_finish(store: StoreView, files1: Seq<Seq<char>>, img: ItemView, idx: int, dir: Direction)
    requires
        store.wf(),
        unique_names(files1),
        0 <= idx < files1.len(),
        img.name == files1[idx],
        agrees_but_caption(img, item_of(store, files1[idx])),
        loadable(store, files1[idx]),
        dir == Direction::Forward || dir == Direction::Backward,
    ensures
        ({
            let (w2, r) = crate::worker::finish_step(store, files1, img, idx, dir);
            &&& r == Some(img)
            &&& inv(store, w2)
            &&& w2.files.len() <= files1.len()
            &&& (forall|n: Seq<char>| #[trigger] w2.files.contains(n) ==> files1.contains(n))
            &&& (match w2.position {
                Some(q) => 0 <= q < w2.files.len() && w2.files[q] == img.name,
                None => false,
            })
            &&& w2.direction == dir
            &&& w2.files.len() > 0
        }),
{
    if dir == Direction::Forward {
        let start: int = if idx + 1 < files1.len() {
            idx + 1
        } else {
            idx
        };
        lemma_repair_prefix(store, files1, start, idx);
        lemma_repair_delivers(store, files1, start);
        lemma_repair_shrinks(store, files1, start);
        let (fs2, pimg, pidx) = repair(store, files1, start);
        assert(fs2.len() > idx);
        assert(idx <= pidx <= start);
        assert(fs2[idx] == files1[idx]);
        assert(pimg == item_of(store, fs2[pidx]));
        assert(pimg.name == fs2[pidx]);
        if pidx == idx {
            assert(pimg.name == img.name);
        } else {
            assert(pidx == idx + 1);
            assert(fs2[idx] != fs2[idx + 1]);
            assert(pimg.name != img.name);
        }
    } else {
        if idx == 0 {
            assert(repair(store, files1, 0) == (files1, item_of(store, files1[0]), 0int));
            assert(item_of(store, files1[0]).name == files1[0]);
        } else {
            lemma_repair_below(store, files1, idx);
            lemma_repair_shrinks(store, files1, idx - 1);
            let (fs2, pimg, pidx) = repair(store, files1, idx - 1);
            assert(pidx == idx - 1);
            if fs2 == files1.remove(idx - 1) && pimg == item_of(store, files1[idx]) {
                assert(fs2[idx - 1] == files1[idx]);
                assert(fs2.len() == files1.len() - 1);
                assert(pimg.name == img.name);
            } else {
                assert(fs2 == files1 && pimg == item_of(store, files1[idx - 1]));
                assert(pimg.name == files1[idx - 1]);
                assert(files1[idx - 1] != files1[idx]);
                assert(pimg.name != img.name);
            }
        }
    }
}

/// What one `Next` does to a state satisfying the invariant: the invariant
/// is preserved; the list only shrinks and no removed name reappears; a
/// delivered item is loadable and is exactly the entry now at the position,
/// image-identical to its store entry; and nothing at all changes when no
/// item is delivered — which happens exactly at the end of the list or on
/// an empty list.
pub proof fn lemma_next(store: StoreView, w: WorkerView)
    requires
        inv(store, w),
    ensures
        ({
            let (w2, r) = next_step(store, w);
            &&& inv(store, w2)
            &&& w2.files.len() <= w.files.len()
            &&& (forall|n: Seq<char>| #[trigger] w2.files.contains(n) ==> w.files.contains(n))
            &&& (match r {
                Some(it) => {
                    &&& (match w2.position {
                        Some(q) => 0 <= q < w2.files.len() && w2.files[q] == it.name,
                        None => false,
                    })
                    &&& agrees_but_caption(it, item_of(store, it.name))
                    &&& loadable(store, it.name)
                    &&& w2.direction == Direction::Forward
                },
                None => w2 == w && (w.files.len() == 0 || (match w.position {
                    Some(p) => p + 1 >= w.files.len(),
                    None => false,
                })),
            })
            &&& ((w.files.len() > 0 && (match w.position {
                Some(p) => p + 1 < w.files.len(),
                None => true,
            })) ==> r is Some)
        }),
{
    if w.files.len() > 0 {
        let np: int = match w.position {
            Some(p) => p + 1,
            None => 0,
        };
        if np < w.files.len() {
            let consume: bool = match w.slot {
                Some(s) => w.direction == Direction::Forward && s.index == np,
                None => false,
            };
            if consume {
                let s = w.slot->0;
                assert(s.item.name == w.files[np]);
                lemma_finish(store, w.files, s.item, np, Direction::Forward);
            } else {
                match w.position {
                    None => {
                        assert(false);
                    },
                    Some(p) => {
                        lemma_repair_prefix(store, w.files, np, p);
                        lemma_repair_delivers(store, w.files, np);
                        lemma_repair_shrinks(store, w.files, np);
                        let (fs1, img, idx) = repair(store, w.files, np);
                        assert(fs1.len() > p);
                        assert(img == item_of(store, fs1[idx]));
                        assert(img.name == fs1[idx]);
                        lemma_finish(store, fs1, img, idx, Direction::Forward);
                        let (w2, r) = crate::worker::finish_step(store, fs1, img, idx, Direction::Forward);
                        assert forall|n: Seq<char>| #[trigger] w2.files.contains(n) implies w.files.contains(n) by {
                            assert(fs1.contains(n));
                        }
                    },
                }
            }
        }
    }
}

/// What one `Previous` does to a state satisfying the invariant, symmetric
/// to [`lemma_next`]: in particular a delivered item is exactly the entry
/// now at the position — freshly loaded after a direction reversal, never a
/// stale forward neighbour — and nothing changes when no item is delivered,
/// which happens exactly before the first delivery and at index 0.
pub proof fn lemma_prev(store: StoreView, w: WorkerView)
    requires
        inv(store, w),
    ensures
        ({
            let (w2, r) = prev_step(store, w);
            &&& inv(store, w2)
            &&& w2.files.len() <= w.files.len()
            &&& (forall|n: Seq<char>| #[trigger] w2.files.contains(n) ==> w.files.contains(n))
            &&& (match r {
                Some(it) => {
                    &&& (match w2.position {
                        Some(q) => 0 <= q < w2.files.len() && w2.files[q] == it.name,
                        None => false,
                    })
                    &&& agrees_but_caption(it, item_of(store, it.name))
                    &&& loadable(store, it.name)
                    &&& w2.direction == Direction::Backward
                },
                None => w2 == w && (match w.position {
                    Some(p) => p <= 0,
                    None => true,
                }),
            })
            &&& ((match w.position {
                Some(p) => p >= 1,
                None => false,
            }) ==> r is Some)
        }),
{
    match w.position {
        None => {},
        Some(p) => {
            if p >= 1 {
                assert(p < w.files.len());
                let np: int = p - 1;
                let consume: bool = match w.slot {
                    Some(s) => w.direction == Direction::Backward && s.index == np,
                    None => false,
                };
                if consume {
                    let s = w.slot->0;
                    assert(s.item.name == w.files[np]);
                    lemma_finish(store, w.files, s.item, np, Direction::Backward);
                } else {
                    lemma_repair_below(store, w.files, p);
                    lemma_repair_shrinks(store, w.files, np);
                    let (fs1, img, idx) = repair(store, w.files, np);
                    assert(idx == np);
                    if fs1 == w.files.remove(np) && img == item_of(store, w.files[p]) {
                        assert(fs1[np] == w.files[p]);
                        assert(img.name == fs1[np]);
                        assert(fs1.len() == w.files.len() - 1);
                        assert(loadable(store, fs1[np]));
                    } else {
                        assert(fs1 == w.files && img == item_of(store, w.files[np]));
                        assert(img.name == fs1[np]);
                    }
                    assert(agrees_but_caption(img, item_of(store, fs1[idx])));
                    lemma_finish(store, fs1, img, idx, Direction::Backward);
                    let (w2, r) = crate::worker::finish_step(store, fs1, img, idx, Direction::Backward);
                    assert forall|n: Seq<char>| #[trigger] w2.files.contains(n) implies w.files.contains(n) by {
                        assert(fs1.contains(n));
                    }
                }
            }
        },
    }
}

/// Construction establishes the invariant, and the priming load already
/// only shrinks the candidate list.
pub proof fn lemma_init_inv(store: StoreView, files: Seq<Seq<char>>)
    requires
        store.wf(),
        unique_names(files),
    ensures
        inv(store, init_worker(store, files)),
        init_worker(store, files).files.len() <= files.len(),
        forall|n: Seq<char>| #[trigger] init_worker(store, files).files.contains(n)
            ==> files.contains(n),
{
    lemma_repair_shrinks(store, files, 0);
    if files.len() > 0 {
        lemma_repair_delivers(store, files, 0);
    }
}

/// A save changes captions only, and captions do not affect loadability:
/// the invariant survives any save, whatever name it touches.
pub proof fn lemma_save_preserves_inv(
    pre: StoreView,
    post: StoreView,
    name: Seq<char>,
    caption: Seq<char>,
    w: WorkerView,
)
    requires
        inv(pre, w),
        wrote(pre, post, name, caption),
    ensures
        inv(post, w),
{
    assert forall|n: Seq<char>| #[trigger] loadable(post, n) == loadable(pre, n) by {
        assert(post.image_of(n) == pre.image_of(n));
    }
    match w.slot {
        Some(s) => {
            assert(post.image_of(w.files[s.index]) == pre.image_of(w.files[s.index]));
            assert(agrees_but_caption(s.item, item_of(post, w.files[s.index])));
        },
        None => {},
    }
}

/// Saving a caption and then freshly loading the same candidate yields that
/// caption exactly: image payloads are untouched by the write, so the
/// candidate stays loadable and the loaded item carries the saved text.
pub proof fn lemma_save_round_trip(pre: StoreView, post: StoreView, name: Seq<char>, caption: Seq<char>)
    requires
        wrote(pre, post, name, caption),
        loadable(pre, name),
    ensures
        loadable(post, name),
        item_of(post, name).name == name,
        item_of(post, name).caption == caption,
        item_of(post, name).img == pre.image_of(name),
{
    assert(post.image_of(name) == pre.image_of(name));
}

/// Boundary idempotence: a `Next` at the last index — or on an empty list —
/// and a `Previous` at index 0 — or before the first delivery — change
/// nothing at all and deliver nothing; repeating them repeats the same
/// outcome from the same state.
pub proof fn lemma_boundary_idempotence(store: StoreView, w: WorkerView)
    ensures
        ((match w.position {
            Some(p) => p + 1 >= w.files.len(),
            None => false,
        } || w.files.len() == 0) ==> next_step(store, w).0 == w && next_step(store, w).1 is None),
        ((match w.position {
            Some(p) => p <= 0,
            None => true,
        }) ==> prev_step(store, w).0 == w && prev_step(store, w).1 is None),
{
}

/// Direction reversal forces a fresh load, not staleness: a `Previous`
/// issued while the slot holds the forward neighbour delivers the entry now
/// at the new position, and never that stale prefetched neighbour.
pub proof fn lemma_reversal_fresh(store: StoreView, w: WorkerView)
    requires
        inv(store, w),
        w.direction == Direction::Forward,
        (match (w.position, w.slot) {
            (Some(p), Some(s)) => s.index == p + 1,
            _ => false,
        }),
    ensures
        ({
            let (w2, r) = prev_step(store, w);
            match r {
                Some(it) => {
                    &&& (match w2.position {
                        Some(q) => 0 <= q < w2.files.len() && w2.files[q] == it.name,
                        None => false,
                    })
                    &&& (match w.slot {
                        Some(s) => it.name != s.item.name,
                        None => false,
                    })
                },
                None => (match w.position {
                    Some(p) => p <= 0,
                    None => true,
                }),
            }
        }),
{
    lemma_prev(store, w);
    let p = w.position->0;
    let s = w.slot->0;
    if p >= 1 {
        assert(p < w.files.len());
        let np: int = p - 1;
        lemma_repair_below(store, w.files, p);
        lemma_repair_shrinks(store, w.files, np);
        let (fs1, img, idx) = repair(store, w.files, np);
        assert(idx == np);
        if fs1 == w.files.remove(np) && img == item_of(store, w.files[p]) {
            assert(fs1[np] == w.files[p]);
            assert(img.name == fs1[np]);
            assert(fs1.len() == w.files.len() - 1);
        } else {
            assert(fs1 == w.files && img == item_of(store, w.files[np]));
            assert(img.name == fs1[np]);
        }
        assert(agrees_but_caption(img, item_of(store, fs1[idx])));
        lemma_finish(store, fs1, img, idx, Direction::Backward);
        assert(s.item.name == w.files[p + 1]);
        assert(img.name == w.files[p - 1] || img.name == w.files[p]);
        assert(w.files[p - 1] != w.files[p + 1]);
        assert(w.files[p] != w.files[p + 1]);
    }
}

/// The worker state after `n` further `Next` commands.
pub open spec fn after_nexts(store: StoreView, w: WorkerView, n: nat) -> WorkerView
    decreases n,
{
    if n == 0 {
        w
    } else {
        next_step(store, after_nexts(store, w, (n - 1) as nat)).0
    }
}

/// The reply the `n`-th `Next` command draws, counting from 1, in a pure
/// run of `Next` commands from `w`.
pub open spec fn nth_next_reply(store: StoreView, w: WorkerView, n: nat) -> Option<ItemView>
    recommends
        n >= 1,
{
    next_step(store, after_nexts(store, w, (n - 1) as nat)).1
}

/// The worker state in a failure-free forward sweep after `k` deliveries:
/// position on `k - 1`, slot prefetched for `k` — or parked on the last
/// entry once the sweep reaches the end.
spec fn sweep_state(store: StoreView, files: Seq<Seq<char>>, k: int) -> WorkerView {
    let si: int = if k < files.len() {
        k
    } else {
        files.len() - 1
    };
    WorkerView {
        files,
        position: if k == 0 {
            None
        } else {
            Some(k - 1)
        },
        slot: Some(SlotView { item: item_of(store, files[si]), index: si }),
        direction: Direction::Forward,
    }
}

/// One failure-free `Next` from sweep state `k` consumes the prefetched
/// slot, delivers the item at index `k` exactly, and moves to sweep state
/// `k + 1` without touching the list.
proof fn lemma_sweep_step(store: StoreView, files: Seq<Seq<char>>, k: int)
    requires
        unique_names(files),
        0 <= k < files.len(),
        forall|i: int| 0 <= i < files.len() ==> #[trigger] loadable(store, files[i]),
    ensures
        next_step(store, sweep_state(store, files, k)).0 == sweep_state(store, files, k + 1),
        next_step(store, sweep_state(store, files, k)).1 == Some(item_of(store, files[k])),
{
    let start: int = if k + 1 < files.len() {
        k + 1
    } else {
        k
    };
    assert(loadable(store, files[start]));
    assert(repair(store, files, start) == (files, item_of(store, files[start]), start));
    assert(item_of(store, files[start]).name == files[start]);
    assert(item_of(store, files[k]).name == files[k]);
    if start == k + 1 {
        assert(files[k] != files[k + 1]);
    }
}

/// A failure-free forward sweep from a fresh worker is exactly the sweep
/// states in order.
proof fn lemma_sweep_after(store: StoreView, files: Seq<Seq<char>>, k: int)
    requires
        unique_names(files),
        1 <= files.len(),
        0 <= k <= files.len(),
        forall|i: int| 0 <= i < files.len() ==> #[trigger] loadable(store, files[i]),
    ensures
        after_nexts(store, init_worker(store, files), k as nat) == sweep_state(store, files, k),
    decreases k,
{
    if k == 0 {
        assert(loadable(store, files[0]));
        assert(repair(store, files, 0) == (files, item_of(store, files[0]), 0int));
        assert(init_worker(store, files) == sweep_state(store, files, 0));
    } else {
        lemma_sweep_after(store, files, k - 1);
        lemma_sweep_step(store, files, k - 1);
    }
}

/// Prefetch correctness: in a failure-free run of `Next` commands from a
/// fresh worker, the `n`-th delivered item is exactly the load of
/// `files[n - 1]` — in particular it bears that name — and the list is
/// never touched.
pub proof fn lemma_prefetch_correctness(store: StoreView, files: Seq<Seq<char>>, n: int)
    requires
        unique_names(files),
        1 <= n <= files.len(),
        forall|i: int| 0 <= i < files.len() ==> #[trigger] loadable(store, files[i]),
    ensures
        nth_next_reply(store, init_worker(store, files), n as nat) == Some(
            item_of(store, files[n - 1]),
        ),
        item_of(store, files[n - 1]).name == files[n - 1],
        after_nexts(store, init_worker(store, files), n as nat).files == files,
{
    lemma_sweep_after(store, files, n - 1);
    lemma_sweep_step(store, files, n - 1);
    assert(after_nexts(store, init_worker(store, files), n as nat) == next_step(
        store,
        after_nexts(store, init_worker(store, files), (n - 1) as nat),
    ).0);
}

} // verus!
