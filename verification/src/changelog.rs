//! A log of which bodies changed in which frame. Any number of readers can
//! follow it, each with its own checkpoint: a reader asks for what is newer
//! than the last frame it has seen.

use vstd::prelude::*;

verus! {

/// The record of a body that a change touched.
#[derive(Debug, Clone, Copy, PartialEq, Eq, Structural)]
pub enum Component {
    Pose,
    NextFrame,
}

/// One entry of the log: in `frame`, this component of `body` changed.
#[derive(Debug, Clone, Copy, PartialEq, Eq, Structural)]
pub struct Change {
    pub frame: u64,
    pub body: u64,
    pub component: Component,
}

/// The log: a frame counter that only grows, and the changes recorded so
/// far, oldest frame first, each at most once.
#[derive(Debug, Clone, PartialEq, Eq)]
pub struct ChangeLog {
    frame: u64,
    entries: Vec<Change>,
}

/// The entries of `entries` that are newer than the frame `last_seen`, in
/// their order.
pub open spec fn newer_than(entries: Seq<Change>, last_seen: u64) -> Seq<Change> {
    entries.filter(|c: Change| c.frame > last_seen)
}

/// Whether `change` is among the last entries of `entries`, those of its
/// own frame. In a well-formed log whose frame is that of `change`, that is
/// whether the log holds the change at all.
pub open spec fn lately(entries: Seq<Change>, change: Change) -> bool
    decreases entries.len(),
{
    entries.len() > 0 && entries.last().frame == change.frame && (entries.last() == change
        || lately(entries.drop_last(), change))
}

/// The log `entries` with `change` in it: at the end, unless it is among
/// the entries of its frame already.
pub open spec fn with_change(entries: Seq<Change>, change: Change) -> Seq<Change> {
    if lately(entries, change) {
        entries
    } else {
        entries.push(change)
    }
}

/// The log after an integration step of `body` in `frame`: the staged frame
/// of the body has changed.
pub open spec fn after_staging(entries: Seq<Change>, frame: u64, body: u64) -> Seq<Change> {
    with_change(entries, Change { frame, body, component: Component::NextFrame })
}

/// The log after a commit of `body` in `frame`: its pose has changed, and,
/// where the commit had to seed it, its staged frame.
pub open spec fn after_commit(entries: Seq<Change>, frame: u64, body: u64, seeded: bool) -> Seq<
    Change,
> {
    let posed = with_change(entries, Change { frame, body, component: Component::Pose });
    if seeded {
        with_change(posed, Change { frame, body, component: Component::NextFrame })
    } else {
        posed
    }
}

/// In a log sorted by frame that holds nothing newer than `change`, the
/// last entries are the only place where `change` can be.
pub proof fn lemma_lately(entries: Seq<Change>, change: Change)
    requires
        forall|i: int| 0 <= i < entries.len() ==> (#[trigger] entries[i]).frame <= change.frame,
        forall|i: int, j: int|
            0 <= i <= j < entries.len() ==> (#[trigger] entries[i]).frame <= (
            #[trigger] entries[j]).frame,
    ensures
        lately(entries, change) == entries.contains(change),
    decreases entries.len(),
{
    if entries.len() > 0 {
        let front = entries.drop_last();
        if entries.last().frame == change.frame {
            lemma_lately(front, change);
            if entries.contains(change) && entries.last() != change {
                let k = choose|k: int| 0 <= k < entries.len() && entries[k] == change;
                assert(front[k] == change);
            }
            if front.contains(change) {
                let k = choose|k: int| 0 <= k < front.len() && front[k] == change;
                assert(entries[k] == change);
            }
        } else {
            if entries.contains(change) {
                let k = choose|k: int| 0 <= k < entries.len() && entries[k] == change;
                assert(entries[k].frame <= entries[entries.len() - 1].frame);
            }
        }
    }
}

impl ChangeLog {
    /// The frame that changes are now recorded for.
    pub closed spec fn frame_spec(&self) -> u64 {
        self.frame
    }

    /// Everything recorded so far.
    pub closed spec fn entries_spec(&self) -> Seq<Change> {
        self.entries@
    }

    /// The counter has left frame 0, no entry is from frame 0 or from a frame
    /// to come, frames never go down along the log, and no entry occurs twice.
    pub open spec fn wf(&self) -> bool {
        let entries = self.entries_spec();
        &&& self.frame_spec() >= 1
        &&& forall|i: int| 0 <= i < entries.len() ==> (#[trigger] entries[i]).frame >= 1
        &&& forall|i: int| 0 <= i < entries.len() ==> (#[trigger] entries[i]).frame <= self.frame_spec()
        &&& forall|i: int, j: int|
            0 <= i <= j < entries.len() ==> (#[trigger] entries[i]).frame <= (#[trigger] entries[j]).frame
        &&& entries.no_duplicates()
    }

    /// An empty log at frame 1. No change is ever recorded for frame 0: it
    /// is the checkpoint of a reader that has seen nothing yet.
    pub fn new() -> (log: Self)
        ensures
            log.frame_spec() == 1,
            log.entries_spec() == Seq::<Change>::empty(),
            log.wf(),
    {
        ChangeLog { frame: 1, entries: Vec::new() }
    }

    /// The frame that changes are now recorded for.
    pub fn frame(&self) -> (frame: u64)
        ensures
            frame == self.frame_spec(),
    {
        self.frame
    }

    /// The number of entries recorded so far.
    pub fn len(&self) -> (n: usize)
        ensures
            n == self.entries_spec().len(),
    {
        self.entries.len()
    }

    /// Moves on to the next frame. The counter never goes back: at the last
    /// frame that the counter can hold it stays, and the answer is `false`.
    pub fn advance(&mut self) -> (moved: bool)
        ensures
            moved == (old(self).frame_spec() < u64::MAX),
            final(self).frame_spec() == if moved {
                old(self).frame_spec() + 1
            } else {
                old(self).frame_spec() as int
            },
            final(self).entries_spec() == old(self).entries_spec(),
            old(self).wf() ==> final(self).wf(),
    {
        if self.frame < u64::MAX {
            self.frame = self.frame + 1;
            true
        } else {
            false
        }
    }

    /// Whether this change is among the last entries, those of its frame.
    fn recorded(&self, change: &Change) -> (found: bool)
        ensures
            found == lately(self.entries_spec(), *change),
    {
        let mut i: usize = self.entries.len();
        proof {
            assert(self.entries_spec().take(i as int) == self.entries_spec());
        }
        while i > 0
            invariant
                i <= self.entries.len(),
                lately(self.entries_spec(), *change) == lately(
                    self.entries_spec().take(i as int),
                    *change,
                ),
            decreases i,
        {
            proof {
                assert(self.entries_spec().take(i as int).drop_last() == self.entries_spec().take(
                    i - 1,
                ));
            }
            let entry = &self.entries[i - 1];
            if entry.frame != change.frame {
                return false;
            }
            let same_component = match (entry.component, change.component) {
                (Component::Pose, Component::Pose) => true,
                (Component::NextFrame, Component::NextFrame) => true,
                _ => false,
            };
            if entry.body == change.body && same_component {
                return true;
            }
            i = i - 1;
        }
        false
    }

    /// Records that `component` of `body` changed in the current frame. A
    /// change that the log holds already is not recorded again; the answer
    /// says whether the entry is new.
    pub fn record(&mut self, body: u64, component: Component) -> (fresh: bool)
        ensures
            final(self).frame_spec() == old(self).frame_spec(),
            fresh == !lately(
                old(self).entries_spec(),
                Change { frame: old(self).frame_spec(), body, component },
            ),
            final(self).entries_spec() == with_change(
                old(self).entries_spec(),
                Change { frame: old(self).frame_spec(), body, component },
            ),
            old(self).wf() ==> final(self).wf() && fresh == !old(self).entries_spec().contains(
                Change { frame: old(self).frame_spec(), body, component },
            ),
    {
        let change = Change { frame: self.frame, body, component };
        proof {
            if self.wf() {
                lemma_lately(self.entries_spec(), change);
            }
        }
        if self.recorded(&change) {
            false
        } else {
            self.entries.push(change);
            proof {
                let before = old(self).entries_spec();
                let after = self.entries_spec();
                if old(self).wf() {
                    assert forall|i: int, j: int|
                        0 <= i < after.len() && 0 <= j < after.len() && i != j implies after[i]
                        != after[j] by {
                        if i < before.len() && j < before.len() {
                            assert(before[i] != before[j]);
                        } else if i < before.len() {
                            assert(before.contains(before[i]));
                        } else {
                            assert(before.contains(before[j]));
                        }
                    }
                }
            }
            true
        }
    }

    /// Records what an integration step changes of `body`: its staged frame.
    pub fn staged(&mut self, body: u64)
        ensures
            old(self).wf() ==> final(self).wf(),
            final(self).frame_spec() == old(self).frame_spec(),
            final(self).entries_spec() == after_staging(
                old(self).entries_spec(),
                old(self).frame_spec(),
                body,
            ),
    {
        let _ = self.record(body, Component::NextFrame);
    }

    /// Records what a commit changes of `body`: its pose, and, where the
    /// commit had to seed it, its staged frame.
    pub fn committed(&mut self, body: u64, seeded: bool)
        ensures
            old(self).wf() ==> final(self).wf(),
            final(self).frame_spec() == old(self).frame_spec(),
            final(self).entries_spec() == after_commit(
                old(self).entries_spec(),
                old(self).frame_spec(),
                body,
                seeded,
            ),
    {
        let _ = self.record(body, Component::Pose);
        if seeded {
            let _ = self.record(body, Component::NextFrame);
        }
    }

    /// What a reader that has seen everything up to the frame `last_seen`
    /// has yet to see: every entry of a newer frame, once, in the order of
    /// the log.
    pub fn changes_since(&self, last_seen: u64) -> (changes: Vec<Change>)
        ensures
            changes@ == newer_than(self.entries_spec(), last_seen),
            forall|c: Change|
                changes@.contains(c) <==> self.entries_spec().contains(c) && c.frame > last_seen,
            self.wf() ==> changes@.no_duplicates(),
    {
        let mut changes: Vec<Change> = Vec::new();
        let mut i: usize = 0;
        let ghost newer = |c: Change| c.frame > last_seen;
        proof {
            reveal(Seq::filter);
        }
        while i < self.entries.len()
            invariant
                i <= self.entries.len(),
                newer == (|c: Change| c.frame > last_seen),
                changes@ == self.entries_spec().take(i as int).filter(newer),
            decreases self.entries.len() - i,
        {
            proof {
                reveal(Seq::filter);
                assert(self.entries_spec().take(i + 1).drop_last() == self.entries_spec().take(
                    i as int,
                ));
            }
            let entry = self.entries[i];
            if entry.frame > last_seen {
                changes.push(entry);
            }
            i = i + 1;
        }
        proof {
            let all = self.entries_spec();
            assert(all.take(all.len() as int) == all);
            assert forall|c: Change| changes@.contains(c) <==> all.contains(c) && c.frame
                > last_seen by {
                if all.contains(c) && c.frame > last_seen {
                    let k = choose|k: int| 0 <= k < all.len() && all[k] == c;
                    all.lemma_filter_contains(newer, k);
                }
                if changes@.contains(c) {
                    let k = choose|k: int| 0 <= k < changes@.len() && changes@[k] == c;
                    all.lemma_filter_pred(newer, k);
                    all.lemma_filter_contains_rev(newer, c);
                }
            }
            if self.wf() {
                lemma_filter_keeps_distinct(all, newer);
            }
        }
        changes
    }
}

/// Filtering a sequence without duplicates leaves no duplicates.
pub proof fn lemma_filter_keeps_distinct<A>(s: Seq<A>, pred: spec_fn(A) -> bool)
    requires
        s.no_duplicates(),
    ensures
        s.filter(pred).no_duplicates(),
    decreases s.len(),
{
    reveal(Seq::filter);
    if s.len() > 0 {
        let front = s.drop_last();
        lemma_filter_keeps_distinct(front, pred);
        if pred(s.last()) {
            let kept = front.filter(pred);
            assert forall|i: int| 0 <= i < kept.len() implies kept[i] != s.last() by {
                assert(kept.contains(kept[i]));
                front.lemma_filter_contains_rev(pred, kept[i]);
                let k = choose|k: int| 0 <= k < front.len() && front[k] == kept[i];
                assert(s[k] == kept[i]);
            }
        }
    }
}

} // verus!
