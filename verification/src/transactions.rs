//! The index under transactions.
//!
//! Many transactions work on one index at a time. Each sees the store as it was committed when the
//! transaction began, with its own writes on top, and what it wrote is committed or dropped as a
//! whole when it ends. They all share one segment. What is shown here is that the segment never
//! counts as current with anything in it but the committed points, however the transactions and
//! the rebuilds interleave, and also where the index is created anew in between.

use vstd::prelude::*;
use crate::change::{next_step, StepView};
use crate::model::{
    a_rebuilt_segment_mirrors_the_store, is_mark, is_scan, perform, slot_after, steps_left,
    written, IndexState,
};
use crate::qv::RootView;
use crate::rebuild::{writes, EntryView};
use crate::slot::{marked, reopened, settled, swapped, SlotView, NO_EPOCH};

verus! {

/// An open transaction.
pub struct TransactionView {
    /// The keys of the index as the transaction sees them.
    pub keys: IndexState,
    /// The epoch of the slot that was noted before the transaction began, or [`NO_EPOCH`] where
    /// there was no slot.
    pub noted: nat,
}

/// A rebuild that has read the store and has not been swapped in.
pub struct RebuildView {
    /// The epoch that was noted before the transaction began that reads for the rebuild.
    pub started: nat,
    /// What was read.
    pub list: Seq<EntryView>,
}

/// The store, the transactions on it, the rebuilds under way, and the segment.
pub struct World {
    /// The committed keys of the index.
    pub committed: IndexState,
    /// The open transactions.
    pub open: Map<nat, TransactionView>,
    /// The changes that are marked and not settled, each with its transaction. The transaction may
    /// have ended.
    pub changes: Map<nat, nat>,
    /// The rebuilds under way.
    pub rebuilds: Map<nat, RebuildView>,
    /// The place of the segment.
    pub slot: SlotView,
    /// The vector of each point in the segment.
    pub segment: Map<u64, Seq<u32>>,
}

/// What can happen next.
pub enum Event {
    /// The transaction `t` begins.
    Begin { t: nat },
    /// The transaction `t` comes in that began before there was a slot, and sees `keys`.
    Join { t: nat, keys: IndexState },
    /// The transaction `t` performs a step of the change `c`.
    Step { t: nat, c: nat, step: StepView },
    /// The transaction `t` is committed, and the store holds `after`. What that is where other
    /// transactions have been committed since `t` began is left to the store.
    Commit { t: nat, after: IndexState },
    /// The transaction `t` is rolled back.
    Rollback { t: nat },
    /// The change `c` is settled.
    Settle { c: nat },
    /// The transaction `t` reads the points for the rebuild `r`, and finds `list`.
    Scan { t: nat, r: nat, list: Seq<EntryView> },
    /// The rebuild `r`, in the directory `dir`, is offered to the slot.
    Swap { r: nat, dir: Seq<char> },
    /// The index is created anew, with an empty segment in the directory `dir`, and the store holds
    /// `after`. Transactions, changes and rebuilds go on.
    Reopen { dir: Seq<char>, after: IndexState },
}

impl World {
    /// The transaction `t` has a change that is not settled.
    pub open spec fn has_changes(self, t: nat) -> bool {
        exists|c: nat| #[trigger] self.changes.contains_key(c) && self.changes[c] == t
    }

    /// Whether `e` can happen.
    pub open spec fn allows(self, root: RootView, e: Event) -> bool {
        match e {
            Event::Begin { t } => !self.open.contains_key(t) && !self.has_changes(t),
            Event::Join { t, keys } => !self.open.contains_key(t) && !self.has_changes(t),
            // The first step of a change marks the segment stale.
            Event::Step { t, c, step } => self.open.contains_key(t) && if is_mark(step) {
                !self.changes.contains_key(c)
            } else {
                self.changes.contains_key(c) && self.changes[c] == t
            },
            // A transaction that changed nothing leaves the store as it is.
            Event::Commit { t, after } => self.open.contains_key(t) && (self.has_changes(t)
                || after == self.committed),
            Event::Rollback { t } => self.open.contains_key(t),
            // A change is settled after its transaction has ended.
            Event::Settle { c } => self.changes.contains_key(c) && !self.open.contains_key(
                self.changes[c],
            ),
            // A transaction may write while it reads. Only where it has written nothing is it
            // known what it finds.
            Event::Scan { t, r, list } => self.open.contains_key(t) && !self.rebuilds.contains_key(
                r,
            ) && (self.has_changes(t) || is_scan(list, root, self.open[t].keys.points)),
            Event::Swap { r, dir } => self.rebuilds.contains_key(r),
            Event::Reopen { dir, after } => true,
        }
    }

    /// The world after `e`.
    pub open spec fn next(self, e: Event) -> World {
        match e {
            Event::Begin { t } => World {
                open: self.open.insert(
                    t,
                    TransactionView { keys: self.committed, noted: self.slot.epoch },
                ),
                ..self
            },
            Event::Join { t, keys } => World {
                open: self.open.insert(t, TransactionView { keys, noted: NO_EPOCH as nat }),
                ..self
            },
            Event::Step { t, c, step } => World {
                open: self.open.insert(
                    t,
                    TransactionView { keys: perform(step, self.open[t].keys).0, ..self.open[t] },
                ),
                changes: self.changes.insert(c, t),
                slot: slot_after(step, self.slot),
                ..self
            },
            Event::Commit { t, after } => World {
                committed: after,
                open: self.open.remove(t),
                ..self
            },
            Event::Rollback { t } => World { open: self.open.remove(t), ..self },
            Event::Settle { c } => World {
                changes: self.changes.remove(c),
                slot: settled(self.slot),
                ..self
            },
            Event::Scan { t, r, list } => World {
                rebuilds: self.rebuilds.insert(
                    r,
                    RebuildView { started: self.open[t].noted, list },
                ),
                ..self
            },
            Event::Swap { r, dir } => World {
                rebuilds: self.rebuilds.remove(r),
                slot: swapped(self.slot, dir, self.rebuilds[r].started),
                segment: if self.slot.loaded {
                    self.segment
                } else {
                    written(Map::empty(), writes(self.rebuilds[r].list, 0))
                },
                ..self
            },
            Event::Reopen { dir, after } => World {
                committed: after,
                slot: reopened(self.slot, dir),
                segment: Map::empty(),
                ..self
            },
        }
    }

    /// A segment that counts as current mirrors the committed points.
    pub open spec fn current(self) -> bool {
        self.slot.loaded ==> self.segment == self.committed.mirror()
    }

    /// Nothing has been marked or settled since `noted`, and no change is open.
    pub open spec fn quiet_since(self, noted: nat) -> bool {
        self.slot.epoch == noted && self.slot.unsettled == 0
    }

    /// What holds at every moment, for the index `root`.
    pub open spec fn sound(self, root: RootView) -> bool {
        &&& self.current()
        &&& self.slot.epoch > NO_EPOCH
        &&& self.slot.loaded ==> self.slot.unsettled == 0
        // The slot counts the changes that are not settled.
        &&& self.changes.dom().finite()
        &&& self.slot.unsettled == self.changes.dom().len()
        // Where all has been quiet since a transaction began, it sees what is committed.
        &&& forall|t: nat| #[trigger]
            self.open.contains_key(t) ==> self.open[t].noted <= self.slot.epoch && (
            self.quiet_since(self.open[t].noted) ==> self.open[t].keys.points
                == self.committed.points)
        // Where all has been quiet since a rebuild started, it has read what is committed.
        &&& forall|r: nat| #[trigger]
            self.rebuilds.contains_key(r) ==> self.rebuilds[r].started <= self.slot.epoch && (
            self.quiet_since(self.rebuilds[r].started) ==> is_scan(
                self.rebuilds[r].list,
                root,
                self.committed.points,
            ))
    }

    /// Nothing has happened yet: no transaction is open, and nothing is loaded.
    pub open spec fn fresh(self) -> bool {
        &&& self.open == Map::<nat, TransactionView>::empty()
        &&& self.changes == Map::<nat, nat>::empty()
        &&& self.rebuilds == Map::<nat, RebuildView>::empty()
        &&& !self.slot.loaded
        &&& self.slot.epoch == NO_EPOCH + 1
        &&& self.slot.unsettled == 0
    }

    /// The world after the events of `h`, the first one first.
    pub open spec fn after(self, h: Seq<Event>) -> World
        decreases h.len(),
    {
        if h.len() == 0 {
            self
        } else {
            self.after(h.drop_last()).next(h.last())
        }
    }

    /// Whether the events of `h` can happen one after the other.
    pub open spec fn allows_all(self, root: RootView, h: Seq<Event>) -> bool
        decreases h.len(),
    {
        h.len() > 0 ==> self.allows_all(root, h.drop_last()) && self.after(h.drop_last()).allows(
            root,
            h.last(),
        )
    }
}

/// A transaction with an open change is counted by the slot.
proof fn open_changes_are_counted(w: World, root: RootView, t: nat)
    requires
        w.sound(root),
        w.has_changes(t),
    ensures
        w.slot.unsettled > 0,
{
    let c = choose|c: nat| #[trigger] w.changes.contains_key(c) && w.changes[c] == t;
    assert(w.changes.dom().contains(c));
    assert(w.changes.dom().remove(c).len() + 1 == w.changes.dom().len());
}

/// Whatever happens, what holds at every moment goes on to hold: after every change, commit,
/// rollback, settlement, scan and swap, and after the index was created anew.
pub proof fn every_event_keeps_the_world_sound(w: World, root: RootView, e: Event)
    requires
        w.sound(root),
        w.allows(root, e),
    ensures
        w.next(e).sound(root),
{
    let end = w.next(e);
    match e {
        Event::Begin { t } => {},
        Event::Join { t, keys } => {},
        Event::Step { t, c, step } => {
            if is_mark(step) {
            } else {
                open_changes_are_counted(w, root, t);
                assert(end.changes =~= w.changes);
            }
        },
        Event::Commit { t, after } => {
            if w.has_changes(t) {
                open_changes_are_counted(w, root, t);
            }
        },
        Event::Rollback { t } => {},
        Event::Settle { c } => {
            assert(w.changes.dom().contains(c));
        },
        Event::Scan { t, r, list } => {
            if w.has_changes(t) {
                open_changes_are_counted(w, root, t);
            }
        },
        Event::Swap { r, dir } => {
            if !w.slot.loaded && end.slot.loaded {
                a_rebuilt_segment_mirrors_the_store(w.rebuilds[r].list, root, w.committed);
            }
        },
        Event::Reopen { dir, after } => {},
    }
}

/// It holds before anything has happened, whatever the store holds.
pub proof fn a_fresh_world_is_sound(w: World, root: RootView)
    requires
        w.fresh(),
    ensures
        w.sound(root),
{
}

/// Whatever happens, in whichever order, what holds at every moment goes on to hold.
pub proof fn every_history_keeps_the_world_sound(w: World, root: RootView, h: Seq<Event>)
    requires
        w.sound(root),
        w.allows_all(root, h),
    ensures
        w.after(h).sound(root),
    decreases h.len(),
{
    if h.len() > 0 {
        every_history_keeps_the_world_sound(w, root, h.drop_last());
        every_event_keeps_the_world_sound(w.after(h.drop_last()), root, h.last());
    }
}

/// A segment that counts as current mirrors the committed points, after every commit, rollback,
/// change and swap, in any order, and however often the index is created anew.
pub proof fn a_current_segment_mirrors_the_committed_points(
    w: World,
    root: RootView,
    h: Seq<Event>,
)
    requires
        w.fresh(),
        w.allows_all(root, h),
    ensures
        w.after(h).slot.loaded ==> w.after(h).segment == w.after(h).committed.mirror(),
{
    a_fresh_world_is_sound(w, root);
    every_history_keeps_the_world_sound(w, root, h);
}

/// The world after the transaction `t` has performed `s` and all steps that follow it, as steps of
/// the change `c`.
pub open spec fn performed(w: World, t: nat, c: nat, s: StepView) -> World
    decreases steps_left(s),
{
    if s is Finished {
        w
    } else {
        performed(
            w.next(Event::Step { t, c, step: s }),
            t,
            c,
            next_step(s, perform(s, w.open[t].keys).1),
        )
    }
}

/// The first step of a change: to give the record a vector, or to remove it.
pub open spec fn first_step(rid: Seq<u8>, vector: Option<Seq<u32>>) -> StepView {
    match vector {
        Some(v) => StepView::BeginWrite { id: rid, vector: v },
        None => StepView::BeginRemoval { id: rid },
    }
}

/// A change that is carried out in a transaction shows in what that transaction sees and in the
/// mark that is set, and nowhere else. The committed keys, the other transactions, the rebuilds
/// under way and the segment are as before.
pub proof fn a_change_stays_in_its_transaction(
    w: World,
    t: nat,
    c: nat,
    rid: Seq<u8>,
    vector: Option<Seq<u32>>,
)
    ensures
        performed(w, t, c, first_step(rid, vector)) == (World {
            open: w.open.insert(
                t,
                TransactionView { keys: w.open[t].keys.changed(rid, vector), ..w.open[t] },
            ),
            changes: w.changes.insert(c, t),
            slot: marked(w.slot),
            ..w
        }),
{
    reveal_with_fuel(performed, 8);
    let end = performed(w, t, c, first_step(rid, vector));
    let keys = w.open[t].keys.changed(rid, vector);
    assert(end.open[t].keys.points =~= keys.points);
    assert(end.open[t].keys.ids =~= keys.ids);
    assert(end.open =~= w.open.insert(t, TransactionView { keys, ..w.open[t] }));
    assert(end.changes =~= w.changes.insert(c, t));
}

/// From its mark until it is settled, a change keeps the segment stale, and so does settling it:
/// the next read rebuilds.
pub proof fn a_change_leaves_the_segment_stale(w: World, root: RootView, c: nat)
    requires
        w.sound(root),
        w.changes.contains_key(c),
    ensures
        !w.slot.loaded,
        !w.next(Event::Settle { c }).slot.loaded,
{
    open_changes_are_counted(w, root, w.changes[c]);
}

/// A rebuild that is installed holds the points that its transaction saw, as long as that
/// transaction had changed nothing.
pub proof fn a_rebuild_holds_what_its_transaction_sees(
    w: World,
    root: RootView,
    t: nat,
    r: nat,
    list: Seq<EntryView>,
    dir: Seq<char>,
)
    requires
        w.allows(root, Event::Scan { t, r, list }),
        !w.has_changes(t),
        !w.slot.loaded,
    ensures
        w.next(Event::Scan { t, r, list }).next(Event::Swap { r, dir }).segment
            == w.open[t].keys.mirror(),
{
    a_rebuilt_segment_mirrors_the_store(list, root, w.open[t].keys);
}

/// Where all has been quiet since a transaction began, its rebuild makes the segment current, with
/// the committed points in it.
pub proof fn a_quiet_rebuild_makes_the_segment_current(
    w: World,
    root: RootView,
    t: nat,
    r: nat,
    list: Seq<EntryView>,
    dir: Seq<char>,
)
    requires
        w.sound(root),
        w.allows(root, Event::Scan { t, r, list }),
        w.quiet_since(w.open[t].noted),
    ensures
        ({
            let end = w.next(Event::Scan { t, r, list }).next(Event::Swap { r, dir });
            &&& end.slot.loaded
            &&& end.segment == end.committed.mirror()
            &&& end.committed == w.committed
        }),
{
    let mid = w.next(Event::Scan { t, r, list });
    every_event_keeps_the_world_sound(w, root, Event::Scan { t, r, list });
    every_event_keeps_the_world_sound(mid, root, Event::Swap { r, dir });
}

/// Once the last open change has been settled, whether it was committed or rolled back and
/// whatever was rebuilt meanwhile, the next transaction that reads makes the segment current, with
/// the committed points in it and no others.
pub proof fn the_next_read_after_a_transaction_mirrors_the_store(
    w: World,
    root: RootView,
    c: nat,
    t: nat,
    r: nat,
    list: Seq<EntryView>,
    dir: Seq<char>,
)
    requires
        w.sound(root),
        w.slot.unsettled == 1,
        w.allows(root, Event::Settle { c }),
        w.next(Event::Settle { c }).allows(root, Event::Begin { t }),
        !w.rebuilds.contains_key(r),
        is_scan(list, root, w.committed.points),
    ensures
        ({
            let end = w.next(Event::Settle { c }).next(Event::Begin { t }).next(
                Event::Scan { t, r, list },
            ).next(Event::Swap { r, dir });
            &&& end.slot.loaded
            &&& end.segment == w.committed.mirror()
        }),
{
    let a = w.next(Event::Settle { c });
    every_event_keeps_the_world_sound(w, root, Event::Settle { c });
    let b = a.next(Event::Begin { t });
    every_event_keeps_the_world_sound(a, root, Event::Begin { t });
    a_quiet_rebuild_makes_the_segment_current(b, root, t, r, list, dir);
}

/// An index that is created anew starts above every epoch that an open transaction has noted and
/// every one at which a rebuild under way has started, with the same changes to wait for. So
/// nothing of before passes for current.
pub proof fn a_new_index_starts_above_every_note(
    w: World,
    root: RootView,
    dir: Seq<char>,
    after: IndexState,
    t: nat,
    r: nat,
)
    requires
        w.sound(root),
    ensures
        ({
            let end = w.next(Event::Reopen { dir, after });
            &&& !end.slot.loaded
            &&& end.slot.unsettled == w.slot.unsettled
            &&& end.open.contains_key(t) ==> end.open[t].noted < end.slot.epoch
            &&& end.rebuilds.contains_key(r) ==> end.rebuilds[r].started < end.slot.epoch
        }),
{
}

/// A transaction that began before there was a slot does not make the segment current.
pub proof fn a_transaction_without_a_note_leaves_the_segment_stale(
    w: World,
    root: RootView,
    t: nat,
    r: nat,
    list: Seq<EntryView>,
    dir: Seq<char>,
)
    requires
        w.sound(root),
        w.open.contains_key(t),
        w.open[t].noted == NO_EPOCH,
        !w.slot.loaded,
    ensures
        !w.next(Event::Scan { t, r, list }).next(Event::Swap { r, dir }).slot.loaded,
{
}

/// A rebuild that a mark or a settlement has overtaken does not make the segment current, however
/// long it takes and whatever happens before it is offered to the slot.
pub proof fn an_overtaken_rebuild_leaves_the_segment_stale(
    w: World,
    root: RootView,
    r: nat,
    h: Seq<Event>,
    dir: Seq<char>,
)
    requires
        w.rebuilds.contains_key(r),
        w.rebuilds[r].started < w.slot.epoch,
        w.allows_all(root, h),
        forall|i: int| 0 <= i < h.len() ==> !is_swap_of(#[trigger] h[i], r),
        !w.after(h).slot.loaded,
    ensures
        !w.after(h).next(Event::Swap { r, dir }).slot.loaded,
{
    overtaken_rebuilds_stay_overtaken(w, root, r, h);
}

/// `e` offers the rebuild `r` to the slot.
pub open spec fn is_swap_of(e: Event, r: nat) -> bool {
    e matches Event::Swap { r: q, .. } && q == r
}

proof fn overtaken_rebuilds_stay_overtaken(w: World, root: RootView, r: nat, h: Seq<Event>)
    requires
        w.rebuilds.contains_key(r),
        w.rebuilds[r].started < w.slot.epoch,
        w.allows_all(root, h),
        forall|i: int| 0 <= i < h.len() ==> !is_swap_of(#[trigger] h[i], r),
    ensures
        w.after(h).rebuilds.contains_key(r),
        w.after(h).rebuilds[r].started < w.after(h).slot.epoch,
    decreases h.len(),
{
    if h.len() > 0 {
        let before = h.drop_last();
        assert forall|i: int| 0 <= i < before.len() implies !is_swap_of(#[trigger] before[i], r) by {
            assert(before[i] == h[i]);
        }
        overtaken_rebuilds_stay_overtaken(w, root, r, before);
        assert(!is_swap_of(h[h.len() - 1], r));
    }
}

} // verus!
