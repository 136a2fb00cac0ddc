//! The place of the current segment: the directory behind it, and whether it still reflects the
//! store.

use vstd::prelude::*;
use vstd::string::*;

verus! {

/// The characters of a UUID in its hyphenated form, version 7: groups of 8, 4, 4, 4 and 12
/// lower-case hexadecimal digits.
pub open spec fn is_uuid_v7_text(text: Seq<char>) -> bool {
    &&& text.len() == 36
    &&& forall|i: int|
        0 <= i < 36 ==> if i == 8 || i == 13 || i == 18 || i == 23 {
            #[trigger] text[i] == '-'
        } else {
            is_hex_digit(text[i])
        }
    &&& text[14] == '7'
    &&& text[19] == '8' || text[19] == '9' || text[19] == 'a' || text[19] == 'b'
}

/// A digit of the lower-case hexadecimal notation.
pub open spec fn is_hex_digit(c: char) -> bool {
    '0' <= c <= '9' || 'a' <= c <= 'f'
}

/// `uuid::Uuid::now_v7`, written out: a UUID with version 7 and the variant bits `10`, in
/// hyphenated lower-case form. Nothing is said of the time and the random bits in it, nor that
/// two calls differ. The call panics where the system clock stands before 1970, and where the
/// system gives no random bits.
#[verifier::external_body]
fn now_v7() -> (text: String)
    ensures
        is_uuid_v7_text(text@),
{
    uuid::Uuid::now_v7().to_string()
}

/// The name of the segment directory for the id `id`.
pub open spec fn dir_name(id: Seq<char>) -> Seq<char> {
    "surreal_qortex_"@ + id
}

/// The name of the segment directory for the id `id`.
pub fn segment_dir(id: &str) -> (name: String)
    ensures
        name@ == dir_name(id@),
{
    let mut name: String = "surreal_qortex_".to_owned();
    name.append(id);
    name
}

/// Directories for different ids are different.
pub proof fn directories_are_apart(a: Seq<char>, b: Seq<char>)
    requires
        dir_name(a) == dir_name(b),
    ensures
        a == b,
{
    let n = "surreal_qortex_"@.len() as int;
    assert(a =~= dir_name(a).skip(n));
    assert(b =~= dir_name(b).skip(n));
}

/// The name of a directory to back one segment generation, under an id of its own.
/// That it is not in use is seen to by [`crate::dirs::Directories`].
pub fn unique_dir() -> (name: String)
    ensures
        exists|id: Seq<char>| is_uuid_v7_text(id) && name@ == #[trigger] dir_name(id),
{
    let id = now_v7();
    segment_dir(id.as_str())
}

/// What stands for the epoch that a transaction has noted, where there was no slot when the
/// transaction began. No slot is ever at this epoch.
pub const NO_EPOCH: u64 = 0;

/// The place of the current segment.
///
/// Changes are made in transactions, and what they wrote becomes the committed state of the store
/// or is dropped only when the transaction ends. So each change is noted twice: it is marked
/// before its first write, and settled once its transaction has been committed or rolled back.
#[derive(Debug)]
pub struct SegmentSlot {
    /// The directory that backs the current segment.
    pub dir: String,
    /// Whether the current segment reflects the latest committed state of the store.
    pub loaded: bool,
    /// One more than the number of times that the slot was opened anew, or a change was marked or
    /// settled.
    pub epoch: u64,
    /// How many changes have been marked and not settled.
    pub unsettled: u64,
}

/// What to do with a segment that was rebuilt.
#[derive(Debug)]
pub enum Swap {
    /// It takes the place of the current one, whose directory can go.
    Installed { retired: String },
    /// Another one took the place first. The rebuilt one is dropped, and its directory can go.
    Discarded { retired: String },
}

/// The contents of a slot.
pub struct SlotView {
    pub dir: Seq<char>,
    pub loaded: bool,
    pub epoch: nat,
    pub unsettled: nat,
}

impl View for SegmentSlot {
    type V = SlotView;

    open spec fn view(&self) -> SlotView {
        SlotView {
            dir: self.dir@,
            loaded: self.loaded,
            epoch: self.epoch as nat,
            unsettled: self.unsettled as nat,
        }
    }
}

/// The slot after a change was marked.
pub open spec fn marked(slot: SlotView) -> SlotView {
    SlotView { loaded: false, epoch: slot.epoch + 1, unsettled: slot.unsettled + 1, ..slot }
}

/// The slot after a change was settled.
pub open spec fn settled(slot: SlotView) -> SlotView {
    SlotView {
        loaded: false,
        epoch: slot.epoch + 1,
        unsettled: (slot.unsettled - 1) as nat,
        ..slot
    }
}

/// The slot after a segment rebuilt in `new_dir` was offered to it, where `started` was the epoch
/// when the rebuild started.
pub open spec fn swapped(slot: SlotView, new_dir: Seq<char>, started: nat) -> SlotView {
    if slot.loaded {
        slot
    } else {
        SlotView {
            dir: new_dir,
            loaded: slot.epoch == started && slot.unsettled == 0,
            ..slot
        }
    }
}

/// The slot after the index was created anew, with an empty segment in `dir`. The changes that are
/// open stay so.
pub open spec fn reopened(slot: SlotView, dir: Seq<char>) -> SlotView {
    SlotView { dir, loaded: false, epoch: slot.epoch + 1, ..slot }
}

/// The directory that is of no more use after a swap.
pub open spec fn retired_by(slot: SlotView, new_dir: Seq<char>) -> Seq<char> {
    if slot.loaded {
        new_dir
    } else {
        slot.dir
    }
}

/// Once a rebuild has made the segment current, every other rebuild of it is dropped.
pub proof fn only_the_first_rebuild_is_installed(
    slot: SlotView,
    a: Seq<char>,
    b: Seq<char>,
    started: nat,
    other: nat,
)
    requires
        swapped(slot, a, started).loaded,
    ensures
        swapped(swapped(slot, a, started), b, other) == swapped(slot, a, started),
        retired_by(swapped(slot, a, started), b) == b,
{
}

/// The directory that is retired is never the one in use, and none is forgotten: of the old and
/// the new directory one stays and the other is retired.
pub proof fn the_directory_in_use_is_not_retired(
    slot: SlotView,
    new_dir: Seq<char>,
    started: nat,
)
    requires
        slot.dir != new_dir,
    ensures
        retired_by(slot, new_dir) != swapped(slot, new_dir, started).dir,
        set![retired_by(slot, new_dir), swapped(slot, new_dir, started).dir] == set![
            slot.dir,
            new_dir,
        ],
{
    assert(set![retired_by(slot, new_dir), swapped(slot, new_dir, started).dir] =~= set![
        slot.dir,
        new_dir,
    ]);
}

/// A mark that is set while a rebuild is under way is not lost: the rebuilt segment stays stale,
/// whether the change is still open or has been settled by the time of the swap.
pub proof fn a_mark_outlasts_the_rebuilds_under_way(
    slot: SlotView,
    new_dir: Seq<char>,
    started: nat,
)
    requires
        started <= slot.epoch,
    ensures
        !swapped(marked(slot), new_dir, started).loaded,
        !swapped(settled(marked(slot)), new_dir, started).loaded,
{
}

/// While a change is not settled no rebuild makes the segment current.
pub proof fn an_open_change_keeps_the_segment_stale(
    slot: SlotView,
    new_dir: Seq<char>,
    started: nat,
)
    requires
        !slot.loaded,
        slot.unsettled > 0,
    ensures
        !swapped(slot, new_dir, started).loaded,
{
}

/// A rebuild that was under way when the index was created anew does not make the segment
/// current, and neither does one for a transaction that began when there was no slot.
pub proof fn creation_outlasts_the_rebuilds_under_way(
    slot: SlotView,
    dir: Seq<char>,
    new_dir: Seq<char>,
    started: nat,
)
    requires
        started <= slot.epoch,
    ensures
        !swapped(reopened(slot, dir), new_dir, started).loaded,
        !swapped(reopened(slot, dir), new_dir, NO_EPOCH as nat).loaded,
{
}

impl SegmentSlot {
    /// A segment in `dir` that has not been loaded, and no change that is not settled.
    pub fn new(dir: String) -> (s: SegmentSlot)
        ensures
            s.dir == dir,
            !s.loaded,
            s.epoch == NO_EPOCH + 1,
            s.unsettled == 0,
    {
        SegmentSlot { dir, loaded: false, epoch: 1, unsettled: 0 }
    }

    /// The index has been created anew, with an empty segment in `dir`. Gives the directory that
    /// was in use.
    ///
    /// The slot goes on counting where it stood, so that what was noted before does not pass for
    /// current, and changes that are open are still waited for.
    pub fn reopen(&mut self, dir: String) -> (retired: String)
        requires
            old(self).epoch < u64::MAX,
        ensures
            final(self).dir == dir,
            !final(self).loaded,
            final(self).epoch == old(self).epoch + 1,
            final(self).unsettled == old(self).unsettled,
            final(self)@ == reopened(old(self)@, dir@),
            retired == old(self).dir,
    {
        let mut retired = dir;
        std::mem::swap(&mut self.dir, &mut retired);
        self.loaded = false;
        self.epoch = self.epoch + 1;
        retired
    }

    /// A change is about to be written in a transaction: the segment no longer reflects the store,
    /// and cannot before the transaction has ended.
    pub fn mark_stale(&mut self)
        requires
            old(self).epoch < u64::MAX,
            old(self).unsettled < u64::MAX,
        ensures
            !final(self).loaded,
            final(self).epoch == old(self).epoch + 1,
            final(self).unsettled == old(self).unsettled + 1,
            final(self).dir == old(self).dir,
            final(self)@ == marked(old(self)@),
    {
        self.loaded = false;
        self.epoch = self.epoch + 1;
        self.unsettled = self.unsettled + 1;
    }

    /// The transaction of a marked change has been committed or rolled back. To be called once for
    /// each change, in either case.
    pub fn settle(&mut self)
        requires
            old(self).epoch < u64::MAX,
            old(self).unsettled > 0,
        ensures
            !final(self).loaded,
            final(self).epoch == old(self).epoch + 1,
            final(self).unsettled == old(self).unsettled - 1,
            final(self).dir == old(self).dir,
            final(self)@ == settled(old(self)@),
    {
        self.loaded = false;
        self.epoch = self.epoch + 1;
        self.unsettled = self.unsettled - 1;
    }

    /// Decides on a segment that was rebuilt in `new_dir`, now that the slot is locked. `started`
    /// is the epoch that was noted before the rebuild took its view of the store, or [`NO_EPOCH`].
    ///
    /// The rebuilt segment counts as current only if since then no change was marked or settled,
    /// and none is open. Otherwise it is installed and stays stale.
    pub fn swap(&mut self, new_dir: String, started: u64) -> (s: Swap)
        ensures
            old(self).loaded ==> *final(self) == *old(self) && s == (Swap::Discarded {
                retired: new_dir,
            }),
            !old(self).loaded ==> final(self).loaded == (old(self).epoch == started && old(
                self,
            ).unsettled == 0),
            !old(self).loaded ==> final(self).dir == new_dir && s == (Swap::Installed {
                retired: old(self).dir,
            }),
            final(self).epoch == old(self).epoch,
            final(self).unsettled == old(self).unsettled,
            final(self)@ == swapped(old(self)@, new_dir@, started as nat),
            match s {
                Swap::Installed { retired } => retired@ == retired_by(old(self)@, new_dir@),
                Swap::Discarded { retired } => retired@ == retired_by(old(self)@, new_dir@),
            },
    {
        if self.loaded {
            return Swap::Discarded { retired: new_dir };
        }
        let mut retired = new_dir;
        std::mem::swap(&mut self.dir, &mut retired);
        self.loaded = self.epoch == started && self.unsettled == 0;
        Swap::Installed { retired }
    }
}

} // verus!
