//! What the operations on shared state do, in terms of the state before and after: the registry of
//! indexes, the place of a segment, the directories in use, and a segment that is being rebuilt.

use vstd::prelude::*;
use std::sync::Arc;
use crate::catalog::{IndexKeyBase, TableId};
use crate::dirs::Directories;
use crate::qv::{KeyError, Qv};
use crate::qv_laws::decode_undoes_encode;
use crate::rebuild::{
    entries, loadable, loadable_counts, loaded_entry, upserts, EntryView, Load, Rebuild,
    RebuildError, RebuildFault, ScanEntry,
};
use crate::slot::{dir_name, is_uuid_v7_text, segment_dir, unique_dir, SegmentSlot, Swap};
use crate::store::{shared_key, QortexIndexes};

verus! {

/// Two indexes share an entry of the registry only where all four ids are the same: those of the
/// namespace, the database, the table and the index. What the table is called has no part in it.
pub proof fn four_ids_tell_indexes_apart(s: TableId, a: IndexKeyBase, t: TableId, b: IndexKeyBase)
    ensures
        shared_key(s, a) == shared_key(t, b) <==> s == t && a.ns == b.ns && a.db == b.db && a.ix
            == b.ix,
{
}

/// A new registry has no index.
pub proof fn a_new_registry_is_empty<T>(
    all: QortexIndexes<T>,
    tb: TableId,
    ikb: IndexKeyBase,
    r: Option<Arc<T>>,
)
    requires
        call_ensures(<QortexIndexes::<T> as Default>::default, (), all),
        call_ensures(QortexIndexes::<T>::get, (&all, tb, &ikb), r),
    ensures
        r is None,
{
}

/// Inserting an index gives the one that was there, or else makes the new one active. From then on
/// it is what the registry gives under the same four ids, and under any others it gives what it
/// gave before.
pub proof fn insertion_concerns_one_index<T>(
    before: QortexIndexes<T>,
    tb: TableId,
    ikb: IndexKeyBase,
    h: Arc<T>,
    r: Arc<T>,
    after: QortexIndexes<T>,
    own: Option<Arc<T>>,
    t: TableId,
    other: IndexKeyBase,
    was: Option<Arc<T>>,
    now: Option<Arc<T>>,
)
    requires
        exists|all: &mut QortexIndexes<T>|
            *all == before && *final(all) == after && #[trigger] call_ensures(
                QortexIndexes::<T>::insert,
                (all, tb, &ikb, h),
                r,
            ),
        call_ensures(QortexIndexes::<T>::get, (&before, tb, &ikb), own),
        call_ensures(QortexIndexes::<T>::get, (&before, t, &other), was),
        call_ensures(QortexIndexes::<T>::get, (&after, t, &other), now),
    ensures
        own is None ==> r == h,
        own matches Some(active) ==> r == active,
        t == tb && other.ns == ikb.ns && other.db == ikb.db && other.ix == ikb.ix ==> now == Some(r),
        !(t == tb && other.ns == ikb.ns && other.db == ikb.db && other.ix == ikb.ix) ==> now == was,
{
}

/// After a removal the registry gives no index under the same four ids, and under any others it
/// gives what it gave before.
pub proof fn removal_concerns_one_index<T>(
    before: QortexIndexes<T>,
    tb: TableId,
    ikb: IndexKeyBase,
    after: QortexIndexes<T>,
    t: TableId,
    other: IndexKeyBase,
    was: Option<Arc<T>>,
    now: Option<Arc<T>>,
)
    requires
        exists|all: &mut QortexIndexes<T>|
            *all == before && *final(all) == after && #[trigger] call_ensures(
                QortexIndexes::<T>::remove,
                (all, tb, &ikb),
                (),
            ),
        call_ensures(QortexIndexes::<T>::get, (&before, t, &other), was),
        call_ensures(QortexIndexes::<T>::get, (&after, t, &other), now),
    ensures
        t == tb && other.ns == ikb.ns && other.db == ikb.db && other.ix == ikb.ix ==> now is None,
        !(t == tb && other.ns == ikb.ns && other.db == ikb.db && other.ix == ikb.ix) ==> now == was,
{
}

/// A new slot is in the given directory, is stale, and waits for no change.
pub proof fn a_new_slot_is_stale(dir: String, s: SegmentSlot)
    requires
        call_ensures(SegmentSlot::new, (dir,), s),
    ensures
        s.dir@ == dir@,
        !s.loaded,
        s.unsettled == 0,
        s.epoch > 0,
{
}

/// Marking a change makes the segment stale, and settling the change leaves it so. After both
/// there are as many changes to wait for as before, and the epoch has moved on twice.
pub proof fn settling_answers_marking(before: SegmentSlot, mid: SegmentSlot, after: SegmentSlot)
    requires
        exists|s: &mut SegmentSlot|
            *s == before && *final(s) == mid && #[trigger] call_ensures(
                SegmentSlot::mark_stale,
                (s,),
                (),
            ),
        exists|s: &mut SegmentSlot|
            *s == mid && *final(s) == after && #[trigger] call_ensures(
                SegmentSlot::settle,
                (s,),
                (),
            ),
    ensures
        !mid.loaded && !after.loaded,
        before.epoch < mid.epoch < after.epoch,
        mid.epoch == before.epoch + 1,
        after.epoch == before.epoch + 2,
        mid.unsettled == before.unsettled + 1,
        after.unsettled == before.unsettled,
        mid.dir == before.dir && after.dir == before.dir,
{
}

/// A swap retires one of two directories and leaves the other in use. It makes a stale segment
/// current exactly where nothing happened since the rebuild started and no change is open, and it
/// leaves a current one as it is.
pub proof fn a_swap_keeps_one_of_two(
    before: SegmentSlot,
    dir: String,
    started: u64,
    s: Swap,
    after: SegmentSlot,
)
    requires
        exists|slot: &mut SegmentSlot|
            *slot == before && *final(slot) == after && #[trigger] call_ensures(
                SegmentSlot::swap,
                (slot, dir, started),
                s,
            ),
    ensures
        after.epoch == before.epoch && after.unsettled == before.unsettled,
        before.loaded ==> after.loaded && after.dir == before.dir && (s matches Swap::Discarded {
            retired,
        } && retired == dir),
        !before.loaded ==> after.dir == dir && (s matches Swap::Installed { retired } && retired
            == before.dir),
        !before.loaded ==> (after.loaded <==> before.epoch == started && before.unsettled == 0),
{
}

/// An index that is created anew has its own directory and gives up the former one. It is stale,
/// has moved on, and waits for the same changes.
pub proof fn a_slot_is_opened_anew(
    before: SegmentSlot,
    dir: String,
    retired: String,
    after: SegmentSlot,
)
    requires
        exists|slot: &mut SegmentSlot|
            *slot == before && *final(slot) == after && #[trigger] call_ensures(
                SegmentSlot::reopen,
                (slot, dir),
                retired,
            ),
    ensures
        after.dir == dir && retired == before.dir,
        !after.loaded,
        after.epoch == before.epoch + 1,
        after.unsettled == before.unsettled,
{
}

/// The name of a directory is a fixed beginning and then the whole id.
pub proof fn a_directory_is_named_by_its_id(id: &str, name: String)
    requires
        call_ensures(segment_dir, (id,), name),
    ensures
        name@.len() == 15 + id@.len(),
        name@.take(15) == "surreal_qortex_"@,
        name@.skip(15) == id@,
{
    reveal_strlit("surreal_qortex_");
    assert(name@.take(15) =~= "surreal_qortex_"@);
    assert(name@.skip(15) =~= id@);
}

/// A fresh name is the fixed beginning and then an id of the form `xxxxxxxx-xxxx-7xxx-yxxx-` and
/// twelve more digits.
pub proof fn a_fresh_name_has_the_form_of_an_id(name: String)
    requires
        call_ensures(unique_dir, (), name),
    ensures
        name@.len() == 15 + 36,
        name@.take(15) == "surreal_qortex_"@,
        name@[23] == '-' && name@[28] == '-' && name@[33] == '-' && name@[38] == '-',
        name@[29] == '7',
{
    reveal_strlit("surreal_qortex_");
    let id = choose|id: Seq<char>| is_uuid_v7_text(id) && name@ == #[trigger] dir_name(id);
    assert(name@.take(15) =~= "surreal_qortex_"@);
    assert(name@.skip(15) =~= id);
    assert(name@[23] == id[8] && name@[28] == id[13] && name@[33] == id[18] && name@[38] == id[23]);
    assert(name@[29] == id[14]);
}

/// A directory is in use where it is one of those that are kept.
pub proof fn the_directories_in_use_are_those_kept(d: Directories, name: String, r: bool)
    requires
        call_ensures(Directories::contains, (&d, &name), r),
    ensures
        r <==> exists|i: int| 0 <= i < d.names@.len() && (#[trigger] d.names@[i])@ == name@,
{
    let views = d.names@.map_values(|n: String| n@);
    if r {
        let i = choose|i: int| 0 <= i < views.len() && views[i] == name@;
        assert(d.names@[i]@ == name@);
    }
    if exists|i: int| 0 <= i < d.names@.len() && (#[trigger] d.names@[i])@ == name@ {
        let i = choose|i: int| 0 <= i < d.names@.len() && (#[trigger] d.names@[i])@ == name@;
        assert(views[i] == name@);
    }
}

/// At first no directory is in use.
pub proof fn at_first_no_directory_is_in_use(d: Directories, name: String, r: bool)
    requires
        call_ensures(<Directories as Default>::default, (), d),
        call_ensures(Directories::contains, (&d, &name), r),
    ensures
        !r,
{
}

/// A directory is given out exactly where it was not in use, and the others stay as they are.
pub proof fn a_directory_is_given_out_once(
    before: Directories,
    name: String,
    r: Option<String>,
    after: Directories,
    other: String,
    had: bool,
    was: bool,
    now: bool,
)
    requires
        exists|d: &mut Directories|
            *d == before && *final(d) == after && #[trigger] call_ensures(
                Directories::claim,
                (d, name),
                r,
            ),
        call_ensures(Directories::contains, (&before, &name), had),
        call_ensures(Directories::contains, (&before, &other), was),
        call_ensures(Directories::contains, (&after, &other), now),
    ensures
        had <==> r is None,
        r matches Some(n) ==> n@ == name@,
        other@ == name@ ==> now,
        other@ != name@ ==> now == was,
{
}

/// A directory that is drawn was not in use and then is, and the others stay as they are.
pub proof fn a_directory_is_drawn_once(
    before: Directories,
    r: Option<String>,
    after: Directories,
    other: String,
    was: bool,
    now: bool,
)
    requires
        exists|d: &mut Directories|
            *d == before && *final(d) == after && #[trigger] call_ensures(
                Directories::draw,
                (d,),
                r,
            ),
        call_ensures(Directories::contains, (&before, &other), was),
        call_ensures(Directories::contains, (&after, &other), now),
    ensures
        r matches Some(n) ==> other@ == n@ ==> !was && now,
        r matches Some(n) ==> other@ != n@ ==> now == was,
        r is None ==> now == was,
{
}

/// A directory that is released is not in use any more, and the others stay as they are.
pub proof fn a_directory_is_released(
    before: Directories,
    name: String,
    after: Directories,
    other: String,
    was: bool,
    now: bool,
)
    requires
        exists|d: &mut Directories|
            *d == before && *final(d) == after && #[trigger] call_ensures(
                Directories::release,
                (d, &name),
                (),
            ),
        call_ensures(Directories::contains, (&before, &other), was),
        call_ensures(Directories::contains, (&after, &other), now),
    ensures
        other@ == name@ ==> !now,
        other@ != name@ ==> now == was,
{
}

/// How many entries can be loaded: those before the first that cannot.
pub proof fn loading_stops_at_the_first_fault(list: Seq<EntryView>, i: int)
    ensures
        loadable(list) <= list.len(),
        0 <= i < loadable(list) ==> loaded_entry(list[i]) is Ok,
        loadable(list) < list.len() ==> loaded_entry(list[loadable(list) as int]) is Err,
    decreases list.len(),
{
    if list.len() > 0 && loaded_entry(list[0]) is Ok {
        let rest = list.drop_first();
        loading_stops_at_the_first_fault(rest, i - 1);
        if loadable(rest) < rest.len() {
            assert(rest[loadable(rest) as int] == list[loadable(list) as int]);
        }
        if 0 < i < loadable(list) {
            assert(rest[i - 1] == list[i]);
        }
    }
}

/// The first `n` entries of a batch are those of the points that `keys` name, and their payloads
/// can be decoded. `bytes` are the encodings of the keys.
pub open spec fn begins_with_points(
    batch: Seq<ScanEntry>,
    keys: Seq<Qv>,
    bytes: Seq<Vec<u8>>,
    n: int,
) -> bool {
    &&& 0 <= n <= batch.len()
    &&& keys.len() == n
    &&& bytes.len() == n
    &&& forall|i: int|
        0 <= i < n ==> call_ensures(Qv::encode_key, (&#[trigger] keys[i],), Ok(bytes[i]))
            && batch[i].key@ == bytes[i]@ && batch[i].payload is Ok
}

proof fn points_are_loadable(
    batch: Seq<ScanEntry>,
    keys: Seq<Qv>,
    bytes: Seq<Vec<u8>>,
    n: int,
    i: int,
)
    requires
        begins_with_points(batch, keys, bytes, n),
        0 <= i < n,
    ensures
        loaded_entry(entries(batch)[i]) == Ok::<(u64, Seq<u32>), RebuildFault>(
            (keys[i].point_id, batch[i].payload->Ok_0.vector@),
        ),
{
    assert(call_ensures(Qv::encode_key, (&keys[i],), Ok(bytes[i])));
    decode_undoes_encode(keys[i]@);
}

/// A batch of points is loaded point by point: each entry becomes a write in its place, to the
/// point that its key names, with the vector of its payload, numbered on from the write before. A
/// batch without entries ends the rebuild.
pub proof fn a_batch_is_loaded_point_by_point(
    before: Rebuild,
    batch: Vec<ScanEntry>,
    r: Result<Load, RebuildError>,
    after: Rebuild,
    keys: Seq<Qv>,
    bytes: Seq<Vec<u8>>,
)
    requires
        before.segment.op + batch@.len() <= u64::MAX,
        exists|b: &mut Rebuild|
            *b == before && *final(b) == after && #[trigger] call_ensures(
                Rebuild::load,
                (b, &batch),
                r,
            ),
        begins_with_points(batch@, keys, bytes, batch@.len() as int),
    ensures
        batch@.len() == 0 <==> (r matches Ok(Load::Complete)),
        batch@.len() > 0 ==> (r matches Ok(Load::Insert { upserts: us }) && us@.len()
            == batch@.len() && forall|i: int|
            0 <= i < batch@.len() ==> (#[trigger] us@[i]).id == keys[i].point_id && us@[i].vector@
                == batch@[i].payload->Ok_0.vector@ && us@[i].op == before.segment.op + i + 1),
        after.segment.op == before.segment.op + batch@.len(),
        after.segment.config == before.segment.config,
        after.range == before.range,
{
    let list = entries(batch@);
    let n = batch@.len() as int;
    assert forall|i: int| 0 <= i < n implies loaded_entry(#[trigger] list[i]) is Ok by {
        points_are_loadable(batch@, keys, bytes, n, i);
    }
    loadable_counts(list, list.len());
    if n > 0 {
        let us = r->Ok_0->Insert_upserts;
        assert(upserts(us@).len() == n);
        assert forall|i: int| 0 <= i < n implies (#[trigger] us@[i]).id == keys[i].point_id
            && us@[i].vector@ == batch@[i].payload->Ok_0.vector@ && us@[i].op
            == before.segment.op + i + 1 by {
            points_are_loadable(batch@, keys, bytes, n, i);
            assert(upserts(us@)[i] == us@[i]@);
        }
    }
}

/// The first entry that cannot be loaded ends the rebuild, with the reason: that of its key where
/// the key cannot be decoded, and else that of its payload.
pub proof fn the_first_fault_is_reported(
    before: Rebuild,
    batch: Vec<ScanEntry>,
    r: Result<Load, RebuildError>,
    after: Rebuild,
    keys: Seq<Qv>,
    bytes: Seq<Vec<u8>>,
    n: int,
    k: &[u8],
    key: Result<Qv, KeyError>,
)
    requires
        before.segment.op + batch@.len() <= u64::MAX,
        exists|b: &mut Rebuild|
            *b == before && *final(b) == after && #[trigger] call_ensures(
                Rebuild::load,
                (b, &batch),
                r,
            ),
        begins_with_points(batch@, keys, bytes, n),
        n < batch@.len(),
        k@ == batch@[n].key@,
        call_ensures(Qv::decode_key, (k,), key),
        key is Err || batch@[n].payload is Err,
    ensures
        key matches Err(e) ==> (r matches Err(RebuildError::Key(f)) && f == e),
        key is Ok ==> (batch@[n].payload matches Err(why) ==> (r matches Err(
            RebuildError::Payload(text),
        ) && text@ == why@)),
{
    let list = entries(batch@);
    assert forall|i: int| 0 <= i < n implies loaded_entry(#[trigger] list[i]) is Ok by {
        points_are_loadable(batch@, keys, bytes, n, i);
    }
    assert(list[n] == batch@[n]@);
    loadable_counts(list, n as nat);
}

} // verus!
