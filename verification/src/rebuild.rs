//! Rebuilding the segment from the store.
//!
//! The `!qv` range of the index is read batch by batch, and every entry becomes a write to a
//! fresh segment. [`Rebuild`] says what to write for each batch, and when the range has been
//! read to its end.

use vstd::prelude::*;
use std::ops::Range;
use crate::codec::DecodeFault;
use crate::qv::{decoded, Key, KeyError, Qv};
use crate::segment::{QortexSegment, Upsert, UpsertView};
use crate::vector::{PointView, QortexVecValue};

verus! {

/// An entry of the `!qv` range: the key, and the payload decoded or the reason why it cannot be.
#[derive(Debug)]
pub struct ScanEntry {
    pub key: Vec<u8>,
    pub payload: Result<QortexVecValue, String>,
}

/// The contents of an entry.
pub struct EntryView {
    pub key: Seq<u8>,
    pub payload: Result<PointView, Seq<char>>,
}

impl View for ScanEntry {
    type V = EntryView;

    open spec fn view(&self) -> EntryView {
        EntryView {
            key: self.key@,
            payload: match self.payload {
                Ok(p) => Ok(p@),
                Err(why) => Err(why@),
            },
        }
    }
}

/// Why an entry cannot be loaded.
#[derive(Debug)]
pub enum RebuildError {
    /// The key is not a `!qv` key.
    Key(KeyError),
    /// The payload cannot be decoded.
    Payload(String),
}

/// The contents of a rebuild error.
pub enum RebuildFault {
    Key(DecodeFault),
    Payload(Seq<char>),
}

impl RebuildError {
    /// The error reports `fault`.
    pub open spec fn reports(&self, fault: RebuildFault) -> bool {
        match fault {
            RebuildFault::Key(f) => *self == RebuildError::Key(KeyError::Decode(f)),
            RebuildFault::Payload(why) => *self matches RebuildError::Payload(text) && text@
                == why,
        }
    }
}

/// What an entry holds: the point id of its key and the vector of its payload. The key is looked
/// at first.
pub open spec fn loaded_entry(e: EntryView) -> Result<(u64, Seq<u32>), RebuildFault> {
    match decoded(e.key) {
        Err(fault) => Err(RebuildFault::Key(fault)),
        Ok(q) => match e.payload {
            Err(why) => Err(RebuildFault::Payload(why)),
            Ok(p) => Ok((q.point_id, p.vector)),
        },
    }
}

/// How many entries can be loaded before the first that cannot.
pub open spec fn loadable(entries: Seq<EntryView>) -> nat
    decreases entries.len(),
{
    if entries.len() == 0 || loaded_entry(entries[0]) is Err {
        0
    } else {
        1 + loadable(entries.drop_first())
    }
}

/// The writes that load `entries` into a segment whose last write had the number `op`.
pub open spec fn writes(entries: Seq<EntryView>, op: nat) -> Seq<UpsertView> {
    Seq::new(
        entries.len(),
        |i: int|
            {
                let e = loaded_entry(entries[i])->Ok_0;
                UpsertView { op: (op + i + 1) as u64, id: e.0, vector: e.1 }
            },
    )
}

/// The contents of a batch.
pub open spec fn entries(batch: Seq<ScanEntry>) -> Seq<EntryView> {
    batch.map_values(|e: ScanEntry| e@)
}

/// The contents of a list of writes.
pub open spec fn upserts(list: Seq<Upsert>) -> Seq<UpsertView> {
    list.map_values(|u: Upsert| u@)
}

/// A segment that is being rebuilt.
#[derive(Debug)]
pub struct Rebuild {
    /// The fresh segment.
    pub segment: QortexSegment,
    /// The range of the store to read.
    pub range: Range<Key>,
}

/// What to do with a batch.
#[derive(Debug)]
pub enum Load {
    /// Perform the writes, in their order, and read the next batch.
    Insert { upserts: Vec<Upsert> },
    /// The range has been read to its end.
    Complete,
}

/// The entries before the first that cannot be loaded are as many as `loadable` says.
pub proof fn loadable_counts(entries: Seq<EntryView>, n: nat)
    requires
        n <= entries.len(),
        forall|i: int| 0 <= i < n ==> loaded_entry(#[trigger] entries[i]) is Ok,
        n < entries.len() ==> loaded_entry(entries[n as int]) is Err,
    ensures
        loadable(entries) == n,
    decreases n,
{
    if n > 0 {
        let rest = entries.drop_first();
        assert(loaded_entry(entries[0]) is Ok);
        assert forall|i: int| 0 <= i < n - 1 implies loaded_entry(#[trigger] rest[i]) is Ok by {
            assert(rest[i] == entries[i + 1]);
        }
        loadable_counts(rest, (n - 1) as nat);
    }
}

impl Rebuild {
    /// What to do with the next batch of the range. A batch without entries ends it.
    pub fn load(&mut self, batch: &Vec<ScanEntry>) -> (r: Result<Load, RebuildError>)
        requires
            old(self).segment.op + batch@.len() <= u64::MAX,
        ensures
            final(self).range == old(self).range,
            final(self).segment.config == old(self).segment.config,
            final(self).segment.op == old(self).segment.op + loadable(entries(batch@)),
            ({
                let list = entries(batch@);
                let n = loadable(list);
                if n < list.len() {
                    loaded_entry(list[n as int]) matches Err(fault) && (r matches Err(e)
                        && e.reports(fault))
                } else if n == 0 {
                    r matches Ok(Load::Complete)
                } else {
                    r matches Ok(Load::Insert { upserts: us }) && upserts(us@) == writes(
                        list,
                        old(self).segment.op as nat,
                    )
                }
            }),
    {
        let ghost list = entries(batch@);
        if batch.len() == 0 {
            return Ok(Load::Complete);
        }
        let mut us: Vec<Upsert> = Vec::new();
        for i in 0..batch.len()
            invariant
                list == entries(batch@),
                old(self).segment.op + batch@.len() <= u64::MAX,
                self.range == old(self).range,
                self.segment.config == old(self).segment.config,
                self.segment.op == old(self).segment.op + i,
                forall|j: int| 0 <= j < i ==> loaded_entry(#[trigger] list[j]) is Ok,
                upserts(us@) == writes(list.take(i as int), old(self).segment.op as nat),
        {
            let entry = &batch[i];
            assert(list[i as int] == entry@);
            let qv = match Qv::decode_key(entry.key.as_slice()) {
                Ok(qv) => qv,
                Err(e) => {
                    proof {
                        loadable_counts(list, i as nat);
                    }
                    return Err(RebuildError::Key(e));
                },
            };
            let payload = match &entry.payload {
                Ok(p) => p,
                Err(why) => {
                    proof {
                        loadable_counts(list, i as nat);
                    }
                    return Err(RebuildError::Payload(why.clone()));
                },
            };
            let ghost before = us@;
            let u = self.segment.insert(qv.point_id, &payload.vector);
            us.push(u);
            proof {
                assert(upserts(us@) =~= upserts(before).push(u@));
                assert(writes(list.take(i + 1), old(self).segment.op as nat) =~= writes(
                    list.take(i as int),
                    old(self).segment.op as nat,
                ).push(u@));
            }
        }
        proof {
            loadable_counts(list, list.len());
            assert(list.take(list.len() as int) =~= list);
        }
        Ok(Load::Insert { upserts: us })
    }
}

} // verus!
