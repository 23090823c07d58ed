//! The persistence step, modelled: an idempotent insert-or-update keyed by
//! the stable identifier.
//!
//! The durable store itself is an external collaborator; what this module
//! verifies is the shape of the write it is asked to perform.  Each
//! completed record is written by `uid`: a new row for an unseen
//! identifier, a replacement for a seen one — never an appended duplicate.
//! Re-running the same records therefore leaves the store exactly as one
//! run leaves it, which [`lemma_persist_idempotent`] states and proves.

use vstd::prelude::*;
use crate::correlator::{initial, spec_run, OutcomeModel};
use crate::flags::Flag;
use crate::fragment::{FragmentModel, KindConfig};
use crate::meta::{MessageMeta, MetaModel};
use crate::text::{view_opt_bytes, view_opt_str};
use crate::timestamp::Timestamp;

verus! {

/// One durable row, keyed by the stable identifier.
#[derive(Clone, Debug)]
pub struct StoredMessage {
    pub uid: u32,
    pub mod_seq: u64,
    pub flags: Vec<Flag>,
    pub mid: Option<String>,
    pub dt: Option<Timestamp>,
    pub subject: Option<String>,
    pub sender: Option<String>,
    pub raw: Option<Vec<u8>>,
}

/// The mathematical value of a [`StoredMessage`].
pub struct StoredModel {
    pub uid: u32,
    pub mod_seq: u64,
    pub flags: Seq<Flag>,
    pub mid: Option<Seq<char>>,
    pub dt: Option<Timestamp>,
    pub subject: Option<Seq<char>>,
    pub sender: Option<Seq<char>>,
    pub raw: Option<Seq<u8>>,
}

impl View for StoredMessage {
    type V = StoredModel;

    open spec fn view(&self) -> StoredModel {
        StoredModel {
            uid: self.uid,
            mod_seq: self.mod_seq,
            flags: self.flags@,
            mid: view_opt_str(self.mid),
            dt: self.dt,
            subject: view_opt_str(self.subject),
            sender: view_opt_str(self.sender),
            raw: view_opt_bytes(self.raw),
        }
    }
}

/// The row a completed record writes: everything but the session-local
/// sequence position, which is never persisted as identity.
pub open spec fn spec_row_of(m: MetaModel) -> StoredModel {
    StoredModel {
        uid: m.uid,
        mod_seq: m.mod_seq,
        flags: m.flags,
        mid: m.mid,
        dt: m.dt,
        subject: m.subject,
        sender: m.sender,
        raw: m.raw,
    }
}

/// Builds the durable row of one completed record.
pub fn row_of(m: &MessageMeta) -> (r: StoredMessage)
    ensures
        r@ == spec_row_of(m@),
{
    let flags = copy_flags(&m.flags);
    let raw = match &m.raw {
        Some(b) => {
            let c = b.clone();
            proof {
                assert(c@ =~= b@);
            }
            Some(c)
        },
        None => None,
    };
    StoredMessage {
        uid: m.uid,
        mod_seq: m.mod_seq,
        flags,
        mid: m.mid.clone(),
        dt: m.dt,
        subject: m.subject.clone(),
        sender: m.sender.clone(),
        raw,
    }
}

fn copy_flags(v: &Vec<Flag>) -> (r: Vec<Flag>)
    ensures
        r@ == v@,
{
    let mut r: Vec<Flag> = Vec::new();
    let mut i: usize = 0;
    while i < v.len()
        invariant
            i <= v@.len(),
            r@ == v@.take(i as int),
        decreases v@.len() - i,
    {
        r.push(v[i]);
        proof {
            assert(v@.take(i + 1) =~= v@.take(i as int).push(v@[i as int]));
        }
        i += 1;
    }
    proof {
        assert(v@.take(v@.len() as int) =~= v@);
    }
    r
}

/// The store contents as a map after writing each of `recs` in order,
/// each by its identifier: insert or replace, never a duplicate.
pub open spec fn apply_all(store: Map<u32, StoredModel>, recs: Seq<MetaModel>) -> Map<
    u32,
    StoredModel,
>
    decreases recs.len(),
{
    if recs.len() == 0 {
        store
    } else {
        apply_all(store, recs.drop_last()).insert(recs.last().uid, spec_row_of(recs.last()))
    }
}

/// The last row among `recs` written for identifier `u`, if any.
pub open spec fn last_write(recs: Seq<MetaModel>, u: u32) -> Option<StoredModel>
    decreases recs.len(),
{
    if recs.len() == 0 {
        None
    } else if recs.last().uid == u {
        Some(spec_row_of(recs.last()))
    } else {
        last_write(recs.drop_last(), u)
    }
}

proof fn lemma_apply_all_at(store: Map<u32, StoredModel>, recs: Seq<MetaModel>, u: u32)
    ensures
        apply_all(store, recs).contains_key(u) == (store.contains_key(u) || last_write(
            recs,
            u,
        ) is Some),
        apply_all(store, recs).contains_key(u) ==> apply_all(store, recs)[u] == (match last_write(
            recs,
            u,
        ) {
            Some(v) => v,
            None => store[u],
        }),
    decreases recs.len(),
{
    if recs.len() > 0 {
        lemma_apply_all_at(store, recs.drop_last(), u);
    }
}

/// Writing the same records twice leaves the store exactly where writing
/// them once leaves it: the write is an insert-or-update by identifier, so
/// a re-run replaces each row with the value it already holds — no
/// duplicate rows, same final flags and change version.
pub proof fn lemma_persist_idempotent(store: Map<u32, StoredModel>, recs: Seq<MetaModel>)
    ensures
        apply_all(apply_all(store, recs), recs) == apply_all(store, recs),
{
    let once = apply_all(store, recs);
    let twice = apply_all(once, recs);
    assert forall|u: u32| #[trigger]
        twice.contains_key(u) == once.contains_key(u) && (twice.contains_key(u) ==> twice[u]
            == once[u]) by {
        lemma_apply_all_at(store, recs, u);
        lemma_apply_all_at(once, recs, u);
    }
    assert(twice =~= once);
}

/// The completed records a correlator run emitted, in emission order.
pub open spec fn completed_records(outs: Seq<(u32, OutcomeModel)>) -> Seq<MetaModel>
    decreases outs.len(),
{
    if outs.len() == 0 {
        Seq::empty()
    } else {
        completed_records(outs.drop_last()) + match outs.last().1 {
            OutcomeModel::Completed(m, _) => seq![m],
            _ => Seq::empty(),
        }
    }
}

/// Running the correlator over the identical fragment stream a second time
/// and persisting its completed records again leaves the store exactly as
/// one run leaves it: the run is a function of the stream, and the write
/// is an insert-or-update by identifier.
pub proof fn lemma_session_rerun_idempotent(
    store: Map<u32, StoredModel>,
    kinds: KindConfig,
    evs: Seq<(u32, FragmentModel)>,
)
    ensures
        ({
            let recs = completed_records(spec_run(initial(kinds), evs).1);
            apply_all(apply_all(store, recs), recs) == apply_all(store, recs)
        }),
{
    lemma_persist_idempotent(store, completed_records(spec_run(initial(kinds), evs).1));
}

/// A verified in-memory store with the same contract as the durable one:
/// rows keyed by identifier, written by insert-or-update.
pub struct MessageStore {
    rows: Vec<StoredMessage>,
}

/// The map a sequence of unique-keyed rows denotes.
pub open spec fn map_of_rows(rows: Seq<StoredMessage>) -> Map<u32, StoredModel>
    decreases rows.len(),
{
    if rows.len() == 0 {
        Map::empty()
    } else {
        map_of_rows(rows.drop_last()).insert(rows.last().uid, rows.last()@)
    }
}

impl View for MessageStore {
    type V = Map<u32, StoredModel>;

    closed spec fn view(&self) -> Map<u32, StoredModel> {
        map_of_rows(self.rows@)
    }
}

proof fn lemma_map_of_rows_len(rows: Seq<StoredMessage>)
    requires
        forall|a: int, b: int|
            0 <= a < rows.len() && 0 <= b < rows.len() && a != b ==> (#[trigger] rows[a]).uid != (
            #[trigger] rows[b]).uid,
    ensures
        map_of_rows(rows).dom().finite(),
        map_of_rows(rows).dom().len() == rows.len(),
    decreases rows.len(),
{
    if rows.len() > 0 {
        let dl = rows.drop_last();
        lemma_map_of_rows_len(dl);
        lemma_map_of_rows_contains(dl, rows.last().uid);
        assert forall|i: int| 0 <= i < dl.len() implies (#[trigger] dl[i]).uid
            != rows.last().uid by {
            assert(rows[i] == dl[i]);
        }
        assert(!map_of_rows(dl).contains_key(rows.last().uid));
    }
}

proof fn lemma_map_of_rows_contains(rows: Seq<StoredMessage>, u: u32)
    ensures
        map_of_rows(rows).contains_key(u) == exists|i: int|
            0 <= i < rows.len() && (#[trigger] rows[i]).uid == u,
    decreases rows.len(),
{
    if rows.len() > 0 {
        lemma_map_of_rows_contains(rows.drop_last(), u);
        if rows.last().uid == u {
            assert(rows[rows.len() - 1].uid == u);
        } else {
            if map_of_rows(rows.drop_last()).contains_key(u) {
                let i = choose|i: int|
                    0 <= i < rows.drop_last().len() && (#[trigger] rows.drop_last()[i]).uid == u;
                assert(rows[i].uid == u);
            }
            if exists|i: int| 0 <= i < rows.len() && (#[trigger] rows[i]).uid == u {
                let i = choose|i: int| 0 <= i < rows.len() && (#[trigger] rows[i]).uid == u;
                assert(rows.drop_last()[i].uid == u);
            }
        }
    }
}

proof fn lemma_map_of_rows_update(rows: Seq<StoredMessage>, i: int, r: StoredMessage)
    requires
        0 <= i < rows.len(),
        rows[i].uid == r.uid,
        forall|a: int, b: int|
            0 <= a < rows.len() && 0 <= b < rows.len() && a != b ==> (#[trigger] rows[a]).uid != (
            #[trigger] rows[b]).uid,
    ensures
        map_of_rows(rows.update(i, r)) == map_of_rows(rows).insert(r.uid, r@),
    decreases rows.len(),
{
    let upd = rows.update(i, r);
    if i == rows.len() - 1 {
        assert(upd.drop_last() =~= rows.drop_last());
        assert(upd.last() == r);
        assert(map_of_rows(rows).insert(r.uid, r@) =~= map_of_rows(rows.drop_last()).insert(
            rows.last().uid,
            rows.last()@,
        ).insert(r.uid, r@));
    } else {
        assert(upd.drop_last() =~= rows.drop_last().update(i, r));
        assert(upd.last() == rows.last());
        assert(rows.drop_last()[i].uid == r.uid);
        lemma_map_of_rows_update(rows.drop_last(), i, r);
        assert(rows.last().uid != r.uid);
        assert(map_of_rows(rows.drop_last()).insert(r.uid, r@).insert(
            rows.last().uid,
            rows.last()@,
        ) =~= map_of_rows(rows.drop_last()).insert(rows.last().uid, rows.last()@).insert(
            r.uid,
            r@,
        ));
    }
}

impl MessageStore {
    /// Every row keyed once: no two rows share an identifier.
    pub closed spec fn inv(self) -> bool {
        forall|a: int, b: int|
            0 <= a < self.rows@.len() && 0 <= b < self.rows@.len() && a != b ==> (
            #[trigger] self.rows@[a]).uid != (#[trigger] self.rows@[b]).uid
    }

    /// An empty store.
    pub fn new() -> (r: MessageStore)
        ensures
            r.inv(),
            r@ == Map::<u32, StoredModel>::empty(),
    {
        MessageStore { rows: Vec::new() }
    }

    /// How many rows the store holds: one per identifier, never a
    /// duplicate.
    pub fn len(&self) -> (r: usize)
        requires
            self.inv(),
        ensures
            self@.dom().finite(),
            r == self@.dom().len(),
    {
        proof {
            lemma_map_of_rows_len(self.rows@);
        }
        self.rows.len()
    }

    /// Writes one completed record by its identifier: an unseen identifier
    /// gains a row, a seen one has its row replaced — never a duplicate.
    pub fn upsert(&mut self, m: &MessageMeta)
        requires
            old(self).inv(),
        ensures
            final(self).inv(),
            final(self)@ == old(self)@.insert(m.uid, spec_row_of(m@)),
    {
        let row = row_of(m);
        let ghost rows0 = self.rows@;
        let mut i: usize = 0;
        while i < self.rows.len()
            invariant
                old(self).inv(),
                rows0 == old(self).rows@,
                row@ == spec_row_of(m@),
                i <= self.rows@.len(),
                self.rows@ == rows0,
                forall|j: int| 0 <= j < i ==> (#[trigger] rows0[j]).uid != m.uid,
            decreases self.rows@.len() - i,
        {
            if self.rows[i].uid == m.uid {
                proof {
                    lemma_map_of_rows_update(rows0, i as int, row);
                }
                self.rows.set(i, row);
                proof {
                    assert forall|a: int, b: int|
                        0 <= a < self.rows@.len() && 0 <= b < self.rows@.len() && a
                            != b implies (#[trigger] self.rows@[a]).uid != (
                    #[trigger] self.rows@[b]).uid by {
                        assert(rows0[a].uid != rows0[b].uid);
                    }
                }
                return ;
            }
            i += 1;
        }
        self.rows.push(row);
        proof {
            assert(self.rows@.drop_last() =~= rows0);
            assert(self.rows@.last() == row);
            assert forall|a: int, b: int|
                0 <= a < self.rows@.len() && 0 <= b < self.rows@.len() && a != b implies (
            #[trigger] self.rows@[a]).uid != (#[trigger] self.rows@[b]).uid by {
                if a < rows0.len() && b < rows0.len() {
                    assert(rows0[a].uid != rows0[b].uid);
                } else if a < rows0.len() {
                    assert(rows0[a].uid != m.uid);
                } else {
                    assert(rows0[b].uid != m.uid);
                }
            }
        }
    }

    /// Looks one row up by identifier.
    pub fn get(&self, uid: u32) -> (r: Option<&StoredMessage>)
        requires
            self.inv(),
        ensures
            match r {
                Some(row) => self@.contains_key(uid) && row@ == self@[uid],
                None => !self@.contains_key(uid),
            },
    {
        let ghost rows0 = self.rows@;
        let mut i: usize = 0;
        while i < self.rows.len()
            invariant
                i <= self.rows@.len(),
                self.rows@ == rows0,
                self.inv(),
                forall|j: int| 0 <= j < i ==> (#[trigger] rows0[j]).uid != uid,
            decreases self.rows@.len() - i,
        {
            if self.rows[i].uid == uid {
                proof {
                    lemma_map_of_rows_at(rows0, i as int);
                }
                return Some(&self.rows[i]);
            }
            i += 1;
        }
        proof {
            lemma_map_of_rows_contains(rows0, uid);
        }
        None
    }

    /// Writes a whole run of completed records in order.
    pub fn persist_all(&mut self, records: &Vec<MessageMeta>)
        requires
            old(self).inv(),
        ensures
            final(self).inv(),
            final(self)@ == apply_all(old(self)@, records@.map_values(|m: MessageMeta| m@)),
    {
        let ghost recs = records@.map_values(|m: MessageMeta| m@);
        let mut i: usize = 0;
        proof {
            assert(recs.take(0) =~= Seq::<MetaModel>::empty());
        }
        while i < records.len()
            invariant
                i <= records@.len(),
                recs == records@.map_values(|m: MessageMeta| m@),
                self.inv(),
                self@ == apply_all(old(self)@, recs.take(i as int)),
            decreases records@.len() - i,
        {
            proof {
                assert(recs.take(i + 1).drop_last() =~= recs.take(i as int));
                assert(recs.take(i + 1).last() == records@[i as int]@);
            }
            self.upsert(&records[i]);
            i += 1;
        }
        proof {
            assert(recs.take(records@.len() as int) =~= recs);
        }
    }
}

proof fn lemma_map_of_rows_at(rows: Seq<StoredMessage>, i: int)
    requires
        0 <= i < rows.len(),
        forall|a: int, b: int|
            0 <= a < rows.len() && 0 <= b < rows.len() && a != b ==> (#[trigger] rows[a]).uid != (
            #[trigger] rows[b]).uid,
    ensures
        map_of_rows(rows).contains_key(rows[i].uid),
        map_of_rows(rows)[rows[i].uid] == rows[i]@,
    decreases rows.len(),
{
    if i == rows.len() - 1 {
    } else {
        lemma_map_of_rows_at(rows.drop_last(), i);
        assert(rows.drop_last()[i] == rows[i]);
        assert(rows.last().uid != rows[i].uid);
    }
}

} // verus!
