use vstd::prelude::*;

use crate::codec::{chunks_view, concat_chunks, decode_table, decode_table_spec, flatten};
use crate::error::RemoteError;
use crate::table::{ColumnsView, Table};

verus! {

/// Where a dataset is read from.
#[derive(Clone, Copy, Debug, PartialEq, Eq, Structural)]
pub enum SourceType {
    Csv,
    Rosbag2,
}

/// What the backend needs to materialise a dataset: its source and the format
/// options of that source.
#[derive(Clone, Debug)]
pub struct LoadDescriptor {
    pub path: String,
    pub source_type: SourceType,
    pub delimiter: String,
    pub has_header: bool,
    pub skip_rows_before_header: u32,
    pub skip_rows_after_header: u32,
}

/// The lifecycle of a dataset record.
#[derive(Clone, Copy, Debug, PartialEq, Eq, Structural)]
pub enum LoadState {
    AwaitingConfirmation,
    Queued,
    Loading,
    Loaded,
    Failed,
    Canceled,
}

/// A state from which cancellation is still possible.
pub open spec fn is_live(s: LoadState) -> bool {
    s == LoadState::AwaitingConfirmation || s == LoadState::Queued || s == LoadState::Loading
}

/// One known dataset.
#[derive(Debug)]
pub struct DatasetRecord {
    pub id: u64,
    pub descriptor: LoadDescriptor,
    pub state: LoadState,
    pub payload: Option<Table>,
}

/// The mathematical view of a dataset record.
pub struct RecordModel {
    pub id: u64,
    pub descriptor: LoadDescriptor,
    pub state: LoadState,
    pub payload: Option<ColumnsView>,
}

pub open spec fn table_opt_view(t: Option<Table>) -> Option<ColumnsView> {
    match t {
        Some(t) => Some(t@),
        None => None,
    }
}

pub open spec fn record_view(r: DatasetRecord) -> RecordModel {
    RecordModel { id: r.id, descriptor: r.descriptor, state: r.state, payload: table_opt_view(r.payload) }
}

pub open spec fn result_view(r: Result<Table, RemoteError>) -> Result<ColumnsView, RemoteError> {
    match r {
        Ok(t) => Ok(t@),
        Err(e) => Err(e),
    }
}

/// The mathematical view of the registry: its records in admission order,
/// the identifier the next record gets, and the record that owns the load
/// slot, if any.
pub struct RegistryModel {
    pub records: Seq<RecordModel>,
    pub next_id: u64,
    pub loading: Option<u64>,
}

pub open spec fn ids_increasing(recs: Seq<RecordModel>) -> bool {
    forall|i: int, j: int| 0 <= i < j < recs.len() ==> (#[trigger] recs[i]).id < (#[trigger] recs[j]).id
}

/// The registry's invariant. A record in `Loading` owns the single load
/// slot; a payload is present exactly on `Loaded` records.
pub open spec fn registry_wf(m: RegistryModel) -> bool {
    &&& ids_increasing(m.records)
    &&& forall|i: int| 0 <= i < m.records.len() ==> (#[trigger] m.records[i]).id < m.next_id
    &&& forall|i: int|
        0 <= i < m.records.len() && (#[trigger] m.records[i]).state == LoadState::Loading
            ==> m.loading == Some(m.records[i].id)
    &&& forall|i: int|
        0 <= i < m.records.len() ==> ((#[trigger] m.records[i]).payload is Some <==> m.records[i].state
            == LoadState::Loaded)
}

/// No two records are in `Loading` at once.
pub open spec fn single_loading(m: RegistryModel) -> bool {
    forall|i: int, j: int|
        0 <= i < m.records.len() && 0 <= j < m.records.len() && (#[trigger] m.records[i]).state
            == LoadState::Loading && (#[trigger] m.records[j]).state == LoadState::Loading ==> i == j
}

pub open spec fn with_state(r: RecordModel, s: LoadState) -> RecordModel {
    RecordModel { id: r.id, descriptor: r.descriptor, state: s, payload: r.payload }
}

pub open spec fn enqueue_spec(m: RegistryModel, d: LoadDescriptor, confirmed: bool) -> RegistryModel {
    RegistryModel {
        records: m.records.push(
            RecordModel {
                id: m.next_id,
                descriptor: d,
                state: if confirmed {
                    LoadState::Queued
                } else {
                    LoadState::AwaitingConfirmation
                },
                payload: None,
            },
        ),
        next_id: (m.next_id + 1) as u64,
        loading: m.loading,
    }
}

pub open spec fn confirm_record(r: RecordModel, id: u64) -> RecordModel {
    if r.id == id && r.state == LoadState::AwaitingConfirmation {
        with_state(r, LoadState::Queued)
    } else {
        r
    }
}

pub open spec fn confirm_spec(m: RegistryModel, id: u64) -> RegistryModel {
    RegistryModel { records: m.records.map_values(|r: RecordModel| confirm_record(r, id)), ..m }
}

pub open spec fn cancel_record(r: RecordModel, id: u64) -> RecordModel {
    if r.id == id && is_live(r.state) {
        with_state(r, LoadState::Canceled)
    } else {
        r
    }
}

pub open spec fn cancel_spec(m: RegistryModel, id: u64) -> RegistryModel {
    RegistryModel { records: m.records.map_values(|r: RecordModel| cancel_record(r, id)), ..m }
}

pub open spec fn has_queued(recs: Seq<RecordModel>) -> bool {
    exists|k: int| 0 <= k < recs.len() && (#[trigger] recs[k]).state == LoadState::Queued
}

pub open spec fn is_first_queued(recs: Seq<RecordModel>, k: int) -> bool {
    &&& 0 <= k < recs.len()
    &&& recs[k].state == LoadState::Queued
    &&& forall|j: int| 0 <= j < k ==> (#[trigger] recs[j]).state != LoadState::Queued
}

/// Start of a load: with the slot free, the earliest `Queued` record starts loading.
pub open spec fn start_spec(m: RegistryModel) -> RegistryModel {
    if m.loading is None && has_queued(m.records) {
        let k = choose|k: int| is_first_queued(m.records, k);
        RegistryModel {
            records: m.records.update(k, with_state(m.records[k], LoadState::Loading)),
            next_id: m.next_id,
            loading: Some(m.records[k].id),
        }
    } else {
        m
    }
}

pub open spec fn settle(r: RecordModel, res: Result<ColumnsView, RemoteError>) -> RecordModel {
    match res {
        Ok(t) => RecordModel { id: r.id, descriptor: r.descriptor, state: LoadState::Loaded, payload: Some(t) },
        Err(_) => RecordModel { id: r.id, descriptor: r.descriptor, state: LoadState::Failed, payload: None },
    }
}

pub open spec fn resolve_record(r: RecordModel, id: u64, res: Result<ColumnsView, RemoteError>) -> RecordModel {
    if r.id == id && r.state == LoadState::Loading {
        settle(r, res)
    } else {
        r
    }
}

/// The load in the slot finished: its record settles if it is still
/// `Loading`; a result for a canceled record is dropped. The slot is free
/// either way.
pub open spec fn resolve_spec(m: RegistryModel, res: Result<ColumnsView, RemoteError>) -> RegistryModel {
    match m.loading {
        None => m,
        Some(id) => RegistryModel {
            records: m.records.map_values(|r: RecordModel| resolve_record(r, id, res)),
            next_id: m.next_id,
            loading: None,
        },
    }
}

/// The records that are not `Canceled`, in order.
pub open spec fn purge_seq(recs: Seq<RecordModel>) -> Seq<RecordModel>
    decreases recs.len(),
{
    if recs.len() == 0 {
        recs
    } else {
        let p = purge_seq(recs.drop_last());
        if recs.last().state == LoadState::Canceled {
            p
        } else {
            p.push(recs.last())
        }
    }
}

pub open spec fn purge_spec(m: RegistryModel) -> RegistryModel {
    RegistryModel { records: purge_seq(m.records), ..m }
}

/// The part of a pass after the slot's poll: apply what it found (`None`
/// while the load is in flight or no load runs), then remove canceled
/// records.
pub open spec fn finish_spec(m: RegistryModel, o: Option<Result<ColumnsView, RemoteError>>) -> RegistryModel {
    purge_spec(
        match o {
            None => m,
            Some(r) => resolve_spec(m, r),
        },
    )
}

/// One pass of the registry: start the next load if the slot is free, then
/// finish with what the slot's poll found.
pub open spec fn tick_spec(m: RegistryModel, o: Option<Result<ColumnsView, RemoteError>>) -> RegistryModel {
    finish_spec(start_spec(m), o)
}

/// Owns every known dataset record.
#[derive(Debug)]
pub struct DatasetRegistry {
    records: Vec<DatasetRecord>,
    next_id: u64,
    loading: Option<u64>,
}

impl View for DatasetRegistry {
    type V = RegistryModel;

    closed spec fn view(&self) -> RegistryModel {
        RegistryModel {
            records: self.records@.map_values(|r: DatasetRecord| record_view(r)),
            next_id: self.next_id,
            loading: self.loading,
        }
    }
}

impl DatasetRegistry {
    /// An empty registry.
    pub fn new() -> (r: DatasetRegistry)
        ensures
            r@.records.len() == 0,
            r@.next_id == 0,
            r@.loading is None,
            registry_wf(r@),
    {
        let r = DatasetRegistry { records: Vec::new(), next_id: 0, loading: None };
        proof {
            assert(r@.records =~= Seq::<RecordModel>::empty());
        }
        r
    }

    /// Adds a record for `descriptor`: awaiting the user's confirmation, or
    /// already `Queued` when `confirmed`. Returns its identifier, or `None`
    /// once every identifier has been handed out.
    pub fn enqueue(&mut self, descriptor: LoadDescriptor, confirmed: bool) -> (r: Option<u64>)
        requires
            registry_wf(old(self)@),
        ensures
            registry_wf(final(self)@),
            old(self)@.next_id == u64::MAX ==> r is None && final(self)@ == old(self)@,
            old(self)@.next_id < u64::MAX ==> r == Some(old(self)@.next_id) && final(self)@
                == enqueue_spec(old(self)@, descriptor, confirmed),
    {
        if self.next_id == u64::MAX {
            return None;
        }
        let id = self.next_id;
        let state = if confirmed {
            LoadState::Queued
        } else {
            LoadState::AwaitingConfirmation
        };
        let ghost before = self@;
        self.records.push(DatasetRecord { id, descriptor, state, payload: None });
        self.next_id = id + 1;
        proof {
            assert(self@.records =~= before.records.push(
                RecordModel { id, descriptor, state, payload: None },
            ));
        }
        Some(id)
    }

    /// Moves an `AwaitingConfirmation` record to `Queued`; any other record
    /// is left as it is. Returns whether a record moved.
    pub fn confirm(&mut self, id: u64) -> (r: bool)
        requires
            registry_wf(old(self)@),
        ensures
            registry_wf(final(self)@),
            final(self)@ == confirm_spec(old(self)@, id),
            r == exists|i: int|
                0 <= i < old(self)@.records.len() && (#[trigger] old(self)@.records[i]).id == id
                    && old(self)@.records[i].state == LoadState::AwaitingConfirmation,
    {
        let ghost before = self@;
        let n = self.records.len();
        let mut i: usize = 0;
        while i < n
            invariant
                n == self.records.len(),
                i <= n,
                before == old(self)@,
                registry_wf(before),
                self@ == old(self)@,
                forall|j: int|
                    0 <= j < i ==> !((#[trigger] before.records[j]).id == id && before.records[j].state
                        == LoadState::AwaitingConfirmation),
            decreases n - i,
        {
            if self.records[i].id == id && self.records[i].state == LoadState::AwaitingConfirmation {
                self.records[i].state = LoadState::Queued;
                proof {
                    assert forall|j: int| 0 <= j < n && j != i implies (#[trigger] before.records[j]).id != id by {
                        if j < i {
                            assert(before.records[j].id < before.records[i as int].id);
                        } else {
                            assert(before.records[i as int].id < before.records[j].id);
                        }
                    }
                    assert(self@.records =~= before.records.map_values(
                        |r: RecordModel| confirm_record(r, id),
                    ));
                }
                return true;
            }
            i = i + 1;
        }
        proof {
            assert(self@.records =~= before.records.map_values(|r: RecordModel| confirm_record(r, id)));
        }
        false
    }

    /// Moves a record that is not yet settled to `Canceled`; a load already
    /// in flight for it keeps the slot until its result arrives, and that
    /// result is then dropped. Returns whether a record moved.
    pub fn cancel(&mut self, id: u64) -> (r: bool)
        requires
            registry_wf(old(self)@),
        ensures
            registry_wf(final(self)@),
            final(self)@ == cancel_spec(old(self)@, id),
            r == exists|i: int|
                0 <= i < old(self)@.records.len() && (#[trigger] old(self)@.records[i]).id == id
                    && is_live(old(self)@.records[i].state),
    {
        let ghost before = self@;
        let n = self.records.len();
        let mut i: usize = 0;
        while i < n
            invariant
                n == self.records.len(),
                i <= n,
                before == old(self)@,
                registry_wf(before),
                self@ == old(self)@,
                forall|j: int|
                    0 <= j < i ==> !((#[trigger] before.records[j]).id == id && is_live(
                        before.records[j].state,
                    )),
            decreases n - i,
        {
            let st = self.records[i].state;
            if self.records[i].id == id && (st == LoadState::AwaitingConfirmation || st
                == LoadState::Queued || st == LoadState::Loading) {
                self.records[i].state = LoadState::Canceled;
                proof {
                    assert forall|j: int| 0 <= j < n && j != i implies (#[trigger] before.records[j]).id != id by {
                        if j < i {
                            assert(before.records[j].id < before.records[i as int].id);
                        } else {
                            assert(before.records[i as int].id < before.records[j].id);
                        }
                    }
                    assert(self@.records =~= before.records.map_values(
                        |r: RecordModel| cancel_record(r, id),
                    ));
                }
                return true;
            }
            i = i + 1;
        }
        proof {
            assert(self@.records =~= before.records.map_values(|r: RecordModel| cancel_record(r, id)));
        }
        false
    }
}

impl DatasetRegistry {
    /// With the load slot free, moves the earliest `Queued` record to
    /// `Loading` and gives it the slot. Returns that record's position.
    pub fn start_next(&mut self) -> (r: Option<usize>)
        requires
            registry_wf(old(self)@),
        ensures
            registry_wf(final(self)@),
            final(self)@ == start_spec(old(self)@),
            r is None ==> final(self)@ == old(self)@,
            r matches Some(k) ==> {
                &&& old(self)@.loading is None
                &&& is_first_queued(old(self)@.records, k as int)
                &&& final(self)@.loading == Some(final(self)@.records[k as int].id)
            },
    {
        if self.loading.is_some() {
            return None;
        }
        let ghost before = self@;
        let n = self.records.len();
        let mut i: usize = 0;
        while i < n
            invariant
                n == self.records.len(),
                i <= n,
                before == old(self)@,
                registry_wf(before),
                before.loading is None,
                self@ == old(self)@,
                forall|j: int| 0 <= j < i ==> (#[trigger] before.records[j]).state != LoadState::Queued,
            decreases n - i,
        {
            if self.records[i].state == LoadState::Queued {
                let id = self.records[i].id;
                self.records[i].state = LoadState::Loading;
                self.loading = Some(id);
                proof {
                    assert(is_first_queued(before.records, i as int));
                    assert(has_queued(before.records));
                    let k = choose|k: int| is_first_queued(before.records, k);
                    assert(k == i) by {
                        if k < i {
                            assert(before.records[k].state != LoadState::Queued);
                        } else if k > i {
                            assert(before.records[i as int].state != LoadState::Queued);
                        }
                    }
                    assert forall|j: int| 0 <= j < n implies (#[trigger] before.records[j]).state
                        != LoadState::Loading by {
                        if before.records[j].state == LoadState::Loading {
                            assert(before.loading == Some(before.records[j].id));
                        }
                    }
                    assert(self@.records =~= before.records.update(
                        i as int,
                        with_state(before.records[i as int], LoadState::Loading),
                    ));
                }
                return Some(i);
            }
            i = i + 1;
        }
        None
    }

    /// Applies the result of the load in the slot and frees the slot. A
    /// record that is still `Loading` settles to `Loaded` with the table, or
    /// to `Failed` without a payload; a result for a record canceled since is
    /// dropped.
    pub fn resolve(&mut self, result: Result<Table, RemoteError>)
        requires
            registry_wf(old(self)@),
        ensures
            registry_wf(final(self)@),
            final(self)@ == resolve_spec(old(self)@, result_view(result)),
    {
        let id = match self.loading {
            None => {
                return;
            },
            Some(id) => id,
        };
        let ghost before = self@;
        let ghost res = result_view(result);
        self.loading = None;
        let n = self.records.len();
        let mut i: usize = 0;
        while i < n
            invariant
                n == self.records.len(),
                i <= n,
                before == old(self)@,
                before.loading == Some(id),
                res == result_view(result),
                registry_wf(before),
                self@ == (RegistryModel { loading: None, ..before }),
                forall|j: int|
                    0 <= j < i ==> !((#[trigger] before.records[j]).id == id && before.records[j].state
                        == LoadState::Loading),
            decreases n - i,
        {
            if self.records[i].id == id && self.records[i].state == LoadState::Loading {
                match result {
                    Ok(t) => {
                        self.records[i].state = LoadState::Loaded;
                        self.records[i].payload = Some(t);
                    },
                    Err(_) => {
                        self.records[i].state = LoadState::Failed;
                        self.records[i].payload = None;
                    },
                }
                proof {
                    assert forall|j: int| 0 <= j < n && j != i implies (#[trigger] before.records[j]).id != id by {
                        if j < i {
                            assert(before.records[j].id < before.records[i as int].id);
                        } else {
                            assert(before.records[i as int].id < before.records[j].id);
                        }
                    }
                    assert(self@.records =~= before.records.map_values(
                        |r: RecordModel| resolve_record(r, id, res),
                    ));
                }
                return;
            }
            i = i + 1;
        }
        proof {
            assert(self@.records =~= before.records.map_values(|r: RecordModel| resolve_record(r, id, res)));
        }
    }

    /// Removes every `Canceled` record, keeping the order of the others.
    pub fn purge(&mut self)
        requires
            registry_wf(old(self)@),
        ensures
            registry_wf(final(self)@),
            final(self)@ == purge_spec(old(self)@),
    {
        let ghost before = self@;
        let mut rest: Vec<DatasetRecord> = Vec::new();
        std::mem::swap(&mut self.records, &mut rest);
        let ghost all = rest@.map_values(|r: DatasetRecord| record_view(r));
        let ghost n = rest@.len();
        proof {
            assert(all == before.records);
            assert(self@.records =~= purge_seq(all.subrange(0, 0)));
        }
        while rest.len() > 0
            invariant
                all == before.records,
                n == all.len(),
                rest@.len() <= n,
                rest@.map_values(|r: DatasetRecord| record_view(r)) == all.subrange(n - rest@.len(), n as int),
                self@.records == purge_seq(all.subrange(0, n - rest@.len())),
                self@.next_id == before.next_id,
                self@.loading == before.loading,
            decreases rest.len(),
        {
            let ghost k = n - rest@.len();
            let ghost rest_before = rest@;
            let rec = rest.remove(0);
            proof {
                let f = |r: DatasetRecord| record_view(r);
                assert(rest_before.map_values(f)[0] == all.subrange(k, n as int)[0]);
                assert(record_view(rec) == all[k]);
                assert(rest@ =~= rest_before.subrange(1, rest_before.len() as int));
                assert(rest@.map_values(f) =~= rest_before.map_values(f).subrange(
                    1,
                    rest_before.len() as int,
                ));
                assert(all.subrange(0, k + 1).drop_last() =~= all.subrange(0, k));
                assert(rest@.map_values(|r: DatasetRecord| record_view(r)) =~= all.subrange(
                    n - rest@.len(),
                    n as int,
                ));
            }
            if rec.state != LoadState::Canceled {
                let ghost prev = self@.records;
                self.records.push(rec);
                proof {
                    assert(self@.records =~= prev.push(all[k]));
                }
            }
        }
        proof {
            assert(all.subrange(0, n as int) =~= all);
            lemma_purge_seq_keeps(before.records);
        }
    }
}

/// Purging keeps exactly the records that are not `Canceled`, in order.
pub proof fn lemma_purge_seq_keeps(recs: Seq<RecordModel>)
    ensures
        forall|k: int| 0 <= k < purge_seq(recs).len() ==> recs.contains(#[trigger] purge_seq(recs)[k]),
        forall|k: int|
            0 <= k < purge_seq(recs).len() ==> (#[trigger] purge_seq(recs)[k]).state != LoadState::Canceled,
        ids_increasing(recs) ==> ids_increasing(purge_seq(recs)),
        purge_seq(recs).len() <= recs.len(),
        forall|k: int|
            0 <= k < recs.len() && (#[trigger] recs[k]).state != LoadState::Canceled ==> purge_seq(
                recs,
            ).contains(recs[k]),
    decreases recs.len(),
{
    if recs.len() > 0 {
        let d = recs.drop_last();
        lemma_purge_seq_keeps(d);
        let p = purge_seq(d);
        assert forall|k: int|
            0 <= k < recs.len() && (#[trigger] recs[k]).state != LoadState::Canceled implies purge_seq(
                recs,
            ).contains(recs[k]) by {
            if k < recs.len() - 1 {
                assert(d[k] == recs[k]);
                assert(p.contains(d[k]));
                let w = choose|w: int| 0 <= w < p.len() && p[w] == d[k];
                assert(purge_seq(recs)[w] == p[w]);
            } else {
                assert(purge_seq(recs)[p.len() as int] == recs[k]);
            }
        }
        assert forall|k: int| 0 <= k < p.len() implies recs.contains(#[trigger] p[k]) by {
            assert(d.contains(p[k]));
            let w = choose|w: int| 0 <= w < d.len() && d[w] == p[k];
            assert(recs[w] == p[k]);
        }
        if recs.last().state != LoadState::Canceled {
            let q = p.push(recs.last());
            assert forall|k: int| 0 <= k < q.len() implies recs.contains(#[trigger] q[k]) by {
                if k < p.len() {
                    assert(q[k] == p[k]);
                } else {
                    assert(q[k] == recs[recs.len() - 1]);
                }
            }
            if ids_increasing(recs) {
                assert forall|i: int, j: int| 0 <= i < j < q.len() implies (#[trigger] q[i]).id < (
                #[trigger] q[j]).id by {
                    if j == q.len() - 1 {
                        assert(d.contains(p[i]));
                        let w = choose|w: int| 0 <= w < d.len() && d[w] == p[i];
                        assert(recs[w] == p[i]);
                    } else {
                        assert(q[i] == p[i] && q[j] == p[j]);
                    }
                }
            }
        }
    }
}

impl DatasetRegistry {
    /// The state of the record `id`, if the registry holds it.
    pub fn dataset_state(&self, id: u64) -> (r: Option<LoadState>)
        requires
            registry_wf(self@),
        ensures
            r matches Some(s) ==> exists|i: int|
                0 <= i < self@.records.len() && (#[trigger] self@.records[i]).id == id
                    && self@.records[i].state == s,
            r is None ==> forall|i: int| 0 <= i < self@.records.len() ==> (#[trigger] self@.records[i]).id != id,
    {
        let n = self.records.len();
        let mut i: usize = 0;
        while i < n
            invariant
                n == self.records.len(),
                i <= n,
                forall|j: int| 0 <= j < i ==> (#[trigger] self@.records[j]).id != id,
            decreases n - i,
        {
            if self.records[i].id == id {
                proof {
                    assert(self@.records[i as int].id == id);
                }
                return Some(self.records[i].state);
            }
            i = i + 1;
        }
        None
    }

    /// The table of the record `id`, once it has loaded.
    pub fn dataset_payload(&self, id: u64) -> (r: Option<&Table>)
        requires
            registry_wf(self@),
        ensures
            r matches Some(t) ==> exists|i: int|
                0 <= i < self@.records.len() && (#[trigger] self@.records[i]).id == id
                    && self@.records[i].state == LoadState::Loaded && self@.records[i].payload
                    == Some(t@),
            r is None ==> forall|i: int|
                0 <= i < self@.records.len() && (#[trigger] self@.records[i]).id == id
                    ==> self@.records[i].payload is None,
    {
        let n = self.records.len();
        let mut i: usize = 0;
        while i < n
            invariant
                n == self.records.len(),
                i <= n,
                registry_wf(self@),
                forall|j: int| 0 <= j < i ==> (#[trigger] self@.records[j]).id != id,
            decreases n - i,
        {
            if self.records[i].id == id {
                proof {
                    assert(self@.records.len() == n);
                    assert(self@.records[i as int].id == id);
                    assert(self@.records[i as int] == record_view(self.records@[i as int]));
                    assert forall|j: int| 0 <= j < n && (#[trigger] self@.records[j]).id == id implies j == i by {
                        let recs = self@.records;
                        assert(ids_increasing(recs));
                        if j > i {
                            assert(recs[i as int].id < recs[j].id);
                        }
                    }
                }
                return match &self.records[i].payload {
                    Some(t) => {
                        proof {
                            assert(self@.records[i as int].payload == Some(t@));
                        }
                        Some(t)
                    },
                    None => None,
                };
            }
            i = i + 1;
        }
        None
    }

    /// The number of records held.
    pub fn len(&self) -> (r: usize)
        ensures
            r == self@.records.len(),
    {
        self.records.len()
    }

    /// The identifier of the record that owns the load slot, if any.
    pub fn loading(&self) -> (r: Option<u64>)
        ensures
            r == self@.loading,
    {
        self.loading
    }
}

/// What the user decided in the load-options window of a picked file.
#[derive(Clone, Copy, Debug, PartialEq, Eq, Structural)]
pub enum ModalWindowAction {
    /// The window is still open.
    Nothing,
    /// Show a preview; the record stays unconfirmed.
    Preview,
    /// Load with the chosen options.
    Load,
    /// Drop the file.
    Cancel,
}

/// What a finished dataset transfer brought: the payload's chunks, or the
/// failure of the transfer.
pub type ChunkResult = Result<Vec<Vec<u8>>, RemoteError>;

/// The table a finished transfer stands for, or why it stands for none. A
/// payload too large to hold in memory counts as undecodable.
pub open spec fn payload_spec(r: Result<Seq<Seq<u8>>, RemoteError>) -> Result<ColumnsView, RemoteError> {
    match r {
        Err(e) => Err(e),
        Ok(cs) => if flatten(cs).len() > usize::MAX {
            Err(RemoteError::Decode)
        } else {
            decode_table_spec(flatten(cs))
        },
    }
}

/// The outcome of a pass's poll of the load slot, as the registry sees it.
pub open spec fn outcome_view(o: Option<ChunkResult>) -> Option<Result<ColumnsView, RemoteError>> {
    match o {
        None => None,
        Some(Ok(cs)) => Some(payload_spec(Ok(chunks_view(cs@)))),
        Some(Err(e)) => Some(Err(e)),
    }
}

impl DatasetRegistry {
    /// The descriptor of the record at position `i`, to hand to the remote
    /// load once [`DatasetRegistry::start_next`] has picked it.
    pub fn descriptor_at(&self, i: usize) -> (r: &LoadDescriptor)
        requires
            i < self@.records.len(),
        ensures
            *r == self@.records[i as int].descriptor,
    {
        &self.records[i].descriptor
    }

    /// Reassembles and decodes a finished transfer. Failed transfers and
    /// undecodable payloads give an error, never a partial table.
    pub fn decode_payload(result: ChunkResult) -> (r: Result<Table, RemoteError>)
        ensures
            result_view(r) == payload_spec(
                match result {
                    Ok(cs) => Ok(chunks_view(cs@)),
                    Err(e) => Err(e),
                },
            ),
    {
        match result {
            Err(e) => Err(e),
            Ok(chunks) => match concat_chunks(&chunks) {
                Some(b) => {
                    let blen = b.len();
                    assert(flatten(chunks_view(chunks@)).len() == blen);
                    let r = decode_table(b.as_slice());
                    assert(r is Ok ==> decode_table_spec(b@) is Ok && result_view(r) == decode_table_spec(b@));
                    assert(r is Err ==> decode_table_spec(b@) is Err && result_view(r) == decode_table_spec(b@));
                    r
                },
                None => Err(RemoteError::Decode),
            },
        }
    }

    /// The second half of a pass, once the load slot has been polled:
    /// `outcome` is `None` while the load is in flight or none runs, and the
    /// transfer's result once it has finished. A finished load settles its
    /// record (unless it was canceled since) and frees the slot; then
    /// canceled records are removed.
    pub fn finish_pass(&mut self, outcome: Option<ChunkResult>)
        requires
            registry_wf(old(self)@),
        ensures
            registry_wf(final(self)@),
            final(self)@ == finish_spec(old(self)@, outcome_view(outcome)),
    {
        match outcome {
            Some(result) => {
                let t = DatasetRegistry::decode_payload(result);
                self.resolve(t);
            },
            None => {},
        }
        self.purge();
    }

    /// Applies the user's decision on record `id`: loading confirms it,
    /// canceling cancels it, anything else leaves the registry as it is.
    pub fn apply_modal_action(&mut self, id: u64, action: ModalWindowAction) -> (r: bool)
        requires
            registry_wf(old(self)@),
        ensures
            registry_wf(final(self)@),
            action == ModalWindowAction::Load ==> final(self)@ == confirm_spec(old(self)@, id),
            action == ModalWindowAction::Cancel ==> final(self)@ == cancel_spec(old(self)@, id),
            action == ModalWindowAction::Nothing || action == ModalWindowAction::Preview ==> !r
                && final(self)@ == old(self)@,
    {
        match action {
            ModalWindowAction::Load => self.confirm(id),
            ModalWindowAction::Cancel => self.cancel(id),
            _ => false,
        }
    }
}

/// One operation on the registry, as a caller sees it.
pub enum RegistryOp {
    Enqueue(LoadDescriptor, bool),
    Confirm(u64),
    Cancel(u64),
    /// A pass of the registry with what the poll of its slot found.
    Tick(Option<Result<ColumnsView, RemoteError>>),
}

pub open spec fn step_spec(m: RegistryModel, op: RegistryOp) -> RegistryModel {
    match op {
        RegistryOp::Enqueue(d, c) => if m.next_id < u64::MAX {
            enqueue_spec(m, d, c)
        } else {
            m
        },
        RegistryOp::Confirm(id) => confirm_spec(m, id),
        RegistryOp::Cancel(id) => cancel_spec(m, id),
        RegistryOp::Tick(o) => tick_spec(m, o),
    }
}

/// The registry after a sequence of operations.
pub open spec fn run_ops(m: RegistryModel, ops: Seq<RegistryOp>) -> RegistryModel
    decreases ops.len(),
{
    if ops.len() == 0 {
        m
    } else {
        step_spec(run_ops(m, ops.drop_last()), ops.last())
    }
}

/// The registry after a sequence of passes.
pub open spec fn run_ticks(m: RegistryModel, outs: Seq<Option<Result<ColumnsView, RemoteError>>>) -> RegistryModel
    decreases outs.len(),
{
    if outs.len() == 0 {
        m
    } else {
        tick_spec(run_ticks(m, outs.drop_last()), outs.last())
    }
}

/// A `Queued` record below position `k0` or at it leads to the first one.
pub proof fn lemma_first_queued_exists(recs: Seq<RecordModel>, k0: int)
    requires
        0 <= k0 < recs.len(),
        recs[k0].state == LoadState::Queued,
    ensures
        exists|k: int| is_first_queued(recs, k),
    decreases k0,
{
    if exists|j: int| 0 <= j < k0 && (#[trigger] recs[j]).state == LoadState::Queued {
        let j = choose|j: int| 0 <= j < k0 && (#[trigger] recs[j]).state == LoadState::Queued;
        lemma_first_queued_exists(recs, j);
    } else {
        assert(is_first_queued(recs, k0));
    }
}

/// The invariant implies that at most one record is `Loading`.
pub proof fn lemma_wf_single_loading(m: RegistryModel)
    requires
        registry_wf(m),
    ensures
        single_loading(m),
{
    assert forall|i: int, j: int|
        0 <= i < m.records.len() && 0 <= j < m.records.len() && (#[trigger] m.records[i]).state
            == LoadState::Loading && (#[trigger] m.records[j]).state == LoadState::Loading implies i == j by {
        if i < j {
            assert(m.records[i].id < m.records[j].id);
        } else if j < i {
            assert(m.records[j].id < m.records[i].id);
        }
    }
}

pub proof fn lemma_start_wf(m: RegistryModel)
    requires
        registry_wf(m),
    ensures
        registry_wf(start_spec(m)),
{
    if m.loading is None && has_queued(m.records) {
        let k0 = choose|k: int| 0 <= k < m.records.len() && (#[trigger] m.records[k]).state == LoadState::Queued;
        lemma_first_queued_exists(m.records, k0);
        let k = choose|k: int| is_first_queued(m.records, k);
        let s = start_spec(m);
        assert forall|j: int| 0 <= j < m.records.len() implies (#[trigger] m.records[j]).state
            != LoadState::Loading by {
            if m.records[j].state == LoadState::Loading {
                assert(m.loading == Some(m.records[j].id));
            }
        }
        assert forall|j: int| 0 <= j < s.records.len() && (#[trigger] s.records[j]).state == LoadState::Loading implies s.loading == Some(s.records[j].id) by {
            if j != k {
                assert(s.records[j] == m.records[j]);
            }
        }
    }
}

pub proof fn lemma_resolve_wf(m: RegistryModel, res: Result<ColumnsView, RemoteError>)
    requires
        registry_wf(m),
    ensures
        registry_wf(resolve_spec(m, res)),
{
    if let Some(id) = m.loading {
        let s = resolve_spec(m, res);
        assert forall|j: int| 0 <= j < s.records.len() implies (#[trigger] s.records[j]).state
            != LoadState::Loading by {
            if m.records[j].state == LoadState::Loading {
                assert(m.loading == Some(m.records[j].id));
            }
        }
    }
}

pub proof fn lemma_purge_wf(m: RegistryModel)
    requires
        registry_wf(m),
    ensures
        registry_wf(purge_spec(m)),
{
    lemma_purge_seq_keeps(m.records);
    let p = purge_seq(m.records);
    assert forall|k: int| 0 <= k < p.len() implies (#[trigger] p[k]).id < m.next_id && (p[k].state
        == LoadState::Loading ==> m.loading == Some(p[k].id)) && (p[k].payload is Some <==> p[k].state
        == LoadState::Loaded) by {
        assert(m.records.contains(p[k]));
        let w = choose|w: int| 0 <= w < m.records.len() && m.records[w] == p[k];
        assert(m.records[w] == p[k]);
    }
}

/// A pass keeps the registry's invariant.
pub proof fn lemma_tick_wf(m: RegistryModel, o: Option<Result<ColumnsView, RemoteError>>)
    requires
        registry_wf(m),
    ensures
        registry_wf(tick_spec(m, o)),
{
    lemma_start_wf(m);
    let a = start_spec(m);
    match o {
        None => lemma_purge_wf(a),
        Some(r) => {
            lemma_resolve_wf(a, r);
            lemma_purge_wf(resolve_spec(a, r));
        },
    }
}

pub proof fn lemma_step_wf(m: RegistryModel, op: RegistryOp)
    requires
        registry_wf(m),
    ensures
        registry_wf(step_spec(m, op)),
{
    match op {
        RegistryOp::Tick(o) => lemma_tick_wf(m, o),
        RegistryOp::Enqueue(d, c) => {
            if m.next_id < u64::MAX {
                let s = enqueue_spec(m, d, c);
                assert forall|i: int| 0 <= i < s.records.len() implies (#[trigger] s.records[i]).id
                    < s.next_id by {
                    if i < m.records.len() {
                        assert(s.records[i] == m.records[i]);
                    }
                }
            }
        },
        _ => {},
    }
}

/// Whatever operations callers perform and whatever their loads return,
/// the registry never holds two records in `Loading`.
pub proof fn lemma_single_loading_always(m: RegistryModel, ops: Seq<RegistryOp>)
    requires
        registry_wf(m),
    ensures
        registry_wf(run_ops(m, ops)),
        single_loading(run_ops(m, ops)),
    decreases ops.len(),
{
    if ops.len() > 0 {
        lemma_single_loading_always(m, ops.drop_last());
        lemma_step_wf(run_ops(m, ops.drop_last()), ops.last());
    }
    lemma_wf_single_loading(run_ops(m, ops));
}

/// Purging a sequence with no `Canceled` record changes nothing.
pub proof fn lemma_purge_seq_clean(recs: Seq<RecordModel>)
    requires
        forall|k: int| 0 <= k < recs.len() ==> (#[trigger] recs[k]).state != LoadState::Canceled,
    ensures
        purge_seq(recs) == recs,
    decreases recs.len(),
{
    if recs.len() > 0 {
        lemma_purge_seq_clean(recs.drop_last());
        assert(recs.drop_last().push(recs.last()) =~= recs);
    }
}

/// A pass that finds its load still in flight is idempotent: a second such
/// pass changes nothing.
pub proof fn lemma_pending_tick_idempotent(m: RegistryModel)
    requires
        registry_wf(m),
    ensures
        tick_spec(tick_spec(m, None), None) == tick_spec(m, None),
{
    let a = start_spec(m);
    let t = tick_spec(m, None);
    lemma_start_wf(m);
    lemma_purge_seq_keeps(a.records);
    if a.loading is None {
        // Nothing was queued, so nothing is queued after purging either.
        assert(!has_queued(m.records));
        assert(a == m);
        if has_queued(t.records) {
            let k = choose|k: int| 0 <= k < t.records.len() && (#[trigger] t.records[k]).state
                == LoadState::Queued;
            assert(a.records.contains(t.records[k]));
        }
    }
    assert(start_spec(t) == t);
    lemma_purge_seq_clean(t.records);
}

/// `n` polls that found the load still in flight.
pub open spec fn pending_polls(n: nat) -> Seq<Option<Result<ColumnsView, RemoteError>>> {
    Seq::new(n, |i: int| None::<Result<ColumnsView, RemoteError>>)
}

/// Polling a load that has not resolved any number of times leaves the
/// registry as the first such poll left it.
pub proof fn lemma_pending_ticks_idempotent(m: RegistryModel, n: nat)
    requires
        registry_wf(m),
        n >= 1,
    ensures
        run_ticks(m, pending_polls(n)) == tick_spec(m, None),
    decreases n,
{
    let outs = pending_polls(n);
    assert(outs.last() is None);
    if n == 1 {
        assert(outs.drop_last() =~= Seq::<Option<Result<ColumnsView, RemoteError>>>::empty());
        assert(run_ticks(m, outs.drop_last()) == m);
    } else {
        assert(outs.drop_last() =~= pending_polls((n - 1) as nat));
        lemma_pending_ticks_idempotent(m, (n - 1) as nat);
        lemma_pending_tick_idempotent(m);
    }
    assert(run_ticks(m, outs) == tick_spec(run_ticks(m, outs.drop_last()), outs.last()));
}

/// No record carries the identifier `id`.
pub open spec fn absent(m: RegistryModel, id: u64) -> bool {
    forall|i: int| 0 <= i < m.records.len() ==> (#[trigger] m.records[i]).id != id
}

/// Every record with identifier `id` is `Canceled`.
pub open spec fn only_canceled(m: RegistryModel, id: u64) -> bool {
    forall|i: int| 0 <= i < m.records.len() && (#[trigger] m.records[i]).id == id ==> m.records[i].state
        == LoadState::Canceled
}

pub proof fn lemma_tick_keeps_absent(m: RegistryModel, o: Option<Result<ColumnsView, RemoteError>>, id: u64)
    requires
        absent(m, id) || only_canceled(m, id),
    ensures
        absent(tick_spec(m, o), id),
{
    let a = start_spec(m);
    if m.loading is None && has_queued(m.records) {
        let k0 = choose|k: int| 0 <= k < m.records.len() && (#[trigger] m.records[k]).state == LoadState::Queued;
        lemma_first_queued_exists(m.records, k0);
        let k = choose|k: int| is_first_queued(m.records, k);
        assert(m.records[k].id != id);
        assert forall|i: int| 0 <= i < a.records.len() && (#[trigger] a.records[i]).id == id implies a.records[i].state == LoadState::Canceled by {
            if i != k {
                assert(a.records[i] == m.records[i]);
            }
        }
    }
    let r = match o {
        None => a,
        Some(res) => resolve_spec(a, res),
    };
    assert forall|i: int| 0 <= i < r.records.len() && (#[trigger] r.records[i]).id == id implies r.records[i].state == LoadState::Canceled by {
        assert(r.records[i].id == a.records[i].id);
    }
    lemma_purge_seq_keeps(r.records);
    let p = purge_seq(r.records);
    assert forall|i: int| 0 <= i < p.len() implies (#[trigger] p[i]).id != id by {
        assert(r.records.contains(p[i]));
    }
}

/// Canceling a `Loading` record removes it on the next pass, and no later
/// pass, whatever result its load brings, makes a record of it again, let
/// alone a `Loaded` one.
pub proof fn lemma_cancel_loading_drops_result(
    m: RegistryModel,
    i: int,
    outs: Seq<Option<Result<ColumnsView, RemoteError>>>,
)
    requires
        registry_wf(m),
        0 <= i < m.records.len(),
        m.records[i].state == LoadState::Loading,
        outs.len() >= 1,
    ensures
        absent(run_ticks(cancel_spec(m, m.records[i].id), outs), m.records[i].id),
    decreases outs.len(),
{
    let id = m.records[i].id;
    let c = cancel_spec(m, id);
    if outs.len() == 1 {
        assert(outs.drop_last() =~= Seq::<Option<Result<ColumnsView, RemoteError>>>::empty());
        assert(only_canceled(c, id));
        lemma_tick_keeps_absent(c, outs.last(), id);
    } else {
        lemma_cancel_loading_drops_result(m, i, outs.drop_last());
        lemma_tick_keeps_absent(run_ticks(c, outs.drop_last()), outs.last(), id);
    }
}

/// A payload that does not decode leaves the record whose load it was in
/// `Failed`, with no payload at all.
pub proof fn lemma_corrupt_payload_fails(m: RegistryModel, i: int, b: Seq<u8>)
    requires
        registry_wf(m),
        0 <= i < m.records.len(),
        m.records[i].state == LoadState::Loading,
        !(decode_table_spec(b) is Ok),
    ensures
        tick_spec(m, Some(decode_table_spec(b))).records.contains(
            settle(m.records[i], Err(RemoteError::Decode)),
        ),
{
    let r = resolve_spec(m, decode_table_spec(b));
    assert(start_spec(m) == m);
    assert(r.records[i] == settle(m.records[i], Err(RemoteError::Decode)));
    lemma_purge_seq_keeps(r.records);
    assert(purge_seq(r.records).contains(r.records[i]));
}

/// Loads start in the order their records were queued: while an earlier
/// record waits in `Queued`, a later one is not started.
pub proof fn lemma_fifo_start(m: RegistryModel, i: int, j: int)
    requires
        registry_wf(m),
        0 <= i < j < m.records.len(),
        m.records[i].state == LoadState::Queued,
        m.records[j].state == LoadState::Queued,
    ensures
        start_spec(m).records[j].state == LoadState::Queued,
        m.records[i].id < m.records[j].id,
{
    if m.loading is None && has_queued(m.records) {
        let k = choose|k: int| is_first_queued(m.records, k);
        lemma_first_queued_exists(m.records, i);
        assert(k <= i);
    }
}

} // verus!
