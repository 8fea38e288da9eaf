use vstd::prelude::*;

use crate::error::RemoteError;

verus! {

/// The element type a series carries, fixed when the series is discovered.
#[derive(Clone, Copy, Debug, PartialEq, Eq, Structural)]
pub enum ElementKind {
    Point,
    Pose,
}

/// A series as the list endpoint announces it.
#[derive(Clone, Debug)]
pub struct SeriesMeta {
    pub id: String,
    pub kind: ElementKind,
}

/// One row of a series. Coordinates are carried as IEEE-754 bit patterns.
#[derive(Clone, Copy, Debug, PartialEq, Eq, Structural)]
pub enum Sample {
    Point { x: u64, y: u64 },
    Pose { x: u64, y: u64, theta: u64 },
}

/// What one poll of a series brings.
#[derive(Clone, Debug)]
pub enum SeriesDelta {
    /// The producer restarted: drop every row.
    Reset,
    /// New rows, oldest first.
    Append(Vec<Sample>),
}

pub open spec fn sample_kind(s: Sample) -> ElementKind {
    match s {
        Sample::Point { .. } => ElementKind::Point,
        Sample::Pose { .. } => ElementKind::Pose,
    }
}

/// Every row has the buffer's element kind.
pub open spec fn rows_match(rows: Seq<Sample>, kind: ElementKind) -> bool {
    forall|i: int| 0 <= i < rows.len() ==> sample_kind(#[trigger] rows[i]) == kind
}

pub open spec fn delta_view(d: SeriesDelta) -> Option<Seq<Sample>> {
    match d {
        SeriesDelta::Reset => None,
        SeriesDelta::Append(rows) => Some(rows@),
    }
}

/// The merge policy: a reset clears the buffer; rows of the buffer's kind
/// are appended; a batch holding a row of another kind is refused whole.
pub open spec fn merge_spec(rows: Seq<Sample>, kind: ElementKind, d: Option<Seq<Sample>>) -> Seq<Sample> {
    match d {
        None => Seq::empty(),
        Some(new_rows) => if rows_match(new_rows, kind) {
            rows + new_rows
        } else {
            rows
        },
    }
}

/// The accumulated rows of one series.
#[derive(Debug)]
pub struct SeriesBuffer {
    pub id: String,
    pub kind: ElementKind,
    pub rows: Vec<Sample>,
}

/// The mathematical view of a series buffer.
pub struct BufferModel {
    pub id: Seq<char>,
    pub kind: ElementKind,
    pub rows: Seq<Sample>,
}

pub open spec fn buffer_view(b: SeriesBuffer) -> BufferModel {
    BufferModel { id: b.id@, kind: b.kind, rows: b.rows@ }
}

/// No two buffers share an identifier.
pub open spec fn ids_unique(bufs: Seq<BufferModel>) -> bool {
    forall|i: int, j: int| 0 <= i < j < bufs.len() ==> (#[trigger] bufs[i]).id != (#[trigger] bufs[j]).id
}

pub open spec fn known(bufs: Seq<BufferModel>, id: Seq<char>) -> bool {
    exists|i: int| 0 <= i < bufs.len() && (#[trigger] bufs[i]).id == id
}

/// The buffers after one announced series: a new identifier gets an empty
/// buffer of its kind; a known one changes nothing.
pub open spec fn register_one(bufs: Seq<BufferModel>, m: SeriesMeta) -> Seq<BufferModel> {
    if known(bufs, m.id@) {
        bufs
    } else {
        bufs.push(BufferModel { id: m.id@, kind: m.kind, rows: Seq::empty() })
    }
}

/// The buffers after an announced list, taken in order.
pub open spec fn register_spec(bufs: Seq<BufferModel>, metas: Seq<SeriesMeta>) -> Seq<BufferModel>
    decreases metas.len(),
{
    if metas.len() == 0 {
        bufs
    } else {
        register_one(register_spec(bufs, metas.drop_last()), metas.last())
    }
}

fn same_text(a: &String, b: &String) -> (r: bool)
    ensures
        r == (a@ == b@),
{
    *a == *b
}

/// Owns one buffer per discovered series; buffers are never removed.
#[derive(Debug)]
pub struct SeriesRegistry {
    buffers: Vec<SeriesBuffer>,
}

impl View for SeriesRegistry {
    type V = Seq<BufferModel>;

    closed spec fn view(&self) -> Seq<BufferModel> {
        self.buffers@.map_values(|b: SeriesBuffer| buffer_view(b))
    }
}

impl SeriesRegistry {
    /// A registry with no series.
    pub fn new() -> (r: SeriesRegistry)
        ensures
            r@.len() == 0,
    {
        let r = SeriesRegistry { buffers: Vec::new() };
        proof {
            assert(r@ =~= Seq::<BufferModel>::empty());
        }
        r
    }

    /// The position of the buffer of `id`, if the series is known.
    pub fn find(&self, id: &String) -> (r: Option<usize>)
        ensures
            r matches Some(i) ==> i < self@.len() && self@[i as int].id == id@,
            r is None ==> !known(self@, id@),
    {
        let n = self.buffers.len();
        let mut i: usize = 0;
        while i < n
            invariant
                n == self@.len(),
                i <= n,
                forall|j: int| 0 <= j < i ==> (#[trigger] self@[j]).id != id@,
            decreases n - i,
        {
            if same_text(&self.buffers[i].id, id) {
                return Some(i);
            }
            i = i + 1;
        }
        None
    }

    /// Creates an empty buffer for each announced series not yet known.
    /// Returns how many buffers were created.
    pub fn register(&mut self, metas: &Vec<SeriesMeta>) -> (r: usize)
        requires
            ids_unique(old(self)@),
        ensures
            ids_unique(final(self)@),
            final(self)@ == register_spec(old(self)@, metas@),
            final(self)@.len() == old(self)@.len() + r,
    {
        let n = metas.len();
        let mut i: usize = 0;
        let mut added: usize = 0;
        while i < n
            invariant
                n == metas@.len(),
                i <= n,
                ids_unique(self@),
                self@ == register_spec(old(self)@, metas@.subrange(0, i as int)),
                self@.len() == old(self)@.len() + added,
                added <= i,
            decreases n - i,
        {
            proof {
                assert(metas@.subrange(0, i + 1).drop_last() =~= metas@.subrange(0, i as int));
            }
            let ghost before = self@;
            let m = &metas[i];
            if self.find(&m.id).is_none() {
                self.buffers.push(SeriesBuffer { id: m.id.clone(), kind: m.kind, rows: Vec::new() });
                added = added + 1;
                proof {
                    assert(self@ =~= before.push(BufferModel { id: m.id@, kind: m.kind, rows: Seq::empty() }));
                }
            }
            i = i + 1;
        }
        proof {
            assert(metas@.subrange(0, n as int) =~= metas@);
        }
        added
    }

    /// Merges one poll's delta into buffer `i`.
    pub fn apply(&mut self, i: usize, delta: SeriesDelta)
        requires
            i < old(self)@.len(),
            ids_unique(old(self)@),
        ensures
            ids_unique(final(self)@),
            final(self)@ == old(self)@.update(
                i as int,
                BufferModel {
                    rows: merge_spec(old(self)@[i as int].rows, old(self)@[i as int].kind, delta_view(delta)),
                    ..old(self)@[i as int]
                },
            ),
    {
        let ghost before = self@;
        let kind = self.buffers[i].kind;
        match delta {
            SeriesDelta::Reset => {
                self.buffers[i].rows.clear();
            },
            SeriesDelta::Append(new_rows) => {
                let n = new_rows.len();
                let mut ok = true;
                let mut k: usize = 0;
                while k < n
                    invariant
                        n == new_rows@.len(),
                        k <= n,
                        ok == rows_match(new_rows@.subrange(0, k as int), kind),
                    decreases n - k,
                {
                    let sk = match new_rows[k] {
                        Sample::Point { .. } => ElementKind::Point,
                        Sample::Pose { .. } => ElementKind::Pose,
                    };
                    ok = ok && sk == kind;
                    k = k + 1;
                    proof {
                        let s = new_rows@.subrange(0, k as int);
                        if ok {
                            assert forall|j: int| 0 <= j < s.len() implies sample_kind(#[trigger] s[j]) == kind by {
                                if j < k - 1 {
                                    assert(s[j] == new_rows@.subrange(0, k - 1)[j]);
                                }
                            }
                        } else {
                            if sk != kind {
                                assert(sample_kind(s[k - 1]) != kind);
                            } else {
                                let t = new_rows@.subrange(0, k - 1);
                                let j = choose|j: int| 0 <= j < t.len() && sample_kind(#[trigger] t[j]) != kind;
                                assert(s[j] == t[j]);
                            }
                        }
                    }
                }
                proof {
                    assert(new_rows@.subrange(0, n as int) =~= new_rows@);
                }
                if ok {
                    let mut j: usize = 0;
                    let ghost start = self.buffers@[i as int].rows@;
                    while j < n
                        invariant
                            n == new_rows@.len(),
                            j <= n,
                            i < self.buffers@.len(),
                            self.buffers@.len() == before.len(),
                            self.buffers@[i as int].rows@ == start + new_rows@.subrange(0, j as int),
                            self.buffers@[i as int].id@ == before[i as int].id,
                            self.buffers@[i as int].kind == before[i as int].kind,
                            forall|l: int| 0 <= l < before.len() && l != i ==> buffer_view(#[trigger] self.buffers@[l]) == before[l],
                        decreases n - j,
                    {
                        self.buffers[i].rows.push(new_rows[j]);
                        j = j + 1;
                        proof {
                            assert(self.buffers@[i as int].rows@ =~= start + new_rows@.subrange(0, j as int));
                        }
                    }
                    proof {
                        assert(new_rows@.subrange(0, n as int) =~= new_rows@);
                    }
                }
            },
        }
        proof {
            assert(self@ =~= before.update(
                i as int,
                BufferModel {
                    rows: merge_spec(before[i as int].rows, before[i as int].kind, delta_view(delta)),
                    ..before[i as int]
                },
            ));
        }
    }

    /// The buffer at position `i`.
    pub fn buffer_at(&self, i: usize) -> (r: &SeriesBuffer)
        requires
            i < self@.len(),
        ensures
            buffer_view(*r) == self@[i as int],
    {
        &self.buffers[i]
    }

    /// The buffer of series `id`, if the series is known.
    pub fn series_buffer(&self, id: &String) -> (r: Option<&SeriesBuffer>)
        ensures
            r matches Some(b) ==> b.id@ == id@ && exists|i: int| 0 <= i < self@.len() && self@[i] == buffer_view(*b),
            r is None ==> !known(self@, id@),
    {
        match self.find(id) {
            Some(i) => Some(&self.buffers[i]),
            None => None,
        }
    }

    /// The number of known series.
    pub fn len(&self) -> (r: usize)
        ensures
            r == self@.len(),
    {
        self.buffers.len()
    }
}

/// The result of a list request.
pub type MetaResult = Result<Vec<SeriesMeta>, RemoteError>;

/// The result of a poll request.
pub type DeltaResult = Result<SeriesDelta, RemoteError>;

/// The mathematical view of the feed: the buffers, whether the list
/// request is in flight, and for each buffer whether its poll is.
pub struct FeedModel {
    pub buffers: Seq<BufferModel>,
    pub listing: bool,
    pub polling: Seq<bool>,
}

/// The feed's invariant: identifiers are unique and each series has one
/// poll marker.
pub open spec fn feed_wf(m: FeedModel) -> bool {
    &&& ids_unique(m.buffers)
    &&& m.polling.len() == m.buffers.len()
}

/// The positions of the series with no poll outstanding, ascending.
pub open spec fn idle_positions(polling: Seq<bool>) -> Seq<usize>
    decreases polling.len(),
{
    if polling.len() == 0 {
        Seq::empty()
    } else {
        let rest = idle_positions(polling.drop_last());
        if polling.last() {
            rest
        } else {
            rest.push((polling.len() - 1) as usize)
        }
    }
}

/// Once every series has a poll outstanding, none is due: asking for the
/// due polls again, with nothing answered in between, issues nothing.
pub proof fn lemma_no_idle_when_all_polling(n: nat)
    ensures
        idle_positions(Seq::new(n, |i: int| true)) == Seq::<usize>::empty(),
    decreases n,
{
    if n > 0 {
        assert(Seq::new(n, |i: int| true).drop_last() =~= Seq::new((n - 1) as nat, |i: int| true));
        lemma_no_idle_when_all_polling((n - 1) as nat);
    }
}

/// The series registry with the markers of its outstanding requests: at
/// most one list request, and at most one poll per series.
pub struct SeriesFeed {
    registry: SeriesRegistry,
    listing: bool,
    polling: Vec<bool>,
}

impl View for SeriesFeed {
    type V = FeedModel;

    closed spec fn view(&self) -> FeedModel {
        FeedModel { buffers: self.registry@, listing: self.listing, polling: self.polling@ }
    }
}

impl SeriesFeed {
    /// A feed that knows no series and has no request in flight.
    pub fn new() -> (r: SeriesFeed)
        ensures
            feed_wf(r@),
            r@.buffers.len() == 0,
            !r@.listing,
    {
        let r = SeriesFeed { registry: SeriesRegistry::new(), listing: false, polling: Vec::new() };
        proof {
            assert(r@.polling =~= Seq::<bool>::empty());
        }
        r
    }

    /// Read access to the buffers.
    pub fn registry(&self) -> (r: &SeriesRegistry)
        ensures
            r@ == self@.buffers,
    {
        &self.registry
    }

    /// With no list request in flight, marks one as issued and returns
    /// `true`: the caller issues it. Otherwise returns `false`.
    pub fn list_due(&mut self) -> (r: bool)
        ensures
            r == !old(self)@.listing,
            final(self)@ == (FeedModel { listing: true, ..old(self)@ }),
    {
        let r = !self.listing;
        self.listing = true;
        r
    }

    /// Takes in the answer to the list request: each announced series not
    /// yet known gets an empty buffer of its kind and no poll. A failure is
    /// dropped; the next pass asks again.
    pub fn on_list(&mut self, result: MetaResult) -> (r: usize)
        requires
            feed_wf(old(self)@),
        ensures
            feed_wf(final(self)@),
            !final(self)@.listing,
            match result {
                Ok(metas) => final(self)@.buffers == register_spec(old(self)@.buffers, metas@)
                    && final(self)@.polling == old(self)@.polling + Seq::new(r as nat, |i: int| false),
                Err(_) => r == 0 && final(self)@.buffers == old(self)@.buffers && final(self)@.polling
                    == old(self)@.polling,
            },
    {
        self.listing = false;
        match result {
            Ok(metas) => {
                let ghost p0 = self.polling@;
                let added = self.registry.register(&metas);
                let ghost b1 = self.registry@;
                let mut k: usize = 0;
                while k < added
                    invariant
                        k <= added,
                        self.registry@ == b1,
                        !self.listing,
                        ids_unique(b1),
                        b1.len() == p0.len() + added,
                        self.polling@ == p0 + Seq::new(k as nat, |i: int| false),
                    decreases added - k,
                {
                    self.polling.push(false);
                    k = k + 1;
                    proof {
                        assert(self.polling@ =~= p0 + Seq::new(k as nat, |i: int| false));
                    }
                }
                added
            },
            Err(_) => 0,
        }
    }

    /// Marks a poll as issued for every series that has none outstanding and
    /// returns their positions, ascending: the caller polls those series.
    pub fn polls_due(&mut self) -> (r: Vec<usize>)
        requires
            feed_wf(old(self)@),
        ensures
            feed_wf(final(self)@),
            r@ == idle_positions(old(self)@.polling),
            final(self)@ == (FeedModel {
                polling: Seq::new(old(self)@.polling.len(), |i: int| true),
                ..old(self)@
            }),
    {
        let n = self.polling.len();
        let ghost p0 = self.polling@;
        let mut r: Vec<usize> = Vec::new();
        let mut i: usize = 0;
        while i < n
            invariant
                n == p0.len(),
                i <= n,
                self.polling@.len() == n,
                forall|j: int| 0 <= j < i ==> self.polling@[j],
                forall|j: int| i <= j < n ==> self.polling@[j] == p0[j],
                r@ == idle_positions(p0.subrange(0, i as int)),
                self.registry@ == old(self)@.buffers,
                self.listing == old(self)@.listing,
            decreases n - i,
        {
            proof {
                assert(p0.subrange(0, i + 1).drop_last() =~= p0.subrange(0, i as int));
            }
            if !self.polling[i] {
                r.push(i);
                self.polling.set(i, true);
            }
            i = i + 1;
        }
        proof {
            assert(p0.subrange(0, n as int) =~= p0);
            assert(self.polling@ =~= Seq::new(n as nat, |i: int| true));
        }
        r
    }

    /// Takes in the answer to the poll of series `i`: a delta is merged
    /// into its buffer, a failure dropped. Either way the series has no poll
    /// outstanding afterwards.
    pub fn on_delta(&mut self, i: usize, result: DeltaResult)
        requires
            feed_wf(old(self)@),
            i < old(self)@.buffers.len(),
        ensures
            feed_wf(final(self)@),
            final(self)@.listing == old(self)@.listing,
            final(self)@.polling == old(self)@.polling.update(i as int, false),
            match result {
                Ok(d) => final(self)@.buffers == old(self)@.buffers.update(
                    i as int,
                    BufferModel {
                        rows: merge_spec(old(self)@.buffers[i as int].rows, old(self)@.buffers[i as int].kind, delta_view(d)),
                        ..old(self)@.buffers[i as int]
                    },
                ),
                Err(_) => final(self)@.buffers == old(self)@.buffers,
            },
    {
        self.polling.set(i, false);
        if let Ok(d) = result {
            self.registry.apply(i, d);
        }
    }
}

/// Registration keeps every known buffer as it is and creates only empty
/// ones.
pub proof fn lemma_register_keeps(bufs: Seq<BufferModel>, metas: Seq<SeriesMeta>)
    ensures
        register_spec(bufs, metas).len() >= bufs.len(),
        forall|j: int| 0 <= j < bufs.len() ==> #[trigger] register_spec(bufs, metas)[j] == bufs[j],
        forall|j: int|
            bufs.len() <= j < register_spec(bufs, metas).len() ==> (#[trigger] register_spec(bufs, metas)[j]).rows
                == Seq::<Sample>::empty(),
    decreases metas.len(),
{
    if metas.len() > 0 {
        lemma_register_keeps(bufs, metas.drop_last());
    }
}

} // verus!
