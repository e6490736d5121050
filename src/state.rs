use vstd::prelude::*;

verus! {

/// The chain state against which deadlines are evaluated.
#[derive(Clone, Copy, Debug, PartialEq, Eq, Structural)]
pub struct BlockTime {
    pub height: u64,
    /// Block time in nanoseconds since the UNIX epoch.
    pub time_nanos: u64,
}

/// When a vote box closes: at a block height, or at a block time.
#[derive(Clone, Copy, Debug, PartialEq, Eq, Structural)]
pub enum Deadline {
    AtHeight(u64),
    /// Nanoseconds since the UNIX epoch.
    AtTime(u64),
}

impl Deadline {
    /// The deadline has been reached at `block`; once true it stays true
    /// for every later block.
    pub open spec fn triggered(self, block: BlockTime) -> bool {
        match self {
            Deadline::AtHeight(h) => block.height >= h,
            Deadline::AtTime(t) => block.time_nanos >= t,
        }
    }

    pub fn is_triggered(&self, block: &BlockTime) -> (r: bool)
        ensures
            r == self.triggered(*block),
    {
        match self {
            Deadline::AtHeight(h) => block.height >= *h,
            Deadline::AtTime(t) => block.time_nanos >= *t,
        }
    }
}

/// The four ballot categories.
#[derive(Clone, Copy, Debug, PartialEq, Eq, Structural)]
pub enum VoteKind {
    No,
    Abstain,
    Yes,
    NoWithVeto,
}

impl VoteKind {
    /// Wire codes: 0 = No, 1 = Abstain, 2 = Yes, 3 = NoWithVeto.
    pub open spec fn from_code_spec(code: i32) -> Option<VoteKind> {
        if code == 0 {
            Some(VoteKind::No)
        } else if code == 1 {
            Some(VoteKind::Abstain)
        } else if code == 2 {
            Some(VoteKind::Yes)
        } else if code == 3 {
            Some(VoteKind::NoWithVeto)
        } else {
            None
        }
    }

    pub fn from_code(code: i32) -> (r: Option<VoteKind>)
        ensures
            r == Self::from_code_spec(code),
    {
        match code {
            0 => Some(VoteKind::No),
            1 => Some(VoteKind::Abstain),
            2 => Some(VoteKind::Yes),
            3 => Some(VoteKind::NoWithVeto),
            _ => None,
        }
    }
}

/// One poll.
#[derive(Clone, Debug, PartialEq, Eq)]
pub struct Vote {
    pub id: u64,
    pub yes_count: u128,
    pub no_count: u128,
    pub abstain_count: u128,
    pub no_with_veto_count: u128,
    pub deadline: Deadline,
    pub owner: String,
    pub topic: String,
    pub description: String,
    pub create_date: String,
    pub total_amount: u128,
    /// `None` for a poll without escrow.
    pub native_denom: Option<String>,
    /// Addresses that cast a ballot and have not claimed yet.
    pub voters: Vec<String>,
    pub voter_count: u128,
}

/// The mathematical value of a [`Vote`]: strings become character sequences.
pub struct VoteModel {
    pub id: u64,
    pub yes_count: u128,
    pub no_count: u128,
    pub abstain_count: u128,
    pub no_with_veto_count: u128,
    pub deadline: Deadline,
    pub owner: Seq<char>,
    pub topic: Seq<char>,
    pub description: Seq<char>,
    pub create_date: Seq<char>,
    pub total_amount: u128,
    pub native_denom: Option<Seq<char>>,
    pub voters: Seq<Seq<char>>,
    pub voter_count: u128,
}

pub open spec fn strings_view(v: Seq<String>) -> Seq<Seq<char>> {
    v.map_values(|s: String| s@)
}

pub open spec fn opt_view(o: Option<String>) -> Option<Seq<char>> {
    match o {
        Some(s) => Some(s@),
        None => None,
    }
}

impl View for Vote {
    type V = VoteModel;

    open spec fn view(&self) -> VoteModel {
        VoteModel {
            id: self.id,
            yes_count: self.yes_count,
            no_count: self.no_count,
            abstain_count: self.abstain_count,
            no_with_veto_count: self.no_with_veto_count,
            deadline: self.deadline,
            owner: self.owner@,
            topic: self.topic@,
            description: self.description@,
            create_date: self.create_date@,
            total_amount: self.total_amount,
            native_denom: opt_view(self.native_denom),
            voters: strings_view(self.voters@),
            voter_count: self.voter_count,
        }
    }
}

impl VoteModel {
    pub open spec fn count_of(self, kind: VoteKind) -> u128 {
        match kind {
            VoteKind::No => self.no_count,
            VoteKind::Abstain => self.abstain_count,
            VoteKind::Yes => self.yes_count,
            VoteKind::NoWithVeto => self.no_with_veto_count,
        }
    }

    pub open spec fn tally_sum(self) -> int {
        self.yes_count + self.no_count + self.abstain_count + self.no_with_veto_count
    }

    /// The four counters add up to the number of accepted ballots.
    pub open spec fn balanced(self) -> bool {
        self.tally_sum() == self.voter_count
    }

    /// What holds of every stored record: a reset may lower the counters
    /// below the ballot count, a claim may shorten `voters`, and no address
    /// is recorded twice.
    pub open spec fn well_formed(self) -> bool {
        &&& self.tally_sum() <= self.voter_count
        &&& self.voters.len() <= self.voter_count
        &&& self.voters.no_duplicates()
    }
}

/// The mathematical value of the registry: the id sequence and the records
/// in ascending id order.
pub struct StoreModel {
    pub seq: u64,
    pub records: Seq<VoteModel>,
}

impl StoreModel {
    pub open spec fn valid(self) -> bool {
        &&& forall|i: int, j: int|
            0 <= i < j < self.records.len() ==> #[trigger] self.records[i].id
                < #[trigger] self.records[j].id
        &&& forall|i: int|
            0 <= i < self.records.len() ==> 1 <= #[trigger] self.records[i].id <= self.seq
        &&& forall|i: int| 0 <= i < self.records.len() ==> (#[trigger] self.records[i]).well_formed()
    }

    pub open spec fn contains(self, id: u64) -> bool {
        exists|i: int| 0 <= i < self.records.len() && #[trigger] self.records[i].id == id
    }

    pub open spec fn index_of(self, id: u64) -> int {
        choose|i: int| 0 <= i < self.records.len() && #[trigger] self.records[i].id == id
    }

    pub open spec fn lookup(self, id: u64) -> Option<VoteModel> {
        if self.contains(id) {
            Some(self.records[self.index_of(id)])
        } else {
            None
        }
    }

    /// The registry with the record of `v.id` replaced by `v`.
    pub open spec fn put(self, v: VoteModel) -> StoreModel {
        StoreModel { seq: self.seq, records: self.records.update(self.index_of(v.id), v) }
    }

    /// The registry without the record of `id`.
    pub open spec fn without(self, id: u64) -> StoreModel {
        StoreModel { seq: self.seq, records: self.records.remove(self.index_of(id)) }
    }

    /// The registry after a creation that issued `v.id`.
    pub open spec fn with_new(self, v: VoteModel) -> StoreModel {
        StoreModel { seq: v.id, records: self.records.push(v) }
    }

    pub proof fn lemma_index_of(self, k: int)
        requires
            self.valid(),
            0 <= k < self.records.len(),
        ensures
            self.contains(self.records[k].id),
            self.index_of(self.records[k].id) == k,
            self.lookup(self.records[k].id) == Some(self.records[k]),
    {
        let id = self.records[k].id;
        assert(self.contains(id));
        let i = self.index_of(id);
        if i < k {
            assert(self.records[i].id < self.records[k].id);
        } else if k < i {
            assert(self.records[k].id < self.records[i].id);
        }
    }
}

impl StoreModel {
    /// Replacing the record at `k` by one with the same id keeps the registry
    /// valid, as long as the new record is well formed.
    pub proof fn lemma_put(self, k: int, v: VoteModel)
        requires
            self.valid(),
            0 <= k < self.records.len(),
            self.records[k].id == v.id,
            v.well_formed(),
        ensures
            self.put(v).valid(),
            self.put(v).records == self.records.update(k, v),
            self.put(v).seq == self.seq,
    {
        self.lemma_index_of(k);
    }

    /// Removing the record of `id` keeps the registry valid.
    pub proof fn lemma_without(self, id: u64)
        requires
            self.valid(),
            self.contains(id),
        ensures
            self.without(id).valid(),
            self.without(id).seq == self.seq,
            !self.without(id).contains(id),
    {
        let k = self.index_of(id);
        let t = self.without(id);
        assert forall|i: int, j: int| 0 <= i < j < t.records.len() implies #[trigger] t.records[i].id
            < #[trigger] t.records[j].id by {
            let oi = if i < k { i } else { i + 1 };
            let oj = if j < k { j } else { j + 1 };
            assert(t.records[i] == self.records[oi]);
            assert(t.records[j] == self.records[oj]);
        }
        assert forall|i: int| 0 <= i < t.records.len() implies 1 <= #[trigger] t.records[i].id
            <= t.seq && t.records[i].well_formed() by {
            let oi = if i < k { i } else { i + 1 };
            assert(t.records[i] == self.records[oi]);
        }
        if t.contains(id) {
            let i = choose|i: int| 0 <= i < t.records.len() && #[trigger] t.records[i].id == id;
            let oi = if i < k { i } else { i + 1 };
            assert(t.records[i] == self.records[oi]);
            assert(self.records[oi].id != self.records[k].id);
        }
    }
}

impl StoreModel {
    /// Replacing the record of `v.id` leaves every other lookup as it was.
    pub proof fn lemma_lookup_put(self, v: VoteModel, id: u64)
        requires
            self.valid(),
            self.contains(v.id),
            v.well_formed(),
        ensures
            self.put(v).lookup(id) == if id == v.id {
                Some(v)
            } else {
                self.lookup(id)
            },
    {
        let k = self.index_of(v.id);
        self.lemma_put(k, v);
        let t = self.put(v);
        t.lemma_index_of(k);
        if id != v.id {
            if self.contains(id) {
                let j = self.index_of(id);
                assert(t.records[j] == self.records[j]);
                t.lemma_index_of(j);
            }
            if t.contains(id) {
                let j = t.index_of(id);
                assert(t.records[j] == self.records[j]);
            }
        }
    }

    /// Removing the record of `x` leaves every other lookup as it was.
    pub proof fn lemma_lookup_without(self, x: u64, id: u64)
        requires
            self.valid(),
            self.contains(x),
        ensures
            self.without(x).lookup(id) == if id == x {
                None
            } else {
                self.lookup(id)
            },
    {
        let k = self.index_of(x);
        let t = self.without(x);
        self.lemma_without(x);
        if id != x {
            if self.contains(id) {
                let j = self.index_of(id);
                let tj = if j < k { j } else { j - 1 };
                assert(t.records[tj] == self.records[j]);
                t.lemma_index_of(tj);
            }
            if t.contains(id) {
                let j = t.index_of(id);
                let oj = if j < k { j } else { j + 1 };
                assert(t.records[j] == self.records[oj]);
            }
        }
    }

    /// Appending a record under a fresh id leaves every other lookup as it was.
    pub proof fn lemma_lookup_with_new(self, v: VoteModel, id: u64)
        requires
            self.valid(),
            v.id > self.seq,
            v.well_formed(),
        ensures
            self.with_new(v).lookup(id) == if id == v.id {
                Some(v)
            } else {
                self.lookup(id)
            },
    {
        let t = self.with_new(v);
        let n = self.records.len() as int;
        assert(t.records[n] == v);
        assert forall|i: int| 0 <= i < t.records.len() implies 1 <= #[trigger] t.records[i].id
            <= t.seq && t.records[i].well_formed() by {
            if i < n {
                assert(t.records[i] == self.records[i]);
            }
        }
        assert forall|i: int, j: int| 0 <= i < j < t.records.len() implies #[trigger] t.records[i].id
            < #[trigger] t.records[j].id by {
            assert(t.records[i] == self.records[i]);
            if j < n {
                assert(t.records[j] == self.records[j]);
            }
        }
        t.lemma_index_of(n);
        if id != v.id {
            if self.contains(id) {
                let j = self.index_of(id);
                assert(t.records[j] == self.records[j]);
                t.lemma_index_of(j);
            }
            if t.contains(id) {
                let j = t.index_of(id);
                if j < n {
                    assert(t.records[j] == self.records[j]);
                }
            }
        }
    }
}

/// Whether a record is well formed.
fn well_formed_check(v: &Vote) -> (r: bool)
    ensures
        r == v@.well_formed(),
{
    let sum = match v.yes_count.checked_add(v.no_count) {
        None => return false,
        Some(t) => match t.checked_add(v.abstain_count) {
            None => return false,
            Some(t) => match t.checked_add(v.no_with_veto_count) {
                None => return false,
                Some(t) => t,
            },
        },
    };
    if sum > v.voter_count || v.voters.len() as u128 > v.voter_count {
        return false;
    }
    let ghost w = strings_view(v.voters@);
    let mut i: usize = 0;
    while i < v.voters.len()
        invariant
            i <= v.voters@.len(),
            w == strings_view(v.voters@),
            forall|a: int, b: int| 0 <= a < i && 0 <= b < i && a != b ==> w[a] != w[b],
        decreases v.voters.len() - i,
    {
        let mut j: usize = 0;
        while j < i
            invariant
                j <= i < v.voters@.len(),
                w == strings_view(v.voters@),
                forall|a: int, b: int| 0 <= a < i && 0 <= b < i && a != b ==> w[a] != w[b],
                forall|b: int| 0 <= b < j ==> w[i as int] != w[b],
            decreases i - j,
        {
            if v.voters[i] == v.voters[j] {
                assert(w[i as int] == w[j as int]);
                assert(!w.no_duplicates());
                return false;
            }
            j = j + 1;
        }
        i = i + 1;
    }
    true
}

/// The registry: the id sequence and every live vote box, kept in ascending
/// id order.
pub struct VoteStore {
    seq: u64,
    boxes: Vec<Vote>,
}

pub open spec fn votes_view(v: Seq<Vote>) -> Seq<VoteModel> {
    v.map_values(|b: Vote| b@)
}

impl View for VoteStore {
    type V = StoreModel;

    closed spec fn view(&self) -> StoreModel {
        StoreModel { seq: self.seq, records: votes_view(self.boxes@) }
    }
}

impl VoteStore {
    pub open spec fn wf(&self) -> bool {
        self@.valid()
    }

    /// An empty registry whose sequence starts at zero.
    pub fn new() -> (r: VoteStore)
        ensures
            r.wf(),
            r@.seq == 0,
            r@.records.len() == 0,
    {
        let r = VoteStore { seq: 0, boxes: Vec::new() };
        assert(r@.records =~= Seq::<VoteModel>::empty());
        r
    }

    /// Rebuilds a registry from a sequence value and records in storage
    /// order; `None` when they do not form a valid registry.
    pub fn from_parts(seq: u64, boxes: Vec<Vote>) -> (r: Option<VoteStore>)
        ensures
            match r {
                Some(s) => s.wf() && s@ == (StoreModel { seq, records: votes_view(boxes@) }),
                None => !(StoreModel { seq, records: votes_view(boxes@) }).valid(),
            },
    {
        let ghost m = StoreModel { seq, records: votes_view(boxes@) };
        let mut i: usize = 0;
        while i < boxes.len()
            invariant
                i <= boxes@.len(),
                m == (StoreModel { seq, records: votes_view(boxes@) }),
                forall|a: int, b: int|
                    0 <= a < b < i ==> #[trigger] m.records[a].id < #[trigger] m.records[b].id,
                forall|a: int| 0 <= a < i ==> 1 <= #[trigger] m.records[a].id <= seq,
                forall|a: int| 0 <= a < i ==> (#[trigger] m.records[a]).well_formed(),
            decreases boxes.len() - i,
        {
            let b = &boxes[i];
            assert(m.records[i as int] == b@);
            if b.id < 1 || b.id > seq {
                assert(!(1 <= m.records[i as int].id <= m.seq));
                return None;
            }
            if i > 0 && boxes[i - 1].id >= b.id {
                assert(m.records[i - 1] == boxes@[i - 1]@);
                assert(!(m.records[i - 1].id < m.records[i as int].id));
                return None;
            }
            if !well_formed_check(b) {
                return None;
            }
            proof {
                if i > 0 {
                    assert(m.records[i - 1] == boxes@[i - 1]@);
                    assert forall|a: int| 0 <= a < i implies #[trigger] m.records[a].id
                        < m.records[i as int].id by {
                        if a < i - 1 {
                            assert(m.records[a].id < m.records[i - 1].id);
                        }
                    }
                }
            }
            i = i + 1;
        }
        Some(VoteStore { seq, boxes })
    }

    /// The current sequence value: the last id issued, zero before any.
    pub fn seq(&self) -> (r: u64)
        ensures
            r == self@.seq,
    {
        self.seq
    }

    pub fn len(&self) -> (r: usize)
        ensures
            r == self@.records.len(),
    {
        self.boxes.len()
    }

    pub fn record(&self, k: usize) -> (r: &Vote)
        requires
            k < self@.records.len(),
        ensures
            r@ == self@.records[k as int],
    {
        &self.boxes[k]
    }

    /// The position of the record with `id`, if there is one.
    pub fn find(&self, id: u64) -> (r: Option<usize>)
        requires
            self.wf(),
        ensures
            match r {
                Some(k) => self@.contains(id) && k == self@.index_of(id) && k
                    < self@.records.len(),
                None => !self@.contains(id),
            },
    {
        let mut k: usize = 0;
        while k < self.boxes.len()
            invariant
                k <= self.boxes.len(),
                self.wf(),
                forall|j: int| 0 <= j < k ==> #[trigger] self@.records[j].id != id,
            decreases self.boxes.len() - k,
        {
            assert(self@.records[k as int] == self.boxes@[k as int]@);
            if self.boxes[k].id == id {
                proof {
                    self@.lemma_index_of(k as int);
                }
                return Some(k);
            }
            k = k + 1;
        }
        None
    }

    /// Removes the record at `k` and hands it out.
    pub(crate) fn take(&mut self, k: usize) -> (v: Vote)
        requires
            k < old(self)@.records.len(),
        ensures
            v@ == old(self)@.records[k as int],
            final(self)@ == (StoreModel {
                seq: old(self)@.seq,
                records: old(self)@.records.remove(k as int),
            }),
    {
        let v = self.boxes.remove(k);
        assert(final(self)@.records =~= old(self)@.records.remove(k as int));
        v
    }

    /// Puts `v` at position `k`.
    pub(crate) fn restore(&mut self, k: usize, v: Vote)
        requires
            k <= old(self)@.records.len(),
        ensures
            final(self)@ == (StoreModel {
                seq: old(self)@.seq,
                records: old(self)@.records.insert(k as int, v@),
            }),
    {
        self.boxes.insert(k, v);
        assert(final(self)@.records =~= old(self)@.records.insert(k as int, v@));
    }

    /// Appends `v` as the newest record; its id becomes the sequence value.
    pub(crate) fn append(&mut self, v: Vote)
        ensures
            final(self)@ == old(self)@.with_new(v@),
    {
        self.seq = v.id;
        self.boxes.push(v);
        assert(final(self)@.records =~= old(self)@.records.push(v@));
    }
}

} // verus!
