use vstd::prelude::*;
use crate::error::ContractError;
use crate::helpers::{
    get_winner, winner_of, WINNER_ABSTAIN, WINNER_NO, WINNER_NO_WITH_VETO, WINNER_YES,
};
use crate::msg::{
    describes, describes_all, tally_of, Coin, MessageInfo, Tally, Transfer, VBCountResponse,
    VBOCResponse, VoteBoxListResponse, VoteResponse, VoteboxStatistics,
};
use crate::state::{
    opt_view, strings_view, BlockTime, Deadline, StoreModel, Vote, VoteKind, VoteModel, VoteStore,
};

verus! {

// ----- single-record rules -----

/// The record after a ballot of `kind` from `voter`.
pub open spec fn with_ballot(v: VoteModel, kind: VoteKind, voter: Seq<char>) -> VoteModel {
    let counted = match kind {
        VoteKind::No => VoteModel { no_count: (v.no_count + 1) as u128, ..v },
        VoteKind::Abstain => VoteModel { abstain_count: (v.abstain_count + 1) as u128, ..v },
        VoteKind::Yes => VoteModel { yes_count: (v.yes_count + 1) as u128, ..v },
        VoteKind::NoWithVeto => VoteModel {
            no_with_veto_count: (v.no_with_veto_count + 1) as u128,
            ..v
        },
    };
    VoteModel {
        voters: v.voters.push(voter),
        voter_count: (v.voter_count + 1) as u128,
        ..counted
    }
}

/// A ballot on one record: the checks in order, then the new record.
pub open spec fn cast_spec(v: VoteModel, block: BlockTime, voter: Seq<char>, vote_type: i32) -> Result<
    VoteModel,
    ContractError,
> {
    if v.deadline.triggered(block) {
        Err(ContractError::Expired)
    } else if v.voters.contains(voter) {
        Err(ContractError::DuplicateVoter)
    } else {
        match VoteKind::from_code_spec(vote_type) {
            None => Err(ContractError::InvalidVote),
            Some(kind) => if v.count_of(kind) == u128::MAX || v.voter_count == u128::MAX {
                Err(ContractError::Overflow)
            } else {
                Ok(with_ballot(v, kind, voter))
            },
        }
    }
}

/// The record with its four counters zeroed; voters stay recorded.
pub open spec fn zeroed(v: VoteModel) -> VoteModel {
    VoteModel { yes_count: 0, no_count: 0, abstain_count: 0, no_with_veto_count: 0, ..v }
}

/// A freshly created record.
pub open spec fn fresh_record(
    id: u64,
    deadline: Deadline,
    owner: Seq<char>,
    topic: Seq<char>,
    description: Seq<char>,
    create_date: Seq<char>,
    native_denom: Option<Seq<char>>,
) -> VoteModel {
    VoteModel {
        id,
        yes_count: 0,
        no_count: 0,
        abstain_count: 0,
        no_with_veto_count: 0,
        deadline,
        owner,
        topic,
        description,
        create_date,
        total_amount: 0,
        native_denom,
        voters: Seq::empty(),
        voter_count: 0,
    }
}

/// `i` is the first coin of `funds` in denomination `d`.
pub open spec fn is_first_coin(funds: Seq<Coin>, d: Seq<char>, i: int) -> bool {
    &&& 0 <= i < funds.len()
    &&& funds[i].denom@ == d
    &&& forall|j: int| 0 <= j < i ==> (#[trigger] funds[j]).denom@ != d
}

pub open spec fn has_coin(funds: Seq<Coin>, d: Seq<char>) -> bool {
    exists|i: int| 0 <= i < funds.len() && (#[trigger] funds[i]).denom@ == d
}

pub open spec fn first_coin(funds: Seq<Coin>, d: Seq<char>) -> int {
    choose|i: int| is_first_coin(funds, d, i)
}

/// The position of `a` in `voters`.
pub open spec fn voter_index(voters: Seq<Seq<char>>, a: Seq<char>) -> int {
    choose|i: int| 0 <= i < voters.len() && voters[i] == a
}

/// The share of the pool that one claim pays: truncating division.
pub open spec fn share_of(v: VoteModel) -> u128 {
    (v.total_amount / v.voter_count) as u128
}

/// A successful ballot keeps the record's id and well-formedness.
pub proof fn lemma_cast_well_formed(v: VoteModel, block: BlockTime, voter: Seq<char>, vote_type: i32)
    requires
        v.well_formed(),
        cast_spec(v, block, voter, vote_type) is Ok,
    ensures
        cast_spec(v, block, voter, vote_type)->Ok_0.well_formed(),
        cast_spec(v, block, voter, vote_type)->Ok_0.id == v.id,
        cast_spec(v, block, voter, vote_type)->Ok_0.voters == v.voters.push(voter),
{
    let nv = cast_spec(v, block, voter, vote_type)->Ok_0;
    assert forall|i: int, j: int|
        0 <= i < nv.voters.len() && 0 <= j < nv.voters.len() && i != j implies nv.voters[i]
        != nv.voters[j] by {
        if i < v.voters.len() && j < v.voters.len() {
            assert(v.voters[i] == nv.voters[i] && v.voters[j] == nv.voters[j]);
        } else if i < v.voters.len() {
            assert(v.voters[i] == nv.voters[i]);
        } else {
            assert(v.voters[j] == nv.voters[j]);
        }
    }
}

/// Striking a recorded voter keeps the record well formed.
pub proof fn lemma_strike_well_formed(v: VoteModel, a: Seq<char>)
    requires
        v.well_formed(),
        v.voters.contains(a),
    ensures
        (VoteModel { voters: v.voters.remove(voter_index(v.voters, a)), ..v }).well_formed(),
        0 <= voter_index(v.voters, a) < v.voters.len(),
        v.voters[voter_index(v.voters, a)] == a,
{
    let index = voter_index(v.voters, a);
    let nv = VoteModel { voters: v.voters.remove(index), ..v };
    assert forall|i: int, j: int|
        0 <= i < nv.voters.len() && 0 <= j < nv.voters.len() && i != j implies nv.voters[i]
        != nv.voters[j] by {
        let oi = if i < index { i } else { i + 1 };
        let oj = if j < index { j } else { j + 1 };
        assert(nv.voters[i] == v.voters[oi]);
        assert(nv.voters[j] == v.voters[oj]);
    }
}

/// Appending a well-formed record under the next id keeps the registry valid.
pub proof fn lemma_with_new_valid(s: StoreModel, v: VoteModel)
    requires
        s.valid(),
        v.id == s.seq + 1,
        v.well_formed(),
    ensures
        s.with_new(v).valid(),
        !s.contains(v.id),
{
    let t = s.with_new(v);
    assert forall|i: int| 0 <= i < t.records.len() implies 1 <= #[trigger] t.records[i].id <= t.seq
        && t.records[i].well_formed() by {
        if i < s.records.len() {
            assert(s.records[i] == t.records[i]);
        }
    }
    assert forall|i: int, j: int| 0 <= i < j < t.records.len() implies #[trigger] t.records[i].id
        < #[trigger] t.records[j].id by {
        assert(s.records[i] == t.records[i]);
        if j < s.records.len() {
            assert(s.records[j] == t.records[j]);
        }
    }
    if s.contains(v.id) {
        let i = s.index_of(v.id);
        assert(s.records[i].id <= s.seq);
    }
}

// ----- operations on the registry -----

/// `after` and `r` are what an operation with `outcome` leaves behind when it
/// starts from `before`: the new registry and the value on success, the
/// untouched registry and the error on failure.
pub open spec fn settles<T>(
    outcome: Result<(StoreModel, T), ContractError>,
    before: StoreModel,
    after: StoreModel,
    r: Result<T, ContractError>,
) -> bool {
    match outcome {
        Ok((s, t)) => after == s && r == Ok::<T, ContractError>(t),
        Err(e) => after == before && r == Err::<T, ContractError>(e),
    }
}

pub open spec fn create_outcome(
    s: StoreModel,
    deadline: Deadline,
    owner: Seq<char>,
    owner_accepted: bool,
    topic: Seq<char>,
    description: Seq<char>,
    create_date: Seq<char>,
    native_denom: Option<Seq<char>>,
) -> Result<(StoreModel, u64), ContractError> {
    if !owner_accepted {
        Err(ContractError::InvalidAddress)
    } else if s.seq == u64::MAX {
        Err(ContractError::Overflow)
    } else {
        let id = (s.seq + 1) as u64;
        Ok(
            (
                s.with_new(
                    fresh_record(id, deadline, owner, topic, description, create_date, native_denom),
                ),
                id,
            ),
        )
    }
}

pub open spec fn vote_outcome(
    s: StoreModel,
    block: BlockTime,
    voter: Seq<char>,
    id: u64,
    vote_type: i32,
) -> Result<(StoreModel, Tally), ContractError> {
    match s.lookup(id) {
        None => Err(ContractError::NotFound),
        Some(v) => match cast_spec(v, block, voter, vote_type) {
            Ok(nv) => Ok((s.put(nv), tally_of(nv))),
            Err(e) => Err(e),
        },
    }
}

pub open spec fn reset_outcome(s: StoreModel, block: BlockTime, caller: Seq<char>, id: u64) -> Result<
    (StoreModel, Tally),
    ContractError,
> {
    match s.lookup(id) {
        None => Err(ContractError::NotFound),
        Some(v) => if caller != v.owner {
            Err(ContractError::Unauthorized)
        } else if v.deadline.triggered(block) {
            Err(ContractError::Expired)
        } else {
            Ok((s.put(zeroed(v)), tally_of(zeroed(v))))
        },
    }
}

pub open spec fn remove_outcome(s: StoreModel, block: BlockTime, caller: Seq<char>, id: u64) -> Result<
    (StoreModel, ()),
    ContractError,
> {
    match s.lookup(id) {
        None => Err(ContractError::NotFound),
        Some(v) => if caller != v.owner {
            Err(ContractError::Unauthorized)
        } else if v.deadline.triggered(block) {
            Err(ContractError::Expired)
        } else {
            Ok((s.without(id), ()))
        },
    }
}

pub open spec fn deposit_outcome(
    s: StoreModel,
    block: BlockTime,
    sender: Seq<char>,
    funds: Seq<Coin>,
    id: u64,
) -> Result<(StoreModel, u128), ContractError> {
    match s.lookup(id) {
        None => Err(ContractError::NotFound),
        Some(v) => if sender != v.owner {
            Err(ContractError::Unauthorized)
        } else if v.deadline.triggered(block) {
            Err(ContractError::Expired)
        } else {
            match v.native_denom {
                None => Err(ContractError::NoEscrowConfigured),
                Some(d) => if !has_coin(funds, d) {
                    Err(ContractError::UnsupportedDenom)
                } else {
                    let total = v.total_amount + funds[first_coin(funds, d)].amount;
                    if total > u128::MAX {
                        Err(ContractError::Overflow)
                    } else {
                        Ok((s.put(VoteModel { total_amount: total as u128, ..v }), total as u128))
                    }
                },
            }
        },
    }
}

/// A transfer as plain values: recipient, denomination, amount.
pub open spec fn transfer_view(r: Result<Transfer, ContractError>) -> Result<
    (Seq<char>, Seq<char>, u128),
    ContractError,
> {
    match r {
        Ok(t) => Ok((t.to_address@, t.denom@, t.amount)),
        Err(e) => Err(e),
    }
}

pub open spec fn claim_outcome(
    s: StoreModel,
    block: BlockTime,
    claimant: Seq<char>,
    id: u64,
    balance: u128,
) -> Result<(StoreModel, (Seq<char>, Seq<char>, u128)), ContractError> {
    match s.lookup(id) {
        None => Err(ContractError::NotFound),
        Some(v) => if !v.deadline.triggered(block) {
            Err(ContractError::Unexpired)
        } else {
            match v.native_denom {
                None => Err(ContractError::NoEscrowConfigured),
                Some(d) => if !v.voters.contains(claimant) {
                    Err(ContractError::Unauthorized)
                } else if balance < share_of(v) {
                    Err(ContractError::InsufficientBalance)
                } else {
                    Ok(
                        (
                            s.put(
                                VoteModel {
                                    voters: v.voters.remove(voter_index(v.voters, claimant)),
                                    ..v
                                },
                            ),
                            (claimant, d, share_of(v)),
                        ),
                    )
                },
            }
        },
    }
}

// ----- executable helpers -----

/// The first position of `a` in `v`.
fn position_of(v: &Vec<String>, a: &String) -> (r: Option<usize>)
    ensures
        match r {
            Some(k) => k < v@.len() && strings_view(v@)[k as int] == a@ && forall|j: int|
                0 <= j < k ==> #[trigger] strings_view(v@)[j] != a@,
            None => !strings_view(v@).contains(a@),
        },
{
    let mut k: usize = 0;
    while k < v.len()
        invariant
            k <= v@.len(),
            forall|j: int| 0 <= j < k ==> #[trigger] strings_view(v@)[j] != a@,
        decreases v.len() - k,
    {
        if v[k] == *a {
            return Some(k);
        }
        k = k + 1;
    }
    None
}

/// A share of the pool: `total_amount / voter_count`, truncated.
pub fn calc_amount(votebox: &Vote) -> (r: u128)
    requires
        votebox.voter_count > 0,
    ensures
        r == share_of(votebox@),
{
    votebox.total_amount / votebox.voter_count
}

// ----- mutating operations -----

/// Opens a new vote box under the next id. `owner_accepted` is the host's
/// verdict on `owner` as an address.
pub fn create_vote_box(
    store: &mut VoteStore,
    deadline: Deadline,
    owner: String,
    owner_accepted: bool,
    topic: String,
    description: String,
    create_date: String,
    native_denom: Option<String>,
) -> (r: Result<u64, ContractError>)
    requires
        old(store).wf(),
    ensures
        final(store).wf(),
        settles(
            create_outcome(
                old(store)@,
                deadline,
                owner@,
                owner_accepted,
                topic@,
                description@,
                create_date@,
                opt_view(native_denom),
            ),
            old(store)@,
            final(store)@,
            r,
        ),
{
    if !owner_accepted {
        return Err(ContractError::InvalidAddress);
    }
    let seq = store.seq();
    if seq == u64::MAX {
        return Err(ContractError::Overflow);
    }
    let id = seq + 1;
    let record = Vote {
        id,
        yes_count: 0,
        no_count: 0,
        abstain_count: 0,
        no_with_veto_count: 0,
        deadline,
        owner,
        topic,
        description,
        create_date,
        total_amount: 0,
        native_denom,
        voters: Vec::new(),
        voter_count: 0,
    };
    let ghost nv = record@;
    assert(nv.voters =~= Seq::<Seq<char>>::empty());
    store.append(record);
    proof {
        lemma_with_new_valid(old(store)@, nv);
    }
    Ok(id)
}

} // verus!

verus! {

/// Records a ballot of `vote_type` from `info.sender` in vote box `id`.
pub fn execute_vote(
    store: &mut VoteStore,
    block: &BlockTime,
    info: &MessageInfo,
    id: u64,
    vote_type: i32,
) -> (r: Result<Tally, ContractError>)
    requires
        old(store).wf(),
    ensures
        final(store).wf(),
        settles(
            vote_outcome(old(store)@, *block, info.sender@, id, vote_type),
            old(store)@,
            final(store)@,
            r,
        ),
{
    let k = match store.find(id) {
        None => return Err(ContractError::NotFound),
        Some(k) => k,
    };
    let ghost v = store@.records[k as int];
    let cur = store.record(k);
    if cur.deadline.is_triggered(block) {
        return Err(ContractError::Expired);
    }
    if position_of(&cur.voters, &info.sender).is_some() {
        return Err(ContractError::DuplicateVoter);
    }
    let kind = match VoteKind::from_code(vote_type) {
        None => return Err(ContractError::InvalidVote),
        Some(kind) => kind,
    };
    let count = match kind {
        VoteKind::No => cur.no_count,
        VoteKind::Abstain => cur.abstain_count,
        VoteKind::Yes => cur.yes_count,
        VoteKind::NoWithVeto => cur.no_with_veto_count,
    };
    if count == u128::MAX || cur.voter_count == u128::MAX {
        return Err(ContractError::Overflow);
    }
    let mut b = store.take(k);
    match kind {
        VoteKind::No => b.no_count = b.no_count + 1,
        VoteKind::Abstain => b.abstain_count = b.abstain_count + 1,
        VoteKind::Yes => b.yes_count = b.yes_count + 1,
        VoteKind::NoWithVeto => b.no_with_veto_count = b.no_with_veto_count + 1,
    }
    b.voters.push(info.sender.clone());
    b.voter_count = b.voter_count + 1;
    let t = Tally {
        yes_count: b.yes_count,
        no_count: b.no_count,
        abstain_count: b.abstain_count,
        no_with_veto_count: b.no_with_veto_count,
    };
    let ghost nv = with_ballot(v, kind, info.sender@);
    assert(b@.voters =~= v.voters.push(info.sender@));
    assert(b@ == nv);
    store.restore(k, b);
    proof {
        lemma_cast_well_formed(v, *block, info.sender@, vote_type);
        old(store)@.lemma_put(k as int, nv);
        assert(final(store)@.records =~= old(store)@.records.update(k as int, nv));
    }
    Ok(t)
}

/// Zeroes the four counters of vote box `id`; owner only, before the deadline.
/// Recorded voters stay recorded and cannot vote again.
pub fn reset(store: &mut VoteStore, block: &BlockTime, info: &MessageInfo, id: u64) -> (r: Result<
    Tally,
    ContractError,
>)
    requires
        old(store).wf(),
    ensures
        final(store).wf(),
        settles(reset_outcome(old(store)@, *block, info.sender@, id), old(store)@, final(store)@, r),
{
    let k = match store.find(id) {
        None => return Err(ContractError::NotFound),
        Some(k) => k,
    };
    let ghost v = store@.records[k as int];
    let cur = store.record(k);
    if info.sender != cur.owner {
        return Err(ContractError::Unauthorized);
    }
    if cur.deadline.is_triggered(block) {
        return Err(ContractError::Expired);
    }
    let mut b = store.take(k);
    b.yes_count = 0;
    b.no_count = 0;
    b.abstain_count = 0;
    b.no_with_veto_count = 0;
    let t = Tally { yes_count: 0, no_count: 0, abstain_count: 0, no_with_veto_count: 0 };
    assert(b@ == zeroed(v));
    store.restore(k, b);
    proof {
        old(store)@.lemma_put(k as int, zeroed(v));
        assert(final(store)@.records =~= old(store)@.records.update(k as int, zeroed(v)));
    }
    Ok(t)
}

/// Deletes vote box `id`; owner only, before the deadline. The sequence is
/// left as it is, so the id is never issued again.
pub fn remove_votebox(store: &mut VoteStore, block: &BlockTime, info: &MessageInfo, id: u64) -> (r:
    Result<(), ContractError>)
    requires
        old(store).wf(),
    ensures
        final(store).wf(),
        settles(remove_outcome(old(store)@, *block, info.sender@, id), old(store)@, final(store)@, r),
{
    let k = match store.find(id) {
        None => return Err(ContractError::NotFound),
        Some(k) => k,
    };
    let cur = store.record(k);
    if info.sender != cur.owner {
        return Err(ContractError::Unauthorized);
    }
    if cur.deadline.is_triggered(block) {
        return Err(ContractError::Expired);
    }
    let _ = store.take(k);
    proof {
        old(store)@.lemma_without(id);
    }
    Ok(())
}

} // verus!

verus! {

/// The first coin of `funds` in denomination `denom`.
fn find_coin(funds: &Vec<Coin>, denom: &String) -> (r: Option<usize>)
    ensures
        match r {
            Some(k) => is_first_coin(funds@, denom@, k as int) && first_coin(funds@, denom@) == k,
            None => !has_coin(funds@, denom@),
        },
{
    let mut k: usize = 0;
    while k < funds.len()
        invariant
            k <= funds@.len(),
            forall|j: int| 0 <= j < k ==> (#[trigger] funds@[j]).denom@ != denom@,
        decreases funds.len() - k,
    {
        if funds[k].denom == *denom {
            proof {
                assert(is_first_coin(funds@, denom@, k as int));
                let i = first_coin(funds@, denom@);
                assert(is_first_coin(funds@, denom@, i));
                if i < k {
                    assert(funds@[i].denom@ != denom@);
                } else if k < i {
                    assert(funds@[k as int].denom@ != denom@);
                }
            }
            return Some(k);
        }
        k = k + 1;
    }
    None
}

/// Adds the sent coin of the vote box's denomination to its pool; owner only,
/// before the deadline. Returns the new pool total.
pub fn execute_deposit_native(
    store: &mut VoteStore,
    block: &BlockTime,
    info: &MessageInfo,
    id: u64,
) -> (r: Result<u128, ContractError>)
    requires
        old(store).wf(),
    ensures
        final(store).wf(),
        settles(
            deposit_outcome(old(store)@, *block, info.sender@, info.funds@, id),
            old(store)@,
            final(store)@,
            r,
        ),
{
    let k = match store.find(id) {
        None => return Err(ContractError::NotFound),
        Some(k) => k,
    };
    let ghost v = store@.records[k as int];
    let cur = store.record(k);
    if info.sender != cur.owner {
        return Err(ContractError::Unauthorized);
    }
    if cur.deadline.is_triggered(block) {
        return Err(ContractError::Expired);
    }
    let c = match &cur.native_denom {
        None => return Err(ContractError::NoEscrowConfigured),
        Some(d) => match find_coin(&info.funds, d) {
            None => return Err(ContractError::UnsupportedDenom),
            Some(c) => c,
        },
    };
    let total = match cur.total_amount.checked_add(info.funds[c].amount) {
        None => return Err(ContractError::Overflow),
        Some(t) => t,
    };
    let ghost nv = VoteModel { total_amount: total, ..v };
    let mut b = store.take(k);
    b.total_amount = total;
    assert(b@ == nv);
    store.restore(k, b);
    proof {
        old(store)@.lemma_put(k as int, nv);
        assert(final(store)@.records =~= old(store)@.records.update(k as int, nv));
    }
    Ok(total)
}

/// Pays the caller's share of the pool after the deadline: the caller must
/// be a recorded voter, and is struck from the voters so that it cannot
/// claim twice. `balance` is what the contract holds of the pool's
/// denomination. The share is `total_amount / voter_count`, neither of which
/// a claim lowers.
pub fn execute_claim(
    store: &mut VoteStore,
    block: &BlockTime,
    info: &MessageInfo,
    id: u64,
    balance: u128,
) -> (r: Result<Transfer, ContractError>)
    requires
        old(store).wf(),
    ensures
        final(store).wf(),
        settles(
            claim_outcome(old(store)@, *block, info.sender@, id, balance),
            old(store)@,
            final(store)@,
            transfer_view(r),
        ),
{
    let k = match store.find(id) {
        None => return Err(ContractError::NotFound),
        Some(k) => k,
    };
    let ghost v = store@.records[k as int];
    let cur = store.record(k);
    if !cur.deadline.is_triggered(block) {
        return Err(ContractError::Unexpired);
    }
    let denom = match &cur.native_denom {
        None => return Err(ContractError::NoEscrowConfigured),
        Some(d) => d.clone(),
    };
    let index = match position_of(&cur.voters, &info.sender) {
        None => return Err(ContractError::Unauthorized),
        Some(index) => index,
    };
    proof {
        assert(v.voters.contains(info.sender@));
        assert(v.voters[index as int] == info.sender@);
        let i = voter_index(v.voters, info.sender@);
        assert(0 <= i < v.voters.len() && v.voters[i] == info.sender@);
        assert(i == index);
    }
    let amount = calc_amount(cur);
    if balance < amount {
        return Err(ContractError::InsufficientBalance);
    }
    let mut b = store.take(k);
    let to_address = b.voters.remove(index);
    let ghost nv = VoteModel { voters: v.voters.remove(index as int), ..v };
    assert(b@.voters =~= nv.voters);
    assert(b@ == nv);
    store.restore(k, b);
    proof {
        lemma_strike_well_formed(v, info.sender@);
        old(store)@.lemma_put(k as int, nv);
        assert(final(store)@.records =~= old(store)@.records.update(k as int, nv));
    }
    Ok(Transfer { to_address, denom, amount })
}

} // verus!

verus! {

// ----- read side -----

/// The records of `records` that satisfy `p`, in order.
pub open spec fn select(records: Seq<VoteModel>, p: spec_fn(VoteModel) -> bool) -> Seq<VoteModel>
    decreases records.len(),
{
    if records.len() == 0 {
        Seq::empty()
    } else {
        let rest = select(records.drop_last(), p);
        if p(records.last()) {
            rest.push(records.last())
        } else {
            rest
        }
    }
}

/// The sum of `f` over `records`.
pub open spec fn total(records: Seq<VoteModel>, f: spec_fn(VoteModel) -> int) -> int
    decreases records.len(),
{
    if records.len() == 0 {
        0
    } else {
        total(records.drop_last(), f) + f(records.last())
    }
}

proof fn lemma_prefix_step(s: Seq<VoteModel>, i: int)
    requires
        0 <= i < s.len(),
    ensures
        s.subrange(0, i + 1).drop_last() == s.subrange(0, i),
        s.subrange(0, i + 1).last() == s[i],
        s.subrange(0, i + 1).len() == i + 1,
{
    assert(s.subrange(0, i + 1).drop_last() =~= s.subrange(0, i));
}

/// A sum over a prefix is at most the sum over the whole, for a
/// non-negative summand.
proof fn lemma_total_prefix(s: Seq<VoteModel>, f: spec_fn(VoteModel) -> int, i: int)
    requires
        0 <= i <= s.len(),
        forall|v: VoteModel| #[trigger] f(v) >= 0,
    ensures
        total(s.subrange(0, i), f) <= total(s, f),
    decreases s.len(),
{
    if i == s.len() {
        assert(s.subrange(0, i) =~= s);
    } else {
        lemma_total_prefix(s.drop_last(), f, i);
        assert(s.drop_last().subrange(0, i) =~= s.subrange(0, i));
    }
}

pub open spec fn owned_by(owner: Seq<char>) -> spec_fn(VoteModel) -> bool {
    |v: VoteModel| v.owner == owner
}

/// `needle` occurs in `hay` as a contiguous run.
pub open spec fn has_substring(hay: Seq<char>, needle: Seq<char>) -> bool {
    exists|i: int|
        0 <= i && i + needle.len() <= hay.len() && #[trigger] hay.subrange(i, i + needle.len())
            == needle
}

pub open spec fn topic_has(needle: Seq<char>) -> spec_fn(VoteModel) -> bool {
    |v: VoteModel| has_substring(v.topic, needle)
}

/// Relies on `str::contains` with a `&str` pattern: true exactly when
/// `needle` occurs in `hay`.
#[verifier::external_body]
fn str_contains(hay: &str, needle: &str) -> (r: bool)
    ensures
        r == has_substring(hay@, needle@),
{
    hay.contains(needle)
}

pub open spec fn participants() -> spec_fn(VoteModel) -> int {
    |v: VoteModel| v.tally_sum()
}

pub open spec fn count_ind(kind: VoteKind) -> spec_fn(VoteModel) -> int {
    |v: VoteModel| v.count_of(kind) as int
}

pub open spec fn expired_ind(block: BlockTime) -> spec_fn(VoteModel) -> int {
    |v: VoteModel|
        if v.deadline.triggered(block) {
            1
        } else {
            0
        }
}

pub open spec fn active_ind(block: BlockTime) -> spec_fn(VoteModel) -> int {
    |v: VoteModel|
        if v.deadline.triggered(block) {
            0
        } else {
            1
        }
}

/// Counts a record that has expired at `block` and whose outcome is `code`.
pub open spec fn won_ind(block: BlockTime, code: i32) -> spec_fn(VoteModel) -> int {
    |v: VoteModel|
        if v.deadline.triggered(block) && winner_of(v) == code {
            1
        } else {
            0
        }
}

pub open spec fn stats_of(records: Seq<VoteModel>, block: BlockTime) -> VoteboxStatistics {
    VoteboxStatistics {
        total_participants: total(records, participants()) as u128,
        total_voteboxes: records.len() as u128,
        expired: total(records, expired_ind(block)) as u128,
        active: total(records, active_ind(block)) as u128,
        yes_won: total(records, won_ind(block, WINNER_YES)) as u128,
        no_won: total(records, won_ind(block, WINNER_NO)) as u128,
        abstain_won: total(records, won_ind(block, WINNER_ABSTAIN)) as u128,
        no_veto_won: total(records, won_ind(block, WINNER_NO_WITH_VETO)) as u128,
        total_yes_count: total(records, count_ind(VoteKind::Yes)) as u128,
        total_no_count: total(records, count_ind(VoteKind::No)) as u128,
        total_abstain_count: total(records, count_ind(VoteKind::Abstain)) as u128,
        total_no_veto_count: total(records, count_ind(VoteKind::NoWithVeto)) as u128,
    }
}

pub const DEFAULT_LIMIT: u32 = 10;
pub const MAX_LIMIT: u32 = 30;

/// Page size: 10 when unspecified, at most 30.
pub open spec fn page_limit(limit: Option<u32>) -> int {
    match limit {
        None => DEFAULT_LIMIT as int,
        Some(l) => if l > MAX_LIMIT {
            MAX_LIMIT as int
        } else {
            l as int
        },
    }
}

/// `k` splits `records` into the ids at most `start_after` and those above.
pub open spec fn is_cut(records: Seq<VoteModel>, start_after: Option<u64>, k: int) -> bool {
    match start_after {
        None => k == 0,
        Some(c) => {
            &&& 0 <= k <= records.len()
            &&& forall|i: int| 0 <= i < k ==> (#[trigger] records[i]).id <= c
            &&& forall|i: int| k <= i < records.len() ==> (#[trigger] records[i]).id > c
        },
    }
}

/// Where a page starts: the first record whose id is above `start_after`.
pub open spec fn page_start(records: Seq<VoteModel>, start_after: Option<u64>) -> int {
    choose|k: int| is_cut(records, start_after, k)
}

/// The records of one page, in ascending id order.
pub open spec fn page(records: Seq<VoteModel>, start_after: Option<u64>, limit: Option<u32>) -> Seq<
    VoteModel,
> {
    let start = page_start(records, start_after);
    let end = if start + page_limit(limit) < records.len() {
        start + page_limit(limit)
    } else {
        records.len() as int
    };
    records.subrange(start, end)
}

/// The record of `id`.
pub fn query_vote(store: &VoteStore, id: u64) -> (r: Result<VoteResponse, ContractError>)
    requires
        store.wf(),
    ensures
        match store@.lookup(id) {
            None => r == Err::<VoteResponse, ContractError>(ContractError::NotFound),
            Some(v) => r.is_ok() && describes(r.unwrap(), v),
        },
{
    match store.find(id) {
        None => Err(ContractError::NotFound),
        Some(k) => Ok(VoteResponse::from_vote(store.record(k))),
    }
}

/// Up to `limit` records (10 when unspecified, at most 30) whose ids are
/// above `start_after`, in ascending id order.
pub fn query_votelist(store: &VoteStore, start_after: Option<u64>, limit: Option<u32>) -> (r:
    VoteBoxListResponse)
    requires
        store.wf(),
    ensures
        describes_all(r.voteList@, page(store@.records, start_after, limit)),
{
    let ghost records = store@.records;
    let lim: u32 = match limit {
        None => DEFAULT_LIMIT,
        Some(l) => if l > MAX_LIMIT {
            MAX_LIMIT
        } else {
            l
        },
    };
    let n = store.len();
    let mut start: usize = 0;
    match start_after {
        None => {},
        Some(c) => {
            while start < n && store.record(start).id <= c
                invariant
                    store.wf(),
                    n == records.len(),
                    records == store@.records,
                    start <= n,
                    forall|i: int| 0 <= i < start ==> (#[trigger] records[i]).id <= c,
                decreases n - start,
            {
                start = start + 1;
            }
        },
    }
    proof {
        if let Some(c) = start_after {
            if start < n {
                assert(records[start as int].id > c);
                assert forall|i: int| start <= i < records.len() implies (#[trigger] records[i]).id
                    > c by {
                    if i > start {
                        assert(records[start as int].id < records[i].id);
                    }
                }
            }
        }
        assert(is_cut(records, start_after, start as int));
        let k = page_start(records, start_after);
        assert(is_cut(records, start_after, k));
        if let Some(c) = start_after {
            if k < start {
                assert(records[k].id <= c);
            } else if start < k {
                assert(records[start as int].id <= c);
            }
        }
    }
    let end: usize = if lim as usize <= n - start {
        start + lim as usize
    } else {
        n
    };
    let mut out: Vec<VoteResponse> = Vec::new();
    let mut i: usize = start;
    while i < end
        invariant
            store.wf(),
            records == store@.records,
            start <= i <= end <= n,
            n == records.len(),
            describes_all(out@, records.subrange(start as int, i as int)),
        decreases end - i,
    {
        out.push(VoteResponse::from_vote(store.record(i)));
        i = i + 1;
    }
    VoteBoxListResponse { voteList: out }
}

/// The sequence value: how many ids were ever issued, removed boxes included.
pub fn query_votebox_count(store: &VoteStore) -> (r: VBCountResponse)
    ensures
        r.count == store@.seq,
{
    VBCountResponse { count: store.seq() }
}

/// How many vote boxes are still open and how many have expired at `block`.
pub fn query_vb_open_closed(store: &VoteStore, block: &BlockTime) -> (r: VBOCResponse)
    requires
        store.wf(),
    ensures
        r.open == total(store@.records, active_ind(*block)),
        r.closed == total(store@.records, expired_ind(*block)),
{
    let ghost records = store@.records;
    let n = store.len();
    let mut open: u64 = 0;
    let mut closed: u64 = 0;
    let mut i: usize = 0;
    while i < n
        invariant
            records == store@.records,
            n == records.len(),
            i <= n,
            open + closed == i,
            open == total(records.subrange(0, i as int), active_ind(*block)),
            closed == total(records.subrange(0, i as int), expired_ind(*block)),
        decreases n - i,
    {
        proof {
            lemma_prefix_step(records, i as int);
        }
        if store.record(i).deadline.is_triggered(block) {
            closed = closed + 1;
        } else {
            open = open + 1;
        }
        i = i + 1;
    }
    assert(records.subrange(0, n as int) =~= records);
    VBOCResponse { open, closed }
}

} // verus!

verus! {

/// Totals over every vote box: participants, per-category counts, the
/// active/expired split at `block`, and for each expired box the category
/// that won (ties count for none). Fails with `Overflow` exactly when the
/// total number of counted ballots exceeds the range of `u128`.
pub fn query_stats(store: &VoteStore, block: &BlockTime) -> (r: Result<
    VoteboxStatistics,
    ContractError,
>)
    requires
        store.wf(),
    ensures
        r == if total(store@.records, participants()) > u128::MAX {
            Err::<VoteboxStatistics, ContractError>(ContractError::Overflow)
        } else {
            Ok::<VoteboxStatistics, ContractError>(stats_of(store@.records, *block))
        },
{
    let ghost records = store@.records;
    let n = store.len();
    let mut st = VoteboxStatistics {
        total_participants: 0,
        total_voteboxes: 0,
        expired: 0,
        active: 0,
        yes_won: 0,
        no_won: 0,
        abstain_won: 0,
        no_veto_won: 0,
        total_yes_count: 0,
        total_no_count: 0,
        total_abstain_count: 0,
        total_no_veto_count: 0,
    };
    let mut i: usize = 0;
    while i < n
        invariant
            store.wf(),
            records == store@.records,
            n == records.len(),
            i <= n,
            st.total_participants == total(records.subrange(0, i as int), participants()),
            st.total_voteboxes == i,
            st.expired == total(records.subrange(0, i as int), expired_ind(*block)),
            st.active == total(records.subrange(0, i as int), active_ind(*block)),
            st.yes_won == total(records.subrange(0, i as int), won_ind(*block, WINNER_YES)),
            st.no_won == total(records.subrange(0, i as int), won_ind(*block, WINNER_NO)),
            st.abstain_won == total(records.subrange(0, i as int), won_ind(*block, WINNER_ABSTAIN)),
            st.no_veto_won == total(
                records.subrange(0, i as int),
                won_ind(*block, WINNER_NO_WITH_VETO),
            ),
            st.total_yes_count == total(records.subrange(0, i as int), count_ind(VoteKind::Yes)),
            st.total_no_count == total(records.subrange(0, i as int), count_ind(VoteKind::No)),
            st.total_abstain_count == total(
                records.subrange(0, i as int),
                count_ind(VoteKind::Abstain),
            ),
            st.total_no_veto_count == total(
                records.subrange(0, i as int),
                count_ind(VoteKind::NoWithVeto),
            ),
            st.total_participants == st.total_yes_count + st.total_no_count
                + st.total_abstain_count + st.total_no_veto_count,
            st.expired + st.active == i,
            st.yes_won + st.no_won + st.abstain_won + st.no_veto_won <= st.expired,
        decreases n - i,
    {
        proof {
            lemma_prefix_step(records, i as int);
        }
        let cur = store.record(i);
        assert(records[i as int].well_formed());
        let p = cur.yes_count + cur.no_count + cur.abstain_count + cur.no_with_veto_count;
        st.total_participants = match st.total_participants.checked_add(p) {
            None => {
                proof {
                    lemma_total_prefix(records, participants(), i + 1);
                }
                return Err(ContractError::Overflow);
            },
            Some(t) => t,
        };
        st.total_yes_count = st.total_yes_count + cur.yes_count;
        st.total_no_count = st.total_no_count + cur.no_count;
        st.total_abstain_count = st.total_abstain_count + cur.abstain_count;
        st.total_no_veto_count = st.total_no_veto_count + cur.no_with_veto_count;
        st.total_voteboxes = st.total_voteboxes + 1;
        if cur.deadline.is_triggered(block) {
            st.expired = st.expired + 1;
            let w = get_winner(cur);
            if w == WINNER_YES {
                st.yes_won = st.yes_won + 1;
            } else if w == WINNER_NO {
                st.no_won = st.no_won + 1;
            } else if w == WINNER_ABSTAIN {
                st.abstain_won = st.abstain_won + 1;
            } else if w == WINNER_NO_WITH_VETO {
                st.no_veto_won = st.no_veto_won + 1;
            }
        } else {
            st.active = st.active + 1;
        }
        i = i + 1;
    }
    assert(records.subrange(0, n as int) =~= records);
    Ok(st)
}

/// The vote boxes owned by `owner`, in ascending id order.
pub fn query_voteboxes_by_owner(store: &VoteStore, owner: String) -> (r: VoteBoxListResponse)
    requires
        store.wf(),
    ensures
        describes_all(r.voteList@, select(store@.records, owned_by(owner@))),
{
    let ghost records = store@.records;
    let n = store.len();
    let mut out: Vec<VoteResponse> = Vec::new();
    let mut i: usize = 0;
    while i < n
        invariant
            records == store@.records,
            n == records.len(),
            i <= n,
            describes_all(out@, select(records.subrange(0, i as int), owned_by(owner@))),
        decreases n - i,
    {
        proof {
            lemma_prefix_step(records, i as int);
        }
        let cur = store.record(i);
        if cur.owner == owner {
            out.push(VoteResponse::from_vote(cur));
        }
        i = i + 1;
    }
    assert(records.subrange(0, n as int) =~= records);
    VoteBoxListResponse { voteList: out }
}

/// The vote boxes whose topic contains `topic`, in ascending id order.
pub fn query_votebox_topics(store: &VoteStore, topic: &str) -> (r: VoteBoxListResponse)
    requires
        store.wf(),
    ensures
        describes_all(r.voteList@, select(store@.records, topic_has(topic@))),
{
    let ghost records = store@.records;
    let n = store.len();
    let mut out: Vec<VoteResponse> = Vec::new();
    let mut i: usize = 0;
    while i < n
        invariant
            records == store@.records,
            n == records.len(),
            i <= n,
            describes_all(out@, select(records.subrange(0, i as int), topic_has(topic@))),
        decreases n - i,
    {
        proof {
            lemma_prefix_step(records, i as int);
        }
        let cur = store.record(i);
        if str_contains(cur.topic.as_str(), topic) {
            out.push(VoteResponse::from_vote(cur));
        }
        i = i + 1;
    }
    assert(records.subrange(0, n as int) =~= records);
    VoteBoxListResponse { voteList: out }
}

} // verus!
