use vstd::prelude::*;
use crate::contract::{
    cast_spec, claim_outcome, create_outcome, deposit_outcome, first_coin, fresh_record, lemma_cast_well_formed,
    lemma_strike_well_formed, lemma_with_new_valid, remove_outcome, reset_outcome, vote_outcome,
    voter_index, zeroed,
};
use crate::error::ContractError;
use crate::msg::Coin;
use crate::state::{BlockTime, Deadline, StoreModel, VoteModel};

verus! {

/// A mutating operation on the registry, with its arguments as plain values.
pub enum Op {
    Create {
        deadline: Deadline,
        owner: Seq<char>,
        owner_accepted: bool,
        topic: Seq<char>,
        description: Seq<char>,
        create_date: Seq<char>,
        native_denom: Option<Seq<char>>,
    },
    Vote { block: BlockTime, voter: Seq<char>, id: u64, vote_type: i32 },
    Reset { block: BlockTime, caller: Seq<char>, id: u64 },
    Remove { block: BlockTime, caller: Seq<char>, id: u64 },
    Deposit { block: BlockTime, sender: Seq<char>, funds: Seq<Coin>, id: u64 },
    Claim { block: BlockTime, claimant: Seq<char>, id: u64, balance: u128 },
}

/// The registry an outcome leaves behind: the new one on success, `s` on failure.
pub open spec fn after<T>(s: StoreModel, outcome: Result<(StoreModel, T), ContractError>) -> StoreModel {
    match outcome {
        Ok((t, _)) => t,
        Err(_) => s,
    }
}

/// The registry after `op`.
pub open spec fn step(s: StoreModel, op: Op) -> StoreModel {
    match op {
        Op::Create {
            deadline,
            owner,
            owner_accepted,
            topic,
            description,
            create_date,
            native_denom,
        } => after(
            s,
            create_outcome(
                s,
                deadline,
                owner,
                owner_accepted,
                topic,
                description,
                create_date,
                native_denom,
            ),
        ),
        Op::Vote { block, voter, id, vote_type } => after(
            s,
            vote_outcome(s, block, voter, id, vote_type),
        ),
        Op::Reset { block, caller, id } => after(s, reset_outcome(s, block, caller, id)),
        Op::Remove { block, caller, id } => after(s, remove_outcome(s, block, caller, id)),
        Op::Deposit { block, sender, funds, id } => after(
            s,
            deposit_outcome(s, block, sender, funds, id),
        ),
        Op::Claim { block, claimant, id, balance } => after(
            s,
            claim_outcome(s, block, claimant, id, balance),
        ),
    }
}

/// The id that `op` issues: that of a successful creation.
pub open spec fn issued(s: StoreModel, op: Op) -> Option<u64> {
    match op {
        Op::Create {
            deadline,
            owner,
            owner_accepted,
            topic,
            description,
            create_date,
            native_denom,
        } => match create_outcome(
            s,
            deadline,
            owner,
            owner_accepted,
            topic,
            description,
            create_date,
            native_denom,
        ) {
            Ok((_, id)) => Some(id),
            Err(_) => None,
        },
        _ => None,
    }
}

/// `states` is a run of `ops` from a valid registry.
pub open spec fn is_run(states: Seq<StoreModel>, ops: Seq<Op>) -> bool {
    &&& states.len() == ops.len() + 1
    &&& states[0].valid()
    &&& forall|k: int| 0 <= k < ops.len() ==> #[trigger] states[k + 1] == step(states[k], ops[k])
}

/// Every operation keeps the registry valid, never lowers the sequence, and
/// a creation issues exactly the next sequence value, an id that no live
/// vote box holds.
pub proof fn lemma_step(s: StoreModel, op: Op)
    requires
        s.valid(),
    ensures
        step(s, op).valid(),
        step(s, op).seq >= s.seq,
        issued(s, op) is Some ==> issued(s, op)->Some_0 == s.seq + 1 && step(s, op).seq
            == s.seq + 1 && !s.contains(issued(s, op)->Some_0),
        !(op is Create) ==> step(s, op).seq == s.seq,
{
    match op {
        Op::Create {
            deadline,
            owner,
            owner_accepted,
            topic,
            description,
            create_date,
            native_denom,
        } => {
            if owner_accepted && s.seq < u64::MAX {
                let id = (s.seq + 1) as u64;
                let v = fresh_record(id, deadline, owner, topic, description, create_date, native_denom);
                lemma_with_new_valid(s, v);
            }
        },
        Op::Vote { block, voter, id, vote_type } => {
            if let Some(v) = s.lookup(id) {
                if cast_spec(v, block, voter, vote_type) is Ok {
                    assert(v.well_formed());
                    lemma_cast_well_formed(v, block, voter, vote_type);
                    s.lemma_put(s.index_of(id), cast_spec(v, block, voter, vote_type)->Ok_0);
                }
            }
        },
        Op::Reset { block, caller, id } => {
            if let Some(v) = s.lookup(id) {
                assert(v.well_formed());
                s.lemma_put(s.index_of(id), zeroed(v));
            }
        },
        Op::Remove { block, caller, id } => {
            if s.contains(id) {
                s.lemma_without(id);
            }
        },
        Op::Deposit { block, sender, funds, id } => {
            if let Some(v) = s.lookup(id) {
                assert(v.well_formed());
                if let Some(d) = v.native_denom {
                    let total = v.total_amount + funds[first_coin(funds, d)].amount;
                    if total <= u128::MAX {
                        s.lemma_put(s.index_of(id), VoteModel { total_amount: total as u128, ..v });
                    }
                }
            }
        },
        Op::Claim { block, claimant, id, balance } => {
            if let Some(v) = s.lookup(id) {
                assert(v.well_formed());
                if v.voters.contains(claimant) {
                    lemma_strike_well_formed(v, claimant);
                    s.lemma_put(
                        s.index_of(id),
                        VoteModel { voters: v.voters.remove(voter_index(v.voters, claimant)), ..v },
                    );
                }
            }
        },
    }
}

} // verus!

verus! {

/// Every registry of a run is valid, and the sequence never goes down.
pub proof fn lemma_run(states: Seq<StoreModel>, ops: Seq<Op>, n: int)
    requires
        is_run(states, ops),
        0 <= n <= ops.len(),
    ensures
        forall|k: int| 0 <= k <= n ==> (#[trigger] states[k]).valid(),
        forall|a: int, b: int| 0 <= a <= b <= n ==> #[trigger] states[a].seq <= #[trigger] states[b].seq,
    decreases n,
{
    if n > 0 {
        lemma_run(states, ops, n - 1);
        let k = n - 1;
        assert(states[k + 1] == step(states[k], ops[k]));
        lemma_step(states[n - 1], ops[n - 1]);
    }
}

/// Over any run of operations, removals included, the ids that creations
/// issue are strictly increasing, so none is issued twice, and none is the
/// id of a vote box alive at the time.
pub proof fn lemma_ids_increase(states: Seq<StoreModel>, ops: Seq<Op>)
    requires
        is_run(states, ops),
    ensures
        forall|i: int, j: int|
            0 <= i < j < ops.len() && (#[trigger] issued(states[i], ops[i])) is Some && (#[trigger] issued(
                states[j],
                ops[j],
            )) is Some ==> issued(states[i], ops[i])->Some_0 < issued(states[j], ops[j])->Some_0,
        forall|k: int|
            0 <= k < ops.len() && (#[trigger] issued(states[k], ops[k])) is Some ==> !states[k].contains(
                issued(states[k], ops[k])->Some_0,
            ),
{
    lemma_run(states, ops, ops.len() as int);
    assert forall|i: int, j: int|
        0 <= i < j < ops.len() && (#[trigger] issued(states[i], ops[i])) is Some && (#[trigger] issued(
            states[j],
            ops[j],
        )) is Some implies issued(states[i], ops[i])->Some_0 < issued(states[j], ops[j])->Some_0 by {
        assert(states[i + 1] == step(states[i], ops[i]));
        lemma_step(states[i], ops[i]);
        lemma_step(states[j], ops[j]);
        assert(states[i + 1].seq <= states[j].seq);
    }
    assert forall|k: int|
        0 <= k < ops.len() && (#[trigger] issued(states[k], ops[k])) is Some implies !states[k].contains(
            issued(states[k], ops[k])->Some_0,
        ) by {
        lemma_step(states[k], ops[k]);
    }
}

/// The counters of every vote box add up to its ballot count.
pub open spec fn all_balanced(s: StoreModel) -> bool {
    forall|i: int| 0 <= i < s.records.len() ==> (#[trigger] s.records[i]).balanced()
}

/// Every operation but a reset keeps the four counters of every vote box
/// adding up to its ballot count. (A reset zeroes the counters and keeps the
/// ballot count, by design.)
pub proof fn lemma_balanced_step(s: StoreModel, op: Op)
    requires
        s.valid(),
        all_balanced(s),
        !(op is Reset),
    ensures
        all_balanced(step(s, op)),
{
    let t = step(s, op);
    match op {
        Op::Create {
            deadline,
            owner,
            owner_accepted,
            topic,
            description,
            create_date,
            native_denom,
        } => {
            assert forall|i: int| 0 <= i < t.records.len() implies (#[trigger] t.records[i]).balanced() by {
                if i < s.records.len() {
                    assert(t.records[i] == s.records[i]);
                }
            }
        },
        Op::Vote { block, voter, id, vote_type } => {
            if let Some(v) = s.lookup(id) {
                if cast_spec(v, block, voter, vote_type) is Ok {
                    assert(v.balanced());
                    lemma_cast_well_formed(v, block, voter, vote_type);
                    s.lemma_put(s.index_of(id), cast_spec(v, block, voter, vote_type)->Ok_0);
                    assert forall|i: int| 0 <= i < t.records.len() implies (
                    #[trigger] t.records[i]).balanced() by {
                        if i != s.index_of(id) {
                            assert(t.records[i] == s.records[i]);
                        }
                    }
                }
            }
        },
        Op::Reset { .. } => {},
        Op::Remove { block, caller, id } => {
            if s.contains(id) {
                let k = s.index_of(id);
                assert forall|i: int| 0 <= i < t.records.len() implies (
                #[trigger] t.records[i]).balanced() by {
                    if t != s {
                        let oi = if i < k { i } else { i + 1 };
                        assert(t.records[i] == s.records[oi]);
                    }
                }
            }
        },
        Op::Deposit { block, sender, funds, id } => {
            if let Some(v) = s.lookup(id) {
                assert(v.balanced());
                if let Some(d) = v.native_denom {
                    let total = v.total_amount + funds[first_coin(funds, d)].amount;
                    if total <= u128::MAX {
                        s.lemma_put(s.index_of(id), VoteModel { total_amount: total as u128, ..v });
                    }
                }
                assert forall|i: int| 0 <= i < t.records.len() implies (
                #[trigger] t.records[i]).balanced() by {
                    if i != s.index_of(id) {
                        assert(t.records[i] == s.records[i]);
                    }
                }
            }
        },
        Op::Claim { block, claimant, id, balance } => {
            if let Some(v) = s.lookup(id) {
                assert(v.balanced());
                if v.voters.contains(claimant) {
                    lemma_strike_well_formed(v, claimant);
                    s.lemma_put(
                        s.index_of(id),
                        VoteModel { voters: v.voters.remove(voter_index(v.voters, claimant)), ..v },
                    );
                }
                assert forall|i: int| 0 <= i < t.records.len() implies (
                #[trigger] t.records[i]).balanced() by {
                    if i != s.index_of(id) {
                        assert(t.records[i] == s.records[i]);
                    }
                }
            }
        },
    }
}

/// Over any run without resets that starts with balanced counters, every
/// vote box at every point has counters adding up to its ballot count.
pub proof fn lemma_balanced_run(states: Seq<StoreModel>, ops: Seq<Op>)
    requires
        is_run(states, ops),
        all_balanced(states[0]),
        forall|k: int| 0 <= k < ops.len() ==> !(#[trigger] ops[k] is Reset),
    ensures
        forall|k: int| 0 <= k < states.len() ==> all_balanced(#[trigger] states[k]),
{
    lemma_run(states, ops, ops.len() as int);
    lemma_balanced_prefix(states, ops, ops.len() as int);
}

proof fn lemma_balanced_prefix(states: Seq<StoreModel>, ops: Seq<Op>, n: int)
    requires
        is_run(states, ops),
        all_balanced(states[0]),
        forall|k: int| 0 <= k < ops.len() ==> !(#[trigger] ops[k] is Reset),
        forall|k: int| 0 <= k < states.len() ==> (#[trigger] states[k]).valid(),
        0 <= n <= ops.len(),
    ensures
        forall|k: int| 0 <= k <= n ==> all_balanced(#[trigger] states[k]),
    decreases n,
{
    if n > 0 {
        lemma_balanced_prefix(states, ops, n - 1);
        let k = n - 1;
        assert(states[k + 1] == step(states[k], ops[k]));
        assert(!(ops[n - 1] is Reset));
        assert(states[n - 1].valid());
        lemma_balanced_step(states[n - 1], ops[n - 1]);
    }
}

} // verus!

verus! {

/// An address recorded as a voter of a vote box cannot vote there again,
/// whatever the ballot: the vote box has expired, or the address is a
/// duplicate voter; either way nothing changes.
pub proof fn lemma_recorded_voter_refused(
    s: StoreModel,
    block: BlockTime,
    voter: Seq<char>,
    id: u64,
    vote_type: i32,
)
    requires
        s.lookup(id) is Some,
        s.lookup(id)->Some_0.voters.contains(voter),
    ensures
        vote_outcome(s, block, voter, id, vote_type) == if s.lookup(id)->Some_0.deadline.triggered(
            block,
        ) {
            Err::<(StoreModel, crate::msg::Tally), ContractError>(ContractError::Expired)
        } else {
            Err::<(StoreModel, crate::msg::Tally), ContractError>(ContractError::DuplicateVoter)
        },
        step(s, Op::Vote { block, voter, id, vote_type }) == s,
{
}

/// After a successful ballot, the voter is recorded in that vote box.
pub proof fn lemma_vote_records_voter(
    s: StoreModel,
    block: BlockTime,
    voter: Seq<char>,
    id: u64,
    vote_type: i32,
)
    requires
        s.valid(),
        vote_outcome(s, block, voter, id, vote_type) is Ok,
    ensures
        step(s, Op::Vote { block, voter, id, vote_type }).lookup(id) is Some,
        step(s, Op::Vote { block, voter, id, vote_type }).lookup(id)->Some_0.voters.contains(voter),
{
    let v = s.lookup(id)->Some_0;
    let k = s.index_of(id);
    assert(v.well_formed());
    lemma_cast_well_formed(v, block, voter, vote_type);
    let nv = cast_spec(v, block, voter, vote_type)->Ok_0;
    s.lemma_put(k, nv);
    let t = s.put(nv);
    t.lemma_index_of(k);
    assert(nv.voters[nv.voters.len() - 1] == voter);
}

/// A ballot succeeds at most once per vote box and address: right after a
/// successful ballot, a second one from the same address fails, whatever
/// its category and whenever it comes.
pub proof fn lemma_vote_once(
    s: StoreModel,
    b1: BlockTime,
    b2: BlockTime,
    voter: Seq<char>,
    id: u64,
    t1: i32,
    t2: i32,
)
    requires
        s.valid(),
        vote_outcome(s, b1, voter, id, t1) is Ok,
    ensures
        ({
            let s1 = step(s, Op::Vote { block: b1, voter, id, vote_type: t1 });
            &&& vote_outcome(s1, b2, voter, id, t2) is Err
            &&& !s.lookup(id)->Some_0.deadline.triggered(b2) ==> vote_outcome(s1, b2, voter, id, t2)
                == Err::<(StoreModel, crate::msg::Tally), ContractError>(
                ContractError::DuplicateVoter,
            )
        }),
{
    let s1 = step(s, Op::Vote { block: b1, voter, id, vote_type: t1 });
    lemma_vote_records_voter(s, b1, voter, id, t1);
    let v = s.lookup(id)->Some_0;
    let nv = cast_spec(v, b1, voter, t1)->Ok_0;
    lemma_cast_well_formed(v, b1, voter, t1);
    s.lemma_put(s.index_of(id), nv);
    s1.lemma_index_of(s.index_of(id));
    lemma_recorded_voter_refused(s1, b2, voter, id, t2);
}

/// A reset keeps every recorded voter recorded, so a voter that voted before
/// a reset still cannot vote again.
pub proof fn lemma_reset_keeps_voters(s: StoreModel, block: BlockTime, caller: Seq<char>, id: u64)
    requires
        s.valid(),
    ensures
        s.lookup(id) is Some ==> step(s, Op::Reset { block, caller, id }).lookup(id) is Some && step(
            s,
            Op::Reset { block, caller, id },
        ).lookup(id)->Some_0.voters == s.lookup(id)->Some_0.voters,
{
    if let Some(v) = s.lookup(id) {
        let k = s.index_of(id);
        assert(v.well_formed());
        s.lemma_put(k, zeroed(v));
        s.lemma_index_of(k);
        step(s, Op::Reset { block, caller, id }).lemma_index_of(k);
    }
}

/// Once the deadline of a vote box has been reached, ballots, resets,
/// removals and deposits on it change nothing; they fail with `Expired`,
/// except that a reset, a removal or a deposit by someone other than the
/// owner fails earlier with `Unauthorized`.
pub proof fn lemma_expired_frozen(s: StoreModel, op: Op)
    ensures
        match op {
            Op::Vote { block, voter, id, vote_type } => s.lookup(id) is Some && s.lookup(
                id,
            )->Some_0.deadline.triggered(block) ==> step(s, op) == s && vote_outcome(
                s,
                block,
                voter,
                id,
                vote_type,
            ) == Err::<(StoreModel, crate::msg::Tally), ContractError>(ContractError::Expired),
            Op::Reset { block, caller, id } => s.lookup(id) is Some && s.lookup(
                id,
            )->Some_0.deadline.triggered(block) ==> step(s, op) == s && (caller == s.lookup(
                id,
            )->Some_0.owner ==> reset_outcome(s, block, caller, id) == Err::<
                (StoreModel, crate::msg::Tally),
                ContractError,
            >(ContractError::Expired)),
            Op::Remove { block, caller, id } => s.lookup(id) is Some && s.lookup(
                id,
            )->Some_0.deadline.triggered(block) ==> step(s, op) == s && (caller == s.lookup(
                id,
            )->Some_0.owner ==> remove_outcome(s, block, caller, id) == Err::<
                (StoreModel, ()),
                ContractError,
            >(ContractError::Expired)),
            Op::Deposit { block, sender, funds, id } => s.lookup(id) is Some && s.lookup(
                id,
            )->Some_0.deadline.triggered(block) ==> step(s, op) == s && (sender == s.lookup(
                id,
            )->Some_0.owner ==> deposit_outcome(s, block, sender, funds, id) == Err::<
                (StoreModel, u128),
                ContractError,
            >(ContractError::Expired)),
            _ => true,
        },
{
}

/// Before the deadline a claim fails with `Unexpired`; after it, on a vote
/// box with escrow, a claim by an address that is not a recorded voter fails
/// with `Unauthorized`. Neither touches the pool or the voters.
pub proof fn lemma_claim_guards(
    s: StoreModel,
    block: BlockTime,
    claimant: Seq<char>,
    id: u64,
    balance: u128,
)
    requires
        s.lookup(id) is Some,
    ensures
        ({
            let v = s.lookup(id)->Some_0;
            let o = claim_outcome(s, block, claimant, id, balance);
            &&& !v.deadline.triggered(block) ==> o == Err::<
                (StoreModel, (Seq<char>, Seq<char>, u128)),
                ContractError,
            >(ContractError::Unexpired)
            &&& v.deadline.triggered(block) && v.native_denom is Some && !v.voters.contains(claimant)
                ==> o == Err::<(StoreModel, (Seq<char>, Seq<char>, u128)), ContractError>(
                ContractError::Unauthorized,
            )
            &&& o is Err ==> step(s, Op::Claim { block, claimant, id, balance }) == s
        }),
{
}

} // verus!

verus! {

/// The block at which `op` runs; a creation reads no clock.
pub open spec fn op_block(op: Op) -> Option<BlockTime> {
    match op {
        Op::Create { .. } => None,
        Op::Vote { block, .. } => Some(block),
        Op::Reset { block, .. } => Some(block),
        Op::Remove { block, .. } => Some(block),
        Op::Deposit { block, .. } => Some(block),
        Op::Claim { block, .. } => Some(block),
    }
}

/// Neither the height nor the time goes back from `a` to `b`.
pub open spec fn not_before(a: BlockTime, b: BlockTime) -> bool {
    a.height <= b.height && a.time_nanos <= b.time_nanos
}

/// The operations of `ops` run at blocks that never go back.
pub open spec fn clock_monotone(ops: Seq<Op>) -> bool {
    forall|i: int, j: int|
        0 <= i < j < ops.len() && (#[trigger] op_block(ops[i])) is Some && (#[trigger] op_block(
            ops[j],
        )) is Some ==> not_before(op_block(ops[i])->Some_0, op_block(ops[j])->Some_0)
}

/// `op` is a successful ballot from `voter` in vote box `id`.
pub open spec fn is_ballot(s: StoreModel, op: Op, id: u64, voter: Seq<char>) -> bool {
    match op {
        Op::Vote { block, voter: w, id: i, vote_type } => w == voter && i == id && vote_outcome(
            s,
            block,
            voter,
            id,
            vote_type,
        ) is Ok,
        _ => false,
    }
}

/// `voter` can no longer vote in vote box `id`: the id was issued, and the
/// box is gone, or records the voter, or had expired at one of the blocks of
/// `ops` before `k`.
pub open spec fn locked_out(s: StoreModel, id: u64, voter: Seq<char>, ops: Seq<Op>, k: int) -> bool {
    &&& s.seq >= id
    &&& s.lookup(id) is Some ==> s.lookup(id)->Some_0.voters.contains(voter) || exists|m: int|
        0 <= m < k && (#[trigger] op_block(ops[m])) is Some && s.lookup(
            id,
        )->Some_0.deadline.triggered(op_block(ops[m])->Some_0)
}

proof fn lemma_locked_refuses(s: StoreModel, id: u64, voter: Seq<char>, ops: Seq<Op>, k: int)
    requires
        locked_out(s, id, voter, ops, k),
        clock_monotone(ops),
        0 <= k < ops.len(),
    ensures
        !is_ballot(s, ops[k], id, voter),
{
    if let Op::Vote { block, voter: w, id: i, vote_type } = ops[k] {
        if w == voter && i == id {
            if let Some(v) = s.lookup(id) {
                if !v.voters.contains(voter) {
                    let m = choose|m: int|
                        0 <= m < k && (#[trigger] op_block(ops[m])) is Some
                            && v.deadline.triggered(op_block(ops[m])->Some_0);
                    assert(op_block(ops[k]) == Some(block));
                    assert(not_before(op_block(ops[m])->Some_0, block));
                }
            }
        }
    }
}

proof fn lemma_locked_step(s: StoreModel, id: u64, voter: Seq<char>, ops: Seq<Op>, k: int)
    requires
        s.valid(),
        locked_out(s, id, voter, ops, k),
        0 <= k < ops.len(),
    ensures
        locked_out(step(s, ops[k]), id, voter, ops, k + 1),
{
    let op = ops[k];
    let t = step(s, op);
    lemma_step(s, op);
    let old_v = s.lookup(id);
    // The vote box of `id` keeps its deadline, and keeps `voter` unless a
    // claim at the block of `ops[k]` strikes it.
    match op {
        Op::Create {
            deadline,
            owner,
            owner_accepted,
            topic,
            description,
            create_date,
            native_denom,
        } => {
            if owner_accepted && s.seq < u64::MAX {
                let nid = (s.seq + 1) as u64;
                let v = fresh_record(nid, deadline, owner, topic, description, create_date, native_denom);
                s.lemma_lookup_with_new(v, id);
            }
        },
        Op::Vote { block, voter: w, id: i, vote_type } => {
            if let Some(v) = s.lookup(i) {
                if cast_spec(v, block, w, vote_type) is Ok {
                    assert(v.well_formed());
                    lemma_cast_well_formed(v, block, w, vote_type);
                    let nv = cast_spec(v, block, w, vote_type)->Ok_0;
                    s.lemma_lookup_put(nv, id);
                    if i == id && v.voters.contains(voter) {
                        let j = choose|j: int| 0 <= j < v.voters.len() && v.voters[j] == voter;
                        assert(nv.voters[j] == voter);
                    }
                }
            }
        },
        Op::Reset { block, caller, id: i } => {
            if let Some(v) = s.lookup(i) {
                assert(v.well_formed());
                s.lemma_lookup_put(zeroed(v), id);
            }
        },
        Op::Remove { block, caller, id: i } => {
            if s.contains(i) {
                s.lemma_lookup_without(i, id);
            }
        },
        Op::Deposit { block, sender, funds, id: i } => {
            if let Some(v) = s.lookup(i) {
                assert(v.well_formed());
                if let Some(d) = v.native_denom {
                    let total = v.total_amount + funds[first_coin(funds, d)].amount;
                    if total <= u128::MAX {
                        s.lemma_lookup_put(VoteModel { total_amount: total as u128, ..v }, id);
                    }
                }
            }
        },
        Op::Claim { block, claimant, id: i, balance } => {
            if let Some(v) = s.lookup(i) {
                assert(v.well_formed());
                if claim_outcome(s, block, claimant, i, balance) is Ok {
                    lemma_strike_well_formed(v, claimant);
                    let x = voter_index(v.voters, claimant);
                    let nv = VoteModel { voters: v.voters.remove(x), ..v };
                    s.lemma_lookup_put(nv, id);
                    if i == id {
                        assert(op_block(ops[k]) == Some(block));
                        if v.voters.contains(voter) && voter != claimant {
                            let j = choose|j: int| 0 <= j < v.voters.len() && v.voters[j] == voter;
                            let nj = if j < x { j } else { j - 1 };
                            assert(nv.voters[nj] == voter);
                        }
                    }
                }
            }
        },
    }
    if t.lookup(id) is Some && !t.lookup(id)->Some_0.voters.contains(voter) {
        let tv = t.lookup(id)->Some_0;
        if !(op_block(ops[k]) is Some && tv.deadline.triggered(op_block(ops[k])->Some_0)) {
            let m = choose|m: int|
                0 <= m < k && (#[trigger] op_block(ops[m])) is Some && old_v->Some_0.deadline.triggered(
                    op_block(ops[m])->Some_0,
                );
            assert(0 <= m < k + 1 && op_block(ops[m]) is Some && tv.deadline.triggered(
                op_block(ops[m])->Some_0,
            ));
        }
    }
}

/// Over any run whose blocks never go back, a ballot from one address in
/// one vote box succeeds at most once, whatever resets, deposits, claims or
/// removals come in between.
pub proof fn lemma_ballot_at_most_once(
    states: Seq<StoreModel>,
    ops: Seq<Op>,
    id: u64,
    voter: Seq<char>,
)
    requires
        is_run(states, ops),
        clock_monotone(ops),
    ensures
        forall|i: int, j: int|
            0 <= i < j < ops.len() && #[trigger] is_ballot(states[i], ops[i], id, voter)
                ==> !#[trigger] is_ballot(states[j], ops[j], id, voter),
{
    lemma_run(states, ops, ops.len() as int);
    assert forall|i: int, j: int|
        0 <= i < j < ops.len() && #[trigger] is_ballot(states[i], ops[i], id, voter) implies !#[trigger] is_ballot(
            states[j],
            ops[j],
            id,
            voter,
        ) by {
        lemma_locked_after_ballot(states, ops, id, voter, i, j);
        lemma_locked_refuses(states[j], id, voter, ops, j);
    }
}

proof fn lemma_locked_after_ballot(
    states: Seq<StoreModel>,
    ops: Seq<Op>,
    id: u64,
    voter: Seq<char>,
    i: int,
    j: int,
)
    requires
        is_run(states, ops),
        forall|k: int| 0 <= k < states.len() ==> (#[trigger] states[k]).valid(),
        0 <= i < j <= ops.len(),
        is_ballot(states[i], ops[i], id, voter),
    ensures
        locked_out(states[j], id, voter, ops, j),
    decreases j - i,
{
    if j == i + 1 {
        if let Op::Vote { block, voter: w, id: x, vote_type } = ops[i] {
            assert(states[i + 1] == step(states[i], ops[i]));
            lemma_vote_records_voter(states[i], block, voter, id, vote_type);
            lemma_step(states[i], ops[i]);
            assert(states[i].contains(id));
            let k = states[i].index_of(id);
            assert(states[i].records[k].id <= states[i].seq);
        }
    } else {
        lemma_locked_after_ballot(states, ops, id, voter, i, j - 1);
        let k = j - 1;
        assert(states[k + 1] == step(states[k], ops[k]));
        lemma_locked_step(states[k], id, voter, ops, k);
    }
}

} // verus!
