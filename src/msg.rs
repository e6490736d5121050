use vstd::prelude::*;
use crate::state::{opt_view, Deadline, Vote, VoteModel};

verus! {

#[derive(Clone, Copy, Debug, PartialEq, Eq, Structural)]
pub struct InstantiateMsg {}

#[derive(Clone, Debug, PartialEq, Eq)]
#[allow(non_camel_case_types)]
pub enum ExecuteMsg {
    create_vote_box {
        deadline: Deadline,
        owner: String,
        topic: String,
        description: String,
        create_date: String,
        native_denom: Option<String>,
    },
    vote { id: u64, vote_type: i32 },
    vote_reset { id: u64 },
    vote_remove { id: u64 },
    deposit { id: u64 },
    claim { id: u64 },
}

#[derive(Clone, Debug, PartialEq, Eq)]
#[allow(non_camel_case_types)]
pub enum QueryMsg {
    query_vote { id: u64 },
    get_list { start_after: Option<u64>, limit: Option<u32> },
    get_votebox_count {},
    get_vbop_count {},
    get_voteboxes_by_owner { owner: String },
    get_voteboxes_by_topic { topic: String },
    get_statistics {},
}

/// An amount of one token.
#[derive(Clone, Debug, PartialEq, Eq)]
pub struct Coin {
    pub denom: String,
    pub amount: u128,
}

/// Who calls, and what they sent along.
#[derive(Clone, Debug, PartialEq, Eq)]
pub struct MessageInfo {
    pub sender: String,
    pub funds: Vec<Coin>,
}

/// A request to send `amount` of `denom` to `to_address`.
#[derive(Clone, Debug, PartialEq, Eq)]
pub struct Transfer {
    pub to_address: String,
    pub denom: String,
    pub amount: u128,
}

/// The four counters of a vote box.
#[derive(Clone, Copy, Debug, PartialEq, Eq, Structural)]
pub struct Tally {
    pub yes_count: u128,
    pub no_count: u128,
    pub abstain_count: u128,
    pub no_with_veto_count: u128,
}

pub open spec fn tally_of(v: VoteModel) -> Tally {
    Tally {
        yes_count: v.yes_count,
        no_count: v.no_count,
        abstain_count: v.abstain_count,
        no_with_veto_count: v.no_with_veto_count,
    }
}

#[derive(Clone, Copy, Debug, PartialEq, Eq, Structural)]
pub struct VoteboxStatistics {
    pub total_participants: u128,
    pub total_voteboxes: u128,
    pub expired: u128,
    pub active: u128,
    pub yes_won: u128,
    pub no_won: u128,
    pub abstain_won: u128,
    pub no_veto_won: u128,
    pub total_yes_count: u128,
    pub total_no_count: u128,
    pub total_abstain_count: u128,
    pub total_no_veto_count: u128,
}

/// The public face of a vote box: everything but the voter list.
#[derive(Clone, Debug, PartialEq, Eq)]
pub struct VoteResponse {
    pub id: u64,
    pub yes_count: u128,
    pub no_count: u128,
    pub abstain_count: u128,
    pub no_with_veto_count: u128,
    pub deadline: Deadline,
    pub owner: String,
    pub topic: String,
    pub description: String,
    pub create_date: String,
    pub native_denom: Option<String>,
    pub total_amount: u128,
}

/// `r` shows the record `v`.
pub open spec fn describes(r: VoteResponse, v: VoteModel) -> bool {
    &&& r.id == v.id
    &&& r.yes_count == v.yes_count
    &&& r.no_count == v.no_count
    &&& r.abstain_count == v.abstain_count
    &&& r.no_with_veto_count == v.no_with_veto_count
    &&& r.deadline == v.deadline
    &&& r.owner@ == v.owner
    &&& r.topic@ == v.topic
    &&& r.description@ == v.description
    &&& r.create_date@ == v.create_date
    &&& opt_view(r.native_denom) == v.native_denom
    &&& r.total_amount == v.total_amount
}

/// The responses `rs` show the records `vs`, one for one and in order.
pub open spec fn describes_all(rs: Seq<VoteResponse>, vs: Seq<VoteModel>) -> bool {
    &&& rs.len() == vs.len()
    &&& forall|i: int| 0 <= i < rs.len() ==> describes(#[trigger] rs[i], vs[i])
}

fn clone_opt(o: &Option<String>) -> (r: Option<String>)
    ensures
        opt_view(r) == opt_view(*o),
{
    match o {
        Some(s) => Some(s.clone()),
        None => None,
    }
}

impl VoteResponse {
    pub fn from_vote(v: &Vote) -> (r: VoteResponse)
        ensures
            describes(r, v@),
    {
        VoteResponse {
            id: v.id,
            yes_count: v.yes_count,
            no_count: v.no_count,
            abstain_count: v.abstain_count,
            no_with_veto_count: v.no_with_veto_count,
            deadline: v.deadline,
            owner: v.owner.clone(),
            topic: v.topic.clone(),
            description: v.description.clone(),
            create_date: v.create_date.clone(),
            native_denom: clone_opt(&v.native_denom),
            total_amount: v.total_amount,
        }
    }
}

#[derive(Clone, Copy, Debug, PartialEq, Eq, Structural)]
pub struct VBCountResponse {
    pub count: u64,
}

#[derive(Clone, Debug, PartialEq, Eq)]
#[allow(non_snake_case)]
pub struct VoteBoxListResponse {
    pub voteList: Vec<VoteResponse>,
}

#[derive(Clone, Copy, Debug, PartialEq, Eq, Structural)]
pub struct VBOCResponse {
    pub open: u64,
    pub closed: u64,
}

} // verus!
