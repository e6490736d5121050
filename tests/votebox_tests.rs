use votebox::contract::{
    calc_amount, create_vote_box, execute_claim, execute_deposit_native, execute_vote,
    query_stats, query_vb_open_closed, query_vote, query_votebox_count, query_votebox_topics,
    query_voteboxes_by_owner, query_votelist, remove_votebox, reset,
};
use votebox::error::ContractError;
use votebox::helpers::get_winner;
use votebox::msg::{Coin, MessageInfo, Tally, Transfer};
use votebox::state::{BlockTime, Deadline, Vote, VoteStore};

fn at(height: u64) -> BlockTime {
    BlockTime { height, time_nanos: 0 }
}

fn from(sender: &str) -> MessageInfo {
    MessageInfo { sender: sender.to_string(), funds: vec![] }
}

fn paying(sender: &str, coins: &[(&str, u128)]) -> MessageInfo {
    MessageInfo {
        sender: sender.to_string(),
        funds: coins
            .iter()
            .map(|(d, a)| Coin { denom: d.to_string(), amount: *a })
            .collect(),
    }
}

fn create(store: &mut VoteStore, owner: &str, topic: &str, deadline: u64, denom: Option<&str>) -> u64 {
    create_vote_box(
        store,
        Deadline::AtHeight(deadline),
        owner.to_string(),
        true,
        topic.to_string(),
        "about it".to_string(),
        "2024-01-01".to_string(),
        denom.map(|d| d.to_string()),
    )
    .unwrap()
}

fn record(store: &VoteStore, id: u64) -> Vote {
    store.record(store.find(id).unwrap()).clone()
}

fn counts(yes: u128, no: u128, abstain: u128, veto: u128) -> Vote {
    Vote {
        id: 1,
        yes_count: yes,
        no_count: no,
        abstain_count: abstain,
        no_with_veto_count: veto,
        deadline: Deadline::AtHeight(1),
        owner: "o".to_string(),
        topic: "t".to_string(),
        description: String::new(),
        create_date: String::new(),
        total_amount: 0,
        native_denom: None,
        voters: vec![],
        voter_count: yes + no + abstain + veto,
    }
}

#[test]
fn escrow_claims_follow_formula() {
    let mut s = VoteStore::new();
    let id = create(&mut s, "owner", "pool", 10, Some("tok"));
    assert_eq!(execute_deposit_native(&mut s, &at(1), &paying("owner", &[("tok", 100)]), id), Ok(100));
    execute_vote(&mut s, &at(2), &from("alice"), id, 2).unwrap();
    execute_vote(&mut s, &at(2), &from("bob"), id, 0).unwrap();
    let first = execute_claim(&mut s, &at(20), &from("alice"), id, 100).unwrap();
    assert_eq!(
        first,
        Transfer { to_address: "alice".to_string(), denom: "tok".to_string(), amount: 50 }
    );
    // total_amount and voter_count both stay as they were: 100 / 2 again.
    let second = execute_claim(&mut s, &at(21), &from("bob"), id, 50).unwrap();
    assert_eq!(second.amount, 50);
    assert_eq!(second.to_address, "bob");
    let v = record(&s, id);
    assert!(v.voters.is_empty());
    assert_eq!(v.total_amount, 100);
    assert_eq!(v.voter_count, 2);
    assert_eq!(
        execute_claim(&mut s, &at(22), &from("alice"), id, 50),
        Err(ContractError::Unauthorized)
    );
}

#[test]
fn list_paged_walks_ids_in_order() {
    let mut s = VoteStore::new();
    for _ in 0..5 {
        create(&mut s, "o", "t", 10, None);
    }
    let page = query_votelist(&s, None, Some(2)).voteList;
    assert_eq!(page.iter().map(|r| r.id).collect::<Vec<_>>(), vec![1, 2]);
    let next = query_votelist(&s, Some(2), Some(2)).voteList;
    assert_eq!(next.iter().map(|r| r.id).collect::<Vec<_>>(), vec![3, 4]);
    let last = query_votelist(&s, Some(4), Some(2)).voteList;
    assert_eq!(last.iter().map(|r| r.id).collect::<Vec<_>>(), vec![5]);
    assert!(query_votelist(&s, Some(5), None).voteList.is_empty());
}

#[test]
fn list_paged_limits() {
    let mut s = VoteStore::new();
    for _ in 0..35 {
        create(&mut s, "o", "t", 10, None);
    }
    assert_eq!(query_votelist(&s, None, None).voteList.len(), 10);
    assert_eq!(query_votelist(&s, None, Some(100)).voteList.len(), 30);
    assert_eq!(query_votelist(&s, Some(30), Some(100)).voteList.len(), 5);
    assert_eq!(query_votelist(&s, None, Some(0)).voteList.len(), 0);
}

#[test]
fn list_paged_skips_removed_ids() {
    let mut s = VoteStore::new();
    for _ in 0..4 {
        create(&mut s, "o", "t", 10, None);
    }
    remove_votebox(&mut s, &at(1), &from("o"), 2).unwrap();
    let page = query_votelist(&s, Some(1), Some(2)).voteList;
    assert_eq!(page.iter().map(|r| r.id).collect::<Vec<_>>(), vec![3, 4]);
}

#[test]
fn winner_tie_on_shared_maximum() {
    assert_eq!(get_winner(&counts(3, 3, 1, 0)), 4);
}

#[test]
fn winner_strict_maximum() {
    assert_eq!(get_winner(&counts(5, 3, 1, 0)), 2);
    assert_eq!(get_winner(&counts(1, 3, 1, 0)), 0);
    assert_eq!(get_winner(&counts(1, 0, 2, 0)), 1);
    assert_eq!(get_winner(&counts(1, 0, 2, 7)), 3);
    assert_eq!(get_winner(&counts(0, 0, 0, 0)), 4);
    assert_eq!(get_winner(&counts(0, 0, 2, 2)), 4);
}

#[test]
fn reset_keeps_voters_locked_out() {
    let mut s = VoteStore::new();
    let id = create(&mut s, "owner", "t", 10, None);
    execute_vote(&mut s, &at(1), &from("alice"), id, 2).unwrap();
    assert_eq!(
        reset(&mut s, &at(1), &from("owner"), id),
        Ok(Tally { yes_count: 0, no_count: 0, abstain_count: 0, no_with_veto_count: 0 })
    );
    assert_eq!(
        execute_vote(&mut s, &at(1), &from("alice"), id, 2),
        Err(ContractError::DuplicateVoter)
    );
    let v = record(&s, id);
    assert_eq!(v.voter_count, 1);
    assert_eq!(v.voters, vec!["alice".to_string()]);
}

#[test]
fn ids_increase_across_removals() {
    let mut s = VoteStore::new();
    assert_eq!(create(&mut s, "o", "t", 10, None), 1);
    assert_eq!(create(&mut s, "o", "t", 10, None), 2);
    remove_votebox(&mut s, &at(1), &from("o"), 2).unwrap();
    assert_eq!(create(&mut s, "o", "t", 10, None), 3);
    remove_votebox(&mut s, &at(1), &from("o"), 3).unwrap();
    remove_votebox(&mut s, &at(1), &from("o"), 1).unwrap();
    assert_eq!(create(&mut s, "o", "t", 10, None), 4);
    assert_eq!(query_votebox_count(&s).count, 4);
    assert_eq!(s.len(), 1);
}

#[test]
fn second_ballot_refused_whatever_its_kind() {
    let mut s = VoteStore::new();
    let id = create(&mut s, "o", "t", 10, None);
    assert_eq!(
        execute_vote(&mut s, &at(1), &from("alice"), id, 3),
        Ok(Tally { yes_count: 0, no_count: 0, abstain_count: 0, no_with_veto_count: 1 })
    );
    for t in 0..4 {
        assert_eq!(
            execute_vote(&mut s, &at(1), &from("alice"), id, t),
            Err(ContractError::DuplicateVoter)
        );
    }
    assert_eq!(record(&s, id).voter_count, 1);
}

#[test]
fn counters_add_up_to_ballots() {
    let mut s = VoteStore::new();
    let id = create(&mut s, "o", "t", 10, None);
    let voters = ["a", "b", "c", "d", "e", "f"];
    for (i, v) in voters.iter().enumerate() {
        execute_vote(&mut s, &at(1), &from(v), id, (i % 4) as i32).unwrap();
    }
    let v = record(&s, id);
    assert_eq!(v.yes_count + v.no_count + v.abstain_count + v.no_with_veto_count, v.voter_count);
    assert_eq!(v.voter_count, 6);
    assert_eq!((v.no_count, v.abstain_count, v.yes_count, v.no_with_veto_count), (2, 2, 1, 1));
}

#[test]
fn expired_box_is_frozen() {
    let mut s = VoteStore::new();
    let id = create(&mut s, "owner", "t", 10, Some("tok"));
    execute_vote(&mut s, &at(3), &from("alice"), id, 1).unwrap();
    let before = record(&s, id);
    let late = at(10);
    assert_eq!(execute_vote(&mut s, &late, &from("bob"), id, 1), Err(ContractError::Expired));
    assert_eq!(reset(&mut s, &late, &from("owner"), id), Err(ContractError::Expired));
    assert_eq!(remove_votebox(&mut s, &late, &from("owner"), id), Err(ContractError::Expired));
    assert_eq!(
        execute_deposit_native(&mut s, &late, &paying("owner", &[("tok", 5)]), id),
        Err(ContractError::Expired)
    );
    assert_eq!(record(&s, id), before);
}

#[test]
fn expiry_by_time() {
    let mut s = VoteStore::new();
    let id = create_vote_box(
        &mut s,
        Deadline::AtTime(1_000),
        "o".to_string(),
        true,
        "t".to_string(),
        String::new(),
        String::new(),
        None,
    )
    .unwrap();
    let early = BlockTime { height: 100, time_nanos: 999 };
    let late = BlockTime { height: 1, time_nanos: 1_000 };
    assert!(execute_vote(&mut s, &early, &from("a"), id, 2).is_ok());
    assert_eq!(execute_vote(&mut s, &late, &from("b"), id, 2), Err(ContractError::Expired));
}

#[test]
fn claim_guards() {
    let mut s = VoteStore::new();
    let id = create(&mut s, "owner", "t", 10, Some("tok"));
    execute_deposit_native(&mut s, &at(1), &paying("owner", &[("tok", 90)]), id).unwrap();
    execute_vote(&mut s, &at(1), &from("alice"), id, 2).unwrap();
    assert_eq!(execute_claim(&mut s, &at(9), &from("alice"), id, 90), Err(ContractError::Unexpired));
    assert_eq!(execute_claim(&mut s, &at(10), &from("mallory"), id, 90), Err(ContractError::Unauthorized));
    let v = record(&s, id);
    assert_eq!(v.total_amount, 90);
    assert_eq!(v.voters, vec!["alice".to_string()]);
    assert_eq!(
        execute_claim(&mut s, &at(10), &from("alice"), id, 89),
        Err(ContractError::InsufficientBalance)
    );
    assert_eq!(execute_claim(&mut s, &at(10), &from("alice"), id, 90).unwrap().amount, 90);
}

#[test]
fn claim_on_free_poll() {
    let mut s = VoteStore::new();
    let id = create(&mut s, "owner", "t", 10, None);
    execute_vote(&mut s, &at(1), &from("alice"), id, 2).unwrap();
    assert_eq!(
        execute_claim(&mut s, &at(10), &from("alice"), id, 0),
        Err(ContractError::NoEscrowConfigured)
    );
    assert_eq!(execute_claim(&mut s, &at(10), &from("alice"), 9, 0), Err(ContractError::NotFound));
}

#[test]
fn claim_share_truncates() {
    let mut s = VoteStore::new();
    let id = create(&mut s, "owner", "t", 10, Some("tok"));
    execute_deposit_native(&mut s, &at(1), &paying("owner", &[("tok", 100)]), id).unwrap();
    for v in ["a", "b", "c"] {
        execute_vote(&mut s, &at(1), &from(v), id, 1).unwrap();
    }
    assert_eq!(calc_amount(&record(&s, id)), 33);
    assert_eq!(execute_claim(&mut s, &at(10), &from("b"), id, 1000).unwrap().amount, 33);
}

#[test]
fn deposit_errors() {
    let mut s = VoteStore::new();
    let paid = create(&mut s, "owner", "t", 10, Some("tok"));
    let free = create(&mut s, "owner", "t", 10, None);
    let b = at(1);
    assert_eq!(
        execute_deposit_native(&mut s, &b, &paying("other", &[("tok", 1)]), paid),
        Err(ContractError::Unauthorized)
    );
    assert_eq!(
        execute_deposit_native(&mut s, &b, &paying("owner", &[("tok", 1)]), free),
        Err(ContractError::NoEscrowConfigured)
    );
    assert_eq!(
        execute_deposit_native(&mut s, &b, &paying("owner", &[("juno", 1)]), paid),
        Err(ContractError::UnsupportedDenom)
    );
    assert_eq!(
        execute_deposit_native(&mut s, &b, &paying("owner", &[]), paid),
        Err(ContractError::UnsupportedDenom)
    );
    assert_eq!(
        execute_deposit_native(&mut s, &b, &paying("owner", &[("juno", 7), ("tok", 3), ("tok", 9)]), paid),
        Ok(3)
    );
    assert_eq!(
        execute_deposit_native(&mut s, &b, &paying("owner", &[("tok", u128::MAX)]), paid),
        Err(ContractError::Overflow)
    );
    assert_eq!(record(&s, paid).total_amount, 3);
    assert_eq!(
        execute_deposit_native(&mut s, &b, &paying("owner", &[("tok", 1)]), 77),
        Err(ContractError::NotFound)
    );
}

#[test]
fn vote_errors() {
    let mut s = VoteStore::new();
    let id = create(&mut s, "o", "t", 10, None);
    assert_eq!(execute_vote(&mut s, &at(1), &from("a"), 5, 2), Err(ContractError::NotFound));
    assert_eq!(execute_vote(&mut s, &at(1), &from("a"), id, 4), Err(ContractError::InvalidVote));
    assert_eq!(execute_vote(&mut s, &at(1), &from("a"), id, -1), Err(ContractError::InvalidVote));
    assert_eq!(record(&s, id).voter_count, 0);
}

#[test]
fn owner_gating() {
    let mut s = VoteStore::new();
    let id = create(&mut s, "owner", "t", 10, None);
    assert_eq!(reset(&mut s, &at(1), &from("x"), id), Err(ContractError::Unauthorized));
    assert_eq!(remove_votebox(&mut s, &at(1), &from("x"), id), Err(ContractError::Unauthorized));
    assert_eq!(reset(&mut s, &at(1), &from("owner"), 3), Err(ContractError::NotFound));
    assert_eq!(remove_votebox(&mut s, &at(1), &from("owner"), 3), Err(ContractError::NotFound));
    assert_eq!(remove_votebox(&mut s, &at(1), &from("owner"), id), Ok(()));
    assert_eq!(query_vote(&s, id), Err(ContractError::NotFound));
}

#[test]
fn create_errors() {
    let mut s = VoteStore::new();
    assert_eq!(
        create_vote_box(&mut s, Deadline::AtHeight(1), "bad".to_string(), false, String::new(), String::new(), String::new(), None),
        Err(ContractError::InvalidAddress)
    );
    assert_eq!(query_votebox_count(&s).count, 0);
    let mut full = VoteStore::from_parts(u64::MAX, vec![]).unwrap();
    assert_eq!(
        create_vote_box(&mut full, Deadline::AtHeight(1), "o".to_string(), true, String::new(), String::new(), String::new(), None),
        Err(ContractError::Overflow)
    );
}

#[test]
fn vote_overflow() {
    let mut v = counts(0, 0, 0, 0);
    v.yes_count = u128::MAX;
    v.voter_count = u128::MAX;
    let mut s = VoteStore::from_parts(1, vec![v]).unwrap();
    assert_eq!(execute_vote(&mut s, &at(0), &from("a"), 1, 2), Err(ContractError::Overflow));
    assert_eq!(execute_vote(&mut s, &at(0), &from("a"), 1, 0), Err(ContractError::Overflow));
}

#[test]
fn from_parts_checks_validity() {
    let mut a = counts(1, 0, 0, 0);
    a.id = 2;
    let mut b = counts(0, 1, 0, 0);
    b.id = 1;
    assert!(VoteStore::from_parts(2, vec![a.clone(), b.clone()]).is_none());
    assert!(VoteStore::from_parts(2, vec![b.clone(), a.clone()]).is_some());
    assert!(VoteStore::from_parts(1, vec![b.clone(), a.clone()]).is_none());
    let mut dup = counts(2, 0, 0, 0);
    dup.voters = vec!["x".to_string(), "x".to_string()];
    assert!(VoteStore::from_parts(1, vec![dup]).is_none());
    let mut over = counts(2, 0, 0, 0);
    over.voter_count = 1;
    assert!(VoteStore::from_parts(1, vec![over]).is_none());
}

#[test]
fn query_vote_shows_record() {
    let mut s = VoteStore::new();
    let id = create(&mut s, "owner", "Budget", 10, Some("tok"));
    execute_vote(&mut s, &at(1), &from("a"), id, 0).unwrap();
    let r = query_vote(&s, id).unwrap();
    assert_eq!(r.id, 1);
    assert_eq!(r.owner, "owner");
    assert_eq!(r.topic, "Budget");
    assert_eq!(r.description, "about it");
    assert_eq!(r.create_date, "2024-01-01");
    assert_eq!(r.native_denom, Some("tok".to_string()));
    assert_eq!(r.no_count, 1);
    assert_eq!(r.deadline, Deadline::AtHeight(10));
}

#[test]
fn open_closed_split() {
    let mut s = VoteStore::new();
    create(&mut s, "o", "t", 5, None);
    create(&mut s, "o", "t", 5, None);
    create(&mut s, "o", "t", 6, None);
    create(&mut s, "o", "t", 3, None);
    create(&mut s, "o", "t", 3, None);
    let r = query_vb_open_closed(&s, &at(4));
    assert_eq!((r.open, r.closed), (3, 2));
    let r = query_vb_open_closed(&s, &at(6));
    assert_eq!((r.open, r.closed), (0, 5));
}

#[test]
fn statistics_totals() {
    let mut s = VoteStore::new();
    let a = create(&mut s, "o", "t", 5, None);
    let b = create(&mut s, "o", "t", 5, None);
    let c = create(&mut s, "o", "t", 50, None);
    let t = create(&mut s, "o", "t", 5, None);
    execute_vote(&mut s, &at(1), &from("x"), a, 2).unwrap();
    execute_vote(&mut s, &at(1), &from("y"), a, 2).unwrap();
    execute_vote(&mut s, &at(1), &from("z"), a, 0).unwrap();
    execute_vote(&mut s, &at(1), &from("x"), b, 3).unwrap();
    execute_vote(&mut s, &at(1), &from("x"), c, 1).unwrap();
    execute_vote(&mut s, &at(1), &from("x"), t, 0).unwrap();
    execute_vote(&mut s, &at(1), &from("y"), t, 1).unwrap();
    let st = query_stats(&s, &at(10)).unwrap();
    assert_eq!(st.total_voteboxes, 4);
    assert_eq!(st.total_participants, 7);
    assert_eq!(st.expired, 3);
    assert_eq!(st.active, 1);
    assert_eq!(st.yes_won, 1);
    assert_eq!(st.no_veto_won, 1);
    assert_eq!(st.no_won, 0);
    assert_eq!(st.abstain_won, 0);
    assert_eq!(st.total_yes_count, 2);
    assert_eq!(st.total_no_count, 2);
    assert_eq!(st.total_abstain_count, 2);
    assert_eq!(st.total_no_veto_count, 1);
}

#[test]
fn statistics_overflow() {
    let mut v1 = counts(u128::MAX, 0, 0, 0);
    v1.id = 1;
    let mut v2 = counts(1, 0, 0, 0);
    v2.id = 2;
    let s = VoteStore::from_parts(2, vec![v1, v2]).unwrap();
    assert_eq!(query_stats(&s, &at(0)), Err(ContractError::Overflow));
}

#[test]
fn filter_by_owner_and_topic() {
    let mut s = VoteStore::new();
    create(&mut s, "ann", "City budget", 5, None);
    create(&mut s, "bob", "Park budget", 5, None);
    create(&mut s, "ann", "Parking", 5, None);
    let owned = query_voteboxes_by_owner(&s, "ann".to_string()).voteList;
    assert_eq!(owned.iter().map(|r| r.id).collect::<Vec<_>>(), vec![1, 3]);
    let park = query_votebox_topics(&s, "Park").voteList;
    assert_eq!(park.iter().map(|r| r.id).collect::<Vec<_>>(), vec![2, 3]);
    let budget = query_votebox_topics(&s, "budget").voteList;
    assert_eq!(budget.iter().map(|r| r.id).collect::<Vec<_>>(), vec![1, 2]);
    assert!(query_votebox_topics(&s, "xyz").voteList.is_empty());
    assert_eq!(query_votebox_topics(&s, "").voteList.len(), 3);
}
