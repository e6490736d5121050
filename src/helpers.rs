use vstd::prelude::*;
use crate::state::{Vote, VoteModel};

verus! {

/// Outcome codes: the ballot code of the winning category, or a tie.
pub const WINNER_NO: i32 = 0;
pub const WINNER_ABSTAIN: i32 = 1;
pub const WINNER_YES: i32 = 2;
pub const WINNER_NO_WITH_VETO: i32 = 3;
pub const WINNER_TIE: i32 = 4;

/// The category holding the strict maximum of the four counters, or a tie
/// when two or more categories share the maximum.
pub open spec fn winner_of(v: VoteModel) -> i32 {
    let (yes, no, abs, veto) = (v.yes_count, v.no_count, v.abstain_count, v.no_with_veto_count);
    if yes > no && yes > abs && yes > veto {
        WINNER_YES
    } else if no > yes && no > abs && no > veto {
        WINNER_NO
    } else if abs > yes && abs > no && abs > veto {
        WINNER_ABSTAIN
    } else if veto > yes && veto > no && veto > abs {
        WINNER_NO_WITH_VETO
    } else {
        WINNER_TIE
    }
}

pub fn get_winner(votebox: &Vote) -> (r: i32)
    ensures
        r == winner_of(votebox@),
{
    let yes = votebox.yes_count;
    let no = votebox.no_count;
    let abs = votebox.abstain_count;
    let veto = votebox.no_with_veto_count;
    if yes > no && yes > abs && yes > veto {
        WINNER_YES
    } else if no > yes && no > abs && no > veto {
        WINNER_NO
    } else if abs > yes && abs > no && abs > veto {
        WINNER_ABSTAIN
    } else if veto > yes && veto > no && veto > abs {
        WINNER_NO_WITH_VETO
    } else {
        WINNER_TIE
    }
}

} // verus!
