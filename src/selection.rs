use vstd::prelude::*;

use crate::catalog::QuestInfo;

verus! {

/// The position navigation starts from: no selection counts as the first
/// quest of the first chain.
pub open spec fn start_of(sel: Option<(usize, usize)>) -> (usize, usize) {
    match sel {
        Some(p) => p,
        None => (0, 0),
    }
}

/// The selection after one step up. Within a chain the step goes to the
/// previous quest; from the start of a chain it goes to the last quest of
/// the previous chain (quest zero where that chain is empty or absent); the
/// first quest of the first chain stays where it is.
pub open spec fn up_of(info: QuestInfo, sel: Option<(usize, usize)>) -> (usize, usize) {
    let (c, q) = start_of(sel);
    if q > 0 {
        (c, (q - 1) as usize)
    } else if c == 0 {
        (0, 0)
    } else if c - 1 < info.num_chains() && info.chain_len(c - 1) > 0 {
        ((c - 1) as usize, (info.chain_len(c - 1) - 1) as usize)
    } else {
        ((c - 1) as usize, 0)
    }
}

/// The selection after one step down: the next quest of the same chain
/// where there is one, else quest zero of the next chain, which may lie past
/// the end of the catalog.
pub open spec fn down_of(info: QuestInfo, sel: Option<(usize, usize)>) -> (usize, usize) {
    let (c, q) = start_of(sel);
    if c < info.num_chains() && q + 1 < info.chain_len(c as int) {
        (c, (q + 1) as usize)
    } else {
        ((c + 1) as usize, 0)
    }
}

/// A step down can be represented: the chain index can still grow by one.
pub open spec fn can_move_down(sel: Option<(usize, usize)>) -> bool {
    start_of(sel).0 < usize::MAX
}

/// Computes the selection after one step up.
pub fn move_up(info: &QuestInfo, sel: Option<(usize, usize)>) -> (r: (usize, usize))
    ensures
        r == up_of(*info, sel),
{
    let (c, q) = match sel {
        Some(p) => p,
        None => (0, 0),
    };
    if q > 0 {
        (c, q - 1)
    } else if c == 0 {
        (0, 0)
    } else if c - 1 < info.chains.len() && info.chains[c - 1].quests.len() > 0 {
        (c - 1, info.chains[c - 1].quests.len() - 1)
    } else {
        (c - 1, 0)
    }
}

/// Computes the selection after one step down.
pub fn move_down(info: &QuestInfo, sel: Option<(usize, usize)>) -> (r: (usize, usize))
    requires
        can_move_down(sel),
    ensures
        r == down_of(*info, sel),
{
    let (c, q) = match sel {
        Some(p) => p,
        None => (0, 0),
    };
    if c < info.chains.len() && info.chains[c].quests.len() > 0 && q < info.chains[c].quests.len()
        - 1 {
        (c, q + 1)
    } else {
        (c + 1, 0)
    }
}

/// A step up from the first quest of the first chain, or from no
/// selection, stays on that quest: it neither goes below zero nor wraps to
/// the last chain.
pub proof fn lemma_up_from_first(info: QuestInfo)
    ensures
        up_of(info, Some((0, 0))) == (0usize, 0usize),
        up_of(info, None) == (0usize, 0usize),
{
}

/// A step down from the last quest of the last chain goes to quest zero of
/// the chain one past the end, which names no quest; a step up from there
/// comes back to that last quest.
pub proof fn lemma_down_past_end_and_back(info: QuestInfo)
    requires
        info.num_chains() > 0,
        info.chain_len(info.num_chains() - 1) > 0,
        info.num_chains() <= usize::MAX,
        info.chain_len(info.num_chains() - 1) <= usize::MAX,
    ensures
        ({
            let last_chain = (info.num_chains() - 1) as usize;
            let last_quest = (info.chain_len(last_chain as int) - 1) as usize;
            let past = down_of(info, Some((last_chain, last_quest)));
            &&& past == (info.num_chains() as usize, 0usize)
            &&& !info.has_quest(past.0 as int, past.1 as int)
            &&& up_of(info, Some(past)) == (last_chain, last_quest)
        }),
{
}

} // verus!
