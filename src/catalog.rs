use vstd::prelude::*;

verus! {

/// One quest of a chain: its level and its name, the key under which its
/// counter is stored.
pub struct Quest {
    pub level: u32,
    pub name: String,
}

/// A named chain of quests, in the order they are played.
pub struct QuestChain {
    pub name: String,
    pub quests: Vec<Quest>,
}

/// The catalog: every chain, in display order. It is built once and only
/// read afterwards.
pub struct QuestInfo {
    pub chains: Vec<QuestChain>,
}

impl Quest {
    pub fn new(level: u32, name: String) -> (r: Quest)
        ensures
            r.level == level,
            r.name@ == name@,
    {
        Quest { level, name }
    }
}

impl QuestChain {
    pub fn new(name: String, quests: Vec<Quest>) -> (r: QuestChain)
        ensures
            r.name@ == name@,
            r.quests@ == quests@,
    {
        QuestChain { name, quests }
    }
}

impl QuestInfo {
    pub fn new(chains: Vec<QuestChain>) -> (r: QuestInfo)
        ensures
            r.chains@ == chains@,
    {
        QuestInfo { chains }
    }

    /// Number of chains.
    pub open spec fn num_chains(&self) -> int {
        self.chains@.len() as int
    }

    /// Number of quests in chain `c`, which must exist.
    pub open spec fn chain_len(&self, c: int) -> int {
        self.chains@[c].quests@.len() as int
    }

    /// `(c, q)` names a quest of the catalog.
    pub open spec fn has_quest(&self, c: int, q: int) -> bool {
        0 <= c < self.num_chains() && 0 <= q < self.chain_len(c)
    }

    /// The name of quest `q` of chain `c`.
    pub open spec fn quest_name(&self, c: int, q: int) -> Seq<char> {
        self.chains@[c].quests@[q].name@
    }

    /// Whether `(c, q)` names a quest of the catalog.
    pub fn contains(&self, c: usize, q: usize) -> (r: bool)
        ensures
            r == self.has_quest(c as int, q as int),
    {
        c < self.chains.len() && q < self.chains[c].quests.len()
    }
}

} // verus!
