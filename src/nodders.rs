use vstd::prelude::*;

use crate::catalog::QuestInfo;
use crate::filter::{lower_of, lowercase, matches_filter, passes_filter};
use crate::nods::{
    after_add, after_decrement, lemma_pairs_round_trip, pairs_view, sum_counts, NodCounters,
};
use crate::selection::{can_move_down, down_of, move_down, move_up, up_of};

verus! {

/// What survives a restart: the counters, as a list of name and count, and
/// the selection. The filter and the catalog are not part of it.
pub struct PersistedState {
    pub nods: Vec<(String, usize)>,
    pub selected_quest: Option<(usize, usize)>,
}

/// The state of the nod tracker: the catalog it shows, the counters, the
/// selected quest and the filter typed by the user.
pub struct Nodders {
    nods: NodCounters,
    selected_quest: Option<(usize, usize)>,
    filter: String,
    quest_info: QuestInfo,
}

impl Nodders {
    pub closed spec fn counters(&self) -> NodCounters {
        self.nods
    }

    pub closed spec fn selection(&self) -> Option<(usize, usize)> {
        self.selected_quest
    }

    pub closed spec fn filter_text(&self) -> Seq<char> {
        self.filter@
    }

    pub closed spec fn info(&self) -> QuestInfo {
        self.quest_info
    }

    pub open spec fn wf(&self) -> bool {
        self.counters().wf()
    }

    /// Quest `q` of chain `c` exists and its name passes the filter.
    pub open spec fn visible(&self, c: usize, q: usize) -> bool {
        self.info().has_quest(c as int, q as int) && passes_filter(
            self.info().quest_name(c as int, q as int),
            self.filter_text(),
        )
    }

    /// Quest `q` of chain `c` is selected and shown, so its `+` and `-`
    /// controls are shown with it.
    pub open spec fn controls_shown(&self, c: usize, q: usize) -> bool {
        self.selection() == Some((c, q)) && self.visible(c, q)
    }

    /// The selected quest, where its controls are shown.
    pub open spec fn active_quest(&self) -> Option<(usize, usize)> {
        match self.selection() {
            Some((c, q)) => if self.visible(c, q) {
                Some((c, q))
            } else {
                None
            },
            None => None,
        }
    }

    /// Everything but the selection is as in `old`.
    pub open spec fn same_but_selection(&self, old: &Nodders) -> bool {
        &&& self.counters() == old.counters()
        &&& self.filter_text() == old.filter_text()
        &&& self.info() == old.info()
    }

    /// A fresh tracker over `quest_info`: no counter, no selection, an
    /// empty filter.
    pub fn new(quest_info: QuestInfo) -> (r: Nodders)
        ensures
            r.wf(),
            r.counters()@ == Map::<Seq<char>, nat>::empty(),
            r.counters().total_spec() == 0,
            r.selection() is None,
            r.filter_text().len() == 0,
            r.info() == quest_info,
    {
        let r = Nodders {
            nods: NodCounters::new(),
            selected_quest: None,
            filter: String::new(),
            quest_info,
        };
        r
    }

    /// The counters and the selection, as the persistence layer stores them.
    pub fn persisted(&self) -> (r: PersistedState)
        requires
            self.wf(),
        ensures
            r.nods@ == self.counters().pairs_spec(),
            r.selected_quest == self.selection(),
    {
        PersistedState { nods: self.nods.pairs(), selected_quest: self.selected_quest }
    }

    /// A tracker over `quest_info` with the counters and selection of
    /// `state` and an empty filter. Counts that add up to more than a
    /// `usize` holds make a corrupt state, which is replaced by the fresh
    /// one: no counter, no selection.
    pub fn restore(quest_info: QuestInfo, state: PersistedState) -> (r: Nodders)
        ensures
            r.wf(),
            r.info() == quest_info,
            r.filter_text().len() == 0,
            sum_counts(state.nods@) <= usize::MAX ==> r.counters()@ == pairs_view(state.nods@)
                && r.selection() == state.selected_quest,
            sum_counts(state.nods@) > usize::MAX ==> r.counters()@ == Map::<
                Seq<char>,
                nat,
            >::empty() && r.selection() is None,
    {
        match NodCounters::from_pairs(&state.nods) {
            Some(nods) => Nodders {
                nods,
                selected_quest: state.selected_quest,
                filter: String::new(),
                quest_info,
            },
            None => Nodders::new(quest_info),
        }
    }

    /// The counters.
    pub fn nods(&self) -> (r: &NodCounters)
        ensures
            *r == self.counters(),
    {
        &self.nods
    }

    /// The selected quest as `(chain, quest)`, if any.
    pub fn selected_quest(&self) -> (r: Option<(usize, usize)>)
        ensures
            r == self.selection(),
    {
        self.selected_quest
    }

    /// The filter as typed.
    pub fn filter(&self) -> (r: &str)
        ensures
            r@ == self.filter_text(),
    {
        self.filter.as_str()
    }

    /// The catalog.
    pub fn quest_info(&self) -> (r: &QuestInfo)
        ensures
            *r == self.info(),
    {
        &self.quest_info
    }

    /// Replaces the filter; the counters and the selection stay as they are.
    pub fn set_filter(&mut self, filter: String)
        ensures
            final(self).filter_text() == filter@,
            final(self).counters() == old(self).counters(),
            final(self).selection() == old(self).selection(),
            final(self).info() == old(self).info(),
    {
        self.filter = filter;
    }

    /// Empties the filter, which shows every quest of the catalog again; the
    /// counters and the selection stay as they are.
    pub fn clear_filter(&mut self)
        ensures
            final(self).filter_text().len() == 0,
            final(self).counters() == old(self).counters(),
            final(self).selection() == old(self).selection(),
            final(self).info() == old(self).info(),
            forall|c: usize, q: usize|
                final(self).info().has_quest(c as int, q as int) ==> #[trigger] final(self).visible(c, q),
    {
        self.filter = String::new();
        let folded = lowercase(self.filter.as_str());
        proof {
            assert(folded@ == lower_of(self.filter_text()));
            assert forall|c: usize, q: usize|
                self.info().has_quest(c as int, q as int) implies #[trigger] self.visible(c, q) by {
                let name = self.info().quest_name(c as int, q as int);
                let h = lower_of(name);
                let nd = lower_of(self.filter_text());
                assert(nd.len() == 0);
                assert(h.subrange(0, 0 + nd.len() as int) =~= nd);
            }
        }
    }

    /// Whether quest `q` of chain `c` exists and passes the filter.
    pub fn is_visible(&self, c: usize, q: usize) -> (r: bool)
        ensures
            r == self.visible(c, q),
    {
        if self.quest_info.contains(c, q) {
            matches_filter(self.quest_info.chains[c].quests[q].name.as_str(), self.filter.as_str())
        } else {
            false
        }
    }

    /// Whether quest `q` of chain `c` is shown with its `+` and `-`
    /// controls.
    pub fn shows_controls(&self, c: usize, q: usize) -> (r: bool)
        ensures
            r == self.controls_shown(c, q),
    {
        self.selected_quest == Some((c, q)) && self.is_visible(c, q)
    }

    /// Selects quest `q` of chain `c`, as a click on its row does.
    pub fn select(&mut self, c: usize, q: usize)
        ensures
            final(self).selection() == Some((c, q)),
            final(self).same_but_selection(old(self)),
    {
        self.selected_quest = Some((c, q));
    }

    /// One step up, from the selection or from the first quest where there
    /// is none.
    pub fn move_up(&mut self)
        ensures
            final(self).selection() == Some(up_of(old(self).info(), old(self).selection())),
            final(self).same_but_selection(old(self)),
    {
        self.selected_quest = Some(move_up(&self.quest_info, self.selected_quest));
    }

    /// One step down, from the selection or from the first quest where there
    /// is none.
    pub fn move_down(&mut self)
        requires
            can_move_down(old(self).selection()),
        ensures
            final(self).selection() == Some(down_of(old(self).info(), old(self).selection())),
            final(self).same_but_selection(old(self)),
    {
        self.selected_quest = Some(move_down(&self.quest_info, self.selected_quest));
    }

    /// Applies a frame's navigation intents: a step up where `up` is set,
    /// else a step down where `down` is set. Returns whether the selection
    /// moved, so that the view can bring it into sight.
    pub fn navigate(&mut self, up: bool, down: bool) -> (advanced: bool)
        requires
            !up && down ==> can_move_down(old(self).selection()),
        ensures
            advanced == (up || down),
            up ==> final(self).selection() == Some(up_of(old(self).info(), old(self).selection())),
            !up && down ==> final(self).selection() == Some(
                down_of(old(self).info(), old(self).selection()),
            ),
            !up && !down ==> final(self).selection() == old(self).selection(),
            final(self).same_but_selection(old(self)),
    {
        if up {
            self.move_up();
            true
        } else if down {
            self.move_down();
            true
        } else {
            false
        }
    }

    /// Applies a frame's counter intents to the selected quest, where its
    /// controls are shown: one more nod where `add` is set, else one less
    /// where `sub` is set. A nod that would take the total past what a
    /// `usize` holds is not counted. Without a shown selection nothing
    /// changes.
    pub fn adjust_selected(&mut self, add: bool, sub: bool)
        requires
            old(self).wf(),
        ensures
            final(self).wf(),
            final(self).selection() == old(self).selection(),
            final(self).filter_text() == old(self).filter_text(),
            final(self).info() == old(self).info(),
            match old(self).active_quest() {
                Some((c, q)) => {
                    let name = old(self).info().quest_name(c as int, q as int);
                    let m = old(self).counters()@;
                    if add {
                        if old(self).counters().total_spec() < usize::MAX {
                            final(self).counters()@ == after_add(m, name, 1)
                                && final(self).counters().total_spec()
                                == old(self).counters().total_spec() + 1
                        } else {
                            final(self).counters() == old(self).counters()
                        }
                    } else if sub {
                        final(self).counters()@ == after_decrement(m, name)
                    } else {
                        final(self).counters() == old(self).counters()
                    }
                },
                None => final(self).counters() == old(self).counters(),
            },
    {
        let (c, q) = match self.selected_quest {
            Some(p) => p,
            None => {
                return;
            },
        };
        if !self.is_visible(c, q) {
            return;
        }
        let name = self.quest_info.chains[c].quests[q].name.clone();
        if add {
            if self.nods.total() < usize::MAX {
                self.nods.increment(&name);
            }
        } else if sub {
            self.nods.decrement(&name);
        }
    }

    /// Sum of all counters, shown in the header.
    pub fn total_nods(&self) -> (r: usize)
        requires
            self.wf(),
        ensures
            r == self.counters().total_spec(),
    {
        self.nods.total()
    }

    /// The counter of quest `q` of chain `c`, zero where it has none or
    /// where there is no such quest.
    pub fn nods_of(&self, c: usize, q: usize) -> (r: usize)
        requires
            self.wf(),
        ensures
            self.info().has_quest(c as int, q as int) ==> r == self.counters().count(
                self.info().quest_name(c as int, q as int),
            ),
            !self.info().has_quest(c as int, q as int) ==> r == 0,
    {
        if self.quest_info.contains(c, q) {
            self.nods.get(&self.quest_info.chains[c].quests[q].name)
        } else {
            0
        }
    }
}

/// Restoring what `persisted` stores gives back the same counters and the
/// same selection, with an empty filter: the stored counts always fit, and
/// they stand for exactly the counters that were stored.
pub proof fn lemma_persist_round_trip(n: Nodders)
    requires
        n.wf(),
    ensures
        sum_counts(n.counters().pairs_spec()) <= usize::MAX,
        pairs_view(n.counters().pairs_spec()) == n.counters()@,
{
    lemma_pairs_round_trip(n.counters());
}

/// A selection on a chain past the end of the catalog names no quest, so
/// no quest shows its controls.
pub proof fn lemma_past_end_shows_no_controls(n: Nodders, q: usize)
    requires
        n.info().num_chains() <= usize::MAX,
        n.selection() == Some((n.info().num_chains() as usize, q)),
    ensures
        n.active_quest() is None,
        forall|c: usize, p: usize| !(#[trigger] n.controls_shown(c, p)),
{
}

/// What is visible depends on the catalog and the filter alone: two states
/// with the same catalog and the same filter show the same quests, whatever
/// their counters and selections.
pub proof fn lemma_filter_is_pure(a: Nodders, b: Nodders)
    requires
        a.info() == b.info(),
        a.filter_text() == b.filter_text(),
    ensures
        forall|c: usize, q: usize| #[trigger] a.visible(c, q) == b.visible(c, q),
{
}

} // verus!
