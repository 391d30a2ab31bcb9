use nodders::filter::{contains_chars, matches_filter};
use nodders::selection::{move_down, move_up};
use nodders::{NodCounters, Nodders, PersistedState, Quest, QuestChain, QuestInfo};

fn sample_catalog() -> QuestInfo {
    QuestInfo::new(vec![
        QuestChain::new(
            "Intro".to_string(),
            vec![
                Quest::new(1, "Wake Up".to_string()),
                Quest::new(2, "Leave House".to_string()),
            ],
        ),
        QuestChain::new(
            "Town".to_string(),
            vec![Quest::new(3, "Visit Market".to_string())],
        ),
    ])
}

fn name(s: &str) -> String {
    s.to_string()
}

#[test]
fn end_to_end_scenario() {
    let mut app = Nodders::new(sample_catalog());
    assert_eq!(app.selected_quest(), None);
    assert_eq!(app.total_nods(), 0);

    assert!(app.navigate(false, true));
    assert_eq!(app.selected_quest(), Some((0, 1)));
    assert!(app.navigate(false, true));
    assert_eq!(app.selected_quest(), Some((1, 0)));
    assert!(app.navigate(false, true));
    assert_eq!(app.selected_quest(), Some((2, 0)));

    assert!(app.navigate(true, false));
    assert_eq!(app.selected_quest(), Some((1, 0)));

    app.select(0, 1);
    app.adjust_selected(true, false);
    app.adjust_selected(true, false);
    assert_eq!(app.nods().get(&name("Leave House")), 2);
    assert_eq!(app.nods().pairs(), vec![(name("Leave House"), 2)]);
    assert_eq!(app.total_nods(), 2);

    app.adjust_selected(false, true);
    assert_eq!(app.nods().pairs(), vec![(name("Leave House"), 1)]);
    assert_eq!(app.total_nods(), 1);

    app.adjust_selected(false, true);
    assert!(app.nods().is_empty());
    assert_eq!(app.total_nods(), 0);
}

#[test]
fn move_up_from_first_quest_stays() {
    let info = sample_catalog();
    assert_eq!(move_up(&info, Some((0, 0))), (0, 0));
    assert_eq!(move_up(&info, None), (0, 0));
    let mut app = Nodders::new(sample_catalog());
    app.move_up();
    assert_eq!(app.selected_quest(), Some((0, 0)));
    app.move_up();
    assert_eq!(app.selected_quest(), Some((0, 0)));
}

#[test]
fn move_up_crosses_to_previous_chain_end() {
    let info = sample_catalog();
    assert_eq!(move_up(&info, Some((1, 0))), (0, 1));
    assert_eq!(move_up(&info, Some((0, 1))), (0, 0));
    assert_eq!(move_up(&info, Some((5, 0))), (4, 0));
}

#[test]
fn move_down_past_end_and_back() {
    let info = sample_catalog();
    assert_eq!(move_down(&info, Some((1, 0))), (2, 0));
    assert_eq!(move_down(&info, None), (0, 1));
    let mut app = Nodders::new(sample_catalog());
    app.select(1, 0);
    app.move_down();
    assert_eq!(app.selected_quest(), Some((2, 0)));
    assert!(!app.shows_controls(2, 0));
    assert!(!app.is_visible(2, 0));
    app.adjust_selected(true, false);
    assert!(app.nods().is_empty());
    app.move_up();
    assert_eq!(app.selected_quest(), Some((1, 0)));
    assert!(app.shows_controls(1, 0));
}

#[test]
fn navigate_without_intent_keeps_selection() {
    let mut app = Nodders::new(sample_catalog());
    assert!(!app.navigate(false, false));
    assert_eq!(app.selected_quest(), None);
    app.select(0, 1);
    assert!(!app.navigate(false, false));
    assert_eq!(app.selected_quest(), Some((0, 1)));
}

#[test]
fn navigate_up_wins_over_down() {
    let mut app = Nodders::new(sample_catalog());
    app.select(1, 0);
    assert!(app.navigate(true, true));
    assert_eq!(app.selected_quest(), Some((0, 1)));
}

#[test]
fn counters_stay_positive_and_present() {
    let mut c = NodCounters::new();
    let a = name("Wake Up");
    c.decrement(&a);
    assert_eq!(c.get(&a), 0);
    assert!(c.is_empty());
    c.increment(&a);
    c.increment(&a);
    c.decrement(&a);
    assert_eq!(c.get(&a), 1);
    assert_eq!(c.pairs(), vec![(a.clone(), 1)]);
    c.decrement(&a);
    assert_eq!(c.get(&a), 0);
    assert!(c.pairs().is_empty());
    c.decrement(&a);
    assert_eq!(c.get(&a), 0);
    assert_eq!(c.total(), 0);
}

#[test]
fn total_tracks_every_change() {
    let mut c = NodCounters::new();
    let a = name("Wake Up");
    let b = name("Visit Market");
    c.increment(&a);
    assert_eq!(c.total(), 1);
    c.increment(&b);
    c.increment(&b);
    c.increment(&b);
    assert_eq!(c.total(), 4);
    c.decrement(&a);
    assert_eq!(c.total(), 3);
    c.decrement(&a);
    assert_eq!(c.total(), 3);
    c.add(&a, 5);
    assert_eq!(c.total(), 8);
    assert_eq!(c.get(&a), 5);
    c.add(&b, 0);
    assert_eq!(c.get(&b), 3);
    assert_eq!(c.pairs(), vec![(b.clone(), 3), (a.clone(), 5)]);
}

#[test]
fn from_pairs_adds_up_names() {
    let c = NodCounters::from_pairs(&vec![
        (name("a"), 2),
        (name("b"), 0),
        (name("a"), 3),
    ])
    .unwrap();
    assert_eq!(c.get(&name("a")), 5);
    assert_eq!(c.get(&name("b")), 0);
    assert_eq!(c.pairs(), vec![(name("a"), 5)]);
    assert_eq!(c.total(), 5);
}

#[test]
fn from_pairs_rejects_overflowing_counts() {
    let r = NodCounters::from_pairs(&vec![(name("a"), usize::MAX), (name("b"), 1)]);
    assert!(r.is_none());
    let ok = NodCounters::from_pairs(&vec![(name("a"), usize::MAX)]).unwrap();
    assert_eq!(ok.total(), usize::MAX);
}

#[test]
fn increment_at_total_limit_is_not_counted() {
    let state = PersistedState {
        nods: vec![(name("Wake Up"), usize::MAX)],
        selected_quest: Some((0, 1)),
    };
    let mut app = Nodders::restore(sample_catalog(), state);
    assert_eq!(app.total_nods(), usize::MAX);
    app.adjust_selected(true, false);
    assert_eq!(app.total_nods(), usize::MAX);
    assert_eq!(app.nods_of(0, 1), 0);
    app.adjust_selected(false, true);
    assert_eq!(app.total_nods(), usize::MAX);
    app.select(0, 0);
    app.adjust_selected(false, true);
    assert_eq!(app.nods_of(0, 0), usize::MAX - 1);
}

#[test]
fn persistence_round_trip() {
    let mut app = Nodders::new(sample_catalog());
    app.select(0, 0);
    app.adjust_selected(true, false);
    app.adjust_selected(true, false);
    app.adjust_selected(true, false);
    app.set_filter(name("wake"));
    let state = app.persisted();
    assert_eq!(state.nods, vec![(name("Wake Up"), 3)]);
    assert_eq!(state.selected_quest, Some((0, 0)));
    let back = Nodders::restore(sample_catalog(), state);
    assert_eq!(back.nods().pairs(), vec![(name("Wake Up"), 3)]);
    assert_eq!(back.selected_quest(), Some((0, 0)));
    assert_eq!(back.filter(), "");
    assert_eq!(back.nods_of(0, 0), 3);
}

#[test]
fn restore_of_corrupt_state_is_fresh() {
    let state = PersistedState {
        nods: vec![(name("a"), usize::MAX), (name("b"), usize::MAX)],
        selected_quest: Some((1, 0)),
    };
    let app = Nodders::restore(sample_catalog(), state);
    assert!(app.nods().is_empty());
    assert_eq!(app.selected_quest(), None);
}

#[test]
fn filter_is_case_insensitive_substring() {
    let mut app = Nodders::new(sample_catalog());
    app.set_filter(name("HOUSE"));
    assert!(!app.is_visible(0, 0));
    assert!(app.is_visible(0, 1));
    assert!(!app.is_visible(1, 0));
    app.set_filter(name("e"));
    assert!(app.is_visible(0, 0));
    assert!(app.is_visible(0, 1));
    assert!(app.is_visible(1, 0));
    assert!(!app.is_visible(2, 0));
}

#[test]
fn filter_twice_and_clear() {
    let mut app = Nodders::new(sample_catalog());
    app.select(0, 1);
    app.adjust_selected(true, false);
    app.set_filter(name("market"));
    let first: Vec<bool> = vec![app.is_visible(0, 0), app.is_visible(0, 1), app.is_visible(1, 0)];
    app.set_filter(name("market"));
    let second: Vec<bool> = vec![app.is_visible(0, 0), app.is_visible(0, 1), app.is_visible(1, 0)];
    assert_eq!(first, vec![false, false, true]);
    assert_eq!(first, second);
    assert!(!app.shows_controls(0, 1));
    app.adjust_selected(true, false);
    assert_eq!(app.nods_of(0, 1), 1);
    app.clear_filter();
    assert_eq!(app.filter(), "");
    assert!(app.is_visible(0, 0));
    assert!(app.is_visible(0, 1));
    assert!(app.is_visible(1, 0));
    assert_eq!(app.selected_quest(), Some((0, 1)));
    assert_eq!(app.nods_of(0, 1), 1);
    assert!(app.shows_controls(0, 1));
}

#[test]
fn matches_filter_folds_case() {
    assert!(matches_filter("Wake Up", "WAKE"));
    assert!(matches_filter("WAKE UP", "e u"));
    assert!(!matches_filter("Wake Up", "market"));
    assert!(matches_filter("Wake Up", ""));
    assert!(matches_filter("", ""));
    assert!(!matches_filter("", "a"));
}

#[test]
fn contains_chars_is_exact() {
    assert!(contains_chars("Visit Market", "Market"));
    assert!(!contains_chars("Visit Market", "market"));
    assert!(contains_chars("abc", "abc"));
    assert!(!contains_chars("ab", "abc"));
    assert!(contains_chars("aab", "ab"));
    assert!(contains_chars("héllo", "él"));
}

#[test]
fn nods_of_missing_quest_is_zero() {
    let app = Nodders::new(sample_catalog());
    assert_eq!(app.nods_of(7, 7), 0);
    assert!(!app.quest_info().contains(7, 7));
    assert!(app.quest_info().contains(1, 0));
}
