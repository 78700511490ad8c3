use duca::{App, AppMode, Canto, DivinaCommedia, Key, Verse};

fn create_test_commedia() -> DivinaCommedia {
    let mut commedia = DivinaCommedia::new();

    let canto1 = Canto {
        number: 1,
        roman_numeral: "I".to_string(),
        verses: vec![
            Verse { line_number: 1, text: "Nel mezzo del cammin di nostra vita".to_string() },
            Verse { line_number: 2, text: "mi ritrovai per una selva oscura".to_string() },
            Verse { line_number: 3, text: "ché la diritta via era smarrita".to_string() },
        ],
    };
    commedia.inferno.cantos.insert(1, canto1);

    let canto1_purg = Canto {
        number: 1,
        roman_numeral: "I".to_string(),
        verses: vec![
            Verse { line_number: 1, text: "Per correr miglior acque alza le vele".to_string() },
            Verse { line_number: 2, text: "omai la navicella del mio ingegno".to_string() },
        ],
    };
    commedia.purgatorio.cantos.insert(1, canto1_purg);

    commedia
}

#[test]
fn test_app_new() {
    let commedia = create_test_commedia();
    let app = App::new(commedia);

    assert_eq!(app.current_cantica, "Inferno");
    assert_eq!(app.mode, AppMode::Browse);
    assert!(app.search_input.is_empty());
    assert!(app.search_results.is_empty());
    assert_eq!(app.verse_scroll, 0);
    assert_eq!(app.current_canto, None);
}

#[test]
fn test_cantica_navigation() {
    let commedia = create_test_commedia();
    let mut app = App::new(commedia);

    assert_eq!(app.current_cantica, "Inferno");
    app.next_cantica();
    assert_eq!(app.current_cantica, "Purgatorio");
    app.next_cantica();
    assert_eq!(app.current_cantica, "Paradiso");
    app.next_cantica();
    assert_eq!(app.current_cantica, "Inferno");

    app.previous_cantica();
    assert_eq!(app.current_cantica, "Paradiso");
    app.previous_cantica();
    assert_eq!(app.current_cantica, "Purgatorio");
    app.previous_cantica();
    assert_eq!(app.current_cantica, "Inferno");
}

#[test]
fn test_canto_navigation() {
    let commedia = create_test_commedia();
    let mut app = App::new(commedia);

    assert_eq!(app.current_canto, None);

    app.next_canto();
    assert_eq!(app.current_canto, Some(1));

    app.next_cantica();
    assert_eq!(app.current_cantica, "Purgatorio");
    app.next_canto();
    assert_eq!(app.current_canto, Some(1));
}

#[test]
fn test_app_mode_changes() {
    let commedia = create_test_commedia();
    let mut app = App::new(commedia);

    assert_eq!(app.mode, AppMode::Browse);

    app.mode = AppMode::InteractiveSearch;
    assert_eq!(app.mode, AppMode::InteractiveSearch);

    app.mode = AppMode::ContextView;
    assert_eq!(app.mode, AppMode::ContextView);
}

#[test]
fn test_search_input_handling() {
    let commedia = create_test_commedia();
    let mut app = App::new(commedia);

    assert!(app.search_input.is_empty());

    app.search_input = "test search".to_string();
    assert_eq!(app.search_input, "test search");

    app.search_input.clear();
    assert!(app.search_input.is_empty());
}

#[test]
fn test_verse_scrolling() {
    let commedia = create_test_commedia();
    let mut app = App::new(commedia);

    assert_eq!(app.verse_scroll, 0);

    app.verse_scroll = 10;
    assert_eq!(app.verse_scroll, 10);

    app.verse_scroll = 0;
    assert_eq!(app.verse_scroll, 0);
}

#[test]
fn test_get_current_cantica() {
    let commedia = create_test_commedia();
    let app = App::new(commedia);

    let current = app.get_current_cantica();
    assert_eq!(current.name, "Inferno");
    assert!(current.cantos.contains_key(&1));
}

#[test]
fn test_fuzzy_matcher_integration() {
    let commedia = create_test_commedia();
    let app = App::new(commedia);

    let score = app.fuzzy_matcher.fuzzy_match("test", "test");
    assert!(score.is_some());
    assert!(score.unwrap() > 0);

    let no_score = app.fuzzy_matcher.fuzzy_match("abc", "xyz");
    assert!(no_score.is_none() || no_score.unwrap() == 0);
}

#[test]
fn test_context_canto_tracking() {
    let commedia = create_test_commedia();
    let mut app = App::new(commedia);

    assert_eq!(app.context_canto, None);
    assert_eq!(app.context_highlight_line, None);

    app.context_canto = Some(("Inferno".to_string(), 1));
    app.context_highlight_line = Some(2);

    assert_eq!(app.context_canto, Some(("Inferno".to_string(), 1)));
    assert_eq!(app.context_highlight_line, Some(2));
}

fn type_text(app: &mut App, text: &str) {
    for c in text.chars() {
        assert!(!app.handle_key(Key::Char(c)));
    }
}

#[test]
fn three_steps_forward_come_back() {
    let mut app = App::new(create_test_commedia());
    for _ in 0..3 {
        app.next_cantica();
    }
    assert_eq!(app.current_cantica, "Inferno");
    assert_eq!(app.cantica_list_state.selected(), Some(0));
    app.next_cantica();
    app.previous_cantica();
    assert_eq!(app.current_cantica, "Inferno");
    assert_eq!(app.cantica_list_state.selected(), Some(0));
}

#[test]
fn changing_cantica_resets_canto_and_scroll() {
    let mut app = App::new(create_test_commedia());
    app.next_canto();
    app.scroll_down();
    app.scroll_down();
    assert_eq!(app.verse_scroll, 2);
    app.next_cantica();
    assert_eq!(app.current_canto, None);
    assert_eq!(app.canto_list_state.selected(), None);
    assert_eq!(app.verse_scroll, 0);
}

#[test]
fn cantos_cycle_and_empty_cantica_selects_none() {
    let mut commedia = create_test_commedia();
    commedia.inferno.cantos.insert(
        7,
        Canto { number: 7, roman_numeral: "VII".to_string(), verses: vec![] },
    );
    let mut app = App::new(commedia);
    app.next_canto();
    assert_eq!(app.current_canto, Some(1));
    app.next_canto();
    assert_eq!(app.current_canto, Some(7));
    app.next_canto();
    assert_eq!(app.current_canto, Some(1));
    app.previous_canto();
    assert_eq!(app.current_canto, Some(7));
    // Paradiso has no cantos
    app.previous_cantica();
    assert_eq!(app.current_cantica, "Paradiso");
    app.next_canto();
    assert_eq!(app.canto_list_state.selected(), None);
    assert_eq!(app.current_canto, None);
    assert!(app.get_current_canto().is_none());
}

#[test]
fn scrolling_saturates() {
    let mut app = App::new(create_test_commedia());
    app.scroll_up();
    assert_eq!(app.verse_scroll, 0);
    app.verse_scroll = u16::MAX;
    app.scroll_down();
    assert_eq!(app.verse_scroll, u16::MAX);
}

#[test]
fn live_search_then_context_view() {
    let mut app = App::new(create_test_commedia());
    assert!(!app.handle_key(Key::Char('/')));
    assert_eq!(app.mode, AppMode::InteractiveSearch);
    type_text(&mut app, "selv");
    assert_eq!(app.search_input, "selv");
    assert_eq!(app.filtered_results.len(), 1);
    assert_eq!(app.search_list_state.selected(), Some(0));
    assert!(!app.handle_key(Key::Enter));
    assert_eq!(app.mode, AppMode::ContextView);
    assert_eq!(app.context_canto, Some(("Inferno".to_string(), 1)));
    assert_eq!(app.context_highlight_line, Some(2));
    assert_eq!(app.verse_scroll, 0);
    assert_eq!(app.get_context_canto().unwrap().verses.len(), 3);
    // back to the live search, with its results kept
    assert!(!app.handle_key(Key::Esc));
    assert_eq!(app.mode, AppMode::InteractiveSearch);
    assert_eq!(app.filtered_results.len(), 1);
    assert_eq!(app.context_canto, None);
    // and out of it, with everything cleared
    assert!(!app.handle_key(Key::Esc));
    assert_eq!(app.mode, AppMode::Browse);
    assert!(app.search_input.is_empty());
    assert!(app.filtered_results.is_empty());
    assert!(app.handle_key(Key::Char('q')));
}

fn long_canto_commedia() -> DivinaCommedia {
    let mut commedia = DivinaCommedia::new();
    let verses = (1..=30)
        .map(|i| Verse { line_number: i, text: format!("verso numero {}", i) })
        .collect();
    commedia.inferno.cantos.insert(1, Canto { number: 1, roman_numeral: "I".to_string(), verses });
    commedia
}

#[test]
fn context_view_scroll_bias() {
    let mut app = App::new(long_canto_commedia());
    app.enter_search_mode();
    type_text(&mut app, "numero 25");
    assert!(!app.filtered_results.is_empty());
    assert_eq!(app.filtered_results[0].line, 25);
    app.enter_context_view();
    assert_eq!(app.context_highlight_line, Some(25));
    assert_eq!(app.verse_scroll, 15);

    let mut app = App::new(long_canto_commedia());
    app.enter_search_mode();
    type_text(&mut app, "numero 3");
    let first = app.filtered_results.iter().position(|r| r.line == 3).unwrap();
    app.search_list_state.select(Some(first));
    app.enter_context_view();
    assert_eq!(app.context_highlight_line, Some(3));
    assert_eq!(app.verse_scroll, 0);
}

#[test]
fn result_selection_cycles() {
    let mut app = App::new(long_canto_commedia());
    app.enter_search_mode();
    type_text(&mut app, "numero 1");
    let n = app.filtered_results.len();
    assert!(n > 2);
    assert_eq!(app.search_list_state.selected(), Some(0));
    app.previous_search_result();
    assert_eq!(app.search_list_state.selected(), Some(n - 1));
    app.next_search_result();
    assert_eq!(app.search_list_state.selected(), Some(0));
    // 'j' and 'k' move the selection rather than being typed
    app.handle_key(Key::Char('j'));
    assert_eq!(app.search_list_state.selected(), Some(1));
    app.handle_key(Key::Char('k'));
    assert_eq!(app.search_list_state.selected(), Some(0));
    assert_eq!(app.search_input, "numero 1");
}

#[test]
fn backspace_reruns_the_search() {
    let mut app = App::new(create_test_commedia());
    app.enter_search_mode();
    type_text(&mut app, "selvx");
    assert!(app.filtered_results.is_empty());
    assert_eq!(app.search_list_state.selected(), None);
    app.handle_key(Key::Backspace);
    assert_eq!(app.search_input, "selv");
    assert_eq!(app.filtered_results.len(), 1);
    for _ in 0..10 {
        app.handle_key(Key::Backspace);
    }
    assert!(app.search_input.is_empty());
    assert!(app.filtered_results.is_empty());
    // nothing selected, so Enter does nothing
    app.handle_key(Key::Enter);
    assert_eq!(app.mode, AppMode::InteractiveSearch);
    app.next_search_result();
    assert_eq!(app.search_list_state.selected(), None);
}

#[test]
fn browse_keys() {
    let mut app = App::new(create_test_commedia());
    app.handle_key(Key::Right);
    assert_eq!(app.current_cantica, "Purgatorio");
    app.handle_key(Key::Char('h'));
    assert_eq!(app.current_cantica, "Inferno");
    app.handle_key(Key::Down);
    assert_eq!(app.current_canto, Some(1));
    app.handle_key(Key::Char('J'));
    assert_eq!(app.verse_scroll, 1);
    app.handle_key(Key::Char('K'));
    assert_eq!(app.verse_scroll, 0);
    app.current_canto = None;
    app.handle_key(Key::Enter);
    assert_eq!(app.current_canto, Some(1));
    assert_eq!(app.get_current_canto().unwrap().verses.len(), 3);
    assert!(!app.handle_key(Key::Other));
}

#[test]
fn context_canto_of_unknown_cantica_is_none() {
    let mut app = App::new(create_test_commedia());
    app.context_canto = Some(("Limbo".to_string(), 1));
    assert!(app.get_context_canto().is_none());
    app.context_canto = Some(("Purgatorio".to_string(), 1));
    assert_eq!(app.get_context_canto().unwrap().verses.len(), 2);
    app.context_canto = Some(("Purgatorio".to_string(), 9));
    assert!(app.get_context_canto().is_none());
}
