//! The interactive reader: browsing by cantica and canto, live fuzzy search,
//! and viewing a hit in its context. Every method is a transition of the
//! state machine whose spec functions are below; a key press is mapped to
//! one of them by `handle_key`.

use vstd::prelude::*;
use crate::document::{canto_numbers, cantica_title, lemma_titles_distinct, Canto, Cantica, DivinaCommedia};
use crate::ranking::{ranked_for, result_view, results_view, FuzzyRanker, Scored, SearchResult};
use crate::search::search_hits;
use crate::text::{pop_char, push_char, same_text, trim};

verus! {

broadcast use vstd::std_specs::hash::group_hash_axioms;

/// Which mode the reader is in.
#[derive(Debug, Clone, Copy, PartialEq, Eq, Structural)]
pub enum AppMode {
    Browse,
    InteractiveSearch,
    ContextView,
}

/// The selected entry of a list, if any.
#[derive(Debug, Clone, Copy, PartialEq, Eq, Structural)]
pub struct Selection {
    pub index: Option<usize>,
}

impl Selection {
    /// Nothing selected.
    pub fn none() -> (r: Self)
        ensures
            r.index is None,
    {
        Selection { index: None }
    }

    /// The selected entry.
    pub fn selected(&self) -> (r: Option<usize>)
        ensures
            r == self.index,
    {
        self.index
    }

    /// Selects an entry, or none.
    pub fn select(&mut self, index: Option<usize>)
        ensures
            final(self).index == index,
    {
        self.index = index;
    }
}

/// A key as the reader sees it.
#[derive(Debug, Clone, Copy, PartialEq, Eq, Structural)]
pub enum Key {
    Char(char),
    Left,
    Right,
    Up,
    Down,
    Enter,
    Esc,
    Backspace,
    Other,
}

/// The state of the reader.
pub struct App {
    pub commedia: DivinaCommedia,
    pub current_cantica: String,
    pub current_canto: Option<u8>,
    pub cantica_list_state: Selection,
    pub canto_list_state: Selection,
    pub verse_scroll: u16,
    pub search_input: String,
    pub search_results: Vec<SearchResult>,
    pub filtered_results: Vec<SearchResult>,
    pub search_list_state: Selection,
    pub mode: AppMode,
    pub fuzzy_matcher: FuzzyRanker,
    pub context_canto: Option<(String, u8)>,
    pub context_highlight_line: Option<usize>,
}

/// The reader's state as the contracts see it; the document is left out, as
/// no transition changes it.
pub struct AppView {
    pub current_cantica: Seq<char>,
    pub current_canto: Option<u8>,
    pub cantica_selected: Option<usize>,
    pub canto_selected: Option<usize>,
    pub verse_scroll: u16,
    pub search_input: Seq<char>,
    pub search_results: Seq<Scored>,
    pub filtered_results: Seq<Scored>,
    pub search_selected: Option<usize>,
    pub mode: AppMode,
    pub context_canto: Option<(Seq<char>, u8)>,
    pub context_highlight_line: Option<usize>,
}

impl View for App {
    type V = AppView;

    open spec fn view(&self) -> AppView {
        AppView {
            current_cantica: self.current_cantica@,
            current_canto: self.current_canto,
            cantica_selected: self.cantica_list_state.index,
            canto_selected: self.canto_list_state.index,
            verse_scroll: self.verse_scroll,
            search_input: self.search_input@,
            search_results: results_view(self.search_results@),
            filtered_results: results_view(self.filtered_results@),
            search_selected: self.search_list_state.index,
            mode: self.mode,
            context_canto: match self.context_canto {
                Some(c) => Some((c.0@, c.1)),
                None => None,
            },
            context_highlight_line: self.context_highlight_line,
        }
    }
}

/// The cantica after `sel` in the cyclic order of the three; the first where
/// none is selected.
pub open spec fn next_cantica_index(sel: Option<usize>) -> usize {
    match sel {
        Some(i) => if i >= 2 {
            0
        } else {
            (i + 1) as usize
        },
        None => 0,
    }
}

/// The cantica before `sel` in the cyclic order of the three; the first where
/// none is selected.
pub open spec fn previous_cantica_index(sel: Option<usize>) -> usize {
    match sel {
        Some(i) => if i == 0 {
            2
        } else {
            (i - 1) as usize
        },
        None => 0,
    }
}

/// The name shown for a selected cantica; the first one's for any selection
/// that names none of the three.
pub open spec fn selected_title(sel: Option<usize>) -> Seq<char> {
    match sel {
        Some(i) => if i < 3 {
            cantica_title(i as int)
        } else {
            cantica_title(0)
        },
        None => cantica_title(0),
    }
}

/// The position of the cantica that a name stands for; the first one for any
/// other name.
pub open spec fn cantica_index_of(name: Seq<char>) -> int {
    if name == "Purgatorio"@ {
        1
    } else if name == "Paradiso"@ {
        2
    } else {
        0
    }
}

/// The cantica the reader is in.
pub open spec fn current_part(v: AppView, d: DivinaCommedia) -> Cantica {
    d.part(cantica_index_of(v.current_cantica))
}

/// The canto numbers of the cantica the reader is in, ascending.
pub open spec fn current_numbers(v: AppView, d: DivinaCommedia) -> Seq<u8> {
    canto_numbers(current_part(v, d).cantos@)
}

/// The next entry of a cyclic list of `len` entries; none in an empty list.
pub open spec fn next_in_cycle(sel: Option<usize>, len: nat) -> Option<usize> {
    if len == 0 {
        None
    } else {
        match sel {
            Some(i) => if i >= len - 1 {
                Some(0)
            } else {
                Some((i + 1) as usize)
            },
            None => Some(0),
        }
    }
}

/// The previous entry of a cyclic list of `len` entries; none in an empty list.
pub open spec fn previous_in_cycle(sel: Option<usize>, len: nat) -> Option<usize> {
    if len == 0 {
        None
    } else {
        match sel {
            Some(i) => if i == 0 {
                Some((len - 1) as usize)
            } else {
                Some((i - 1) as usize)
            },
            None => Some(0),
        }
    }
}

/// The canto number at a selected position of `numbers`; none where nothing
/// is selected or the position is past the end.
pub open spec fn resolve_canto(sel: Option<usize>, numbers: Seq<u8>) -> Option<u8> {
    match sel {
        Some(i) => if i < numbers.len() {
            Some(numbers[i as int])
        } else {
            None
        },
        None => None,
    }
}

/// Where the view of a hit's canto starts: ten lines above the hit, so that
/// it shows about ten lines down; never above the first line, and at most
/// the largest offset a view can hold.
pub open spec fn context_scroll(line: usize) -> u16 {
    if line <= 10 {
        0
    } else if line - 10 > u16::MAX {
        u16::MAX
    } else {
        (line - 10) as u16
    }
}

pub open spec fn after_next_cantica(v: AppView) -> AppView {
    let i = next_cantica_index(v.cantica_selected);
    AppView {
        cantica_selected: Some(i),
        current_cantica: selected_title(Some(i)),
        canto_selected: None,
        current_canto: None,
        verse_scroll: 0,
        ..v
    }
}

pub open spec fn after_previous_cantica(v: AppView) -> AppView {
    let i = previous_cantica_index(v.cantica_selected);
    AppView {
        cantica_selected: Some(i),
        current_cantica: selected_title(Some(i)),
        canto_selected: None,
        current_canto: None,
        verse_scroll: 0,
        ..v
    }
}

pub open spec fn after_update_canto(v: AppView, d: DivinaCommedia) -> AppView {
    AppView { current_canto: resolve_canto(v.canto_selected, current_numbers(v, d)), ..v }
}

pub open spec fn after_next_canto(v: AppView, d: DivinaCommedia) -> AppView {
    let numbers = current_numbers(v, d);
    let sel = next_in_cycle(v.canto_selected, numbers.len());
    AppView {
        canto_selected: sel,
        current_canto: resolve_canto(sel, numbers),
        verse_scroll: 0,
        ..v
    }
}

pub open spec fn after_previous_canto(v: AppView, d: DivinaCommedia) -> AppView {
    let numbers = current_numbers(v, d);
    let sel = previous_in_cycle(v.canto_selected, numbers.len());
    AppView {
        canto_selected: sel,
        current_canto: resolve_canto(sel, numbers),
        verse_scroll: 0,
        ..v
    }
}

pub open spec fn after_scroll_down(v: AppView) -> AppView {
    AppView {
        verse_scroll: if v.verse_scroll == u16::MAX {
            u16::MAX
        } else {
            (v.verse_scroll + 1) as u16
        },
        ..v
    }
}

pub open spec fn after_scroll_up(v: AppView) -> AppView {
    AppView {
        verse_scroll: if v.verse_scroll == 0 {
            0
        } else {
            (v.verse_scroll - 1) as u16
        },
        ..v
    }
}

/// The live search re-run on the current query: its ranked hits, the first
/// one selected.
pub open spec fn after_live_search(v: AppView, d: DivinaCommedia) -> AppView {
    let results = ranked_for(search_hits(d, v.search_input, None), v.search_input);
    AppView {
        filtered_results: results,
        search_selected: if results.len() == 0 {
            None
        } else {
            Some(0)
        },
        ..v
    }
}

pub open spec fn after_enter_search(v: AppView) -> AppView {
    AppView {
        mode: AppMode::InteractiveSearch,
        search_input: Seq::empty(),
        filtered_results: Seq::empty(),
        search_selected: None,
        ..v
    }
}

pub open spec fn after_enter_context(v: AppView) -> AppView {
    match v.search_selected {
        Some(i) => if i < v.filtered_results.len() {
            let hit = v.filtered_results[i as int].0;
            AppView {
                context_canto: Some((hit.0, hit.1)),
                context_highlight_line: Some(hit.2),
                mode: AppMode::ContextView,
                verse_scroll: context_scroll(hit.2),
                ..v
            }
        } else {
            v
        },
        None => v,
    }
}

pub open spec fn after_exit_context(v: AppView) -> AppView {
    AppView {
        context_canto: None,
        context_highlight_line: None,
        mode: AppMode::InteractiveSearch,
        ..v
    }
}

pub open spec fn after_clear_search(v: AppView) -> AppView {
    AppView {
        search_input: Seq::empty(),
        search_results: Seq::empty(),
        filtered_results: Seq::empty(),
        search_selected: None,
        mode: AppMode::Browse,
        ..v
    }
}

pub open spec fn after_next_result(v: AppView) -> AppView {
    if v.filtered_results.len() == 0 {
        v
    } else {
        AppView {
            search_selected: next_in_cycle(v.search_selected, v.filtered_results.len()),
            ..v
        }
    }
}

pub open spec fn after_previous_result(v: AppView) -> AppView {
    if v.filtered_results.len() == 0 {
        v
    } else {
        AppView {
            search_selected: previous_in_cycle(v.search_selected, v.filtered_results.len()),
            ..v
        }
    }
}

pub open spec fn after_type_char(v: AppView, d: DivinaCommedia, c: char) -> AppView {
    after_live_search(AppView { search_input: v.search_input.push(c), ..v }, d)
}

pub open spec fn after_backspace(v: AppView, d: DivinaCommedia) -> AppView {
    let input = if v.search_input.len() == 0 {
        v.search_input
    } else {
        v.search_input.drop_last()
    };
    after_live_search(AppView { search_input: input, ..v }, d)
}

/// What a key does in each mode: the new state, and whether the reader is to
/// quit.
pub open spec fn after_key(v: AppView, d: DivinaCommedia, key: Key) -> (AppView, bool) {
    match v.mode {
        AppMode::Browse => match key {
            Key::Char('q') => (v, true),
            Key::Char('h') | Key::Left => (after_previous_cantica(v), false),
            Key::Char('l') | Key::Right => (after_next_cantica(v), false),
            Key::Char('j') | Key::Down => (after_next_canto(v, d), false),
            Key::Char('k') | Key::Up => (after_previous_canto(v, d), false),
            Key::Char('J') => (after_scroll_down(v), false),
            Key::Char('K') => (after_scroll_up(v), false),
            Key::Char('/') => (after_enter_search(v), false),
            Key::Enter => if v.current_canto is None && v.canto_selected is Some {
                (after_update_canto(v, d), false)
            } else {
                (v, false)
            },
            _ => (v, false),
        },
        AppMode::InteractiveSearch => match key {
            Key::Esc => (after_clear_search(v), false),
            Key::Backspace => (after_backspace(v, d), false),
            Key::Down | Key::Char('j') => (after_next_result(v), false),
            Key::Up | Key::Char('k') => (after_previous_result(v), false),
            Key::Enter => (after_enter_context(v), false),
            Key::Char(c) => (after_type_char(v, d, c), false),
            _ => (v, false),
        },
        AppMode::ContextView => match key {
            Key::Char('q') | Key::Esc => (after_exit_context(v), false),
            Key::Char('J') | Key::Down => (after_scroll_down(v), false),
            Key::Char('K') | Key::Up => (after_scroll_up(v), false),
            _ => (v, false),
        },
    }
}

/// Three steps forward through the canticas come back to where they started,
/// and a step back undoes a step forward (and the other way round).
pub proof fn lemma_cantica_cycle(v: AppView, i: usize)
    requires
        v.cantica_selected == Some(i),
        i < 3,
    ensures
        after_next_cantica(after_next_cantica(after_next_cantica(v))).cantica_selected
            == v.cantica_selected,
        after_next_cantica(after_next_cantica(after_next_cantica(v))).current_cantica
            == cantica_title(i as int),
        after_previous_cantica(after_next_cantica(v)).cantica_selected == v.cantica_selected,
        after_previous_cantica(after_next_cantica(v)).current_cantica == cantica_title(i as int),
        after_next_cantica(after_previous_cantica(v)).cantica_selected == v.cantica_selected,
        after_next_cantica(after_previous_cantica(v)).current_cantica == cantica_title(i as int),
{
}

/// The context view is entered only from the live search, and a key never
/// takes it straight back to browsing: it leaves only for the live search.
pub proof fn lemma_context_view_returns_to_search(v: AppView, d: DivinaCommedia, key: Key)
    ensures
        after_key(v, d, key).0.mode == AppMode::ContextView ==> v.mode != AppMode::Browse,
        v.mode == AppMode::ContextView ==> after_key(v, d, key).0.mode != AppMode::Browse,
{
}

impl App {
    /// A reader over `commedia`, browsing, with the first cantica selected
    /// and nothing else.
    pub fn new(commedia: DivinaCommedia) -> (r: Self)
        ensures
            r.commedia == commedia,
            r@ == (AppView {
                current_cantica: cantica_title(0),
                current_canto: None,
                cantica_selected: Some(0),
                canto_selected: None,
                verse_scroll: 0,
                search_input: Seq::empty(),
                search_results: Seq::empty(),
                filtered_results: Seq::empty(),
                search_selected: None,
                mode: AppMode::Browse,
                context_canto: None,
                context_highlight_line: None,
            }),
    {
        let r = App {
            commedia,
            current_cantica: String::from_str("Inferno"),
            current_canto: None,
            cantica_list_state: Selection { index: Some(0) },
            canto_list_state: Selection::none(),
            verse_scroll: 0,
            search_input: String::new(),
            search_results: Vec::new(),
            filtered_results: Vec::new(),
            search_list_state: Selection::none(),
            mode: AppMode::Browse,
            fuzzy_matcher: FuzzyRanker::new(),
            context_canto: None,
            context_highlight_line: None,
        };
        assert(results_view(r.search_results@) =~= Seq::empty());
        assert(results_view(r.filtered_results@) =~= Seq::empty());
        r
    }

    fn set_cantica(&mut self, i: usize)
        ensures
            final(self)@ == (AppView {
                cantica_selected: Some(i),
                current_cantica: selected_title(Some(i)),
                canto_selected: None,
                current_canto: None,
                verse_scroll: 0,
                ..old(self)@
            }),
            final(self).commedia == old(self).commedia,
    {
        self.cantica_list_state.select(Some(i));
        self.update_current_cantica();
        self.canto_list_state.select(None);
        self.current_canto = None;
        self.verse_scroll = 0;
    }

    /// Moves to the next cantica, from the last back to the first, with no
    /// canto selected and the verses scrolled to the top.
    pub fn next_cantica(&mut self)
        ensures
            final(self)@ == after_next_cantica(old(self)@),
            final(self).commedia == old(self).commedia,
    {
        let i = match self.cantica_list_state.selected() {
            Some(i) => if i >= 2 {
                0
            } else {
                i + 1
            },
            None => 0,
        };
        self.set_cantica(i);
    }

    /// Moves to the previous cantica, from the first round to the last, with
    /// no canto selected and the verses scrolled to the top.
    pub fn previous_cantica(&mut self)
        ensures
            final(self)@ == after_previous_cantica(old(self)@),
            final(self).commedia == old(self).commedia,
    {
        let i = match self.cantica_list_state.selected() {
            Some(i) => if i == 0 {
                2
            } else {
                i - 1
            },
            None => 0,
        };
        self.set_cantica(i);
    }

    /// Moves to the next canto of the current cantica, from the last back to
    /// the first; none is selected in a cantica without cantos.
    pub fn next_canto(&mut self)
        ensures
            final(self)@ == after_next_canto(old(self)@, old(self).commedia),
            final(self).commedia == old(self).commedia,
    {
        let max_cantos = self.get_current_cantica().sorted_canto_numbers().len();
        let sel = if max_cantos == 0 {
            None
        } else {
            match self.canto_list_state.selected() {
                Some(i) => if i >= max_cantos - 1 {
                    Some(0)
                } else {
                    Some(i + 1)
                },
                None => Some(0),
            }
        };
        self.canto_list_state.select(sel);
        self.update_current_canto();
        self.verse_scroll = 0;
    }

    /// Moves to the previous canto of the current cantica, from the first
    /// round to the last; none is selected in a cantica without cantos.
    pub fn previous_canto(&mut self)
        ensures
            final(self)@ == after_previous_canto(old(self)@, old(self).commedia),
            final(self).commedia == old(self).commedia,
    {
        let max_cantos = self.get_current_cantica().sorted_canto_numbers().len();
        let sel = if max_cantos == 0 {
            None
        } else {
            match self.canto_list_state.selected() {
                Some(i) => if i == 0 {
                    Some(max_cantos - 1)
                } else {
                    Some(i - 1)
                },
                None => Some(0),
            }
        };
        self.canto_list_state.select(sel);
        self.update_current_canto();
        self.verse_scroll = 0;
    }

    /// Scrolls the verses one line down, stopping at the largest offset.
    pub fn scroll_down(&mut self)
        ensures
            final(self)@ == after_scroll_down(old(self)@),
            final(self).commedia == old(self).commedia,
    {
        self.verse_scroll = self.verse_scroll.saturating_add(1);
    }

    /// Scrolls the verses one line up, stopping at the top.
    pub fn scroll_up(&mut self)
        ensures
            final(self)@ == after_scroll_up(old(self)@),
            final(self).commedia == old(self).commedia,
    {
        self.verse_scroll = self.verse_scroll.saturating_sub(1);
    }

    /// Sets the name of the current cantica from the cantica selection.
    pub fn update_current_cantica(&mut self)
        ensures
            final(self)@ == (AppView {
                current_cantica: selected_title(old(self).cantica_list_state.index),
                ..old(self)@
            }),
            final(self).commedia == old(self).commedia,
    {
        self.current_cantica = match self.cantica_list_state.selected() {
            Some(1) => String::from_str("Purgatorio"),
            Some(2) => String::from_str("Paradiso"),
            _ => String::from_str("Inferno"),
        };
    }

    /// Sets the current canto from the canto selection: the number at that
    /// position of the current cantica's ascending canto numbers, or none
    /// where nothing is selected or the position is past the end.
    pub fn update_current_canto(&mut self)
        ensures
            final(self)@ == after_update_canto(old(self)@, old(self).commedia),
            final(self).commedia == old(self).commedia,
    {
        let numbers = self.get_current_cantica().sorted_canto_numbers();
        self.current_canto = match self.canto_list_state.selected() {
            Some(i) => if i < numbers.len() {
                Some(numbers[i])
            } else {
                None
            },
            None => None,
        };
    }

    /// The cantica whose name is the current one; the first for any other
    /// name.
    pub fn get_current_cantica(&self) -> (r: &Cantica)
        ensures
            *r == current_part(self@, self.commedia),
    {
        if same_text(self.current_cantica.as_str(), "Purgatorio") {
            &self.commedia.purgatorio
        } else if same_text(self.current_cantica.as_str(), "Paradiso") {
            &self.commedia.paradiso
        } else {
            &self.commedia.inferno
        }
    }

    /// The current canto of the current cantica, if one is set and exists.
    pub fn get_current_canto(&self) -> (r: Option<&Canto>)
        ensures
            r matches Some(c) ==> self.current_canto matches Some(n) && current_part(
                self@,
                self.commedia,
            ).cantos@.contains_key(n) && *c == current_part(self@, self.commedia).cantos@[n],
            r is None ==> (self.current_canto matches Some(n) ==> !current_part(
                self@,
                self.commedia,
            ).cantos@.contains_key(n)),
    {
        match self.current_canto {
            Some(n) => self.get_current_cantica().canto(n),
            None => None,
        }
    }

    /// Re-runs the live search on the query: the query's hits in all three
    /// canticas, ranked, the first one selected; nothing where the query is
    /// empty or only white space.
    pub fn interactive_search(&mut self)
        ensures
            final(self)@ == after_live_search(old(self)@, old(self).commedia),
            final(self).commedia == old(self).commedia,
            old(self).search_input@.len() == 0 ==> final(self).filtered_results.len() == 0
                && final(self).search_list_state.index is None,
    {
        if trim(self.search_input.as_str()).is_empty() {
            self.filtered_results = Vec::new();
            self.search_list_state.select(None);
            assert(results_view(self.filtered_results@) =~= Seq::empty());
            return;
        }
        let hits = self.commedia.search(self.search_input.as_str(), None);
        let results = self.fuzzy_matcher.rank(&hits, self.search_input.as_str());
        let empty = results.len() == 0;
        self.filtered_results = results;
        self.search_list_state.select(if empty {
            None
        } else {
            Some(0)
        });
    }

    /// Enters the live search with an empty query and no results.
    pub fn enter_search_mode(&mut self)
        ensures
            final(self)@ == after_enter_search(old(self)@),
            final(self).commedia == old(self).commedia,
    {
        self.mode = AppMode::InteractiveSearch;
        self.search_input = String::new();
        self.filtered_results.clear();
        self.search_list_state.select(None);
        assert(results_view(self.filtered_results@) =~= Seq::empty());
    }

    /// Shows the selected hit in its canto: the hit's line is highlighted and
    /// the view starts ten lines above it. Nothing happens where no hit is
    /// selected.
    pub fn enter_context_view(&mut self)
        ensures
            final(self)@ == after_enter_context(old(self)@),
            final(self).commedia == old(self).commedia,
    {
        if let Some(selected) = self.search_list_state.selected() {
            if selected < self.filtered_results.len() {
                let result = &self.filtered_results[selected];
                assert(results_view(self.filtered_results@)[selected as int] == result_view(
                    self.filtered_results@[selected as int],
                ));
                let line = result.line;
                let canto = result.canto;
                let cantica = result.cantica.clone();
                let offset = line.saturating_sub(10);
                let scroll: u16 = if offset > 65535 {
                    65535
                } else {
                    offset as u16
                };
                self.context_canto = Some((cantica, canto));
                self.context_highlight_line = Some(line);
                self.mode = AppMode::ContextView;
                self.verse_scroll = scroll;
            }
        }
    }

    /// Leaves the context view for the live search, whose query and results
    /// are kept as they were.
    pub fn exit_context_view(&mut self)
        ensures
            final(self)@ == after_exit_context(old(self)@),
            final(self).commedia == old(self).commedia,
    {
        self.context_canto = None;
        self.context_highlight_line = None;
        self.mode = AppMode::InteractiveSearch;
    }

    /// Leaves the live search for browsing, with all search state cleared.
    pub fn clear_search(&mut self)
        ensures
            final(self)@ == after_clear_search(old(self)@),
            final(self).commedia == old(self).commedia,
    {
        self.search_input = String::new();
        self.search_results.clear();
        self.filtered_results.clear();
        self.search_list_state.select(None);
        self.mode = AppMode::Browse;
        assert(results_view(self.search_results@) =~= Seq::empty());
        assert(results_view(self.filtered_results@) =~= Seq::empty());
    }

    /// Selects the next result, from the last back to the first; nothing
    /// happens where there are none.
    pub fn next_search_result(&mut self)
        ensures
            final(self)@ == after_next_result(old(self)@),
            final(self).commedia == old(self).commedia,
    {
        let len = self.filtered_results.len();
        if len == 0 {
            return;
        }
        let i = match self.search_list_state.selected() {
            Some(i) => if i >= len - 1 {
                0
            } else {
                i + 1
            },
            None => 0,
        };
        self.search_list_state.select(Some(i));
    }

    /// Selects the previous result, from the first round to the last; nothing
    /// happens where there are none.
    pub fn previous_search_result(&mut self)
        ensures
            final(self)@ == after_previous_result(old(self)@),
            final(self).commedia == old(self).commedia,
    {
        let len = self.filtered_results.len();
        if len == 0 {
            return;
        }
        let i = match self.search_list_state.selected() {
            Some(i) => if i == 0 {
                len - 1
            } else {
                i - 1
            },
            None => 0,
        };
        self.search_list_state.select(Some(i));
    }

    /// The canto shown in the context view: the one of the hit's cantica and
    /// number, if that cantica name is one of the three and the canto exists.
    pub fn get_context_canto(&self) -> (r: Option<&Canto>)
        ensures
            r matches Some(c) ==> self.context_canto matches Some(p) && ({
                let name = p.0@;
                let part = self.commedia.part(cantica_index_of(name));
                &&& (name == "Inferno"@ || name == "Purgatorio"@ || name == "Paradiso"@)
                &&& part.cantos@.contains_key(p.1)
                &&& *c == part.cantos@[p.1]
            }),
            r is None ==> (self.context_canto matches Some(p) ==> {
                let name = p.0@;
                !(name == "Inferno"@ || name == "Purgatorio"@ || name == "Paradiso"@)
                    || !self.commedia.part(cantica_index_of(name)).cantos@.contains_key(p.1)
            }),
    {
        match &self.context_canto {
            Some(p) => {
                let name = p.0.as_str();
                proof {
                    lemma_titles_distinct();
                }
                let index: Option<usize> = if same_text(name, "Inferno") {
                    Some(0)
                } else if same_text(name, "Purgatorio") {
                    Some(1)
                } else if same_text(name, "Paradiso") {
                    Some(2)
                } else {
                    None
                };
                match index {
                    Some(i) => self.commedia.cantica(i).canto(p.1),
                    None => None,
                }
            },
            None => None,
        }
    }

    /// Adds a character to the query and re-runs the live search.
    fn type_char(&mut self, c: char)
        ensures
            final(self)@ == after_type_char(old(self)@, old(self).commedia, c),
            final(self).commedia == old(self).commedia,
    {
        push_char(&mut self.search_input, c);
        self.interactive_search();
    }

    /// Takes the last character off the query and re-runs the live search.
    fn backspace(&mut self)
        ensures
            final(self)@ == after_backspace(old(self)@, old(self).commedia),
            final(self).commedia == old(self).commedia,
    {
        pop_char(&mut self.search_input);
        self.interactive_search();
    }

    /// Handles one key press; returns whether the reader is to quit.
    pub fn handle_key(&mut self, key: Key) -> (quit: bool)
        ensures
            (final(self)@, quit) == after_key(old(self)@, old(self).commedia, key),
            final(self).commedia == old(self).commedia,
    {
        match self.mode {
            AppMode::Browse => match key {
                Key::Char('q') => {
                    return true;
                },
                Key::Char('h') | Key::Left => self.previous_cantica(),
                Key::Char('l') | Key::Right => self.next_cantica(),
                Key::Char('j') | Key::Down => self.next_canto(),
                Key::Char('k') | Key::Up => self.previous_canto(),
                Key::Char('J') => self.scroll_down(),
                Key::Char('K') => self.scroll_up(),
                Key::Char('/') => self.enter_search_mode(),
                Key::Enter => {
                    if self.current_canto.is_none() && self.canto_list_state.selected().is_some() {
                        self.update_current_canto();
                    }
                },
                _ => {},
            },
            AppMode::InteractiveSearch => match key {
                Key::Esc => self.clear_search(),
                Key::Backspace => self.backspace(),
                Key::Down | Key::Char('j') => self.next_search_result(),
                Key::Up | Key::Char('k') => self.previous_search_result(),
                Key::Enter => self.enter_context_view(),
                Key::Char(c) => self.type_char(c),
                _ => {},
            },
            AppMode::ContextView => match key {
                Key::Char('q') | Key::Esc => self.exit_context_view(),
                Key::Char('J') | Key::Down => self.scroll_down(),
                Key::Char('K') | Key::Up => self.scroll_up(),
                _ => {},
            },
        }
        false
    }
}

} // verus!
