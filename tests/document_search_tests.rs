use duca::{rank_candidates, Canto, DivinaCommedia, FuzzyRanker, Hit, SearchResult, Verse};

fn verse(line_number: usize, text: &str) -> Verse {
    Verse { line_number, text: text.to_string() }
}

fn canto(number: u8, numeral: &str, verses: Vec<Verse>) -> Canto {
    Canto { number, roman_numeral: numeral.to_string(), verses }
}

fn hit(cantica: &str, canto: u8, line: usize, text: &str) -> Hit {
    (cantica.to_string(), canto, line, text.to_string())
}

#[test]
fn test_divina_commedia_new() {
    let commedia = DivinaCommedia::new();
    assert_eq!(commedia.inferno.name, "Inferno");
    assert_eq!(commedia.purgatorio.name, "Purgatorio");
    assert_eq!(commedia.paradiso.name, "Paradiso");
    assert!(commedia.inferno.cantos.is_empty());
    assert!(commedia.purgatorio.cantos.is_empty());
    assert!(commedia.paradiso.cantos.is_empty());
}

#[test]
fn default_is_the_empty_poem() {
    let commedia = DivinaCommedia::default();
    assert_eq!(commedia.paradiso.name, "Paradiso");
    assert!(commedia.inferno.cantos.is_empty());
}

#[test]
fn test_search_functionality() {
    let mut commedia = DivinaCommedia::new();

    let canto = Canto {
        number: 1,
        roman_numeral: "I".to_string(),
        verses: vec![
            Verse { line_number: 1, text: "Nel mezzo del cammin di nostra vita".to_string() },
            Verse { line_number: 2, text: "mi ritrovai per una selva oscura".to_string() },
            Verse { line_number: 3, text: "ché la diritta via era smarrita".to_string() },
        ],
    };
    commedia.inferno.cantos.insert(1, canto);

    let results = commedia.search("selva", None);
    assert_eq!(results.len(), 1);
    assert_eq!(results[0].0, "Inferno");
    assert_eq!(results[0].1, 1);
    assert_eq!(results[0].2, 2);
    assert!(results[0].3.contains("selva"));

    let results = commedia.search("SELVA", None);
    assert_eq!(results.len(), 1);

    let results = commedia.search("nonexistent", None);
    assert_eq!(results.len(), 0);

    let results = commedia.search("selva", Some("purgatorio"));
    assert_eq!(results.len(), 0);

    let results = commedia.search("selva", Some("inferno"));
    assert_eq!(results.len(), 1);
}

#[test]
fn test_verse_and_canto_structures() {
    let verse = Verse { line_number: 42, text: "Test verse text".to_string() };
    assert_eq!(verse.line_number, 42);
    assert_eq!(verse.text, "Test verse text");

    let canto = Canto { number: 5, roman_numeral: "V".to_string(), verses: vec![verse] };
    assert_eq!(canto.number, 5);
    assert_eq!(canto.roman_numeral, "V");
    assert_eq!(canto.verses.len(), 1);
}

#[test]
fn test_gutenberg_marker_detection() {
    let test_lines = vec![
        "Normal verse text",
        "Updated editions will replace the previous one",
        "This should not be parsed",
    ];

    let mut should_continue = true;
    for line in test_lines {
        if line.starts_with("Updated editions will replace") {
            should_continue = false;
            break;
        }
    }

    assert!(!should_continue);
}

#[test]
fn test_search_results_ordering() {
    let mut commedia = DivinaCommedia::new();
    commedia.inferno.cantos.insert(
        3,
        canto(3, "III", vec![verse(1, "test third canto first verse"), verse(5, "test third canto fifth verse")]),
    );
    commedia.inferno.cantos.insert(
        1,
        canto(1, "I", vec![verse(2, "test first canto second verse"), verse(1, "test first canto first verse")]),
    );
    commedia.inferno.cantos.insert(2, canto(2, "II", vec![verse(1, "test second canto first verse")]));

    let results = commedia.search("test", None);
    assert_eq!(results.len(), 5);
    assert_eq!(results[0], ("Inferno".to_string(), 1, 1, "test first canto first verse".to_string()));
    assert_eq!(results[1], ("Inferno".to_string(), 1, 2, "test first canto second verse".to_string()));
    assert_eq!(results[2], ("Inferno".to_string(), 2, 1, "test second canto first verse".to_string()));
    assert_eq!(results[3], ("Inferno".to_string(), 3, 1, "test third canto first verse".to_string()));
    assert_eq!(results[4], ("Inferno".to_string(), 3, 5, "test third canto fifth verse".to_string()));
}

#[test]
fn test_search_results_cross_cantica_ordering() {
    let mut commedia = DivinaCommedia::new();
    commedia.paradiso.cantos.insert(1, canto(1, "I", vec![verse(1, "test paradiso canto one")]));
    commedia.inferno.cantos.insert(2, canto(2, "II", vec![verse(1, "test inferno canto two")]));
    commedia.purgatorio.cantos.insert(
        1,
        canto(1, "I", vec![verse(3, "test purgatorio canto one"), verse(1, "test purgatorio canto one first")]),
    );
    commedia.inferno.cantos.insert(1, canto(1, "I", vec![verse(2, "test inferno canto one")]));

    let results = commedia.search("test", None);
    assert_eq!(results.len(), 5);
    assert_eq!(results[0], ("Inferno".to_string(), 1, 2, "test inferno canto one".to_string()));
    assert_eq!(results[1], ("Inferno".to_string(), 2, 1, "test inferno canto two".to_string()));
    assert_eq!(results[2], ("Purgatorio".to_string(), 1, 1, "test purgatorio canto one first".to_string()));
    assert_eq!(results[3], ("Purgatorio".to_string(), 1, 3, "test purgatorio canto one".to_string()));
    assert_eq!(results[4], ("Paradiso".to_string(), 1, 1, "test paradiso canto one".to_string()));
}

fn small_poem() -> DivinaCommedia {
    let mut commedia = DivinaCommedia::new();
    commedia.inferno.cantos.insert(
        5,
        canto(
            5,
            "V",
            vec![
                verse(100, "Amor, ch'al cor gentil ratto s'apprende,"),
                verse(103, "Amor, ch'a nullo amato amar perdona,"),
                verse(106, "Amor condusse noi ad una morte."),
            ],
        ),
    );
    commedia.inferno.cantos.insert(
        1,
        canto(
            1,
            "I",
            vec![
                verse(1, "Nel mezzo del cammin di nostra vita"),
                verse(2, "mi ritrovai per una selva oscura"),
                verse(3, "ché la diritta via era smarrita."),
            ],
        ),
    );
    commedia.purgatorio.cantos.insert(
        1,
        canto(1, "I", vec![verse(1, "Per correr miglior acque alza le vele"), verse(2, "dolce color d'oriental zaffiro (amor)")]),
    );
    commedia.paradiso.cantos.insert(33, canto(33, "XXXIII", vec![verse(145, "l'amor che move il sole e l'altre stelle.")]));
    commedia
}

#[test]
fn search_ignores_case() {
    let commedia = small_poem();
    let upper = commedia.search("AMOR", None);
    let lower = commedia.search("amor", None);
    assert_eq!(upper, lower);
    assert_eq!(upper.len(), 5);
    assert_eq!(upper[0], hit("Inferno", 5, 100, "Amor, ch'al cor gentil ratto s'apprende,"));
    assert_eq!(upper[4], hit("Paradiso", 33, 145, "l'amor che move il sole e l'altre stelle."));
}

#[test]
fn search_is_repeatable() {
    let commedia = small_poem();
    assert_eq!(commedia.search("a", None), commedia.search("a", None));
    assert_eq!(commedia.search("a", Some("inferno")), commedia.search("a", Some("inferno")));
}

#[test]
fn filter_narrows_the_search() {
    let commedia = small_poem();
    let all = commedia.search("amor", None);
    for filter in ["inferno", "purgatorio", "paradiso", "limbo"] {
        let kept = commedia.search("amor", Some(filter));
        assert!(kept.len() <= all.len());
    }
    let kept = commedia.search("amor", Some("purgatorio"));
    assert_eq!(kept, vec![hit("Purgatorio", 1, 2, "dolce color d'oriental zaffiro (amor)")]);
    let inferno = commedia.search("amor", Some("inferno"));
    assert_eq!(inferno.len(), 3);
    assert!(inferno.iter().all(|h| h.0 == "Inferno"));
    // an unknown filter means all three
    assert_eq!(commedia.search("amor", Some("limbo")), all);
}

#[test]
fn invalid_regex_is_searched_literally() {
    let commedia = small_poem();
    // "(amor" does not compile, so it is matched as literal text (case-sensitively)
    let results = commedia.search("(amor", None);
    assert_eq!(results, vec![hit("Purgatorio", 1, 2, "dolce color d'oriental zaffiro (amor)")]);
    assert!(commedia.search("(AMOR", None).is_empty());
}

#[test]
fn regex_syntax_is_honoured() {
    let commedia = small_poem();
    let results = commedia.search("^amor", None);
    assert_eq!(results.len(), 3);
    let results = commedia.search("vita$", None);
    assert_eq!(results, vec![hit("Inferno", 1, 1, "Nel mezzo del cammin di nostra vita")]);
}

#[test]
fn end_to_end_search_finds_the_dark_wood() {
    let commedia = small_poem();
    let results = commedia.search("selva", None);
    assert_eq!(results, vec![hit("Inferno", 1, 2, "mi ritrovai per una selva oscura")]);
}

#[test]
fn empty_cantica_is_reported() {
    assert_eq!(DivinaCommedia::new().empty_cantica(), Some(0));
    let mut commedia = small_poem();
    assert_eq!(commedia.empty_cantica(), None);
    commedia.purgatorio.cantos.clear();
    assert_eq!(commedia.empty_cantica(), Some(1));
    commedia.inferno.cantos.clear();
    assert_eq!(commedia.empty_cantica(), Some(0));
}

#[test]
fn canto_lookup_and_sorted_numbers() {
    let commedia = small_poem();
    assert_eq!(commedia.inferno.sorted_canto_numbers(), vec![1, 5]);
    assert!(commedia.inferno.canto(5).is_some());
    assert_eq!(commedia.inferno.canto(5).unwrap().verses.len(), 3);
    assert!(commedia.inferno.canto(2).is_none());
    assert_eq!(commedia.cantica(2).name, "Paradiso");
    assert!(DivinaCommedia::new().paradiso.sorted_canto_numbers().is_empty());
}

fn scored(text: &str, line: usize, score: Option<i64>) -> (Hit, Option<i64>) {
    (hit("Inferno", 1, line, text), score)
}

#[test]
fn ranking_sorts_by_score_and_keeps_ties_in_order() {
    let candidates = vec![
        scored("a", 1, Some(10)),
        scored("b", 2, None),
        scored("c", 3, Some(30)),
        scored("d", 4, Some(10)),
        scored("e", 5, Some(-5)),
        scored("f", 6, Some(30)),
    ];
    let ranked = rank_candidates(&candidates);
    let order: Vec<(usize, i64)> = ranked.iter().map(|r| (r.line, r.score)).collect();
    assert_eq!(order, vec![(3, 30), (6, 30), (1, 10), (4, 10), (5, -5)]);
    assert_eq!(
        ranked[0],
        SearchResult { cantica: "Inferno".to_string(), canto: 1, line: 3, text: "c".to_string(), score: 30 }
    );
}

#[test]
fn ranking_keeps_at_most_fifty() {
    let candidates: Vec<(Hit, Option<i64>)> =
        (0..120).map(|i| scored("x", i, Some((i % 7) as i64))).collect();
    let ranked = rank_candidates(&candidates);
    assert_eq!(ranked.len(), 50);
    assert!(ranked.windows(2).all(|w| w[0].score >= w[1].score));
    // seventeen each score 6 and 5; the first sixteen that score 4 fill the rest
    assert_eq!(ranked.iter().filter(|r| r.score == 6).count(), 17);
    assert_eq!(ranked.iter().filter(|r| r.score == 5).count(), 17);
    let fours: Vec<usize> = ranked.iter().filter(|r| r.score == 4).map(|r| r.line).collect();
    assert_eq!(fours, (0..16).map(|k| 4 + 7 * k).collect::<Vec<usize>>());
    // equal scores keep their order in the input
    let sixes: Vec<usize> = ranked.iter().filter(|r| r.score == 6).map(|r| r.line).collect();
    let mut sorted = sixes.clone();
    sorted.sort();
    assert_eq!(sixes, sorted);
    assert!(rank_candidates(&Vec::new()).is_empty());
}

#[test]
fn fuzzy_ranking_of_hits() {
    let commedia = small_poem();
    let ranker = FuzzyRanker::new();
    let hits = commedia.search("a", None);
    assert!(hits.len() > 5);
    // an empty or blank query ranks nothing
    assert!(ranker.rank(&hits, "").is_empty());
    assert!(ranker.rank(&hits, "   ").is_empty());
    let ranked = ranker.rank(&hits, "amor");
    assert!(!ranked.is_empty());
    assert!(ranked.len() <= 50);
    assert!(ranked.windows(2).all(|w| w[0].score >= w[1].score));
    for r in &ranked {
        assert_eq!(Some(r.score), ranker.fuzzy_match(&r.text, "amor"));
    }
    // a hit the matcher rejects is dropped
    assert!(ranker.rank(&hits, "zzzz").is_empty());
}

#[test]
fn test_search_result_structure() {
    let result = SearchResult {
        cantica: "Inferno".to_string(),
        canto: 1,
        line: 2,
        text: "test verse".to_string(),
        score: 100,
    };

    assert_eq!(result.cantica, "Inferno");
    assert_eq!(result.canto, 1);
    assert_eq!(result.line, 2);
    assert_eq!(result.text, "test verse");
    assert_eq!(result.score, 100);
}
