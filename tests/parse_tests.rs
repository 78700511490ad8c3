use duca::{canto_heading, parse_cantica_content, Canto, DivinaCommedia, Verse};

#[test]
fn test_parse_cantica_content() {
    let sample_text = r#"
Some header text
*** START OF THE PROJECT GUTENBERG EBOOK ***

Canto I

Nel mezzo del cammin di nostra vita
mi ritrovai per una selva oscura
ché la diritta via era smarrita.

Canto II

Per me si va ne la città dolente,
per me si va ne l'etterno dolore,
per me si va tra la perduta gente.

Updated editions will replace the previous one
This should be ignored
"#;

    let mut commedia = DivinaCommedia::new();
    let result = parse_cantica_content(sample_text, "inferno", &mut commedia);

    assert!(result.is_ok());
    assert_eq!(commedia.inferno.cantos.len(), 2);

    let canto1 = commedia.inferno.cantos.get(&1).unwrap();
    assert_eq!(canto1.number, 1);
    assert_eq!(canto1.roman_numeral, "I");
    assert_eq!(canto1.verses.len(), 3);
    assert!(canto1.verses[0].text.contains("Nel mezzo"));

    let canto2 = commedia.inferno.cantos.get(&2).unwrap();
    assert_eq!(canto2.number, 2);
    assert_eq!(canto2.roman_numeral, "II");
    assert_eq!(canto2.verses.len(), 3);
    assert!(canto2.verses[0].text.contains("Per me si va"));
}

#[test]
fn test_regex_patterns() {
    assert!(canto_heading("Canto I").is_some());
    assert!(canto_heading("Canto II").is_some());
    assert!(canto_heading("Canto XXXIII").is_some());
    assert!(canto_heading("Canto XIV.").is_some());

    assert!(canto_heading("canto i").is_none());
    assert!(canto_heading("Canto 1").is_none());
    assert!(canto_heading("Cantoi").is_none());
    assert!(canto_heading("Some other text").is_none());
}

#[test]
fn heading_numerals() {
    assert_eq!(canto_heading("Canto XIV."), Some("XIV".to_string()));
    assert_eq!(canto_heading("Canto \t XXXIV"), Some("XXXIV".to_string()));
    assert_eq!(canto_heading("Canto"), None);
    assert_eq!(canto_heading("Canto ."), None);
    assert_eq!(canto_heading("Canto X.."), None);
    assert_eq!(canto_heading("Canto X I"), None);
}

#[test]
fn parsing_numbers_verses_and_skips_notices() {
    let text = "Canto III.\r\n  Per me si va  \r\n\r\n*** a rule line\r\nthe Project Gutenberg licence\r\nLasciate ogne speranza\r\nCanto XXXIV\nLa gloria di colui\n";
    let mut commedia = DivinaCommedia::new();
    parse_cantica_content(text, "paradiso", &mut commedia).unwrap();
    assert!(commedia.inferno.cantos.is_empty());
    assert!(commedia.purgatorio.cantos.is_empty());
    let c3 = &commedia.paradiso.cantos[&3];
    assert_eq!(c3.roman_numeral, "III");
    let verses: Vec<(usize, &str)> = c3.verses.iter().map(|v| (v.line_number, v.text.as_str())).collect();
    assert_eq!(verses, vec![(1, "Per me si va"), (2, "Lasciate ogne speranza")]);
    let c34 = &commedia.paradiso.cantos[&34];
    assert_eq!(c34.number, 34);
    assert_eq!(c34.roman_numeral, "XXXIV");
    assert_eq!(c34.verses.len(), 1);
}

#[test]
fn parsing_under_an_unknown_name_changes_nothing() {
    let mut commedia = DivinaCommedia::new();
    parse_cantica_content("Canto I\nverso", "limbo", &mut commedia).unwrap();
    assert!(commedia.inferno.cantos.is_empty());
    assert!(commedia.purgatorio.cantos.is_empty());
    assert!(commedia.paradiso.cantos.is_empty());
}

#[test]
fn parsing_keeps_other_cantos_and_replaces_equal_numbers() {
    let mut commedia = DivinaCommedia::new();
    commedia.purgatorio.cantos.insert(
        9,
        Canto { number: 9, roman_numeral: "IX".to_string(), verses: vec![Verse { line_number: 1, text: "old".to_string() }] },
    );
    commedia.purgatorio.cantos.insert(
        2,
        Canto { number: 2, roman_numeral: "II".to_string(), verses: vec![] },
    );
    parse_cantica_content("Canto II\nnew one\nnew two\nCanto II\nnewest", "purgatorio", &mut commedia).unwrap();
    assert_eq!(commedia.purgatorio.cantos.len(), 2);
    assert_eq!(commedia.purgatorio.cantos[&9].verses[0].text, "old");
    let c2 = &commedia.purgatorio.cantos[&2];
    assert_eq!(c2.verses.len(), 1);
    assert_eq!(c2.verses[0].text, "newest");
}

#[test]
fn parsing_stops_at_the_end_marker_and_ignores_text_before_a_heading() {
    let mut commedia = DivinaCommedia::new();
    let text = "preface line\nCanto I\nuno\nUpdated editions will replace this\nCanto II\ndue\n";
    parse_cantica_content(text, "inferno", &mut commedia).unwrap();
    assert_eq!(commedia.inferno.cantos.len(), 1);
    assert_eq!(commedia.inferno.cantos[&1].verses.len(), 1);
    assert_eq!(commedia.inferno.cantos[&1].verses[0].text, "uno");
}
