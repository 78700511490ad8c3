//! Reading the plain text of one cantica into numbered cantos of numbered
//! verses.
//!
//! The text is read line by line, each line trimmed. Blank lines are skipped.
//! A line "Canto" + white space + Roman numeral (+ an optional full stop)
//! starts a canto; the lines after it, up to the next heading, are its verses,
//! numbered from one, except lines that start with "*** " or mention
//! "Project Gutenberg". Reading stops at the line that starts with "Updated
//! editions will replace". Text before the first heading is ignored.

use vstd::prelude::*;
use crate::document::{cantica_title, Canto, DivinaCommedia, Verse};
use crate::roman::{numeral_total, numeral_value, roman_numeral, roman_to_number};
use crate::search::filter_part;
use crate::text::{chars_of, push_char, same_text, trim, trimmed};

verus! {

broadcast use vstd::std_specs::hash::group_hash_axioms;

/// Whether `c` has the Unicode White_Space property.
pub uninterp spec fn white_space(c: char) -> bool;

/// Relies on `char::is_whitespace`, which tells whether a character has the
/// Unicode White_Space property.
#[verifier::external_body]
fn is_white_space(c: char) -> (r: bool)
    ensures
        r == white_space(c),
{
    c.is_whitespace()
}

/// The pieces of `s` between newline characters, in order; the last one is
/// what follows the last newline (empty where `s` ends with one).
pub open spec fn split_lines(s: Seq<char>) -> Seq<Seq<char>>
    decreases s.len(),
{
    if s.len() == 0 {
        seq![Seq::empty()]
    } else {
        let r = split_lines(s.drop_last());
        if s.last() == '\n' {
            r.push(Seq::empty())
        } else {
            r.update(r.len() - 1, r.last().push(s.last()))
        }
    }
}

/// The lines of `s`, each without its leading and trailing white space.
pub open spec fn trimmed_lines(s: Seq<char>) -> Seq<Seq<char>> {
    split_lines(s).map_values(|l: Seq<char>| trimmed(l))
}

pub open spec fn starts_with(s: Seq<char>, p: Seq<char>) -> bool {
    p.len() <= s.len() && s.take(p.len() as int) == p
}

pub open spec fn contains_text(s: Seq<char>, p: Seq<char>) -> bool {
    exists|i: int| 0 <= i && i + p.len() <= s.len() && #[trigger] s.subrange(i, i + p.len()) == p
}

pub open spec fn is_numeral_letter(c: char) -> bool {
    c == 'I' || c == 'V' || c == 'X' || c == 'L' || c == 'C' || c == 'D' || c == 'M'
}

pub open spec fn all_numeral_letters(s: Seq<char>) -> bool {
    forall|i: int| 0 <= i < s.len() ==> is_numeral_letter(#[trigger] s[i])
}

/// How many white-space characters `s` starts with.
pub open spec fn leading_white_space(s: Seq<char>) -> nat
    decreases s.len(),
{
    if s.len() > 0 && white_space(s[0]) {
        1 + leading_white_space(s.drop_first())
    } else {
        0
    }
}

/// The numeral of a canto heading: "Canto", at least one white-space
/// character, at least one Roman digit and at most one full stop, and
/// nothing else. None for any other line.
pub open spec fn heading_numeral(t: Seq<char>) -> Option<Seq<char>> {
    if !starts_with(t, "Canto"@) {
        None
    } else {
        let body = t.skip("Canto"@.len() as int);
        let k = leading_white_space(body);
        let rest = body.skip(k as int);
        let numeral = if rest.len() > 0 && rest.last() == '.' {
            rest.drop_last()
        } else {
            rest
        };
        if k > 0 && numeral.len() > 0 && all_numeral_letters(numeral) {
            Some(numeral)
        } else {
            None
        }
    }
}

/// The verses of a canto as the contracts see them: line number and text.
pub type VerseView = (usize, Seq<char>);

pub open spec fn verses_view(v: Seq<Verse>) -> Seq<VerseView> {
    v.map_values(|x: Verse| (x.line_number, x.text@))
}

/// Where the reading stands after some lines.
pub struct ParseState {
    pub current: u8,
    pub verses: Seq<VerseView>,
    pub line_number: nat,
    pub in_canto: bool,
    pub stopped: bool,
    pub cantos: Map<u8, Seq<VerseView>>,
}

pub open spec fn initial_state() -> ParseState {
    ParseState {
        current: 0,
        verses: Seq::empty(),
        line_number: 0,
        in_canto: false,
        stopped: false,
        cantos: Map::empty(),
    }
}

/// The cantos read so far, the one being read included where it has a
/// number other than zero.
pub open spec fn with_open_canto(s: ParseState) -> Map<u8, Seq<VerseView>> {
    if s.in_canto && s.current > 0 {
        s.cantos.insert(s.current, s.verses)
    } else {
        s.cantos
    }
}

/// The reading after one more trimmed line `t`.
pub open spec fn parse_step(s: ParseState, t: Seq<char>) -> ParseState {
    if s.stopped || t.len() == 0 {
        s
    } else if starts_with(t, "Updated editions will replace"@) {
        ParseState { stopped: true, ..s }
    } else {
        match heading_numeral(t) {
            Some(n) => ParseState {
                current: (numeral_total(n) % 256) as u8,
                verses: Seq::empty(),
                line_number: 0,
                in_canto: true,
                cantos: with_open_canto(s),
                ..s
            },
            None => if s.in_canto && !starts_with(t, "*** "@) && !contains_text(
                t,
                "Project Gutenberg"@,
            ) {
                ParseState {
                    line_number: s.line_number + 1,
                    verses: s.verses.push(((s.line_number + 1) as usize, t)),
                    ..s
                }
            } else {
                s
            },
        }
    }
}

pub open spec fn parse_lines(lines: Seq<Seq<char>>) -> ParseState
    decreases lines.len(),
{
    if lines.len() == 0 {
        initial_state()
    } else {
        parse_step(parse_lines(lines.drop_last()), lines.last())
    }
}

/// The cantos that a text holds, by number.
pub open spec fn parsed_cantos(content: Seq<char>) -> Map<u8, Seq<VerseView>> {
    with_open_canto(parse_lines(trimmed_lines(content)))
}

/// The verses are numbered 1, 2, 3, ... in order.
pub open spec fn numbered_from_one(v: Seq<VerseView>) -> bool {
    forall|j: int| 0 <= j < v.len() ==> (#[trigger] v[j]).0 == j + 1
}

/// `new` is `old` with the cantos of `read` put in: each stored under its
/// number with its numeral label and verses, the other cantos as they were.
pub open spec fn cantos_put(old: Map<u8, Canto>, new: Map<u8, Canto>, read: Map<u8, Seq<VerseView>>) -> bool {
    &&& forall|k: u8| #[trigger] new.contains_key(k) <==> old.contains_key(k) || read.contains_key(k)
    &&& forall|k: u8|
        #[trigger] read.contains_key(k) ==> new[k].number == k && new[k].roman_numeral@
            == roman_numeral(k as nat) && verses_view(new[k].verses@) == read[k]
    &&& forall|k: u8| !read.contains_key(k) && #[trigger] old.contains_key(k) ==> new[k] == old[k]
}

proof fn lemma_leading_white_space_bound(s: Seq<char>)
    ensures
        leading_white_space(s) <= s.len(),
    decreases s.len(),
{
    if s.len() > 0 {
        lemma_leading_white_space_bound(s.drop_first());
    }
}

/// The text cut at each newline.
fn split_at_newlines(content: &str) -> (r: Vec<String>)
    ensures
        r@.map_values(|l: String| l@) == split_lines(content@),
{
    let chars = chars_of(content);
    let mut out: Vec<String> = Vec::new();
    let mut piece = String::new();
    let mut i: usize = 0;
    assert(chars@.take(0) =~= Seq::<char>::empty());
    assert(out@.map_values(|l: String| l@).push(piece@) =~= split_lines(chars@.take(0)));
    while i < chars.len()
        invariant
            i <= chars.len(),
            chars@ == content@,
            out@.map_values(|l: String| l@).push(piece@) == split_lines(chars@.take(i as int)),
        decreases chars.len() - i,
    {
        let c = chars[i];
        let ghost before = out@.map_values(|l: String| l@);
        let ghost before_piece = piece@;
        assert(chars@.take(i + 1).drop_last() =~= chars@.take(i as int));
        assert(chars@.take(i + 1).last() == c);
        if c == '\n' {
            out.push(piece);
            piece = String::new();
            assert(out@.map_values(|l: String| l@) =~= before.push(before_piece));
            assert(out@.map_values(|l: String| l@).push(piece@) =~= before.push(before_piece).push(
                Seq::empty(),
            ));
        } else {
            push_char(&mut piece, c);
            assert(out@.map_values(|l: String| l@).push(piece@) =~= before.push(before_piece).update(
                before.len() as int,
                before_piece.push(c),
            ));
        }
        i = i + 1;
    }
    assert(chars@.take(i as int) =~= content@);
    let ghost before = out@.map_values(|l: String| l@);
    let ghost last = piece@;
    out.push(piece);
    assert(out@.map_values(|l: String| l@) =~= before.push(last));
    out
}

fn starts_with_chars(s: &Vec<char>, p: &Vec<char>) -> (r: bool)
    ensures
        r == starts_with(s@, p@),
{
    if p.len() > s.len() {
        return false;
    }
    let mut i: usize = 0;
    while i < p.len()
        invariant
            i <= p.len() <= s.len(),
            forall|j: int| 0 <= j < i ==> s@[j] == p@[j],
        decreases p.len() - i,
    {
        if s[i] != p[i] {
            assert(s@.take(p.len() as int)[i as int] != p@[i as int]);
            return false;
        }
        i = i + 1;
    }
    assert(s@.take(p.len() as int) =~= p@);
    true
}

fn contains_chars(s: &Vec<char>, p: &Vec<char>) -> (r: bool)
    ensures
        r == contains_text(s@, p@),
{
    if p.len() > s.len() {
        return false;
    }
    let mut start: usize = 0;
    while start <= s.len() - p.len()
        invariant
            p.len() <= s.len(),
            start <= s.len() - p.len() + 1,
            forall|a: int| 0 <= a < start ==> #[trigger] s@.subrange(a, a + p.len()) != p@,
        decreases s.len() - start,
    {
        let mut i: usize = 0;
        let mut same = true;
        while i < p.len()
            invariant
                i <= p.len(),
                start + p.len() <= s.len(),
                same == forall|j: int| 0 <= j < i ==> s@[start + j] == p@[j],
            decreases p.len() - i,
        {
            if s[start + i] != p[i] {
                same = false;
            }
            i = i + 1;
        }
        if same {
            assert(s@.subrange(start as int, start + p.len()) =~= p@);
            return true;
        }
        assert(s@.subrange(start as int, start + p.len()) != p@) by {
            let j = choose|j: int| 0 <= j < p.len() && s@[start + j] != p@[j];
            assert(s@.subrange(start as int, start + p.len())[j] != p@[j]);
        }
        start = start + 1;
    }
    assert forall|a: int| 0 <= a && a + p.len() <= s.len() implies #[trigger] s@.subrange(
        a,
        a + p.len(),
    ) != p@ by {}
    false
}

/// The numeral of a canto heading, or none for any other line.
fn heading(t: &Vec<char>, word: &Vec<char>) -> (r: Option<Vec<char>>)
    requires
        word@ == "Canto"@,
    ensures
        r matches Some(n) ==> heading_numeral(t@) == Some(n@),
        r is None ==> heading_numeral(t@) is None,
{
    if !starts_with_chars(t, word) {
        return None;
    }
    let ghost body = t@.skip(word.len() as int);
    let mut i: usize = word.len();
    proof {
        lemma_leading_white_space_bound(body);
    }
    while i < t.len() && is_white_space(t[i])
        invariant
            word.len() <= i <= t.len(),
            word@ == "Canto"@,
            starts_with(t@, "Canto"@),
            body == t@.skip(word.len() as int),
            leading_white_space(body) == (i - word.len()) + leading_white_space(t@.skip(i as int)),
        decreases t.len() - i,
    {
        assert(t@.skip(i as int).drop_first() =~= t@.skip(i + 1));
        i = i + 1;
    }
    let k = i - word.len();
    assert(leading_white_space(t@.skip(i as int)) == 0);
    assert(body.skip(k as int) =~= t@.skip(i as int));
    let mut end = t.len();
    if end > i && t[end - 1] == '.' {
        end = end - 1;
    }
    let ghost rest = t@.skip(i as int);
    let ghost numeral = if rest.len() > 0 && rest.last() == '.' {
        rest.drop_last()
    } else {
        rest
    };
    assert(numeral =~= t@.subrange(i as int, end as int));
    if k == 0 || end == i {
        return None;
    }
    assert(body.skip(k as int) == rest);
    assert(heading_numeral(t@) == if all_numeral_letters(numeral) {
        Some(numeral)
    } else {
        None::<Seq<char>>
    });
    let mut out: Vec<char> = Vec::new();
    let mut j: usize = i;
    while j < end
        invariant
            i <= j <= end <= t.len(),
            numeral == t@.subrange(i as int, end as int),
            heading_numeral(t@) == if all_numeral_letters(numeral) {
                Some(numeral)
            } else {
                None::<Seq<char>>
            },
            out@ == t@.subrange(i as int, j as int),
            forall|m: int| 0 <= m < out.len() ==> is_numeral_letter(#[trigger] out@[m]),
        decreases end - j,
    {
        let c = t[j];
        assert(numeral[j - i] == c);
        if !(c == 'I' || c == 'V' || c == 'X' || c == 'L' || c == 'C' || c == 'D' || c == 'M') {
            assert(numeral[j - i] == c);
            return None;
        }
        out.push(c);
        assert(out@ =~= t@.subrange(i as int, j + 1));
        j = j + 1;
    }
    assert(out@ =~= numeral);
    Some(out)
}

/// The Roman numeral of a canto heading line ("Canto", white space, Roman
/// digits, an optional full stop); none for any other line.
pub fn canto_heading(line: &str) -> (r: Option<String>)
    ensures
        r matches Some(n) ==> heading_numeral(line@) == Some(n@),
        r is None ==> heading_numeral(line@) is None,
{
    let chars = chars_of(line);
    let word = chars_of("Canto");
    match heading(&chars, &word) {
        Some(numeral) => {
            let mut out = String::new();
            let mut i: usize = 0;
            while i < numeral.len()
                invariant
                    i <= numeral.len(),
                    out@ == numeral@.take(i as int),
                decreases numeral.len() - i,
            {
                push_char(&mut out, numeral[i]);
                assert(out@ =~= numeral@.take(i + 1));
                i = i + 1;
            }
            assert(out@ =~= numeral@);
            Some(out)
        },
        None => None,
    }
}

/// Puts a finished canto into the part at `target`, if any.
fn store(commedia: &mut DivinaCommedia, target: Option<usize>, number: u8, verses: Vec<Verse>)
    requires
        target matches Some(ti) ==> ti < 3,
    ensures
        target is None ==> *final(commedia) == *old(commedia),
        target matches Some(ti) ==> {
            let new = final(commedia).part(ti as int).cantos@;
            &&& new == old(commedia).part(ti as int).cantos@.insert(number, new[number])
            &&& new[number].number == number
            &&& new[number].roman_numeral@ == roman_numeral(number as nat)
            &&& new[number].verses@ == verses@
            &&& final(commedia).part(ti as int).name == old(commedia).part(ti as int).name
            &&& forall|j: int|
                0 <= j < 3 && j != ti ==> #[trigger] final(commedia).part(j) == old(commedia).part(j)
        },
{
    let canto = Canto { number, roman_numeral: roman_to_number(number), verses };
    match target {
        Some(0) => {
            commedia.inferno.cantos.insert(number, canto);
        },
        Some(1) => {
            commedia.purgatorio.cantos.insert(number, canto);
        },
        Some(_) => {
            commedia.paradiso.cantos.insert(number, canto);
        },
        None => {},
    }
}

/// Reads the text of one cantica into `commedia`: each canto it holds is
/// stored, under its number, in the part that `cantica_name` names
/// ("inferno", "purgatorio" or "paradiso"), replacing a canto of that number;
/// the other cantos stay. Under any other name nothing changes. Reading never
/// fails.
pub fn parse_cantica_content(
    content: &str,
    cantica_name: &str,
    commedia: &mut DivinaCommedia,
) -> (r: Result<(), std::convert::Infallible>)
    ensures
        r is Ok,
        old(commedia).wf() ==> final(commedia).wf(),
        filter_part(Some(cantica_name@)) is None ==> *final(commedia) == *old(commedia),
        filter_part(Some(cantica_name@)) matches Some(ti) ==> {
            &&& cantos_put(
                old(commedia).part(ti).cantos@,
                final(commedia).part(ti).cantos@,
                parsed_cantos(content@),
            )
            &&& final(commedia).part(ti).name == old(commedia).part(ti).name
            &&& forall|j: int|
                0 <= j < 3 && j != ti ==> #[trigger] final(commedia).part(j) == old(commedia).part(j)
        },
{
    let target: Option<usize> = if same_text(cantica_name, "inferno") {
        Some(0)
    } else if same_text(cantica_name, "purgatorio") {
        Some(1)
    } else if same_text(cantica_name, "paradiso") {
        Some(2)
    } else {
        None
    };
    let pieces = split_at_newlines(content);
    let ghost lines = trimmed_lines(content@);
    let end_marker = chars_of("Updated editions will replace");
    let rule = chars_of("*** ");
    let notice = chars_of("Project Gutenberg");
    let word = chars_of("Canto");
    let mut current: u8 = 0;
    let mut verses: Vec<Verse> = Vec::new();
    let mut line_number: usize = 0;
    let mut in_canto = false;
    let mut stopped = false;
    let ghost mut cantos: Map<u8, Seq<VerseView>> = Map::empty();
    let ghost start = *old(commedia);
    let mut i: usize = 0;
    assert(lines.take(0) =~= Seq::<Seq<char>>::empty());
    assert(verses_view(verses@) =~= Seq::empty());
    while i < pieces.len()
        invariant
            i <= pieces.len(),
            pieces@.map_values(|l: String| l@) == split_lines(content@),
            lines == trimmed_lines(content@),
            lines.len() == pieces.len(),
            end_marker@ == "Updated editions will replace"@,
            rule@ == "*** "@,
            notice@ == "Project Gutenberg"@,
            word@ == "Canto"@,
            line_number <= i,
            line_number == verses.len(),
            forall|j: int| 0 <= j < verses.len() ==> (#[trigger] verses@[j]).line_number == j + 1,
            forall|k: u8| #[trigger] cantos.contains_key(k) ==> numbered_from_one(cantos[k]),
            target matches Some(ti) ==> ti < 3,
            target is None ==> filter_part(Some(cantica_name@)) is None,
            target matches Some(ti) ==> filter_part(Some(cantica_name@)) == Some(ti as int),
            ({
                let s = parse_lines(lines.take(i as int));
                &&& s.current == current
                &&& s.verses == verses_view(verses@)
                &&& s.line_number == line_number
                &&& s.in_canto == in_canto
                &&& s.stopped == stopped
                &&& s.cantos == cantos
            }),
            target is None ==> *commedia == start,
            target matches Some(ti) ==> {
                &&& cantos_put(start.part(ti as int).cantos@, commedia.part(ti as int).cantos@, cantos)
                &&& commedia.part(ti as int).name == start.part(ti as int).name
                &&& forall|j: int| 0 <= j < 3 && j != ti ==> #[trigger] commedia.part(j) == start.part(j)
            },
        decreases pieces.len() - i,
    {
        let ghost s = parse_lines(lines.take(i as int));
        assert(lines.take(i + 1).drop_last() =~= lines.take(i as int));
        assert(pieces@.map_values(|l: String| l@)[i as int] == pieces@[i as int]@);
        assert(lines[i as int] == trimmed(pieces@[i as int]@));
        assert(lines.take(i + 1).last() == lines[i as int]);
        if !stopped {
            let t = trim(pieces[i].as_str());
            let tc = chars_of(t);
            if tc.len() == 0 {
            } else if starts_with_chars(&tc, &end_marker) {
                stopped = true;
            } else {
                match heading(&tc, &word) {
                    Some(numeral) => {
                        if in_canto && current > 0 {
                            let finished = verses;
                            verses = Vec::new();
                            let ghost before = *commedia;
                            store(commedia, target, current, finished);
                            proof {
                                if let Some(ti) = target {
                                    let new_cantos = cantos.insert(current, verses_view(finished@));
                                    let old_map = start.part(ti as int).cantos@;
                                    let new_map = commedia.part(ti as int).cantos@;
                                    assert forall|k: u8| #[trigger] new_map.contains_key(k) <==> old_map.contains_key(k) || new_cantos.contains_key(k) by {
                                        assert(before.part(ti as int).cantos@.contains_key(k) <==> old_map.contains_key(k) || cantos.contains_key(k));
                                    }
                                    assert forall|k: u8| #[trigger] new_cantos.contains_key(k) implies new_map[k].number == k && new_map[k].roman_numeral@ == roman_numeral(k as nat) && verses_view(new_map[k].verses@) == new_cantos[k] by {
                                        if k != current {
                                            assert(cantos.contains_key(k));
                                        }
                                    }
                                    assert forall|k: u8| !new_cantos.contains_key(k) && #[trigger] old_map.contains_key(k) implies new_map[k] == old_map[k] by {
                                        assert(before.part(ti as int).cantos@.contains_key(k));
                                    }
                                    assert forall|j: int| 0 <= j < 3 && j != ti implies #[trigger] commedia.part(j) == start.part(j) by {
                                        assert(before.part(j) == start.part(j));
                                    }
                                }
                                assert(numbered_from_one(verses_view(finished@)));
                                cantos = cantos.insert(current, verses_view(finished@));
                            }
                        } else {
                            verses = Vec::new();
                        }
                        current = numeral_value(&numeral);
                        line_number = 0;
                        in_canto = true;
                        assert(verses_view(verses@) =~= Seq::empty());
                    },
                    None => {
                        if in_canto && !starts_with_chars(&tc, &rule) && !contains_chars(&tc, &notice) {
                            line_number = line_number + 1;
                            let ghost before = verses@;
                            let verse = Verse { line_number, text: String::from_str(t) };
                            let ghost added = verse;
                            verses.push(verse);
                            assert(verses@ =~= before.push(added));
                            assert(verses@[verses.len() - 1].line_number == verses.len());
                            assert(verses_view(verses@) =~= verses_view(before).push((line_number, t@)));
                        }
                    },
                }
            }
        }
        i = i + 1;
    }
    assert(lines.take(i as int) =~= lines);
    let ghost finished = verses@;
    assert(numbered_from_one(verses_view(finished)));
    if in_canto && current > 0 {
        let ghost before = *commedia;
        store(commedia, target, current, verses);
        proof {
            if let Some(ti) = target {
                let new_cantos = cantos.insert(current, verses_view(finished));
                let old_map = start.part(ti as int).cantos@;
                let new_map = commedia.part(ti as int).cantos@;
                assert forall|k: u8| #[trigger] new_map.contains_key(k) <==> old_map.contains_key(k) || new_cantos.contains_key(k) by {
                    assert(before.part(ti as int).cantos@.contains_key(k) <==> old_map.contains_key(k) || cantos.contains_key(k));
                }
                assert forall|k: u8| #[trigger] new_cantos.contains_key(k) implies new_map[k].number == k && new_map[k].roman_numeral@ == roman_numeral(k as nat) && verses_view(new_map[k].verses@) == new_cantos[k] by {
                    if k != current {
                        assert(cantos.contains_key(k));
                    }
                }
                assert forall|k: u8| !new_cantos.contains_key(k) && #[trigger] old_map.contains_key(k) implies new_map[k] == old_map[k] by {
                    assert(before.part(ti as int).cantos@.contains_key(k));
                }
                assert forall|j: int| 0 <= j < 3 && j != ti implies #[trigger] commedia.part(j) == start.part(j) by {
                    assert(before.part(j) == start.part(j));
                }
            }
        }
    }
    proof {
        let read = parsed_cantos(content@);
        assert(read == with_open_canto(parse_lines(lines)));
        assert forall|k: u8| #[trigger] read.contains_key(k) implies numbered_from_one(read[k]) by {
            if !(in_canto && current > 0 && k == current) {
                assert(cantos.contains_key(k));
            }
        }
        if start.wf() {
            if let Some(ti) = target {
                assert(cantos_put(start.part(ti as int).cantos@, commedia.part(ti as int).cantos@, read));
                let old_map = start.part(ti as int).cantos@;
                let new_map = commedia.part(ti as int).cantos@;
                assert(start.part(ti as int).wf());
                assert forall|k: u8| #[trigger] new_map.contains_key(k) implies new_map[k].number == k
                    && new_map[k].wf() by {
                    if read.contains_key(k) {
                        let v = new_map[k].verses@;
                        assert(numbered_from_one(read[k]));
                        assert forall|a: int, b: int| 0 <= a < b < v.len() implies v[a].line_number
                            < v[b].line_number by {
                            assert(verses_view(v)[a] == (v[a].line_number, v[a].text@));
                            assert(verses_view(v)[b] == (v[b].line_number, v[b].text@));
                            assert(read[k][a].0 == a + 1);
                            assert(read[k][b].0 == b + 1);
                        }
                    } else {
                        assert(old_map.contains_key(k));
                    }
                }
                assert(commedia.part(ti as int).wf());
                assert forall|j: int| 0 <= j < 3 implies (#[trigger] commedia.part(j)).name@
                    == cantica_title(j) && commedia.part(j).wf() by {
                    assert(start.part(j).name@ == cantica_title(j) && start.part(j).wf());
                }
            }
        }
    }
    Ok(())
}

} // verus!
