//! The deterministic search: every verse whose text the pattern matches,
//! ordered by (cantica, canto, line).

use vstd::prelude::*;
use crate::document::{canto_numbers, cantica_title, lemma_canto_numbers, lemma_titles_distinct, Cantica, DivinaCommedia, Verse};
use crate::text::same_text;
use crate::pattern::{compile, escape, escaped, is_match, regex_accepts, regex_finds, LinePattern};

verus! {

broadcast use vstd::std_specs::hash::group_hash_axioms;

/// A hit as the contracts see it: cantica name, canto number, line number,
/// verse text.
pub type HitView = (Seq<char>, u8, usize, Seq<char>);

/// A hit as the search returns it.
pub type Hit = (String, u8, usize, String);

pub open spec fn hit_view(h: Hit) -> HitView {
    (h.0@, h.1, h.2, h.3@)
}

pub open spec fn hits_view(s: Seq<Hit>) -> Seq<HitView> {
    s.map_values(|h: Hit| hit_view(h))
}

/// The pattern with the case-insensitive flag put in front.
pub open spec fn case_insensitive(p: Seq<char>) -> Seq<char> {
    "(?i)"@ + p
}

/// The expression a search for `p` runs: `p` itself, case-insensitive, where
/// that compiles; else `p` taken literally; none where neither compiles.
pub open spec fn search_source(p: Seq<char>) -> Option<Seq<char>> {
    if regex_accepts(case_insensitive(p)) {
        Some(case_insensitive(p))
    } else if regex_accepts(escaped(p)) {
        Some(escaped(p))
    } else {
        None
    }
}

/// Whether a verse with this text is a hit.
pub open spec fn line_matches(source: Option<Seq<char>>, text: Seq<char>) -> bool {
    match source {
        Some(s) => regex_finds(s, text),
        None => false,
    }
}

/// The hits among `verses`, in their stored order.
pub open spec fn verse_hits(
    name: Seq<char>,
    number: u8,
    verses: Seq<Verse>,
    source: Option<Seq<char>>,
) -> Seq<HitView>
    decreases verses.len(),
{
    if verses.len() == 0 {
        Seq::empty()
    } else {
        let v = verses.last();
        let rest = verse_hits(name, number, verses.drop_last(), source);
        if line_matches(source, v.text@) {
            rest.push((name, number, v.line_number, v.text@))
        } else {
            rest
        }
    }
}

/// The hits of the cantos of `c` with the given numbers, in that order.
pub open spec fn canto_hits(c: Cantica, numbers: Seq<u8>, source: Option<Seq<char>>) -> Seq<
    HitView,
>
    decreases numbers.len(),
{
    if numbers.len() == 0 {
        Seq::empty()
    } else {
        let canto = c.cantos@[numbers.last()];
        canto_hits(c, numbers.drop_last(), source) + verse_hits(
            c.name@,
            canto.number,
            canto.verses@,
            source,
        )
    }
}

/// The hits of a whole cantica, its cantos taken in ascending number.
pub open spec fn cantica_hits(c: Cantica, source: Option<Seq<char>>) -> Seq<HitView> {
    canto_hits(c, canto_numbers(c.cantos@), source)
}

/// The part that a filter names; any other filter, or none, means all three.
pub open spec fn filter_part(filter: Option<Seq<char>>) -> Option<int> {
    match filter {
        Some(f) => if f == "inferno"@ {
            Some(0)
        } else if f == "purgatorio"@ {
            Some(1)
        } else if f == "paradiso"@ {
            Some(2)
        } else {
            None
        },
        None => None,
    }
}

pub open spec fn filter_view(filter: Option<&str>) -> Option<Seq<char>> {
    match filter {
        Some(f) => Some(f@),
        None => None,
    }
}

/// The hits in the order the parts, cantos and verses are walked.
pub open spec fn scan_hits(d: DivinaCommedia, source: Option<Seq<char>>, part: Option<int>) -> Seq<
    HitView,
> {
    match part {
        Some(i) => cantica_hits(d.part(i), source),
        None => cantica_hits(d.part(0), source) + cantica_hits(d.part(1), source) + cantica_hits(
            d.part(2),
            source,
        ),
    }
}

/// Where a cantica of this name sorts: the three names in their fixed order,
/// any other name after them.
pub open spec fn cantica_rank(name: Seq<char>) -> int {
    if name == "Inferno"@ {
        0
    } else if name == "Purgatorio"@ {
        1
    } else if name == "Paradiso"@ {
        2
    } else {
        3
    }
}

/// `a` comes strictly before `b` by (cantica rank, canto number, line number).
pub open spec fn hit_before(a: HitView, b: HitView) -> bool {
    ||| cantica_rank(a.0) < cantica_rank(b.0)
    ||| cantica_rank(a.0) == cantica_rank(b.0) && a.1 < b.1
    ||| cantica_rank(a.0) == cantica_rank(b.0) && a.1 == b.1 && a.2 < b.2
}

/// How many entries at the end of `t` come strictly after `x`.
pub open spec fn count_after(t: Seq<HitView>, x: HitView) -> nat
    decreases t.len(),
{
    if t.len() > 0 && hit_before(x, t.last()) {
        1 + count_after(t.drop_last(), x)
    } else {
        0
    }
}

/// `x` put into `t` after every entry that does not come strictly after it.
pub open spec fn insert_hit(t: Seq<HitView>, x: HitView) -> Seq<HitView> {
    t.insert(t.len() - count_after(t, x), x)
}

/// The stable sort of `s` by (cantica rank, canto number, line number): hits
/// with equal keys keep the order they had in `s`.
pub open spec fn sort_hits(s: Seq<HitView>) -> Seq<HitView>
    decreases s.len(),
{
    if s.len() == 0 {
        Seq::empty()
    } else {
        insert_hit(sort_hits(s.drop_last()), s.last())
    }
}

/// What `search(pattern, filter)` returns on `d`.
pub open spec fn search_hits(d: DivinaCommedia, pattern: Seq<char>, filter: Option<Seq<char>>) -> Seq<
    HitView,
> {
    sort_hits(scan_hits(d, search_source(pattern), filter_part(filter)))
}

fn build_pattern(pattern: &str) -> (r: Option<LinePattern>)
    ensures
        r matches Some(p) ==> search_source(pattern@) == Some(p.source()),
        r is None ==> search_source(pattern@) is None,
{
    let mut source = String::from_str("(?i)");
    source.append(pattern);
    match compile(source) {
        Some(p) => Some(p),
        None => compile(escape(pattern)),
    }
}

fn pattern_matches(pattern: &Option<LinePattern>, text: &str) -> (r: bool)
    ensures
        r == line_matches(
            match pattern {
                Some(p) => Some(p.source()),
                None => None,
            },
            text@,
        ),
{
    match pattern {
        Some(p) => is_match(p, text),
        None => false,
    }
}

fn rank_of(name: &String) -> (r: u8)
    ensures
        r as int == cantica_rank(name@),
{
    if same_text(name.as_str(), "Inferno") {
        0
    } else if same_text(name.as_str(), "Purgatorio") {
        1
    } else if same_text(name.as_str(), "Paradiso") {
        2
    } else {
        3
    }
}

fn resolve_filter(filter: Option<&str>) -> (r: Option<usize>)
    ensures
        r matches Some(i) ==> i < 3 && filter_part(filter_view(filter)) == Some(i as int),
        r is None ==> filter_part(filter_view(filter)) is None,
{
    match filter {
        Some(f) => if same_text(f, "inferno") {
            Some(0)
        } else if same_text(f, "purgatorio") {
            Some(1)
        } else if same_text(f, "paradiso") {
            Some(2)
        } else {
            None
        },
        None => None,
    }
}

/// Puts `hit` into the sorted list `out` after every entry whose key is not
/// greater; `ranks` holds the cantica rank of each entry of `out`.
fn insert_sorted(out: &mut Vec<Hit>, ranks: &mut Vec<u8>, hit: Hit, rank: u8)
    requires
        old(out).len() == old(ranks).len(),
        forall|i: int|
            0 <= i < old(out).len() ==> old(ranks)[i] as int == cantica_rank(#[trigger] old(out)[i].0@),
        rank as int == cantica_rank(hit.0@),
    ensures
        hits_view(final(out)@) == insert_hit(hits_view(old(out)@), hit_view(hit)),
        final(out).len() == final(ranks).len(),
        forall|i: int|
            0 <= i < final(out).len() ==> final(ranks)[i] as int == cantica_rank(
                #[trigger] final(out)[i].0@,
            ),
{
    let ghost t = hits_view(out@);
    let ghost x = hit_view(hit);
    let mut pos: usize = out.len();
    assert(t.take(pos as int) =~= t);
    loop
        invariant
            out@ == old(out)@,
            ranks@ == old(ranks)@,
            t == hits_view(out@),
            x == hit_view(hit),
            rank as int == cantica_rank(hit.0@),
            out.len() == ranks.len(),
            pos <= out.len(),
            forall|i: int| 0 <= i < out.len() ==> ranks[i] as int == cantica_rank(#[trigger] out[i].0@),
            count_after(t, x) == (out.len() - pos) + count_after(t.take(pos as int), x),
        ensures
            out@ == old(out)@,
            ranks@ == old(ranks)@,
            pos <= out.len(),
            count_after(t, x) == out.len() - pos,
        decreases pos,
    {
        if pos == 0 {
            assert(t.take(0) =~= Seq::<HitView>::empty());
            break;
        }
        let k = pos - 1;
        let e = &out[k];
        let er = ranks[k];
        let later = er > rank || (er == rank && e.1 > hit.1) || (er == rank && e.1 == hit.1 && e.2
            > hit.2);
        assert(t.take(pos as int).drop_last() =~= t.take(k as int));
        assert(t.take(pos as int).last() == t[k as int]);
        assert(t[k as int] == hit_view(out@[k as int]));
        assert(ranks[k as int] as int == cantica_rank(out[k as int].0@));
        assert(later == hit_before(x, t[k as int]));
        assert(count_after(t.take(pos as int), x) == if hit_before(x, t[k as int]) {
            1 + count_after(t.take(k as int), x)
        } else {
            0
        });
        if !later {
            break;
        }
        pos = k;
    }
    out.insert(pos, hit);
    ranks.insert(pos, rank);
    assert(hits_view(out@) =~= t.insert(pos as int, x));
    assert forall|i: int| 0 <= i < out.len() implies ranks[i] as int == cantica_rank(
        #[trigger] out[i].0@,
    ) by {
        if i > pos {
            assert(out[i] == old(out)[i - 1]);
        }
    }
}

/// Walks one cantica, cantos in ascending number, verses in order, and puts
/// each hit into the sorted list.
fn collect_cantica(
    c: &Cantica,
    pattern: &Option<LinePattern>,
    out: &mut Vec<Hit>,
    ranks: &mut Vec<u8>,
    scanned: Ghost<Seq<HitView>>,
)
    requires
        hits_view(old(out)@) == sort_hits(scanned@),
        old(out).len() == old(ranks).len(),
        forall|i: int|
            0 <= i < old(out).len() ==> old(ranks)[i] as int == cantica_rank(#[trigger] old(out)[i].0@),
    ensures
        hits_view(final(out)@) == sort_hits(
            scanned@ + cantica_hits(
                *c,
                match pattern {
                    Some(p) => Some(p.source()),
                    None => None,
                },
            ),
        ),
        final(out).len() == final(ranks).len(),
        forall|i: int|
            0 <= i < final(out).len() ==> final(ranks)[i] as int == cantica_rank(
                #[trigger] final(out)[i].0@,
            ),
{
    let ghost source = match pattern {
        Some(p) => Some(p.source()),
        None => None,
    };
    let rank = rank_of(&c.name);
    let numbers = c.sorted_canto_numbers();
    let ghost mut done: Seq<HitView> = scanned@;
    let mut ni: usize = 0;
    while ni < numbers.len()
        invariant
            ni <= numbers.len(),
            numbers@ == canto_numbers(c.cantos@),
            forall|x: u8| numbers@.contains(x) <==> c.cantos@.contains_key(x),
            rank as int == cantica_rank(c.name@),
            source == match pattern {
                Some(p) => Some(p.source()),
                None => None,
            },
            done == scanned@ + canto_hits(*c, numbers@.take(ni as int), source),
            hits_view(out@) == sort_hits(done),
            out.len() == ranks.len(),
            forall|i: int| 0 <= i < out.len() ==> ranks[i] as int == cantica_rank(#[trigger] out[i].0@),
        decreases numbers.len() - ni,
    {
        let number = numbers[ni];
        assert(numbers@.contains(number));
        let ghost before_canto = done;
        assert(numbers@.take(ni + 1).drop_last() =~= numbers@.take(ni as int));
        match c.canto(number) {
            Some(canto) => {
                let mut vi: usize = 0;
                while vi < canto.verses.len()
                    invariant
                        vi <= canto.verses.len(),
                        rank as int == cantica_rank(c.name@),
                        source == match pattern {
                            Some(p) => Some(p.source()),
                            None => None,
                        },
                        done == before_canto + verse_hits(
                            c.name@,
                            canto.number,
                            canto.verses@.take(vi as int),
                            source,
                        ),
                        hits_view(out@) == sort_hits(done),
                        out.len() == ranks.len(),
                        forall|i: int|
                            0 <= i < out.len() ==> ranks[i] as int == cantica_rank(
                                #[trigger] out[i].0@,
                            ),
                    decreases canto.verses.len() - vi,
                {
                    let verse = &canto.verses[vi];
                    assert(canto.verses@.take(vi + 1).drop_last() =~= canto.verses@.take(vi as int));
                    assert(canto.verses@.take(vi + 1).last() == canto.verses@[vi as int]);
                    let ghost name = c.name@;
                    let ghost prefix = canto.verses@.take(vi as int);
                    let ghost grown = canto.verses@.take(vi + 1);
                    assert(verse_hits(name, canto.number, grown, source) == if line_matches(
                        source,
                        verse.text@,
                    ) {
                        verse_hits(name, canto.number, prefix, source).push(
                            (name, canto.number, verse.line_number, verse.text@),
                        )
                    } else {
                        verse_hits(name, canto.number, prefix, source)
                    });
                    if pattern_matches(pattern, verse.text.as_str()) {
                        let hit = (c.name.clone(), canto.number, verse.line_number, verse.text.clone());
                        let ghost x = hit_view(hit);
                        insert_sorted(out, ranks, hit, rank);
                        assert(done.push(x).drop_last() =~= done);
                        assert(sort_hits(done.push(x)) == insert_hit(sort_hits(done), x));
                        assert(x == (c.name@, canto.number, verse.line_number, verse.text@));
                        proof {
                            done = done.push(x);
                        }
                        assert(done =~= before_canto + verse_hits(name, canto.number, grown, source));
                    }
                    vi = vi + 1;
                }
                assert(canto.verses@.take(vi as int) =~= canto.verses@);
                assert(done =~= scanned@ + canto_hits(*c, numbers@.take(ni + 1), source));
            },
            None => {
                assert(false);
            },
        }
        ni = ni + 1;
    }
    assert(numbers@.take(ni as int) =~= numbers@);
}

impl DivinaCommedia {
    /// Every verse whose text the pattern matches, as (cantica name, canto
    /// number, line number, text), sorted by (cantica, canto, line); hits with
    /// equal keys keep the order they were found in. The pattern is a
    /// case-insensitive regular expression, or, where it is not a valid one,
    /// literal text matched as written (and where even that does not compile,
    /// nothing matches). The filter "inferno", "purgatorio" or "paradiso" keeps
    /// the search to that part; anything else searches all three.
    pub fn search(&self, pattern: &str, cantica_filter: Option<&str>) -> (r: Vec<Hit>)
        ensures
            hits_view(r@) == search_hits(*self, pattern@, filter_view(cantica_filter)),
    {
        let compiled = build_pattern(pattern);
        let ghost source = search_source(pattern@);
        let mut out: Vec<Hit> = Vec::new();
        let mut ranks: Vec<u8> = Vec::new();
        assert(hits_view(out@) =~= sort_hits(Seq::empty()));
        match resolve_filter(cantica_filter) {
            Some(i) => {
                collect_cantica(self.cantica(i), &compiled, &mut out, &mut ranks, Ghost(Seq::empty()));
                assert(Seq::<HitView>::empty() + cantica_hits(self.part(i as int), source)
                    =~= cantica_hits(self.part(i as int), source));
            },
            None => {
                let ghost h0 = cantica_hits(self.part(0), source);
                let ghost h1 = cantica_hits(self.part(1), source);
                collect_cantica(&self.inferno, &compiled, &mut out, &mut ranks, Ghost(Seq::empty()));
                assert(Seq::<HitView>::empty() + h0 =~= h0);
                collect_cantica(&self.purgatorio, &compiled, &mut out, &mut ranks, Ghost(h0));
                collect_cantica(&self.paradiso, &compiled, &mut out, &mut ranks, Ghost(h0 + h1));
            },
        }
        out
    }
}

/// Each hit comes strictly before the next by (cantica, canto, line).
pub open spec fn strictly_ordered(s: Seq<HitView>) -> bool {
    forall|i: int, j: int| 0 <= i < j < s.len() ==> hit_before(s[i], s[j])
}

proof fn lemma_concat_ordered(a: Seq<HitView>, b: Seq<HitView>)
    requires
        strictly_ordered(a),
        strictly_ordered(b),
        forall|i: int, j: int| 0 <= i < a.len() && 0 <= j < b.len() ==> hit_before(a[i], b[j]),
    ensures
        strictly_ordered(a + b),
{
    let s = a + b;
    assert forall|i: int, j: int| 0 <= i < j < s.len() implies hit_before(s[i], s[j]) by {
        if j < a.len() {
            assert(s[i] == a[i] && s[j] == a[j]);
        } else if i < a.len() {
            assert(s[i] == a[i] && s[j] == b[j - a.len()]);
        } else {
            assert(s[i] == b[i - a.len()] && s[j] == b[j - a.len()]);
        }
    }
}

proof fn lemma_verse_hits_ordered(name: Seq<char>, number: u8, verses: Seq<Verse>, source: Option<Seq<char>>)
    requires
        forall|i: int, j: int| 0 <= i < j < verses.len() ==> verses[i].line_number < verses[j].line_number,
    ensures
        strictly_ordered(verse_hits(name, number, verses, source)),
        forall|k: int| 0 <= k < verse_hits(name, number, verses, source).len() ==> {
            let h = #[trigger] verse_hits(name, number, verses, source)[k];
            &&& h.0 == name
            &&& h.1 == number
            &&& h.2 <= verses.last().line_number
        },
    decreases verses.len(),
{
    if verses.len() > 0 {
        let u = verses.drop_last();
        lemma_verse_hits_ordered(name, number, u, source);
        let rest = verse_hits(name, number, u, source);
        if u.len() > 0 {
            assert(u.last().line_number < verses.last().line_number);
        }
        if line_matches(source, verses.last().text@) {
            let h = (name, number, verses.last().line_number, verses.last().text@);
            let s = rest.push(h);
            assert forall|i: int, j: int| 0 <= i < j < s.len() implies hit_before(s[i], s[j]) by {
                if j < rest.len() {
                    assert(s[i] == rest[i] && s[j] == rest[j]);
                } else {
                    assert(s[i] == rest[i]);
                }
            }
        }
    }
}

proof fn lemma_canto_hits_ordered(c: Cantica, numbers: Seq<u8>, source: Option<Seq<char>>)
    requires
        c.wf(),
        forall|i: int, j: int| 0 <= i < j < numbers.len() ==> numbers[i] < numbers[j],
        forall|i: int| 0 <= i < numbers.len() ==> c.cantos@.contains_key(#[trigger] numbers[i]),
    ensures
        strictly_ordered(canto_hits(c, numbers, source)),
        forall|k: int| 0 <= k < canto_hits(c, numbers, source).len() ==> {
            let h = #[trigger] canto_hits(c, numbers, source)[k];
            &&& h.0 == c.name@
            &&& h.1 <= numbers.last()
        },
    decreases numbers.len(),
{
    if numbers.len() > 0 {
        let u = numbers.drop_last();
        let last = numbers.last();
        lemma_canto_hits_ordered(c, u, source);
        assert(c.cantos@.contains_key(numbers[numbers.len() - 1]));
        let canto = c.cantos@[last];
        assert(canto.number == last && canto.wf());
        lemma_verse_hits_ordered(c.name@, canto.number, canto.verses@, source);
        let a = canto_hits(c, u, source);
        let b = verse_hits(c.name@, canto.number, canto.verses@, source);
        if u.len() > 0 {
            assert(u.last() < last);
        }
        assert forall|i: int, j: int| 0 <= i < a.len() && 0 <= j < b.len() implies hit_before(
            a[i],
            b[j],
        ) by {
            assert(a[i].0 == c.name@);
            assert(b[j].0 == c.name@);
        }
        lemma_concat_ordered(a, b);
        let s = a + b;
        assert forall|k: int| 0 <= k < s.len() implies #[trigger] s[k].0 == c.name@ && s[k].1 <= last by {
            if k < a.len() {
                assert(s[k] == a[k]);
            } else {
                assert(s[k] == b[k - a.len()]);
            }
        }
    }
}

proof fn lemma_cantica_hits_ordered(c: Cantica, source: Option<Seq<char>>)
    requires
        c.wf(),
    ensures
        strictly_ordered(cantica_hits(c, source)),
        forall|k: int| 0 <= k < cantica_hits(c, source).len() ==> (#[trigger] cantica_hits(c, source)[k]).0 == c.name@,
{
    lemma_canto_numbers(c.cantos@);
    let numbers = canto_numbers(c.cantos@);
    assert forall|i: int| 0 <= i < numbers.len() implies c.cantos@.contains_key(#[trigger] numbers[i]) by {
        assert(numbers.contains(numbers[i]));
    }
    lemma_canto_hits_ordered(c, numbers, source);
}

/// Sorting what is already in order changes nothing.
proof fn lemma_sort_ordered(s: Seq<HitView>)
    requires
        strictly_ordered(s),
    ensures
        sort_hits(s) == s,
    decreases s.len(),
{
    if s.len() > 0 {
        let u = s.drop_last();
        assert(strictly_ordered(u));
        lemma_sort_ordered(u);
        if u.len() > 0 {
            assert(hit_before(u.last(), s.last()));
        }
        assert(count_after(u, s.last()) == 0);
        assert(u.insert(u.len() as int, s.last()) =~= s);
    }
}

proof fn lemma_count_after_bound(t: Seq<HitView>, x: HitView)
    ensures
        count_after(t, x) <= t.len(),
    decreases t.len(),
{
    if t.len() > 0 {
        lemma_count_after_bound(t.drop_last(), x);
    }
}

proof fn lemma_sort_len(s: Seq<HitView>)
    ensures
        sort_hits(s).len() == s.len(),
    decreases s.len(),
{
    if s.len() > 0 {
        lemma_sort_len(s.drop_last());
        lemma_count_after_bound(sort_hits(s.drop_last()), s.last());
    }
}

/// Every entry of the sorted sequence is an entry of `s`.
proof fn lemma_sort_from(s: Seq<HitView>)
    ensures
        forall|k: int| 0 <= k < sort_hits(s).len() ==> s.contains(#[trigger] sort_hits(s)[k]),
    decreases s.len(),
{
    if s.len() > 0 {
        let u = s.drop_last();
        lemma_sort_from(u);
        lemma_sort_len(u);
        let t = sort_hits(u);
        lemma_count_after_bound(t, s.last());
        let p = t.len() - count_after(t, s.last());
        let r = sort_hits(s);
        assert forall|k: int| 0 <= k < r.len() implies s.contains(#[trigger] r[k]) by {
            if k < p {
                assert(r[k] == t[k]);
                assert(u.contains(t[k]));
                let j = choose|j: int| 0 <= j < u.len() && u[j] == t[k];
                assert(s[j] == u[j]);
            } else if k == p {
                assert(s[s.len() - 1] == r[k]);
            } else {
                assert(r[k] == t[k - 1]);
                assert(u.contains(t[k - 1]));
                let j = choose|j: int| 0 <= j < u.len() && u[j] == t[k - 1];
                assert(s[j] == u[j]);
            }
        }
    }
}

/// Searching is deterministic: the same document, pattern and filter always
/// give the same hits in the same order.
pub proof fn lemma_search_deterministic(
    d1: DivinaCommedia,
    d2: DivinaCommedia,
    pattern: Seq<char>,
    filter: Option<Seq<char>>,
)
    requires
        d1 == d2,
    ensures
        search_hits(d1, pattern, filter) == search_hits(d2, pattern, filter),
{
}

/// On a well-formed document the hits come strictly ordered by (cantica,
/// canto, line): no two share all three.
pub proof fn lemma_search_strictly_ordered(
    d: DivinaCommedia,
    pattern: Seq<char>,
    filter: Option<Seq<char>>,
)
    requires
        d.wf(),
    ensures
        strictly_ordered(search_hits(d, pattern, filter)),
{
    let source = search_source(pattern);
    assert(d.part(0).wf() && d.part(1).wf() && d.part(2).wf());
    assert(d.part(0).name@ == cantica_title(0));
    assert(d.part(1).name@ == cantica_title(1));
    assert(d.part(2).name@ == cantica_title(2));
    lemma_titles_distinct();
    lemma_cantica_hits_ordered(d.part(0), source);
    lemma_cantica_hits_ordered(d.part(1), source);
    lemma_cantica_hits_ordered(d.part(2), source);
    let s = scan_hits(d, source, filter_part(filter));
    match filter_part(filter) {
        Some(i) => {},
        None => {
            let h0 = cantica_hits(d.part(0), source);
            let h1 = cantica_hits(d.part(1), source);
            let h2 = cantica_hits(d.part(2), source);
            assert forall|i: int, j: int| 0 <= i < h0.len() && 0 <= j < h1.len() implies hit_before(
                h0[i],
                h1[j],
            ) by {
                assert(h0[i].0 == cantica_title(0));
                assert(h1[j].0 == cantica_title(1));
            }
            lemma_concat_ordered(h0, h1);
            let h01 = h0 + h1;
            assert forall|i: int, j: int| 0 <= i < h01.len() && 0 <= j < h2.len() implies hit_before(
                h01[i],
                h2[j],
            ) by {
                if i < h0.len() {
                    assert(h01[i] == h0[i]);
                    assert(h0[i].0 == cantica_title(0));
                } else {
                    assert(h01[i] == h1[i - h0.len()]);
                    assert(h1[i - h0.len()].0 == cantica_title(1));
                }
                assert(h2[j].0 == cantica_title(2));
            }
            lemma_concat_ordered(h01, h2);
        },
    }
    lemma_sort_ordered(s);
}

/// A search kept to one cantica finds no more hits than a search of all
/// three, and each of its hits bears that cantica's name.
pub proof fn lemma_filter_narrows(d: DivinaCommedia, pattern: Seq<char>, filter: Seq<char>)
    ensures
        search_hits(d, pattern, Some(filter)).len() <= search_hits(d, pattern, None).len(),
        filter_part(Some(filter)) matches Some(i) ==> forall|k: int|
            0 <= k < search_hits(d, pattern, Some(filter)).len() ==> (#[trigger] search_hits(
                d,
                pattern,
                Some(filter),
            )[k]).0 == d.part(i).name@,
        d.wf() ==> (filter_part(Some(filter)) matches Some(i) ==> forall|k: int|
            0 <= k < search_hits(d, pattern, Some(filter)).len() ==> (#[trigger] search_hits(
                d,
                pattern,
                Some(filter),
            )[k]).0 == cantica_title(i)),
{
    let source = search_source(pattern);
    let all = scan_hits(d, source, None);
    let kept = scan_hits(d, source, filter_part(Some(filter)));
    lemma_sort_len(all);
    lemma_sort_len(kept);
    match filter_part(Some(filter)) {
        Some(i) => {
            assert(0 <= i < 3);
            if d.wf() {
                assert(d.part(i).name@ == cantica_title(i));
            }
            lemma_names_of_cantica_hits(d.part(i), source);
            lemma_sort_from(kept);
            let r = sort_hits(kept);
            assert forall|k: int| 0 <= k < r.len() implies (#[trigger] r[k]).0 == d.part(i).name@ by {
                let j = choose|j: int| 0 <= j < kept.len() && kept[j] == r[k];
            }
        },
        None => {},
    }
}

/// Every hit of a cantica bears its name.
proof fn lemma_names_of_cantica_hits(c: Cantica, source: Option<Seq<char>>)
    ensures
        forall|k: int| 0 <= k < cantica_hits(c, source).len() ==> (#[trigger] cantica_hits(c, source)[k]).0 == c.name@,
{
    lemma_names_of_canto_hits(c, canto_numbers(c.cantos@), source);
}

proof fn lemma_names_of_canto_hits(c: Cantica, numbers: Seq<u8>, source: Option<Seq<char>>)
    ensures
        forall|k: int| 0 <= k < canto_hits(c, numbers, source).len() ==> (#[trigger] canto_hits(c, numbers, source)[k]).0 == c.name@,
    decreases numbers.len(),
{
    if numbers.len() > 0 {
        let u = numbers.drop_last();
        lemma_names_of_canto_hits(c, u, source);
        let canto = c.cantos@[numbers.last()];
        lemma_names_of_verse_hits(c.name@, canto.number, canto.verses@, source);
        let a = canto_hits(c, u, source);
        let b = verse_hits(c.name@, canto.number, canto.verses@, source);
        let s = a + b;
        assert forall|k: int| 0 <= k < s.len() implies (#[trigger] s[k]).0 == c.name@ by {
            if k < a.len() {
                assert(s[k] == a[k]);
            } else {
                assert(s[k] == b[k - a.len()]);
            }
        }
    }
}

proof fn lemma_names_of_verse_hits(name: Seq<char>, number: u8, verses: Seq<Verse>, source: Option<Seq<char>>)
    ensures
        forall|k: int| 0 <= k < verse_hits(name, number, verses, source).len() ==> (#[trigger] verse_hits(name, number, verses, source)[k]).0 == name,
    decreases verses.len(),
{
    if verses.len() > 0 {
        lemma_names_of_verse_hits(name, number, verses.drop_last(), source);
        let rest = verse_hits(name, number, verses.drop_last(), source);
        let s = verse_hits(name, number, verses, source);
        assert forall|k: int| 0 <= k < s.len() implies (#[trigger] s[k]).0 == name by {
            if k < rest.len() {
                assert(s[k] == rest[k]);
            }
        }
    }
}

/// No hit comes strictly after one that follows it.
pub open spec fn ordered(s: Seq<HitView>) -> bool {
    forall|i: int, j: int| 0 <= i < j < s.len() ==> !hit_before(s[j], s[i])
}

proof fn lemma_hit_insertion_point(t: Seq<HitView>, x: HitView)
    requires
        ordered(t),
    ensures
        count_after(t, x) <= t.len(),
        forall|i: int| 0 <= i < t.len() - count_after(t, x) ==> !hit_before(x, #[trigger] t[i]),
        forall|i: int| t.len() - count_after(t, x) <= i < t.len() ==> hit_before(x, #[trigger] t[i]),
    decreases t.len(),
{
    if t.len() > 0 {
        let u = t.drop_last();
        assert(ordered(u));
        lemma_hit_insertion_point(u, x);
        assert forall|i: int| 0 <= i < u.len() implies u[i] == t[i] by {}
        if hit_before(x, t.last()) {
            assert forall|i: int| 0 <= i < t.len() - count_after(t, x) implies !hit_before(x, #[trigger] t[i]) by {
                assert(u[i] == t[i]);
            }
            assert forall|i: int| t.len() - count_after(t, x) <= i < t.len() implies hit_before(x, #[trigger] t[i]) by {
                if i < u.len() {
                    assert(u[i] == t[i]);
                }
            }
        } else {
            assert forall|i: int| 0 <= i < t.len() implies !hit_before(x, #[trigger] t[i]) by {
                if i < t.len() - 1 {
                    assert(!hit_before(t[t.len() - 1], t[i]));
                }
            }
        }
    }
}

proof fn lemma_insert_hit_ordered(t: Seq<HitView>, x: HitView)
    requires
        ordered(t),
    ensures
        ordered(insert_hit(t, x)),
{
    lemma_hit_insertion_point(t, x);
    let p = t.len() - count_after(t, x);
    let r = insert_hit(t, x);
    assert forall|i: int, j: int| 0 <= i < j < r.len() implies !hit_before(r[j], r[i]) by {
        if j < p {
            assert(r[i] == t[i] && r[j] == t[j]);
        } else if j == p {
            assert(r[i] == t[i]);
            assert(!hit_before(x, t[i]));
        } else if i < p {
            assert(r[i] == t[i] && r[j] == t[j - 1]);
        } else if i == p {
            assert(r[j] == t[j - 1]);
            assert(hit_before(x, t[j - 1]));
        } else {
            assert(r[i] == t[i - 1] && r[j] == t[j - 1]);
        }
    }
}

proof fn lemma_sort_hits_ordered(s: Seq<HitView>)
    ensures
        ordered(sort_hits(s)),
    decreases s.len(),
{
    if s.len() > 0 {
        lemma_sort_hits_ordered(s.drop_last());
        lemma_insert_hit_ordered(sort_hits(s.drop_last()), s.last());
    }
}

/// On any document, the hits come in (cantica, canto, line) order: none comes
/// strictly after a hit that follows it.
pub proof fn lemma_search_ordered(d: DivinaCommedia, pattern: Seq<char>, filter: Option<Seq<char>>)
    ensures
        ordered(search_hits(d, pattern, filter)),
{
    lemma_sort_hits_ordered(scan_hits(d, search_source(pattern), filter_part(filter)));
}

} // verus!
