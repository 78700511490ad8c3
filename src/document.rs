//! The document: three canticas, each a map from canto number to canto, each
//! canto a list of numbered verses.

use std::collections::HashMap;
use vstd::prelude::*;

verus! {

broadcast use vstd::std_specs::hash::group_hash_axioms;

/// One numbered line of a canto.
#[derive(Debug, Clone)]
pub struct Verse {
    pub line_number: usize,
    pub text: String,
}

/// A numbered canto with its numeral label and its verses in order.
#[derive(Debug, Clone)]
pub struct Canto {
    pub number: u8,
    pub roman_numeral: String,
    pub verses: Vec<Verse>,
}

/// One of the three parts of the poem. The map of cantos carries no order:
/// whoever walks it goes through `sorted_canto_numbers`.
#[derive(Debug, Clone)]
pub struct Cantica {
    pub name: String,
    pub cantos: HashMap<u8, Canto>,
}

/// The whole poem, its three parts in their fixed order.
#[derive(Debug, Clone)]
pub struct DivinaCommedia {
    pub inferno: Cantica,
    pub purgatorio: Cantica,
    pub paradiso: Cantica,
}

/// The number of parts of the poem.
pub const CANTICA_COUNT: usize = 3;

/// The display name of the part at position `i` of the fixed order.
pub open spec fn cantica_title(i: int) -> Seq<char> {
    if i == 0 {
        "Inferno"@
    } else if i == 1 {
        "Purgatorio"@
    } else {
        "Paradiso"@
    }
}

/// The three names differ from one another.
pub proof fn lemma_titles_distinct()
    ensures
        "Inferno"@ != "Purgatorio"@,
        "Inferno"@ != "Paradiso"@,
        "Purgatorio"@ != "Paradiso"@,
{
    reveal_strlit("Inferno");
    reveal_strlit("Purgatorio");
    reveal_strlit("Paradiso");
    assert("Inferno"@.len() == 7);
    assert("Purgatorio"@.len() == 10);
    assert("Paradiso"@.len() == 8);
}

/// The canto numbers of `m` from `k` up to 255, in ascending order.
pub open spec fn numbers_from(m: Map<u8, Canto>, k: nat) -> Seq<u8>
    decreases 256 - k,
{
    if k >= 256 {
        Seq::empty()
    } else {
        let rest = numbers_from(m, k + 1);
        if m.contains_key(k as u8) {
            seq![k as u8] + rest
        } else {
            rest
        }
    }
}

/// All canto numbers of `m`, in ascending order.
pub open spec fn canto_numbers(m: Map<u8, Canto>) -> Seq<u8> {
    numbers_from(m, 0)
}

/// The numbers from `k` on are ascending, each a key of `m` and at least `k`,
/// and each key of `m` from `k` on is among them.
pub proof fn lemma_numbers_from(m: Map<u8, Canto>, k: nat)
    ensures
        forall|i: int, j: int|
            0 <= i < j < numbers_from(m, k).len() ==> numbers_from(m, k)[i] < numbers_from(m, k)[j],
        forall|i: int|
            0 <= i < numbers_from(m, k).len() ==> m.contains_key(#[trigger] numbers_from(m, k)[i])
                && numbers_from(m, k)[i] >= k,
        forall|x: u8| x >= k && m.contains_key(x) ==> numbers_from(m, k).contains(x),
    decreases 256 - k,
{
    if k < 256 {
        lemma_numbers_from(m, k + 1);
        let rest = numbers_from(m, k + 1);
        if m.contains_key(k as u8) {
            let s = seq![k as u8] + rest;
            assert forall|x: u8| x >= k && m.contains_key(x) implies s.contains(x) by {
                if x == k {
                    assert(s[0] == x);
                } else {
                    let j = choose|j: int| 0 <= j < rest.len() && rest[j] == x;
                    assert(s[j + 1] == x);
                }
            }
        }
    }
}

/// The canto numbers are strictly ascending and are exactly the keys of the map.
pub proof fn lemma_canto_numbers(m: Map<u8, Canto>)
    ensures
        forall|i: int, j: int|
            0 <= i < j < canto_numbers(m).len() ==> canto_numbers(m)[i] < canto_numbers(m)[j],
        forall|x: u8| canto_numbers(m).contains(x) <==> m.contains_key(x),
{
    lemma_numbers_from(m, 0);
}

impl Canto {
    /// Line numbers rise strictly from verse to verse.
    pub open spec fn wf(self) -> bool {
        forall|i: int, j: int|
            0 <= i < j < self.verses.len() ==> self.verses[i].line_number
                < self.verses[j].line_number
    }
}

impl Cantica {
    /// Each canto is stored under its own number and is well formed.
    pub open spec fn wf(self) -> bool {
        forall|k: u8| #[trigger]
            self.cantos@.contains_key(k) ==> self.cantos@[k].number == k && self.cantos@[k].wf()
    }

    /// The canto with the given number, if there is one.
    pub fn canto(&self, number: u8) -> (r: Option<&Canto>)
        ensures
            r matches Some(c) ==> self.cantos@.contains_key(number) && *c == self.cantos@[number],
            r is None ==> !self.cantos@.contains_key(number),
    {
        self.cantos.get(&number)
    }

    /// The numbers of the cantos, in ascending order.
    pub fn sorted_canto_numbers(&self) -> (r: Vec<u8>)
        ensures
            r@ == canto_numbers(self.cantos@),
            forall|i: int, j: int| 0 <= i < j < r.len() ==> r[i] < r[j],
            forall|x: u8| r@.contains(x) <==> self.cantos@.contains_key(x),
    {
        proof {
            lemma_canto_numbers(self.cantos@);
        }
        let mut out: Vec<u8> = Vec::new();
        let mut k: u16 = 0;
        while k < 256
            invariant
                k <= 256,
                out@ + numbers_from(self.cantos@, k as nat) == canto_numbers(self.cantos@),
            decreases 256 - k,
        {
            let key = k as u8;
            let ghost before = out@;
            if self.cantos.contains_key(&key) {
                out.push(key);
                assert(before + numbers_from(self.cantos@, k as nat) =~= out@ + numbers_from(
                    self.cantos@,
                    (k + 1) as nat,
                ));
            }
            k = k + 1;
        }
        assert(out@ + numbers_from(self.cantos@, k as nat) =~= out@);
        out
    }
}

impl DivinaCommedia {
    /// Each part has its fixed name and is well formed.
    pub open spec fn wf(self) -> bool {
        forall|i: int| 0 <= i < 3 ==> (#[trigger] self.part(i)).name@ == cantica_title(i) && self.part(i).wf()
    }

    /// The part at position `i` of the fixed order (the last one for any
    /// position past it).
    pub open spec fn part(self, i: int) -> Cantica {
        if i == 0 {
            self.inferno
        } else if i == 1 {
            self.purgatorio
        } else {
            self.paradiso
        }
    }

    /// An empty poem: three parts with their names and no cantos.
    pub fn new() -> (r: Self)
        ensures
            r.wf(),
            forall|i: int| 0 <= i < 3 ==> #[trigger] r.part(i).name@ == cantica_title(i),
            forall|i: int| 0 <= i < 3 ==> #[trigger] r.part(i).cantos@ == Map::<u8, Canto>::empty(),
    {
        let r = Self {
            inferno: Cantica { name: String::from_str("Inferno"), cantos: HashMap::new() },
            purgatorio: Cantica { name: String::from_str("Purgatorio"), cantos: HashMap::new() },
            paradiso: Cantica { name: String::from_str("Paradiso"), cantos: HashMap::new() },
        };
        assert(r.part(0).name@ == cantica_title(0));
        assert(r.part(1).name@ == cantica_title(1));
        assert(r.part(2).name@ == cantica_title(2));
        assert(r.part(0).wf() && r.part(1).wf() && r.part(2).wf());
        r
    }

    /// The first part, in the fixed order, that has no canto; none where each
    /// has at least one. A poem with an empty part is not fit to be read.
    pub fn empty_cantica(&self) -> (r: Option<usize>)
        ensures
            r matches Some(i) ==> i < 3 && self.part(i as int).cantos@.is_empty() && forall|j: int|
                0 <= j < i ==> !(#[trigger] self.part(j)).cantos@.is_empty(),
            r is None ==> forall|j: int| 0 <= j < 3 ==> !(#[trigger] self.part(j)).cantos@.is_empty(),
    {
        if self.inferno.cantos.is_empty() {
            Some(0)
        } else if self.purgatorio.cantos.is_empty() {
            Some(1)
        } else if self.paradiso.cantos.is_empty() {
            Some(2)
        } else {
            None
        }
    }

    /// The part at position `i` of the fixed order.
    pub fn cantica(&self, i: usize) -> (r: &Cantica)
        requires
            i < CANTICA_COUNT,
        ensures
            *r == self.part(i as int),
    {
        if i == 0 {
            &self.inferno
        } else if i == 1 {
            &self.purgatorio
        } else {
            &self.paradiso
        }
    }
}

impl Default for DivinaCommedia {
    /// The same as `new`: three named parts with no cantos.
    fn default() -> (r: Self)
        ensures
            r.wf(),
            forall|i: int| 0 <= i < 3 ==> #[trigger] r.part(i).name@ == cantica_title(i),
            forall|i: int| 0 <= i < 3 ==> #[trigger] r.part(i).cantos@ == Map::<u8, Canto>::empty(),
    {
        Self::new()
    }
}

} // verus!
