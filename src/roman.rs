//! Roman numerals: reading them into numbers and writing numbers as them.

use vstd::prelude::*;
use crate::text::chars_of;

verus! {

/// The worth of a single Roman digit; any other character is worth nothing.
pub open spec fn digit_value(c: char) -> int {
    if c == 'I' {
        1
    } else if c == 'V' {
        5
    } else if c == 'X' {
        10
    } else if c == 'L' {
        50
    } else if c == 'C' {
        100
    } else if c == 'D' {
        500
    } else if c == 'M' {
        1000
    } else {
        0
    }
}

/// What the digit at position `i` adds to the total: it is taken away when the
/// digit just after it is worth more, and added otherwise.
pub open spec fn signed_digit(s: Seq<char>, i: int) -> int {
    if i + 1 < s.len() && digit_value(s[i]) < digit_value(s[i + 1]) {
        -digit_value(s[i])
    } else {
        digit_value(s[i])
    }
}

/// The sum of the signed digits of `s` from position `from` to its end.
pub open spec fn numeral_total_from(s: Seq<char>, from: int) -> int
    decreases s.len() - from,
{
    if from < 0 || from >= s.len() {
        0
    } else {
        signed_digit(s, from) + numeral_total_from(s, from + 1)
    }
}

/// The number that a Roman numeral stands for.
pub open spec fn numeral_total(s: Seq<char>) -> int {
    numeral_total_from(s, 0)
}

/// The values of the symbols that numerals are written with, largest first,
/// the subtractive pairs included.
pub open spec fn symbol_value(k: int) -> int {
    if k == 0 {
        1000
    } else if k == 1 {
        900
    } else if k == 2 {
        500
    } else if k == 3 {
        400
    } else if k == 4 {
        100
    } else if k == 5 {
        90
    } else if k == 6 {
        50
    } else if k == 7 {
        40
    } else if k == 8 {
        10
    } else if k == 9 {
        9
    } else if k == 10 {
        5
    } else if k == 11 {
        4
    } else {
        1
    }
}

/// The letters of the symbol at position `k` of the table.
pub open spec fn symbol_text(k: int) -> Seq<char> {
    if k == 0 {
        seq!['M']
    } else if k == 1 {
        seq!['C', 'M']
    } else if k == 2 {
        seq!['D']
    } else if k == 3 {
        seq!['C', 'D']
    } else if k == 4 {
        seq!['C']
    } else if k == 5 {
        seq!['X', 'C']
    } else if k == 6 {
        seq!['L']
    } else if k == 7 {
        seq!['X', 'L']
    } else if k == 8 {
        seq!['X']
    } else if k == 9 {
        seq!['I', 'X']
    } else if k == 10 {
        seq!['V']
    } else if k == 11 {
        seq!['I', 'V']
    } else {
        seq!['I']
    }
}

/// The number of symbols in the table.
pub const SYMBOL_COUNT: usize = 13;

/// `n` written with the symbols from position `k` of the table on, each time
/// the largest one that still fits.
pub open spec fn numeral_from(n: nat, k: nat) -> Seq<char>
    decreases 13 - k, n,
{
    if k >= 13 {
        Seq::empty()
    } else if n >= symbol_value(k as int) && symbol_value(k as int) > 0 {
        symbol_text(k as int) + numeral_from((n - symbol_value(k as int)) as nat, k)
    } else {
        numeral_from(n, k + 1)
    }
}

/// The standard Roman numeral of `n` (empty for zero).
pub open spec fn roman_numeral(n: nat) -> Seq<char> {
    numeral_from(n, 0)
}

fn digit_of(c: char) -> (v: u16)
    ensures
        v == digit_value(c),
{
    match c {
        'I' => 1,
        'V' => 5,
        'X' => 10,
        'L' => 50,
        'C' => 100,
        'D' => 500,
        'M' => 1000,
        _ => 0,
    }
}

/// Reads a Roman numeral. Digits are read from right to left; one that is
/// worth less than the digit after it is subtracted. Characters that are not
/// Roman digits count as zero, and the total is kept modulo 256.
pub fn roman_to_arabic(roman: &str) -> (r: u8)
    ensures
        r as int == numeral_total(roman@) % 256,
{
    let chars = chars_of(roman);
    numeral_value(&chars)
}

/// `roman_to_arabic` on a numeral given as characters.
pub(crate) fn numeral_value(chars: &Vec<char>) -> (r: u8)
    ensures
        r as int == numeral_total(chars@) % 256,
{
    let ghost roman = chars@;
    let mut result: u8 = 0;
    let mut prev_value: u16 = 0;
    let mut i: usize = chars.len();
    while i > 0
        invariant
            chars@ == roman,
            i <= chars.len(),
            result as int == numeral_total_from(roman, i as int) % 256,
            prev_value as int == if i < chars.len() {
                digit_value(roman[i as int])
            } else {
                0
            },
        decreases i,
    {
        i = i - 1;
        let value = digit_of(chars[i]);
        let low = (value % 256) as u8;
        let ghost rest = numeral_total_from(roman, i + 1);
        proof {
            vstd::arithmetic::div_mod::lemma_add_mod_noop(rest, value as int, 256);
            vstd::arithmetic::div_mod::lemma_sub_mod_noop(rest, value as int, 256);
        }
        if value < prev_value {
            result = result.wrapping_sub(low);
        } else {
            result = result.wrapping_add(low);
        }
        prev_value = value;
    }
    result
}

fn symbol(k: usize) -> (r: (usize, &'static str))
    requires
        k < SYMBOL_COUNT,
    ensures
        r.0 == symbol_value(k as int),
        r.1@ == symbol_text(k as int),
{
    proof {
        reveal_strlit("M");
        reveal_strlit("CM");
        reveal_strlit("D");
        reveal_strlit("CD");
        reveal_strlit("C");
        reveal_strlit("XC");
        reveal_strlit("L");
        reveal_strlit("XL");
        reveal_strlit("X");
        reveal_strlit("IX");
        reveal_strlit("V");
        reveal_strlit("IV");
        reveal_strlit("I");
    }
    let r = match k {
        0 => (1000, "M"),
        1 => (900, "CM"),
        2 => (500, "D"),
        3 => (400, "CD"),
        4 => (100, "C"),
        5 => (90, "XC"),
        6 => (50, "L"),
        7 => (40, "XL"),
        8 => (10, "X"),
        9 => (9, "IX"),
        10 => (5, "V"),
        11 => (4, "IV"),
        _ => (1, "I"),
    };
    assert(r.1@ =~= symbol_text(k as int));
    r
}

/// Writes `num` as a Roman numeral, each time with the largest symbol that
/// still fits; zero gives the empty string.
pub fn roman_to_number(num: u8) -> (r: String)
    ensures
        r@ == roman_numeral(num as nat),
{
    let mut result = String::new();
    let mut n: usize = num as usize;
    let mut k: usize = 0;
    while k < SYMBOL_COUNT
        invariant
            k <= SYMBOL_COUNT,
            n <= 255,
            result@ + numeral_from(n as nat, k as nat) == roman_numeral(num as nat),
        decreases SYMBOL_COUNT - k,
    {
        let (value, text) = symbol(k);
        while n >= value
            invariant
                k < SYMBOL_COUNT,
                n <= 255,
                value == symbol_value(k as int),
                value >= 1,
                text@ == symbol_text(k as int),
                result@ + numeral_from(n as nat, k as nat) == roman_numeral(num as nat),
            decreases n,
        {
            let ghost before = result@;
            result.append(text);
            n = n - value;
            assert(before + numeral_from((n + value) as nat, k as nat) =~= result@ + numeral_from(
                n as nat,
                k as nat,
            ));
        }
        k = k + 1;
    }
    assert(result@ + numeral_from(n as nat, k as nat) =~= result@);
    result
}

} // verus!
