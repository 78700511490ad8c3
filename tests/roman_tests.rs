use duca::{roman_to_arabic, roman_to_number};

#[test]
fn test_roman_to_arabic() {
    assert_eq!(roman_to_arabic("I"), 1);
    assert_eq!(roman_to_arabic("II"), 2);
    assert_eq!(roman_to_arabic("III"), 3);
    assert_eq!(roman_to_arabic("IV"), 4);
    assert_eq!(roman_to_arabic("V"), 5);
    assert_eq!(roman_to_arabic("IX"), 9);
    assert_eq!(roman_to_arabic("X"), 10);
    assert_eq!(roman_to_arabic("XIV"), 14);
    assert_eq!(roman_to_arabic("XIX"), 19);
    assert_eq!(roman_to_arabic("XX"), 20);
    assert_eq!(roman_to_arabic("XXXIII"), 33);
    assert_eq!(roman_to_arabic("XXXIV"), 34);
}

#[test]
fn test_roman_to_number() {
    assert_eq!(roman_to_number(1), "I");
    assert_eq!(roman_to_number(2), "II");
    assert_eq!(roman_to_number(3), "III");
    assert_eq!(roman_to_number(4), "IV");
    assert_eq!(roman_to_number(5), "V");
    assert_eq!(roman_to_number(9), "IX");
    assert_eq!(roman_to_number(10), "X");
    assert_eq!(roman_to_number(14), "XIV");
    assert_eq!(roman_to_number(19), "XIX");
    assert_eq!(roman_to_number(20), "XX");
    assert_eq!(roman_to_number(33), "XXXIII");
    assert_eq!(roman_to_number(34), "XXXIV");
}

#[test]
fn roman_numerals_at_the_edges() {
    assert_eq!(roman_to_number(0), "");
    assert_eq!(roman_to_number(255), "CCLV");
    assert_eq!(roman_to_number(99), "XCIX");
    assert_eq!(roman_to_number(44), "XLIV");
    assert_eq!(roman_to_arabic(""), 0);
    assert_eq!(roman_to_arabic("XCIX"), 99);
    assert_eq!(roman_to_arabic("CCLV"), 255);
    // unknown characters count as zero
    assert_eq!(roman_to_arabic("X?I"), 11);
    // totals are kept modulo 256
    assert_eq!(roman_to_arabic("M"), (1000 % 256) as u8);
    assert_eq!(roman_to_arabic("CCLVI"), 0);
}

#[test]
fn roman_round_trip_for_every_canto_number() {
    for n in 0..=255u8 {
        assert_eq!(roman_to_arabic(&roman_to_number(n)), n);
    }
}
