use traianus::{parse_roman_numeral, NumeralError};

#[test]
fn parse_roman_numeral_small() {
    assert_eq!(parse_roman_numeral(""), Ok(0));
    assert_eq!(parse_roman_numeral("I"), Ok(1));
    assert_eq!(parse_roman_numeral("II"), Ok(2));
    assert_eq!(parse_roman_numeral("III"), Ok(3));
    assert_eq!(parse_roman_numeral("IV"), Ok(4));
    assert_eq!(parse_roman_numeral("V"), Ok(5));
    assert_eq!(parse_roman_numeral("VI"), Ok(6));
    assert_eq!(parse_roman_numeral("VII"), Ok(7));
    assert_eq!(parse_roman_numeral("VIII"), Ok(8));
    assert_eq!(parse_roman_numeral("IX"), Ok(9));
}

#[test]
fn parse_roman_numeral_large() {
    assert_eq!(parse_roman_numeral("LXIX"), Ok(69));
    assert_eq!(parse_roman_numeral("MCMLXIX"), Ok(1969));
    assert_eq!(parse_roman_numeral("CMXCIX"), Ok(999));
    assert_eq!(parse_roman_numeral("XXXIX"), Ok(39));
    assert_eq!(parse_roman_numeral("MMMCMXXXIX"), Ok(3939));
    assert_eq!(parse_roman_numeral("MMMCMXCIX"), Ok(3999));
    assert_eq!(parse_roman_numeral("ML"), Ok(1050));
    assert_eq!(parse_roman_numeral("DI"), Ok(501));
    assert_eq!(parse_roman_numeral("CIII"), Ok(103));
    assert_eq!(parse_roman_numeral("LIV"), Ok(54));
}

#[test]
fn parse_roman_numeral_invalid_numeral() {
    let invalid_numerals = vec![
        "IIII", "VV", "XXXX", "LL", "CCCC", "DD", "MMMM", "IC", "IL", "VX", "LC", "DM", "IIX",
        "VVX", "XM", "IIIIX", "IM", "IIV", "VX", "XXC",
    ];
    for numeral in invalid_numerals {
        assert_eq!(
            parse_roman_numeral(numeral),
            Err(NumeralError::InvalidNumeral(numeral))
        );
    }
}

#[test]
fn parse_roman_numeral_invalid_character() {
    assert_eq!(
        parse_roman_numeral("XIZI"),
        Err(NumeralError::InvalidCharacter('Z'))
    );
}

#[test]
fn empty_input_is_zero() {
    assert_eq!(parse_roman_numeral(""), Ok(0));
}

#[test]
fn subtractive_pairs() {
    assert_eq!(parse_roman_numeral("IV"), Ok(4));
    assert_eq!(parse_roman_numeral("IX"), Ok(9));
    assert_eq!(parse_roman_numeral("XL"), Ok(40));
    assert_eq!(parse_roman_numeral("XC"), Ok(90));
    assert_eq!(parse_roman_numeral("CD"), Ok(400));
    assert_eq!(parse_roman_numeral("CM"), Ok(900));
}

#[test]
fn single_symbols() {
    let cases = [('I', 1), ('V', 5), ('X', 10), ('L', 50), ('C', 100), ('D', 500), ('M', 1000)];
    for (c, v) in cases {
        let s = c.to_string();
        assert_eq!(parse_roman_numeral(&s), Ok(v));
    }
}

#[test]
fn every_standard_numeral_parses() {
    let thousands = ["", "M", "MM", "MMM"];
    let hundreds = ["", "C", "CC", "CCC", "CD", "D", "DC", "DCC", "DCCC", "CM"];
    let tens = ["", "X", "XX", "XXX", "XL", "L", "LX", "LXX", "LXXX", "XC"];
    let ones = ["", "I", "II", "III", "IV", "V", "VI", "VII", "VIII", "IX"];
    for n in 0..4000u64 {
        let s = format!(
            "{}{}{}{}",
            thousands[(n / 1000) as usize],
            hundreds[((n / 100) % 10) as usize],
            tens[((n / 10) % 10) as usize],
            ones[(n % 10) as usize]
        );
        assert_eq!(parse_roman_numeral(&s), Ok(n), "{}", s);
    }
}

#[test]
fn known_years() {
    assert_eq!(parse_roman_numeral("MMXXIV"), Ok(2024));
    assert_eq!(parse_roman_numeral("MCMLXIX"), Ok(1969));
    assert_eq!(parse_roman_numeral("CMXCIX"), Ok(999));
}

#[test]
fn unknown_character_wins_over_bad_arrangement() {
    assert_eq!(
        parse_roman_numeral("IIIIZ"),
        Err(NumeralError::InvalidCharacter('Z'))
    );
    assert_eq!(
        parse_roman_numeral("ZQ"),
        Err(NumeralError::InvalidCharacter('Z'))
    );
    assert_eq!(
        parse_roman_numeral("xiv"),
        Err(NumeralError::InvalidCharacter('x'))
    );
    assert_eq!(
        parse_roman_numeral("MMé"),
        Err(NumeralError::InvalidCharacter('é'))
    );
    assert_eq!(
        parse_roman_numeral("X I"),
        Err(NumeralError::InvalidCharacter(' '))
    );
}

#[test]
fn bad_arrangements_carry_whole_input() {
    let cases = [
        "IIII", "VV", "XXXX", "LL", "CCCC", "DD", "MMMM", "IC", "IL", "VX", "LC", "DM", "IIX",
        "XM", "IIIIX", "IM", "IIV", "XXC", "VIX", "ID", "XD", "MMMMCM",
    ];
    for numeral in cases {
        match parse_roman_numeral(numeral) {
            Err(NumeralError::InvalidNumeral(t)) => assert_eq!(t, numeral),
            other => panic!("{} gave {:?}", numeral, other),
        }
    }
}

#[test]
fn parsing_twice_gives_the_same_result() {
    for s in ["", "MCMLXIX", "IIII", "XIZI", "DCCCXC"] {
        assert_eq!(parse_roman_numeral(s), parse_roman_numeral(s));
    }
}

#[test]
fn error_messages() {
    assert_eq!(
        NumeralError::InvalidCharacter('Z').message(),
        "Invalid character: Z"
    );
    assert_eq!(
        NumeralError::InvalidNumeral("IIII").message(),
        "Invalid numeral: IIII"
    );
}
