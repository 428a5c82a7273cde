use vstd::prelude::*;
use crate::error::{outcome, NumeralError};
use vstd::std_specs::iter::IteratorSpec;
use crate::numeral::{first_invalid, lookahead, numeral_value, parse_spec, scan, step};

verus! {

broadcast use vstd::string::group_string_axioms;

/// The first character of `input` that is not a symbol, if there is one.
pub fn find_invalid_char(input: &str) -> (r: Option<char>)
    ensures
        r == first_invalid(input@),
{
    let ghost s = input@;
    let mut it = input.chars();
    let ghost mut pos: int = 0;
    loop
        invariant
            s == input@,
            0 <= pos <= s.len(),
            it.remaining() == s.subrange(pos, s.len() as int),
            first_invalid(s) == first_invalid(s.subrange(pos, s.len() as int)),
        decreases s.len() - pos,
    {
        match it.next() {
            None => {
                return None;
            },
            Some(c) => {
                if !(c == 'I' || c == 'V' || c == 'X' || c == 'L' || c == 'C' || c == 'D' || c == 'M') {
                    return Some(c);
                }
                proof {
                    assert(s.subrange(pos, s.len() as int).drop_first() =~= s.subrange(pos + 1, s.len() as int));
                    pos = pos + 1;
                }
            },
        }
    }
}

/// The longest input, in characters, that the parser takes: the accumulator
/// grows by at most 1000 per character and must stay within `u64`.
pub const MAX_INPUT_LEN: u64 = 18_446_744_073_709_551;

/// One move of the scan at position `pos` carries the rest of the scan over.
proof fn lemma_scan_advance(s: Seq<char>, pos: int, acc: nat)
    requires
        0 <= pos < s.len(),
        step(acc, s[pos], lookahead(s.subrange(pos, s.len() as int))) is Some,
    ensures
        ({
            let (a, n) = step(acc, s[pos], lookahead(s.subrange(pos, s.len() as int)))->0;
            1 <= n <= s.len() - pos ==> scan(s.subrange(pos, s.len() as int), acc) == scan(
                s.subrange(pos + n, s.len() as int),
                a,
            )
        }),
{
    let sub = s.subrange(pos, s.len() as int);
    let (a, n) = step(acc, s[pos], lookahead(sub))->0;
    assert(sub[0] == s[pos]);
    if 1 <= n <= s.len() - pos {
        assert(sub.subrange(n as int, sub.len() as int) =~= s.subrange(pos + n, s.len() as int));
    }
}

/// Scans a string of symbols left to right with one character of lookahead;
/// `None` when a move is not allowed.
fn scan_symbols(input: &str) -> (r: Option<u64>)
    requires
        input@.len() <= MAX_INPUT_LEN,
    ensures
        match r {
            Some(v) => numeral_value(input@) == Some(v as nat),
            None => numeral_value(input@) is None,
        },
{
    let ghost s = input@;
    let mut it = input.chars();
    let mut cur = it.next();
    let ghost mut pos: int = 0;
    let mut acc: u64 = 0;
    proof {
        assert(s.subrange(0, s.len() as int) =~= s);
        if s.len() > 0 {
            assert(s.drop_first() =~= s.subrange(1, s.len() as int));
        }
    }
    loop
        invariant
            s == input@,
            s.len() <= MAX_INPUT_LEN,
            0 <= pos <= s.len(),
            cur == (if pos < s.len() { Some(s[pos]) } else { None::<char> }),
            pos < s.len() ==> it.remaining() == s.subrange(pos + 1, s.len() as int),
            pos == s.len() ==> it.remaining().len() == 0,
            numeral_value(s) == scan(s.subrange(pos, s.len() as int), acc as nat),
            acc <= 1000 * pos,
        decreases s.len() - pos,
    {
        let c = match cur {
            None => {
                proof {
                    assert(s.subrange(pos, s.len() as int).len() == 0);
                }
                return Some(acc);
            },
            Some(c) => c,
        };
        let ghost sub = s.subrange(pos, s.len() as int);
        let next = it.next();
        proof {
            assert(sub[0] == c);
            if pos + 1 < s.len() {
                assert(sub[1] == s[pos + 1]);
                assert(it.remaining() == s.subrange(pos + 2, s.len() as int));
            }
            assert(next == lookahead(sub));
        }
        let ghost old_acc = acc as nat;
        let mut pair = false;
        if c == 'I' {
            if acc % 5 >= 3 {
                return None;
            }
            match next {
                Some('V') => {
                    if acc % 5 > 0 {
                        return None;
                    }
                    acc = acc + 4;
                    pair = true;
                },
                Some('X') => {
                    if acc % 10 > 0 {
                        return None;
                    }
                    acc = acc + 9;
                    pair = true;
                },
                Some('L') | Some('C') | Some('D') | Some('M') => {
                    return None;
                },
                _ => {
                    acc = acc + 1;
                },
            }
        } else if c == 'V' {
            if let Some('V') | Some('X') | Some('L') | Some('C') | Some('D') | Some('M') = next {
                return None;
            }
            acc = acc + 5;
        } else if c == 'X' {
            if acc % 50 >= 30 {
                return None;
            }
            match next {
                Some('L') => {
                    if acc % 50 > 0 {
                        return None;
                    }
                    acc = acc + 40;
                    pair = true;
                },
                Some('C') => {
                    if acc % 100 > 0 {
                        return None;
                    }
                    acc = acc + 90;
                    pair = true;
                },
                Some('D') | Some('M') => {
                    return None;
                },
                _ => {
                    acc = acc + 10;
                },
            }
        } else if c == 'L' {
            if let Some('L') | Some('C') | Some('D') | Some('M') = next {
                return None;
            }
            acc = acc + 50;
        } else if c == 'C' {
            if acc % 500 >= 300 {
                return None;
            }
            match next {
                Some('D') => {
                    if acc % 500 > 0 {
                        return None;
                    }
                    acc = acc + 400;
                    pair = true;
                },
                Some('M') => {
                    if acc % 1000 > 0 {
                        return None;
                    }
                    acc = acc + 900;
                    pair = true;
                },
                _ => {
                    acc = acc + 100;
                },
            }
        } else if c == 'D' {
            if let Some('D') | Some('M') = next {
                return None;
            }
            acc = acc + 500;
        } else if c == 'M' {
            if acc % 5000 >= 3000 {
                return None;
            }
            acc = acc + 1000;
        } else {
            return None;
        }
        proof {
            lemma_scan_advance(s, pos, old_acc);
        }
        if pair {
            cur = it.next();
            proof {
                pos = pos + 2;
            }
        } else {
            cur = next;
            proof {
                pos = pos + 1;
            }
        }
    }
}

/// Parses a Roman numeral into its value.
///
/// The empty string is the numeral of zero. The first character that is not
/// one of `I V X L C D M` is reported as `InvalidCharacter`, wherever it
/// stands; otherwise a string whose symbols the scan rejects is reported as
/// `InvalidNumeral`, with the whole input.
pub fn parse_roman_numeral(input: &str) -> (r: Result<u64, NumeralError<'_>>)
    requires
        input@.len() <= MAX_INPUT_LEN,
    ensures
        outcome(r) == parse_spec(input@),
{
    if let Some(c) = find_invalid_char(input) {
        return Err(NumeralError::InvalidCharacter(c));
    }
    match scan_symbols(input) {
        Some(v) => Ok(v),
        None => Err(NumeralError::InvalidNumeral(input)),
    }
}

/// Parsing holds no state: any two results that `parse_roman_numeral` may
/// return for one input are the same outcome, and equal outright unless they
/// carry the input text.
pub proof fn lemma_parse_deterministic<'a, 'b>(
    s: Seq<char>,
    r1: Result<u64, NumeralError<'a>>,
    r2: Result<u64, NumeralError<'b>>,
)
    requires
        outcome(r1) == parse_spec(s),
        outcome(r2) == parse_spec(s),
    ensures
        outcome(r1) == outcome(r2),
        r1 matches Ok(v) ==> r2 == Ok::<u64, NumeralError<'b>>(v),
        r1 matches Err(NumeralError::InvalidCharacter(c)) ==> r2 == Err::<u64, NumeralError<'b>>(
            NumeralError::InvalidCharacter(c),
        ),
        r1 matches Err(NumeralError::InvalidNumeral(t1)) ==> r2 matches Err(
            NumeralError::InvalidNumeral(t2),
        ) && t1@ == t2@,
{
}

} // verus!
