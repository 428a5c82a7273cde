use vstd::prelude::*;

verus! {

/// The seven symbols of a Roman numeral.
pub open spec fn is_symbol(c: char) -> bool {
    c == 'I' || c == 'V' || c == 'X' || c == 'L' || c == 'C' || c == 'D' || c == 'M'
}

/// Every character of `s` is one of the seven symbols.
pub open spec fn all_symbols(s: Seq<char>) -> bool {
    forall|i: int| 0 <= i < s.len() ==> is_symbol(#[trigger] s[i])
}

/// The first character of `s` that is not a symbol, if there is one.
pub open spec fn first_invalid(s: Seq<char>) -> Option<char>
    decreases s.len(),
{
    if s.len() == 0 {
        None
    } else if !is_symbol(s[0]) {
        Some(s[0])
    } else {
        first_invalid(s.drop_first())
    }
}

/// Value of a single symbol.
pub open spec fn symbol_value(c: char) -> nat {
    if c == 'I' {
        1
    } else if c == 'V' {
        5
    } else if c == 'X' {
        10
    } else if c == 'L' {
        50
    } else if c == 'C' {
        100
    } else if c == 'D' {
        500
    } else if c == 'M' {
        1000
    } else {
        0
    }
}

/// One move of the left-to-right scan: at symbol `c`, with the accumulator
/// at `acc` and `next` the character that follows (if any).
///
/// `None` rejects the numeral. `Some((a, n))` moves the accumulator to `a`
/// and consumes `n` characters: 2 for a subtractive pair (`c` and `next`),
/// 1 otherwise. Whether `c` may stand here depends only on the residues of
/// `acc` modulo the tier spans 5, 10, 50, 100, 500, 1000 and 5000.
pub open spec fn step(acc: nat, c: char, next: Option<char>) -> Option<(nat, nat)> {
    if c == 'I' {
        if acc % 5 >= 3 {
            None
        } else if next == Some('V') {
            if acc % 5 == 0 { Some((acc + 4, 2)) } else { None }
        } else if next == Some('X') {
            if acc % 10 == 0 { Some((acc + 9, 2)) } else { None }
        } else if next == Some('L') || next == Some('C') || next == Some('D') || next == Some('M') {
            None
        } else {
            Some((acc + 1, 1))
        }
    } else if c == 'V' {
        if next == Some('V') || next == Some('X') || next == Some('L') || next == Some('C')
            || next == Some('D') || next == Some('M') {
            None
        } else {
            Some((acc + 5, 1))
        }
    } else if c == 'X' {
        if acc % 50 >= 30 {
            None
        } else if next == Some('L') {
            if acc % 50 == 0 { Some((acc + 40, 2)) } else { None }
        } else if next == Some('C') {
            if acc % 100 == 0 { Some((acc + 90, 2)) } else { None }
        } else if next == Some('D') || next == Some('M') {
            None
        } else {
            Some((acc + 10, 1))
        }
    } else if c == 'L' {
        if next == Some('L') || next == Some('C') || next == Some('D') || next == Some('M') {
            None
        } else {
            Some((acc + 50, 1))
        }
    } else if c == 'C' {
        if acc % 500 >= 300 {
            None
        } else if next == Some('D') {
            if acc % 500 == 0 { Some((acc + 400, 2)) } else { None }
        } else if next == Some('M') {
            if acc % 1000 == 0 { Some((acc + 900, 2)) } else { None }
        } else {
            Some((acc + 100, 1))
        }
    } else if c == 'D' {
        if next == Some('D') || next == Some('M') {
            None
        } else {
            Some((acc + 500, 1))
        }
    } else if c == 'M' {
        if acc % 5000 >= 3000 {
            None
        } else {
            Some((acc + 1000, 1))
        }
    } else {
        None
    }
}

/// The character after the first one of `s`, if there is one.
pub open spec fn lookahead(s: Seq<char>) -> Option<char> {
    if s.len() > 1 {
        Some(s[1])
    } else {
        None
    }
}

/// Runs the scan over `s` from accumulator `acc`; `Some` of the final
/// accumulator when every move is allowed, `None` when one rejects.
pub open spec fn scan(s: Seq<char>, acc: nat) -> Option<nat>
    decreases s.len(),
{
    if s.len() == 0 {
        Some(acc)
    } else {
        match step(acc, s[0], lookahead(s)) {
            None => None,
            Some((a, n)) => if 1 <= n <= s.len() {
                scan(s.subrange(n as int, s.len() as int), a)
            } else {
                None
            },
        }
    }
}

/// The value of `s` as a Roman numeral, or `None` when its symbols are not
/// arranged as one. The empty string is the numeral of zero.
pub open spec fn numeral_value(s: Seq<char>) -> Option<nat> {
    scan(s, 0)
}

/// A string of symbols has no first non-symbol.
pub proof fn lemma_all_symbols_valid(s: Seq<char>)
    requires
        all_symbols(s),
    ensures
        first_invalid(s) is None,
    decreases s.len(),
{
    if s.len() > 0 {
        assert(is_symbol(s[0]));
        assert forall|i: int| 0 <= i < s.drop_first().len() implies is_symbol(
            #[trigger] s.drop_first()[i],
        ) by {
            assert(s.drop_first()[i] == s[i + 1]);
        }
        lemma_all_symbols_valid(s.drop_first());
    }
}

/// When the character at `i` is not a symbol and all before it are, the
/// parse reports exactly that character, whatever follows it.
pub proof fn lemma_unknown_character(s: Seq<char>, i: int)
    requires
        0 <= i < s.len(),
        !is_symbol(s[i]),
        all_symbols(s.subrange(0, i)),
    ensures
        parse_spec(s) == Err::<nat, ParseFailure>(ParseFailure::InvalidCharacter(s[i])),
{
    lemma_first_non_symbol(s, i);
}

proof fn lemma_first_non_symbol(s: Seq<char>, i: int)
    requires
        0 <= i < s.len(),
        !is_symbol(s[i]),
        all_symbols(s.subrange(0, i)),
    ensures
        first_invalid(s) == Some(s[i]),
    decreases i,
{
    if i > 0 {
        assert(s.subrange(0, i)[0] == s[0]);
        let t = s.drop_first();
        assert(t[i - 1] == s[i]);
        assert forall|j: int| 0 <= j < t.subrange(0, i - 1).len() implies is_symbol(
            #[trigger] t.subrange(0, i - 1)[j],
        ) by {
            assert(t.subrange(0, i - 1)[j] == s.subrange(0, i)[j + 1]);
        }
        lemma_first_non_symbol(t, i - 1);
    }
}

/// What a parse of a string comes to, stated over plain values.
pub enum ParseFailure {
    /// The first character of the input that is not a symbol.
    InvalidCharacter(char),
    /// The whole input, whose symbols do not form a numeral.
    InvalidNumeral(Seq<char>),
}

/// The outcome of parsing `s`: an unknown character takes precedence over a
/// malformed arrangement, wherever it stands.
pub open spec fn parse_spec(s: Seq<char>) -> Result<nat, ParseFailure> {
    match first_invalid(s) {
        Some(c) => Err(ParseFailure::InvalidCharacter(c)),
        None => match numeral_value(s) {
            Some(v) => Ok(v),
            None => Err(ParseFailure::InvalidNumeral(s)),
        },
    }
}

} // verus!
