use vstd::prelude::*;
use crate::numeral::{
    all_symbols, first_invalid, is_symbol, lemma_all_symbols_valid, ParseFailure, lookahead, numeral_value, parse_spec, scan, step,
    symbol_value,
};

verus! {

/// `k` copies of `c`.
pub open spec fn repeat(c: char, k: nat) -> Seq<char>
    decreases k,
{
    if k == 0 {
        Seq::empty()
    } else {
        seq![c] + repeat(c, (k - 1) as nat)
    }
}

/// The standard spelling of the decimal digit `d` in the tier whose symbols
/// are `one`, `five` and `ten` (`I V X`, `X L C` or `C D M`).
pub open spec fn digit_numeral(d: nat, one: char, five: char, ten: char) -> Seq<char> {
    if d == 9 {
        seq![one, ten]
    } else if d >= 5 {
        seq![five] + repeat(one, (d - 5) as nat)
    } else if d == 4 {
        seq![one, five]
    } else {
        repeat(one, d)
    }
}

/// The standard (canonical) Roman numeral of `n`, for `n <= 3999`:
/// thousands as `M`s, then the hundreds, tens and units digits.
pub open spec fn canonical(n: nat) -> Seq<char> {
    repeat('M', n / 1000) + (digit_numeral((n / 100) % 10, 'C', 'D', 'M') + (digit_numeral(
        (n / 10) % 10,
        'X',
        'L',
        'C',
    ) + digit_numeral(n % 10, 'I', 'V', 'X')))
}

/// `rest` is empty or starts with a symbol worth less than `u`.
pub open spec fn starts_below(rest: Seq<char>, u: nat) -> bool {
    rest.len() == 0 || (is_symbol(rest[0]) && symbol_value(rest[0]) < u)
}

/// The symbols `one`, `five`, `ten` of one decimal tier, `one` worth `u`.
pub open spec fn is_tier(one: char, five: char, ten: char, u: nat) -> bool {
    ||| (one == 'I' && five == 'V' && ten == 'X' && u == 1)
    ||| (one == 'X' && five == 'L' && ten == 'C' && u == 10)
    ||| (one == 'C' && five == 'D' && ten == 'M' && u == 100)
}

/// The scan moves over a single character `c`, seeing `rest`'s first one.
proof fn lemma_scan_single(c: char, rest: Seq<char>, acc: nat, a: nat)
    requires
        step(acc, c, if rest.len() > 0 { Some(rest[0]) } else { None }) == Some((a, 1nat)),
    ensures
        scan(seq![c] + rest, acc) == scan(rest, a),
{
    let s = seq![c] + rest;
    assert(s[0] == c);
    if rest.len() > 0 {
        assert(s[1] == rest[0]);
    }
    assert(lookahead(s) == if rest.len() > 0 { Some(rest[0]) } else { None::<char> });
    assert(s.subrange(1, s.len() as int) =~= rest);
}

/// The scan moves over a subtractive pair `c1 c2`.
proof fn lemma_scan_pair(c1: char, c2: char, rest: Seq<char>, acc: nat, a: nat)
    requires
        step(acc, c1, Some(c2)) == Some((a, 2nat)),
    ensures
        scan(seq![c1, c2] + rest, acc) == scan(rest, a),
{
    let s = seq![c1, c2] + rest;
    assert(s[0] == c1);
    assert(s[1] == c2);
    assert(lookahead(s) == Some(c2));
    assert(s.subrange(2, s.len() as int) =~= rest);
}

/// A run of `k` copies of `one` (`I`, `X`, `C` or `M`, worth `u`) adds `k * u`,
/// as long as the tier's count of three is not exceeded.
proof fn lemma_scan_repeat(one: char, u: nat, k: nat, rest: Seq<char>, acc: nat)
    requires
        (one == 'I' && u == 1) || (one == 'X' && u == 10) || (one == 'C' && u == 100) || (one
            == 'M' && u == 1000),
        acc % (5 * u) + k * u <= 3 * u,
        starts_below(rest, u),
    ensures
        scan(repeat(one, k) + rest, acc) == scan(rest, acc + k * u),
    decreases k,
{
    if k == 0 {
        assert(repeat(one, k) + rest =~= rest);
    } else {
        let tail = repeat(one, (k - 1) as nat) + rest;
        assert(repeat(one, k) + rest =~= seq![one] + tail);
        assert((acc + u) % (5 * u) == acc % (5 * u) + u) by {
            assert(acc % (5 * u) + u < 5 * u) by (nonlinear_arith)
                requires
                    acc % (5 * u) + k * u <= 3 * u,
                    k >= 1,
                    u >= 1,
            ;
            vstd::arithmetic::div_mod::lemma_mod_add_multiples_vanish(acc as int, 5 * u as int);
            vstd::arithmetic::div_mod::lemma_add_mod_noop(acc as int, u as int, 5 * u as int);
            vstd::arithmetic::div_mod::lemma_small_mod(u, 5 * u);
            vstd::arithmetic::div_mod::lemma_small_mod((acc % (5 * u) + u) as nat, 5 * u);
        }
        assert(acc % (5 * u) < 3 * u) by (nonlinear_arith)
            requires
                acc % (5 * u) + k * u <= 3 * u,
                k >= 1,
                u >= 1,
        ;
        assert((acc + u) % (5 * u) + (k - 1) * u <= 3 * u) by (nonlinear_arith)
            requires
                (acc + u) % (5 * u) == acc % (5 * u) + u,
                acc % (5 * u) + k * u <= 3 * u,
                k >= 1,
        ;
        lemma_scan_repeat(one, u, (k - 1) as nat, rest, acc + u);
        if k > 1 {
            assert(tail[0] == one);
        } else {
            assert(tail =~= rest);
        }
        lemma_scan_single(one, tail, acc, acc + u);
        assert(acc + u + (k - 1) * u == acc + k * u) by (nonlinear_arith);
    }
}

/// The standard spelling of a digit `d` adds `d * u`, from an accumulator
/// with nothing yet in this tier or below.
proof fn lemma_scan_digit(d: nat, one: char, five: char, ten: char, u: nat, rest: Seq<char>, acc: nat)
    requires
        d <= 9,
        is_tier(one, five, ten, u),
        acc % (10 * u) == 0,
        starts_below(rest, u),
    ensures
        scan(digit_numeral(d, one, five, ten) + rest, acc) == scan(rest, acc + d * u),
        starts_below(digit_numeral(d, one, five, ten) + rest, 10 * u),
        all_symbols(rest) ==> all_symbols(digit_numeral(d, one, five, ten) + rest),
{
    let g = digit_numeral(d, one, five, ten);
    assert(acc % (5 * u) == 0) by {
        vstd::arithmetic::div_mod::lemma_mod_mod(acc as int, 5, 2 * u as int);
        assert(5 * (2 * u) == 10 * u) by (nonlinear_arith);
    }
    if d == 9 {
        assert(step(acc, one, Some(ten)) == Some((acc + 9 * u, 2nat)));
        lemma_scan_pair(one, ten, rest, acc, acc + 9 * u);
    } else if d >= 5 {
        let k = (d - 5) as nat;
        let tail = repeat(one, k) + rest;
        assert(g + rest =~= seq![five] + tail);
        assert((acc + 5 * u) % (5 * u) == 0) by {
            vstd::arithmetic::div_mod::lemma_mod_add_multiples_vanish(acc as int, 5 * u as int);
        }
        assert(k * u <= 3 * u) by (nonlinear_arith)
            requires
                k <= 3,
        ;
        lemma_scan_repeat(one, u, k, rest, acc + 5 * u);
        if k > 0 {
            assert(tail[0] == one);
        } else {
            assert(tail =~= rest);
        }
        lemma_scan_single(five, tail, acc, acc + 5 * u);
        assert(acc + 5 * u + k * u == acc + d * u) by (nonlinear_arith)
            requires
                k == d - 5,
        ;
        lemma_repeat_symbols(one, k);
        assert(forall|i: int| 0 < i < g.len() ==> g[i] == repeat(one, k)[i - 1]);
    } else if d == 4 {
        assert(step(acc, one, Some(five)) == Some((acc + 4 * u, 2nat)));
        lemma_scan_pair(one, five, rest, acc, acc + 4 * u);
    } else {
        assert(d * u <= 3 * u) by (nonlinear_arith)
            requires
                d <= 3,
        ;
        lemma_scan_repeat(one, u, d, rest, acc);
        lemma_repeat_symbols(one, d);
    }
    lemma_concat_symbols(g, rest);
}

proof fn lemma_repeat_symbols(c: char, k: nat)
    ensures
        forall|i: int| 0 <= i < k ==> #[trigger] repeat(c, k)[i] == c,
        repeat(c, k).len() == k,
    decreases k,
{
    if k > 0 {
        lemma_repeat_symbols(c, (k - 1) as nat);
    }
}

proof fn lemma_concat_symbols(a: Seq<char>, b: Seq<char>)
    requires
        all_symbols(a),
    ensures
        all_symbols(b) ==> all_symbols(a + b),
{
    if all_symbols(b) {
        assert forall|i: int| 0 <= i < (a + b).len() implies is_symbol(#[trigger] (a + b)[i]) by {
            if i >= a.len() {
                assert((a + b)[i] == b[i - a.len()]);
            }
        }
    }
}

/// Every standard numeral from 0 to 3999 parses to the number it spells.
pub proof fn lemma_canonical_parses(n: nat)
    requires
        n <= 3999,
    ensures
        parse_spec(canonical(n)) == Ok::<nat, ParseFailure>(n),
{
    let (a, b, c, d) = (n / 1000, (n / 100) % 10, (n / 10) % 10, n % 10);
    let ones = digit_numeral(d, 'I', 'V', 'X');
    let tens = digit_numeral(c, 'X', 'L', 'C') + ones;
    let hundreds = digit_numeral(b, 'C', 'D', 'M') + tens;
    let e = Seq::<char>::empty();
    assert(ones + e =~= ones);
    assert(all_symbols(e));
    let acc_h = 1000 * a;
    let acc_t = acc_h + 100 * b;
    let acc_o = acc_t + 10 * c;
    assert(n == acc_o + d && a <= 3 && b <= 9 && c <= 9 && d <= 9) by (nonlinear_arith)
        requires
            a == n / 1000,
            b == (n / 100) % 10,
            c == (n / 10) % 10,
            d == n % 10,
            acc_o == 1000 * a + 100 * b + 10 * c,
            n <= 3999,
    ;
    assert(acc_o % 10 == 0 && acc_t % 100 == 0 && acc_h % 1000 == 0) by (nonlinear_arith)
        requires
            acc_h == 1000 * a,
            acc_t == acc_h + 100 * b,
            acc_o == acc_t + 10 * c,
    ;
    assert(0nat % (5 * 1000) + a * 1000 <= 3 * 1000);
    lemma_scan_digit(d, 'I', 'V', 'X', 1, e, acc_o);
    lemma_scan_digit(c, 'X', 'L', 'C', 10, ones, acc_t);
    lemma_scan_digit(b, 'C', 'D', 'M', 100, tens, acc_h);
    lemma_scan_repeat('M', 1000, a, hundreds, 0);
    lemma_repeat_symbols('M', a);
    assert(all_symbols(repeat('M', a)));
    lemma_concat_symbols(repeat('M', a), hundreds);
    lemma_all_symbols_valid(canonical(n));
    assert(scan(e, n) == Some(n));
}

} // verus!
