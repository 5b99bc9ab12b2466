use vstd::prelude::*;
use vstd::string::StringExecFns;

verus! {

use vstd::arithmetic::div_mod::{lemma_div_is_ordered, lemma_div_pos_is_pos,
    lemma_multiply_divide_lt, lemma_mod_bound, lemma_fundamental_div_mod};
use crate::lex::{lex_lt, lemma_lex_lt_common_prefix};

/// Ten to the given power.
pub open spec fn pow10(n: nat) -> int
    decreases n,
{
    if n == 0 {
        1
    } else {
        10 * pow10((n - 1) as nat)
    }
}

pub proof fn lemma_pow10_pos(n: nat)
    ensures
        pow10(n) >= 1,
    decreases n,
{
    if n > 0 {
        lemma_pow10_pos((n - 1) as nat);
    }
}

pub proof fn lemma_pow10_values()
    ensures
        pow10(6) == 1_000_000,
        pow10(7) == 10_000_000,
{
    assert(pow10(0) == 1);
    assert(pow10(1) == 10);
    assert(pow10(2) == 100);
    assert(pow10(3) == 1000);
    assert(pow10(4) == 10_000);
    assert(pow10(5) == 100_000);
    assert(pow10(6) == 1_000_000);
    assert(pow10(7) == 10_000_000);
}

pub proof fn lemma_pow10_increases(m: nat, n: nat)
    requires
        m <= n,
    ensures
        pow10(m) <= pow10(n),
    decreases n,
{
    if m < n {
        lemma_pow10_increases(m, (n - 1) as nat);
        lemma_pow10_pos((n - 1) as nat);
    }
}

/// The character for one decimal digit.
pub open spec fn digit_char(d: int) -> char {
    if d == 0 {
        '0'
    } else if d == 1 {
        '1'
    } else if d == 2 {
        '2'
    } else if d == 3 {
        '3'
    } else if d == 4 {
        '4'
    } else if d == 5 {
        '5'
    } else if d == 6 {
        '6'
    } else if d == 7 {
        '7'
    } else if d == 8 {
        '8'
    } else {
        '9'
    }
}

/// The decimal digits of a number below `pow10(n)`, zero-padded on the left
/// to exactly `n` places, most significant first.
pub open spec fn padded_decimal(i: int, n: nat) -> Seq<char>
    decreases n,
{
    if n == 0 {
        Seq::empty()
    } else {
        seq![digit_char(i / pow10((n - 1) as nat))] + padded_decimal(
            i % pow10((n - 1) as nat),
            (n - 1) as nat,
        )
    }
}

pub proof fn lemma_padded_decimal_len(i: int, n: nat)
    ensures
        padded_decimal(i, n).len() == n,
    decreases n,
{
    if n > 0 {
        lemma_padded_decimal_len(i % pow10((n - 1) as nat), (n - 1) as nat);
    }
}

/// Zero-padding to a common width turns numeric order into lexicographic
/// order: of two distinct numbers below `pow10(n)`, the smaller one's padded
/// digits come first.
pub proof fn lemma_padded_decimal_increases(i: int, j: int, n: nat)
    requires
        0 <= i < j < pow10(n),
    ensures
        lex_lt(padded_decimal(i, n), padded_decimal(j, n)),
    decreases n,
{
    lemma_pow10_pos(n);
    assert(n > 0);
    let p = pow10((n - 1) as nat);
    lemma_pow10_pos((n - 1) as nat);
    let di = i / p;
    let dj = j / p;
    lemma_div_is_ordered(i, j, p);
    lemma_div_pos_is_pos(i, p);
    lemma_multiply_divide_lt(j, p, 10);
    assert(0 <= di <= dj < 10);
    let ti = padded_decimal(i % p, (n - 1) as nat);
    let tj = padded_decimal(j % p, (n - 1) as nat);
    let a = padded_decimal(i, n);
    let b = padded_decimal(j, n);
    assert(a == seq![digit_char(di)] + ti);
    assert(b == seq![digit_char(dj)] + tj);
    lemma_padded_decimal_len(i, n);
    lemma_padded_decimal_len(j, n);
    if di < dj {
        assert((digit_char(di) as int) < (digit_char(dj) as int));
        assert(a[0] == digit_char(di));
        assert(b[0] == digit_char(dj));
        assert(a != b);
    } else {
        lemma_fundamental_div_mod(i, p);
        lemma_fundamental_div_mod(j, p);
        lemma_mod_bound(i, p);
        lemma_mod_bound(j, p);
        assert(i % p < j % p);
        lemma_padded_decimal_increases(i % p, j % p, (n - 1) as nat);
        lemma_lex_lt_common_prefix(seq![digit_char(di)], ti, tj);
    }
}

/// The characters of a generated label: the fixed stem, then the index
/// zero-padded to seven places.
pub open spec fn label_chars(i: int) -> Seq<char> {
    seq!['i', 't', 'e', 'm'] + padded_decimal(i, 7)
}

/// Labels of distinct indices below ten million are strictly ordered, the
/// smaller index first.
pub proof fn lemma_label_chars_increases(i: int, j: int)
    requires
        0 <= i < j < 10_000_000,
    ensures
        lex_lt(label_chars(i), label_chars(j)),
{
    lemma_pow10_values();
    lemma_padded_decimal_increases(i, j, 7);
    lemma_lex_lt_common_prefix(seq!['i', 't', 'e', 'm'], padded_decimal(i, 7), padded_decimal(j, 7));
}

/// Ten to the given power, computed.
fn pow10_exec(n: usize) -> (r: usize)
    requires
        n <= 7,
    ensures
        r == pow10(n as nat),
{
    let mut r: usize = 1;
    let mut k: usize = 0;
    while k < n
        invariant
            k <= n <= 7,
            r == pow10(k as nat),
        decreases n - k,
    {
        proof {
            lemma_pow10_increases(k as nat, 6);
            lemma_pow10_values();
        }
        r = r * 10;
        k = k + 1;
    }
    r
}

/// The one-character string for a decimal digit.
fn digit_str(d: usize) -> (r: &'static str)
    requires
        d < 10,
    ensures
        r@ == seq![digit_char(d as int)],
{
    proof {
        reveal_strlit("0");
        reveal_strlit("1");
        reveal_strlit("2");
        reveal_strlit("3");
        reveal_strlit("4");
        reveal_strlit("5");
        reveal_strlit("6");
        reveal_strlit("7");
        reveal_strlit("8");
        reveal_strlit("9");
        assert("0"@ =~= seq!['0']);
        assert("1"@ =~= seq!['1']);
        assert("2"@ =~= seq!['2']);
        assert("3"@ =~= seq!['3']);
        assert("4"@ =~= seq!['4']);
        assert("5"@ =~= seq!['5']);
        assert("6"@ =~= seq!['6']);
        assert("7"@ =~= seq!['7']);
        assert("8"@ =~= seq!['8']);
        assert("9"@ =~= seq!['9']);
    }
    match d {
        0 => "0",
        1 => "1",
        2 => "2",
        3 => "3",
        4 => "4",
        5 => "5",
        6 => "6",
        7 => "7",
        8 => "8",
        _ => "9",
    }
}

/// Appends the zero-padded decimal digits of `i` to the string.
fn push_decimal(s: &mut String, i: usize, n: usize)
    requires
        n <= 7,
        (i as int) < pow10(n as nat),
    ensures
        final(s)@ == old(s)@ + padded_decimal(i as int, n as nat),
    decreases n,
{
    if n == 0 {
        proof {
            assert(s@ =~= old(s)@ + padded_decimal(i as int, 0));
        }
    } else {
        let p = pow10_exec(n - 1);
        proof {
            lemma_pow10_pos((n - 1) as nat);
            lemma_multiply_divide_lt(i as int, p as int, 10);
            lemma_mod_bound(i as int, p as int);
        }
        let d = i / p;
        s.append(digit_str(d));
        push_decimal(s, i % p, n - 1);
        proof {
            assert(s@ =~= old(s)@ + padded_decimal(i as int, n as nat));
        }
    }
}

/// Builds the label of one index: the fixed stem, then the index zero-padded
/// to seven decimal places.
pub fn label_string(i: usize) -> (s: String)
    requires
        i < 10_000_000,
    ensures
        s@ == label_chars(i as int),
{
    let mut s = String::from_str("item");
    proof {
        reveal_strlit("item");
        assert(s@ =~= seq!['i', 't', 'e', 'm']);
        lemma_pow10_values();
    }
    push_decimal(&mut s, i, 7);
    s
}

} // verus!
