//! Decimal notation for unsigned integers: printing, scanning, and the
//! round-trip facts the snapshot codec and the cache bookkeeping rely on.

use vstd::prelude::*;

verus! {

/// Whether `c` is a decimal digit.
pub open spec fn is_digit(c: char) -> bool {
    '0' <= c && c <= '9'
}

/// The numeric value of a decimal digit.
pub open spec fn digit_val(c: char) -> nat {
    (c as nat - '0' as nat) as nat
}

/// The digit character for a value below ten.
pub open spec fn dec_digit(d: nat) -> char
    recommends
        d < 10,
{
    if d == 0 { '0' } else if d == 1 { '1' } else if d == 2 { '2' } else if d == 3 { '3' }
    else if d == 4 { '4' } else if d == 5 { '5' } else if d == 6 { '6' } else if d == 7 { '7' }
    else if d == 8 { '8' } else { '9' }
}

/// The decimal notation of `n`, without leading zeroes (a single `0` for 0).
pub open spec fn dec_digits(n: nat) -> Seq<char>
    decreases n,
{
    if n < 10 {
        seq![dec_digit(n)]
    } else {
        dec_digits(n / 10) + seq![dec_digit(n % 10)]
    }
}

/// Whether every character of `s` is a decimal digit.
pub open spec fn all_digits(s: Seq<char>) -> bool {
    forall|i: int| 0 <= i < s.len() ==> is_digit(#[trigger] s[i])
}

/// The value of an all-digit character sequence, most significant first.
pub open spec fn dec_val(s: Seq<char>) -> nat
    decreases s.len(),
{
    if s.len() == 0 {
        0
    } else {
        dec_val(s.drop_last()) * 10 + digit_val(s.last())
    }
}

/// The length of the maximal run of digit characters in `s` starting at `i`.
pub open spec fn digit_run_len(s: Seq<char>, i: int) -> int
    decreases s.len() - i,
{
    if 0 <= i < s.len() && is_digit(s[i]) {
        1 + digit_run_len(s, i + 1)
    } else {
        0
    }
}

/// Printing a value below ten gives its digit, and reading that digit gives
/// the value back.
pub proof fn lemma_digit_round_trip(d: nat)
    requires
        d < 10,
    ensures
        is_digit(dec_digit(d)),
        digit_val(dec_digit(d)) == d,
{
}

/// Decimal notation is never empty and is made of digits only.
pub proof fn lemma_dec_digits_shape(n: nat)
    ensures
        dec_digits(n).len() >= 1,
        all_digits(dec_digits(n)),
    decreases n,
{
    if n < 10 {
        lemma_digit_round_trip(n);
        assert forall|i: int| 0 <= i < dec_digits(n).len() implies is_digit(
            #[trigger] dec_digits(n)[i],
        ) by {}
    } else {
        lemma_dec_digits_shape(n / 10);
        lemma_digit_round_trip(n % 10);
        assert forall|i: int| 0 <= i < dec_digits(n).len() implies is_digit(
            #[trigger] dec_digits(n)[i],
        ) by {
            if i < dec_digits(n / 10).len() {
                assert(dec_digits(n)[i] == dec_digits(n / 10)[i]);
            }
        }
    }
}

/// Reading the decimal notation of `n` yields `n`.
pub proof fn lemma_dec_round_trip(n: nat)
    ensures
        dec_val(dec_digits(n)) == n,
    decreases n,
{
    if n < 10 {
        lemma_digit_round_trip(n);
        assert(dec_digits(n).drop_last() =~= Seq::<char>::empty());
        assert(dec_digits(n).last() == dec_digit(n));
        assert(dec_val(Seq::<char>::empty()) == 0);
        assert(dec_val(dec_digits(n)) == 0 * 10 + digit_val(dec_digit(n)));
    } else {
        lemma_dec_round_trip(n / 10);
        lemma_digit_round_trip(n % 10);
        assert(dec_digits(n) == dec_digits(n / 10) + seq![dec_digit(n % 10)]);
        assert(dec_digits(n).drop_last() =~= dec_digits(n / 10));
        assert(dec_digits(n).last() == dec_digit(n % 10));
        assert(dec_val(dec_digits(n)) == dec_val(dec_digits(n / 10)) * 10 + digit_val(
            dec_digit(n % 10),
        ));
        assert(dec_val(dec_digits(n)) == (n / 10) * 10 + n % 10);
        assert((n / 10) * 10 + n % 10 == n) by (nonlinear_arith);
    }
}

/// The digit string for a single digit value.
fn digit_str(d: u64) -> (r: &'static str)
    requires
        d < 10,
    ensures
        r@ =~= seq![dec_digit(d as nat)],
{
    proof {
        reveal_strlit("0");
        reveal_strlit("1");
        reveal_strlit("2");
        reveal_strlit("3");
        reveal_strlit("4");
        reveal_strlit("5");
        reveal_strlit("6");
        reveal_strlit("7");
        reveal_strlit("8");
        reveal_strlit("9");
    }
    if d == 0 { "0" } else if d == 1 { "1" } else if d == 2 { "2" } else if d == 3 { "3" }
    else if d == 4 { "4" } else if d == 5 { "5" } else if d == 6 { "6" } else if d == 7 { "7" }
    else if d == 8 { "8" } else { "9" }
}

/// Prints `n` in decimal.
pub fn u64_to_dec(n: u64) -> (s: String)
    ensures
        s@ == dec_digits(n as nat),
    decreases n,
{
    if n < 10 {
        let mut s = String::new();
        s.append(digit_str(n));
        proof {
            assert(s@ =~= dec_digits(n as nat));
        }
        s
    } else {
        let mut s = u64_to_dec(n / 10);
        s.append(digit_str(n % 10));
        proof {
            assert(s@ =~= dec_digits(n as nat));
        }
        s
    }
}

/// Whether `c` is a decimal digit.
pub fn is_digit_exec(c: char) -> (b: bool)
    ensures
        b == is_digit(c),
{
    let v = c as u32;
    48 <= v && v <= 57
}

/// Scans the maximal run of digits in `s` starting at position `i`. Returns
/// the run's value and the position just past it; `None` exactly when the run
/// is empty or its value does not fit in a `u64`.
pub fn parse_u64_at(s: &str, i: usize) -> (r: Option<(u64, usize)>)
    requires
        i <= s@.len(),
    ensures
        ({
            let k = digit_run_len(s@, i as int);
            let run = s@.subrange(i as int, i + k);
            match r {
                Some(p) => k > 0 && dec_val(run) <= u64::MAX && p.0 == dec_val(run) && p.1 as int
                    == i + k,
                None => !(k > 0 && dec_val(run) <= u64::MAX),
            }
        }),
        r matches Some(p) ==> i <= p.1 && p.1 <= s@.len(),
{
    let n = s.unicode_len();
    let mut j: usize = i;
    let mut acc: u64 = 0;
    let mut over: bool = false;
    loop
        invariant
            i <= j <= n == s@.len(),
            digit_run_len(s@, i as int) == (j - i) + digit_run_len(s@, j as int),
            over <==> dec_val(s@.subrange(i as int, j as int)) > u64::MAX,
            !over ==> acc == dec_val(s@.subrange(i as int, j as int)),
        ensures
            digit_run_len(s@, j as int) == 0,
        decreases n - j,
    {
        if j >= n {
            break;
        }
        let c = s.get_char(j);
        if !is_digit_exec(c) {
            break;
        }
        let ghost prev = s@.subrange(i as int, j as int);
        let ghost cur = s@.subrange(i as int, j as int + 1);
        proof {
            assert(cur.drop_last() =~= prev);
            assert(cur.last() == c);
            assert(dec_val(cur) == dec_val(prev) * 10 + digit_val(c));
        }
        let d: u64 = (c as u32 - 48) as u64;
        if !over {
            match acc.checked_mul(10) {
                Some(m) => match m.checked_add(d) {
                    Some(a) => {
                        acc = a;
                    },
                    None => {
                        over = true;
                    },
                },
                None => {
                    over = true;
                },
            }
        }
        j = j + 1;
    }
    if j == i || over {
        None
    } else {
        Some((acc, j))
    }
}

} // verus!
