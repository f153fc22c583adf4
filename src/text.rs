use vstd::arithmetic::div_mod::{lemma_fundamental_div_mod_converse, lemma_mod_breakdown};
use vstd::arithmetic::power::{lemma_pow_positive, pow};
use vstd::prelude::*;
use vstd::string::StringExecFns;

verus! {

/// The character of a digit below sixteen; letters are lower case.
pub open spec fn digit_char(d: nat) -> char {
    if d == 0 {
        '0'
    } else if d == 1 {
        '1'
    } else if d == 2 {
        '2'
    } else if d == 3 {
        '3'
    } else if d == 4 {
        '4'
    } else if d == 5 {
        '5'
    } else if d == 6 {
        '6'
    } else if d == 7 {
        '7'
    } else if d == 8 {
        '8'
    } else if d == 9 {
        '9'
    } else if d == 10 {
        'a'
    } else if d == 11 {
        'b'
    } else if d == 12 {
        'c'
    } else if d == 13 {
        'd'
    } else if d == 14 {
        'e'
    } else {
        'f'
    }
}

/// The last `w` digits of `n` in base `base`, with leading zeros: the text of
/// `n mod base^w` in exactly `w` characters.
pub open spec fn fixed_digits(n: nat, w: nat, base: nat) -> Seq<char>
    decreases w,
{
    if w == 0 {
        Seq::empty()
    } else {
        fixed_digits(n / base, (w - 1) as nat, base).push(digit_char(n % base))
    }
}

/// The decimal text of `n`, without leading zeros.
pub open spec fn decimal(n: nat) -> Seq<char>
    decreases n,
{
    if n < 10 {
        seq![digit_char(n)]
    } else {
        decimal(n / 10).push(digit_char(n % 10))
    }
}

fn digit_text(d: u32) -> (r: &'static str)
    requires
        d < 16,
    ensures
        r@ == seq![digit_char(d as nat)],
{
    proof {
        reveal_strlit("0");
        reveal_strlit("1");
        reveal_strlit("2");
        reveal_strlit("3");
        reveal_strlit("4");
        reveal_strlit("5");
        reveal_strlit("6");
        reveal_strlit("7");
        reveal_strlit("8");
        reveal_strlit("9");
        reveal_strlit("a");
        reveal_strlit("b");
        reveal_strlit("c");
        reveal_strlit("d");
        reveal_strlit("e");
        reveal_strlit("f");
    }
    if d == 0 {
        "0"
    } else if d == 1 {
        "1"
    } else if d == 2 {
        "2"
    } else if d == 3 {
        "3"
    } else if d == 4 {
        "4"
    } else if d == 5 {
        "5"
    } else if d == 6 {
        "6"
    } else if d == 7 {
        "7"
    } else if d == 8 {
        "8"
    } else if d == 9 {
        "9"
    } else if d == 10 {
        "a"
    } else if d == 11 {
        "b"
    } else if d == 12 {
        "c"
    } else if d == 13 {
        "d"
    } else if d == 14 {
        "e"
    } else {
        "f"
    }
}

/// Appends the last `w` digits of `n` in base `base`.
pub fn append_fixed(s: &mut String, n: u32, w: u8, base: u32)
    requires
        base == 10 || base == 16,
    ensures
        final(s)@ == old(s)@ + fixed_digits(n as nat, w as nat, base as nat),
    decreases w,
{
    if w > 0 {
        append_fixed(s, n / base, w - 1, base);
        s.append(digit_text(n % base));
        proof {
            assert(fixed_digits(n as nat, w as nat, base as nat) == fixed_digits(
                (n / base) as nat,
                (w - 1) as nat,
                base as nat,
            ).push(digit_char((n % base) as nat)));
        }
    }
}

/// Appends the decimal text of `n`.
pub fn append_decimal(s: &mut String, n: u32)
    ensures
        final(s)@ == old(s)@ + decimal(n as nat),
    decreases n,
{
    if n >= 10 {
        append_decimal(s, n / 10);
    }
    s.append(digit_text(n % 10));
    proof {
        if n < 10 {
            assert(n % 10 == n);
        }
    }
}

/// `w` digits in base `base` are the text of `n mod base^w`, padded to exactly `w`
/// characters.
pub proof fn lemma_fixed_digits_mod(n: nat, w: nat, base: nat)
    requires
        base > 1,
    ensures
        fixed_digits(n, w, base).len() == w,
        fixed_digits(n, w, base) == fixed_digits((n % pow(base as int, w) as nat) as nat, w, base),
    decreases w,
{
    reveal(pow);
    if w > 0 {
        let c = pow(base as int, (w - 1) as nat);
        lemma_pow_positive(base as int, (w - 1) as nat);
        let m: int = n as int % (base as int * c);
        assert(pow(base as int, w) == base * c);
        lemma_mod_breakdown(n as int, base as int, c);
        let q = (n as int / base as int) % c;
        let r = n as int % base as int;
        lemma_fundamental_div_mod_converse(m, base as int, q, r);
        lemma_fixed_digits_mod(n / base, (w - 1) as nat, base);
        lemma_fixed_digits_mod((m / base as int) as nat, (w - 1) as nat, base);
        assert((q % c) == q) by {
            vstd::arithmetic::div_mod::lemma_mod_twice(n as int / base as int, c);
        }
    }
}

} // verus!
