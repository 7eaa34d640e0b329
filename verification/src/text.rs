//! Decimal rendering of indices.
//!
//! Tuple-struct fields are keyed `"0"`, `"1"`, ... in the dynamic value's
//! field map, so the interpreter needs the decimal text of an index, with
//! a specification exact enough to reason about which keys exist.

use vstd::prelude::*;
use vstd::string::StringExecFns;

verus! {

/// The character for a single decimal digit.
pub open spec fn spec_digit(d: nat) -> Seq<char> {
    if d == 0 {
        "0"@
    } else if d == 1 {
        "1"@
    } else if d == 2 {
        "2"@
    } else if d == 3 {
        "3"@
    } else if d == 4 {
        "4"@
    } else if d == 5 {
        "5"@
    } else if d == 6 {
        "6"@
    } else if d == 7 {
        "7"@
    } else if d == 8 {
        "8"@
    } else {
        "9"@
    }
}

/// The decimal text of `n`: most significant digit first, no leading zero
/// except for `n == 0` itself.
pub open spec fn spec_decimal(n: nat) -> Seq<char>
    decreases n,
{
    if n < 10 {
        spec_digit(n)
    } else {
        spec_decimal(n / 10) + spec_digit(n % 10)
    }
}

/// Makes the ten digit literals concrete: each is one character, and
/// distinct digits render as distinct characters.
proof fn lemma_digit_concrete()
    ensures
        forall|d: nat| d < 10 ==> (#[trigger] spec_digit(d)).len() == 1,
        forall|a: nat, b: nat|
            a < 10 && b < 10 && a != b ==> #[trigger] spec_digit(a)[0] != #[trigger] spec_digit(
                b,
            )[0],
{
    reveal_strlit("0");
    reveal_strlit("1");
    reveal_strlit("2");
    reveal_strlit("3");
    reveal_strlit("4");
    reveal_strlit("5");
    reveal_strlit("6");
    reveal_strlit("7");
    reveal_strlit("8");
    reveal_strlit("9");
}

/// The decimal text is never empty, and has at least two characters for a
/// number of two digits.
pub proof fn lemma_decimal_len(n: nat)
    ensures
        spec_decimal(n).len() >= 1,
        n >= 10 ==> spec_decimal(n).len() >= 2,
    decreases n,
{
    lemma_digit_concrete();
    if n >= 10 {
        lemma_decimal_len(n / 10);
    }
}

/// Distinct numbers render as distinct decimal texts.
pub proof fn lemma_decimal_injective(m: nat, n: nat)
    requires
        m != n,
    ensures
        spec_decimal(m) != spec_decimal(n),
    decreases m + n,
{
    lemma_digit_concrete();
    lemma_decimal_len(m);
    lemma_decimal_len(n);
    if m < 10 && n < 10 {
        assert(spec_decimal(m)[0] != spec_decimal(n)[0]);
    } else if m < 10 {
        assert(spec_decimal(m).len() < spec_decimal(n).len());
    } else if n < 10 {
        assert(spec_decimal(m).len() < spec_decimal(n).len() || spec_decimal(n).len()
            < spec_decimal(m).len());
    } else {
        let mp = spec_decimal(m / 10);
        let np = spec_decimal(n / 10);
        assert(spec_decimal(m) == mp + spec_digit(m % 10));
        assert(spec_decimal(n) == np + spec_digit(n % 10));
        if m % 10 != n % 10 {
            assert(spec_decimal(m).last() == spec_digit(m % 10)[0]);
            assert(spec_decimal(n).last() == spec_digit(n % 10)[0]);
            if spec_decimal(m) == spec_decimal(n) {
                assert(spec_decimal(m).last() == spec_decimal(n).last());
                assert(false);
            }
        } else {
            assert(m / 10 != n / 10);
            lemma_decimal_injective((m / 10) as nat, (n / 10) as nat);
            if spec_decimal(m) == spec_decimal(n) {
                assert(mp.len() == np.len());
                assert(mp =~= np) by {
                    assert(forall|i: int|
                        0 <= i < mp.len() ==> mp[i] == spec_decimal(m)[i] && np[i] == spec_decimal(
                            n,
                        )[i]);
                }
                assert(false);
            }
        }
    }
}

fn digit_str(d: usize) -> (r: &'static str)
    requires
        d < 10,
    ensures
        r@ == spec_digit(d as nat),
{
    if d == 0 {
        "0"
    } else if d == 1 {
        "1"
    } else if d == 2 {
        "2"
    } else if d == 3 {
        "3"
    } else if d == 4 {
        "4"
    } else if d == 5 {
        "5"
    } else if d == 6 {
        "6"
    } else if d == 7 {
        "7"
    } else if d == 8 {
        "8"
    } else {
        "9"
    }
}

/// Renders `n` in decimal.
pub fn decimal_string(n: usize) -> (r: String)
    ensures
        r@ == spec_decimal(n as nat),
    decreases n,
{
    if n < 10 {
        digit_str(n).to_owned()
    } else {
        let mut prefix = decimal_string(n / 10);
        prefix.append(digit_str(n % 10));
        prefix
    }
}

} // verus!
