use vstd::prelude::*;

verus! {

/// The character for one decimal digit.
pub open spec fn spec_digit(d: int) -> char {
    if d == 0 {
        '0'
    } else if d == 1 {
        '1'
    } else if d == 2 {
        '2'
    } else if d == 3 {
        '3'
    } else if d == 4 {
        '4'
    } else if d == 5 {
        '5'
    } else if d == 6 {
        '6'
    } else if d == 7 {
        '7'
    } else if d == 8 {
        '8'
    } else {
        '9'
    }
}

/// The decimal rendering of a non-negative integer, most significant digit first.
pub open spec fn spec_dec(n: int) -> Seq<char>
    recommends
        n >= 0,
    decreases n,
{
    if n < 10 {
        seq![spec_digit(n)]
    } else {
        spec_dec(n / 10).push(spec_digit(n % 10))
    }
}

/// Ten to the `k`.
pub open spec fn pow10(k: nat) -> int
    decreases k,
{
    if k == 0 {
        1
    } else {
        10 * pow10((k - 1) as nat)
    }
}

/// A number below ten to the `k` renders in at most `k` digits.
pub proof fn lemma_dec_len_bound(n: int, k: nat)
    requires
        0 <= n,
        1 <= k,
        n < pow10(k),
    ensures
        spec_dec(n).len() <= k,
    decreases k,
{
    if n >= 10 {
        assert(k >= 2) by {
            if k == 1 {
                assert(pow10(1) == 10);
            }
        }
        assert(n / 10 < pow10((k - 1) as nat)) by (nonlinear_arith)
            requires
                n < pow10(k),
                pow10(k) == 10 * pow10((k - 1) as nat),
                n >= 10,
        ;
        lemma_dec_len_bound(n / 10, (k - 1) as nat);
    }
}

/// Every character of a decimal rendering is a digit.
pub proof fn lemma_dec_digits(n: int)
    requires
        0 <= n,
    ensures
        forall|i: int| 0 <= i < spec_dec(n).len() ==> '0' <= #[trigger] spec_dec(n)[i] <= '9',
    decreases n,
{
    if n >= 10 {
        lemma_dec_digits(n / 10);
        assert(forall|i: int|
            0 <= i < spec_dec(n).len() - 1 ==> #[trigger] spec_dec(n)[i] == spec_dec(n / 10)[i]);
    }
}

/// A rendering holds at least one character.
pub proof fn lemma_dec_len_pos(n: int)
    requires
        0 <= n,
    ensures
        spec_dec(n).len() >= 1,
{
}

/// Distinct numbers render distinctly.
pub proof fn lemma_dec_injective(a: int, b: int)
    requires
        0 <= a,
        0 <= b,
        spec_dec(a) == spec_dec(b),
    ensures
        a == b,
    decreases a,
{
    if a < 10 && b < 10 {
        assert(spec_dec(a)[0] == spec_digit(a));
        assert(spec_dec(b)[0] == spec_digit(b));
    } else if a < 10 && b >= 10 {
        lemma_dec_len_pos(b / 10);
        assert(spec_dec(b).len() >= 2);
    } else if a >= 10 && b < 10 {
        lemma_dec_len_pos(a / 10);
        assert(spec_dec(a).len() >= 2);
    } else {
        assert(spec_dec(a).last() == spec_digit(a % 10));
        assert(spec_dec(b).last() == spec_digit(b % 10));
        assert(a % 10 == b % 10);
        assert(spec_dec(a).drop_last() =~= spec_dec(a / 10));
        assert(spec_dec(b).drop_last() =~= spec_dec(b / 10));
        lemma_dec_injective(a / 10, b / 10);
    }
}

/// The decimal rendering of `n` as a `String`.
pub fn usize_string(n: usize) -> (s: String)
    ensures
        s@ == spec_dec(n as int),
    decreases n,
{
    let digits = "0123456789";
    proof {
        reveal_strlit("0123456789");
    }
    let d = n % 10;
    let ds = digits.substring_ascii(d, d + 1);
    proof {
        assert(ds@ =~= seq![spec_digit(d as int)]);
    }
    if n < 10 {
        ds.to_owned()
    } else {
        let rest = usize_string(n / 10);
        rest.concat(ds)
    }
}

} // verus!
