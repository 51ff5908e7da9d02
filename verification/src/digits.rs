//! Decimal digit strings: the notation used by the persisted cache for
//! lengths and numbers, and the digit-run parsing shared with the dump
//! parser.

use vstd::prelude::*;

verus! {

/// True when `c` is a decimal digit.
pub open spec fn is_digit_char(c: char) -> bool {
    48 <= c as u32 <= 57
}

/// Numeric value of a digit character.
pub open spec fn digit_val(c: char) -> int {
    c as u32 - 48
}

/// The digit character for a value below ten.
pub open spec fn digit_char(d: int) -> char
    recommends
        0 <= d < 10,
{
    ((48 + d) as u8) as char
}

/// Ten to the power `k`.
pub open spec fn pow10(k: nat) -> int
    decreases k,
{
    if k == 0 {
        1
    } else {
        10 * pow10((k - 1) as nat)
    }
}

/// The decimal notation of `n`, most significant digit first, without
/// leading zeros (`0` is written as one digit).
pub open spec fn digits_of(n: int) -> Seq<char>
    recommends
        n >= 0,
    decreases n,
{
    if n < 10 {
        seq![digit_char(n)]
    } else {
        digits_of(n / 10).push(digit_char(n % 10))
    }
}

/// The value of a digit string, most significant digit first.
pub open spec fn val_of_digits(s: Seq<char>) -> int
    decreases s.len(),
{
    if s.len() == 0 {
        0
    } else {
        val_of_digits(s.drop_last()) * 10 + digit_val(s.last())
    }
}

/// A maximal digit run starting at `pos`, folded left into `acc`;
/// overflowing a `u64` is a failure.
pub open spec fn spec_parse_u64_from(s: Seq<char>, pos: int, acc: u64) -> Option<(u64, int)>
    decreases s.len() - pos,
{
    if pos < 0 || pos >= s.len() || !is_digit_char(s[pos]) {
        Some((acc, pos))
    } else if acc as int * 10 + digit_val(s[pos]) > u64::MAX as int {
        None::<(u64, int)>
    } else {
        spec_parse_u64_from(s, pos + 1, (acc as int * 10 + digit_val(s[pos])) as u64)
    }
}

/// Parse of an unsigned decimal number at `pos`: at least one digit,
/// value within `u64`.
pub open spec fn spec_parse_u64(s: Seq<char>, pos: int) -> Option<(u64, int)> {
    if 0 <= pos < s.len() && is_digit_char(s[pos]) {
        spec_parse_u64_from(s, pos, 0)
    } else {
        None::<(u64, int)>
    }
}

/// Appends the decimal notation of `n` to `out`.
pub fn push_digits_u64(n: u64, out: &mut Vec<char>)
    ensures
        final(out)@ == old(out)@ + digits_of(n as int),
    decreases n,
{
    if n < 10 {
        out.push(((48 + n) as u8) as char);
        proof {
            assert(out@ =~= old(out)@ + digits_of(n as int));
        }
    } else {
        push_digits_u64(n / 10, out);
        out.push(((48 + (n % 10)) as u8) as char);
        proof {
            assert(out@ =~= old(out)@ + digits_of(n as int));
        }
    }
}

/// Parses an unsigned decimal number at `pos`, exactly as
/// [`spec_parse_u64`] describes.
pub fn parse_u64(s: &Vec<char>, pos: usize) -> (r: Option<(u64, usize)>)
    requires
        pos <= s@.len(),
    ensures
        match r {
            Some((n, end)) => spec_parse_u64(s@, pos as int) == Some((n, end as int)) && pos < end
                <= s@.len(),
            None => spec_parse_u64(s@, pos as int) is None,
        },
{
    if pos >= s.len() || !is_digit(s[pos]) {
        return None;
    }
    let mut i: usize = pos;
    let mut acc: u64 = 0;
    while i < s.len() && is_digit(s[i])
        invariant
            pos <= i <= s@.len(),
            pos < s@.len(),
            is_digit_char(s@[pos as int]),
            spec_parse_u64_from(s@, pos as int, 0) == spec_parse_u64_from(s@, i as int, acc),
        decreases s@.len() - i,
    {
        let d = (s[i] as u32 - 48) as u64;
        acc = match acc.checked_mul(10) {
            Some(m) => match m.checked_add(d) {
                Some(a) => a,
                None => {
                    return None;
                },
            },
            None => {
                return None;
            },
        };
        i = i + 1;
    }
    Some((acc, i))
}

/// True when `c` is a decimal digit.
pub fn is_digit(c: char) -> (r: bool)
    ensures
        r == is_digit_char(c),
{
    let u = c as u32;
    48 <= u && u <= 57
}

/// Every character of a decimal notation is a digit, its length is
/// positive, and reading it back yields the number itself.
pub proof fn lemma_digits_of_props(n: int)
    requires
        n >= 0,
    ensures
        digits_of(n).len() >= 1,
        forall|j: int| 0 <= j < digits_of(n).len() ==> is_digit_char(#[trigger] digits_of(n)[j]),
        val_of_digits(digits_of(n)) == n,
    decreases n,
{
    if n < 10 {
        assert(digits_of(n) =~= seq![digit_char(n)]);
        assert(val_of_digits(digits_of(n)) == val_of_digits(
            digits_of(n).drop_last(),
        ) * 10 + digit_val(digits_of(n).last()));
        assert(digits_of(n).drop_last() =~= Seq::<char>::empty());
    } else {
        lemma_digits_of_props(n / 10);
        assert(digits_of(n).drop_last() =~= digits_of(n / 10));
    }
}

/// The value of a digit string, split at its first digit.
pub proof fn lemma_val_front(d: Seq<char>)
    requires
        d.len() > 0,
    ensures
        val_of_digits(d) == digit_val(d[0]) * pow10((d.len() - 1) as nat) + val_of_digits(
            d.drop_first(),
        ),
    decreases d.len(),
{
    if d.len() == 1 {
        assert(d.drop_first() =~= Seq::<char>::empty());
        assert(d.drop_last() =~= Seq::<char>::empty());
        assert(val_of_digits(Seq::<char>::empty()) == 0);
        assert(pow10(0) == 1);
        assert(d.last() == d[0]);
        assert(val_of_digits(d) == val_of_digits(d.drop_last()) * 10 + digit_val(d.last()));
    } else {
        lemma_val_front(d.drop_last());
        assert(d.drop_last().drop_first() =~= d.drop_first().drop_last());
        assert(d.drop_last()[0] == d[0]);
        assert(val_of_digits(d) == val_of_digits(d.drop_last()) * 10 + digit_val(d.last()));
        assert(val_of_digits(d.drop_first()) == val_of_digits(
            d.drop_first().drop_last(),
        ) * 10 + digit_val(d.drop_first().last()));
        assert(d.drop_first().last() == d.last());
        assert(val_of_digits(d.drop_last()) == digit_val(d[0]) * pow10(
            (d.len() - 2) as nat,
        ) + val_of_digits(d.drop_first().drop_last()));
        assert(pow10((d.len() - 1) as nat) == 10 * pow10((d.len() - 2) as nat));
        assert(val_of_digits(d) == (digit_val(d[0]) * pow10((d.len() - 2) as nat) + val_of_digits(
            d.drop_first().drop_last(),
        )) * 10 + digit_val(d.last()));
        assert((digit_val(d[0]) * pow10((d.len() - 2) as nat) + val_of_digits(
            d.drop_first().drop_last(),
        )) * 10 == digit_val(d[0]) * (pow10((d.len() - 2) as nat) * 10) + val_of_digits(
            d.drop_first().drop_last(),
        ) * 10) by (nonlinear_arith);
        assert(digit_val(d[0]) * (pow10((d.len() - 2) as nat) * 10) == digit_val(d[0]) * pow10(
            (d.len() - 1) as nat,
        )) by (nonlinear_arith)
            requires
                pow10((d.len() - 1) as nat) == 10 * pow10((d.len() - 2) as nat),
        ;
    }
}

/// A digit string's value is non-negative and below ten to its length.
pub proof fn lemma_val_bounds(d: Seq<char>)
    requires
        forall|j: int| 0 <= j < d.len() ==> is_digit_char(#[trigger] d[j]),
    ensures
        0 <= val_of_digits(d) < pow10(d.len()),
    decreases d.len(),
{
    if d.len() == 0 {
    } else {
        lemma_val_bounds(d.drop_last());
        assert(pow10(d.len()) == 10 * pow10((d.len() - 1) as nat));
        assert(val_of_digits(d.drop_last()) * 10 + digit_val(d.last()) < pow10(
            (d.len() - 1) as nat,
        ) * 10) by (nonlinear_arith)
            requires
                val_of_digits(d.drop_last()) < pow10((d.len() - 1) as nat),
                digit_val(d.last()) < 10,
        ;
    }
}

/// Folding a full digit run into an accumulator computes the positional
/// value, and never overflows when the final value fits in a `u64`.
pub proof fn lemma_parse_u64_from_run(s: Seq<char>, i: int, end: int, acc: u64)
    requires
        0 <= i <= end <= s.len(),
        forall|j: int| i <= j < end ==> is_digit_char(#[trigger] s[j]),
        end == s.len() || !is_digit_char(s[end]),
        acc as int * pow10((end - i) as nat) + val_of_digits(s.subrange(i, end)) <= u64::MAX as int,
    ensures
        spec_parse_u64_from(s, i, acc) == Some(
            (
                (acc as int * pow10((end - i) as nat) + val_of_digits(s.subrange(i, end))) as u64,
                end,
            ),
        ),
    decreases end - i,
{
    let run = s.subrange(i, end);
    lemma_val_bounds(run);
    if i == end {
        assert(run =~= Seq::<char>::empty());
        assert(pow10(0) == 1);
    } else {
        lemma_val_front(run);
        assert(run[0] == s[i]);
        assert(run.drop_first() =~= s.subrange(i + 1, end));
        let d = digit_val(s[i]);
        let acc2 = acc as int * 10 + d;
        lemma_val_bounds(run.drop_first());
        assert(acc as int * pow10((end - i) as nat) == (acc as int * 10) * pow10(
            (end - i - 1) as nat,
        )) by (nonlinear_arith)
            requires
                pow10((end - i) as nat) == 10 * pow10((end - i - 1) as nat),
        ;
        assert(val_of_digits(run) == d * pow10((end - i - 1) as nat) + val_of_digits(
            run.drop_first(),
        ));
        assert(acc2 * pow10((end - i - 1) as nat) == acc as int * 10 * pow10((end - i - 1) as nat)
            + d * pow10((end - i - 1) as nat)) by (nonlinear_arith)
            requires
                acc2 == acc as int * 10 + d,
        ;
        assert(acc2 * pow10((end - i - 1) as nat) + val_of_digits(s.subrange(i + 1, end))
            == acc as int * pow10((end - i) as nat) + val_of_digits(run));
        assert(pow10((end - i - 1) as nat) >= 1) by {
            lemma_pow10_pos((end - i - 1) as nat);
        }
        assert(acc2 <= acc2 * pow10((end - i - 1) as nat)) by (nonlinear_arith)
            requires
                acc2 >= 0,
                pow10((end - i - 1) as nat) >= 1,
        ;
        assert(val_of_digits(s.subrange(i + 1, end)) >= 0);
        assert(acc2 <= u64::MAX as int);
        lemma_parse_u64_from_run(s, i + 1, end, acc2 as u64);
    }
}

/// Ten to any power is positive.
pub proof fn lemma_pow10_pos(k: nat)
    ensures
        pow10(k) >= 1,
    decreases k,
{
    if k > 0 {
        lemma_pow10_pos((k - 1) as nat);
    }
}

/// Reading the decimal notation of `n` out of a longer string consumes
/// exactly the notation and yields `n`.
pub proof fn lemma_parse_digits_of(s: Seq<char>, i: int, n: u64)
    requires
        0 <= i,
        i + digits_of(n as int).len() <= s.len(),
        s.subrange(i, i + digits_of(n as int).len()) == digits_of(n as int),
        i + digits_of(n as int).len() == s.len() || !is_digit_char(
            s[i + digits_of(n as int).len()],
        ),
    ensures
        spec_parse_u64(s, i) == Some((n, i + digits_of(n as int).len())),
{
    let l = digits_of(n as int).len();
    lemma_digits_of_props(n as int);
    assert forall|j: int| i <= j < i + l implies is_digit_char(#[trigger] s[j]) by {
        assert(s[j] == s.subrange(i, i + l)[j - i]);
    }
    lemma_pow10_pos(l);
    assert(val_of_digits(s.subrange(i, i + l)) == n as int);
    lemma_parse_u64_from_run(s, i, i + l, 0u64);
    assert(is_digit_char(s[i]));
}

} // verus!
