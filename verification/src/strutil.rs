//! Small executable helpers over strings and characters that the rest of the
//! library builds on: character-level string access, decimal rendering, and
//! string equality.

use vstd::prelude::*;

verus! {

/// Relies on String::push: appends exactly the given character.
#[verifier::external_body]
pub fn push_char(s: &mut String, c: char)
    ensures
        final(s)@ == old(s)@.push(c),
{
    s.push(c);
}

/// Character-for-character equality of two string slices.
pub fn str_eq(a: &str, b: &str) -> (r: bool)
    ensures
        r == (a@ == b@),
{
    let a_len = a.unicode_len();
    let b_len = b.unicode_len();
    if a_len != b_len {
        assert(a@ != b@) by {
            assert(a@.len() != b@.len());
        }
        return false;
    }
    let mut i: usize = 0;
    while i < a_len
        invariant
            a_len == a@.len(),
            b_len == b@.len(),
            a_len == b_len,
            i <= a_len,
            forall|k: int| 0 <= k < i ==> a@[k] == b@[k],
        decreases a_len - i,
    {
        if a.get_char(i) != b.get_char(i) {
            return false;
        }
        i = i + 1;
    }
    assert(a@ =~= b@);
    true
}

/// The characters of a string slice, in order, as a vector.
pub fn to_chars(s: &str) -> (r: Vec<char>)
    ensures
        r@ == s@,
{
    let len = s.unicode_len();
    let mut out: Vec<char> = Vec::new();
    let mut i: usize = 0;
    while i < len
        invariant
            len == s@.len(),
            i <= len,
            out@ =~= s@.take(i as int),
        decreases len - i,
    {
        out.push(s.get_char(i));
        assert(out@ =~= s@.take(i + 1 as int));
        i = i + 1;
    }
    assert(out@ =~= s@);
    out
}

/// The decimal digit character for a value below ten.
pub open spec fn dec_digit(d: nat) -> char {
    if d == 0 {
        '0'
    } else if d == 1 {
        '1'
    } else if d == 2 {
        '2'
    } else if d == 3 {
        '3'
    } else if d == 4 {
        '4'
    } else if d == 5 {
        '5'
    } else if d == 6 {
        '6'
    } else if d == 7 {
        '7'
    } else if d == 8 {
        '8'
    } else {
        '9'
    }
}

/// The canonical decimal rendering of a natural number: no sign, no leading
/// zeros (a lone zero for zero itself).
pub open spec fn dec_str(n: nat) -> Seq<char>
    decreases n,
{
    if n < 10 {
        seq![dec_digit(n)]
    } else {
        dec_str(n / 10).push(dec_digit(n % 10))
    }
}

/// Whether a character is a decimal digit.
pub open spec fn is_dec_digit(c: char) -> bool {
    '0' <= c && c <= '9'
}

/// The numeric value of a decimal digit character.
pub open spec fn digit_val(c: char) -> nat {
    (c as u32 - '0' as u32) as nat
}

/// The numeric value of a digit sequence, read left to right.
pub open spec fn digits_val(s: Seq<char>) -> nat
    decreases s.len(),
{
    if s.len() == 0 {
        0
    } else {
        digits_val(s.drop_last()) * 10 + digit_val(s.last())
    }
}

/// Every character of `dec_str(n)` is a decimal digit, the first one is `'0'`
/// only when `n` is zero, and the digits read back as `n`.
#[verifier::spinoff_prover]
pub proof fn lemma_dec_str_digits(n: nat)
    ensures
        dec_str(n).len() >= 1,
        forall|k: int| 0 <= k < dec_str(n).len() ==> is_dec_digit(#[trigger] dec_str(n)[k]),
        dec_str(n)[0] == '0' <==> n == 0,
        digits_val(dec_str(n)) == n,
    decreases n,
{
    if n < 10 {
        assert(dec_str(n) == seq![dec_digit(n)]);
        assert(dec_str(n).drop_last() =~= Seq::<char>::empty());
        assert(dec_str(n).last() == dec_digit(n));
        assert(digit_val(dec_digit(n)) == n);
        assert(digits_val(dec_str(n)) == digits_val(Seq::<char>::empty()) * 10 + digit_val(
            dec_digit(n),
        ));
    } else {
        lemma_dec_str_digits(n / 10);
        assert(dec_str(n) == dec_str(n / 10).push(dec_digit(n % 10)));
        assert(dec_str(n).drop_last() =~= dec_str(n / 10));
        assert(dec_str(n).last() == dec_digit(n % 10));
        assert(digit_val(dec_digit(n % 10)) == n % 10);
        assert(digits_val(dec_str(n)) == digits_val(dec_str(n / 10)) * 10 + digit_val(
            dec_digit(n % 10),
        ));
        assert(digits_val(dec_str(n)) == (n / 10) * 10 + n % 10);
        assert((n / 10) * 10 + n % 10 == n) by (nonlinear_arith);
        assert(dec_str(n)[0] == dec_str(n / 10)[0]);
    }
}

/// A digit character survives the round trip through its value.
pub proof fn lemma_digit_roundtrip(c: char)
    requires
        is_dec_digit(c),
    ensures
        dec_digit(digit_val(c)) == c,
{
}

/// The value of a digit run never shrinks as the run grows.
pub proof fn lemma_digits_val_take(ds: Seq<char>, m: int)
    requires
        0 <= m <= ds.len(),
    ensures
        digits_val(ds.take(m)) <= digits_val(ds),
    decreases ds.len() - m,
{
    if m == ds.len() {
        assert(ds.take(m) =~= ds);
    } else {
        lemma_digits_val_take(ds, m + 1);
        assert(ds.take(m + 1).drop_last() =~= ds.take(m));
        assert(ds.take(m + 1).last() == ds[m]);
        assert(digits_val(ds.take(m + 1)) == digits_val(ds.take(m)) * 10 + digit_val(ds[m]));
    }
}

/// A digit run with a nonzero first digit has a nonzero value.
#[verifier::spinoff_prover]
pub proof fn lemma_digits_val_pos(ds: Seq<char>)
    requires
        ds.len() >= 1,
        forall|k: int| 0 <= k < ds.len() ==> is_dec_digit(#[trigger] ds[k]),
        ds[0] != '0',
    ensures
        digits_val(ds) >= 1,
    decreases ds.len(),
{
    if ds.len() == 1 {
        assert(ds.drop_last() =~= Seq::<char>::empty());
        assert(ds.last() == ds[0]);
        assert(digits_val(Seq::<char>::empty()) == 0);
        assert(digits_val(ds) == digits_val(ds.drop_last()) * 10 + digit_val(ds.last()));
        assert(digit_val(ds[0]) >= 1);
    } else {
        let pre = ds.drop_last();
        assert(pre[0] == ds[0]);
        assert(forall|k: int| 0 <= k < pre.len() ==> is_dec_digit(#[trigger] pre[k]));
        lemma_digits_val_pos(pre);
        assert(digits_val(ds) == digits_val(pre) * 10 + digit_val(ds.last()));
    }
}

/// A nonempty digit run without a spurious leading zero is the decimal
/// rendering of its own value.
#[verifier::spinoff_prover]
pub proof fn lemma_digits_to_dec_str(ds: Seq<char>)
    requires
        ds.len() >= 1,
        forall|k: int| 0 <= k < ds.len() ==> is_dec_digit(#[trigger] ds[k]),
        ds[0] == '0' ==> ds.len() == 1,
    ensures
        dec_str(digits_val(ds)) == ds,
    decreases ds.len(),
{
    if ds.len() == 1 {
        assert(ds.drop_last() =~= Seq::<char>::empty());
        assert(ds.last() == ds[0]);
        assert(digits_val(Seq::<char>::empty()) == 0);
        assert(digits_val(ds) == digits_val(ds.drop_last()) * 10 + digit_val(ds.last()));
        assert(digits_val(ds) == digit_val(ds[0]));
        assert(digit_val(ds[0]) < 10);
        lemma_digit_roundtrip(ds[0]);
        assert(dec_str(digits_val(ds)) =~= ds);
    } else {
        let pre = ds.drop_last();
        assert(pre[0] == ds[0]);
        assert(ds[0] != '0');
        assert(forall|k: int| 0 <= k < pre.len() ==> is_dec_digit(#[trigger] pre[k]));
        lemma_digits_to_dec_str(pre);
        lemma_digits_val_pos(pre);
        let d = digit_val(ds.last());
        assert(digits_val(ds) == digits_val(pre) * 10 + d);
        assert(d < 10);
        assert(digits_val(ds) >= 10) by {
            assert(digits_val(pre) >= 1);
            assert(digits_val(pre) * 10 >= 10) by (nonlinear_arith)
                requires
                    digits_val(pre) >= 1,
            ;
        }
        assert(digits_val(ds) / 10 == digits_val(pre) && digits_val(ds) % 10 == d) by (
        nonlinear_arith)
            requires
                digits_val(ds) == digits_val(pre) * 10 + d,
                d < 10,
        ;
        lemma_digit_roundtrip(ds.last());
        assert(dec_str(digits_val(ds)) == dec_str(digits_val(pre)).push(dec_digit(d)));
        assert(dec_str(digits_val(ds)) =~= ds);
    }
}

/// Append the decimal rendering of `n` to `out`.
pub fn push_dec(out: &mut String, n: u64)
    ensures
        final(out)@ == old(out)@ + dec_str(n as nat),
    decreases n,
{
    if n >= 10 {
        push_dec(out, n / 10);
    }
    let d: u8 = (n % 10) as u8;
    let c: char = match d {
        0 => '0',
        1 => '1',
        2 => '2',
        3 => '3',
        4 => '4',
        5 => '5',
        6 => '6',
        7 => '7',
        8 => '8',
        _ => '9',
    };
    assert(c == dec_digit((n % 10) as nat));
    push_char(out, c);
    if n < 10 {
        assert(final(out)@ =~= old(out)@ + dec_str(n as nat));
    } else {
        assert(dec_str(n as nat) == dec_str((n as nat) / 10).push(dec_digit((n as nat) % 10)));
        assert((n / 10) as nat == (n as nat) / 10);
        assert((n % 10) as nat == (n as nat) % 10);
        assert(final(out)@ =~= old(out)@ + dec_str(n as nat));
    }
}

} // verus!
