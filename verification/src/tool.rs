//! Text that the boot loader prints: decimal numbers and string assembly.
use vstd::prelude::*;

verus! {

/// The character of the decimal digit `d`.
pub open spec fn digit_char(d: nat) -> char {
    (48 + d) as char
}

/// The decimal representation of `n`, most significant digit first, with
/// no leading zero.
pub open spec fn decimal(n: nat) -> Seq<char>
    decreases n,
{
    if n < 10 {
        seq![digit_char(n)]
    } else {
        decimal(n / 10) + seq![digit_char(n % 10)]
    }
}

/// The number that a run of decimal digit characters denotes.
pub open spec fn decimal_value(s: Seq<char>) -> int
    decreases s.len(),
{
    if s.len() == 0 {
        0
    } else {
        decimal_value(s.drop_last()) * 10 + (s.last() as int - 48)
    }
}

/// Every character of `s` is a decimal digit.
pub open spec fn all_digits(s: Seq<char>) -> bool {
    forall|i: int| 0 <= i < s.len() ==> '0' <= #[trigger] s[i] <= '9'
}

/// The decimal representation of `n` is made of digits, does not start with
/// a zero unless it is the single digit of zero, and denotes `n`.
pub proof fn lemma_decimal_denotes(n: nat)
    ensures
        all_digits(decimal(n)),
        decimal(n).len() >= 1,
        decimal(n).len() > 1 ==> decimal(n)[0] != '0',
        decimal_value(decimal(n)) == n,
    decreases n,
{
    if n < 10 {
        let s = decimal(n);
        assert(s.drop_last() =~= Seq::<char>::empty());
        assert(s.last() as int == 48 + n);
        assert(decimal_value(s.drop_last()) == 0);
        assert(decimal_value(s) == n);
    } else {
        lemma_decimal_denotes(n / 10);
        let s = decimal(n);
        let head = decimal(n / 10);
        assert(s.drop_last() =~= head);
        assert(s[0] == head[0]);
        assert(s.last() as int == 48 + n % 10);
        assert(decimal_value(s) == decimal_value(head) * 10 + n % 10);
        if n / 10 < 10 {
            assert(head =~= seq![digit_char(n / 10)]);
            assert(head[0] as int == 48 + n / 10);
        } else {
            assert(head == decimal(n / 10 / 10) + seq![digit_char(n / 10 % 10)]);
            assert(head.len() > 1);
        }
        assert(decimal_value(s) == n);
    }
}

/// The character of the decimal digit `d`.
fn digit(d: u8) -> (c: char)
    requires
        d < 10,
    ensures
        c == digit_char(d as nat),
{
    (48u8 + d) as char
}

/// Appends `c` to `s` with `String::push`, which adds one character at the end.
#[verifier::external_body]
fn push_char(s: &mut String, c: char)
    ensures
        final(s)@ == old(s)@.push(c),
{
    s.push(c);
}

/// Appends `t` to `s` with `String::push_str`, which adds the characters of
/// `t` at the end.
#[verifier::external_body]
pub(crate) fn push_text(s: &mut String, t: &str)
    ensures
        final(s)@ == old(s)@ + t@,
{
    s.push_str(t);
}

/// Appends the decimal representation of `n` to `s`.
pub fn push_decimal(s: &mut String, n: u64)
    ensures
        final(s)@ == old(s)@ + decimal(n as nat),
{
    let mut digits: Vec<char> = Vec::new();
    let mut m: u64 = n;
    loop
        invariant_except_break
            decimal(n as nat) == decimal(m as nat) + digits@,
        ensures
            decimal(n as nat) == digits@,
        decreases m,
    {
        if m < 10 {
            let c = digit(m as u8);
            digits.insert(0, c);
            assert(digits@ =~= seq![c] + (digits@.drop_first()));
            break;
        } else {
            let c = digit((m % 10) as u8);
            let ghost before = digits@;
            digits.insert(0, c);
            assert(digits@ =~= seq![c] + before);
            assert(decimal(m as nat) == decimal((m / 10) as nat) + seq![c]);
            m = m / 10;
            assert(decimal(n as nat) =~= decimal(m as nat) + digits@);
        }
    }
    let ghost start = s@;
    let mut i: usize = 0;
    while i < digits.len()
        invariant
            i <= digits@.len(),
            s@ == start + digits@.take(i as int),
        decreases digits@.len() - i,
    {
        push_char(s, digits[i]);
        assert(digits@.take(i + 1) =~= digits@.take(i as int).push(digits@[i as int]));
        i = i + 1;
    }
    assert(digits@.take(digits@.len() as int) =~= digits@);
}

/// A fresh string holding `t`.
pub fn text(t: &str) -> (s: String)
    ensures
        s@ == t@,
{
    let mut s = String::new();
    push_text(&mut s, t);
    assert(s@ =~= t@);
    s
}

} // verus!
