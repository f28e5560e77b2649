//! Text made of characters: numbers in decimal, and strings as vectors of characters.

use vstd::prelude::*;
use vstd::string::StringExecFns;

verus! {

broadcast use vstd::string::group_string_axioms;

/// The character of a decimal digit.
pub open spec fn digit(d: nat) -> char {
    (48 + d) as char
}

/// A number in decimal, without leading zeros.
pub open spec fn decimal(n: nat) -> Seq<char>
    decreases n,
{
    if n < 10 {
        seq![digit(n)]
    } else {
        decimal(n / 10).push(digit(n % 10))
    }
}

/// `count` zeros.
pub open spec fn zeros(count: nat) -> Seq<char> {
    Seq::new(count, |i: int| '0')
}

/// A number in decimal with at least `width` digits.
pub open spec fn padded_decimal(n: nat, width: nat) -> Seq<char> {
    let text = decimal(n);
    if text.len() < width {
        zeros((width - text.len()) as nat) + text
    } else {
        text
    }
}

fn append_digit(s: &mut String, d: u64)
    requires
        d < 10,
    ensures
        final(s)@ == old(s)@.push(digit(d as nat)),
{
    proof {
        reveal_strlit("0");
        reveal_strlit("1");
        reveal_strlit("2");
        reveal_strlit("3");
        reveal_strlit("4");
        reveal_strlit("5");
        reveal_strlit("6");
        reveal_strlit("7");
        reveal_strlit("8");
        reveal_strlit("9");
    }
    let text = match d {
        0 => "0",
        1 => "1",
        2 => "2",
        3 => "3",
        4 => "4",
        5 => "5",
        6 => "6",
        7 => "7",
        8 => "8",
        _ => "9",
    };
    assert(text@ =~= seq![digit(d as nat)]);
    s.append(text);
    assert(s@ =~= old(s)@.push(digit(d as nat)));
}

/// Append a number in decimal.
pub fn append_decimal(s: &mut String, n: u64)
    ensures
        final(s)@ == old(s)@ + decimal(n as nat),
    decreases n,
{
    if n < 10 {
        append_digit(s, n);
        assert(s@ =~= old(s)@ + decimal(n as nat));
    } else {
        append_decimal(s, n / 10);
        append_digit(s, n % 10);
        assert(s@ =~= old(s)@ + decimal(n as nat));
    }
}

/// How many digits a number has.
pub fn decimal_len(n: u64) -> (len: usize)
    ensures
        len == decimal(n as nat).len(),
        len <= 20,
{
    let mut rest: u64 = n;
    let mut len: usize = 1;
    proof {
        assert(pow10(20) == 100_000_000_000_000_000_000) by {
            reveal_with_fuel(pow10, 21);
        }
        lemma_decimal_len(n as nat, 20, 100_000_000_000_000_000_000);
    }
    while rest >= 10
        invariant
            len <= decimal(n as nat).len(),
            decimal(n as nat).len() <= 20,
            decimal(n as nat).len() == decimal(rest as nat).len() + len - 1,
        decreases rest,
    {
        assert(decimal(rest as nat).len() == decimal((rest / 10) as nat).len() + 1);
        rest = rest / 10;
        len = len + 1;
        assert(decimal(rest as nat).len() >= 1);
    }
    len
}

/// A number below ten to the `k` has at most `k` digits.
proof fn lemma_decimal_len(n: nat, k: nat, bound: nat)
    requires
        k >= 1,
        n < bound,
        bound == pow10(k),
    ensures
        1 <= decimal(n).len() <= k,
    decreases k,
{
    reveal_with_fuel(pow10, 2);
    if n >= 10 {
        lemma_decimal_len(n / 10, (k - 1) as nat, pow10((k - 1) as nat));
    }
}

spec fn pow10(k: nat) -> nat
    decreases k,
{
    if k == 0 {
        1
    } else {
        10 * pow10((k - 1) as nat)
    }
}

/// Append a number in decimal with at least `width` digits.
pub fn append_padded(s: &mut String, n: u64, width: usize)
    ensures
        final(s)@ == old(s)@ + padded_decimal(n as nat, width as nat),
{
    let len: usize = decimal_len(n);
    let mut count: usize = 0;
    assert(zeros(0) =~= Seq::<char>::empty());
    assert(s@ =~= old(s)@ + zeros(0));
    if len < width {
        while count < width - len
            invariant
                len < width,
                count <= width - len,
                s@ == old(s)@ + zeros(count as nat),
            decreases width - len - count,
        {
            append_digit(s, 0);
            count = count + 1;
            assert(s@ =~= old(s)@ + zeros(count as nat));
        }
    }
    append_decimal(s, n);
    assert(s@ =~= old(s)@ + padded_decimal(n as nat, width as nat));
}

/// The characters of a string.
pub fn to_chars(s: &str) -> (chars: Vec<char>)
    ensures
        chars@ == s@,
{
    let mut chars: Vec<char> = Vec::new();
    for c in it: s.chars()
        invariant
            it.seq() == s@,
            chars@ == s@.take(it.index()),
    {
        chars.push(c);
        assert(chars@ =~= s@.take(it.index() + 1));
    }
    assert(s@.take(s@.len() as int) =~= s@);
    chars
}

/// Two numbers with one text are one number.
pub proof fn law_decimal_is_injective(a: nat, b: nat)
    requires
        decimal(a) == decimal(b),
    ensures
        a == b,
    decreases a,
{
    if a < 10 && b < 10 {
        assert(decimal(a)[0] == digit(a));
        assert(decimal(b)[0] == digit(b));
        assert(digit(a) as int == 48 + a);
        assert(digit(b) as int == 48 + b);
    } else if a < 10 {
        lemma_decimal_nonempty(b / 10);
        assert(decimal(b).len() >= 2);
        assert(decimal(a).len() == 1);
    } else if b < 10 {
        lemma_decimal_nonempty(a / 10);
        assert(decimal(a).len() >= 2);
        assert(decimal(b).len() == 1);
    } else {
        assert(decimal(a).drop_last() =~= decimal(a / 10));
        assert(decimal(b).drop_last() =~= decimal(b / 10));
        law_decimal_is_injective(a / 10, b / 10);
        assert(decimal(a).last() == digit(a % 10));
        assert(decimal(b).last() == digit(b % 10));
        assert(digit(a % 10) as int == 48 + a % 10);
        assert(digit(b % 10) as int == 48 + b % 10);
    }
}

/// Two numbers with one padded text are one number.
pub proof fn law_padded_decimal_is_injective(a: nat, b: nat, width: nat)
    requires
        padded_decimal(a, width) == padded_decimal(b, width),
    ensures
        a == b,
{
    let pa = padded_decimal(a, width);
    let pb = padded_decimal(b, width);
    lemma_value(a);
    lemma_value(b);
    if decimal(a).len() < width {
        lemma_value_padded((width - decimal(a).len()) as nat, decimal(a));
    }
    if decimal(b).len() < width {
        lemma_value_padded((width - decimal(b).len()) as nat, decimal(b));
    }
    assert(value(pa) == a && value(pb) == b);
}

/// The number that digits stand for.
pub open spec fn value(s: Seq<char>) -> int
    decreases s.len(),
{
    if s.len() == 0 {
        0
    } else {
        10 * value(s.drop_last()) + (s.last() as int - 48)
    }
}

/// A number is read back from its text.
pub proof fn lemma_value(n: nat)
    ensures
        value(decimal(n)) == n,
    decreases n,
{
    if n < 10 {
        assert(decimal(n).drop_last() =~= Seq::empty());
        assert(decimal(n).last() == digit(n));
        assert(digit(n) as int == 48 + n);
        reveal_with_fuel(value, 2);
    } else {
        lemma_value(n / 10);
        assert(decimal(n).drop_last() =~= decimal(n / 10));
        assert(decimal(n).last() == digit(n % 10));
        assert(digit(n % 10) as int == 48 + n % 10);
    }
}

proof fn lemma_value_padded(k: nat, s: Seq<char>)
    ensures
        value(zeros(k) + s) == value(s),
    decreases s.len(),
{
    if s.len() == 0 {
        assert(zeros(k) + s =~= zeros(k));
        lemma_value_zeros(k);
    } else {
        assert((zeros(k) + s).drop_last() =~= zeros(k) + s.drop_last());
        lemma_value_padded(k, s.drop_last());
    }
}

proof fn lemma_value_zeros(k: nat)
    ensures
        value(zeros(k)) == 0,
    decreases k,
{
    if k > 0 {
        assert(zeros(k).drop_last() =~= zeros((k - 1) as nat));
        lemma_value_zeros((k - 1) as nat);
    }
}

proof fn lemma_decimal_nonempty(n: nat)
    ensures
        decimal(n).len() >= 1,
{
}

/// A number in decimal is made of digits, does not begin with a zero unless it is zero, and
/// stands for the number.
pub proof fn law_decimal(n: nat)
    ensures
        decimal(n).len() >= 1,
        forall|i: int| 0 <= i < decimal(n).len() ==> '0' <= #[trigger] decimal(n)[i] <= '9',
        decimal(n)[0] == '0' ==> n == 0,
        value(decimal(n)) == n,
    decreases n,
{
    lemma_value(n);
    if n >= 10 {
        law_decimal(n / 10);
        let front = decimal(n / 10);
        assert(decimal(n)[0] == front[0]);
        assert forall|i: int| 0 <= i < decimal(n).len() implies '0' <= #[trigger] decimal(n)[i]
            <= '9' by {
            if i < front.len() {
                assert(decimal(n)[i] == front[i]);
            }
        }
    }
}

/// A padded number has at least its width, is no longer than it must be, and stands for the
/// number.
pub proof fn law_padded_decimal(n: nat, width: nat)
    requires
        width >= 1,
    ensures
        padded_decimal(n, width).len() >= width,
        padded_decimal(n, width).len() > width ==> padded_decimal(n, width)[0] != '0',
        value(padded_decimal(n, width)) == n,
{
    lemma_value(n);
    law_decimal(n);
    if decimal(n).len() < width {
        lemma_value_padded((width - decimal(n).len()) as nat, decimal(n));
    } else if decimal(n).len() > width && decimal(n)[0] == '0' {
        assert(decimal(0).len() == 1);
    }
}

} // verus!
