//! Character classes, and the prefixes of an input that lie in one.
use vstd::prelude::*;

verus! {

/// A set of characters that a rule of the grammar reads as a run.
#[derive(Debug, PartialEq, Eq, Clone, Copy, Structural)]
pub enum Class {
    /// The space.
    Space,
    /// The line feed.
    Newline,
    /// The space and the line feed.
    SpaceOrNewline,
    /// The space, the tab and the line feed.
    Blank,
    /// The ASCII letters and digits.
    Alphanumeric,
    /// The ASCII letters and digits, and the space.
    Text,
    /// The digits `0` and `1`.
    Binary,
    /// The digits `0` to `7`.
    Octal,
    /// The digits `0` to `9`.
    Decimal,
}

/// Whether `c` is one of the digits `0` to `9`.
pub open spec fn is_digit(c: char) -> bool {
    '0' <= c <= '9'
}

/// Whether `c` is an ASCII letter or digit.
pub open spec fn is_alphanumeric(c: char) -> bool {
    ('a' <= c <= 'z') || ('A' <= c <= 'Z') || is_digit(c)
}

/// The base in which the digits of `class` count.
pub open spec fn radix(class: Class) -> int {
    match class {
        Class::Binary => 2,
        Class::Octal => 8,
        _ => 10,
    }
}

/// Whether `c` belongs to `class`.
pub open spec fn member(class: Class, c: char) -> bool {
    match class {
        Class::Space => c == ' ',
        Class::Newline => c == '\n',
        Class::SpaceOrNewline => c == ' ' || c == '\n',
        Class::Blank => c == ' ' || c == '\t' || c == '\n',
        Class::Alphanumeric => is_alphanumeric(c),
        Class::Text => is_alphanumeric(c) || c == ' ',
        Class::Binary => c == '0' || c == '1',
        Class::Octal => '0' <= c <= '7',
        Class::Decimal => is_digit(c),
    }
}

/// How many characters at the start of `s` belong to `class`.
pub open spec fn leading(s: Seq<char>, class: Class) -> nat
    decreases s.len(),
{
    if s.len() > 0 && member(class, s[0]) {
        1 + leading(s.skip(1), class)
    } else {
        0
    }
}

/// `s` without the characters of `class` that it starts with. (The test on the length
/// always succeeds, see [`lemma_leading`]; with it the result is plainly no longer than
/// `s`.)
pub open spec fn skip(s: Seq<char>, class: Class) -> Seq<char> {
    let n = leading(s, class);
    if n <= s.len() {
        s.skip(n as int)
    } else {
        s
    }
}

/// The characters of `class` that `s` starts with.
pub open spec fn span(s: Seq<char>, class: Class) -> Seq<char> {
    let n = leading(s, class);
    if n <= s.len() {
        s.take(n as int)
    } else {
        s
    }
}

/// The run at the start of `s` is made of members of the class and ends where `s` ends or
/// at a character outside the class.
pub proof fn lemma_leading(s: Seq<char>, class: Class)
    ensures
        leading(s, class) <= s.len(),
        forall|i: int| 0 <= i < leading(s, class) ==> member(class, #[trigger] s[i]),
        leading(s, class) < s.len() ==> !member(class, s[leading(s, class) as int]),
    decreases s.len(),
{
    if s.len() > 0 && member(class, s[0]) {
        let tail = s.skip(1);
        lemma_leading(tail, class);
        assert forall|i: int| 0 <= i < leading(s, class) implies member(
            class,
            #[trigger] s[i],
        ) by {
            if i > 0 {
                assert(s[i] == tail[i - 1]);
            }
        }
        if leading(s, class) < s.len() {
            assert(s[leading(s, class) as int] == tail[leading(tail, class) as int]);
        }
    }
}

/// A prefix of members of the class that ends where `s` ends or at a character outside the
/// class is the run at the start of `s`.
pub proof fn lemma_leading_is(s: Seq<char>, class: Class, n: nat)
    requires
        n <= s.len(),
        forall|i: int| 0 <= i < n ==> member(class, #[trigger] s[i]),
        n < s.len() ==> !member(class, s[n as int]),
    ensures
        leading(s, class) == n,
    decreases n,
{
    if n > 0 {
        let tail = s.skip(1);
        assert forall|i: int| 0 <= i < n - 1 implies member(class, #[trigger] tail[i]) by {
            assert(tail[i] == s[i + 1]);
        }
        if n - 1 < tail.len() {
            assert(tail[n - 1] == s[n as int]);
        }
        lemma_leading_is(tail, class, (n - 1) as nat);
    }
}

/// The first `n` characters of `s` lie in `class`: the run at the start of `s` has at
/// least `n` characters.
pub proof fn lemma_leading_at_least(s: Seq<char>, class: Class, n: nat)
    requires
        n <= s.len(),
        forall|i: int| 0 <= i < n ==> member(class, #[trigger] s[i]),
    ensures
        n <= leading(s, class) <= s.len(),
    decreases n,
{
    lemma_leading(s, class);
    if n > 0 {
        let tail = s.skip(1);
        assert forall|i: int| 0 <= i < n - 1 implies member(class, #[trigger] tail[i]) by {
            assert(tail[i] == s[i + 1]);
        }
        lemma_leading_at_least(tail, class, (n - 1) as nat);
    }
}

/// A text split in two is a run of `class` and its rest, where the first part lies in
/// `class` and the second does not start in it.
pub proof fn lemma_split_is_run(whole: Seq<char>, front: Seq<char>, back: Seq<char>, class: Class)
    requires
        whole == front + back,
        forall|i: int| 0 <= i < front.len() ==> member(class, #[trigger] front[i]),
        back.len() > 0 ==> !member(class, back[0]),
    ensures
        leading(whole, class) == front.len(),
        span(whole, class) == front,
        skip(whole, class) == back,
{
    let n = front.len();
    assert forall|i: int| 0 <= i < n implies member(class, #[trigger] whole[i]) by {
        assert(whole[i] == front[i]);
    }
    if n < whole.len() {
        assert(whole[n as int] == back[0]);
    }
    lemma_leading_is(whole, class, n);
    assert(whole.take(n as int) =~= front);
    assert(whole.skip(n as int) =~= back);
}

/// The value of the digit `c`.
pub open spec fn digit_value(c: char) -> int {
    c as int - '0' as int
}

/// The number that the digits `digits` write in base `base`.
pub open spec fn numeral(digits: Seq<char>, base: int) -> int
    decreases digits.len(),
{
    if digits.len() == 0 {
        0
    } else {
        numeral(digits.drop_last(), base) * base + digit_value(digits.last())
    }
}

/// A numeral is not negative, and no smaller than the numeral of any of its prefixes.
pub proof fn lemma_numeral_grows(digits: Seq<char>, base: int, n: nat)
    requires
        base >= 1,
        n <= digits.len(),
        forall|i: int| 0 <= i < digits.len() ==> is_digit(#[trigger] digits[i]),
    ensures
        0 <= numeral(digits.take(n as int), base) <= numeral(digits, base),
    decreases digits.len(),
{
    if digits.len() == 0 {
        assert(digits.take(n as int) =~= digits);
    } else if n == digits.len() {
        assert(digits.take(n as int) =~= digits);
        lemma_numeral_grows(digits.drop_last(), base, 0);
        let shorter = numeral(digits.drop_last(), base);
        assert(shorter * base >= 0) by (nonlinear_arith)
            requires
                shorter >= 0,
                base >= 1,
        ;
    } else {
        let front = digits.drop_last();
        assert(front.take(n as int) =~= digits.take(n as int));
        lemma_numeral_grows(front, base, n);
        let shorter = numeral(front, base);
        assert(shorter * base >= shorter) by (nonlinear_arith)
            requires
                shorter >= 0,
                base >= 1,
        ;
    }
}

} // verus!
