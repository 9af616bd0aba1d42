//! The steps that read characters: fixed texts, words, runs of blanks and digits.
use crate::ast::Node;
use crate::grammar::{failed, Failure, Parsed, ParsedList, Rule};
use crate::text::{
    digit_value, is_alphanumeric, is_digit, leading, lemma_leading, lemma_leading_at_least,
    lemma_leading_is, lemma_numeral_grows, lemma_split_is_run, member, numeral, radix, skip,
    span, Class,
};
use vstd::prelude::*;

verus! {

/// A failed match: the step that failed, and the input that was left at that point.
#[derive(Debug, PartialEq, Eq, Clone, Copy)]
pub struct ParseError<'a> {
    pub rule: Rule,
    pub rest: &'a str,
}

impl<'a> View for ParseError<'a> {
    type V = Failure;

    open spec fn view(&self) -> Failure {
        Failure { rule: self.rule, rest: self.rest@ }
    }
}

/// What a rule returns: the rest of the input with a node, or a failure.
pub type ParseResult<'a> = Result<(&'a str, Node), ParseError<'a>>;

/// The mathematical value of what a rule returns.
pub open spec fn parsed_view(r: ParseResult<'_>) -> Parsed {
    match r {
        Ok((rest, node)) => Ok((rest@, node@)),
        Err(e) => Err(e@),
    }
}

/// The mathematical value of what a repeated rule returns.
pub open spec fn list_view(r: Result<(&str, Vec<Node>), ParseError<'_>>) -> ParsedList {
    match r {
        Ok((rest, nodes)) => Ok((rest@, crate::ast::view_all(nodes@))),
        Err(e) => Err(e@),
    }
}

/// The mathematical value of the rest that a step returns.
pub open spec fn rest_view(r: Result<&str, ParseError<'_>>) -> Result<Seq<char>, Failure> {
    match r {
        Ok(rest) => Ok(rest@),
        Err(e) => Err(e@),
    }
}

/// The mathematical value of the rest and the text that a step returns.
pub open spec fn text_view(r: Result<(&str, &str), ParseError<'_>>) -> Result<
    (Seq<char>, Seq<char>),
    Failure,
> {
    match r {
        Ok((rest, text)) => Ok((rest@, text@)),
        Err(e) => Err(e@),
    }
}

/// Calls `nom::bytes::complete::tag`: where `input` starts with `pattern`, the result is
/// the rest of `input` after it; there is no result where it does not.
#[verifier::external_body]
fn nom_tag<'a>(pattern: &str, input: &'a str) -> (res: Option<&'a str>)
    ensures
        match res {
            Some(rest) => pattern@.is_prefix_of(input@) && rest@ == input@.skip(
                pattern@.len() as int,
            ),
            None => !pattern@.is_prefix_of(input@),
        },
{
    let parsed: nom::IResult<&'a str, &'a str> = nom::bytes::complete::tag(pattern)(input);
    match parsed {
        Ok((rest, _)) => Some(rest),
        Err(_) => None,
    }
}

/// Calls `nom::character::complete::alphanumeric1`: where `input` starts with an ASCII
/// letter or digit, the result is the rest of `input` and the letters and digits before
/// it, which end where `input` ends or at another character; there is no result where
/// `input` starts otherwise.
#[verifier::external_body]
fn nom_alphanumeric1<'a>(input: &'a str) -> (res: Option<(&'a str, &'a str)>)
    ensures
        match res {
            Some((rest, matched)) => {
                &&& input@ == matched@ + rest@
                &&& matched@.len() > 0
                &&& forall|i: int| 0 <= i < matched@.len() ==> is_alphanumeric(#[trigger] matched@[i])
                &&& rest@.len() > 0 ==> !is_alphanumeric(rest@[0])
            },
            None => input@.len() == 0 || !is_alphanumeric(input@[0]),
        },
{
    let parsed: nom::IResult<&'a str, &'a str> = nom::character::complete::alphanumeric1(input);
    match parsed {
        Ok((rest, matched)) => Some((rest, matched)),
        Err(_) => None,
    }
}

/// Calls `nom::character::complete::digit1`: where `input` starts with one of the digits
/// `0` to `9`, the result is the rest of `input` and the digits before it, which end
/// where `input` ends or at another character; there is no result where `input` starts
/// otherwise.
#[verifier::external_body]
fn nom_digit1<'a>(input: &'a str) -> (res: Option<(&'a str, &'a str)>)
    ensures
        match res {
            Some((rest, matched)) => {
                &&& input@ == matched@ + rest@
                &&& matched@.len() > 0
                &&& forall|i: int| 0 <= i < matched@.len() ==> is_digit(#[trigger] matched@[i])
                &&& rest@.len() > 0 ==> !is_digit(rest@[0])
            },
            None => input@.len() == 0 || !is_digit(input@[0]),
        },
{
    let parsed: nom::IResult<&'a str, &'a str> = nom::character::complete::digit1(input);
    match parsed {
        Ok((rest, matched)) => Some((rest, matched)),
        Err(_) => None,
    }
}

/// The rest of `input` after `text`.
pub fn expect<'a>(input: &'a str, text: &str) -> (res: Result<&'a str, ParseError<'a>>)
    ensures
        rest_view(res) == crate::grammar::expect(input@, text@),
{
    if text.is_empty() {
        return Err(ParseError { rule: Rule::Tag, rest: input });
    }
    match nom_tag(text, input) {
        Some(rest) => Ok(rest),
        None => Err(ParseError { rule: Rule::Tag, rest: input }),
    }
}

/// The letters and digits that `input` starts with, after the rest of `input`.
pub fn word<'a>(input: &'a str) -> (res: Result<(&'a str, &'a str), ParseError<'a>>)
    ensures
        text_view(res) == crate::grammar::word(input@),
        res matches Ok((rest, _)) ==> rest@.len() < input@.len(),
{
    match nom_alphanumeric1(input) {
        Some((rest, matched)) => {
            proof {
                lemma_split_is_run(input@, matched@, rest@, Class::Alphanumeric);
            }
            Ok((rest, matched))
        },
        None => {
            proof {
                lemma_leading_is(input@, Class::Alphanumeric, 0);
            }
            Err(ParseError { rule: Rule::Alphanumeric, rest: input })
        },
    }
}

/// The rest of `input` after its first character, where that is a space, a tab or a line
/// feed of `class`.
fn skip_one<'a>(input: &'a str, class: Class) -> (res: Option<&'a str>)
    requires
        class is Space || class is Newline || class is SpaceOrNewline || class is Blank,
    ensures
        match res {
            Some(rest) => input@.len() > 0 && member(class, input@[0]) && rest@ == input@.skip(1),
            None => input@.len() == 0 || !member(class, input@[0]),
        },
{
    proof {
        reveal_strlit(" ");
        reveal_strlit("\t");
        reveal_strlit("\n");
    }
    let with_space = match class {
        Class::Newline => false,
        _ => true,
    };
    let with_tab = match class {
        Class::Blank => true,
        _ => false,
    };
    let with_newline = match class {
        Class::Space => false,
        _ => true,
    };
    if with_space {
        if let Some(rest) = nom_tag(" ", input) {
            assert(input@[0] == " "@[0]);
            return Some(rest);
        }
        assert(input@.len() > 0 && input@[0] == ' ' ==> " "@ =~= input@.subrange(0, 1));
    }
    if with_tab {
        if let Some(rest) = nom_tag("\t", input) {
            assert(input@[0] == "\t"@[0]);
            return Some(rest);
        }
        assert(input@.len() > 0 && input@[0] == '\t' ==> "\t"@ =~= input@.subrange(0, 1));
    }
    if with_newline {
        if let Some(rest) = nom_tag("\n", input) {
            assert(input@[0] == "\n"@[0]);
            return Some(rest);
        }
        assert(input@.len() > 0 && input@[0] == '\n' ==> "\n"@ =~= input@.subrange(0, 1));
    }
    None
}

/// `input` without the spaces, tabs and line feeds of `class` that it starts with.
pub(crate) fn skip_class<'a>(input: &'a str, class: Class) -> (res: &'a str)
    requires
        class is Space || class is Newline || class is SpaceOrNewline || class is Blank,
    ensures
        res@ == skip(input@, class),
        res@.len() <= input@.len(),
{
    let mut current = input;
    let ghost mut count: nat = 0;
    loop
        invariant
            class is Space || class is Newline || class is SpaceOrNewline || class is Blank,
            count <= input@.len(),
            current@ == input@.skip(count as int),
            forall|i: int| 0 <= i < count ==> member(class, #[trigger] input@[i]),
        ensures
            current@ == skip(input@, class),
            current@.len() <= input@.len(),
        decreases input@.len() - count,
    {
        match skip_one(current, class) {
            Some(rest) => {
                proof {
                    assert(current@[0] == input@[count as int]);
                    assert(rest@ =~= input@.skip(count + 1 as int));
                    count = count + 1;
                }
                current = rest;
            },
            None => {
                proof {
                    if count < input@.len() {
                        assert(current@[0] == input@[count as int]);
                    }
                    lemma_leading_is(input@, class, count);
                }
                break ;
            },
        }
    }
    current
}

/// The text of the digit `d`.
fn digit_text(d: u8) -> (res: &'static str)
    requires
        d <= 9,
    ensures
        res@.len() == 1,
        is_digit(res@[0]),
        digit_value(res@[0]) == d,
{
    proof {
        reveal_strlit("0");
        reveal_strlit("1");
        reveal_strlit("2");
        reveal_strlit("3");
        reveal_strlit("4");
        reveal_strlit("5");
        reveal_strlit("6");
        reveal_strlit("7");
        reveal_strlit("8");
        reveal_strlit("9");
    }
    match d {
        0 => "0",
        1 => "1",
        2 => "2",
        3 => "3",
        4 => "4",
        5 => "5",
        6 => "6",
        7 => "7",
        8 => "8",
        _ => "9",
    }
}

/// The rest of `input` after its first character and the value of that character, where
/// it is a digit from `low` to `high`.
pub(crate) fn take_digit<'a>(input: &'a str, low: u8, high: u8) -> (res: Option<(&'a str, u8)>)
    requires
        low <= high <= 9,
    ensures
        match res {
            Some((rest, d)) => {
                &&& input@.len() > 0
                &&& is_digit(input@[0])
                &&& digit_value(input@[0]) == d
                &&& low <= d <= high
                &&& rest@ == input@.skip(1)
            },
            None => input@.len() == 0 || !is_digit(input@[0]) || !(low <= digit_value(input@[0])
                <= high),
        },
{
    let mut d: u8 = low;
    while d <= high
        invariant
            low <= d <= high + 1,
            high <= 9,
            input@.len() == 0 || !is_digit(input@[0]) || !(low <= digit_value(input@[0]) < d),
        decreases high + 1 - d,
    {
        let text = digit_text(d);
        match nom_tag(text, input) {
            Some(rest) => {
                assert(input@[0] == text@[0]);
                return Some((rest, d));
            },
            None => {
                assert(input@.len() > 0 && is_digit(input@[0]) && digit_value(input@[0]) == d
                    ==> text@ =~= input@.subrange(0, 1));
            },
        }
        d += 1;
    }
    None
}

/// Whether `c`, a digit of value `d`, belongs to the digits `class`.
proof fn lemma_digit_member(class: Class, c: char, d: int)
    requires
        class is Binary || class is Octal || class is Decimal,
        is_digit(c),
        digit_value(c) == d,
    ensures
        member(class, c) == (d <= radix(class) - 1),
{
}

/// The largest digit of `class`.
fn top_digit(class: Class) -> (res: u8)
    requires
        class is Binary || class is Octal || class is Decimal,
    ensures
        res == radix(class) - 1,
{
    match class {
        Class::Binary => 1,
        Class::Octal => 7,
        _ => 9,
    }
}

/// The number that the digits of `class` at the start of `input` write.
pub(crate) fn digits<'a>(input: &'a str, class: Class) -> (res: ParseResult<'a>)
    requires
        class is Binary || class is Octal || class is Decimal,
    ensures
        parsed_view(res) == crate::grammar::digits(input@, class),
        res matches Ok((rest, _)) ==> rest@.len() < input@.len(),
{
    proof {
        reveal(crate::grammar::digits);
    }
    let top = top_digit(class);
    let base: i64 = top as i64 + 1;
    let mut current = input;
    let mut value: i64 = 0;
    let mut any = false;
    let ghost mut count: nat = 0;
    loop
        invariant
            class is Binary || class is Octal || class is Decimal,
            top == radix(class) - 1,
            base == radix(class),
            count <= input@.len(),
            any == (count > 0),
            current@ == input@.skip(count as int),
            forall|i: int| 0 <= i < count ==> member(class, #[trigger] input@[i]),
            value == numeral(input@.take(count as int), radix(class)),
            0 <= value <= i32::MAX,
        ensures
            count == leading(input@, class),
            count <= input@.len(),
            any == (count > 0),
            current@ == skip(input@, class),
            value == numeral(span(input@, class), radix(class)),
            0 <= value <= i32::MAX,
        decreases input@.len() - count,
    {
        match take_digit(current, 0, top) {
            Some((rest, d)) => {
                let next = value * base + d as i64;
                proof {
                    assert(current@[0] == input@[count as int]);
                    lemma_digit_member(class, input@[count as int], d as int);
                    assert(rest@ =~= input@.skip(count + 1 as int));
                    let longer = input@.take(count + 1 as int);
                    assert(longer.drop_last() =~= input@.take(count as int));
                    assert(longer.last() == input@[count as int]);
                    assert(next == numeral(longer, radix(class)));
                }
                if next > i32::MAX as i64 {
                    proof {
                        reveal(crate::grammar::digits);
                        lemma_leading_at_least(input@, class, count + 1);
                        lemma_leading(input@, class);
                        let whole = span(input@, class);
                        assert(whole.take(count + 1 as int) =~= input@.take(count + 1 as int));
                        assert forall|i: int| 0 <= i < whole.len() implies is_digit(
                            #[trigger] whole[i],
                        ) by {
                            assert(member(class, input@[i]));
                        }
                        lemma_numeral_grows(whole, radix(class), count + 1);
                    }
                    return Err(ParseError { rule: Rule::NumberTooLarge, rest: input });
                }
                proof {
                    count = count + 1;
                }
                value = next;
                any = true;
                current = rest;
            },
            None => {
                proof {
                    if count < input@.len() {
                        assert(current@[0] == input@[count as int]);
                        if is_digit(current@[0]) {
                            lemma_digit_member(
                                class,
                                current@[0],
                                digit_value(current@[0]),
                            );
                        }
                    }
                    lemma_leading_is(input@, class, count);
                }
                break ;
            },
        }
    }
    if !any {
        return Err(ParseError { rule: Rule::MissingDigits, rest: input });
    }
    Ok((current, Node::Number { value: value as i32 }))
}

/// The decimal digits that `input` starts with, after the rest of `input`; nothing where
/// it starts with none.
pub fn decimal_run<'a>(input: &'a str) -> (res: Option<(&'a str, &'a str)>)
    ensures
        match res {
            Some((rest, matched)) => {
                &&& 0 < leading(input@, Class::Decimal) <= input@.len()
                &&& rest@ == skip(input@, Class::Decimal)
                &&& matched@ == span(input@, Class::Decimal)
                &&& leading(matched@, Class::Decimal) == matched@.len()
            },
            None => leading(input@, Class::Decimal) == 0,
        },
{
    match nom_digit1(input) {
        Some((rest, matched)) => {
            proof {
                lemma_split_is_run(input@, matched@, rest@, Class::Decimal);
                lemma_leading_is(matched@, Class::Decimal, matched@.len());
            }
            Some((rest, matched))
        },
        None => {
            proof {
                lemma_leading_is(input@, Class::Decimal, 0);
            }
            None
        },
    }
}

/// The letters, digits and spaces that `input` starts with, after the rest of `input`.
pub fn text_run<'a>(input: &'a str) -> (res: (&'a str, String))
    ensures
        leading(input@, Class::Text) <= input@.len(),
        res.0@ == skip(input@, Class::Text),
        res.1@ == span(input@, Class::Text),
{
    let mut current = input;
    let mut text = String::new();
    let ghost mut count: nat = 0;
    loop
        invariant
            count <= input@.len(),
            current@ == input@.skip(count as int),
            text@ == input@.take(count as int),
            forall|i: int| 0 <= i < count ==> member(Class::Text, #[trigger] input@[i]),
        ensures
            count == leading(input@, Class::Text),
            count <= input@.len(),
            current@ == input@.skip(count as int),
            text@ == input@.take(count as int),
        decreases input@.len() - count,
    {
        match nom_alphanumeric1(current) {
            Some((rest, matched)) => {
                proof {
                    let more = matched@.len();
                    assert(current@.len() == more + rest@.len());
                    assert forall|i: int| 0 <= i < count + more implies member(
                        Class::Text,
                        #[trigger] input@[i],
                    ) by {
                        if i >= count {
                            assert(input@[i] == current@[i - count]);
                            assert(current@[i - count] == matched@[i - count]);
                        }
                    }
                    assert(rest@ =~= current@.skip(more as int));
                    assert(matched@ =~= current@.take(more as int));
                    assert(current@.skip(more as int) =~= input@.skip((count + more) as int));
                    assert(text@ + current@.take(more as int) =~= input@.take(
                        (count + more) as int,
                    ));
                    count = count + more;
                }
                text.append(matched);
                current = rest;
            },
            None => match nom_tag(" ", current) {
                Some(rest) => {
                    proof {
                        reveal_strlit(" ");
                        assert(current@[0] == " "@[0]);
                        assert(input@[count as int] == current@[0]);
                        assert(rest@ =~= input@.skip((count + 1) as int));
                        assert(text@ + " "@ =~= input@.take((count + 1) as int));
                        count = count + 1;
                    }
                    text.append(" ");
                    current = rest;
                },
                None => {
                    proof {
                        reveal_strlit(" ");
                        if count < input@.len() {
                            assert(input@[count as int] == current@[0]);
                            assert(current@[0] == ' ' ==> " "@ =~= current@.subrange(0, 1));
                        }
                        lemma_leading_is(input@, Class::Text, count);
                    }
                    break ;
                },
            },
        }
    }
    (current, text)
}

/// Whether `error` ends the whole parse.
pub fn is_fatal(error: &ParseError<'_>) -> (res: bool)
    ensures
        res == crate::grammar::fatal(error@),
{
    match error.rule {
        Rule::MissingDigits => true,
        Rule::NumberTooLarge => true,
        _ => false,
    }
}

} // verus!
