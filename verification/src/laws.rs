//! What holds of parsing and evaluating together.
use crate::ast::Ast;
use crate::grammar::{expect, failed, fatal, word, Failure, Parsed, Rule};
use crate::semantics::run_program;
use crate::text::{
    digit_value, is_alphanumeric, is_digit, leading, member, numeral, skip, span, Class,
};
use crate::value::{RuntimeError, Val};
use vstd::prelude::*;

verus! {

/// The character that writes the digit `d`.
pub open spec fn digit_char(d: nat) -> char {
    if d == 0 {
        '0'
    } else if d == 1 {
        '1'
    } else if d == 2 {
        '2'
    } else if d == 3 {
        '3'
    } else if d == 4 {
        '4'
    } else if d == 5 {
        '5'
    } else if d == 6 {
        '6'
    } else if d == 7 {
        '7'
    } else if d == 8 {
        '8'
    } else {
        '9'
    }
}

/// The decimal digits that write `n`, without leading zeros.
pub open spec fn decimal(n: nat) -> Seq<char>
    decreases n,
{
    if n < 10 {
        seq![digit_char(n)]
    } else {
        decimal(n / 10).push(digit_char(n % 10))
    }
}

/// The digits of a number are digits, start with `0` for zero alone, and write the number.
pub proof fn lemma_decimal(n: nat)
    ensures
        decimal(n).len() > 0,
        forall|i: int| 0 <= i < decimal(n).len() ==> is_digit(#[trigger] decimal(n)[i]),
        n == 0 ==> decimal(n) == seq!['0'],
        n > 0 ==> '1' <= decimal(n)[0] <= '9',
        numeral(decimal(n), 10) == n,
    decreases n,
{
    if n < 10 {
        let d = decimal(n);
        assert(d.drop_last() =~= Seq::<char>::empty());
        assert(numeral(d.drop_last(), 10) == 0);
        assert(digit_value(d.last()) == n);
    } else {
        lemma_decimal(n / 10);
        let front = decimal(n / 10);
        let d = decimal(n);
        assert(d.drop_last() =~= front);
        assert(digit_value(d.last()) == n % 10);
        assert(d[0] == front[0]);
        assert forall|i: int| 0 <= i < d.len() implies is_digit(#[trigger] d[i]) by {
            if i < front.len() {
                assert(d[i] == front[i]);
            }
        }
    }
}

/// A text that does not start like `text` is not read as `text`.
pub proof fn lemma_expect_rejects(s: Seq<char>, text: Seq<char>)
    requires
        text.len() > 0,
        s.len() == 0 || s[0] != text[0],
    ensures
        expect(s, text) == Err::<Seq<char>, Failure>(failed(Rule::Tag, s)),
{
    if text.is_prefix_of(s) {
        assert(s.subrange(0, text.len() as int)[0] == text[0]);
    }
}

/// After `text`, what is left of `text` and `tail` is `tail`.
pub proof fn lemma_expect_accepts(text: Seq<char>, tail: Seq<char>)
    requires
        text.len() > 0,
    ensures
        expect(text + tail, text) == Ok::<Seq<char>, Failure>(tail),
{
    assert((text + tail).subrange(0, text.len() as int) =~= text);
    assert((text + tail).skip(text.len() as int) =~= tail);
}

/// A text that does not start with a member of `class` has no run of it.
pub proof fn lemma_skip_nothing(s: Seq<char>, class: Class)
    requires
        s.len() == 0 || !member(class, s[0]),
    ensures
        leading(s, class) == 0,
        skip(s, class) == s,
        span(s, class) == Seq::<char>::empty(),
{
    assert(s.skip(0) =~= s);
    assert(s.take(0) =~= Seq::<char>::empty());
}

/// A run of `class` before a text that does not start in `class` is the run of the whole.
pub proof fn lemma_run_then(front: Seq<char>, tail: Seq<char>, class: Class)
    requires
        forall|i: int| 0 <= i < front.len() ==> member(class, #[trigger] front[i]),
        tail.len() == 0 || !member(class, tail[0]),
    ensures
        leading(front + tail, class) == front.len(),
        skip(front + tail, class) == tail,
        span(front + tail, class) == front,
{
    crate::text::lemma_split_is_run(front + tail, front, tail, class);
}

/// The digits of a number that fits in 32 bits, before a text that does not go on with a
/// letter or a digit, are a word, and are read as that number.
pub proof fn lemma_number(n: nat, tail: Seq<char>)
    requires
        n <= i32::MAX,
        tail.len() == 0 || !is_alphanumeric(tail[0]),
    ensures
        word(decimal(n) + tail) == Ok::<(Seq<char>, Seq<char>), Failure>((tail, decimal(n))),
        crate::grammar::number(decimal(n) + tail) == Ok::<(Seq<char>, Ast), Failure>(
            (tail, Ast::Number { value: n as i32 }),
        ),
{
    let d = decimal(n);
    let s = d + tail;
    lemma_decimal(n);
    assert(s[0] == d[0]);
    lemma_run_then(d, tail, Class::Alphanumeric);
    lemma_run_then(d, tail, Class::Decimal);
    reveal(crate::grammar::number);
    reveal(crate::grammar::integer);
    reveal(crate::grammar::integer0);
    reveal(crate::grammar::integer1);
    reveal(crate::grammar::binary);
    reveal(crate::grammar::octal);
    reveal(crate::grammar::prefixed);
    reveal(crate::grammar::digits);
    reveal_strlit("0");
    reveal_strlit("b");
    reveal_strlit("o");
    if n == 0 {
        assert(d =~= "0"@);
        lemma_expect_accepts("0"@, tail);
        lemma_expect_rejects(tail, "b"@);
        lemma_expect_rejects(tail, "o"@);
    } else {
        lemma_expect_rejects(s, "0"@);
    }
}

/// The level of the arithmetic operator `op`: 1 for `+ -`, 2 for `* /`, 3 for `^`, and 0
/// for any other character.
pub open spec fn level_of(op: char) -> nat {
    if op == '+' || op == '-' {
        1
    } else if op == '*' || op == '/' {
        2
    } else if op == '^' {
        3
    } else {
        0
    }
}

/// The digits of a number before a text that starts with neither a letter, a digit nor an
/// opening parenthesis are read as an operand.
pub proof fn lemma_operand_number(n: nat, tail: Seq<char>)
    requires
        n <= i32::MAX,
        tail.len() == 0 || (!is_alphanumeric(tail[0]) && tail[0] != '('),
    ensures
        crate::grammar::l4(decimal(n) + tail) == Ok::<(Seq<char>, Ast), Failure>(
            (tail, Ast::Number { value: n as i32 }),
        ),
{
    lemma_number(n, tail);
    reveal_strlit("(");
    lemma_expect_rejects(tail, "("@);
}

/// An operator of the level `level` at the start of a text is read; nothing else is.
pub proof fn lemma_level_operator(s: Seq<char>, level: nat)
    requires
        1 <= level <= 3,
    ensures
        s.len() > 0 && level_of(s[0]) == level ==> crate::grammar::level_operator(s, level) == Ok::<
            (Seq<char>, Seq<char>),
            Failure,
        >((s.skip(1), seq![s[0]])),
        s.len() == 0 || level_of(s[0]) != level ==> crate::grammar::level_operator(s, level) == Err::<
            (Seq<char>, Seq<char>),
            Failure,
        >(failed(Rule::Tag, s)),
{
    reveal_strlit("+");
    reveal_strlit("-");
    reveal_strlit("*");
    reveal_strlit("/");
    reveal_strlit("^");
    if s.len() > 0 {
        let first = seq![s[0]];
        assert(s =~= first + s.skip(1));
        lemma_expect_accepts(first, s.skip(1));
        assert(s[0] == '+' ==> first =~= "+"@);
        assert(s[0] == '-' ==> first =~= "-"@);
        assert(s[0] == '*' ==> first =~= "*"@);
        assert(s[0] == '/' ==> first =~= "/"@);
        assert(s[0] == '^' ==> first =~= "^"@);
    }
    lemma_expect_rejects_or_not(s, "+"@);
    lemma_expect_rejects_or_not(s, "-"@);
    lemma_expect_rejects_or_not(s, "*"@);
    lemma_expect_rejects_or_not(s, "/"@);
    lemma_expect_rejects_or_not(s, "^"@);
}

/// A text is read as `text` only where it starts like it.
pub proof fn lemma_expect_rejects_or_not(s: Seq<char>, text: Seq<char>)
    requires
        text.len() > 0,
    ensures
        s.len() == 0 || s[0] != text[0] ==> expect(s, text) == Err::<Seq<char>, Failure>(
            failed(Rule::Tag, s),
        ),
{
    if s.len() == 0 || s[0] != text[0] {
        lemma_expect_rejects(s, text);
    }
}

/// Where no operator of the level `level` follows, after spaces, there is no continuation
/// of that level.
pub proof fn lemma_no_continuation(s: Seq<char>, level: nat, head: Ast)
    requires
        1 <= level <= 3,
        skip(s, Class::Space).len() == 0 || level_of(skip(s, Class::Space)[0]) != level,
    ensures
        crate::grammar::continuations(s, level, head) == Ok::<(Seq<char>, Ast), Failure>(
            (s, head),
        ),
{
    let t = skip(s, Class::Space);
    lemma_level_operator(t, level);
    assert(crate::grammar::infix(s, level) == Err::<(Seq<char>, Ast), Failure>(
        failed(Rule::Tag, t),
    ));
    assert(!fatal(failed(Rule::Tag, t)));
}

/// Whether no operator of the level `level` or of a higher one follows `s`, after spaces.
pub open spec fn ends_operand(s: Seq<char>, level: nat) -> bool {
    skip(s, Class::Space).len() == 0 || level_of(skip(s, Class::Space)[0]) < level
}

/// The digits of a number are an arithmetic expression of each level that the operator
/// after them does not reach.
pub proof fn lemma_climb_number(n: nat, tail: Seq<char>, level: nat)
    requires
        n <= i32::MAX,
        1 <= level <= 3,
        tail.len() == 0 || (!is_alphanumeric(tail[0]) && tail[0] != '('),
        ends_operand(tail, level),
    ensures
        crate::grammar::climb(decimal(n) + tail, level) == Ok::<(Seq<char>, Ast), Failure>(
            (tail, Ast::Number { value: n as i32 }),
        ),
    decreases 3 - level,
{
    lemma_decimal(n);
    let s = decimal(n) + tail;
    let head = Ast::Number { value: n as i32 };
    if level < 3 {
        lemma_climb_number(n, tail, level + 1);
    } else {
        lemma_operand_number(n, tail);
    }
    assert(crate::grammar::operand(s, level) == Ok::<(Seq<char>, Ast), Failure>((tail, head)));
    lemma_no_continuation(tail, level, head);
}

/// The text of `a`, the operator `op` between two spaces, and `b`.
pub open spec fn infix_text(a: nat, op: char, b: nat) -> Seq<char> {
    decimal(a) + seq![' ', op, ' '] + decimal(b)
}

/// The tree of the operator `op` applied to the numbers `a` and `b`.
pub open spec fn infix_tree(a: nat, op: char, b: nat) -> Ast {
    Ast::MathExpression {
        operator: seq![op],
        operands: seq![Ast::Number { value: a as i32 }, Ast::Number { value: b as i32 }],
    }
}

/// An arithmetic expression that reads a whole text is also one of the level below.
pub proof fn lemma_climb_whole(s: Seq<char>, level: nat, tree: Ast)
    requires
        1 <= level < 3,
        s.len() > 0,
        crate::grammar::climb(s, level + 1) == Ok::<(Seq<char>, Ast), Failure>(
            (Seq::empty(), tree),
        ),
    ensures
        crate::grammar::climb(s, level) == Ok::<(Seq<char>, Ast), Failure>(
            (Seq::empty(), tree),
        ),
{
    let nothing = Seq::<char>::empty();
    lemma_skip_nothing(nothing, Class::Space);
    assert(crate::grammar::operand(s, level) == Ok::<(Seq<char>, Ast), Failure>(
        (nothing, tree),
    ));
    lemma_no_continuation(nothing, level, tree);
}

/// The digits of a number before a text that starts with a space and an operator of a
/// lower level, or before nothing, are an operand of the level `level`.
pub proof fn lemma_operand(n: nat, tail: Seq<char>, level: nat)
    requires
        n <= i32::MAX,
        1 <= level <= 3,
        tail.len() == 0 || (!is_alphanumeric(tail[0]) && tail[0] != '('),
        ends_operand(tail, level + 1),
    ensures
        crate::grammar::operand(decimal(n) + tail, level) == Ok::<(Seq<char>, Ast), Failure>(
            (tail, Ast::Number { value: n as i32 }),
        ),
{
    if level < 3 {
        lemma_climb_number(n, tail, level + 1);
    } else {
        lemma_operand_number(n, tail);
    }
}

/// A space, an operator, a space and the digits of a number are one continuation of the
/// level of the operator.
pub proof fn lemma_infix_number(op: char, b: nat)
    requires
        b <= i32::MAX,
        1 <= level_of(op) <= 3,
    ensures
        crate::grammar::infix(seq![' ', op, ' '] + decimal(b), level_of(op)) == Ok::<
            (Seq<char>, Ast),
            Failure,
        >(
            (
                Seq::empty(),
                Ast::MathExpression {
                    operator: seq![op],
                    operands: seq![Ast::Number { value: b as i32 }],
                },
            ),
        ),
{
    let level = level_of(op);
    let db = decimal(b);
    let nothing = Seq::<char>::empty();
    let s = seq![' ', op, ' '] + db;
    let at_operator = seq![op, ' '] + db;
    let after_operator = seq![' '] + db;
    lemma_decimal(b);
    assert(s =~= seq![' '] + at_operator);
    lemma_run_then(seq![' '], at_operator, Class::Space);
    assert(skip(s, Class::Space) == at_operator);
    lemma_level_operator(at_operator, level);
    assert(at_operator.skip(1) =~= after_operator);
    lemma_run_then(seq![' '], db, Class::Space);
    assert(skip(after_operator, Class::Space) == db);
    lemma_skip_nothing(nothing, Class::Space);
    lemma_operand(b, nothing, level);
    assert(db + nothing =~= db);
}

/// The text of two numbers around an operator is an arithmetic expression of the level of
/// the operator: the operator applied to the two numbers.
pub proof fn lemma_climb_operator(a: nat, op: char, b: nat)
    requires
        a <= i32::MAX,
        b <= i32::MAX,
        1 <= level_of(op) <= 3,
    ensures
        crate::grammar::climb(infix_text(a, op, b), level_of(op)) == Ok::<
            (Seq<char>, Ast),
            Failure,
        >((Seq::empty(), infix_tree(a, op, b))),
{
    let level = level_of(op);
    let s = infix_text(a, op, b);
    let nothing = Seq::<char>::empty();
    let tree = infix_tree(a, op, b);
    let left = Ast::Number { value: a as i32 };
    let right = Ast::Number { value: b as i32 };
    let after_left = seq![' ', op, ' '] + decimal(b);
    let continuation = Ast::MathExpression { operator: seq![op], operands: seq![right] };
    lemma_decimal(a);
    assert(s =~= decimal(a) + after_left);
    assert(after_left =~= seq![' '] + (seq![op, ' '] + decimal(b)));
    lemma_run_then(seq![' '], seq![op, ' '] + decimal(b), Class::Space);
    lemma_operand(a, after_left, level);
    lemma_infix_number(op, b);
    assert(seq![left] + seq![right] =~= seq![left, right]);
    assert(crate::grammar::fold(left, continuation) == tree);
    lemma_skip_nothing(nothing, Class::Space);
    lemma_no_continuation(nothing, level, tree);
    assert(crate::grammar::continuations(after_left, level, left) == Ok::<
        (Seq<char>, Ast),
        Failure,
    >((nothing, tree)));
}

/// The text of two numbers around an operator is an arithmetic expression: the operator
/// applied to the two numbers.
pub proof fn lemma_climb_infix(a: nat, op: char, b: nat, level: nat)
    requires
        a <= i32::MAX,
        b <= i32::MAX,
        1 <= level <= level_of(op),
    ensures
        crate::grammar::climb(infix_text(a, op, b), level) == Ok::<(Seq<char>, Ast), Failure>(
            (Seq::empty(), infix_tree(a, op, b)),
        ),
    decreases level_of(op) - level,
{
    if level < level_of(op) {
        lemma_climb_infix(a, op, b, level + 1);
        lemma_decimal(a);
        lemma_climb_whole(infix_text(a, op, b), level, infix_tree(a, op, b));
    } else {
        lemma_climb_operator(a, op, b);
    }
}

/// A failure that lets the next alternative be tried.
pub open spec fn passes(p: Parsed) -> bool {
    p matches Err(failure) && !fatal(failure)
}

/// No keyword, boolean, conditional, statement or function definition starts with a digit
/// or is empty.
pub proof fn lemma_not_a_keyword(s: Seq<char>)
    requires
        s.len() == 0 || is_digit(s[0]),
    ensures
        passes(crate::grammar::boolean(s)),
        passes(crate::grammar::if_stmt(s)),
        passes(crate::grammar::statement(s)),
        passes(crate::grammar::function_definition(s)),
{
    reveal(crate::grammar::boolean);
    reveal_strlit("true");
    reveal_strlit("false");
    reveal_strlit("if ");
    reveal_strlit("let ");
    reveal_strlit("return ");
    reveal_strlit("fn ");
    lemma_skip_nothing(s, Class::Blank);
    lemma_expect_rejects(s, "true"@);
    lemma_expect_rejects(s, "false"@);
    lemma_expect_rejects(s, "if "@);
    lemma_expect_rejects(s, "let "@);
    lemma_expect_rejects(s, "return "@);
    lemma_expect_rejects(s, "fn "@);
    assert(passes(crate::grammar::variable_define(s)));
    assert(passes(crate::grammar::function_return(s)));
    assert(passes(crate::grammar::statement_form(s)));
}

/// An arithmetic expression that starts with a digit is an expression, and an item of a
/// program.
pub proof fn lemma_item_arithmetic(s: Seq<char>, rest: Seq<char>, tree: Ast)
    requires
        s.len() > 0,
        is_digit(s[0]),
        crate::grammar::climb(s, 1) == Ok::<(Seq<char>, Ast), Failure>((rest, tree)),
    ensures
        crate::grammar::expression(s) == Ok::<(Seq<char>, Ast), Failure>(
            (rest, Ast::Expression { inner: Box::new(tree) }),
        ),
        crate::grammar::item(crate::grammar::Repeated::ProgramItem, s) == crate::grammar::expression(
            s,
        ),
{
    lemma_not_a_keyword(s);
    assert(crate::grammar::expression_form(s) == Ok::<(Seq<char>, Ast), Failure>((rest, tree)));
}

/// Nothing is no operand of arithmetic.
pub proof fn lemma_no_operand()
    ensures
        passes(crate::grammar::l4(Seq::empty())),
        passes(crate::grammar::function_call(Seq::empty())),
        passes(crate::grammar::number(Seq::empty())),
        passes(crate::grammar::identifier(Seq::empty())),
{
    let nothing = Seq::<char>::empty();
    reveal(crate::grammar::number);
    reveal(crate::grammar::integer);
    reveal(crate::grammar::integer0);
    reveal(crate::grammar::integer1);
    reveal(crate::grammar::binary);
    reveal(crate::grammar::octal);
    reveal(crate::grammar::prefixed);
    reveal_strlit("0");
    reveal_strlit("(");
    lemma_expect_rejects(nothing, "0"@);
    lemma_expect_rejects(nothing, "("@);
    lemma_skip_nothing(nothing, Class::Space);
    lemma_skip_nothing(nothing, Class::Alphanumeric);
    assert(passes(crate::grammar::parenthetical_expression(nothing)));
}

/// Nothing is no arithmetic expression.
pub proof fn lemma_no_arithmetic(level: nat)
    requires
        1 <= level <= 3,
    ensures
        passes(crate::grammar::climb(Seq::empty(), level)),
    decreases 3 - level,
{
    let nothing = Seq::<char>::empty();
    if level < 3 {
        lemma_no_arithmetic(level + 1);
    } else {
        lemma_no_operand();
    }
    assert(passes(crate::grammar::operand(nothing, level)));
}

/// Nothing is no item of a program: a program ends where its text ends.
pub proof fn lemma_no_item()
    ensures
        crate::grammar::many0(crate::grammar::Repeated::ProgramItem, Seq::empty()) == Ok::<
            (Seq<char>, Seq<Ast>),
            Failure,
        >((Seq::empty(), Seq::empty())),
{
    let nothing = Seq::<char>::empty();
    lemma_not_a_keyword(nothing);
    lemma_no_operand();
    lemma_no_arithmetic(1);
    reveal(crate::grammar::string);
    reveal_strlit("\"");
    lemma_expect_rejects(nothing, "\""@);
    assert(passes(crate::grammar::string(nothing)));
    assert(passes(crate::grammar::expression_form(nothing)));
    assert(passes(crate::grammar::expression(nothing)));
    assert(passes(crate::grammar::item(crate::grammar::Repeated::ProgramItem, nothing)));
}

/// The program that is one expression with the tree `tree`.
pub open spec fn program_of(tree: Ast) -> Ast {
    Ast::Program { children: seq![Ast::Expression { inner: Box::new(tree) }] }
}

/// The text of two numbers around an operator is a program of one expression: the operator
/// applied to the two numbers.
pub proof fn lemma_program_infix(a: nat, op: char, b: nat)
    requires
        a <= i32::MAX,
        b <= i32::MAX,
        1 <= level_of(op) <= 3,
    ensures
        crate::grammar::program(infix_text(a, op, b)) == Ok::<(Seq<char>, Ast), Failure>(
            (Seq::empty(), program_of(infix_tree(a, op, b))),
        ),
{
    let s = infix_text(a, op, b);
    let tree = infix_tree(a, op, b);
    let first = Ast::Expression { inner: Box::new(tree) };
    lemma_decimal(a);
    assert(s[0] == decimal(a)[0]);
    lemma_climb_infix(a, op, b, 1);
    lemma_item_arithmetic(s, Seq::empty(), tree);
    lemma_no_item();
    assert(seq![first] + Seq::<Ast>::empty() =~= seq![first]);
    assert(crate::grammar::many1(crate::grammar::Repeated::ProgramItem, s) == Ok::<
        (Seq<char>, Seq<Ast>),
        Failure,
    >((Seq::empty(), seq![first])));
}

/// A program of one arithmetic expression on two numbers evaluates to what the operator
/// gives of the two numbers.
pub proof fn lemma_run_infix(a: nat, op: char, b: nat)
    requires
        a <= i32::MAX,
        b <= i32::MAX,
    ensures
        run_program(program_of(infix_tree(a, op, b))) == crate::semantics::arithmetic(
            seq![op],
            Val::Number(a as i32),
            Val::Number(b as i32),
        ),
{
    let depth = crate::MAX_CALL_DEPTH as nat;
    let tree = infix_tree(a, op, b);
    let wrapped = Ast::Expression { inner: Box::new(tree) };
    let returned = Ast::FunctionReturn { expression: Box::new(wrapped) };
    let program = program_of(tree);
    let children = seq![wrapped];
    let start = crate::semantics::initial_state();
    let main = crate::semantics::Function { parameters: Seq::empty(), body: seq![returned] };
    let registered = crate::semantics::define(start, crate::semantics::entry_point(), main);
    let entered = crate::semantics::push_frame(registered, Map::empty());
    let inner = (depth - 1) as nat;
    let outcome = crate::semantics::arithmetic(
        seq![op],
        Val::Number(a as i32),
        Val::Number(b as i32),
    );
    // The registration pass makes the expression the body of the entry point.
    assert(crate::semantics::register_all(children, 0, start) == start);
    assert(crate::semantics::register_all(children, 1, start) == registered);
    assert(crate::semantics::eval(program, start, depth).state == registered);
    // The body of the entry point evaluates to the outcome of the operator.
    assert(crate::semantics::eval(Ast::Number { value: a as i32 }, entered, inner)
        == crate::semantics::done(entered, Ok(Val::Number(a as i32))));
    assert(crate::semantics::eval(Ast::Number { value: b as i32 }, entered, inner)
        == crate::semantics::done(entered, Ok(Val::Number(b as i32))));
    assert(crate::semantics::eval(tree, entered, inner) == crate::semantics::done(
        entered,
        outcome,
    ));
    assert(crate::semantics::eval(wrapped, entered, inner) == crate::semantics::done(
        entered,
        outcome,
    ));
    assert(crate::semantics::eval(returned, entered, inner) == crate::semantics::done(
        entered,
        outcome,
    ));
    assert(crate::semantics::run_body(main.body, 1, entered, inner) == crate::semantics::done(
        entered,
        outcome,
    ));
    // The call of the entry point binds nothing and returns that outcome.
    assert(crate::semantics::bind_arguments(main.parameters, Seq::empty(), 0, registered, depth)
        == crate::semantics::Bound { state: registered, result: Ok(Map::empty()) });
    assert(registered.functions.contains_key(crate::semantics::entry_point()));
    assert(registered.functions[crate::semantics::entry_point()] == main);
    assert(crate::semantics::eval(crate::semantics::entry_call(), registered, depth).result
        == outcome);
}

/// Parsing and evaluating two numbers around an arithmetic operator.
///
/// For all numbers `a` and `b` from 0 to the largest 32-bit signed integer, written in
/// decimal with one space on each side of the operator, the text is a program, and the
/// program evaluates to: the sum for `+`, where it fits in 32 bits, and an overflow where
/// it does not; the difference for `-`; the product for `*`, where it fits, and an
/// overflow where it does not; and for `/` the quotient rounded towards zero, or a
/// division by zero where `b` is 0.
pub proof fn lemma_arithmetic_on_two_numbers(a: nat, op: char, b: nat)
    requires
        a <= i32::MAX,
        b <= i32::MAX,
        op == '+' || op == '-' || op == '*' || op == '/',
    ensures
        crate::grammar::program(infix_text(a, op, b)) == Ok::<(Seq<char>, Ast), Failure>(
            (Seq::empty(), program_of(infix_tree(a, op, b))),
        ),
        op == '+' ==> run_program(program_of(infix_tree(a, op, b))) == (if a + b <= i32::MAX {
            Ok::<Val, RuntimeError>(Val::Number((a + b) as i32))
        } else {
            Err(RuntimeError::Overflow)
        }),
        op == '-' ==> run_program(program_of(infix_tree(a, op, b))) == Ok::<Val, RuntimeError>(
            Val::Number((a - b) as i32),
        ),
        op == '*' ==> run_program(program_of(infix_tree(a, op, b))) == (if a * b <= i32::MAX {
            Ok::<Val, RuntimeError>(Val::Number((a * b) as i32))
        } else {
            Err(RuntimeError::Overflow)
        }),
        op == '/' ==> run_program(program_of(infix_tree(a, op, b))) == (if b == 0 {
            Err::<Val, RuntimeError>(RuntimeError::DivisionByZero)
        } else {
            Ok(Val::Number((a / b) as i32))
        }),
{
    lemma_program_infix(a, op, b);
    lemma_run_infix(a, op, b);
    assert(seq![op].len() == 1 && seq![op][0] == op);
    if op == '*' {
        assert(a * b >= 0) by (nonlinear_arith)
            requires
                a >= 0,
                b >= 0,
        ;
    }
    if op == '/' && b != 0 {
        assert(0 <= (a as int) / (b as int) <= a) by (nonlinear_arith)
            requires
                a >= 0,
                b > 0,
        ;
    }
}

/// Evaluation is a function of the tree: two runs on trees with one value, each by a fresh
/// evaluator, end in one result, whatever was evaluated before or between them.
pub proof fn lemma_run_is_deterministic(
    first: crate::ast::Node,
    second: crate::ast::Node,
    first_result: Result<crate::value::Value, RuntimeError>,
    second_result: Result<crate::value::Value, RuntimeError>,
)
    requires
        first@ == second@,
        crate::value::result_view(first_result) == run_program(first@),
        crate::value::result_view(second_result) == run_program(second@),
    ensures
        crate::value::result_view(first_result) == crate::value::result_view(second_result),
{
}

/// The registration pass leaves the frames as they are.
pub proof fn lemma_register_keeps_frames(
    children: Seq<Ast>,
    count: nat,
    st: crate::semantics::State,
)
    ensures
        crate::semantics::register_all(children, count, st).stack == st.stack,
    decreases count,
{
    if count > 0 && count <= children.len() {
        lemma_register_keeps_frames(children, (count - 1) as nat, st);
    }
}

/// No evaluation leaks a frame: whatever a node evaluates to, a value or an error, as many
/// frames are left as there were.
pub proof fn lemma_eval_keeps_frames(node: Ast, st: crate::semantics::State, depth: nat)
    ensures
        crate::semantics::eval(node, st, depth).state.stack.len() == st.stack.len(),
    decreases depth, node, 0nat,
{
    match node {
        Ast::Program { children } => {
            lemma_register_keeps_frames(children, children.len(), st);
        },
        Ast::FunctionReturn { expression } => {
            lemma_eval_keeps_frames(*expression, st, depth);
        },
        Ast::Statement { inner } => {
            lemma_eval_keeps_frames(*inner, st, depth);
        },
        Ast::Expression { inner } => {
            lemma_eval_keeps_frames(*inner, st, depth);
        },
        Ast::VariableDefine { name, expression } => {
            lemma_eval_keeps_frames(*expression, st, depth);
        },
        Ast::MathExpression { operator, operands } => {
            if operands.len() >= 2 {
                lemma_eval_keeps_frames(operands[0], st, depth);
                let left = crate::semantics::eval(operands[0], st, depth);
                lemma_eval_keeps_frames(operands[1], left.state, depth);
            }
        },
        Ast::TestEquality { lhs, rhs } => {
            lemma_eval_keeps_frames(*lhs, st, depth);
            let left = crate::semantics::eval(*lhs, st, depth);
            lemma_eval_keeps_frames(*rhs, left.state, depth);
        },
        Ast::If { condition, then_branch } => {
            if condition.len() % 2 == 1 {
                lemma_eval_keeps_frames(condition[0], st, depth);
                let tested = crate::semantics::eval(condition[0], st, depth);
                lemma_eval_keeps_frames(*then_branch, tested.state, depth);
            }
        },
        Ast::FunctionCall { name, arguments } => {
            if st.functions.contains_key(name) && depth > 0 {
                let function = st.functions[name];
                let count = arguments.len();
                lemma_arguments_keep_frames(function.parameters, arguments, count, st, depth);
                let bound = crate::semantics::bind_arguments(
                    function.parameters,
                    arguments,
                    count,
                    st,
                    depth,
                );
                match bound.result {
                    Ok(frame) => {
                        lemma_body_keeps_frames(
                            function.body,
                            function.body.len(),
                            crate::semantics::push_frame(bound.state, frame),
                            (depth - 1) as nat,
                        );
                    },
                    Err(_) => {},
                }
            }
        },
        _ => {},
    }
}

/// The arguments of a call are evaluated without leaking a frame.
pub proof fn lemma_arguments_keep_frames(
    parameters: Seq<Ast>,
    arguments: Seq<Ast>,
    count: nat,
    st: crate::semantics::State,
    depth: nat,
)
    ensures
        crate::semantics::bind_arguments(parameters, arguments, count, st, depth).state.stack.len()
            == st.stack.len(),
    decreases depth, arguments, count,
{
    if !(count == 0 || count > arguments.len()) {
        lemma_arguments_keep_frames(parameters, arguments, (count - 1) as nat, st, depth);
        let earlier = crate::semantics::bind_arguments(
            parameters,
            arguments,
            (count - 1) as nat,
            st,
            depth,
        );
        lemma_eval_keeps_frames(arguments[count - 1], earlier.state, depth);
    }
}

/// The statements of a body are executed without leaking a frame.
pub proof fn lemma_body_keeps_frames(
    body: Seq<Ast>,
    count: nat,
    st: crate::semantics::State,
    depth: nat,
)
    ensures
        crate::semantics::run_body(body, count, st, depth).state.stack.len() == st.stack.len(),
    decreases depth, body, count,
{
    if count == 0 || count > body.len() {
    } else if count == 1 {
        lemma_eval_keeps_frames(body[0], st, depth);
    } else {
        lemma_body_keeps_frames(body, (count - 1) as nat, st, depth);
        let earlier = crate::semantics::run_body(body, (count - 1) as nat, st, depth);
        lemma_eval_keeps_frames(body[count - 1], earlier.state, depth);
    }
}

} // verus!
