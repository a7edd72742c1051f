use crate::integer::Integer;
use crate::rational::{lowest_terms, Rational};
use crate::token::{
    push_token,
    bracket_of, chars_of, copy_chars, decimal, lower_of, lowercase, operator_of, same_chars, views,
    MathFunction, Number, Operator, Token, TokenView, Value,
};
use vstd::arithmetic::power::pow;
use vstd::prelude::*;

verus! {

pub open spec fn is_digit(c: char) -> bool {
    '0' <= c <= '9'
}

pub open spec fn is_ident_start(c: char) -> bool {
    ('a' <= c <= 'z') || ('A' <= c <= 'Z') || c == '_'
}

/// The characters that stand alone as a token.
pub open spec fn is_symbol(c: char) -> bool {
    c == '+' || c == '-' || c == '*' || c == '/' || c == '^' || c == '!' || c == '=' || c == '('
        || c == ')' || c == '[' || c == ']' || c == ',' || c == ';'
}

/// Digits, or the characters that continue a name.
pub enum CharClass {
    Digit,
    NameChar,
}

pub open spec fn in_class(c: char, cls: CharClass) -> bool {
    match cls {
        CharClass::Digit => is_digit(c),
        CharClass::NameChar => is_ident_start(c) || is_digit(c),
    }
}

/// The length of the leading run of characters of a class.
pub open spec fn run_len(s: Seq<char>, cls: CharClass) -> nat
    decreases s.len(),
{
    if s.len() > 0 && in_class(s[0], cls) {
        1 + run_len(s.drop_first(), cls)
    } else {
        0
    }
}

/// The length of the token that starts the text, by maximal munch: a number
/// (`d+`, `d+.d*` or `.d+`), one symbol, or a name; zero for a character that
/// starts no token.
pub open spec fn chunk_len(s: Seq<char>) -> nat {
    if s.len() == 0 {
        0
    } else if is_digit(s[0]) {
        let k = run_len(s, CharClass::Digit);
        if k < s.len() && s[k as int] == '.' {
            k + 1 + run_len(s.skip(k + 1int), CharClass::Digit)
        } else {
            k
        }
    } else if s[0] == '.' && s.len() > 1 && is_digit(s[1]) {
        1 + run_len(s.skip(1), CharClass::Digit)
    } else if is_symbol(s[0]) {
        1
    } else if is_ident_start(s[0]) {
        1 + run_len(s.skip(1), CharClass::NameChar)
    } else {
        0
    }
}

/// The value of a string of decimal digits.
pub open spec fn digits_value(w: Seq<char>) -> int
    decreases w.len(),
{
    if w.len() == 0 {
        0
    } else {
        digits_value(w.drop_last()) * 10 + (w.last() as u32 - '0' as u32)
    }
}

/// The math function a lower-case name stands for.
pub open spec fn function_of(w: Seq<char>) -> Option<MathFunction> {
    if w == seq!['s', 'i', 'n'] {
        Some(MathFunction::Sin)
    } else if w == seq!['c', 'o', 's'] {
        Some(MathFunction::Cos)
    } else if w == seq!['t', 'a', 'n'] {
        Some(MathFunction::Tan)
    } else if w == seq!['a', 's', 'i', 'n'] {
        Some(MathFunction::ASin)
    } else if w == seq!['a', 'c', 'o', 's'] {
        Some(MathFunction::ACos)
    } else if w == seq!['a', 't', 'a', 'n'] {
        Some(MathFunction::ATan)
    } else if w == seq!['l', 'n'] {
        Some(MathFunction::Ln)
    } else if w == seq!['l', 'o', 'g'] {
        Some(MathFunction::Log)
    } else if w == seq!['a', 'b', 's'] {
        Some(MathFunction::Abs)
    } else if w == seq!['s', 'q', 'r', 't'] {
        Some(MathFunction::Sqrt)
    } else if w == seq!['m', 'a', 'x'] {
        Some(MathFunction::Max)
    } else if w == seq!['m', 'i', 'n'] {
        Some(MathFunction::Min)
    } else if w == seq!['f', 'l', 'o', 'o', 'r'] {
        Some(MathFunction::Floor)
    } else if w == seq!['c', 'e', 'i', 'l'] {
        Some(MathFunction::Ceil)
    } else if w == seq!['r', 'o', 'u', 'n', 'd'] {
        Some(MathFunction::Round)
    } else if w == seq!['e', 'x', 'p'] {
        Some(MathFunction::Exp)
    } else if w == seq!['p', 'd', 'f'] {
        Some(MathFunction::Pdf)
    } else if w == seq!['c', 'd', 'f'] {
        Some(MathFunction::Cdf)
    } else {
        None
    }
}

/// `n / d` rounded to the nearest integer, a tie going to the even one.
pub open spec fn round_half_even(n: int, d: int) -> int {
    let q = n / d;
    let r = n % d;
    if 2 * r < d {
        q
    } else if 2 * r > d {
        q + 1
    } else if q % 2 == 0 {
        q
    } else {
        q + 1
    }
}

/// Whether `t` is the least shift with `w < b * 2^t`.
pub open spec fn least_shift(w: int, b: int, t: nat) -> bool {
    w < b * pow(2, t) && (t == 0 || b * pow(2, (t - 1) as nat) <= w)
}

/// The double nearest to `n / 10^k`, for `n >= 0`, as a fraction; `None` where it
/// is beyond the largest double. A double is `m * 2^(t - 1074)` with `m < 2^53`:
/// `t` is the least shift that brings `n / 10^k` below `2^53` units of
/// `2^(t - 1074)` (so subnormals share the unit `2^-1074`), and `m` is the value in
/// those units rounded to nearest, ties to even.
pub open spec fn nearest_double(n: int, k: nat) -> Option<(int, int)> {
    let w = n * pow(2, 1074);
    let d = pow(10, k);
    let t = choose|t: nat| #[trigger] least_shift(w, pow(2, 53) * d, t);
    let m = round_half_even(w, d * pow(2, t));
    if m * pow(2, t) >= pow(2, 2098) {
        None
    } else {
        Some(lowest_terms(m * pow(2, t), pow(2, 1074)))
    }
}

/// The operators that a token may start with.
pub open spec fn is_operator_char(c: char) -> bool {
    c == '+' || c == '-' || c == '*' || c == '/' || c == '^' || c == '!' || c == '='
}

/// The token that a chunk of text stands for: an operator, bracket or separator
/// by its first character; an integer literal; a decimal literal; a
/// function name in any case; otherwise a variable name as written. A decimal
/// literal stands for the double nearest to it; one beyond every double is read as a name.
pub open spec fn classify(w: Seq<char>) -> Option<TokenView> {
    if w.len() == 0 {
        None
    } else if is_operator_char(w[0]) {
        Some(TokenView::Operator(operator_of(w[0])->Some_0))
    } else if bracket_of(w[0]) is Some {
        Some(TokenView::Bracket(bracket_of(w[0])->Some_0))
    } else if w[0] == ',' {
        Some(TokenView::Comma)
    } else if w[0] == ';' {
        Some(TokenView::SemiColon)
    } else {
        let k = run_len(w, CharClass::Digit);
        if k == w.len() {
            Some(TokenView::Operand(Value::Natural(digits_value(w))))
        } else if w.len() >= 2 && w[k as int] == '.' && run_len(w.skip(k + 1int), CharClass::Digit)
            == w.len() - k - 1 && nearest_double(
            digits_value(w.take(k as int) + w.skip(k + 1int)),
            (w.len() - k - 1) as nat,
        ) is Some {
            let frac = (w.len() - k - 1) as nat;
            Some(
                TokenView::Operand(
                    decimal(nearest_double(digits_value(w.take(k as int) + w.skip(k + 1int)), frac)->Some_0),
                ),
            )
        } else if function_of(lower_of(w)) is Some {
            Some(TokenView::Function(function_of(lower_of(w))->Some_0))
        } else {
            Some(TokenView::Variable(w))
        }
    }
}

/// The tokens of a text: chunk by chunk, skipping whitespace and any character
/// that starts no token.
pub open spec fn lex(s: Seq<char>) -> Seq<TokenView>
    decreases s.len(),
{
    if s.len() == 0 {
        Seq::empty()
    } else {
        let n = chunk_len(s);
        if n == 0 || n > s.len() {
            lex(s.skip(1))
        } else {
            match classify(s.take(n as int)) {
                Some(t) => seq![t] + lex(s.skip(n as int)),
                None => lex(s.skip(n as int)),
            }
        }
    }
}

/// Unary operators, from position `i`: where an operand is expected, `+` is dropped
/// and `-` becomes the negation. An operand, a variable or `!` is followed by an
/// operator in binary position; any other operator by an operand.
pub open spec fn unary_from(toks: Seq<TokenView>, i: int, expect_operand: bool) -> Seq<TokenView>
    decreases toks.len() - i,
{
    if i < 0 || i >= toks.len() {
        Seq::empty()
    } else {
        let t = toks[i];
        match t {
            TokenView::Operand(_) | TokenView::Variable(_) | TokenView::Operator(Operator::Fac) => seq![t]
                + unary_from(toks, i + 1, false),
            TokenView::Operator(o) => if expect_operand && o == Operator::Add {
                unary_from(toks, i + 1, expect_operand)
            } else if expect_operand && o == Operator::Sub {
                seq![TokenView::Operator(Operator::Une)] + unary_from(toks, i + 1, expect_operand)
            } else {
                seq![t] + unary_from(toks, i + 1, true)
            },
            _ => seq![t] + unary_from(toks, i + 1, expect_operand),
        }
    }
}

pub open spec fn normalize_unary(toks: Seq<TokenView>) -> Seq<TokenView> {
    unary_from(toks, 0, true)
}

/// The infix tokens of an expression.
pub open spec fn parsed(s: Seq<char>) -> Seq<TokenView> {
    normalize_unary(lex(s))
}

fn char_in_class(c: char, cls: &CharClass) -> (r: bool)
    ensures
        r == in_class(c, *cls),
{
    let digit = '0' <= c && c <= '9';
    match cls {
        CharClass::Digit => digit,
        CharClass::NameChar => digit || ('a' <= c && c <= 'z') || ('A' <= c && c <= 'Z') || c == '_',
    }
}

/// The end of the run of characters of a class that starts at `start`.
fn run_end(s: &Vec<char>, start: usize, cls: CharClass) -> (r: usize)
    requires
        start <= s.len(),
    ensures
        start <= r <= s.len(),
        r - start == run_len(s@.skip(start as int), cls),
        forall|j: int| start <= j < r ==> in_class(s@[j], cls),
{
    let mut j: usize = start;
    while j < s.len() && char_in_class(s[j], &cls)
        invariant
            start <= j <= s.len(),
            forall|i: int| start <= i < j ==> in_class(s@[i], cls),
            run_len(s@.skip(start as int), cls) == (j - start) + run_len(s@.skip(j as int), cls),
        decreases s.len() - j,
    {
        assert(s@.skip(j as int).drop_first() =~= s@.skip(j + 1));
        j = j + 1;
    }
    if j < s.len() {
        assert(s@.skip(j as int)[0] == s@[j as int]);
    }
    j
}

/// The end of the token that starts at `p`; `p` itself where no token starts.
fn chunk_end(s: &Vec<char>, p: usize) -> (r: usize)
    requires
        p < s.len(),
    ensures
        p <= r <= s.len(),
        r - p == chunk_len(s@.skip(p as int)),
{
    let ghost x = s@.skip(p as int);
    assert(x[0] == s@[p as int]);
    let c = s[p];
    if '0' <= c && c <= '9' {
        let k = run_end(s, p, CharClass::Digit);
        if k < s.len() && s[k] == '.' {
            assert(x[k - p] == s@[k as int]);
            assert(x.skip(k - p + 1) =~= s@.skip(k + 1));
            run_end(s, k + 1, CharClass::Digit)
        } else {
            k
        }
    } else if c == '.' && p + 1 < s.len() && '0' <= s[p + 1] && s[p + 1] <= '9' {
        assert(x[1] == s@[p + 1]);
        assert(x.skip(1) =~= s@.skip(p + 1));
        run_end(s, p + 1, CharClass::Digit)
    } else if c == '+' || c == '-' || c == '*' || c == '/' || c == '^' || c == '!' || c == '=' || c
        == '(' || c == ')' || c == '[' || c == ']' || c == ',' || c == ';' {
        p + 1
    } else if ('a' <= c && c <= 'z') || ('A' <= c && c <= 'Z') || c == '_' {
        assert(x.skip(1) =~= s@.skip(p + 1));
        run_end(s, p + 1, CharClass::NameChar)
    } else {
        p
    }
}

/// The characters of `s` from `start` to `end`.
fn slice_chars(s: &Vec<char>, start: usize, end: usize) -> (r: Vec<char>)
    requires
        start <= end <= s.len(),
    ensures
        r@ == s@.subrange(start as int, end as int),
{
    let mut r: Vec<char> = Vec::new();
    let mut j: usize = start;
    while j < end
        invariant
            start <= j <= end <= s.len(),
            r@ == s@.subrange(start as int, j as int),
        decreases end - j,
    {
        r.push(s[j]);
        j = j + 1;
        assert(r@ =~= s@.subrange(start as int, j as int));
    }
    r
}

/// The value of a string of decimal digits.
fn digits_to_integer(w: &Vec<char>) -> (r: Integer)
    requires
        forall|j: int| 0 <= j < w.len() ==> is_digit(w@[j]),
    ensures
        r@ == digits_value(w@),
{
    let ten = Integer::from_i64(10);
    let mut acc = Integer::from_i64(0);
    let mut i: usize = 0;
    assert(w@.take(0) =~= Seq::<char>::empty());
    while i < w.len()
        invariant
            i <= w.len(),
            ten@ == 10,
            forall|j: int| 0 <= j < w.len() ==> is_digit(w@[j]),
            acc@ == digits_value(w@.take(i as int)),
        decreases w.len() - i,
    {
        let d = (w[i] as u32 - '0' as u32) as i64;
        acc = acc.mul(&ten).add(&Integer::from_i64(d));
        assert(w@.take(i + 1).drop_last() =~= w@.take(i as int));
        assert(w@.take(i + 1).last() == w@[i as int]);
        i = i + 1;
    }
    assert(w@.take(i as int) =~= w@);
    acc
}

/// Ten to the power `k`.
fn power_of_ten(k: usize) -> (r: Integer)
    ensures
        r@ == pow(10, k as nat),
{
    let ten = Integer::from_i64(10);
    let mut acc = Integer::from_i64(1);
    let mut i: usize = 0;
    proof {
        reveal(pow);
    }
    while i < k
        invariant
            i <= k,
            ten@ == 10,
            acc@ == pow(10, i as nat),
        decreases k - i,
    {
        let ghost prev = acc@;
        acc = acc.mul(&ten);
        proof {
            reveal(pow);
            assert(pow(10, (i + 1) as nat) == 10 * pow(10, i as nat));
            vstd::arithmetic::mul::lemma_mul_is_commutative(prev, 10);
        }
        i = i + 1;
    }
    acc
}

/// The math function that a lower-case name stands for.
fn function_named(w: &Vec<char>) -> (r: Option<MathFunction>)
    ensures
        r == function_of(w@),
{
    if same_chars(w, &vec!['s', 'i', 'n']) {
        Some(MathFunction::Sin)
    } else if same_chars(w, &vec!['c', 'o', 's']) {
        Some(MathFunction::Cos)
    } else if same_chars(w, &vec!['t', 'a', 'n']) {
        Some(MathFunction::Tan)
    } else if same_chars(w, &vec!['a', 's', 'i', 'n']) {
        Some(MathFunction::ASin)
    } else if same_chars(w, &vec!['a', 'c', 'o', 's']) {
        Some(MathFunction::ACos)
    } else if same_chars(w, &vec!['a', 't', 'a', 'n']) {
        Some(MathFunction::ATan)
    } else if same_chars(w, &vec!['l', 'n']) {
        Some(MathFunction::Ln)
    } else if same_chars(w, &vec!['l', 'o', 'g']) {
        Some(MathFunction::Log)
    } else if same_chars(w, &vec!['a', 'b', 's']) {
        Some(MathFunction::Abs)
    } else if same_chars(w, &vec!['s', 'q', 'r', 't']) {
        Some(MathFunction::Sqrt)
    } else if same_chars(w, &vec!['m', 'a', 'x']) {
        Some(MathFunction::Max)
    } else if same_chars(w, &vec!['m', 'i', 'n']) {
        Some(MathFunction::Min)
    } else if same_chars(w, &vec!['f', 'l', 'o', 'o', 'r']) {
        Some(MathFunction::Floor)
    } else if same_chars(w, &vec!['c', 'e', 'i', 'l']) {
        Some(MathFunction::Ceil)
    } else if same_chars(w, &vec!['r', 'o', 'u', 'n', 'd']) {
        Some(MathFunction::Round)
    } else if same_chars(w, &vec!['e', 'x', 'p']) {
        Some(MathFunction::Exp)
    } else if same_chars(w, &vec!['p', 'd', 'f']) {
        Some(MathFunction::Pdf)
    } else if same_chars(w, &vec!['c', 'd', 'f']) {
        Some(MathFunction::Cdf)
    } else {
        None
    }
}

/// The characters of `w` without the one at `k`.
fn without_index(w: &Vec<char>, k: usize) -> (r: Vec<char>)
    requires
        k < w.len(),
    ensures
        r@ == w@.take(k as int) + w@.skip(k + 1int),
{
    let mut r = slice_chars(w, 0, k);
    let mut j: usize = k + 1;
    while j < w.len()
        invariant
            k < j <= w.len(),
            r@ == w@.take(k as int) + w@.subrange(k + 1int, j as int),
        decreases w.len() - j,
    {
        r.push(w[j]);
        j = j + 1;
        assert(r@ =~= w@.take(k as int) + w@.subrange(k + 1int, j as int));
    }
    assert(w@.subrange(k + 1int, j as int) =~= w@.skip(k + 1int));
    r
}

/// The token that a chunk of text stands for.
fn classify_chars(w: &Vec<char>) -> (r: Option<Token>)
    ensures
        r matches Some(t) ==> classify(w@) == Some(t@),
        r is None <==> classify(w@) is None,
{
    if w.len() == 0 {
        return None;
    }
    let c = w[0];
    if c == '+' || c == '-' || c == '*' || c == '/' || c == '^' || c == '!' || c == '=' {
        return Token::from_operator(c);
    }
    if c == '(' || c == '[' || c == ')' || c == ']' {
        return Token::from_bracket(c);
    }
    if c == ',' {
        return Some(Token::Comma);
    }
    if c == ';' {
        return Some(Token::SemiColon);
    }
    assert(w@.skip(0) =~= w@);
    let k = run_end(w, 0, CharClass::Digit);
    if k == w.len() {
        return Some(Token::Operand(Number::NaturalNumber(digits_to_integer(w))));
    }
    if w.len() >= 2 && w[k] == '.' {
        let e = run_end(w, k + 1, CharClass::Digit);
        if e == w.len() {
            let digits = without_index(w, k);
            assert forall|j: int| 0 <= j < digits.len() implies is_digit(digits@[j]) by {
                if j < k {
                    assert(digits@[j] == w@[j]);
                } else {
                    assert(digits@[j] == w@[j + 1]);
                }
            }
            let n = digits_to_integer(&digits);
            proof {
                lemma_digits_value_nonnegative(digits@);
            }
            if let Some(q) = nearest_double_exec(&n, w.len() - k - 1) {
                return Some(Token::Operand(Number::DecimalNumber(q)));
            }
        }
    }
    match function_named(&lowercase(w)) {
        Some(f) => Some(Token::Function(f)),
        None => Some(Token::Variable(copy_chars(w))),
    }
}


/// The tokens of a text.
fn lex_chars(s: &Vec<char>) -> (r: Vec<Token>)
    ensures
        views(r@) == lex(s@),
{
    let mut out: Vec<Token> = Vec::new();
    let mut p: usize = 0;
    assert(s@.skip(0) =~= s@);
    assert(views(out@) =~= Seq::empty());
    while p < s.len()
        invariant
            p <= s.len(),
            lex(s@) == views(out@) + lex(s@.skip(p as int)),
        decreases s.len() - p,
    {
        let ghost x = s@.skip(p as int);
        let e = chunk_end(s, p);
        if e == p {
            assert(x.skip(1) =~= s@.skip(p + 1));
            p = p + 1;
        } else {
            let w = slice_chars(s, p, e);
            assert(x.take(e - p) =~= w@);
            assert(x.skip(e - p) =~= s@.skip(e as int));
            let ghost before = views(out@);
            match classify_chars(&w) {
                Some(t) => {
                    push_token(&mut out, t);
                    assert(views(out@) + lex(s@.skip(e as int)) =~= before + (seq![t@] + lex(
                        s@.skip(e as int),
                    )));
                },
                None => {},
            }
            p = e;
        }
    }
    assert(s@.skip(p as int) =~= Seq::<char>::empty());
    assert(views(out@) + Seq::<TokenView>::empty() =~= views(out@));
    out
}

/// The lexer.
#[derive(Debug)]
pub struct Parser;

impl Parser {
    /// Splits an expression into tokens and marks its unary operators.
    pub fn parse(expr: &str) -> (r: Vec<Token>)
        ensures
            views(r@) == parsed(expr@),
    {
        let tokens = lex_chars(&chars_of(expr));
        Parser::mod_unary_operators(&tokens)
    }

    /// Drops each unary `+` and turns each unary `-` into the negation operator.
    pub fn mod_unary_operators(v: &Vec<Token>) -> (r: Vec<Token>)
        ensures
            views(r@) == normalize_unary(views(v@)),
    {
        let ghost toks = views(v@);
        let mut out: Vec<Token> = Vec::new();
        let mut expect_operand_next = true;
        let mut i: usize = 0;
        assert(views(out@) =~= Seq::empty());
        while i < v.len()
            invariant
                i <= v@.len(),
                toks == views(v@),
                normalize_unary(toks) == views(out@) + unary_from(toks, i as int, expect_operand_next),
            decreases v@.len() - i,
        {
            let t = &v[i];
            let ghost before = views(out@);
            let ghost rest = unary_from(toks, i + 1, expect_operand_next);
            assert(toks[i as int] == t@);
            match t {
                Token::Operand(_) | Token::Variable(_) | Token::Operator(Operator::Fac) => {
                    push_token(&mut out, t.copy());
                    expect_operand_next = false;
                    assert(views(out@) + unary_from(toks, i + 1, false) =~= before + (seq![t@]
                        + unary_from(toks, i + 1, false)));
                },
                Token::Operator(o) => {
                    if expect_operand_next && *o == Operator::Add {
                    } else if expect_operand_next && *o == Operator::Sub {
                        push_token(&mut out, Token::Operator(Operator::Une));
                        assert(views(out@) + rest =~= before + (seq![TokenView::Operator(Operator::Une)] + rest));
                    } else {
                        push_token(&mut out, t.copy());
                        expect_operand_next = true;
                        assert(views(out@) + unary_from(toks, i + 1, true) =~= before + (seq![t@]
                            + unary_from(toks, i + 1, true)));
                    }
                },
                _ => {
                    push_token(&mut out, t.copy());
                    assert(views(out@) + rest =~= before + (seq![t@] + rest));
                },
            }
            i = i + 1;
        }
        assert(views(out@) + Seq::<TokenView>::empty() =~= views(out@));
        out
    }
}

impl Token {
    /// The token that a chunk of text stands for: `None` only for empty text.
    pub fn tokenize(t: &str) -> (r: Option<Token>)
        ensures
            r matches Some(x) ==> classify(t@) == Some(x@),
            r is None <==> t@.len() == 0,
    {
        classify_chars(&chars_of(t))
    }

    /// The math function that a name stands for, in any case.
    pub fn get_some(fun: &str) -> (r: Option<MathFunction>)
        ensures
            r == function_of(lower_of(fun@)),
    {
        function_named(&lowercase(&chars_of(fun)))
    }
}

proof fn lemma_digits_value_nonnegative(w: Seq<char>)
    requires
        forall|j: int| 0 <= j < w.len() ==> is_digit(w[j]),
    ensures
        digits_value(w) >= 0,
    decreases w.len(),
{
    if w.len() > 0 {
        let v = w.drop_last();
        assert forall|j: int| 0 <= j < v.len() implies is_digit(v[j]) by {
            assert(v[j] == w[j]);
        }
        lemma_digits_value_nonnegative(v);
        assert(w.last() == w[w.len() - 1]);
    }
}

/// There is one least shift.
proof fn lemma_least_shift_unique(w: int, b: int, t1: nat, t2: nat)
    requires
        b > 0,
        least_shift(w, b, t1),
        least_shift(w, b, t2),
    ensures
        t1 == t2,
{
    if t1 < t2 {
        vstd::arithmetic::power::lemma_pow_increases(2, t1, (t2 - 1) as nat);
        vstd::arithmetic::mul::lemma_mul_inequality(pow(2, t1), pow(2, (t2 - 1) as nat), b);
        vstd::arithmetic::mul::lemma_mul_is_commutative(b, pow(2, t1));
        vstd::arithmetic::mul::lemma_mul_is_commutative(b, pow(2, (t2 - 1) as nat));
    } else if t2 < t1 {
        vstd::arithmetic::power::lemma_pow_increases(2, t2, (t1 - 1) as nat);
        vstd::arithmetic::mul::lemma_mul_inequality(pow(2, t2), pow(2, (t1 - 1) as nat), b);
        vstd::arithmetic::mul::lemma_mul_is_commutative(b, pow(2, t2));
        vstd::arithmetic::mul::lemma_mul_is_commutative(b, pow(2, (t1 - 1) as nat));
    }
}

/// The double nearest to `n / 10^k`, computed with integers.
fn nearest_double_exec(n: &Integer, k: usize) -> (r: Option<Rational>)
    requires
        n@ >= 0,
    ensures
        match nearest_double(n@, k as nat) {
            Some(f) => r matches Some(q) && q@ == f,
            None => r is None,
        },
{
    let two = Integer::from_i64(2);
    let unit = two.pow(1074);
    let w = n.mul(&unit);
    let d = power_of_ten(k);
    let b = two.pow(53).mul(&d);
    proof {
        vstd::arithmetic::power::lemma_pow_positive(2, 1074);
        vstd::arithmetic::power::lemma_pow_positive(2, 53);
        vstd::arithmetic::power::lemma_pow_positive(10, k as nat);
        vstd::arithmetic::power::lemma_pow1(2);
        vstd::arithmetic::power::lemma_pow_increases(2, 1, 53);
        vstd::arithmetic::mul::lemma_mul_inequality(2, pow(2, 53), pow(10, k as nat));
        vstd::arithmetic::mul::lemma_mul_nonnegative(n@, pow(2, 1074));
        reveal(pow);
    }
    let mut p = Integer::from_i64(1);
    let ghost mut t: nat = 0;
    while !w.sub(&b.mul(&p)).is_negative()
        invariant
            two@ == 2,
            w@ >= 0,
            b@ >= 2,
            p@ == pow(2, t),
            p@ > 0,
            t == 0 || b@ * pow(2, (t - 1) as nat) <= w@,
        decreases w@ - p@,
    {
        proof {
            vstd::arithmetic::mul::lemma_mul_inequality(2, b@, p@);
            assert(w@ >= 2 * p@);
        }
        p = p.mul(&two);
        proof {
            reveal(pow);
            assert(pow(2, t + 1) == 2 * pow(2, t));
            t = t + 1;
        }
    }
    proof {
        assert(least_shift(w@, b@, t));
        let c = choose|s: nat| #[trigger] least_shift(w@, b@, s);
        lemma_least_shift_unique(w@, b@, c, t);
    }
    let dt = d.mul(&p);
    proof {
        vstd::arithmetic::mul::lemma_mul_strictly_positive(d@, p@);
    }
    let q = w.div_floor(&dt);
    let rem = w.sub(&q.mul(&dt));
    proof {
        vstd::arithmetic::div_mod::lemma_fundamental_div_mod(w@, dt@);
        vstd::arithmetic::mul::lemma_mul_is_commutative(q@, dt@);
        assert(rem@ == w@ % dt@);
        vstd::arithmetic::div_mod::lemma_div_pos_is_pos(w@, dt@);
    }
    let twice = rem.add(&rem);
    let up = q.add(&Integer::from_i64(1));
    let m = if twice.sub(&dt).is_negative() {
        q
    } else if !dt.sub(&twice).is_negative() && !dt.sub(&twice).is_zero() {
        up
    } else if !twice.sub(&dt).is_zero() {
        up
    } else {
        let half = q.div_floor(&two);
        let parity = q.sub(&half.mul(&two));
        proof {
            vstd::arithmetic::div_mod::lemma_fundamental_div_mod(q@, 2);
            vstd::arithmetic::mul::lemma_mul_is_commutative(half@, 2);
        }
        if parity.is_zero() {
            q
        } else {
            up
        }
    };
    let scaled = m.mul(&p);
    if !scaled.sub(&two.pow(2098)).is_negative() {
        None
    } else {
        Some(Rational::new(&scaled, &unit))
    }
}

} // verus!
