use crate::integer::Integer;
use crate::rational::{gcd, lowest_terms, Rational};
use core::cmp::Ordering;
use vstd::prelude::*;

verus! {

/// The mathematical value of a [`Number`]: an integer, or a fraction `n / d`
/// in lowest terms with `d > 0`.
pub enum Value {
    Natural(int),
    Decimal(int, int),
}

/// The value as a fraction.
pub open spec fn as_fraction(v: Value) -> (int, int) {
    match v {
        Value::Natural(n) => (n, 1),
        Value::Decimal(n, d) => (n, d),
    }
}

pub open spec fn decimal(f: (int, int)) -> Value {
    Value::Decimal(f.0, f.1)
}

pub open spec fn value_is_zero(v: Value) -> bool {
    as_fraction(v).0 == 0
}

pub open spec fn value_is_negative(v: Value) -> bool {
    as_fraction(v).0 < 0
}

/// Sum: integer when both sides are integers, else an exact fraction.
pub open spec fn value_add(a: Value, b: Value) -> Value {
    match (a, b) {
        (Value::Natural(x), Value::Natural(y)) => Value::Natural(x + y),
        _ => {
            let (p, q) = (as_fraction(a), as_fraction(b));
            decimal(lowest_terms(p.0 * q.1 + q.0 * p.1, p.1 * q.1))
        },
    }
}

/// Difference: integer when both sides are integers, else an exact fraction.
pub open spec fn value_sub(a: Value, b: Value) -> Value {
    match (a, b) {
        (Value::Natural(x), Value::Natural(y)) => Value::Natural(x - y),
        _ => {
            let (p, q) = (as_fraction(a), as_fraction(b));
            decimal(lowest_terms(p.0 * q.1 - q.0 * p.1, p.1 * q.1))
        },
    }
}

/// Product: integer when both sides are integers, else an exact fraction.
pub open spec fn value_mul(a: Value, b: Value) -> Value {
    match (a, b) {
        (Value::Natural(x), Value::Natural(y)) => Value::Natural(x * y),
        _ => {
            let (p, q) = (as_fraction(a), as_fraction(b));
            decimal(lowest_terms(p.0 * q.0, p.1 * q.1))
        },
    }
}

/// Quotient: always a fraction, also of two integers.
pub open spec fn value_div(a: Value, b: Value) -> Value {
    let (p, q) = (as_fraction(a), as_fraction(b));
    decimal(lowest_terms(p.0 * q.1, p.1 * q.0))
}

/// Negation, as the product with the integer `-1`.
pub open spec fn value_neg(a: Value) -> Value {
    value_mul(a, Value::Natural(-1))
}

/// An integer written as a fraction is already in lowest terms.
pub proof fn lemma_integer_lowest_terms(n: int)
    ensures
        lowest_terms(n, 1) == (n, 1int),
{
    if n != 0 {
        reveal_with_fuel(gcd, 3);
        let a = crate::rational::abs(n);
        assert(a % 1 == 0);
        assert(gcd(a, 1) == gcd(1, 0));
        assert(gcd(a, 1) == 1);
        assert(n / 1 == n);
        assert(1int / 1 == 1);
    }
}

/// A number: an arbitrary-precision integer or an exact rational.
#[derive(Debug)]
pub enum Number {
    /// an integer
    NaturalNumber(Integer),
    /// a rational number
    DecimalNumber(Rational),
}

impl View for Number {
    type V = Value;

    open spec fn view(&self) -> Value {
        match self {
            Number::NaturalNumber(i) => Value::Natural(i@),
            Number::DecimalNumber(r) => Value::Decimal(r@.0, r@.1),
        }
    }
}

impl Number {
    /// The integer `v`.
    pub fn integer(v: i64) -> (r: Number)
        ensures
            r@ == Value::Natural(v as int),
    {
        Number::NaturalNumber(Integer::from_i64(v))
    }

    /// A copy of this number.
    pub fn copy(&self) -> (r: Number)
        ensures
            r@ == self@,
    {
        match self {
            Number::NaturalNumber(i) => Number::NaturalNumber(i.copy()),
            Number::DecimalNumber(q) => Number::DecimalNumber(q.copy()),
        }
    }

    /// The same value as a rational.
    pub fn to_rational(&self) -> (r: Rational)
        ensures
            r@ == as_fraction(self@),
    {
        match self {
            Number::NaturalNumber(i) => {
                proof {
                    lemma_integer_lowest_terms(i@);
                }
                Rational::from_integer(i)
            },
            Number::DecimalNumber(q) => q.copy(),
        }
    }

    /// Whether the value is zero, as an integer or a fraction.
    pub fn is_zero(&self) -> (r: bool)
        ensures
            r == value_is_zero(self@),
    {
        match self {
            Number::NaturalNumber(i) => i.is_zero(),
            Number::DecimalNumber(q) => q.is_zero(),
        }
    }

    /// Whether the value is below zero.
    pub fn is_negative(&self) -> (r: bool)
        ensures
            r == value_is_negative(self@),
    {
        match self {
            Number::NaturalNumber(i) => i.is_negative(),
            Number::DecimalNumber(q) => q.is_negative(),
        }
    }

    /// The sum: an integer when both are integers.
    pub fn add(&self, o: &Number) -> (r: Number)
        ensures
            r@ == value_add(self@, o@),
    {
        match (self, o) {
            (Number::NaturalNumber(x), Number::NaturalNumber(y)) => Number::NaturalNumber(x.add(y)),
            _ => Number::DecimalNumber(self.to_rational().add(&o.to_rational())),
        }
    }

    /// The difference: an integer when both are integers.
    pub fn sub(&self, o: &Number) -> (r: Number)
        ensures
            r@ == value_sub(self@, o@),
    {
        match (self, o) {
            (Number::NaturalNumber(x), Number::NaturalNumber(y)) => Number::NaturalNumber(x.sub(y)),
            _ => Number::DecimalNumber(self.to_rational().sub(&o.to_rational())),
        }
    }

    /// The product: an integer when both are integers.
    pub fn mul(&self, o: &Number) -> (r: Number)
        ensures
            r@ == value_mul(self@, o@),
    {
        match (self, o) {
            (Number::NaturalNumber(x), Number::NaturalNumber(y)) => Number::NaturalNumber(x.mul(y)),
            _ => Number::DecimalNumber(self.to_rational().mul(&o.to_rational())),
        }
    }

    /// The exact quotient, always a rational.
    pub fn div(&self, o: &Number) -> (r: Number)
        requires
            !value_is_zero(o@),
        ensures
            r@ == value_div(self@, o@),
    {
        Number::DecimalNumber(self.to_rational().div(&o.to_rational()))
    }

    /// The negation, as the product with `-1`.
    pub fn neg(&self) -> (r: Number)
        ensures
            r@ == value_neg(self@),
    {
        self.mul(&Number::integer(-1))
    }

    /// Whether the two numbers are the same kind with the same value.
    pub fn same(&self, o: &Number) -> (r: bool)
        ensures
            r == (self@ == o@),
    {
        match (self, o) {
            (Number::NaturalNumber(x), Number::NaturalNumber(y)) => x.equals(y),
            (Number::DecimalNumber(x), Number::DecimalNumber(y)) => x == y,
            _ => false,
        }
    }

    /// The value as an `i128`; a rational is first rounded toward zero.
    /// `None` where the result does not fit.
    pub fn to_i128(&self) -> (r: Option<i128>)
        ensures
            r matches Some(v) ==> v as int == truncated(self@),
            r is Some <==> i128::MIN <= truncated(self@) <= i128::MAX,
    {
        self.to_integer().to_i128()
    }

    /// The order of the two numbers by value, across integers and rationals.
    pub fn compare(&self, o: &Number) -> (r: Ordering)
        ensures
            (r == Ordering::Less) == value_lt(self@, o@),
            (r == Ordering::Equal) == value_eq(self@, o@),
            (r == Ordering::Greater) == value_lt(o@, self@),
    {
        let a = self.to_rational();
        let b = o.to_rational();
        a.compare(&b)
    }

    /// The value as an integer; a rational is rounded toward zero.
    pub fn to_integer(&self) -> (r: Integer)
        ensures
            r@ == truncated(self@),
    {
        match self {
            Number::NaturalNumber(i) => i.copy(),
            Number::DecimalNumber(q) => q.to_integer(),
        }
    }

    /// The value as an `i32`; a rational is first rounded toward zero.
    /// `None` where the result does not fit.
    pub fn to_i32(&self) -> (r: Option<i32>)
        ensures
            r matches Some(v) ==> v as int == truncated(self@),
            r is Some <==> i32::MIN <= truncated(self@) <= i32::MAX,
    {
        match self.to_i64() {
            Some(v) => if i32::MIN as i64 <= v && v <= i32::MAX as i64 {
                Some(v as i32)
            } else {
                None
            },
            None => None,
        }
    }

    /// The value as an `i64`; a rational is first rounded toward zero.
    /// `None` where the result does not fit.
    pub fn to_i64(&self) -> (r: Option<i64>)
        ensures
            r matches Some(v) ==> v as int == truncated(self@),
            r is Some <==> i64::MIN <= truncated(self@) <= i64::MAX,
    {
        match self {
            Number::NaturalNumber(i) => i.to_i64(),
            Number::DecimalNumber(q) => q.to_integer().to_i64(),
        }
    }
}

/// Numeric order across integers and fractions (denominators are positive).
pub open spec fn value_lt(a: Value, b: Value) -> bool {
    let (p, q) = (as_fraction(a), as_fraction(b));
    p.0 * q.1 < q.0 * p.1
}

/// Numeric equality across integers and fractions.
pub open spec fn value_eq(a: Value, b: Value) -> bool {
    let (p, q) = (as_fraction(a), as_fraction(b));
    p.0 * q.1 == q.0 * p.1
}

/// The value rounded toward zero.
pub open spec fn truncated(v: Value) -> int {
    match v {
        Value::Natural(n) => n,
        Value::Decimal(n, d) => crate::rational::trunc_div(n, d),
    }
}

impl PartialEq for Number {
    /// Equality by value, across integers and rationals.
    fn eq(&self, o: &Number) -> (r: bool)
        ensures
            r == value_eq(self@, o@),
    {
        match self.compare(o) {
            Ordering::Equal => true,
            _ => false,
        }
    }
}

impl vstd::std_specs::cmp::PartialEqSpecImpl for Number {
    open spec fn obeys_eq_spec() -> bool {
        true
    }

    open spec fn eq_spec(&self, o: &Number) -> bool {
        value_eq(self@, o@)
    }
}

/// On two integers, addition, subtraction and multiplication stay exact
/// integers, equal to the same operation on unbounded integers.
pub proof fn lemma_integer_arithmetic_exact(x: int, y: int)
    ensures
        value_add(Value::Natural(x), Value::Natural(y)) == Value::Natural(x + y),
        value_sub(Value::Natural(x), Value::Natural(y)) == Value::Natural(x - y),
        value_mul(Value::Natural(x), Value::Natural(y)) == Value::Natural(x * y),
{
}

/// A binary or unary math operator.
#[derive(Debug, PartialEq, Eq, Structural, Clone, Copy)]
pub enum Operator {
    /// Binary Add ('1+1')
    Add,
    /// Binary Sub ('2-1')
    Sub,
    /// Binary Mul ('2*2')
    Mul,
    /// Binary Div ('3/3')
    Div,
    /// Binary Pow ('base^exponent')
    Pow,
    /// Unary Neg ('-1')
    Une,
    /// Factorial ('0!')
    Fac,
    /// Binary Assignment ('A=1')
    Eql,
}

/// The direction in which operators of equal precedence group.
#[derive(Debug, PartialEq, Eq, Structural, Clone, Copy)]
pub enum Associate {
    /// Operations of equal precedence are evaluated from left to right.
    LeftAssociative,
    /// Operations of equal precedence are evaluated from right to left.
    RightAssociative,
}

/// Brackets: `(` or `[` open, `)` or `]` close.
#[derive(Debug, PartialEq, Eq, Structural, Clone, Copy)]
pub enum Bracket {
    Open,
    Close,
}

/// The named math functions.
#[derive(Debug, PartialEq, Eq, Structural, Clone, Copy)]
pub enum MathFunction {
    /// Trigonometric Sine
    Sin,
    /// Trigonometric Cosine
    Cos,
    /// Trigonometric Tangent
    Tan,
    /// Arcsine
    ASin,
    /// Arccosine
    ACos,
    /// Arctangent
    ATan,
    /// Natural logarithm
    Ln,
    /// Base 10 logarithm
    Log,
    /// Absolute value
    Abs,
    /// Square root
    Sqrt,
    /// Max value
    Max,
    /// Min value
    Min,
    /// Rounds down
    Floor,
    /// Rounds up
    Ceil,
    /// Rounds to nearest integer
    Round,
    /// e^x exponentiation
    Exp,
    /// Standard normal probability density function
    Pdf,
    /// Standard normal cumulative distribution function
    Cdf,
    /// No function expected
    NoFunction,
}

/// The smallest chunk of a math expression.
#[derive(Debug)]
pub enum Token {
    /// Natural numbers (1,2,3,4...) or decimals (1.1, 2.3, 4.4 ...)
    Operand(Number),
    /// Operators +,-,/,*,^...
    Operator(Operator),
    /// ( ) [ ]
    Bracket(Bracket),
    /// sin cos tan ln log...
    Function(MathFunction),
    /// comma separator for function arguments
    Comma,
    /// a variable name such as x, y, ab, foo, as written
    Variable(Vec<char>),
    /// Semicolon ';' separator for chained expressions
    SemiColon,
}

/// The mathematical content of a [`Token`].
pub enum TokenView {
    Operand(Value),
    Operator(Operator),
    Bracket(Bracket),
    Function(MathFunction),
    Comma,
    Variable(Seq<char>),
    SemiColon,
}

impl View for Token {
    type V = TokenView;

    open spec fn view(&self) -> TokenView {
        match self {
            Token::Operand(n) => TokenView::Operand(n@),
            Token::Operator(o) => TokenView::Operator(*o),
            Token::Bracket(b) => TokenView::Bracket(*b),
            Token::Function(f) => TokenView::Function(*f),
            Token::Comma => TokenView::Comma,
            Token::Variable(v) => TokenView::Variable(v@),
            Token::SemiColon => TokenView::SemiColon,
        }
    }
}

/// The views of a sequence of tokens.
pub open spec fn views(s: Seq<Token>) -> Seq<TokenView> {
    s.map_values(|t: Token| t@)
}

/// A copy of a sequence of characters.
pub fn copy_chars(v: &Vec<char>) -> (r: Vec<char>)
    ensures
        r@ == v@,
{
    let r = v.clone();
    assert(r@ =~= v@);
    r
}

/// Whether two sequences of characters are equal.
pub fn same_chars(a: &Vec<char>, b: &Vec<char>) -> (r: bool)
    ensures
        r == (a@ == b@),
{
    if a.len() != b.len() {
        return false;
    }
    let mut i: usize = 0;
    while i < a.len()
        invariant
            a.len() == b.len(),
            i <= a.len(),
            forall|j: int| 0 <= j < i ==> a@[j] == b@[j],
        decreases a.len() - i,
    {
        if a[i] != b[i] {
            return false;
        }
        i = i + 1;
    }
    assert(a@ =~= b@);
    true
}

impl Token {
    pub fn copy(&self) -> (r: Token)
        ensures
            r@ == self@,
    {
        match self {
            Token::Operand(n) => Token::Operand(n.copy()),
            Token::Operator(o) => Token::Operator(*o),
            Token::Bracket(b) => Token::Bracket(*b),
            Token::Function(f) => Token::Function(*f),
            Token::Comma => Token::Comma,
            Token::Variable(v) => Token::Variable(copy_chars(v)),
            Token::SemiColon => Token::SemiColon,
        }
    }
}

impl PartialEq for Token {
    fn eq(&self, o: &Token) -> (r: bool)
        ensures
            r == (self@ == o@),
    {
        match (self, o) {
            (Token::Operand(x), Token::Operand(y)) => x.same(y),
            (Token::Operator(x), Token::Operator(y)) => x == y,
            (Token::Bracket(x), Token::Bracket(y)) => x == y,
            (Token::Function(x), Token::Function(y)) => x == y,
            (Token::Comma, Token::Comma) => true,
            (Token::Variable(x), Token::Variable(y)) => same_chars(x, y),
            (Token::SemiColon, Token::SemiColon) => true,
            _ => false,
        }
    }
}

impl vstd::std_specs::cmp::PartialEqSpecImpl for Token {
    open spec fn obeys_eq_spec() -> bool {
        true
    }

    open spec fn eq_spec(&self, o: &Token) -> bool {
        self@ == o@
    }
}

/// The precedence of an operator.
pub open spec fn precedence(o: Operator) -> u8 {
    match o {
        Operator::Eql => 0,
        Operator::Add | Operator::Sub => 1,
        Operator::Mul | Operator::Div => 2,
        Operator::Pow => 3,
        Operator::Une => 4,
        Operator::Fac => 5,
    }
}

/// The associativity of an operator.
pub open spec fn associativity(o: Operator) -> Associate {
    match o {
        Operator::Add | Operator::Sub | Operator::Mul | Operator::Div | Operator::Fac => {
            Associate::LeftAssociative
        },
        Operator::Pow | Operator::Une | Operator::Eql => Associate::RightAssociative,
    }
}

/// Whether `op1`, arriving, makes `op2` on the stack go first: a left-associative
/// operator yields to equal or higher precedence, a right-associative one to higher only.
pub open spec fn yields_to(op1: Operator, op2: Operator) -> bool {
    (associativity(op1) == Associate::LeftAssociative && precedence(op1) <= precedence(op2)) || (
    associativity(op1) == Associate::RightAssociative && precedence(op1) < precedence(op2))
}

/// The operator that a character stands for.
pub open spec fn operator_of(c: char) -> Option<Operator> {
    if c == '+' {
        Some(Operator::Add)
    } else if c == '-' {
        Some(Operator::Sub)
    } else if c == '*' {
        Some(Operator::Mul)
    } else if c == '/' {
        Some(Operator::Div)
    } else if c == '^' {
        Some(Operator::Pow)
    } else if c == '#' {
        Some(Operator::Une)
    } else if c == '!' {
        Some(Operator::Fac)
    } else if c == '=' {
        Some(Operator::Eql)
    } else {
        None
    }
}

/// The bracket that a character stands for.
pub open spec fn bracket_of(c: char) -> Option<Bracket> {
    if c == '(' || c == '[' {
        Some(Bracket::Open)
    } else if c == ')' || c == ']' {
        Some(Bracket::Close)
    } else {
        None
    }
}

impl Operator {
    /// The character that stands for the operator (`#` for the negation).
    pub fn symbol(&self) -> (r: char)
        ensures
            operator_of(r) == Some(*self),
    {
        match self {
            Operator::Add => '+',
            Operator::Sub => '-',
            Operator::Mul => '*',
            Operator::Div => '/',
            Operator::Pow => '^',
            Operator::Une => '#',
            Operator::Fac => '!',
            Operator::Eql => '=',
        }
    }
}

impl Token {
    /// The operator token for a character, if it is one.
    pub fn from_operator(c: char) -> (r: Option<Token>)
        ensures
            r matches Some(t) ==> operator_of(c) matches Some(o) && t@ == TokenView::Operator(o),
            r is None <==> operator_of(c) is None,
    {
        let o = if c == '+' {
            Operator::Add
        } else if c == '-' {
            Operator::Sub
        } else if c == '*' {
            Operator::Mul
        } else if c == '/' {
            Operator::Div
        } else if c == '^' {
            Operator::Pow
        } else if c == '#' {
            Operator::Une
        } else if c == '!' {
            Operator::Fac
        } else if c == '=' {
            Operator::Eql
        } else {
            return None;
        };
        Some(Token::Operator(o))
    }

    /// The bracket token for a character, if it is one.
    pub fn from_bracket(c: char) -> (r: Option<Token>)
        ensures
            r matches Some(t) ==> bracket_of(c) matches Some(b) && t@ == TokenView::Bracket(b),
            r is None <==> bracket_of(c) is None,
    {
        if c == '(' || c == '[' {
            Some(Token::Bracket(Bracket::Open))
        } else if c == ')' || c == ']' {
            Some(Token::Bracket(Bracket::Close))
        } else {
            None
        }
    }

    /// The precedence and associativity of an operator token.
    pub fn operator_priority(o: Token) -> (r: (u8, Associate))
        requires
            o is Operator,
        ensures
            r == (precedence(o->Operator_0), associativity(o->Operator_0)),
    {
        match o {
            Token::Operator(Operator::Add) | Token::Operator(Operator::Sub) => (1, Associate::LeftAssociative),
            Token::Operator(Operator::Mul) | Token::Operator(Operator::Div) => (2, Associate::LeftAssociative),
            Token::Operator(Operator::Pow) => (3, Associate::RightAssociative),
            Token::Operator(Operator::Une) => (4, Associate::RightAssociative),
            Token::Operator(Operator::Fac) => (5, Associate::LeftAssociative),
            _ => (0, Associate::RightAssociative),
        }
    }

    /// Whether the operator `op1` lets the operator `op2` go first.
    pub fn compare_operator_priority(op1: Token, op2: Token) -> (r: bool)
        requires
            op1 is Operator,
            op2 is Operator,
        ensures
            r == yields_to(op1->Operator_0, op2->Operator_0),
    {
        let v_op1 = Token::operator_priority(op1);
        let v_op2 = Token::operator_priority(op2);
        (v_op1.1 == Associate::LeftAssociative && v_op1.0 <= v_op2.0) || (v_op1.1
            == Associate::RightAssociative && v_op1.0 < v_op2.0)
    }
}

/// The characters of a string.
pub fn chars_of(s: &str) -> (r: Vec<char>)
    ensures
        r@ == s@,
{
    let mut r: Vec<char> = Vec::new();
    for c in it: s.chars()
        invariant
            r@ == it.seq().take(it.index() as int),
    {
        r.push(c);
    }
    r
}

/// A name folded to lower case, as `str::to_lowercase` folds it.
pub uninterp spec fn lower_of(s: Seq<char>) -> Seq<char>;

/// Relies on `str::to_lowercase`: its result depends on the characters alone.
#[verifier::external_body]
pub(crate) fn lowercase(v: &Vec<char>) -> (r: Vec<char>)
    ensures
        r@ == lower_of(v@),
{
    v.iter().collect::<String>().to_lowercase().chars().collect()
}

/// Appends a token.
pub(crate) fn push_token(v: &mut Vec<Token>, t: Token)
    ensures
        views(final(v)@) == views(old(v)@).push(t@),
{
    v.push(t);
    assert(views(v@) =~= views(old(v)@).push(t@));
}

} // verus!
