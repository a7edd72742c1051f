use num_bigint::BigInt;
use num_rational::BigRational;
use num_traits::ToPrimitive;
use std::cmp::Ordering;
use yarer::integer::Integer;
use yarer::parser::Parser;
use yarer::rational::Rational;
use yarer::rpn_resolver::{EvalError, Request, Resolution, RpnResolver};
use yarer::session::Session;
use yarer::token::{Associate, Bracket, MathFunction, Number, Operator, Token};

fn big(i: &Integer) -> BigInt {
    BigInt::from_signed_bytes_le(&i.to_signed_bytes_le())
}

fn natural(v: i64) -> Number {
    Number::integer(v)
}

fn frac(n: i64, d: i64) -> Number {
    Number::DecimalNumber(Rational::new(&Integer::from_i64(n), &Integer::from_i64(d)))
}

fn rational_of(v: f64) -> Option<Rational> {
    BigRational::from_float(v).map(|r| {
        Rational::new(
            &Integer::from_signed_bytes_le(r.numer().to_signed_bytes_le()),
            &Integer::from_signed_bytes_le(r.denom().to_signed_bytes_le()),
        )
    })
}

fn to_f64(n: &Number) -> f64 {
    match n {
        Number::NaturalNumber(i) => big(i).to_f64().unwrap(),
        Number::DecimalNumber(q) => BigRational::new(big(&q.numer()), big(&q.denom())).to_f64().unwrap(),
    }
}

fn answer(req: &Request) -> Option<Rational> {
    let v = match req {
        Request::Power(b, e) => to_f64(b).powf(to_f64(e)),
        Request::Apply(f, args) => {
            let x = to_f64(&args[0]);
            match f {
                MathFunction::Sin => x.sin(),
                MathFunction::Cos => x.cos(),
                MathFunction::Sqrt => x.sqrt(),
                MathFunction::Max => x.max(to_f64(&args[1])),
                MathFunction::Min => x.min(to_f64(&args[1])),
                _ => f64::NAN,
            }
        }
    };
    rational_of(v)
}

fn run(resolver: &RpnResolver, session: &mut Session) -> Result<Number, EvalError> {
    let mut answers: Vec<Option<Rational>> = Vec::new();
    loop {
        match resolver.resolve(session, &answers) {
            Resolution::Done(r) => return r,
            Resolution::Needs(req) => answers.push(answer(&req)),
        }
    }
}

fn eval_in(session: &mut Session, expr: &str) -> Result<Number, EvalError> {
    let resolver = session.process(expr);
    run(&resolver, session)
}

fn eval(expr: &str) -> Result<Number, EvalError> {
    eval_in(&mut Session::init(), expr)
}

fn var(name: &str) -> Token {
    Token::Variable(name.chars().collect())
}

// ---- parser

#[test]
fn test_parse_valid() {
    assert_eq!(
        Parser::parse("1+2*3/(4-5)"),
        vec![
            Token::Operand(natural(1)),
            Token::Operator(Operator::Add),
            Token::Operand(natural(2)),
            Token::Operator(Operator::Mul),
            Token::Operand(natural(3)),
            Token::Operator(Operator::Div),
            Token::Bracket(Bracket::Open),
            Token::Operand(natural(4)),
            Token::Operator(Operator::Sub),
            Token::Operand(natural(5)),
            Token::Bracket(Bracket::Close),
        ]
    );
}

#[test]
fn test_multiple_unary_ops2() {
    // -(+(-5*-5)) to #((#5*#5))
    let input = vec![
        Token::Operator(Operator::Sub),
        Token::Bracket(Bracket::Open),
        Token::Operator(Operator::Add),
        Token::Bracket(Bracket::Open),
        Token::Operator(Operator::Sub),
        Token::Operand(natural(5)),
        Token::Operator(Operator::Mul),
        Token::Operator(Operator::Sub),
        Token::Operand(natural(5)),
        Token::Bracket(Bracket::Close),
        Token::Bracket(Bracket::Close),
    ];
    let expected = vec![
        Token::Operator(Operator::Une),
        Token::Bracket(Bracket::Open),
        Token::Bracket(Bracket::Open),
        Token::Operator(Operator::Une),
        Token::Operand(natural(5)),
        Token::Operator(Operator::Mul),
        Token::Operator(Operator::Une),
        Token::Operand(natural(5)),
        Token::Bracket(Bracket::Close),
        Token::Bracket(Bracket::Close),
    ];
    assert_eq!(Parser::mod_unary_operators(&input), expected);
}

#[test]
fn parse_separators_names_and_dropped_characters() {
    assert_eq!(
        Parser::parse("max(x1, [2]);Sin @ y"),
        vec![
            Token::Function(MathFunction::Max),
            Token::Bracket(Bracket::Open),
            var("x1"),
            Token::Comma,
            Token::Bracket(Bracket::Open),
            Token::Operand(natural(2)),
            Token::Bracket(Bracket::Close),
            Token::Bracket(Bracket::Close),
            Token::SemiColon,
            Token::Function(MathFunction::Sin),
            var("y"),
        ]
    );
}

#[test]
fn parse_decimal_literals() {
    assert_eq!(
        Parser::parse(".5 4. 12.25"),
        vec![Token::Operand(frac(1, 2)), Token::Operand(frac(4, 1)), Token::Operand(frac(49, 4))]
    );
}

// ---- rpn_resolver

#[test]
fn test_reverse_polish_notation() {
    let a = vec![Token::Operand(natural(1)), Token::Operator(Operator::Add), Token::Operand(natural(2))];
    let b = vec![Token::Operand(natural(1)), Token::Operand(natural(2)), Token::Operator(Operator::Add)];
    assert_eq!(RpnResolver::reverse_polish_notation(&a, &mut Session::new()), b);
}

#[test]
fn reverse_polish_notation_registers_variables() {
    let mut session = Session::init();
    session.set("y", 7);
    let infix = Parser::parse("X + y * pi");
    let postfix = RpnResolver::reverse_polish_notation(&infix, &mut session);
    assert_eq!(
        postfix,
        vec![var("X"), var("y"), var("pi"), Token::Operator(Operator::Mul), Token::Operator(Operator::Add)]
    );
    assert_eq!(session.lookup(&vec!['x']), Some(natural(0)));
    assert_eq!(session.lookup(&vec!['y']), Some(natural(7)));
    assert!(matches!(session.lookup(&vec!['p', 'i']), Some(Number::DecimalNumber(_))));
}

#[test]
fn reverse_polish_notation_functions_and_commas() {
    let infix = Parser::parse("min(max(1,2),3)");
    let postfix = RpnResolver::reverse_polish_notation(&infix, &mut Session::new());
    assert_eq!(
        postfix,
        vec![
            Token::Operand(natural(1)),
            Token::Operand(natural(2)),
            Token::Function(MathFunction::Max),
            Token::Operand(natural(3)),
            Token::Function(MathFunction::Min),
        ]
    );
}

#[test]
fn test_factorial() {
    assert_eq!(RpnResolver::factorial_helper(5), Integer::from_i64(120));
    assert_eq!(RpnResolver::factorial_helper(0), Integer::from_i64(1));
}

#[test]
fn test_resolve() {
    let resolver = RpnResolver::from_postfix(vec![
        Token::Operand(natural(1)),
        Token::Operand(natural(2)),
        Token::Operator(Operator::Add),
    ]);
    let mut session = Session::new();
    match resolver.resolve(&mut session, &Vec::new()) {
        Resolution::Done(Ok(n)) => assert_eq!(n, natural(3)),
        _ => panic!("expected a value"),
    }
}

#[test]
fn test_invalid_factorial() {
    assert_eq!(eval("(-1)!"), Err(EvalError::FactorialDomainError));
    assert_eq!(eval("1.5!"), Err(EvalError::FactorialDomainError));
}

#[test]
fn test_max_min() {
    assert!(matches!(eval("max(1,2)").unwrap(), Number::DecimalNumber(_)));
    assert_eq!(eval("max(1,2)").unwrap(), Number::DecimalNumber(rational_of(2.0).unwrap()));
    assert_eq!(eval("min(1,2)").unwrap(), Number::DecimalNumber(rational_of(1.0).unwrap()));
    assert_eq!(eval("min(max(1,2),3)").unwrap(), Number::DecimalNumber(rational_of(2.0).unwrap()));
}

#[test]
fn right_associative_power() {
    assert!(eval("2^3^2").unwrap().same(&natural(512)));
}

#[test]
fn unary_minus_and_plus() {
    assert!(eval("-(+(-5*-5))").unwrap().same(&natural(-25)));
}

#[test]
fn division_is_decimal_addition_is_not() {
    assert!(eval("4/2").unwrap().same(&frac(2, 1)));
    assert!(matches!(eval("4/2").unwrap(), Number::DecimalNumber(_)));
    assert!(eval("4+2").unwrap().same(&natural(6)));
}

#[test]
fn integer_arithmetic_is_exact() {
    assert_eq!(eval("(3 + 4 * (2 - (3 + 1) * 5 + 3) - 6) * 2 + 4").unwrap(), natural(-122));
    let big = eval("123456789123456789 * 987654321987654321 - 1").unwrap();
    let expected: BigInt = "121932631356500531347203169112635268".parse().unwrap();
    match big {
        Number::NaturalNumber(i) => assert_eq!(big_of(&i), expected),
        _ => panic!("expected an integer"),
    }
}

fn big_of(i: &Integer) -> BigInt {
    big(i)
}

#[test]
fn scenario_values() {
    assert!(eval("3 * 2^3 + 6 / (2 + 1)").unwrap().same(&frac(26, 1)));
    assert!(eval("sin(pi/2)+cos(0)").unwrap().same(&frac(2, 1)));
    assert!(eval("4! - 3!").unwrap().same(&natural(18)));
    assert!(eval("max(1,2)").unwrap().same(&frac(2, 1)));
    assert!(eval("min(max(1,2),3)").unwrap().same(&frac(2, 1)));
}

#[test]
fn errors_by_kind() {
    assert_eq!(eval("1/0"), Err(EvalError::DivisionByZero));
    assert_eq!(eval("1/0.0"), Err(EvalError::DivisionByZero));
    assert_eq!(eval("0^-1"), Err(EvalError::DivisionByZero));
    assert_eq!(eval("1+"), Err(EvalError::MalformedExpression));
    assert_eq!(eval("1 2"), Err(EvalError::MalformedExpression));
    assert_eq!(eval(""), Err(EvalError::MalformedExpression));
    assert_eq!(eval("3=5"), Err(EvalError::NoVariableForAssignment));
    assert_eq!(eval("sqrt(0-1)"), Err(EvalError::NotFinite));
    assert_eq!(eval("10001!"), Err(EvalError::TooLarge));
    assert_eq!(eval("2^4294967296"), Err(EvalError::TooLarge));
    let bare = RpnResolver::from_postfix(vec![Token::Operand(natural(5)), Token::Operand(natural(5)), Token::Operator(Operator::Eql)]);
    assert!(matches!(bare.resolve(&mut Session::new(), &Vec::new()), Resolution::Done(Err(EvalError::NoVariableForAssignment))));
    let bracket = RpnResolver::from_postfix(vec![Token::Bracket(Bracket::Open)]);
    assert!(matches!(bracket.resolve(&mut Session::new(), &Vec::new()), Resolution::Done(Err(EvalError::UnsupportedToken))));
    let none = RpnResolver::from_postfix(vec![Token::Operand(natural(1)), Token::Function(MathFunction::NoFunction)]);
    assert!(matches!(none.resolve(&mut Session::new(), &Vec::new()), Resolution::Done(Err(EvalError::UnsupportedToken))));
}

#[test]
fn requests_and_answers() {
    let mut session = Session::init();
    let resolver = session.process("sqrt(16) + 2^0.5");
    match resolver.resolve(&mut session, &Vec::new()) {
        Resolution::Needs(Request::Apply(MathFunction::Sqrt, args)) => assert_eq!(args, vec![natural(16)]),
        _ => panic!("expected a request for sqrt"),
    }
    let four = Rational::new(&Integer::from_i64(4), &Integer::from_i64(1));
    match resolver.resolve(&mut session, &vec![Some(four)]) {
        Resolution::Needs(Request::Power(b, e)) => {
            assert!(b.same(&natural(2)));
            assert!(e.same(&frac(1, 2)));
        }
        _ => panic!("expected a request for a power"),
    }
    let four = Rational::new(&Integer::from_i64(4), &Integer::from_i64(1));
    let half = Rational::new(&Integer::from_i64(3), &Integer::from_i64(2));
    match resolver.resolve(&mut session, &vec![Some(four), Some(half)]) {
        Resolution::Done(Ok(n)) => assert_eq!(n, frac(11, 2)),
        _ => panic!("expected a value"),
    }
    let four = Rational::new(&Integer::from_i64(4), &Integer::from_i64(1));
    assert!(matches!(resolver.resolve(&mut session, &vec![Some(four), None]), Resolution::Done(Err(EvalError::NotFinite))));
}

#[test]
fn shared_state_between_expressions() {
    let mut session = Session::init();
    assert_eq!(eval_in(&mut session, "x=10;x^2").unwrap(), natural(100));
    assert!(eval_in(&mut session, "x!-( x-1)!").unwrap().same(&natural(3265920)));
}

#[test]
fn repeated_evaluation_gives_same_result() {
    let mut session = Session::init();
    session.set("x", 3);
    let resolver = session.process("x^2 + sin(0) - 1/x");
    let first = run(&resolver, &mut session).unwrap();
    let second = run(&resolver, &mut session).unwrap();
    assert_eq!(first, second);
    assert!(first.same(&frac(26, 3)));
}

#[test]
fn failed_evaluation_leaves_variables() {
    let mut session = Session::init();
    session.set("x", 1);
    assert_eq!(eval_in(&mut session, "x=5; 1/0"), Err(EvalError::DivisionByZero));
    assert_eq!(session.lookup(&vec!['x']), Some(natural(1)));
}

#[test]
fn unknown_variable_reads_zero() {
    let resolver = RpnResolver::from_postfix(vec![var("q"), Token::Operand(natural(1)), Token::Operator(Operator::Add)]);
    match resolver.resolve(&mut Session::new(), &Vec::new()) {
        Resolution::Done(Ok(n)) => assert_eq!(n, frac(1, 1)),
        _ => panic!("expected a value"),
    }
}

// ---- session

#[test]
fn test_session() {
    assert!(matches!(eval("1+2*3/(4-5)").unwrap(), Number::DecimalNumber(_)));
    assert_eq!(eval("1+2*3/(4-5)").unwrap(), Number::DecimalNumber(rational_of(-5.0).unwrap()));
}

#[test]
fn session_test_session_set() {
    let mut session = Session::init();
    session.set("x", 4);
    assert_eq!(eval_in(&mut session, "x+2*3/(4-5)").unwrap(), Number::DecimalNumber(rational_of(-2.0).unwrap()));
}

#[test]
fn test_session_setf() {
    let mut session = Session::init();
    session.setf("x", rational_of(4.5).unwrap());
    assert_eq!(eval_in(&mut session, "x+2*3/(4-5)").unwrap(), Number::DecimalNumber(rational_of(-1.5).unwrap()));
}

#[test]
fn test_session_default_vars() {
    let pi = BigRational::from_float(std::f64::consts::PI).unwrap();
    let e = BigRational::from_float(std::f64::consts::E).unwrap();
    let sum = pi + e;
    let expected = Rational::new(
        &Integer::from_signed_bytes_le(sum.numer().to_signed_bytes_le()),
        &Integer::from_signed_bytes_le(sum.denom().to_signed_bytes_le()),
    );
    assert_eq!(eval("pi + e").unwrap(), Number::DecimalNumber(expected));
}

#[test]
fn test_session_tau() {
    assert_eq!(
        eval("tau / 2").unwrap(),
        Number::DecimalNumber(rational_of(std::f64::consts::TAU / 2.0).unwrap())
    );
}

#[test]
fn session_names_fold_to_lower_case() {
    let mut session = Session::new();
    session.set("AbC", -3);
    assert_eq!(session.lookup(&vec!['a', 'b', 'c']), Some(natural(-3)));
    assert_eq!(eval_in(&mut session, "abc * ABC").unwrap(), natural(9));
}

// ---- token

#[test]
fn test_tokenise_operators() {
    let v = vec!["1", "+", "2.1"];
    assert_eq!(Token::tokenize(v[1]), Some(Token::Operator(Operator::Add)));
    assert_eq!(Token::tokenize(v[0]), Some(Token::Operand(natural(1))));
    assert_eq!(
        Token::tokenize(v[2]),
        Some(Token::Operand(Number::DecimalNumber(rational_of(2.1).unwrap())))
    );
}

#[test]
fn test_from_operator_valid() {
    assert_eq!(Token::from_operator('+'), Some(Token::Operator(Operator::Add)));
    assert_eq!(Token::from_operator('-'), Some(Token::Operator(Operator::Sub)));
    assert_eq!(Token::from_operator('*'), Some(Token::Operator(Operator::Mul)));
    assert_eq!(Token::from_operator('/'), Some(Token::Operator(Operator::Div)));
    assert_eq!(Token::from_operator('!'), Some(Token::Operator(Operator::Fac)));
}

#[test]
fn test_from_operator_invalid() {
    assert_eq!(Token::from_operator('a'), None);
    assert_eq!(Token::from_operator('1'), None);
    assert_eq!(Token::from_operator('~'), None);
}

#[test]
fn test_tokenize_valid() {
    assert_eq!(Token::tokenize("+"), Some(Token::Operator(Operator::Add)));
    assert_eq!(Token::tokenize("100"), Some(Token::Operand(natural(100))));
    assert_eq!(
        Token::tokenize("3.14"),
        Some(Token::Operand(Number::DecimalNumber(rational_of(3.14).unwrap())))
    );
    assert_eq!(Token::tokenize("("), Some(Token::Bracket(Bracket::Open)));
}

#[test]
fn test_tokenize_vec_valid() {
    assert_eq!(Token::tokenize("+"), Some(Token::Operator(Operator::Add)));
    assert_eq!(Token::tokenize("100"), Some(Token::Operand(natural(100))));
    assert_eq!(
        Token::tokenize("3.14"),
        Some(Token::Operand(Number::DecimalNumber(rational_of(3.14).unwrap())))
    );
    assert_eq!(Token::tokenize("("), Some(Token::Bracket(Bracket::Open)));
}

#[test]
fn tokenize_names_and_empty() {
    assert_eq!(Token::tokenize(""), None);
    assert_eq!(Token::tokenize("COS"), Some(Token::Function(MathFunction::Cos)));
    assert_eq!(Token::tokenize("Foo"), Some(var("Foo")));
    assert_eq!(Token::tokenize("]"), Some(Token::Bracket(Bracket::Close)));
    assert_eq!(Token::tokenize(";"), Some(Token::SemiColon));
    assert_eq!(Token::get_some("LoG"), Some(MathFunction::Log));
    assert_eq!(Token::get_some("log10"), None);
}

#[test]
fn test_operator_priority() {
    assert_eq!(Token::operator_priority(Token::Operator(Operator::Add)), (1, Associate::LeftAssociative));
    assert_eq!(Token::operator_priority(Token::Operator(Operator::Sub)), (1, Associate::LeftAssociative));
    assert_eq!(Token::operator_priority(Token::Operator(Operator::Mul)), (2, Associate::LeftAssociative));
    assert_eq!(Token::operator_priority(Token::Operator(Operator::Div)), (2, Associate::LeftAssociative));
    assert_eq!(Token::operator_priority(Token::Operator(Operator::Pow)), (3, Associate::RightAssociative));
    assert_eq!(Token::operator_priority(Token::Operator(Operator::Une)), (4, Associate::RightAssociative));
    assert_eq!(Token::operator_priority(Token::Operator(Operator::Fac)), (5, Associate::LeftAssociative));
    assert_eq!(Token::operator_priority(Token::Operator(Operator::Eql)), (0, Associate::RightAssociative));
}

#[test]
fn compare_operator_priority_cases() {
    let op = |o| Token::Operator(o);
    assert!(Token::compare_operator_priority(op(Operator::Add), op(Operator::Sub)));
    assert!(!Token::compare_operator_priority(op(Operator::Mul), op(Operator::Add)));
    assert!(!Token::compare_operator_priority(op(Operator::Pow), op(Operator::Pow)));
    assert!(Token::compare_operator_priority(op(Operator::Pow), op(Operator::Une)));
}

// ---- numbers

#[test]
fn number_arithmetic() {
    assert_eq!(natural(7).add(&natural(5)), natural(12));
    assert_eq!(natural(7).sub(&natural(5)), natural(2));
    assert_eq!(natural(7).mul(&natural(-5)), natural(-35));
    assert_eq!(natural(7).div(&natural(14)), frac(1, 2));
    assert_eq!(frac(1, 2).add(&natural(1)), frac(3, 2));
    assert_eq!(frac(1, 3).mul(&frac(3, 4)), frac(1, 4));
    assert_eq!(frac(1, 3).sub(&frac(1, 2)), frac(-1, 6));
    assert_eq!(frac(2, -4), frac(-1, 2));
    assert_eq!(frac(3, 2).neg(), frac(-3, 2));
    assert!(frac(0, 5).is_zero());
    assert!(frac(-1, 5).is_negative());
    assert_eq!(natural(2), frac(2, 1));
    assert!(!natural(2).same(&frac(2, 1)));
    assert!(frac(4, 2).same(&frac(2, 1)));
}

#[test]
fn number_to_i64() {
    assert_eq!(natural(-42).to_i64(), Some(-42));
    assert_eq!(frac(-7, 2).to_i64(), Some(-3));
    assert_eq!(frac(7, 2).to_i64(), Some(3));
    assert_eq!(eval("2^70").unwrap().to_i64(), None);
}

#[test]
fn integer_bytes_round_trip() {
    let i = Integer::from_i64(-1125);
    assert_eq!(i.to_signed_bytes_le(), vec![155, 251]);
    assert_eq!(Integer::from_signed_bytes_le(vec![155, 251]), Integer::from_i64(-1125));
    assert_eq!(Integer::from_i64(3).pow(4), Integer::from_i64(81));
    assert!(Integer::from_i64(0).is_zero());
    assert!(!Integer::from_i64(0).is_negative());
    let q = frac(14, 4).to_rational();
    assert_eq!((q.numer(), q.denom()), (Integer::from_i64(7), Integer::from_i64(2)));
}

#[test]
fn number_compare_across_kinds() {
    assert_eq!(natural(2).compare(&frac(5, 2)), Ordering::Less);
    assert_eq!(frac(4, 2).compare(&natural(2)), Ordering::Equal);
    assert_eq!(frac(-1, 3).compare(&frac(-1, 2)), Ordering::Greater);
    assert_eq!(natural(-7).compare(&natural(-7)), Ordering::Equal);
}

#[test]
fn number_narrowing() {
    assert_eq!(natural(70000).to_i32(), Some(70000));
    assert_eq!(natural(3_000_000_000).to_i32(), None);
    assert_eq!(frac(-9, 4).to_i32(), Some(-2));
    assert_eq!(frac(-9, 4).to_integer(), Integer::from_i64(-2));
    assert_eq!(natural(12).to_integer(), Integer::from_i64(12));
}

#[test]
fn decimal_literals_are_nearest_doubles() {
    let r = eval("0.1+0.2").unwrap();
    assert_eq!(to_f64(&r), 0.30000000000000004);
    let expected = BigRational::from_float(0.1).unwrap() + BigRational::from_float(0.2).unwrap();
    match r {
        Number::DecimalNumber(q) => {
            assert_eq!(big(&q.numer()), expected.numer().clone());
            assert_eq!(big(&q.denom()), expected.denom().clone());
        }
        _ => panic!("expected a decimal"),
    }
    for text in ["0.5", "1.0000000000000002", "123456789.987654321", "0.000001", "9007199254740993.0", ".1"] {
        let parsed: f64 = text.parse().unwrap();
        assert!(
            Token::tokenize(text).unwrap() == Token::Operand(Number::DecimalNumber(rational_of(parsed).unwrap())),
            "{}",
            text
        );
    }
}

#[test]
fn decimal_literal_extremes() {
    let tiny = format!("0.{}5", "0".repeat(323));
    let parsed: f64 = tiny.parse().unwrap();
    assert_eq!(Token::tokenize(&tiny), Some(Token::Operand(Number::DecimalNumber(rational_of(parsed).unwrap()))));
    let zero = format!("0.{}1", "0".repeat(400));
    assert_eq!(Token::tokenize(&zero), Some(Token::Operand(frac(0, 1))));
    let huge = format!("{}.0", "9".repeat(400));
    assert_eq!(Token::tokenize(&huge), Some(Token::Variable(huge.chars().collect())));
}

#[test]
fn names_fold_with_full_lower_case() {
    let mut session = Session::new();
    session.set("ÄX", 4);
    assert_eq!(session.lookup(&vec!['ä', 'x']), Some(natural(4)));
    session.setf("Ö", Rational::new(&Integer::from_i64(1), &Integer::from_i64(2)));
    assert_eq!(session.lookup(&vec!['ö']), Some(frac(1, 2)));
    let infix = vec![var("Ü")];
    RpnResolver::reverse_polish_notation(&infix, &mut session);
    assert_eq!(session.lookup(&vec!['ü']), Some(natural(0)));
}

#[test]
fn operator_symbols() {
    for o in [Operator::Add, Operator::Sub, Operator::Mul, Operator::Div, Operator::Pow, Operator::Une, Operator::Fac, Operator::Eql] {
        assert_eq!(Token::from_operator(o.symbol()), Some(Token::Operator(o)));
    }
    assert_eq!(Operator::Pow.symbol(), '^');
}

#[test]
fn number_to_i128() {
    assert_eq!(eval("2^100").unwrap().to_i128(), Some(1i128 << 100));
    assert_eq!(eval("2^127").unwrap().to_i128(), None);
    assert_eq!(frac(-7, 2).to_i128(), Some(-3));
}
