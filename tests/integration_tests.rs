use num_bigint::BigInt;
use num_rational::BigRational;
use num_traits::ToPrimitive;
use yarer::integer::Integer;
use yarer::rational::Rational;
use yarer::rpn_resolver::{EvalError, Request, Resolution, RpnResolver};
use yarer::session::Session;
use yarer::token::{MathFunction, Number};

fn big(i: &Integer) -> BigInt {
    BigInt::from_signed_bytes_le(&i.to_signed_bytes_le())
}

fn to_f64(n: &Number) -> f64 {
    match n {
        Number::NaturalNumber(i) => big(i).to_f64().unwrap(),
        Number::DecimalNumber(q) => BigRational::new(big(&q.numer()), big(&q.denom())).to_f64().unwrap(),
    }
}

fn rational_of(v: f64) -> Option<Rational> {
    BigRational::from_float(v).map(|r| {
        Rational::new(
            &Integer::from_signed_bytes_le(r.numer().to_signed_bytes_le()),
            &Integer::from_signed_bytes_le(r.denom().to_signed_bytes_le()),
        )
    })
}

fn answer(req: &Request) -> Option<Rational> {
    let v = match req {
        Request::Power(b, e) => to_f64(b).powf(to_f64(e)),
        Request::Apply(f, args) => {
            let x = to_f64(&args[0]);
            match f {
                MathFunction::Sin => x.sin(),
                MathFunction::Cos => x.cos(),
                MathFunction::Tan => x.tan(),
                MathFunction::ASin => x.asin(),
                MathFunction::ACos => x.acos(),
                MathFunction::ATan => x.atan(),
                MathFunction::Ln => x.ln(),
                MathFunction::Log => x.log10(),
                MathFunction::Abs => x.abs(),
                MathFunction::Sqrt => x.sqrt(),
                MathFunction::Max => x.max(to_f64(&args[1])),
                MathFunction::Min => x.min(to_f64(&args[1])),
                MathFunction::Floor => x.floor(),
                MathFunction::Ceil => x.ceil(),
                MathFunction::Round => x.round(),
                MathFunction::Exp => x.exp(),
                _ => f64::NAN,
            }
        }
    };
    rational_of(v)
}

fn run(resolver: &RpnResolver, session: &mut Session) -> Result<Number, EvalError> {
    let mut answers: Vec<Option<Rational>> = Vec::new();
    loop {
        match resolver.resolve(session, &answers) {
            Resolution::Done(r) => return r,
            Resolution::Needs(req) => answers.push(answer(&req)),
        }
    }
}

fn eval(expr: &str) -> Result<Number, EvalError> {
    let mut session = Session::init();
    let resolver = session.process(expr);
    run(&resolver, &mut session)
}

fn resolve_natural(expr: &str, expected: i64) {
    let r = eval(expr).unwrap();
    assert!(matches!(r, Number::NaturalNumber(_)), "{}", expr);
    assert_eq!(r, Number::integer(expected), "{}", expr);
}

fn resolve_decimal(expr: &str, expected: f64) {
    let r = eval(expr).unwrap();
    assert!(matches!(r, Number::DecimalNumber(_)), "{}", expr);
    assert_eq!(to_f64(&r), expected, "{}", expr);
}

fn resolve_err(expr: &str) {
    assert!(eval(expr).is_err(), "{}", expr);
}

#[test]
fn test_expressions() {
    resolve_natural("(3+4*(2-(3+1)*5+3)-6)*2+4", -122);
    resolve_decimal("tau", std::f64::consts::TAU);
    resolve_decimal("phi", (1.0 + 5.0f64.sqrt()) / 2.0);
    resolve_decimal("gamma", 0.577_215_664_901_532_9_f64);
    resolve_decimal("3*2^3+6/(2+1)", 26.0);
    resolve_decimal(
        "pi*4.+2^pi",
        std::f64::consts::PI * 4.0 + 2.0f64.powf(std::f64::consts::PI),
    );
    resolve_natural("2^3 * 4 + 5^2", 8 * 4 + 25);
    resolve_decimal("sin(pi/4) + cos(pi/4)", 1.414213562373095);
    resolve_decimal("tan(pi/4) * cos(pi/6)", 0.8660254037844386);
    // `log10` is a variable, not a function: the stack ends with two values.
    resolve_err("ln(e) + log10(100)");
    resolve_decimal("cos(sin(0.5) * pi / 2)", 0.7295860397469262);
    // decimals are exact rationals: the sum is rounded to f64 once, at the end
    let pi = BigRational::from_float(std::f64::consts::PI).unwrap();
    let e = BigRational::from_float(std::f64::consts::E).unwrap();
    let exact = pi.clone() * BigRational::from_integer(BigInt::from(8)) + pi / BigRational::from_integer(BigInt::from(2)) - e;
    resolve_decimal("pi * 2^3 + pi / 2 - e", exact.to_f64().unwrap());
    resolve_natural("2 ^ 3 ^ 2", 512);
    resolve_err("ln(e^2) - log10(1000)");
    resolve_decimal(
        "pi^2 - e^2",
        std::f64::consts::PI * std::f64::consts::PI - std::f64::consts::E * std::f64::consts::E,
    );
    resolve_natural("(2 + 3) * (3 + 4) - (4 + 5) * (5 + 6)", -64);
    resolve_decimal("tan(0) * sin(pi) + cos(pi / 2)", 6.123233995736766e-17);
    resolve_natural("2^2^2 - 3^3", -11);
    resolve_natural("(2 + 3 * 4 + 5) * 2", 38);
    resolve_natural("4! - 3!", 18);
    resolve_natural("(2^3 + 3^2) * 4", 68);
    resolve_decimal("e * pi - pi * e", 0.0);
    resolve_natural("(2 + 3) * (4 - 5) + (6 - 7) * (8 + 9)", -22);
    resolve_err("ln(e^3) / log10(1000)");
    resolve_natural("(2^2 + 3^2) * (4^2 + 5^2)", 533);
    resolve_decimal(
        "pi*e*(pi-e)",
        std::f64::consts::PI * std::f64::consts::E * (std::f64::consts::PI - std::f64::consts::E),
    );
    resolve_decimal("((10 + 5) - 3 * ( 9 / 3 )) + 2", 8.0);
    resolve_natural("2^3^2 - 3^3", 512 - 27);

    resolve_decimal("min(1,2)", 1.0);
    resolve_decimal("max(1,2)", 2.0);
    resolve_decimal("min(max(2,3),max(5,1))", 3.0);

    resolve_decimal("((2+3)!/5!)*(10-7)", 3.0);
    resolve_decimal("log(1000)+ln(e^3)", 6.0);
    resolve_decimal("sqrt(9)+abs(-2)-min(5,3)", 2.0);
    // the comma separates the arguments: max(3, 12) - min(10, 5)
    resolve_decimal("max(1+2,3*4)-min(10,5)", 7.0);
    resolve_decimal("sin(pi/2)+cos(0)", 2.0);
    resolve_decimal("tan(pi/4)^2+1", 1.9999999999999998);
    resolve_natural("(2^3+3^2)^(1+1)", 289);
    resolve_natural("((3+5)*2)^2", 256);
    resolve_natural("4^(3-1)+2!", 18);
    resolve_natural("5!*2^2", 480);
    resolve_decimal("sin(pi/6)*cos(pi/3)", 0.25);
    resolve_decimal("abs(-10)+sqrt(16)", 14.0);
    resolve_decimal("ln(e^(2*2))", 4.0);
    resolve_decimal("log(100)+log(1000)", 5.0);
    resolve_decimal("sin(pi)*cos(0)", 1.2246467991473532e-16);
    resolve_decimal("sqrt(81)+sin(0)-tan(0)", 9.0);
    resolve_decimal("max(4,2)+min(1,2)*abs(-3)", 7.0);
    resolve_decimal("abs(-5^2)", 25.0);
    resolve_decimal("ln(e)+log(10)", 2.0);
    resolve_decimal("sqrt(2^3*4)", 5.656854249492381);
    resolve_natural("2^(3! - 5)", 2);
    resolve_natural("((3+1)!)+(2^3)", 32);
    resolve_decimal("((4+2)!)/((2+1)!)", 120.0);
    resolve_decimal("cos(pi/3)^2+sin(pi/3)^2", 1.0);
    resolve_decimal("atan(1)*4", std::f64::consts::PI);
    resolve_decimal("acos(0)", std::f64::consts::FRAC_PI_2);
    resolve_decimal("asin(1)", std::f64::consts::FRAC_PI_2);
    resolve_decimal("e^(ln(5))", 4.999999999999999);
    resolve_natural("(2+3)^2*(3!)", 150);
    resolve_decimal("sqrt(abs(-16))", 4.0);
    // max(3, 4)
    resolve_decimal("max(1+2,2+2)", 4.0);
    resolve_natural("3!+4!+5!", 150);
    resolve_decimal("sqrt(3^2+4^2)", 5.0);
    resolve_decimal("sin(pi/6)+cos(pi/3)", 1.0);
    resolve_decimal("ln(e^2)+log(100)", 4.0);
    resolve_decimal("sin(asin(1))", 1.0);
    resolve_decimal("cos(acos(0))", 6.123233995736766e-17);
    resolve_decimal("tan(atan(1))", 0.9999999999999999);
    resolve_decimal("2^-2", 0.25);
    resolve_decimal("3^-3", 0.037037037037037035);
    resolve_natural("2^(3^2)", 512);
    resolve_natural("4!+3!+2!", 32);
    resolve_decimal("((2^3 + 4^2) / (5 - 3))", 12.0);
    resolve_decimal("abs(-3)^2+abs(-4)^2", 25.0);
    resolve_decimal("sqrt(2)^2", 2.0000000000000004);
    resolve_decimal("sqrt(2)*sqrt(8)", 4.000000000000001);
    resolve_decimal("ln(e^(ln(e)))", 1.0);

    resolve_err("min()");
    resolve_err("max()");

    resolve_decimal("sqrt(16)", 4.0);
    resolve_decimal("abs(-3)", 3.0);
    resolve_decimal("asin(1)", std::f64::consts::FRAC_PI_2);
    resolve_decimal("acos(1)", 0.0);
    resolve_decimal("atan(1)", std::f64::consts::FRAC_PI_4);
}

#[test]
fn test_programmatic() {
    let mut session = Session::init();
    let resolver = session.process("x ^ 2");

    for i in 1..=64 {
        session.set("x", i);
        let result = run(&resolver, &mut session).unwrap();
        assert!(matches!(result, Number::NaturalNumber(_)));
        assert!(result == Number::integer(i * i));
    }
}

#[test]
fn test_sharing_session() {
    let mut session = Session::init();

    let res = session.process("x ^ 2");
    let res2 = session.process("x! - (x-1)!");

    session.set("x", 10);

    let a = run(&res, &mut session).unwrap();
    let b = run(&res2, &mut session).unwrap();
    assert!(a == Number::integer(100));
    let b: i64 = b.to_i64().unwrap();
    assert!(b == 3265920i64);
}

#[test]
fn integration_tests_test_session_set() {
    let mut session = Session::init();
    session.set("x", 4);
    let resolver = session.process("x+2*3/(4-5)");
    let r = run(&resolver, &mut session).unwrap();
    assert!(matches!(r, Number::DecimalNumber(_)));
    assert_eq!(r, Number::DecimalNumber(rational_of(-2.0).unwrap()));
}

#[test]
fn test_factorial_invalid_operand() {
    assert!(eval("(-1)!").is_err());
    assert!(eval("2.5!").is_err());
}
