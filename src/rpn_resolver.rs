use crate::integer::Integer;
use crate::parser::{chunk_len, classify, is_digit, lex, parsed, run_len, unary_from, CharClass, Parser};
use crate::rational::Rational;
use crate::session::Session;
use crate::token::{
    push_token,
    lower_of, lowercase, value_add, value_div, value_is_negative, value_is_zero, value_mul,
    value_neg, value_sub, views, yields_to, Bracket, MathFunction, Number, Operator, Token,
    TokenView, Value,
};
use vstd::arithmetic::power::pow;
use vstd::prelude::*;

verus! {

/// The largest operand that the factorial accepts.
pub const MAX_FACTORIAL: i64 = 10000;

/// Why an evaluation failed.
#[derive(Debug, PartialEq, Eq, Structural, Clone, Copy)]
pub enum EvalError {
    /// An operator or function lacks an operand, or the expression does not end with one value.
    MalformedExpression,
    /// Division by zero, or zero raised to a negative power.
    DivisionByZero,
    /// Factorial of a negative or non-integer operand.
    FactorialDomainError,
    /// `=` without a variable on its left.
    NoVariableForAssignment,
    /// A token that evaluation does not interpret.
    UnsupportedToken,
    /// A floating-point result that is infinite or not a number.
    NotFinite,
    /// A factorial operand or an integer exponent beyond what is computed.
    TooLarge,
}

/// Work that only floating point can do, handed to the caller.
#[derive(Debug)]
pub enum Request {
    /// Apply a math function to its arguments, the last operand first.
    Apply(MathFunction, Vec<Number>),
    /// Raise `base` to `exponent` where the result is not an exact integer power.
    Power(Number, Number),
}

pub enum RequestView {
    Apply(MathFunction, Seq<Value>),
    Power(Value, Value),
}

impl View for Request {
    type V = RequestView;

    open spec fn view(&self) -> RequestView {
        match self {
            Request::Apply(f, args) => RequestView::Apply(*f, args@.map_values(|n: Number| n@)),
            Request::Power(b, e) => RequestView::Power(b@, e@),
        }
    }
}

/// Where an evaluation stands: finished, or waiting for the answer to a request.
#[derive(Debug)]
pub enum Resolution {
    Done(Result<Number, EvalError>),
    Needs(Request),
}

pub enum ResolutionView {
    Done(Result<Value, EvalError>),
    Needs(RequestView),
}

impl View for Resolution {
    type V = ResolutionView;

    open spec fn view(&self) -> ResolutionView {
        match self {
            Resolution::Done(Ok(n)) => ResolutionView::Done(Ok(n@)),
            Resolution::Done(Err(e)) => ResolutionView::Done(Err(*e)),
            Resolution::Needs(q) => ResolutionView::Needs(q@),
        }
    }
}

/// A value on the evaluation stack, with the variable that produced it, if any.
pub struct StackEntry {
    pub value: Number,
    pub var: Option<Vec<char>>,
}

pub open spec fn entry_view(e: StackEntry) -> (Value, Option<Seq<char>>) {
    (
        e.value@,
        match e.var {
            Some(v) => Some(v@),
            None => None,
        },
    )
}

pub open spec fn stack_views(s: Seq<StackEntry>) -> Seq<(Value, Option<Seq<char>>)> {
    s.map_values(|e: StackEntry| entry_view(e))
}

/// The answers handed back for the requests, in order; `None` for a result that is not finite.
pub open spec fn answer_views(a: Seq<Option<Rational>>) -> Seq<Option<(int, int)>> {
    a.map_values(
        |x: Option<Rational>|
            match x {
                Some(q) => Some(q@),
                None => None,
            },
    )
}

/// The state of an evaluation between two tokens.
pub struct EvalState {
    pub stack: Seq<(Value, Option<Seq<char>>)>,
    pub env: Map<Seq<char>, Value>,
    pub used: nat,
}

pub enum Step {
    Next(EvalState),
    Halt(ResolutionView),
}

pub open spec fn factorial(n: nat) -> int
    decreases n,
{
    if n == 0 {
        1
    } else {
        n * factorial((n - 1) as nat)
    }
}

pub open spec fn push_value(st: EvalState, s: Seq<(Value, Option<Seq<char>>)>, v: Value) -> Step {
    Step::Next(EvalState { stack: s.push((v, None)), env: st.env, used: st.used })
}

pub open spec fn fail(e: EvalError) -> Step {
    Step::Halt(ResolutionView::Done(Err(e)))
}

/// The next answer becomes a decimal on the stack `s`; without one, the request is made.
pub open spec fn answer_step(
    st: EvalState,
    s: Seq<(Value, Option<Seq<char>>)>,
    req: RequestView,
    answers: Seq<Option<(int, int)>>,
) -> Step {
    if st.used < answers.len() {
        match answers[st.used as int] {
            Some(q) => Step::Next(
                EvalState {
                    stack: s.push((Value::Decimal(q.0, q.1), None)),
                    env: st.env,
                    used: st.used + 1,
                },
            ),
            None => fail(EvalError::NotFinite),
        }
    } else {
        Step::Halt(ResolutionView::Needs(req))
    }
}

pub open spec fn factorial_step(st: EvalState, s: Seq<(Value, Option<Seq<char>>)>, v: Value) -> Step {
    match v {
        Value::Natural(n) => if n < 0 {
            fail(EvalError::FactorialDomainError)
        } else if n > MAX_FACTORIAL {
            fail(EvalError::TooLarge)
        } else {
            push_value(st, s, Value::Natural(factorial(n as nat)))
        },
        Value::Decimal(_, _) => fail(EvalError::FactorialDomainError),
    }
}

pub open spec fn power_step(
    st: EvalState,
    s: Seq<(Value, Option<Seq<char>>)>,
    left: Value,
    right: Value,
    answers: Seq<Option<(int, int)>>,
) -> Step {
    if value_is_negative(right) && value_is_zero(left) {
        fail(EvalError::DivisionByZero)
    } else {
        match (left, right) {
            (Value::Natural(b), Value::Natural(e)) if e >= 0 => if e <= u32::MAX {
                push_value(st, s, Value::Natural(pow(b, e as nat)))
            } else {
                fail(EvalError::TooLarge)
            },
            _ => answer_step(st, s, RequestView::Power(left, right), answers),
        }
    }
}

pub open spec fn operator_step(op: Operator, st: EvalState, answers: Seq<Option<(int, int)>>) -> Step {
    if st.stack.len() == 0 {
        fail(EvalError::MalformedExpression)
    } else {
        let right = st.stack.last().0;
        let s1 = st.stack.drop_last();
        if op == Operator::Une {
            push_value(st, s1, value_neg(right))
        } else if op == Operator::Fac {
            factorial_step(st, s1, right)
        } else if s1.len() == 0 {
            fail(EvalError::MalformedExpression)
        } else {
            let left = s1.last().0;
            let left_var = s1.last().1;
            let s2 = s1.drop_last();
            match op {
                Operator::Add => push_value(st, s2, value_add(left, right)),
                Operator::Sub => push_value(st, s2, value_sub(left, right)),
                Operator::Mul => push_value(st, s2, value_mul(left, right)),
                Operator::Div => if value_is_zero(right) {
                    fail(EvalError::DivisionByZero)
                } else {
                    push_value(st, s2, value_div(left, right))
                },
                Operator::Pow => power_step(st, s2, left, right, answers),
                _ => match left_var {
                    Some(k) => Step::Next(
                        EvalState {
                            stack: s2.push((right, None)),
                            env: st.env.insert(k, right),
                            used: st.used,
                        },
                    ),
                    None => fail(EvalError::NoVariableForAssignment),
                },
            }
        }
    }
}

pub open spec fn function_step(f: MathFunction, st: EvalState, answers: Seq<Option<(int, int)>>) -> Step {
    if st.stack.len() == 0 {
        fail(EvalError::MalformedExpression)
    } else {
        let value = st.stack.last().0;
        let s1 = st.stack.drop_last();
        if f == MathFunction::Max || f == MathFunction::Min {
            if s1.len() == 0 {
                fail(EvalError::MalformedExpression)
            } else {
                answer_step(
                    st,
                    s1.drop_last(),
                    RequestView::Apply(f, seq![value, s1.last().0]),
                    answers,
                )
            }
        } else if f == MathFunction::NoFunction {
            fail(EvalError::UnsupportedToken)
        } else {
            answer_step(st, s1, RequestView::Apply(f, seq![value]), answers)
        }
    }
}

/// The value of a variable; one never assigned reads as decimal zero.
pub open spec fn read_variable(env: Map<Seq<char>, Value>, k: Seq<char>) -> Value {
    if env.contains_key(k) {
        env[k]
    } else {
        Value::Decimal(0, 1)
    }
}

/// What one postfix token does to the evaluation.
pub open spec fn step(t: TokenView, st: EvalState, answers: Seq<Option<(int, int)>>) -> Step {
    match t {
        TokenView::Operand(v) => push_value(st, st.stack, v),
        TokenView::Variable(name) => Step::Next(
            EvalState {
                stack: st.stack.push((read_variable(st.env, lower_of(name)), Some(lower_of(name)))),
                env: st.env,
                used: st.used,
            },
        ),
        TokenView::Operator(op) => operator_step(op, st, answers),
        TokenView::Function(f) => function_step(f, st, answers),
        TokenView::SemiColon => Step::Next(EvalState { stack: Seq::empty(), env: st.env, used: st.used }),
        _ => fail(EvalError::UnsupportedToken),
    }
}

/// The result once every token is read: the single value left on the stack.
pub open spec fn finish(st: EvalState) -> ResolutionView {
    if st.stack.len() == 1 {
        ResolutionView::Done(Ok(st.stack[0].0))
    } else {
        ResolutionView::Done(Err(EvalError::MalformedExpression))
    }
}

/// The outcome of evaluating `toks` from position `i`, with the environment at the end.
pub open spec fn run_from(
    toks: Seq<TokenView>,
    i: int,
    st: EvalState,
    answers: Seq<Option<(int, int)>>,
) -> (ResolutionView, Map<Seq<char>, Value>)
    decreases toks.len() - i,
{
    if i < 0 || i >= toks.len() {
        (finish(st), st.env)
    } else {
        match step(toks[i], st, answers) {
            Step::Next(st2) => run_from(toks, i + 1, st2, answers),
            Step::Halt(r) => (r, st.env),
        }
    }
}

/// The outcome of evaluating postfix tokens against an environment and the answers
/// to its floating-point requests, with the environment it leaves.
pub open spec fn evaluation(
    toks: Seq<TokenView>,
    env: Map<Seq<char>, Value>,
    answers: Seq<Option<(int, int)>>,
) -> (ResolutionView, Map<Seq<char>, Value>) {
    run_from(toks, 0, EvalState { stack: Seq::empty(), env, used: 0 }, answers)
}

/// Whether an executed step left the stack, environment and answer count, or the
/// result, that the step prescribes.
pub open spec fn outcome_matches(
    s: Step,
    r: Option<Resolution>,
    stack: Seq<StackEntry>,
    env: Map<Seq<char>, Value>,
    used: nat,
) -> bool {
    match s {
        Step::Next(st2) => r is None && stack_views(stack) == st2.stack && env == st2.env && used
            == st2.used,
        Step::Halt(h) => r is Some && r->Some_0@ == h,
    }
}

fn pop_entry(stack: &mut Vec<StackEntry>) -> (r: StackEntry)
    requires
        old(stack).len() > 0,
    ensures
        stack_views(final(stack)@) == stack_views(old(stack)@).drop_last(),
        entry_view(r) == stack_views(old(stack)@).last(),
{
    let r = stack.pop().unwrap();
    assert(stack_views(stack@) =~= stack_views(old(stack)@).drop_last());
    r
}

fn push_entry(stack: &mut Vec<StackEntry>, value: Number, var: Option<Vec<char>>)
    ensures
        stack_views(final(stack)@) == stack_views(old(stack)@).push(
            entry_view(StackEntry { value, var }),
        ),
{
    stack.push(StackEntry { value, var });
    assert(stack_views(stack@) =~= stack_views(old(stack)@).push(
        entry_view(StackEntry { value, var }),
    ));
}

fn malformed() -> (r: Option<Resolution>)
    ensures
        r is Some && r->Some_0@ == ResolutionView::Done(Err(EvalError::MalformedExpression)),
{
    Some(Resolution::Done(Err(EvalError::MalformedExpression)))
}

fn failure(e: EvalError) -> (r: Option<Resolution>)
    ensures
        r is Some && r->Some_0@ == ResolutionView::Done(Err(e)),
{
    Some(Resolution::Done(Err(e)))
}

/// Hands the next answer on as a decimal, or asks for it.
fn take_answer(
    req: Request,
    stack: &mut Vec<StackEntry>,
    used: &mut usize,
    answers: &Vec<Option<Rational>>,
    Ghost(st): Ghost<EvalState>,
) -> (r: Option<Resolution>)
    requires
        *old(used) <= answers.len(),
        st.used == *old(used) as nat,
    ensures
        *final(used) <= answers.len(),
        outcome_matches(
            answer_step(st, stack_views(old(stack)@), req@, answer_views(answers@)),
            r,
            final(stack)@,
            st.env,
            *final(used) as nat,
        ),
{
    if *used < answers.len() {
        let ghost a = answers@[*used as int];
        assert(answer_views(answers@)[*used as int] == match a {
            Some(q) => Some(q@),
            None => None::<(int, int)>,
        });
        match &answers[*used] {
            Some(q) => {
                let d = q.copy();
                push_entry(stack, Number::DecimalNumber(d), None);
                *used = *used + 1;
                None
            },
            None => failure(EvalError::NotFinite),
        }
    } else {
        Some(Resolution::Needs(req))
    }
}

impl RpnResolver {
    /// `n!`, as a running product.
    pub fn factorial_helper(n: u64) -> (r: Integer)
        ensures
            r@ == factorial(n as nat),
    {
        let one = Integer::from_i64(1);
        let mut acc = Integer::from_i64(1);
        let mut k = Integer::from_i64(0);
        let mut i: u64 = 0;
        while i < n
            invariant
                i <= n,
                k@ == i as int,
                one@ == 1,
                acc@ == factorial(i as nat),
            decreases n - i,
        {
            let ghost prev = acc@;
            k = k.add(&one);
            acc = acc.mul(&k);
            proof {
                assert(factorial((i + 1) as nat) == (i + 1) * factorial(i as nat));
                vstd::arithmetic::mul::lemma_mul_is_commutative(prev, (i + 1) as int);
            }
            i = i + 1;
        }
        acc
    }
}

fn factorial_exec(
    v: &Number,
    stack: &mut Vec<StackEntry>,
    Ghost(st): Ghost<EvalState>,
) -> (r: Option<Resolution>)
    ensures
        outcome_matches(
            factorial_step(st, stack_views(old(stack)@), v@),
            r,
            final(stack)@,
            st.env,
            st.used,
        ),
{
    match v {
        Number::NaturalNumber(n) => {
            if n.is_negative() {
                return failure(EvalError::FactorialDomainError);
            }
            match n.to_i64() {
                Some(k) => {
                    if k <= MAX_FACTORIAL {
                        push_entry(stack, Number::NaturalNumber(RpnResolver::factorial_helper(k as u64)), None);
                        None
                    } else {
                        failure(EvalError::TooLarge)
                    }
                },
                None => failure(EvalError::TooLarge),
            }
        },
        Number::DecimalNumber(_) => failure(EvalError::FactorialDomainError),
    }
}

fn power_exec(
    left: Number,
    right: Number,
    stack: &mut Vec<StackEntry>,
    used: &mut usize,
    answers: &Vec<Option<Rational>>,
    Ghost(st): Ghost<EvalState>,
) -> (r: Option<Resolution>)
    requires
        *old(used) <= answers.len(),
        st.used == *old(used) as nat,
    ensures
        *final(used) <= answers.len(),
        outcome_matches(
            power_step(st, stack_views(old(stack)@), left@, right@, answer_views(answers@)),
            r,
            final(stack)@,
            st.env,
            *final(used) as nat,
        ),
{
    if right.is_negative() && left.is_zero() {
        return failure(EvalError::DivisionByZero);
    }
    if let (Number::NaturalNumber(b), Number::NaturalNumber(e)) = (&left, &right) {
        if !e.is_negative() {
            match e.to_i64() {
                Some(k) => {
                    if k <= 4294967295 {
                        push_entry(stack, Number::NaturalNumber(b.pow(k as u32)), None);
                        return None;
                    }
                },
                None => {},
            }
            return failure(EvalError::TooLarge);
        }
    }
    take_answer(Request::Power(left, right), stack, used, answers, Ghost(st))
}

fn operator_exec(
    op: Operator,
    stack: &mut Vec<StackEntry>,
    env: &mut Session,
    used: &mut usize,
    answers: &Vec<Option<Rational>>,
) -> (r: Option<Resolution>)
    requires
        old(env).wf(),
        *old(used) <= answers.len(),
    ensures
        final(env).wf(),
        *final(used) <= answers.len(),
        outcome_matches(
            operator_step(
                op,
                EvalState { stack: stack_views(old(stack)@), env: old(env)@, used: *old(used) as nat },
                answer_views(answers@),
            ),
            r,
            final(stack)@,
            final(env)@,
            *final(used) as nat,
        ),
{
    let ghost st = EvalState { stack: stack_views(stack@), env: env@, used: *used as nat };
    if stack.len() == 0 {
        return malformed();
    }
    let right = pop_entry(stack);
    if op == Operator::Une {
        push_entry(stack, right.value.neg(), None);
        return None;
    }
    if op == Operator::Fac {
        return factorial_exec(&right.value, stack, Ghost(st));
    }
    if stack.len() == 0 {
        return malformed();
    }
    let left = pop_entry(stack);
    match op {
        Operator::Add => {
            push_entry(stack, left.value.add(&right.value), None);
            None
        },
        Operator::Sub => {
            push_entry(stack, left.value.sub(&right.value), None);
            None
        },
        Operator::Mul => {
            push_entry(stack, left.value.mul(&right.value), None);
            None
        },
        Operator::Div => {
            if right.value.is_zero() {
                failure(EvalError::DivisionByZero)
            } else {
                push_entry(stack, left.value.div(&right.value), None);
                None
            }
        },
        Operator::Pow => power_exec(left.value, right.value, stack, used, answers, Ghost(st)),
        _ => {
            match left.var {
                Some(k) => {
                    env.insert(k, right.value.copy());
                    push_entry(stack, right.value, None);
                    None
                },
                None => failure(EvalError::NoVariableForAssignment),
            }
        },
    }
}

fn function_exec(
    f: MathFunction,
    stack: &mut Vec<StackEntry>,
    used: &mut usize,
    answers: &Vec<Option<Rational>>,
    Ghost(env): Ghost<Map<Seq<char>, Value>>,
) -> (r: Option<Resolution>)
    requires
        *old(used) <= answers.len(),
    ensures
        *final(used) <= answers.len(),
        outcome_matches(
            function_step(
                f,
                EvalState { stack: stack_views(old(stack)@), env, used: *old(used) as nat },
                answer_views(answers@),
            ),
            r,
            final(stack)@,
            env,
            *final(used) as nat,
        ),
{
    let ghost st = EvalState { stack: stack_views(stack@), env, used: *used as nat };
    if stack.len() == 0 {
        return malformed();
    }
    let value = pop_entry(stack);
    if f == MathFunction::Max || f == MathFunction::Min {
        if stack.len() == 0 {
            return malformed();
        }
        let value2 = pop_entry(stack);
        let args = vec![value.value, value2.value];
        assert(args@.map_values(|n: Number| n@) =~= seq![st.stack.last().0, st.stack.drop_last().last().0]);
        take_answer(Request::Apply(f, args), stack, used, answers, Ghost(st))
    } else if f == MathFunction::NoFunction {
        failure(EvalError::UnsupportedToken)
    } else {
        let args = vec![value.value];
        assert(args@.map_values(|n: Number| n@) =~= seq![st.stack.last().0]);
        take_answer(Request::Apply(f, args), stack, used, answers, Ghost(st))
    }
}

fn step_exec(
    tok: &Token,
    stack: &mut Vec<StackEntry>,
    env: &mut Session,
    used: &mut usize,
    answers: &Vec<Option<Rational>>,
) -> (r: Option<Resolution>)
    requires
        old(env).wf(),
        *old(used) <= answers.len(),
    ensures
        final(env).wf(),
        *final(used) <= answers.len(),
        outcome_matches(
            step(
                tok@,
                EvalState { stack: stack_views(old(stack)@), env: old(env)@, used: *old(used) as nat },
                answer_views(answers@),
            ),
            r,
            final(stack)@,
            final(env)@,
            *final(used) as nat,
        ),
{
    match tok {
        Token::Operand(n) => {
            push_entry(stack, n.copy(), None);
            None
        },
        Token::Variable(name) => {
            let k = lowercase(name);
            let v = match env.lookup(&k) {
                Some(x) => x,
                None => Number::DecimalNumber(Rational::from_integer(&Integer::from_i64(0))),
            };
            push_entry(stack, v, Some(k));
            None
        },
        Token::Operator(op) => operator_exec(*op, stack, env, used, answers),
        Token::Function(f) => function_exec(*f, stack, used, answers, Ghost(env@)),
        Token::SemiColon => {
            *stack = Vec::new();
            assert(stack_views(stack@) =~= Seq::empty());
            None
        },
        _ => failure(EvalError::UnsupportedToken),
    }
}

/// A step halts only with a failure or a request, never with a result.
proof fn lemma_halt_is_not_success(t: TokenView, st: EvalState, answers: Seq<Option<(int, int)>>)
    ensures
        step(t, st, answers) matches Step::Halt(h) ==> !(h matches ResolutionView::Done(Ok(_))),
{
}

/// A compiled expression: its tokens in postfix order.
#[derive(Debug)]
pub struct RpnResolver {
    rpn_expr: Vec<Token>,
}

impl RpnResolver {
    /// The postfix tokens.
    pub closed spec fn postfix(&self) -> Seq<TokenView> {
        views(self.rpn_expr@)
    }

    /// A resolver for tokens already in postfix order.
    pub fn from_postfix(tokens: Vec<Token>) -> (r: RpnResolver)
        ensures
            r.postfix() == views(tokens@),
    {
        RpnResolver { rpn_expr: tokens }
    }

    /// Evaluates the postfix expression against the session's variables.
    ///
    /// `answers` holds the results of the floating-point requests made so far, in
    /// order. The evaluation is deterministic: it either finishes, or stops at the
    /// first request that has no answer yet and returns it, to be called again with
    /// one more answer. Assignments reach the session only when the evaluation
    /// finishes with a value; otherwise the session is left as it was.
    pub fn resolve(&self, session: &mut Session, answers: &Vec<Option<Rational>>) -> (r: Resolution)
        requires
            old(session).wf(),
        ensures
            final(session).wf(),
            ({
                let (res, env) = evaluation(self.postfix(), old(session)@, answer_views(answers@));
                &&& r@ == res
                &&& final(session)@ == if res matches ResolutionView::Done(Ok(_)) {
                    env
                } else {
                    old(session)@
                }
            }),
    {
        let ghost toks = views(self.rpn_expr@);
        let ghost ans = answer_views(answers@);
        let ghost init = EvalState { stack: Seq::empty(), env: session@, used: 0 };
        let mut env = session.copy();
        let mut stack: Vec<StackEntry> = Vec::new();
        let mut used: usize = 0;
        let mut i: usize = 0;
        assert(stack_views(stack@) =~= Seq::empty());
        while i < self.rpn_expr.len()
            invariant
                i <= self.rpn_expr@.len(),
                env.wf(),
                session.wf(),
                session@ == init.env,
                used <= answers.len(),
                toks == views(self.rpn_expr@),
                ans == answer_views(answers@),
                init == (EvalState { stack: Seq::empty(), env: old(session)@, used: 0 }),
                run_from(
                    toks,
                    i as int,
                    EvalState { stack: stack_views(stack@), env: env@, used: used as nat },
                    ans,
                ) == run_from(toks, 0, init, ans),
            decreases self.rpn_expr@.len() - i,
        {
            let ghost st = EvalState { stack: stack_views(stack@), env: env@, used: used as nat };
            assert(toks[i as int] == self.rpn_expr@[i as int]@);
            proof {
                lemma_halt_is_not_success(toks[i as int], st, ans);
            }
            match step_exec(&self.rpn_expr[i], &mut stack, &mut env, &mut used, answers) {
                Some(res) => {
                    return res;
                },
                None => {},
            }
            i = i + 1;
        }
        if stack.len() == 1 {
            let v = stack[0].value.copy();
            *session = env;
            Resolution::Done(Ok(v))
        } else {
            Resolution::Done(Err(EvalError::MalformedExpression))
        }
    }
}

/// `)`: operators go to the output until the matching `(`, which is dropped; a
/// function waiting before it follows its arguments.
pub open spec fn close_group(out: Seq<TokenView>, ops: Seq<TokenView>) -> (Seq<TokenView>, Seq<TokenView>)
    decreases ops.len(),
{
    if ops.len() == 0 {
        (out, ops)
    } else if ops.last() == TokenView::Bracket(Bracket::Open) {
        let rest = ops.drop_last();
        if rest.len() > 0 && rest.last() is Function {
            (out.push(rest.last()), rest.drop_last())
        } else {
            (out, rest)
        }
    } else {
        close_group(out.push(ops.last()), ops.drop_last())
    }
}

/// `,`: operators go to the output until an `(`, which stays.
pub open spec fn close_argument(out: Seq<TokenView>, ops: Seq<TokenView>) -> (Seq<TokenView>, Seq<TokenView>)
    decreases ops.len(),
{
    if ops.len() == 0 || ops.last() == TokenView::Bracket(Bracket::Open) {
        (out, ops)
    } else {
        close_argument(out.push(ops.last()), ops.drop_last())
    }
}

/// Every waiting operator goes to the output, the last pushed first.
pub open spec fn flush(out: Seq<TokenView>, ops: Seq<TokenView>) -> Seq<TokenView>
    decreases ops.len(),
{
    if ops.len() == 0 {
        out
    } else {
        flush(out.push(ops.last()), ops.drop_last())
    }
}

/// Before `op1` is pushed, the operators it yields to and any functions go to the output.
pub open spec fn make_way(op1: Operator, out: Seq<TokenView>, ops: Seq<TokenView>) -> (Seq<TokenView>, Seq<TokenView>)
    decreases ops.len(),
{
    if ops.len() == 0 {
        (out, ops)
    } else {
        match ops.last() {
            TokenView::Operator(op2) => if yields_to(op1, op2) {
                make_way(op1, out.push(ops.last()), ops.drop_last())
            } else {
                (out, ops)
            },
            TokenView::Function(_) => make_way(op1, out.push(ops.last()), ops.drop_last()),
            _ => (out, ops),
        }
    }
}

/// One infix token: the output so far and the operator stack after it.
pub open spec fn yard_step(t: TokenView, out: Seq<TokenView>, ops: Seq<TokenView>) -> (Seq<TokenView>, Seq<TokenView>) {
    match t {
        TokenView::Operand(_) | TokenView::Variable(_) => (out.push(t), ops),
        TokenView::Bracket(Bracket::Open) | TokenView::Function(_) => (out, ops.push(t)),
        TokenView::Bracket(Bracket::Close) => close_group(out, ops),
        TokenView::Comma => close_argument(out, ops),
        TokenView::SemiColon => (flush(out, ops).push(TokenView::SemiColon), Seq::empty()),
        TokenView::Operator(op) => {
            let (o2, s2) = make_way(op, out, ops);
            (o2, s2.push(t))
        },
    }
}

pub open spec fn yard_from(toks: Seq<TokenView>, i: int, out: Seq<TokenView>, ops: Seq<TokenView>) -> Seq<TokenView>
    decreases toks.len() - i,
{
    if i < 0 || i >= toks.len() {
        flush(out, ops)
    } else {
        let (o2, s2) = yard_step(toks[i], out, ops);
        yard_from(toks, i + 1, o2, s2)
    }
}

/// The postfix order of infix tokens, by operator precedence.
pub open spec fn postfix_of(toks: Seq<TokenView>) -> Seq<TokenView> {
    yard_from(toks, 0, Seq::empty(), Seq::empty())
}

/// The environment after the variables among the first `n` tokens are registered:
/// a name without a value gets integer zero, one with a value keeps it.
pub open spec fn registered(env: Map<Seq<char>, Value>, toks: Seq<TokenView>, n: int) -> Map<Seq<char>, Value>
    decreases n,
{
    if n <= 0 || n > toks.len() {
        env
    } else {
        let before = registered(env, toks, n - 1);
        match toks[n - 1] {
            TokenView::Variable(name) => if before.contains_key(lower_of(name)) {
                before
            } else {
                before.insert(lower_of(name), Value::Natural(0))
            },
            _ => before,
        }
    }
}


fn pop_token(v: &mut Vec<Token>) -> (r: Token)
    requires
        old(v).len() > 0,
    ensures
        views(final(v)@) == views(old(v)@).drop_last(),
        r@ == views(old(v)@).last(),
        final(v).len() == old(v).len() - 1,
{
    let r = v.pop().unwrap();
    assert(views(v@) =~= views(old(v)@).drop_last());
    r
}

fn is_open(t: &Token) -> (r: bool)
    ensures
        r == (t@ == TokenView::Bracket(Bracket::Open)),
{
    match t {
        Token::Bracket(Bracket::Open) => true,
        _ => false,
    }
}

fn is_function(t: &Token) -> (r: bool)
    ensures
        r == t@ is Function,
{
    match t {
        Token::Function(_) => true,
        _ => false,
    }
}

fn close_group_exec(out: &mut Vec<Token>, ops: &mut Vec<Token>)
    ensures
        (views(final(out)@), views(final(ops)@)) == close_group(views(old(out)@), views(old(ops)@)),
{
    while ops.len() > 0 && !is_open(&ops[ops.len() - 1])
        invariant
            close_group(views(out@), views(ops@)) == close_group(
                views(old(out)@),
                views(old(ops)@),
            ),
        decreases ops.len(),
    {
        let t = pop_token(ops);
        push_token(out, t);
    }
    if ops.len() > 0 {
        pop_token(ops);
        if ops.len() > 0 && is_function(&ops[ops.len() - 1]) {
            let f = pop_token(ops);
            push_token(out, f);
        }
    }
}

fn close_argument_exec(out: &mut Vec<Token>, ops: &mut Vec<Token>)
    ensures
        (views(final(out)@), views(final(ops)@)) == close_argument(views(old(out)@), views(old(ops)@)),
{
    while ops.len() > 0 && !is_open(&ops[ops.len() - 1])
        invariant
            close_argument(views(out@), views(ops@)) == close_argument(
                views(old(out)@),
                views(old(ops)@),
            ),
        decreases ops.len(),
    {
        let t = pop_token(ops);
        push_token(out, t);
    }
}

fn flush_exec(out: &mut Vec<Token>, ops: &mut Vec<Token>)
    ensures
        views(final(out)@) == flush(views(old(out)@), views(old(ops)@)),
        final(ops)@.len() == 0,
{
    while ops.len() > 0
        invariant
            flush(views(out@), views(ops@)) == flush(views(old(out)@), views(old(ops)@)),
        decreases ops.len(),
    {
        let t = pop_token(ops);
        push_token(out, t);
    }
}

/// Whether the token on top of the stack leaves before `op1` is pushed.
fn gives_way(op1: Operator, top: &Token) -> (r: bool)
    ensures
        r == match top@ {
            TokenView::Operator(op2) => yields_to(op1, op2),
            TokenView::Function(_) => true,
            _ => false,
        },
{
    match top {
        Token::Operator(op2) => Token::compare_operator_priority(Token::Operator(op1), Token::Operator(*op2)),
        Token::Function(_) => true,
        _ => false,
    }
}

fn make_way_exec(op1: Operator, out: &mut Vec<Token>, ops: &mut Vec<Token>)
    ensures
        (views(final(out)@), views(final(ops)@)) == make_way(op1, views(old(out)@), views(old(ops)@)),
{
    while ops.len() > 0 && gives_way(op1, &ops[ops.len() - 1])
        invariant
            make_way(op1, views(out@), views(ops@)) == make_way(
                op1,
                views(old(out)@),
                views(old(ops)@),
            ),
        decreases ops.len(),
    {
        let t = pop_token(ops);
        push_token(out, t);
    }
}

impl RpnResolver {
    /// Transforms infix tokens into reverse Polish notation, and registers each
    /// variable that has no value yet in the session with integer zero.
    pub fn reverse_polish_notation(infix_stack: &Vec<Token>, local_heap: &mut Session) -> (r: Vec<Token>)
        requires
            old(local_heap).wf(),
        ensures
            final(local_heap).wf(),
            views(r@) == postfix_of(views(infix_stack@)),
            final(local_heap)@ == registered(old(local_heap)@, views(infix_stack@), infix_stack@.len() as int),
    {
        let ghost toks = views(infix_stack@);
        let mut out: Vec<Token> = Vec::new();
        let mut ops: Vec<Token> = Vec::new();
        let mut i: usize = 0;
        assert(views(out@) =~= Seq::empty());
        assert(views(ops@) =~= Seq::empty());
        while i < infix_stack.len()
            invariant
                i <= infix_stack@.len(),
                toks == views(infix_stack@),
                local_heap.wf(),
                local_heap@ == registered(old(local_heap)@, toks, i as int),
                yard_from(toks, i as int, views(out@), views(ops@)) == postfix_of(toks),
            decreases infix_stack@.len() - i,
        {
            let t = &infix_stack[i];
            assert(toks[i as int] == t@);
            match t {
                Token::Operand(_) => push_token(&mut out, t.copy()),
                Token::Bracket(Bracket::Open) => push_token(&mut ops, t.copy()),
                Token::Bracket(Bracket::Close) => close_group_exec(&mut out, &mut ops),
                Token::Comma => close_argument_exec(&mut out, &mut ops),
                Token::SemiColon => {
                    flush_exec(&mut out, &mut ops);
                    push_token(&mut out, Token::SemiColon);
                    assert(views(ops@) =~= Seq::empty());
                },
                Token::Operator(op) => {
                    make_way_exec(*op, &mut out, &mut ops);
                    push_token(&mut ops, t.copy());
                },
                Token::Function(_) => push_token(&mut ops, t.copy()),
                Token::Variable(name) => {
                    push_token(&mut out, t.copy());
                    local_heap.register(&lowercase(name));
                },
            }
            i = i + 1;
        }
        flush_exec(&mut out, &mut ops);
        out
    }
}

impl RpnResolver {
    /// Compiles an expression: tokens, unary operators, postfix order; its
    /// variables are registered in the session.
    pub fn parse_with_borrowed_heap(exp: &str, borrowed_heap: &mut Session) -> (r: RpnResolver)
        requires
            old(borrowed_heap).wf(),
        ensures
            final(borrowed_heap).wf(),
            r.postfix() == postfix_of(parsed(exp@)),
            final(borrowed_heap)@ == registered(
                old(borrowed_heap)@,
                parsed(exp@),
                parsed(exp@).len() as int,
            ),
    {
        let tokenised_expr = Parser::parse(exp);
        let rpn_expr = RpnResolver::reverse_polish_notation(&tokenised_expr, borrowed_heap);
        RpnResolver { rpn_expr }
    }
}

proof fn lemma_run_keeps_env(toks: Seq<TokenView>, i: int, st: EvalState, answers: Seq<Option<(int, int)>>)
    requires
        forall|j: int| 0 <= j < toks.len() ==> toks[j] != TokenView::Operator(Operator::Eql),
    ensures
        run_from(toks, i, st, answers).1 == st.env,
    decreases toks.len() - i,
{
    if 0 <= i < toks.len() {
        match step(toks[i], st, answers) {
            Step::Next(st2) => {
                assert(st2.env == st.env);
                lemma_run_keeps_env(toks, i + 1, st2, answers);
            },
            Step::Halt(_) => {},
        }
    }
}

/// An expression without assignments leaves the variables as they were, so
/// evaluating it again, with the same answers, gives the same outcome.
pub proof fn lemma_evaluation_repeatable(
    toks: Seq<TokenView>,
    env: Map<Seq<char>, Value>,
    answers: Seq<Option<(int, int)>>,
)
    requires
        forall|j: int| 0 <= j < toks.len() ==> toks[j] != TokenView::Operator(Operator::Eql),
    ensures
        evaluation(toks, env, answers).1 == env,
        evaluation(toks, evaluation(toks, env, answers).1, answers) == evaluation(toks, env, answers),
{
    lemma_run_keeps_env(toks, 0, EvalState { stack: Seq::empty(), env, used: 0 }, answers);
}

/// With two integers on top of the stack, `+`, `-` and `*` replace them with the
/// exact integer sum, difference and product.
pub proof fn lemma_integer_operators_exact(
    st: EvalState,
    x: int,
    y: int,
    answers: Seq<Option<(int, int)>>,
)
    requires
        st.stack.len() >= 2,
        st.stack.last().0 == Value::Natural(y),
        st.stack.drop_last().last().0 == Value::Natural(x),
    ensures
        operator_step(Operator::Add, st, answers) == push_value(
            st,
            st.stack.drop_last().drop_last(),
            Value::Natural(x + y),
        ),
        operator_step(Operator::Sub, st, answers) == push_value(
            st,
            st.stack.drop_last().drop_last(),
            Value::Natural(x - y),
        ),
        operator_step(Operator::Mul, st, answers) == push_value(
            st,
            st.stack.drop_last().drop_last(),
            Value::Natural(x * y),
        ),
{
}

/// Every token of `s` has the property `keep`.
pub open spec fn all_keep(s: Seq<TokenView>, keep: spec_fn(TokenView) -> bool) -> bool {
    forall|i: int| 0 <= i < s.len() ==> #[trigger] keep(s[i])
}

pub open spec fn not_assignment(t: TokenView) -> bool {
    t != TokenView::Operator(Operator::Eql)
}

proof fn lemma_push_keeps(s: Seq<TokenView>, x: TokenView, keep: spec_fn(TokenView) -> bool)
    requires
        all_keep(s, keep),
        keep(x),
    ensures
        all_keep(s.push(x), keep),
{
    assert forall|i: int| 0 <= i < s.push(x).len() implies #[trigger] keep(s.push(x)[i]) by {
        if i < s.len() {
            assert(s.push(x)[i] == s[i]);
        }
    }
}

proof fn lemma_pop_keeps(s: Seq<TokenView>, keep: spec_fn(TokenView) -> bool)
    requires
        all_keep(s, keep),
        s.len() > 0,
    ensures
        all_keep(s.drop_last(), keep),
        keep(s.last()),
{
    assert(keep(s[s.len() - 1]));
    assert forall|i: int| 0 <= i < s.drop_last().len() implies #[trigger] keep(s.drop_last()[i]) by {
        assert(s.drop_last()[i] == s[i]);
    }
}

proof fn lemma_concat_keeps(a: Seq<TokenView>, b: Seq<TokenView>, keep: spec_fn(TokenView) -> bool)
    requires
        all_keep(a, keep),
        all_keep(b, keep),
    ensures
        all_keep(a + b, keep),
{
    assert forall|i: int| 0 <= i < (a + b).len() implies #[trigger] keep((a + b)[i]) by {
        if i < a.len() {
            assert((a + b)[i] == a[i]);
        } else {
            assert((a + b)[i] == b[i - a.len()]);
        }
    }
}

proof fn lemma_close_group_keeps(out: Seq<TokenView>, ops: Seq<TokenView>, keep: spec_fn(TokenView) -> bool)
    requires
        all_keep(out, keep),
        all_keep(ops, keep),
    ensures
        all_keep(close_group(out, ops).0, keep),
        all_keep(close_group(out, ops).1, keep),
    decreases ops.len(),
{
    if ops.len() > 0 {
        lemma_pop_keeps(ops, keep);
        let rest = ops.drop_last();
        if ops.last() == TokenView::Bracket(Bracket::Open) {
            if rest.len() > 0 && rest.last() is Function {
                lemma_pop_keeps(rest, keep);
                lemma_push_keeps(out, rest.last(), keep);
            }
        } else {
            lemma_push_keeps(out, ops.last(), keep);
            lemma_close_group_keeps(out.push(ops.last()), rest, keep);
        }
    }
}

proof fn lemma_close_argument_keeps(out: Seq<TokenView>, ops: Seq<TokenView>, keep: spec_fn(TokenView) -> bool)
    requires
        all_keep(out, keep),
        all_keep(ops, keep),
    ensures
        all_keep(close_argument(out, ops).0, keep),
        all_keep(close_argument(out, ops).1, keep),
    decreases ops.len(),
{
    if ops.len() > 0 && ops.last() != TokenView::Bracket(Bracket::Open) {
        lemma_pop_keeps(ops, keep);
        lemma_push_keeps(out, ops.last(), keep);
        lemma_close_argument_keeps(out.push(ops.last()), ops.drop_last(), keep);
    }
}

proof fn lemma_flush_keeps(out: Seq<TokenView>, ops: Seq<TokenView>, keep: spec_fn(TokenView) -> bool)
    requires
        all_keep(out, keep),
        all_keep(ops, keep),
    ensures
        all_keep(flush(out, ops), keep),
    decreases ops.len(),
{
    if ops.len() > 0 {
        lemma_pop_keeps(ops, keep);
        lemma_push_keeps(out, ops.last(), keep);
        lemma_flush_keeps(out.push(ops.last()), ops.drop_last(), keep);
    }
}

proof fn lemma_make_way_keeps(
    op1: Operator,
    out: Seq<TokenView>,
    ops: Seq<TokenView>,
    keep: spec_fn(TokenView) -> bool,
)
    requires
        all_keep(out, keep),
        all_keep(ops, keep),
    ensures
        all_keep(make_way(op1, out, ops).0, keep),
        all_keep(make_way(op1, out, ops).1, keep),
    decreases ops.len(),
{
    if ops.len() > 0 {
        lemma_pop_keeps(ops, keep);
        lemma_push_keeps(out, ops.last(), keep);
        lemma_make_way_keeps(op1, out.push(ops.last()), ops.drop_last(), keep);
    }
}

proof fn lemma_yard_keeps(
    toks: Seq<TokenView>,
    i: int,
    out: Seq<TokenView>,
    ops: Seq<TokenView>,
    keep: spec_fn(TokenView) -> bool,
)
    requires
        all_keep(toks, keep),
        all_keep(out, keep),
        all_keep(ops, keep),
        keep(TokenView::SemiColon),
    ensures
        all_keep(yard_from(toks, i, out, ops), keep),
    decreases toks.len() - i,
{
    if i < 0 || i >= toks.len() {
        lemma_flush_keeps(out, ops, keep);
    } else {
        let t = toks[i];
        assert(keep(t));
        match t {
            TokenView::Operand(_) | TokenView::Variable(_) => lemma_push_keeps(out, t, keep),
            TokenView::Bracket(Bracket::Open) | TokenView::Function(_) => lemma_push_keeps(ops, t, keep),
            TokenView::Bracket(Bracket::Close) => lemma_close_group_keeps(out, ops, keep),
            TokenView::Comma => lemma_close_argument_keeps(out, ops, keep),
            TokenView::SemiColon => {
                lemma_flush_keeps(out, ops, keep);
                lemma_push_keeps(flush(out, ops), TokenView::SemiColon, keep);
                assert(all_keep(Seq::<TokenView>::empty(), keep));
            },
            TokenView::Operator(op) => {
                lemma_make_way_keeps(op, out, ops, keep);
                lemma_push_keeps(make_way(op, out, ops).1, t, keep);
            },
        }
        let (o2, s2) = yard_step(t, out, ops);
        lemma_yard_keeps(toks, i + 1, o2, s2, keep);
    }
}

proof fn lemma_unary_keeps(toks: Seq<TokenView>, i: int, e: bool, keep: spec_fn(TokenView) -> bool)
    requires
        all_keep(toks, keep),
        keep(TokenView::Operator(Operator::Une)),
    ensures
        all_keep(unary_from(toks, i, e), keep),
    decreases toks.len() - i,
{
    if 0 <= i < toks.len() {
        let t = toks[i];
        assert(keep(t));
        lemma_unary_keeps(toks, i + 1, false, keep);
        lemma_unary_keeps(toks, i + 1, true, keep);
        lemma_unary_keeps(toks, i + 1, e, keep);
        assert(all_keep(seq![t], keep));
        assert(all_keep(seq![TokenView::Operator(Operator::Une)], keep));
        lemma_concat_keeps(seq![t], unary_from(toks, i + 1, false), keep);
        lemma_concat_keeps(seq![t], unary_from(toks, i + 1, true), keep);
        lemma_concat_keeps(seq![t], unary_from(toks, i + 1, e), keep);
        lemma_concat_keeps(seq![TokenView::Operator(Operator::Une)], unary_from(toks, i + 1, e), keep);
    }
}

proof fn lemma_lex_no_assignment(s: Seq<char>)
    requires
        forall|i: int| 0 <= i < s.len() ==> s[i] != '=',
    ensures
        all_keep(lex(s), |t: TokenView| not_assignment(t)),
    decreases s.len(),
{
    let keep = |t: TokenView| not_assignment(t);
    if s.len() > 0 {
        let n = chunk_len(s);
        if n == 0 || n > s.len() {
            lemma_lex_no_assignment(s.skip(1));
        } else {
            lemma_lex_no_assignment(s.skip(n as int));
            match classify(s.take(n as int)) {
                Some(t) => {
                    assert(s.take(n as int)[0] == s[0]);
                    assert(keep(t));
                    assert(all_keep(seq![t], keep));
                    lemma_concat_keeps(seq![t], lex(s.skip(n as int)), keep);
                },
                None => {},
            }
        }
    }
}

/// An expression whose text holds no `=` compiles to postfix without an assignment,
/// so its evaluation leaves the variables as they were, and evaluating it again,
/// with the same answers, gives the same outcome.
pub proof fn lemma_text_evaluation_repeatable(
    text: Seq<char>,
    env: Map<Seq<char>, Value>,
    answers: Seq<Option<(int, int)>>,
)
    requires
        forall|i: int| 0 <= i < text.len() ==> text[i] != '=',
    ensures
        ({
            let toks = postfix_of(parsed(text));
            &&& evaluation(toks, env, answers).1 == env
            &&& evaluation(toks, evaluation(toks, env, answers).1, answers) == evaluation(
                toks,
                env,
                answers,
            )
        }),
{
    let keep = |t: TokenView| not_assignment(t);
    lemma_lex_no_assignment(text);
    lemma_unary_keeps(lex(text), 0, true, keep);
    assert(all_keep(Seq::<TokenView>::empty(), keep));
    lemma_yard_keeps(parsed(text), 0, Seq::empty(), Seq::empty(), keep);
    let toks = postfix_of(parsed(text));
    assert forall|j: int| 0 <= j < toks.len() implies toks[j] != TokenView::Operator(Operator::Eql) by {
        assert(keep(toks[j]));
    }
    lemma_evaluation_repeatable(toks, env, answers);
}

/// The tokens of integer arithmetic: integer literals, `+`, `-`, `*`, negation,
/// brackets and separators.
pub open spec fn integer_token(t: TokenView) -> bool {
    match t {
        TokenView::Operand(v) => v is Natural,
        TokenView::Operator(o) => o == Operator::Add || o == Operator::Sub || o == Operator::Mul || o
            == Operator::Une,
        TokenView::Bracket(_) | TokenView::SemiColon => true,
        _ => false,
    }
}

/// The characters of integer arithmetic: digits, `+`, `-`, `*`, brackets and spaces.
pub open spec fn integer_char(c: char) -> bool {
    is_digit(c) || c == '+' || c == '-' || c == '*' || c == '(' || c == ')' || c == ' '
}

proof fn lemma_digit_run_of_prefix(s: Seq<char>)
    ensures
        run_len(s.take(run_len(s, CharClass::Digit) as int), CharClass::Digit) == run_len(
            s,
            CharClass::Digit,
        ),
    decreases s.len(),
{
    let k = run_len(s, CharClass::Digit);
    lemma_run_len_bound(s);
    if k > 0 {
        lemma_digit_run_of_prefix(s.drop_first());
        let w = s.take(k as int);
        assert(w[0] == s[0]);
        assert(w.drop_first() =~= s.drop_first().take(k - 1));
    } else {
        assert(s.take(0).len() == 0);
    }
}

proof fn lemma_lex_integer(s: Seq<char>)
    requires
        forall|i: int| 0 <= i < s.len() ==> integer_char(s[i]),
    ensures
        all_keep(lex(s), |t: TokenView| integer_token(t)),
    decreases s.len(),
{
    let keep = |t: TokenView| integer_token(t);
    if s.len() > 0 {
        let n = chunk_len(s);
        assert(s.skip(1).len() < s.len());
        if n == 0 || n > s.len() {
            lemma_lex_integer(s.skip(1));
        } else {
            lemma_lex_integer(s.skip(n as int));
            let w = s.take(n as int);
            assert(w[0] == s[0]);
            if is_digit(s[0]) {
                let k = run_len(s, CharClass::Digit);
                lemma_run_len_bound(s);
                if k < s.len() {
                    assert(s[k as int] != '.');
                }
                lemma_digit_run_of_prefix(s);
            }
            match classify(w) {
                Some(t) => {
                    assert(keep(t));
                    assert(all_keep(seq![t], keep));
                    lemma_concat_keeps(seq![t], lex(s.skip(n as int)), keep);
                },
                None => {},
            }
        }
    }
}

proof fn lemma_run_len_bound(s: Seq<char>)
    ensures
        run_len(s, CharClass::Digit) <= s.len(),
    decreases s.len(),
{
    if s.len() > 0 && is_digit(s[0]) {
        lemma_run_len_bound(s.drop_first());
    }
}

pub open spec fn all_natural(s: Seq<(Value, Option<Seq<char>>)>) -> bool {
    forall|i: int| 0 <= i < s.len() ==> (#[trigger] s[i]).0 is Natural
}

proof fn lemma_run_integer(
    toks: Seq<TokenView>,
    i: int,
    st: EvalState,
    answers: Seq<Option<(int, int)>>,
)
    requires
        all_keep(toks, |t: TokenView| integer_token(t)),
        all_natural(st.stack),
    ensures
        run_from(toks, i, st, answers).0 matches ResolutionView::Done(r) && (r matches Ok(v)
            ==> v is Natural),
    decreases toks.len() - i,
{
    let keep = |t: TokenView| integer_token(t);
    if 0 <= i < toks.len() {
        let t = toks[i];
        assert(keep(t));
        let s = st.stack;
        if s.len() > 0 {
            assert(s.last() == s[s.len() - 1]);
            assert(s.last().0 is Natural);
            let s1 = s.drop_last();
            assert forall|j: int| 0 <= j < s1.len() implies (#[trigger] s1[j]).0 is Natural by {
                assert(s1[j] == s[j]);
            }
            if s1.len() > 0 {
                assert(s1.last() == s1[s1.len() - 1]);
                let s2 = s1.drop_last();
                assert forall|j: int| 0 <= j < s2.len() implies (#[trigger] s2[j]).0 is Natural by {
                    assert(s2[j] == s1[j]);
                }
                assert forall|v: Value| v is Natural implies all_natural(#[trigger] s2.push((v, None))) by {
                    assert forall|j: int| 0 <= j < s2.push((v, None)).len() implies (#[trigger] s2.push((v, None))[j]).0 is Natural by {
                        if j < s2.len() {
                            assert(s2.push((v, None))[j] == s2[j]);
                        }
                    }
                }
            }
            assert forall|v: Value| v is Natural implies all_natural(#[trigger] s1.push((v, None))) by {
                assert forall|j: int| 0 <= j < s1.push((v, None)).len() implies (#[trigger] s1.push((v, None))[j]).0 is Natural by {
                    if j < s1.len() {
                        assert(s1.push((v, None))[j] == s1[j]);
                    }
                }
            }
        }
        assert forall|v: Value| v is Natural implies all_natural(#[trigger] s.push((v, None))) by {
            assert forall|j: int| 0 <= j < s.push((v, None)).len() implies (#[trigger] s.push((v, None))[j]).0 is Natural by {
                if j < s.len() {
                    assert(s.push((v, None))[j] == s[j]);
                }
            }
        }
        assert(all_natural(Seq::<(Value, Option<Seq<char>>)>::empty()));
        match step(t, st, answers) {
            Step::Next(st2) => {
                assert(all_natural(st2.stack));
                lemma_run_integer(toks, i + 1, st2, answers);
            },
            Step::Halt(_) => {},
        }
    } else {
        if st.stack.len() == 1 {
            assert(st.stack[0].0 is Natural);
        }
    }
}

/// An expression written with integer literals, `+`, `-`, `*`, brackets and
/// spaces only never becomes a decimal and never asks for floating point: it
/// evaluates to an integer, or fails. (Each `+`, `-` and `*` on integers is exact:
/// see `lemma_integer_operators_exact`.)
pub proof fn lemma_integer_expressions_stay_integer(
    text: Seq<char>,
    env: Map<Seq<char>, Value>,
    answers: Seq<Option<(int, int)>>,
)
    requires
        forall|i: int| 0 <= i < text.len() ==> integer_char(text[i]),
    ensures
        evaluation(postfix_of(parsed(text)), env, answers).0 matches ResolutionView::Done(r) && (r matches Ok(
            v,
        ) ==> v is Natural),
{
    let keep = |t: TokenView| integer_token(t);
    lemma_lex_integer(text);
    lemma_unary_keeps(lex(text), 0, true, keep);
    assert(all_keep(Seq::<TokenView>::empty(), keep));
    lemma_yard_keeps(parsed(text), 0, Seq::empty(), Seq::empty(), keep);
    assert(all_natural(Seq::<(Value, Option<Seq<char>>)>::empty()));
    lemma_run_integer(
        postfix_of(parsed(text)),
        0,
        EvalState { stack: Seq::empty(), env, used: 0 },
        answers,
    );
}

} // verus!
