//! The mathematical model of the language: the value model `ExprV`, the two
//! error channels, and (further down, as the crate grows) the spec-level
//! interpreter that the executable one is proved against.

use vstd::prelude::*;

use crate::numbers::i64_dec;
use crate::text::{starts_with, trim_end_s};

verus! {

/// The closed registry of native operations. The evaluator dispatches on
/// this tag; each tag's behaviour is a spec function in this module.
#[derive(Clone, Copy, Debug, PartialEq, Eq, Structural)]
pub enum BuiltinOp {
    Add,
    Sub,
    Mul,
    Div,
    Rem,
    Pow,
    Print,
    Str,
    Lt,
    Le,
    Gt,
    Ge,
    SetBang,
    While,
    If,
    Begin,
    For,
}

/// The fatal-abort channel: raised by malformed parser input, arity and type
/// mismatches in most builtins, and malformed `lambda`/`if`/`for` shapes.
/// It propagates uncaught through evaluation; only the top-level `run_code`
/// boundary converts it into a fixed generic failure string.
#[derive(Clone, Copy, Debug, PartialEq, Eq, Structural)]
pub enum Fatal {
    /// The token stream ended before a complete form was read.
    UnexpectedEof,
    /// A closing parenthesis with no open form.
    UnexpectedClose,
    /// A `lambda` form without exactly a parameter list and a body, or with
    /// a parameter that is not a symbol.
    BadLambda,
    /// A `define` form whose name position is missing or not a symbol.
    BadDefine,
    /// A builtin was given the wrong number of arguments.
    Arity,
    /// An arithmetic or comparison builtin was given a non-number operand.
    TypeMismatch,
    /// Division by zero.
    DivisionByZero,
    /// Modulo by zero.
    ModuloByZero,
    /// An arithmetic result does not fit in a signed 64-bit integer.
    Overflow,
    /// An `if` condition that is not a number.
    BadIf,
    /// A `for` form whose variable is not a symbol or whose bounds are not
    /// numbers.
    BadFor,
    /// Evaluation exceeded its fuel bound (the analogue of exhausting the
    /// call stack).
    OutOfFuel,
}

/// The model of an expression: what an `Expr` denotes. Numbers are signed
/// 64-bit integers (all arithmetic is integer arithmetic, and a result out
/// of range is a fatal abort), and text is a sequence of characters.
#[verifier::ext_equal]
pub enum ExprV {
    Num(i64),
    Var(Seq<char>),
    Str(Seq<char>),
    List(Seq<ExprV>),
    Lambda(Seq<Seq<char>>, Box<ExprV>),
    Builtin(BuiltinOp),
}

/// The model of an environment: a name-to-value map.
pub type EnvV = Map<Seq<char>, ExprV>;

/// The result of one evaluation step: the value or fatal abort, and the
/// environment as it stands afterwards.
pub type OutV = (Result<ExprV, Fatal>, EnvV);

/// The fixed prefix that marks a sentinel error value.
pub open spec fn err_prefix() -> Seq<char> {
    "error: "@
}

/// The sentinel produced by looking up an unbound variable: it names the
/// variable, and flows on as ordinary data rather than aborting.
pub open spec fn undef_msg(name: Seq<char>) -> Seq<char> {
    "error: undefined variable: "@ + name
}

pub open spec fn set_arity_msg() -> Seq<char> {
    "error: set! expects 2 arguments"@
}

pub open spec fn set_name_msg() -> Seq<char> {
    "error: set! first argument must be a variable name"@
}

pub open spec fn while_arity_msg() -> Seq<char> {
    "error: while expects condition and body"@
}

pub open spec fn while_cond_msg(detail: Seq<char>) -> Seq<char> {
    "error in while condition: "@ + detail
}

pub open spec fn while_type_msg() -> Seq<char> {
    "error: while condition must be a number"@
}

/// The textual rendering of one value, as `print` and `string` show it:
/// numbers in decimal, text and symbols verbatim — except that a sentinel
/// error symbol renders as nothing — lists in parentheses, a lambda as a
/// fixed marker, a builtin as nothing.
pub open spec fn render_item(v: ExprV) -> Seq<char>
    decreases v,
{
    match v {
        ExprV::Num(n) => i64_dec(n as int),
        ExprV::Str(s) => s,
        ExprV::Var(s) => if starts_with(s, err_prefix()) {
            Seq::empty()
        } else {
            s
        },
        ExprV::List(l) => seq!['('] + render_items(l) + seq![')'],
        ExprV::Lambda(_, _) => "<lambda>"@,
        ExprV::Builtin(_) => Seq::empty(),
    }
}

/// The space-separated renderings of a list's elements.
pub open spec fn render_items(l: Seq<ExprV>) -> Seq<char>
    decreases l,
{
    if l.len() == 0 {
        Seq::empty()
    } else if l.len() == 1 {
        render_item(l[0])
    } else {
        render_item(l[0]) + seq![' '] + render_items(l.drop_first())
    }
}

/// The rendering of an argument list: each argument's rendering followed by
/// one space. `print` trims the trailing whitespace of this; `string` keeps
/// it.
pub open spec fn render_join(args: Seq<ExprV>) -> Seq<char>
    decreases args,
{
    if args.len() == 0 {
        Seq::empty()
    } else {
        render_item(args[0]) + seq![' '] + render_join(args.drop_first())
    }
}

/// Sum the arguments left to right; any non-number is a fatal type
/// mismatch, and a partial sum out of the 64-bit range a fatal overflow.
pub open spec fn sum_nums(args: Seq<ExprV>, acc: i64) -> Result<i64, Fatal>
    decreases args,
{
    if args.len() == 0 {
        Ok(acc)
    } else {
        match args[0] {
            ExprV::Num(n) => if i64::MIN <= acc + n <= i64::MAX {
                sum_nums(args.drop_first(), (acc + n) as i64)
            } else {
                Err(Fatal::Overflow)
            },
            _ => Err(Fatal::TypeMismatch),
        }
    }
}

/// Subtract the remaining arguments from the accumulator, left to right.
pub open spec fn sub_nums(args: Seq<ExprV>, acc: i64) -> Result<i64, Fatal>
    decreases args,
{
    if args.len() == 0 {
        Ok(acc)
    } else {
        match args[0] {
            ExprV::Num(n) => if i64::MIN <= acc - n <= i64::MAX {
                sub_nums(args.drop_first(), (acc - n) as i64)
            } else {
                Err(Fatal::Overflow)
            },
            _ => Err(Fatal::TypeMismatch),
        }
    }
}

/// Multiply the arguments left to right.
pub open spec fn mul_nums(args: Seq<ExprV>, acc: i64) -> Result<i64, Fatal>
    decreases args,
{
    if args.len() == 0 {
        Ok(acc)
    } else {
        match args[0] {
            ExprV::Num(n) => if i64::MIN <= acc * n <= i64::MAX {
                mul_nums(args.drop_first(), (acc * n) as i64)
            } else {
                Err(Fatal::Overflow)
            },
            _ => Err(Fatal::TypeMismatch),
        }
    }
}

/// `(+ ...)`: the sum of any number of numbers; an empty sum is zero.
pub open spec fn sem_add(args: Seq<ExprV>) -> Result<ExprV, Fatal> {
    match sum_nums(args, 0) {
        Ok(n) => Ok(ExprV::Num(n)),
        Err(f) => Err(f),
    }
}

/// `(- first ...)`: the first number minus the remaining ones; at least one
/// argument is required.
pub open spec fn sem_sub(args: Seq<ExprV>) -> Result<ExprV, Fatal> {
    if args.len() == 0 {
        Err(Fatal::Arity)
    } else {
        match args[0] {
            ExprV::Num(first) => match sub_nums(args.drop_first(), first) {
                Ok(n) => Ok(ExprV::Num(n)),
                Err(f) => Err(f),
            },
            _ => Err(Fatal::TypeMismatch),
        }
    }
}

/// `(* ...)`: the product of any number of numbers; an empty product is one.
pub open spec fn sem_mul(args: Seq<ExprV>) -> Result<ExprV, Fatal> {
    match mul_nums(args, 1) {
        Ok(n) => Ok(ExprV::Num(n)),
        Err(f) => Err(f),
    }
}

/// `(/ a b)`: truncating division; division by zero and the one overflowing
/// quotient are fatal.
pub open spec fn sem_div(args: Seq<ExprV>) -> Result<ExprV, Fatal> {
    if args.len() != 2 {
        Err(Fatal::Arity)
    } else {
        match (args[0], args[1]) {
            (ExprV::Num(a), ExprV::Num(b)) => if b == 0 {
                Err(Fatal::DivisionByZero)
            } else {
                match a.checked_div(b) {
                    Some(q) => Ok(ExprV::Num(q)),
                    None => Err(Fatal::Overflow),
                }
            },
            _ => Err(Fatal::TypeMismatch),
        }
    }
}

/// `(% a b)`: the remainder of truncating division; a zero divisor and the
/// one overflowing case are fatal.
pub open spec fn sem_rem(args: Seq<ExprV>) -> Result<ExprV, Fatal> {
    if args.len() != 2 {
        Err(Fatal::Arity)
    } else {
        match (args[0], args[1]) {
            (ExprV::Num(a), ExprV::Num(b)) => if b == 0 {
                Err(Fatal::ModuloByZero)
            } else {
                match a.checked_rem(b) {
                    Some(r) => Ok(ExprV::Num(r)),
                    None => Err(Fatal::Overflow),
                }
            },
            _ => Err(Fatal::TypeMismatch),
        }
    }
}

/// `a` raised to the exponent `e` by repeated multiplication; overflow is
/// fatal.
pub open spec fn pow_result(a: i64, e: nat) -> Result<i64, Fatal>
    decreases e,
{
    if e == 0 {
        Ok(1)
    } else {
        match pow_result(a, (e - 1) as nat) {
            Ok(p) => if i64::MIN <= p * a <= i64::MAX {
                Ok((p * a) as i64)
            } else {
                Err(Fatal::Overflow)
            },
            Err(f) => Err(f),
        }
    }
}

/// `(pow a b)`: `a` to the power `b`, where the exponent is `b` reduced to
/// an unsigned 32-bit value by truncation (a negative `b` thus names a huge
/// exponent and in practice overflows).
pub open spec fn sem_pow(args: Seq<ExprV>) -> Result<ExprV, Fatal> {
    if args.len() != 2 {
        Err(Fatal::Arity)
    } else {
        match (args[0], args[1]) {
            (ExprV::Num(a), ExprV::Num(b)) => match pow_result(a, (b as u32) as nat) {
                Ok(p) => Ok(ExprV::Num(p)),
                Err(f) => Err(f),
            },
            _ => Err(Fatal::TypeMismatch),
        }
    }
}

/// A comparison builtin: exactly two numbers, result `1` or `0`.
pub open spec fn sem_cmp(op: BuiltinOp, args: Seq<ExprV>) -> Result<ExprV, Fatal> {
    if args.len() != 2 {
        Err(Fatal::Arity)
    } else {
        match (args[0], args[1]) {
            (ExprV::Num(a), ExprV::Num(b)) => {
                let hold = if op == BuiltinOp::Lt {
                    a < b
                } else if op == BuiltinOp::Le {
                    a <= b
                } else if op == BuiltinOp::Gt {
                    a > b
                } else {
                    a >= b
                };
                Ok(ExprV::Num(if hold {
                    1
                } else {
                    0
                }))
            },
            _ => Err(Fatal::TypeMismatch),
        }
    }
}

/// `(set! name value)` over already-evaluated arguments: malformed calls
/// yield a sentinel, never a fatal abort; a well-formed call binds and
/// returns the value.
pub open spec fn sem_set(args: Seq<ExprV>, m: EnvV) -> OutV {
    if args.len() != 2 {
        (Ok(ExprV::Var(set_arity_msg())), m)
    } else {
        match args[0] {
            ExprV::Var(name) => (Ok(args[1]), m.insert(name, args[1])),
            _ => (Ok(ExprV::Var(set_name_msg())), m),
        }
    }
}

/// The environment a lambda body runs in: the parameters bound in order to
/// the arguments, a missing argument bound to the empty symbol, over the
/// caller's (copied) bindings.
pub open spec fn bind_params(params: Seq<Seq<char>>, args: Seq<ExprV>, m: EnvV) -> EnvV
    decreases params.len(),
{
    if params.len() == 0 {
        m
    } else {
        let v = if args.len() > 0 {
            args[0]
        } else {
            ExprV::Var(Seq::empty())
        };
        let rest = if args.len() > 0 {
            args.drop_first()
        } else {
            args
        };
        bind_params(params.drop_first(), rest, m.insert(params[0], v))
    }
}

/// The parameter names of a lambda's parameter list, if it is a list of
/// symbols.
pub open spec fn params_of(e: ExprV) -> Option<Seq<Seq<char>>>
    decreases e,
{
    match e {
        ExprV::List(items) => names_of(items),
        _ => None,
    }
}

pub open spec fn names_of(items: Seq<ExprV>) -> Option<Seq<Seq<char>>>
    decreases items.len(),
{
    if items.len() == 0 {
        Some(Seq::empty())
    } else {
        match items[0] {
            ExprV::Var(n) => match names_of(items.drop_first()) {
                Some(rest) => Some(seq![n] + rest),
                None => None,
            },
            _ => None,
        }
    }
}

/// The spec-level interpreter. Fuel bounds the depth of evaluation: every
/// step burns one unit, and exhaustion is the fatal `OutOfFuel` (the
/// analogue of exhausting the call stack). For every program that finishes
/// at all, all large enough fuels agree.
///
/// Atoms are self-quoting; a symbol looks itself up, yielding a sentinel
/// when unbound; the empty list is itself; `lambda`, `define` and `set!`
/// are the only special forms; any other list evaluates its head and then
/// all its elements eagerly, left to right, and applies the head's value.
pub open spec fn sem_eval(e: ExprV, m: EnvV, fuel: nat) -> OutV
    decreases fuel,
{
    if fuel == 0 {
        (Err(Fatal::OutOfFuel), m)
    } else {
        match e {
            ExprV::Num(_) => (Ok(e), m),
            ExprV::Str(_) => (Ok(e), m),
            ExprV::Lambda(_, _) => (Ok(e), m),
            ExprV::Builtin(_) => (Ok(e), m),
            ExprV::Var(name) => if m.contains_key(name) {
                (Ok(m[name]), m)
            } else {
                (Ok(ExprV::Var(undef_msg(name))), m)
            },
            ExprV::List(items) => if items.len() == 0 {
                (Ok(ExprV::List(Seq::empty())), m)
            } else if items[0] == ExprV::Var("lambda"@) {
                if items.len() != 3 {
                    (Err(Fatal::BadLambda), m)
                } else {
                    match params_of(items[1]) {
                        Some(names) => (Ok(ExprV::Lambda(names, Box::new(items[2]))), m),
                        None => (Err(Fatal::BadLambda), m),
                    }
                }
            } else if items[0] == ExprV::Var("define"@) {
                if items.len() < 2 {
                    (Err(Fatal::BadDefine), m)
                } else {
                    match items[1] {
                        ExprV::Var(name) => if items.len() == 3 {
                            let (r, m1) = sem_eval(items[2], m, (fuel - 1) as nat);
                            match r {
                                Ok(v) => (Ok(v), m1.insert(name, v)),
                                Err(f) => (Err(f), m1),
                            }
                        } else {
                            (Ok(ExprV::Num(0)), m.insert(name, ExprV::Num(0)))
                        },
                        _ => (Err(Fatal::BadDefine), m),
                    }
                }
            } else if items[0] == ExprV::Var("set!"@) {
                if items.len() != 3 {
                    (Ok(ExprV::Var(set_arity_msg())), m)
                } else {
                    match items[1] {
                        ExprV::Var(name) => {
                            let (r, m1) = sem_eval(items[2], m, (fuel - 1) as nat);
                            match r {
                                Ok(v) => (Ok(v), m1.insert(name, v)),
                                Err(f) => (Err(f), m1),
                            }
                        },
                        _ => (Ok(ExprV::Var(set_name_msg())), m),
                    }
                }
            } else {
                let (rh, m1) = sem_eval(items[0], m, (fuel - 1) as nat);
                match rh {
                    Err(f) => (Err(f), m1),
                    Ok(fv) => {
                        let (ra, m2) = sem_eval_args(items.drop_first(), m1, (fuel - 1) as nat);
                        match ra {
                            Err(f) => (Err(f), m2),
                            Ok(vs) => sem_apply(fv, vs, m2, (fuel - 1) as nat),
                        }
                    },
                }
            },
        }
    }
}

/// Evaluate a sequence of argument forms, left to right, threading the
/// environment through; the first fatal abort stops the sequence.
pub open spec fn sem_eval_args(rest: Seq<ExprV>, m: EnvV, fuel: nat) -> (Result<
    Seq<ExprV>,
    Fatal,
>, EnvV)
    decreases fuel,
{
    if fuel == 0 {
        (Err(Fatal::OutOfFuel), m)
    } else if rest.len() == 0 {
        (Ok(Seq::empty()), m)
    } else {
        let (r, m1) = sem_eval(rest[0], m, (fuel - 1) as nat);
        match r {
            Err(f) => (Err(f), m1),
            Ok(v) => {
                let (rr, m2) = sem_eval_args(rest.drop_first(), m1, (fuel - 1) as nat);
                match rr {
                    Err(f) => (Err(f), m2),
                    Ok(vs) => (Ok(seq![v] + vs), m2),
                }
            },
        }
    }
}

/// Apply a callee value to already-evaluated arguments. A builtin runs on
/// the caller's live environment; a lambda runs its body in a fresh copy of
/// the caller's environment, whose mutations never propagate back; a bare
/// non-function value applied to no arguments is itself; anything else is
/// returned unchanged as a last resort.
pub open spec fn sem_apply(f: ExprV, args: Seq<ExprV>, m: EnvV, fuel: nat) -> OutV
    decreases fuel,
{
    if fuel == 0 {
        (Err(Fatal::OutOfFuel), m)
    } else {
        match f {
            ExprV::Builtin(op) => sem_builtin(op, args, m, (fuel - 1) as nat),
            ExprV::Lambda(params, body) => {
                let m2 = bind_params(params, args, m);
                let (r, _discard) = sem_eval(*body, m2, (fuel - 1) as nat);
                (r, m)
            },
            ExprV::Num(_) => (Ok(f), m),
            ExprV::Str(_) => (Ok(f), m),
            ExprV::Var(_) => (Ok(f), m),
            _ => (Ok(f), m),
        }
    }
}

/// Dispatch one builtin over already-evaluated arguments.
pub open spec fn sem_builtin(op: BuiltinOp, args: Seq<ExprV>, m: EnvV, fuel: nat) -> OutV
    decreases fuel,
{
    if fuel == 0 {
        (Err(Fatal::OutOfFuel), m)
    } else {
        match op {
            BuiltinOp::Add => (sem_add(args), m),
            BuiltinOp::Sub => (sem_sub(args), m),
            BuiltinOp::Mul => (sem_mul(args), m),
            BuiltinOp::Div => (sem_div(args), m),
            BuiltinOp::Rem => (sem_rem(args), m),
            BuiltinOp::Pow => (sem_pow(args), m),
            BuiltinOp::Lt => (sem_cmp(op, args), m),
            BuiltinOp::Le => (sem_cmp(op, args), m),
            BuiltinOp::Gt => (sem_cmp(op, args), m),
            BuiltinOp::Ge => (sem_cmp(op, args), m),
            BuiltinOp::Print => (Ok(ExprV::Str(trim_end_s(render_join(args)))), m),
            BuiltinOp::Str => (Ok(ExprV::Str(render_join(args))), m),
            BuiltinOp::SetBang => sem_set(args, m),
            BuiltinOp::If => sem_if(args, m, (fuel - 1) as nat),
            BuiltinOp::While => sem_while(args, m, (fuel - 1) as nat),
            BuiltinOp::Begin => sem_begin(args, m, (fuel - 1) as nat),
            BuiltinOp::For => sem_for(args, m, (fuel - 1) as nat),
        }
    }
}

/// `(if cond a b)` over already-evaluated arguments: the condition must
/// already be a number; the chosen argument is evaluated once more (both
/// arguments were, by eager evaluation, already evaluated as ordinary
/// arguments before `if` ran).
pub open spec fn sem_if(args: Seq<ExprV>, m: EnvV, fuel: nat) -> OutV
    decreases fuel,
{
    if fuel == 0 {
        (Err(Fatal::OutOfFuel), m)
    } else if args.len() != 3 {
        (Err(Fatal::Arity), m)
    } else {
        match args[0] {
            ExprV::Num(c) => if c != 0 {
                sem_eval(args[1], m, (fuel - 1) as nat)
            } else {
                sem_eval(args[2], m, (fuel - 1) as nat)
            },
            _ => (Err(Fatal::BadIf), m),
        }
    }
}

/// `(while cond body ...)` over already-evaluated arguments: malformed
/// calls and bad conditions yield sentinels, never fatal aborts.
pub open spec fn sem_while(args: Seq<ExprV>, m: EnvV, fuel: nat) -> OutV
    decreases fuel,
{
    if fuel == 0 {
        (Err(Fatal::OutOfFuel), m)
    } else if args.len() < 2 {
        (Ok(ExprV::Var(while_arity_msg())), m)
    } else {
        sem_while_loop(args, m, (fuel - 1) as nat, ExprV::List(Seq::empty()))
    }
}

/// One pass of `while`: re-evaluate the (already-reduced) condition, stop
/// on zero with the last body result, else run the body once more.
pub open spec fn sem_while_loop(args: Seq<ExprV>, m: EnvV, fuel: nat, last: ExprV) -> OutV
    decreases fuel,
{
    if fuel == 0 {
        (Err(Fatal::OutOfFuel), m)
    } else {
        let (rc, m1) = sem_eval(args[0], m, (fuel - 1) as nat);
        match rc {
            Err(f) => (Err(f), m1),
            Ok(cv) => match cv {
                ExprV::Num(c) => if c == 0 {
                    (Ok(last), m1)
                } else {
                    let (rb, m2) = sem_run_seq(args.drop_first(), m1, (fuel - 1) as nat, last);
                    match rb {
                        Err(f) => (Err(f), m2),
                        Ok(last2) => sem_while_loop(args, m2, (fuel - 1) as nat, last2),
                    }
                },
                ExprV::Var(detail) => (Ok(ExprV::Var(while_cond_msg(detail))), m1),
                _ => (Ok(ExprV::Var(while_type_msg())), m1),
            },
        }
    }
}

/// Evaluate each of `items` in order, returning the last result, or `last`
/// if there are none.
pub open spec fn sem_run_seq(items: Seq<ExprV>, m: EnvV, fuel: nat, last: ExprV) -> OutV
    decreases fuel,
{
    if fuel == 0 {
        (Err(Fatal::OutOfFuel), m)
    } else if items.len() == 0 {
        (Ok(last), m)
    } else {
        let (r, m1) = sem_eval(items[0], m, (fuel - 1) as nat);
        match r {
            Err(f) => (Err(f), m1),
            Ok(v) => sem_run_seq(items.drop_first(), m1, (fuel - 1) as nat, v),
        }
    }
}

/// `(begin ...)` over already-evaluated arguments: each is evaluated once
/// more in order; the last result, or the empty list for no arguments.
pub open spec fn sem_begin(args: Seq<ExprV>, m: EnvV, fuel: nat) -> OutV
    decreases fuel,
{
    if fuel == 0 {
        (Err(Fatal::OutOfFuel), m)
    } else {
        sem_run_seq(args, m, (fuel - 1) as nat, ExprV::List(Seq::empty()))
    }
}

/// `(for var from to body)` over already-evaluated arguments: the shape is
/// checked fatally, then the body runs once per integer of `[from, to]`,
/// ascending; an inverted range runs zero times and yields `0`.
pub open spec fn sem_for(args: Seq<ExprV>, m: EnvV, fuel: nat) -> OutV
    decreases fuel,
{
    if fuel == 0 {
        (Err(Fatal::OutOfFuel), m)
    } else if args.len() != 4 {
        (Err(Fatal::Arity), m)
    } else {
        match (args[0], args[1], args[2]) {
            (ExprV::Var(name), ExprV::Num(from), ExprV::Num(to)) => sem_for_loop(
                name,
                from,
                to,
                args[3],
                m,
                (fuel - 1) as nat,
                ExprV::Num(0),
            ),
            _ => (Err(Fatal::BadFor), m),
        }
    }
}

/// One iteration of `for`: bind the variable, evaluate the body, continue
/// with the next integer.
pub open spec fn sem_for_loop(
    name: Seq<char>,
    i: i64,
    to: i64,
    body: ExprV,
    m: EnvV,
    fuel: nat,
    last: ExprV,
) -> OutV
    decreases fuel,
{
    if fuel == 0 {
        (Err(Fatal::OutOfFuel), m)
    } else if i > to {
        (Ok(last), m)
    } else {
        let m1 = m.insert(name, ExprV::Num(i));
        let (r, m2) = sem_eval(body, m1, (fuel - 1) as nat);
        match r {
            Err(f) => (Err(f), m2),
            Ok(v) => if i == to {
                (Ok(v), m2)
            } else {
                sem_for_loop(name, (i + 1) as i64, to, body, m2, (fuel - 1) as nat, v)
            },
        }
    }
}

/// The map of builtin bindings laid over an environment, one insert per
/// native operation.
pub open spec fn spec_add_builtins(m: EnvV) -> EnvV {
    m.insert("+"@, ExprV::Builtin(BuiltinOp::Add)).insert("-"@, ExprV::Builtin(BuiltinOp::Sub))
        .insert("*"@, ExprV::Builtin(BuiltinOp::Mul)).insert("/"@, ExprV::Builtin(BuiltinOp::Div))
        .insert("%"@, ExprV::Builtin(BuiltinOp::Rem)).insert(
        "pow"@,
        ExprV::Builtin(BuiltinOp::Pow),
    ).insert("print"@, ExprV::Builtin(BuiltinOp::Print)).insert(
        "string"@,
        ExprV::Builtin(BuiltinOp::Str),
    ).insert("<"@, ExprV::Builtin(BuiltinOp::Lt)).insert("<="@, ExprV::Builtin(BuiltinOp::Le))
        .insert(">"@, ExprV::Builtin(BuiltinOp::Gt)).insert(">="@, ExprV::Builtin(BuiltinOp::Ge))
        .insert("set!"@, ExprV::Builtin(BuiltinOp::SetBang)).insert(
        "while"@,
        ExprV::Builtin(BuiltinOp::While),
    ).insert("if"@, ExprV::Builtin(BuiltinOp::If)).insert(
        "begin"@,
        ExprV::Builtin(BuiltinOp::Begin),
    ).insert("for"@, ExprV::Builtin(BuiltinOp::For))
}

/// Evaluating an unbound symbol yields a sentinel symbol whose text is the
/// fixed unbound-variable marker followed by the name, with the
/// environment untouched — it never fatally aborts.
pub proof fn lemma_unbound_symbol(name: Seq<char>, m: EnvV, fuel: nat)
    requires
        !m.contains_key(name),
        fuel >= 1,
    ensures
        sem_eval(ExprV::Var(name), m, fuel) == (
            Ok::<ExprV, Fatal>(ExprV::Var(undef_msg(name))),
            m,
        ),
        undef_msg(name) == "error: undefined variable: "@ + name,
{
}

/// Division by zero and modulo by zero are fatal aborts, each under its own
/// kind, whatever the dividend.
pub proof fn lemma_zero_divisor_fatal(a: i64)
    ensures
        sem_div(seq![ExprV::Num(a), ExprV::Num(0)]) == Err::<ExprV, Fatal>(
            Fatal::DivisionByZero,
        ),
        sem_rem(seq![ExprV::Num(a), ExprV::Num(0)]) == Err::<ExprV, Fatal>(Fatal::ModuloByZero),
{
}

/// A `for` over an inverted range performs zero iterations, returns the
/// number zero, and leaves the environment untouched.
pub proof fn lemma_for_inverted(name: Seq<char>, from: i64, to: i64, body: ExprV, m: EnvV,
    fuel: nat)
    requires
        from > to,
        fuel >= 2,
    ensures
        sem_for(seq![ExprV::Var(name), ExprV::Num(from), ExprV::Num(to), body], m, fuel) == (
            Ok::<ExprV, Fatal>(ExprV::Num(0)),
            m,
        ),
{
}

/// `print` never fatally aborts, whatever the arguments are — including
/// none: it always returns the rendered text.
pub proof fn lemma_print_total(args: Seq<ExprV>, m: EnvV, fuel: nat)
    requires
        fuel >= 1,
    ensures
        sem_builtin(BuiltinOp::Print, args, m, fuel) == (
            Ok::<ExprV, Fatal>(ExprV::Str(trim_end_s(render_join(args)))),
            m,
        ),
{
}

} // verus!
