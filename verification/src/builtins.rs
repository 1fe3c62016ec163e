//! The builtin library: the closed registry of native operations, each
//! proved to agree with its spec in [`crate::semantics`]. Every builtin
//! receives the already-evaluated argument values and a live mutable
//! environment (this is how `set!`, `while` and `for` achieve effects).

use vstd::prelude::*;

use crate::interpreter::{eval, lemma_view_seq, res_view, view_seq, Env, Expr};
use crate::numbers::i64_dec_chars;
use crate::semantics::{
    mul_nums, pow_result, render_item, render_items, render_join, sem_add, sem_begin, sem_cmp,
    sem_div, sem_for, sem_for_loop, sem_if, sem_mul, sem_pow, sem_rem, sem_run_seq, sem_set,
    sem_sub, sem_while, sem_while_loop, spec_add_builtins, sub_nums, sum_nums, BuiltinOp, ExprV,
    Fatal,
};
use crate::text::{chars_of, chars_start_with, string_from_chars, trim_end_chars, trim_end_s};
use std::io::Write;
use vstd::string::StringExecFns;

verus! {

broadcast use vstd::std_specs::vec::group_vec_axioms;

/// `(+ ...)`: integer sum of the arguments.
#[verifier::loop_isolation(false)]
pub fn builtin_add(args: Vec<Expr>, env: &mut Env) -> (r: Result<Expr, Fatal>)
    ensures
        res_view(r) == sem_add(view_seq(args@)),
        final(env)@ == old(env)@,
{
    let ghost av = view_seq(args@);
    proof {
        lemma_view_seq(args@);
        assert(av.subrange(0, av.len() as int) =~= av);
    }
    let mut acc: i64 = 0;
    let mut i: usize = 0;
    while i < args.len()
        invariant
            i <= args@.len(),
            sum_nums(av.subrange(i as int, av.len() as int), acc) == sum_nums(av, 0),
        decreases args@.len() - i,
    {
        proof {
            assert(av.subrange(i as int, av.len() as int).drop_first() =~= av.subrange(
                i as int + 1,
                av.len() as int,
            ));
            assert(av.subrange(i as int, av.len() as int)[0] == av[i as int]);
        }
        match &args[i] {
            Expr::Num(n) => {
                match acc.checked_add(*n) {
                    Some(a) => {
                        acc = a;
                    },
                    None => {
                        return Err(Fatal::Overflow);
                    },
                }
            },
            _ => {
                return Err(Fatal::TypeMismatch);
            },
        }
        i += 1;
    }
    proof {
        assert(av.subrange(av.len() as int, av.len() as int) =~= Seq::<ExprV>::empty());
    }
    Ok(Expr::Num(acc))
}

/// `(- first ...)`: the first argument minus the remaining ones.
#[verifier::loop_isolation(false)]
pub fn builtin_sub(args: Vec<Expr>, env: &mut Env) -> (r: Result<Expr, Fatal>)
    ensures
        res_view(r) == sem_sub(view_seq(args@)),
        final(env)@ == old(env)@,
{
    let ghost av = view_seq(args@);
    proof {
        lemma_view_seq(args@);
    }
    if args.len() == 0 {
        return Err(Fatal::Arity);
    }
    let mut acc: i64 = match &args[0] {
        Expr::Num(n) => *n,
        _ => {
            return Err(Fatal::TypeMismatch);
        },
    };
    let ghost facc: i64 = acc;
    let mut i: usize = 1;
    proof {
        assert(av.subrange(1, av.len() as int) =~= av.drop_first());
    }
    while i < args.len()
        invariant
            1 <= i <= args@.len(),
            sub_nums(av.subrange(i as int, av.len() as int), acc) == sub_nums(
                av.drop_first(),
                facc,
            ),
        decreases args@.len() - i,
    {
        proof {
            assert(av.subrange(i as int, av.len() as int).drop_first() =~= av.subrange(
                i as int + 1,
                av.len() as int,
            ));
            assert(av.subrange(i as int, av.len() as int)[0] == av[i as int]);
        }
        match &args[i] {
            Expr::Num(n) => {
                match acc.checked_sub(*n) {
                    Some(a) => {
                        acc = a;
                    },
                    None => {
                        return Err(Fatal::Overflow);
                    },
                }
            },
            _ => {
                return Err(Fatal::TypeMismatch);
            },
        }
        i += 1;
    }
    proof {
        assert(av.subrange(av.len() as int, av.len() as int) =~= Seq::<ExprV>::empty());
    }
    Ok(Expr::Num(acc))
}

/// `(* ...)`: integer product of the arguments.
#[verifier::loop_isolation(false)]
pub fn builtin_mul(args: Vec<Expr>, env: &mut Env) -> (r: Result<Expr, Fatal>)
    ensures
        res_view(r) == sem_mul(view_seq(args@)),
        final(env)@ == old(env)@,
{
    let ghost av = view_seq(args@);
    proof {
        lemma_view_seq(args@);
        assert(av.subrange(0, av.len() as int) =~= av);
    }
    let mut acc: i64 = 1;
    let mut i: usize = 0;
    while i < args.len()
        invariant
            i <= args@.len(),
            mul_nums(av.subrange(i as int, av.len() as int), acc) == mul_nums(av, 1),
        decreases args@.len() - i,
    {
        proof {
            assert(av.subrange(i as int, av.len() as int).drop_first() =~= av.subrange(
                i as int + 1,
                av.len() as int,
            ));
            assert(av.subrange(i as int, av.len() as int)[0] == av[i as int]);
        }
        match &args[i] {
            Expr::Num(n) => {
                match acc.checked_mul(*n) {
                    Some(a) => {
                        acc = a;
                    },
                    None => {
                        return Err(Fatal::Overflow);
                    },
                }
            },
            _ => {
                return Err(Fatal::TypeMismatch);
            },
        }
        i += 1;
    }
    proof {
        assert(av.subrange(av.len() as int, av.len() as int) =~= Seq::<ExprV>::empty());
    }
    Ok(Expr::Num(acc))
}

/// `(/ a b)`: truncating integer division.
pub fn builtin_div(args: Vec<Expr>, env: &mut Env) -> (r: Result<Expr, Fatal>)
    ensures
        res_view(r) == sem_div(view_seq(args@)),
        final(env)@ == old(env)@,
{
    proof {
        lemma_view_seq(args@);
    }
    if args.len() != 2 {
        return Err(Fatal::Arity);
    }
    match (&args[0], &args[1]) {
        (Expr::Num(a), Expr::Num(b)) => {
            if *b == 0 {
                Err(Fatal::DivisionByZero)
            } else {
                match a.checked_div(*b) {
                    Some(q) => Ok(Expr::Num(q)),
                    None => Err(Fatal::Overflow),
                }
            }
        },
        _ => Err(Fatal::TypeMismatch),
    }
}

/// `(% a b)`: the remainder of truncating division.
pub fn builtin_rem(args: Vec<Expr>, env: &mut Env) -> (r: Result<Expr, Fatal>)
    ensures
        res_view(r) == sem_rem(view_seq(args@)),
        final(env)@ == old(env)@,
{
    proof {
        lemma_view_seq(args@);
    }
    if args.len() != 2 {
        return Err(Fatal::Arity);
    }
    match (&args[0], &args[1]) {
        (Expr::Num(a), Expr::Num(b)) => {
            if *b == 0 {
                Err(Fatal::ModuloByZero)
            } else {
                match a.checked_rem(*b) {
                    Some(q) => Ok(Expr::Num(q)),
                    None => Err(Fatal::Overflow),
                }
            }
        },
        _ => Err(Fatal::TypeMismatch),
    }
}

/// Once a power has overflowed, every higher power has as well.
proof fn lemma_pow_err(a: i64, e1: nat, e2: nat)
    requires
        e1 <= e2,
        pow_result(a, e1) is Err,
    ensures
        pow_result(a, e2) == pow_result(a, e1),
    decreases e2 - e1,
{
    if e1 < e2 {
        lemma_pow_err(a, e1, (e2 - 1) as nat);
    }
}

/// `(pow a b)`: `a` to the power `b`, the exponent reduced to 32 bits.
#[verifier::loop_isolation(false)]
pub fn builtin_pow(args: Vec<Expr>, env: &mut Env) -> (r: Result<Expr, Fatal>)
    ensures
        res_view(r) == sem_pow(view_seq(args@)),
        final(env)@ == old(env)@,
{
    proof {
        lemma_view_seq(args@);
    }
    if args.len() != 2 {
        return Err(Fatal::Arity);
    }
    let (a, b): (i64, i64) = match (&args[0], &args[1]) {
        (Expr::Num(a), Expr::Num(b)) => (*a, *b),
        _ => {
            return Err(Fatal::TypeMismatch);
        },
    };
    let e: u32 = #[verifier::truncate] (b as u32);
    proof {
        assert(e == b as u32);
    }
    let mut acc: i64 = 1;
    let mut k: u32 = 0;
    while k < e
        invariant
            k <= e,
            pow_result(a, k as nat) == Ok::<i64, Fatal>(acc),
        decreases e - k,
    {
        match acc.checked_mul(a) {
            Some(p) => {
                acc = p;
            },
            None => {
                proof {
                    assert(pow_result(a, (k + 1) as nat) == Err::<i64, Fatal>(Fatal::Overflow));
                    lemma_pow_err(a, (k + 1) as nat, e as nat);
                }
                return Err(Fatal::Overflow);
            },
        }
        k += 1;
    }
    Ok(Expr::Num(acc))
}

/// `(< a b)`.
pub fn builtin_lt(args: Vec<Expr>, env: &mut Env) -> (r: Result<Expr, Fatal>)
    ensures
        res_view(r) == sem_cmp(BuiltinOp::Lt, view_seq(args@)),
        final(env)@ == old(env)@,
{
    proof {
        lemma_view_seq(args@);
    }
    if args.len() != 2 {
        return Err(Fatal::Arity);
    }
    match (&args[0], &args[1]) {
        (Expr::Num(a), Expr::Num(b)) => Ok(Expr::Num(if *a < *b {
            1
        } else {
            0
        })),
        _ => Err(Fatal::TypeMismatch),
    }
}

/// `(<= a b)`.
pub fn builtin_le(args: Vec<Expr>, env: &mut Env) -> (r: Result<Expr, Fatal>)
    ensures
        res_view(r) == sem_cmp(BuiltinOp::Le, view_seq(args@)),
        final(env)@ == old(env)@,
{
    proof {
        lemma_view_seq(args@);
    }
    if args.len() != 2 {
        return Err(Fatal::Arity);
    }
    match (&args[0], &args[1]) {
        (Expr::Num(a), Expr::Num(b)) => Ok(Expr::Num(if *a <= *b {
            1
        } else {
            0
        })),
        _ => Err(Fatal::TypeMismatch),
    }
}

/// `(> a b)`.
pub fn builtin_gt(args: Vec<Expr>, env: &mut Env) -> (r: Result<Expr, Fatal>)
    ensures
        res_view(r) == sem_cmp(BuiltinOp::Gt, view_seq(args@)),
        final(env)@ == old(env)@,
{
    proof {
        lemma_view_seq(args@);
    }
    if args.len() != 2 {
        return Err(Fatal::Arity);
    }
    match (&args[0], &args[1]) {
        (Expr::Num(a), Expr::Num(b)) => Ok(Expr::Num(if *a > *b {
            1
        } else {
            0
        })),
        _ => Err(Fatal::TypeMismatch),
    }
}

/// `(>= a b)`.
pub fn builtin_ge(args: Vec<Expr>, env: &mut Env) -> (r: Result<Expr, Fatal>)
    ensures
        res_view(r) == sem_cmp(BuiltinOp::Ge, view_seq(args@)),
        final(env)@ == old(env)@,
{
    proof {
        lemma_view_seq(args@);
    }
    if args.len() != 2 {
        return Err(Fatal::Arity);
    }
    match (&args[0], &args[1]) {
        (Expr::Num(a), Expr::Num(b)) => Ok(Expr::Num(if *a >= *b {
            1
        } else {
            0
        })),
        _ => Err(Fatal::TypeMismatch),
    }
}

/// Relies on std's `writeln!` to standard output: emits the line as a side
/// effect. Output only; nothing is promised of it.
#[verifier::external_body]
fn emit_line(s: &str) {
    let _ = writeln!(std::io::stdout(), "{}", s);
}

/// Render one value; see [`render_item`].
pub(crate) fn render_item_chars(v: &Expr) -> (r: Vec<char>)
    ensures
        r@ == render_item(v@),
    decreases *v, 0nat, 0nat,
{
    match v {
        Expr::Num(n) => i64_dec_chars(*n),
        Expr::Str(s) => chars_of(s.as_str()),
        Expr::Var(s) => {
            let sc = chars_of(s.as_str());
            let pc = chars_of("error: ");
            if chars_start_with(&sc, &pc) {
                Vec::new()
            } else {
                sc
            }
        },
        Expr::List(items) => {
            proof {
                assert(*v == Expr::List(*items));
                assert(decreases_to!(*items => items@));
            }
            let mut out: Vec<char> = Vec::new();
            out.push('(');
            let mut mid = render_items_chars(items, 0);
            out.append(&mut mid);
            out.push(')');
            proof {
                assert(items@.subrange(0, items@.len() as int) =~= items@);
                assert(view_seq(items@).subrange(0, view_seq(items@).len() as int) =~= view_seq(
                    items@,
                ));
                assert(out@ =~= seq!['('] + render_items(view_seq(items@)) + seq![')']);
            }
            out
        },
        Expr::Lambda(_, _) => chars_of("<lambda>"),
        Expr::Builtin(_) => Vec::new(),
    }
}

/// Render the elements of a list from position `i` on, space-separated.
fn render_items_chars(items: &Vec<Expr>, i: usize) -> (r: Vec<char>)
    requires
        i <= items@.len(),
    ensures
        r@ == render_items(view_seq(items@).subrange(i as int, view_seq(items@).len() as int)),
    decreases items@, 1nat, items@.len() - i,
{
    let ghost av = view_seq(items@);
    proof {
        lemma_view_seq(items@);
    }
    if i >= items.len() {
        proof {
            assert(av.subrange(av.len() as int, av.len() as int) =~= Seq::<ExprV>::empty());
        }
        Vec::new()
    } else {
        proof {
            assert(decreases_to!(items@ => items@[i as int]));
            assert(av.subrange(i as int, av.len() as int)[0] == av[i as int]);
        }
        if i == items.len() - 1 {
            render_item_chars(&items[i])
        } else {
            proof {
                assert(av.subrange(i as int, av.len() as int).drop_first() =~= av.subrange(
                    i as int + 1,
                    av.len() as int,
                ));
            }
            let mut out = render_item_chars(&items[i]);
            out.push(' ');
            let mut rest = render_items_chars(items, i + 1);
            out.append(&mut rest);
            proof {
                assert(out@ =~= render_item(av[i as int]) + seq![' '] + render_items(av.subrange(
                    i as int + 1,
                    av.len() as int,
                )));
            }
            out
        }
    }
}

/// Render an argument list: each argument's rendering followed by a space.
fn render_join_chars(args: &Vec<Expr>, i: usize) -> (r: Vec<char>)
    requires
        i <= args@.len(),
    ensures
        r@ == render_join(view_seq(args@).subrange(i as int, view_seq(args@).len() as int)),
    decreases args@, 2nat, args@.len() - i,
{
    let ghost av = view_seq(args@);
    proof {
        lemma_view_seq(args@);
    }
    if i >= args.len() {
        proof {
            assert(av.subrange(av.len() as int, av.len() as int) =~= Seq::<ExprV>::empty());
        }
        Vec::new()
    } else {
        proof {
            assert(decreases_to!(args@ => args@[i as int]));
            assert(av.subrange(i as int, av.len() as int)[0] == av[i as int]);
            assert(av.subrange(i as int, av.len() as int).drop_first() =~= av.subrange(
                i as int + 1,
                av.len() as int,
            ));
        }
        let mut out = render_item_chars(&args[i]);
        out.push(' ');
        let mut rest = render_join_chars(args, i + 1);
        out.append(&mut rest);
        proof {
            assert(out@ =~= render_item(av[i as int]) + seq![' '] + render_join(av.subrange(
                i as int + 1,
                av.len() as int,
            )));
        }
        out
    }
}

/// `(print ...)`: renders the arguments space-joined, trims the trailing
/// whitespace, writes the line to standard output, and returns the text.
/// It never fails, whatever the arguments are — including none.
pub fn builtin_print(args: Vec<Expr>, env: &mut Env) -> (r: Result<Expr, Fatal>)
    ensures
        res_view(r) == Ok::<ExprV, Fatal>(
            ExprV::Str(trim_end_s(render_join(view_seq(args@)))),
        ),
        final(env)@ == old(env)@,
{
    proof {
        assert(view_seq(args@).subrange(0, view_seq(args@).len() as int) =~= view_seq(args@));
    }
    let rendered = render_join_chars(&args, 0);
    let trimmed = trim_end_chars(&rendered);
    let s = string_from_chars(&trimmed);
    emit_line(s.as_str());
    Ok(Expr::Str(s))
}

/// `(string ...)`: the same space-joined rendering as `print`, but without
/// the trailing trim and without writing any output. Never fails.
pub fn builtin_string(args: Vec<Expr>, env: &mut Env) -> (r: Result<Expr, Fatal>)
    ensures
        res_view(r) == Ok::<ExprV, Fatal>(ExprV::Str(render_join(view_seq(args@)))),
        final(env)@ == old(env)@,
{
    proof {
        assert(view_seq(args@).subrange(0, view_seq(args@).len() as int) =~= view_seq(args@));
    }
    let rendered = render_join_chars(&args, 0);
    let s = string_from_chars(&rendered);
    Ok(Expr::Str(s))
}

/// `(set! name value)` as a callable builtin: malformed calls yield a
/// sentinel, a well-formed call binds the (already-evaluated) value in the
/// caller's environment and returns it.
pub fn builtin_set(args: Vec<Expr>, env: &mut Env) -> (r: Result<Expr, Fatal>)
    ensures
        res_view(r) == sem_set(view_seq(args@), old(env)@).0,
        final(env)@ == sem_set(view_seq(args@), old(env)@).1,
{
    proof {
        lemma_view_seq(args@);
    }
    if args.len() != 2 {
        return Ok(Expr::Var(String::from_str("error: set! expects 2 arguments")));
    }
    match &args[0] {
        Expr::Var(name) => {
            env.set(name.as_str(), args[1].dup());
            Ok(args[1].dup())
        },
        _ => Ok(
            Expr::Var(String::from_str("error: set! first argument must be a variable name")),
        ),
    }
}

/// `(if cond a b)`: the condition must already be a number; the chosen
/// branch value is evaluated once more. (Both branch arguments were already
/// evaluated eagerly before `if` ran; see the evaluator.)
pub fn builtin_if(args: Vec<Expr>, env: &mut Env, fuel: u64) -> (r: Result<Expr, Fatal>)
    ensures
        res_view(r) == sem_if(view_seq(args@), old(env)@, fuel as nat).0,
        final(env)@ == sem_if(view_seq(args@), old(env)@, fuel as nat).1,
    decreases fuel,
{
    proof {
        lemma_view_seq(args@);
    }
    if fuel == 0 {
        return Err(Fatal::OutOfFuel);
    }
    if args.len() != 3 {
        return Err(Fatal::Arity);
    }
    match &args[0] {
        Expr::Num(c) => {
            if *c != 0 {
                eval(&args[1], env, fuel - 1)
            } else {
                eval(&args[2], env, fuel - 1)
            }
        },
        _ => Err(Fatal::BadIf),
    }
}

/// Evaluate `items[i..]` in order, returning the last result (or `last`
/// when the range is empty), threading the environment through.
fn run_seq(items: &Vec<Expr>, i: usize, env: &mut Env, fuel: u64, last: Expr) -> (r: Result<
    Expr,
    Fatal,
>)
    requires
        i <= items@.len(),
    ensures
        res_view(r) == sem_run_seq(
            view_seq(items@).subrange(i as int, view_seq(items@).len() as int),
            old(env)@,
            fuel as nat,
            last@,
        ).0,
        final(env)@ == sem_run_seq(
            view_seq(items@).subrange(i as int, view_seq(items@).len() as int),
            old(env)@,
            fuel as nat,
            last@,
        ).1,
    decreases fuel,
{
    let ghost av = view_seq(items@);
    proof {
        lemma_view_seq(items@);
    }
    if fuel == 0 {
        return Err(Fatal::OutOfFuel);
    }
    if i >= items.len() {
        proof {
            assert(av.subrange(av.len() as int, av.len() as int) =~= Seq::<ExprV>::empty());
        }
        return Ok(last);
    }
    proof {
        assert(av.subrange(i as int, av.len() as int)[0] == av[i as int]);
        assert(av.subrange(i as int, av.len() as int).drop_first() =~= av.subrange(
            i as int + 1,
            av.len() as int,
        ));
    }
    match eval(&items[i], env, fuel - 1) {
        Err(f) => Err(f),
        Ok(v) => run_seq(items, i + 1, env, fuel - 1, v),
    }
}

/// `(begin ...)`: evaluate each (already-evaluated) argument once more in
/// order; the last result, or the empty list for no arguments.
pub fn builtin_begin(args: Vec<Expr>, env: &mut Env, fuel: u64) -> (r: Result<Expr, Fatal>)
    ensures
        res_view(r) == sem_begin(view_seq(args@), old(env)@, fuel as nat).0,
        final(env)@ == sem_begin(view_seq(args@), old(env)@, fuel as nat).1,
    decreases fuel,
{
    proof {
        assert(view_seq(args@).subrange(0, view_seq(args@).len() as int) =~= view_seq(args@));
    }
    if fuel == 0 {
        return Err(Fatal::OutOfFuel);
    }
    let seed: Vec<Expr> = Vec::new();
    proof {
        assert(view_seq(seed@) =~= Seq::<ExprV>::empty());
    }
    run_seq(&args, 0, env, fuel - 1, Expr::List(seed))
}

/// One pass of `while`; see [`sem_while_loop`].
fn while_loop_run(args: &Vec<Expr>, env: &mut Env, fuel: u64, last: Expr) -> (r: Result<
    Expr,
    Fatal,
>)
    requires
        args@.len() >= 2,
    ensures
        res_view(r) == sem_while_loop(view_seq(args@), old(env)@, fuel as nat, last@).0,
        final(env)@ == sem_while_loop(view_seq(args@), old(env)@, fuel as nat, last@).1,
    decreases fuel,
{
    let ghost av = view_seq(args@);
    proof {
        lemma_view_seq(args@);
    }
    if fuel == 0 {
        return Err(Fatal::OutOfFuel);
    }
    let cond = match eval(&args[0], env, fuel - 1) {
        Err(f) => {
            return Err(f);
        },
        Ok(cv) => cv,
    };
    match cond {
        Expr::Num(c) => {
            if c == 0 {
                Ok(last)
            } else {
                proof {
                    assert(av.drop_first() =~= av.subrange(1, av.len() as int));
                }
                let last2 = match run_seq(args, 1, env, fuel - 1, last) {
                    Err(f) => {
                        return Err(f);
                    },
                    Ok(v) => v,
                };
                while_loop_run(args, env, fuel - 1, last2)
            }
        },
        Expr::Var(detail) => {
            let mut msg = String::from_str("error in while condition: ");
            msg.append(detail.as_str());
            Ok(Expr::Var(msg))
        },
        _ => Ok(Expr::Var(String::from_str("error: while condition must be a number"))),
    }
}

/// `(while cond body ...)`: malformed calls and bad conditions yield
/// sentinels, never fatal aborts. The (already-reduced) condition is
/// re-evaluated before every pass.
pub fn builtin_while(args: Vec<Expr>, env: &mut Env, fuel: u64) -> (r: Result<Expr, Fatal>)
    ensures
        res_view(r) == sem_while(view_seq(args@), old(env)@, fuel as nat).0,
        final(env)@ == sem_while(view_seq(args@), old(env)@, fuel as nat).1,
    decreases fuel,
{
    proof {
        lemma_view_seq(args@);
    }
    if fuel == 0 {
        return Err(Fatal::OutOfFuel);
    }
    if args.len() < 2 {
        return Ok(Expr::Var(String::from_str("error: while expects condition and body")));
    }
    let seed: Vec<Expr> = Vec::new();
    proof {
        assert(view_seq(seed@) =~= Seq::<ExprV>::empty());
    }
    while_loop_run(&args, env, fuel - 1, Expr::List(seed))
}

/// One iteration of `for`; see [`sem_for_loop`].
fn for_loop_run(
    name: &String,
    i: i64,
    to: i64,
    body: &Expr,
    env: &mut Env,
    fuel: u64,
    last: Expr,
) -> (r: Result<Expr, Fatal>)
    ensures
        res_view(r) == sem_for_loop(name@, i, to, body@, old(env)@, fuel as nat, last@).0,
        final(env)@ == sem_for_loop(name@, i, to, body@, old(env)@, fuel as nat, last@).1,
    decreases fuel,
{
    if fuel == 0 {
        return Err(Fatal::OutOfFuel);
    }
    if i > to {
        return Ok(last);
    }
    env.set(name.as_str(), Expr::Num(i));
    let v = match eval(body, env, fuel - 1) {
        Err(f) => {
            return Err(f);
        },
        Ok(v) => v,
    };
    if i == to {
        Ok(v)
    } else {
        for_loop_run(name, i + 1, to, body, env, fuel - 1, v)
    }
}

/// `(for var from to body)`: the shape is checked fatally, then the body
/// runs once per integer of `[from, to]` ascending, with `var` bound to it;
/// an inverted range runs zero times and yields `0`.
pub fn builtin_for(args: Vec<Expr>, env: &mut Env, fuel: u64) -> (r: Result<Expr, Fatal>)
    ensures
        res_view(r) == sem_for(view_seq(args@), old(env)@, fuel as nat).0,
        final(env)@ == sem_for(view_seq(args@), old(env)@, fuel as nat).1,
    decreases fuel,
{
    proof {
        lemma_view_seq(args@);
    }
    if fuel == 0 {
        return Err(Fatal::OutOfFuel);
    }
    if args.len() != 4 {
        return Err(Fatal::Arity);
    }
    match (&args[0], &args[1], &args[2]) {
        (Expr::Var(name), Expr::Num(from), Expr::Num(to)) => for_loop_run(
            name,
            *from,
            *to,
            &args[3],
            env,
            fuel - 1,
            Expr::Num(0),
        ),
        _ => Err(Fatal::BadFor),
    }
}

/// Dispatch one builtin operation over already-evaluated arguments.
pub(crate) fn apply_builtin(op: BuiltinOp, args: Vec<Expr>, env: &mut Env, fuel: u64) -> (r: Result<
    Expr,
    Fatal,
>)
    ensures
        res_view(r) == crate::semantics::sem_builtin(op, view_seq(args@), old(env)@,
        fuel as nat).0,
        final(env)@ == crate::semantics::sem_builtin(op, view_seq(args@), old(env)@,
        fuel as nat).1,
    decreases fuel,
{
    if fuel == 0 {
        return Err(Fatal::OutOfFuel);
    }
    match op {
        BuiltinOp::Add => builtin_add(args, env),
        BuiltinOp::Sub => builtin_sub(args, env),
        BuiltinOp::Mul => builtin_mul(args, env),
        BuiltinOp::Div => builtin_div(args, env),
        BuiltinOp::Rem => builtin_rem(args, env),
        BuiltinOp::Pow => builtin_pow(args, env),
        BuiltinOp::Lt => builtin_lt(args, env),
        BuiltinOp::Le => builtin_le(args, env),
        BuiltinOp::Gt => builtin_gt(args, env),
        BuiltinOp::Ge => builtin_ge(args, env),
        BuiltinOp::Print => builtin_print(args, env),
        BuiltinOp::Str => builtin_string(args, env),
        BuiltinOp::SetBang => builtin_set(args, env),
        BuiltinOp::If => builtin_if(args, env, fuel - 1),
        BuiltinOp::While => builtin_while(args, env, fuel - 1),
        BuiltinOp::Begin => builtin_begin(args, env, fuel - 1),
        BuiltinOp::For => builtin_for(args, env, fuel - 1),
    }
}

/// Install the whole builtin registry into an environment.
pub fn add_builtins(env: &mut Env)
    ensures
        final(env)@ == spec_add_builtins(old(env)@),
{
    env.set("+", Expr::Builtin(BuiltinOp::Add));
    env.set("-", Expr::Builtin(BuiltinOp::Sub));
    env.set("*", Expr::Builtin(BuiltinOp::Mul));
    env.set("/", Expr::Builtin(BuiltinOp::Div));
    env.set("%", Expr::Builtin(BuiltinOp::Rem));
    env.set("pow", Expr::Builtin(BuiltinOp::Pow));
    env.set("print", Expr::Builtin(BuiltinOp::Print));
    env.set("string", Expr::Builtin(BuiltinOp::Str));
    env.set("<", Expr::Builtin(BuiltinOp::Lt));
    env.set("<=", Expr::Builtin(BuiltinOp::Le));
    env.set(">", Expr::Builtin(BuiltinOp::Gt));
    env.set(">=", Expr::Builtin(BuiltinOp::Ge));
    env.set("set!", Expr::Builtin(BuiltinOp::SetBang));
    env.set("while", Expr::Builtin(BuiltinOp::While));
    env.set("if", Expr::Builtin(BuiltinOp::If));
    env.set("begin", Expr::Builtin(BuiltinOp::Begin));
    env.set("for", Expr::Builtin(BuiltinOp::For));
}

} // verus!
