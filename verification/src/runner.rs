//! The top-level entry point: one source string in, one displayable string
//! out. Fatal aborts anywhere inside lexing, parsing or evaluation are
//! caught here and converted into one fixed generic failure string; the
//! sentinel error values surface as their own text.

use vstd::prelude::*;

use crate::builtins::add_builtins;
use crate::interpreter::{eval, parse, spec_parse, spec_tokenize, tokenize, view_strs, Env, Expr};
use crate::numbers::{i64_dec, i64_dec_chars};
use crate::semantics::{
    render_item, sem_eval, spec_add_builtins, EnvV, ExprV, Fatal,
};
use crate::text::string_from_chars;
use vstd::string::StringExecFns;

verus! {

/// The evaluation depth that one `run_code` request is allowed.
pub const RUN_FUEL: u64 = 1000000;

/// The fixed generic failure string that a fatal abort is converted into.
pub open spec fn failure_text() -> Seq<char> {
    "invalid input or code!"@
}

/// The text of the last string-valued element, if any.
pub open spec fn last_str(l: Seq<ExprV>) -> Option<Seq<char>>
    decreases l.len(),
{
    if l.len() == 0 {
        None
    } else {
        match l.last() {
            ExprV::Str(s) => Some(s),
            _ => last_str(l.drop_last()),
        }
    }
}

/// The last number-valued element, if any.
pub open spec fn last_num(l: Seq<ExprV>) -> Option<i64>
    decreases l.len(),
{
    if l.len() == 0 {
        None
    } else {
        match l.last() {
            ExprV::Num(n) => Some(n),
            _ => last_num(l.drop_last()),
        }
    }
}

/// The text of the last symbol-valued element, if any.
pub open spec fn last_var(l: Seq<ExprV>) -> Option<Seq<char>>
    decreases l.len(),
{
    if l.len() == 0 {
        None
    } else {
        match l.last() {
            ExprV::Var(s) => Some(s),
            _ => last_var(l.drop_last()),
        }
    }
}

/// The displayable string of a result value: a number in decimal, text and
/// symbols as their own text (this is how sentinel error values surface),
/// a list by its last string element, else its last number, else its last
/// symbol, else its rendering; an empty list as the empty string.
pub open spec fn display_of(v: ExprV) -> Seq<char> {
    match v {
        ExprV::Num(n) => i64_dec(n as int),
        ExprV::Str(s) => s,
        ExprV::Var(s) => s,
        ExprV::List(l) => if l.len() == 0 {
            Seq::empty()
        } else {
            match last_str(l) {
                Some(s) => s,
                None => match last_num(l) {
                    Some(n) => i64_dec(n as int),
                    None => match last_var(l) {
                        Some(s) => s,
                        None => render_item(v),
                    },
                },
            }
        },
        ExprV::Lambda(_, _) => render_item(v),
        ExprV::Builtin(_) => render_item(v),
    }
}

/// What `run_code` answers for a source text: tokenize, parse one form,
/// evaluate it in a fresh environment holding the builtin registry, then
/// display the result; any fatal abort becomes the fixed failure string.
pub open spec fn spec_run(code: Seq<char>) -> Seq<char> {
    let toks = spec_tokenize(code, Seq::empty());
    match spec_parse(toks).0 {
        Err(_) => failure_text(),
        Ok(form) => match sem_eval(
            form,
            spec_add_builtins(Map::empty()),
            RUN_FUEL as nat,
        ).0 {
            Err(_) => failure_text(),
            Ok(v) => display_of(v),
        },
    }
}

/// Find the last string-valued element; see [`last_str`].
#[verifier::loop_isolation(false)]
fn find_last_str(items: &Vec<Expr>) -> (r: Option<String>)
    ensures
        match r {
            Some(s) => last_str(crate::interpreter::view_seq(items@)) == Some(s@),
            None => last_str(crate::interpreter::view_seq(items@)) is None,
        },
{
    let ghost iv = crate::interpreter::view_seq(items@);
    proof {
        crate::interpreter::lemma_view_seq(items@);
        assert(iv.subrange(0, iv.len() as int) =~= iv);
    }
    let mut i: usize = items.len();
    while i > 0
        invariant
            i <= items@.len(),
            last_str(iv.subrange(0, i as int)) == last_str(iv),
        decreases i,
    {
        proof {
            assert(iv.subrange(0, i as int).last() == iv[i as int - 1]);
            assert(iv.subrange(0, i as int).drop_last() =~= iv.subrange(0, i as int - 1));
        }
        match &items[i - 1] {
            Expr::Str(s) => {
                return Some(s.clone());
            },
            _ => {},
        }
        i -= 1;
    }
    proof {
        assert(iv.subrange(0, 0) =~= Seq::<ExprV>::empty());
    }
    None
}

/// Find the last number-valued element; see [`last_num`].
#[verifier::loop_isolation(false)]
fn find_last_num(items: &Vec<Expr>) -> (r: Option<i64>)
    ensures
        r == last_num(crate::interpreter::view_seq(items@)),
{
    let ghost iv = crate::interpreter::view_seq(items@);
    proof {
        crate::interpreter::lemma_view_seq(items@);
        assert(iv.subrange(0, iv.len() as int) =~= iv);
    }
    let mut i: usize = items.len();
    while i > 0
        invariant
            i <= items@.len(),
            last_num(iv.subrange(0, i as int)) == last_num(iv),
        decreases i,
    {
        proof {
            assert(iv.subrange(0, i as int).last() == iv[i as int - 1]);
            assert(iv.subrange(0, i as int).drop_last() =~= iv.subrange(0, i as int - 1));
        }
        match &items[i - 1] {
            Expr::Num(n) => {
                return Some(*n);
            },
            _ => {},
        }
        i -= 1;
    }
    proof {
        assert(iv.subrange(0, 0) =~= Seq::<ExprV>::empty());
    }
    None
}

/// Find the last symbol-valued element; see [`last_var`].
#[verifier::loop_isolation(false)]
fn find_last_var(items: &Vec<Expr>) -> (r: Option<String>)
    ensures
        match r {
            Some(s) => last_var(crate::interpreter::view_seq(items@)) == Some(s@),
            None => last_var(crate::interpreter::view_seq(items@)) is None,
        },
{
    let ghost iv = crate::interpreter::view_seq(items@);
    proof {
        crate::interpreter::lemma_view_seq(items@);
        assert(iv.subrange(0, iv.len() as int) =~= iv);
    }
    let mut i: usize = items.len();
    while i > 0
        invariant
            i <= items@.len(),
            last_var(iv.subrange(0, i as int)) == last_var(iv),
        decreases i,
    {
        proof {
            assert(iv.subrange(0, i as int).last() == iv[i as int - 1]);
            assert(iv.subrange(0, i as int).drop_last() =~= iv.subrange(0, i as int - 1));
        }
        match &items[i - 1] {
            Expr::Var(s) => {
                return Some(s.clone());
            },
            _ => {},
        }
        i -= 1;
    }
    proof {
        assert(iv.subrange(0, 0) =~= Seq::<ExprV>::empty());
    }
    None
}

/// The displayable string of a result value; see [`display_of`].
fn display(v: &Expr) -> (r: String)
    ensures
        r@ == display_of(v@),
{
    match v {
        Expr::Num(n) => string_from_chars(&i64_dec_chars(*n)),
        Expr::Str(s) => s.clone(),
        Expr::Var(s) => s.clone(),
        Expr::List(items) => {
            if items.len() == 0 {
                let blank = String::new();
                proof {
                    assert(blank@ =~= Seq::<char>::empty());
                    assert(crate::interpreter::view_seq(items@).len() == 0) by {
                        crate::interpreter::lemma_view_seq(items@);
                    }
                }
                return blank;
            }
            proof {
                crate::interpreter::lemma_view_seq(items@);
            }
            if let Some(s) = find_last_str(items) {
                return s;
            }
            if let Some(n) = find_last_num(items) {
                return string_from_chars(&i64_dec_chars(n));
            }
            if let Some(s) = find_last_var(items) {
                return s;
            }
            string_from_chars(&crate::builtins::render_item_chars(v))
        },
        Expr::Lambda(_, _) => string_from_chars(&crate::builtins::render_item_chars(v)),
        Expr::Builtin(_) => string_from_chars(&crate::builtins::render_item_chars(v)),
    }
}

/// Run one source string: tokenize it, parse the first form, evaluate it
/// in a fresh environment pre-populated with the builtin registry, and
/// display the result. Every fatal abort inside is converted into the one
/// fixed generic failure string and never propagates further.
pub fn run_code(code: &str) -> (r: String)
    ensures
        r@ == spec_run(code@),
{
    let mut tokens = tokenize(code);
    let parsed = match parse(&mut tokens) {
        Ok(e) => e,
        Err(_) => {
            return String::from_str("invalid input or code!");
        },
    };
    let mut env = Env::new();
    add_builtins(&mut env);
    match eval(&parsed, &mut env, RUN_FUEL) {
        Err(_) => String::from_str("invalid input or code!"),
        Ok(v) => display(&v),
    }
}

/// A fatal abort during evaluation of a parsed form never escapes
/// `run_code`: the answer is exactly the fixed generic failure string, and
/// the abort's detail is discarded.
pub proof fn lemma_run_masks_fatal(code: Seq<char>)
    requires
        ({
            let pr = spec_parse(spec_tokenize(code, Seq::empty())).0;
            pr is Err || sem_eval(
                pr->Ok_0,
                spec_add_builtins(Map::empty()),
                RUN_FUEL as nat,
            ).0 is Err
        }),
    ensures
        spec_run(code) == failure_text(),
{
}

} // verus!
