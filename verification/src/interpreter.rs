//! The expression data model, the environment, the lexer, the parser and the
//! evaluator's entry point.

use vstd::prelude::*;

use crate::numbers::{parse_i64_chars, spec_parse_i64};
use crate::semantics::{
    bind_params, names_of, params_of, sem_apply, sem_eval, sem_eval_args, BuiltinOp, ExprV, Fatal,
};
use crate::text::{chars_of, is_ws, is_ws_char, string_from_chars};
use vstd::string::StringExecFns;

verus! {

broadcast use vstd::std_specs::vec::group_vec_axioms;

/// An expression: both the parse tree and the runtime value representation.
/// Values are immutable once constructed; "mutation" is always replacement
/// of a binding in an [`Env`], never an in-place edit of a value.
///
/// A `Lambda` stores its parameter names and the literal body expression and
/// nothing else: it does not capture an environment. A `Builtin` names one
/// operation of the closed native registry.
#[derive(Debug, PartialEq)]
pub enum Expr {
    Num(i64),
    Var(String),
    Str(String),
    List(Vec<Expr>),
    Lambda(Vec<String>, Box<Expr>),
    Builtin(BuiltinOp),
}

/// The view of a sequence of expressions: each element's view, in order.
pub open spec fn view_seq(s: Seq<Expr>) -> Seq<ExprV>
    decreases s,
{
    if s.len() == 0 {
        Seq::empty()
    } else {
        view_seq(s.drop_last()).push(s.last()@)
    }
}

/// The view of a sequence of names: each name's character sequence, in order.
pub open spec fn view_strs(s: Seq<String>) -> Seq<Seq<char>>
    decreases s,
{
    if s.len() == 0 {
        Seq::empty()
    } else {
        view_strs(s.drop_last()).push(s.last()@)
    }
}

impl View for Expr {
    type V = ExprV;

    open spec fn view(&self) -> ExprV
        decreases self,
    {
        match self {
            Expr::Num(n) => ExprV::Num(*n),
            Expr::Var(s) => ExprV::Var(s@),
            Expr::Str(s) => ExprV::Str(s@),
            Expr::List(items) => ExprV::List(view_seq(items@)),
            Expr::Lambda(params, body) => ExprV::Lambda(
                view_strs(params@),
                Box::new((**body).view()),
            ),
            Expr::Builtin(op) => ExprV::Builtin(*op),
        }
    }
}

pub proof fn lemma_view_seq(s: Seq<Expr>)
    ensures
        view_seq(s).len() == s.len(),
        forall|i: int| 0 <= i < s.len() ==> #[trigger] view_seq(s)[i] == s[i]@,
    decreases s,
{
    if s.len() > 0 {
        lemma_view_seq(s.drop_last());
        assert(view_seq(s) == view_seq(s.drop_last()).push(s.last()@));
        assert forall|i: int| 0 <= i < s.len() implies #[trigger] view_seq(s)[i] == s[i]@ by {
            if i < s.len() - 1 {
                assert(view_seq(s)[i] == view_seq(s.drop_last())[i]);
                assert(view_seq(s.drop_last())[i] == s.drop_last()[i]@);
                assert(s.drop_last()[i] == s[i]);
            } else {
                assert(view_seq(s)[i] == s.last()@);
                assert(s.last() == s[i]);
            }
        }
    }
}

pub proof fn lemma_view_strs(s: Seq<String>)
    ensures
        view_strs(s).len() == s.len(),
        forall|i: int| 0 <= i < s.len() ==> #[trigger] view_strs(s)[i] == s[i]@,
    decreases s,
{
    if s.len() > 0 {
        lemma_view_strs(s.drop_last());
        assert(view_strs(s) == view_strs(s.drop_last()).push(s.last()@));
        assert forall|i: int| 0 <= i < s.len() implies #[trigger] view_strs(s)[i] == s[i]@ by {
            if i < s.len() - 1 {
                assert(view_strs(s)[i] == view_strs(s.drop_last())[i]);
                assert(view_strs(s.drop_last())[i] == s.drop_last()[i]@);
                assert(s.drop_last()[i] == s[i]);
            } else {
                assert(view_strs(s)[i] == s.last()@);
                assert(s.last() == s[i]);
            }
        }
    }
}

impl Expr {
    /// A deep copy: the copy denotes the same value as the original.
    #[verifier::loop_isolation(false)]
    pub fn dup(&self) -> (r: Expr)
        ensures
            r@ == self@,
        decreases *self,
    {
        match self {
            Expr::Num(n) => Expr::Num(*n),
            Expr::Var(s) => Expr::Var(s.clone()),
            Expr::Str(s) => Expr::Str(s.clone()),
            Expr::Builtin(op) => Expr::Builtin(*op),
            Expr::Lambda(params, body) => {
                let mut ps: Vec<String> = Vec::new();
                let mut i: usize = 0;
                while i < params.len()
                    invariant
                        i <= params.len(),
                        ps@.len() == i as int,
                        forall|j: int| 0 <= j < i ==> ps@[j]@ == #[trigger] params@[j]@,
                    decreases params.len() - i,
                {
                    ps.push(params[i].clone());
                    i += 1;
                }
                proof {
                    lemma_view_strs(ps@);
                    lemma_view_strs(params@);
                    assert(view_strs(ps@) =~= view_strs(params@));
                }
                Expr::Lambda(ps, Box::new((**body).dup()))
            },
            Expr::List(items) => {
                let mut out: Vec<Expr> = Vec::new();
                let mut i: usize = 0;
                while i < items.len()
                    invariant
                        i <= items.len(),
                        out@.len() == i as int,
                        forall|j: int| 0 <= j < i ==> out@[j]@ == #[trigger] items@[j]@,
                    decreases items.len() - i,
                {
                    proof {
                        assert(*self == Expr::List(*items));
                        assert(decreases_to!(*self => *items));
                        assert(decreases_to!(*items => items@));
                        assert(decreases_to!(items@ => items@[i as int]));
                        assert(decreases_to!(*self => items@[i as int]));
                    }
                    out.push(items[i].dup());
                    i += 1;
                }
                proof {
                    lemma_view_seq(out@);
                    lemma_view_seq(items@);
                    assert(view_seq(out@) =~= view_seq(items@));
                }
                Expr::List(out)
            },
        }
    }
}

/// A mutable mapping from symbol names to values, with a "snapshot"
/// extension: [`Env::extend`] yields a brand-new environment holding a full
/// value-copy of the current bindings, with no further link to this one.
///
/// The representation is an association list where the latest binding of a
/// name wins; its view is the resulting name-to-value map.
pub struct Env {
    pairs: Vec<(String, Expr)>,
}

/// The map that an association list denotes: later pairs override earlier
/// ones.
pub open spec fn assoc_map(s: Seq<(String, Expr)>) -> Map<Seq<char>, ExprV>
    decreases s,
{
    if s.len() == 0 {
        Map::empty()
    } else {
        assoc_map(s.drop_last()).insert(s.last().0@, s.last().1@)
    }
}

impl View for Env {
    type V = Map<Seq<char>, ExprV>;

    closed spec fn view(&self) -> Map<Seq<char>, ExprV> {
        assoc_map(self.pairs@)
    }
}

impl Env {
    /// A fresh, empty environment.
    pub fn new() -> (r: Env)
        ensures
            r@ == Map::<Seq<char>, ExprV>::empty(),
    {
        Env { pairs: Vec::new() }
    }

    /// Insert-or-overwrite one binding.
    pub fn set(&mut self, k: &str, v: Expr)
        ensures
            final(self)@ == old(self)@.insert(k@, v@),
    {
        let name = String::from_str(k);
        self.pairs.push((name, v));
        proof {
            assert(self.pairs@.drop_last() =~= old(self).pairs@);
        }
    }

    /// Look a name up; the latest binding wins. The returned value is a
    /// copy of the bound one.
    pub fn get(&self, k: &str) -> (r: Option<Expr>)
        ensures
            match r {
                Some(e) => self@.contains_key(k@) && e@ == self@[k@],
                None => !self@.contains_key(k@),
            },
    {
        let key = String::from_str(k);
        let mut i: usize = self.pairs.len();
        proof {
            assert(self.pairs@.subrange(0, self.pairs@.len() as int) =~= self.pairs@);
        }
        while i > 0
            invariant
                i <= self.pairs@.len(),
                key@ == k@,
                assoc_map(self.pairs@.subrange(0, i as int)).contains_key(k@)
                    == self@.contains_key(k@),
                assoc_map(self.pairs@.subrange(0, i as int)).contains_key(k@)
                    ==> assoc_map(self.pairs@.subrange(0, i as int))[k@] == self@[k@],
            decreases i,
        {
            proof {
                assert(self.pairs@.subrange(0, i as int).drop_last()
                    =~= self.pairs@.subrange(0, i as int - 1));
                assert(self.pairs@.subrange(0, i as int).last() == self.pairs@[i as int - 1]);
            }
            if self.pairs[i - 1].0 == key {
                return Some(self.pairs[i - 1].1.dup());
            }
            i -= 1;
        }
        proof {
            assert(self.pairs@.subrange(0, 0) =~= Seq::<(String, Expr)>::empty());
        }
        None
    }

    /// A brand-new environment whose initial contents are a full value-copy
    /// of this one's bindings.
    pub fn extend(&self) -> (r: Env)
        ensures
            r@ == self@,
    {
        let mut out: Vec<(String, Expr)> = Vec::new();
        let mut i: usize = 0;
        while i < self.pairs.len()
            invariant
                i <= self.pairs@.len(),
                out@.len() == i as int,
                forall|j: int| 0 <= j < i ==> (#[trigger] out@[j]).0@ == self.pairs@[j].0@
                    && out@[j].1@ == self.pairs@[j].1@,
            decreases self.pairs.len() - i,
        {
            let name = self.pairs[i].0.clone();
            let val = self.pairs[i].1.dup();
            out.push((name, val));
            i += 1;
        }
        proof {
            lemma_assoc_map_congruent(out@, self.pairs@);
        }
        Env { pairs: out }
    }
}

/// The token sequence of a source text, given the text still to scan and
/// the partial token read so far. Every `(` and `)` is a token of its own;
/// any other maximal run of non-whitespace characters is a token; whitespace
/// only separates. Lexing is total: every input yields a token sequence.
pub open spec fn spec_tokenize(s: Seq<char>, cur: Seq<char>) -> Seq<Seq<char>>
    decreases s.len(),
{
    if s.len() == 0 {
        if cur.len() == 0 {
            Seq::empty()
        } else {
            seq![cur]
        }
    } else {
        let c = s[0];
        if c == '(' || c == ')' {
            if cur.len() == 0 {
                seq![seq![c]] + spec_tokenize(s.drop_first(), Seq::empty())
            } else {
                seq![cur, seq![c]] + spec_tokenize(s.drop_first(), Seq::empty())
            }
        } else if is_ws(c) {
            if cur.len() == 0 {
                spec_tokenize(s.drop_first(), Seq::empty())
            } else {
                seq![cur] + spec_tokenize(s.drop_first(), Seq::empty())
            }
        } else {
            spec_tokenize(s.drop_first(), cur.push(c))
        }
    }
}

proof fn lemma_view_strs_push(a: Seq<String>, x: String)
    ensures
        view_strs(a.push(x)) == view_strs(a).push(x@),
{
    assert(a.push(x).drop_last() =~= a);
}

proof fn lemma_view_seq_push(a: Seq<Expr>, x: Expr)
    ensures
        view_seq(a.push(x)) == view_seq(a).push(x@),
{
    assert(a.push(x).drop_last() =~= a);
}

/// Split a source text into tokens; see [`spec_tokenize`]. Total: no input
/// fails, an empty or all-whitespace input yields no tokens.
#[verifier::loop_isolation(false)]
pub fn tokenize(s: &str) -> (r: Vec<String>)
    ensures
        view_strs(r@) == spec_tokenize(s@, Seq::empty()),
{
    let cs = chars_of(s);
    let n = cs.len();
    let mut out: Vec<String> = Vec::new();
    let mut cur: Vec<char> = Vec::new();
    let mut i: usize = 0;
    proof {
        assert(cs@.subrange(0, n as int) =~= cs@);
    }
    while i < n
        invariant
            i <= n,
            view_strs(out@) + spec_tokenize(cs@.subrange(i as int, n as int), cur@)
                == spec_tokenize(s@, Seq::empty()),
        decreases n - i,
    {
        let ghost rem = cs@.subrange(i as int, n as int);
        let ghost rem2 = cs@.subrange(i as int + 1, n as int);
        proof {
            assert(rem.drop_first() =~= rem2);
            assert(rem[0] == cs@[i as int]);
        }
        let c = cs[i];
        if c == '(' || c == ')' {
            if cur.len() > 0 {
                let ghost out0 = out@;
                let t = string_from_chars(&cur);
                out.push(t);
                proof {
                    lemma_view_strs_push(out0, t);
                }
                cur = Vec::new();
            }
            let ghost out1 = out@;
            let mut p: Vec<char> = Vec::new();
            p.push(c);
            let t2 = string_from_chars(&p);
            out.push(t2);
            proof {
                assert(p@ =~= seq![c]);
                assert(cur@ =~= Seq::<char>::empty());
                lemma_view_strs_push(out1, t2);
                assert(view_strs(out@) + spec_tokenize(rem2, Seq::<char>::empty())
                    =~= spec_tokenize(s@, Seq::empty()));
            }
        } else if is_ws_char(c) {
            if cur.len() > 0 {
                let ghost out0 = out@;
                let t = string_from_chars(&cur);
                out.push(t);
                proof {
                    lemma_view_strs_push(out0, t);
                }
                cur = Vec::new();
            }
            proof {
                assert(cur@ =~= Seq::<char>::empty());
                assert(view_strs(out@) + spec_tokenize(rem2, Seq::<char>::empty())
                    =~= spec_tokenize(s@, Seq::empty()));
            }
        } else {
            let ghost cur0 = cur@;
            cur.push(c);
            proof {
                assert(spec_tokenize(rem, cur0) == spec_tokenize(rem2, cur0.push(c)));
            }
        }
        i += 1;
    }
    proof {
        assert(cs@.subrange(n as int, n as int) =~= Seq::<char>::empty());
    }
    if cur.len() > 0 {
        let ghost out0 = out@;
        let t = string_from_chars(&cur);
        out.push(t);
        proof {
            lemma_view_strs_push(out0, t);
        }
    }
    proof {
        assert(view_strs(out@) =~= spec_tokenize(s@, Seq::empty()));
    }
    out
}

/// A result with the value replaced by its view; the shape contracts speak
/// of.
pub open spec fn res_view(r: Result<Expr, Fatal>) -> Result<ExprV, Fatal> {
    match r {
        Ok(e) => Ok(e@),
        Err(f) => Err(f),
    }
}

/// What one token denotes: a number if it reads as a signed 64-bit decimal
/// integer; else a string literal if its first and last characters are both
/// `"` or both `'` (exactly those two characters are stripped); else a
/// symbol carrying the raw token text.
pub open spec fn spec_atom(t: Seq<char>) -> ExprV {
    match spec_parse_i64(t) {
        Some(n) => ExprV::Num(n),
        None => if t.len() >= 1 && ((t[0] == '"' && t.last() == '"') || (t[0] == '\''
            && t.last() == '\'')) {
            if t.len() >= 2 {
                ExprV::Str(t.subrange(1, t.len() - 1))
            } else {
                ExprV::Str(Seq::empty())
            }
        } else {
            ExprV::Var(t)
        },
    }
}

/// What parsing the first complete form of a token sequence yields, and the
/// tokens left over. An exhausted input or a stray `)` is a fatal abort.
pub open spec fn spec_parse(t: Seq<Seq<char>>) -> (Result<ExprV, Fatal>, Seq<Seq<char>>)
    decreases t.len(), 0nat,
{
    if t.len() == 0 {
        (Err(Fatal::UnexpectedEof), t)
    } else if t[0] == seq!['('] {
        spec_parse_items(t.drop_first(), Seq::empty())
    } else if t[0] == seq![')'] {
        (Err(Fatal::UnexpectedClose), t.drop_first())
    } else {
        (Ok(spec_atom(t[0])), t.drop_first())
    }
}

/// Parse forms until the next token is `)`, consume it, and yield the list
/// of what was read (after `acc`). Runs out of tokens: a fatal abort.
pub open spec fn spec_parse_items(t: Seq<Seq<char>>, acc: Seq<ExprV>) -> (Result<
    ExprV,
    Fatal,
>, Seq<Seq<char>>)
    decreases t.len(), 1nat,
{
    if t.len() == 0 {
        (Err(Fatal::UnexpectedEof), t)
    } else if t[0] == seq![')'] {
        (Ok(ExprV::List(acc)), t.drop_first())
    } else {
        let (r, rest) = spec_parse(t);
        match r {
            Err(f) => (Err(f), rest),
            Ok(v) => if rest.len() < t.len() {
                spec_parse_items(rest, acc.push(v))
            } else {
                (Err(Fatal::UnexpectedEof), rest)
            },
        }
    }
}

/// Parsing is inverse to canonical re-serialization for string literals:
/// any text wrapped in one pair of double quotes reads back as exactly that
/// text.
pub proof fn lemma_atom_text_round_trip(s: Seq<char>)
    ensures
        spec_atom(seq!['"'] + s + seq!['"']) == ExprV::Str(s),
{
    let t = seq!['"'] + s + seq!['"'];
    assert(t[0] == '"');
    assert(t.last() == '"');
    assert(!crate::numbers::is_digit(t[0]));
    assert(spec_parse_i64(t) is None);
    assert(t.subrange(1, t.len() - 1) =~= s);
}

/// Classify one token; see [`spec_atom`].
fn atom_of(tok: String) -> (r: Expr)
    ensures
        r@ == spec_atom(tok@),
{
    let tc = chars_of(tok.as_str());
    match parse_i64_chars(&tc) {
        Some(n) => Expr::Num(n),
        None => {
            if tc.len() >= 1 && ((tc[0] == '"' && tc[tc.len() - 1] == '"') || (tc[0] == '\''
                && tc[tc.len() - 1] == '\'')) {
                if tc.len() >= 2 {
                    let mut inner: Vec<char> = Vec::new();
                    let mut j: usize = 1;
                    while j < tc.len() - 1
                        invariant
                            1 <= j <= tc@.len() - 1,
                            tc@.len() >= 2,
                            inner@.len() == j - 1,
                            forall|k: int| 0 <= k < j - 1 ==> inner@[k] == tc@[k + 1],
                        decreases tc@.len() - 1 - j,
                    {
                        inner.push(tc[j]);
                        j += 1;
                    }
                    proof {
                        assert(inner@ =~= tok@.subrange(1, tok@.len() - 1));
                    }
                    Expr::Str(string_from_chars(&inner))
                } else {
                    let empty = String::new();
                    proof {
                        assert(empty@ =~= Seq::<char>::empty());
                    }
                    Expr::Str(empty)
                }
            } else {
                Expr::Var(tok)
            }
        },
    }
}

/// Is the next token a closing parenthesis?
fn peek_close(tokens: &Vec<String>) -> (r: bool)
    requires
        tokens@.len() > 0,
    ensures
        r == (tokens@[0]@ == seq![')']),
{
    let tc = chars_of(tokens[0].as_str());
    if tc.len() == 1 && tc[0] == ')' {
        proof {
            assert(tokens@[0]@ =~= seq![')']);
        }
        true
    } else {
        false
    }
}

/// Parse the first complete form off the front of `tokens`, consuming its
/// tokens; see [`spec_parse`]. The tokens of the parsed form are always
/// consumed, so a successful parse always shortens the input.
#[verifier::loop_isolation(false)]
pub fn parse(tokens: &mut Vec<String>) -> (r: Result<Expr, Fatal>)
    ensures
        res_view(r) == spec_parse(view_strs(old(tokens)@)).0,
        view_strs(final(tokens)@) == spec_parse(view_strs(old(tokens)@)).1,
        old(tokens)@.len() > 0 ==> final(tokens)@.len() < old(tokens)@.len(),
        final(tokens)@.len() <= old(tokens)@.len(),
    decreases old(tokens)@.len(),
{
    proof {
        lemma_view_strs(tokens@);
    }
    if tokens.len() == 0 {
        return Err(Fatal::UnexpectedEof);
    }
    let ghost whole = view_strs(old(tokens)@);
    let tok = tokens.remove(0);
    proof {
        assert(old(tokens)@.remove(0) =~= old(tokens)@.drop_first());
        lemma_view_strs(tokens@);
        lemma_view_strs(old(tokens)@.drop_first());
        assert(view_strs(tokens@) =~= whole.drop_first());
    }
    let tc = chars_of(tok.as_str());
    let is_open = tc.len() == 1 && tc[0] == '(';
    let is_close = tc.len() == 1 && tc[0] == ')';
    proof {
        if is_open {
            assert(tok@ =~= seq!['(']);
        }
        if is_close {
            assert(tok@ =~= seq![')']);
        }
        assert(whole[0] == tok@);
    }
    if is_open {
        let mut list: Vec<Expr> = Vec::new();
        proof {
            assert(view_seq(list@) =~= Seq::<ExprV>::empty());
        }
        while tokens.len() > 0 && !peek_close(tokens)
            invariant
                tokens@.len() < old(tokens)@.len(),
                spec_parse_items(view_strs(tokens@), view_seq(list@)) == spec_parse_items(
                    whole.drop_first(),
                    Seq::empty(),
                ),
            decreases tokens@.len(),
        {
            let ghost before = view_strs(tokens@);
            let ghost acc0 = view_seq(list@);
            proof {
                lemma_view_strs(tokens@);
                assert(before[0] == tokens@[0]@);
                assert(before.len() > 0);
            }
            let sub = match parse(tokens) {
                Ok(e) => e,
                Err(f) => {
                    return Err(f);
                },
            };
            let ghost lst0 = list@;
            list.push(sub);
            proof {
                lemma_view_seq_push(lst0, sub);
                lemma_view_strs(tokens@);
            }
        }
        proof {
            lemma_view_strs(tokens@);
        }
        if tokens.len() == 0 {
            proof {
                assert(view_strs(tokens@) =~= Seq::<Seq<char>>::empty());
            }
            return Err(Fatal::UnexpectedEof);
        }
        let ghost cur = view_strs(tokens@);
        tokens.remove(0);
        proof {
            lemma_view_strs(tokens@);
            assert(view_strs(tokens@) =~= cur.drop_first());
        }
        Ok(Expr::List(list))
    } else if is_close {
        Err(Fatal::UnexpectedClose)
    } else {
        proof {
            assert(tok@ != seq!['(']);
            assert(tok@ != seq![')']);
        }
        Ok(atom_of(tok))
    }
}

/// Is this expression the keyword symbol `kw`?
fn is_kw(e: &Expr, kw: &str) -> (r: bool)
    ensures
        r == (e@ == ExprV::Var(kw@)),
{
    match e {
        Expr::Var(s) => *s == String::from_str(kw),
        _ => false,
    }
}

/// Evaluate an expression under an environment; the executable twin of
/// [`sem_eval`], proved to agree with it clause for clause. `fuel` bounds
/// the evaluation depth (the analogue of the call stack): every step burns
/// one unit, and running out is the fatal `OutOfFuel`.
#[verifier::loop_isolation(false)]
pub fn eval(expr: &Expr, env: &mut Env, fuel: u64) -> (r: Result<Expr, Fatal>)
    ensures
        res_view(r) == sem_eval(expr@, old(env)@, fuel as nat).0,
        final(env)@ == sem_eval(expr@, old(env)@, fuel as nat).1,
    decreases fuel,
{
    if fuel == 0 {
        return Err(Fatal::OutOfFuel);
    }
    match expr {
        Expr::Num(_) | Expr::Str(_) | Expr::Lambda(_, _) | Expr::Builtin(_) => Ok(expr.dup()),
        Expr::Var(name) => match env.get(name.as_str()) {
            Some(v) => Ok(v),
            None => {
                let mut msg = String::from_str("error: undefined variable: ");
                msg.append(name.as_str());
                Ok(Expr::Var(msg))
            },
        },
        Expr::List(list) => {
            let ghost lv = view_seq(list@);
            proof {
                lemma_view_seq(list@);
            }
            if list.len() == 0 {
                let empty: Vec<Expr> = Vec::new();
                proof {
                    assert(view_seq(empty@) =~= Seq::<ExprV>::empty());
                }
                return Ok(Expr::List(empty));
            }
            if is_kw(&list[0], "lambda") {
                if list.len() != 3 {
                    return Err(Fatal::BadLambda);
                }
                let names = match param_names(&list[1]) {
                    Some(ns) => ns,
                    None => {
                        return Err(Fatal::BadLambda);
                    },
                };
                Ok(Expr::Lambda(names, Box::new(list[2].dup())))
            } else if is_kw(&list[0], "define") {
                if list.len() < 2 {
                    return Err(Fatal::BadDefine);
                }
                let name = match &list[1] {
                    Expr::Var(n) => n.clone(),
                    _ => {
                        return Err(Fatal::BadDefine);
                    },
                };
                if list.len() == 3 {
                    let v = match eval(&list[2], env, fuel - 1) {
                        Ok(v) => v,
                        Err(f) => {
                            return Err(f);
                        },
                    };
                    env.set(name.as_str(), v.dup());
                    Ok(v)
                } else {
                    env.set(name.as_str(), Expr::Num(0));
                    Ok(Expr::Num(0))
                }
            } else if is_kw(&list[0], "set!") {
                if list.len() != 3 {
                    return Ok(Expr::Var(String::from_str("error: set! expects 2 arguments")));
                }
                let name = match &list[1] {
                    Expr::Var(n) => n.clone(),
                    _ => {
                        return Ok(
                            Expr::Var(
                                String::from_str(
                                    "error: set! first argument must be a variable name",
                                ),
                            ),
                        );
                    },
                };
                let v = match eval(&list[2], env, fuel - 1) {
                    Ok(v) => v,
                    Err(f) => {
                        return Err(f);
                    },
                };
                env.set(name.as_str(), v.dup());
                Ok(v)
            } else {
                let fv = match eval(&list[0], env, fuel - 1) {
                    Ok(v) => v,
                    Err(f) => {
                        return Err(f);
                    },
                };
                let vs = match eval_args(list, 1, env, fuel - 1) {
                    Ok(vs) => vs,
                    Err(f) => {
                        return Err(f);
                    },
                };
                proof {
                    assert(lv.subrange(1, lv.len() as int) =~= lv.drop_first());
                }
                apply(fv, vs, env, fuel - 1)
            }
        },
    }
}

/// Read a lambda's parameter list: a list whose elements are all symbols.
#[verifier::loop_isolation(false)]
fn param_names(e: &Expr) -> (r: Option<Vec<String>>)
    ensures
        match r {
            Some(ns) => params_of(e@) == Some(view_strs(ns@)),
            None => params_of(e@) is None,
        },
{
    match e {
        Expr::List(items) => {
            let ghost iv = view_seq(items@);
            proof {
                lemma_view_seq(items@);
                assert(iv.subrange(0, iv.len() as int) =~= iv);
            }
            let mut ns: Vec<String> = Vec::new();
            let mut i: usize = 0;
            while i < items.len()
                invariant
                    i <= items@.len(),
                    ns@.len() == i as int,
                    forall|j: int| 0 <= j < i ==> iv[j] == ExprV::Var(#[trigger] ns@[j]@),
                decreases items@.len() - i,
            {
                match &items[i] {
                    Expr::Var(n) => {
                        ns.push(n.clone());
                    },
                    _ => {
                        proof {
                            lemma_names_of_bad(iv, i as int);
                        }
                        return None;
                    },
                }
                i += 1;
            }
            proof {
                lemma_view_strs(ns@);
                lemma_names_of_good(iv, view_strs(ns@));
            }
            Some(ns)
        },
        _ => None,
    }
}

/// If some element of `items` is not a symbol, they have no parameter-name
/// reading.
proof fn lemma_names_of_bad(items: Seq<ExprV>, bad: int)
    requires
        0 <= bad < items.len(),
        !(items[bad] matches ExprV::Var(_)),
    ensures
        names_of(items) is None,
    decreases items.len(),
{
    if bad > 0 {
        lemma_names_of_bad(items.drop_first(), bad - 1);
    }
}

/// If every element of `items` is the symbol named at the same position of
/// `names`, then `names` is their parameter-name reading.
proof fn lemma_names_of_good(items: Seq<ExprV>, names: Seq<Seq<char>>)
    requires
        items.len() == names.len(),
        forall|j: int| 0 <= j < items.len() ==> items[j] == ExprV::Var(#[trigger] names[j]),
    ensures
        names_of(items) == Some(names),
    decreases items.len(),
{
    if items.len() == 0 {
        assert(names =~= Seq::<Seq<char>>::empty());
    } else {
        lemma_names_of_good(items.drop_first(), names.drop_first());
        assert(names =~= seq![names[0]] + names.drop_first());
    }
}

/// Evaluate the argument forms `items[i..]` left to right, threading the
/// environment through; the executable twin of [`sem_eval_args`].
fn eval_args(items: &Vec<Expr>, i: usize, env: &mut Env, fuel: u64) -> (r: Result<
    Vec<Expr>,
    Fatal,
>)
    requires
        i <= items@.len(),
    ensures
        match r {
            Ok(vs) => sem_eval_args(
                view_seq(items@).subrange(i as int, view_seq(items@).len() as int),
                old(env)@,
                fuel as nat,
            ).0 == Ok::<Seq<ExprV>, Fatal>(view_seq(vs@)),
            Err(f) => sem_eval_args(
                view_seq(items@).subrange(i as int, view_seq(items@).len() as int),
                old(env)@,
                fuel as nat,
            ).0 == Err::<Seq<ExprV>, Fatal>(f),
        },
        final(env)@ == sem_eval_args(
            view_seq(items@).subrange(i as int, view_seq(items@).len() as int),
            old(env)@,
            fuel as nat,
        ).1,
    decreases fuel,
{
    let ghost av = view_seq(items@);
    proof {
        lemma_view_seq(items@);
    }
    if fuel == 0 {
        return Err(Fatal::OutOfFuel);
    }
    if i >= items.len() {
        let empty: Vec<Expr> = Vec::new();
        proof {
            assert(av.subrange(av.len() as int, av.len() as int) =~= Seq::<ExprV>::empty());
            assert(view_seq(empty@) =~= Seq::<ExprV>::empty());
        }
        return Ok(empty);
    }
    proof {
        assert(av.subrange(i as int, av.len() as int)[0] == av[i as int]);
        assert(av.subrange(i as int, av.len() as int).drop_first() =~= av.subrange(
            i as int + 1,
            av.len() as int,
        ));
    }
    let v = match eval(&items[i], env, fuel - 1) {
        Ok(v) => v,
        Err(f) => {
            return Err(f);
        },
    };
    let mut rest = match eval_args(items, i + 1, env, fuel - 1) {
        Ok(vs) => vs,
        Err(f) => {
            return Err(f);
        },
    };
    let ghost restv = rest@;
    let mut out: Vec<Expr> = Vec::new();
    out.push(v);
    out.append(&mut rest);
    proof {
        lemma_view_seq(out@);
        lemma_view_seq(restv);
        assert(view_seq(out@) =~= seq![out@[0]@] + view_seq(restv));
    }
    Ok(out)
}

/// Apply a callee value to already-evaluated arguments; the executable twin
/// of [`sem_apply`]. A lambda runs its body in a fresh snapshot of the
/// caller's environment; mutations inside it never reach the caller.
#[verifier::loop_isolation(false)]
fn apply(f: Expr, args: Vec<Expr>, env: &mut Env, fuel: u64) -> (r: Result<Expr, Fatal>)
    ensures
        res_view(r) == sem_apply(f@, view_seq(args@), old(env)@, fuel as nat).0,
        final(env)@ == sem_apply(f@, view_seq(args@), old(env)@, fuel as nat).1,
    decreases fuel,
{
    if fuel == 0 {
        return Err(Fatal::OutOfFuel);
    }
    match f {
        Expr::Builtin(op) => crate::builtins::apply_builtin(op, args, env, fuel - 1),
        Expr::Lambda(params, body) => {
            let ghost pv = view_strs(params@);
            let ghost av = view_seq(args@);
            proof {
                lemma_view_strs(params@);
                lemma_view_seq(args@);
            }
            let mut new_env = env.extend();
            let ghost m0 = new_env@;
            proof {
                assert(pv.subrange(0, pv.len() as int) =~= pv);
                assert(av.subrange(0, av.len() as int) =~= av);
            }
            let mut idx: usize = 0;
            while idx < params.len()
                invariant
                    idx <= params@.len(),
                    bind_params(
                        pv.subrange(idx as int, pv.len() as int),
                        if idx as int <= av.len() {
                            av.subrange(idx as int, av.len() as int)
                        } else {
                            Seq::empty()
                        },
                        new_env@,
                    ) == bind_params(pv, av, m0),
                decreases params@.len() - idx,
            {
                proof {
                    assert(pv.subrange(idx as int, pv.len() as int)[0] == pv[idx as int]);
                    assert(pv.subrange(idx as int, pv.len() as int).drop_first() =~= pv.subrange(
                        idx as int + 1,
                        pv.len() as int,
                    ));
                    if (idx as int) < av.len() {
                        assert(av.subrange(idx as int, av.len() as int)[0] == av[idx as int]);
                        assert(av.subrange(idx as int, av.len() as int).drop_first()
                            =~= av.subrange(idx as int + 1, av.len() as int));
                    } else if idx as int == av.len() {
                        assert(av.subrange(idx as int, av.len() as int) =~= Seq::<
                            ExprV,
                        >::empty());
                    }
                }
                let value = if idx < args.len() {
                    args[idx].dup()
                } else {
                    let blank = String::new();
                    proof {
                        assert(blank@ =~= Seq::<char>::empty());
                    }
                    Expr::Var(blank)
                };
                new_env.set(params[idx].as_str(), value);
                idx += 1;
            }
            proof {
                assert(pv.subrange(pv.len() as int, pv.len() as int) =~= Seq::<
                    Seq<char>,
                >::empty());
            }
            eval(&*body, &mut new_env, fuel - 1)
        },
        _ => Ok(f),
    }
}

/// Association lists with pairwise view-equal entries denote the same map.
proof fn lemma_assoc_map_congruent(a: Seq<(String, Expr)>, b: Seq<(String, Expr)>)
    requires
        a.len() == b.len(),
        forall|j: int| 0 <= j < a.len() ==> (#[trigger] a[j]).0@ == b[j].0@ && a[j].1@ == b[j].1@,
    ensures
        assoc_map(a) == assoc_map(b),
    decreases a,
{
    if a.len() > 0 {
        lemma_assoc_map_congruent(a.drop_last(), b.drop_last());
        assert(assoc_map(a) =~= assoc_map(b));
    }
}

} // verus!
