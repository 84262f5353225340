use std::cmp::Ordering;
use std::sync::Arc;
use vstd::prelude::*;
use crate::value::{
    RVal, RLambda, Builtin, show, tag, tag_seq, text, string_of, chars_of, append_str, write_tags,
    val_eq, val_cmp, nat_text, find_key, find_key_index, lemma_find_key_bounds,
};
use crate::model::{Val, model, models, lemma_models};
use crate::reader::{tokenize, parse, same_chars};
use crate::env::{REnv, first_file};
use crate::ops::{binop, is_binop, op_val};
use crate::semantics::{
    ev, ev_sub, ev_list, form_rel, rep_rel, bi_rel, app_rel, do_rel, fold_rel, chain_rel,
    and_rel, or_rel, cond_rel, args_rel, not_fn_msg, trigger_step, trigger_call, for_rel, write_rel,
    restored, while_rel, map_rel,
};

verus! {

/// How deeply evaluations may nest.
pub const MAX_DEPTH: u32 = 4294967295;

/// How many times a `while` body may run: every count a `u64` holds, more than any
/// machine can reach.
pub const MAX_LOOPS: u64 = 18446744073709551615;

pub open spec fn is_keyword(s: Seq<char>) -> bool {
    s.len() > 0 && s[0] == ':'
}

pub open spec fn unbound_msg(s: Seq<char>) -> Seq<char> {
    "unbound symbol '"@ + s + "'"@
}

/// Whether the form `vs` starts with the symbol `name`.
pub open spec fn head_is(vs: Seq<RVal>, name: Seq<char>) -> bool {
    vs.len() > 0 && vs[0] is RSym && vs[0]->RSym_0@ == name
}

/// What evaluation with `d` levels of nesting left guarantees.
pub open spec fn eval_post(v: RVal, e0: REnv, e1: REnv, r: RVal, d: int) -> bool {
    match v {
        RVal::RSym(s) => {
            &&& e1 == e0
            &&& is_keyword(s@) ==> r == v
            &&& !is_keyword(s@) && e0.binds().contains_key(s@) ==> r == e0.binds()[s@]
            &&& !is_keyword(s@) && !e0.binds().contains_key(s@) ==> r@ == Val::VErr(
                unbound_msg(s@),
            )
        },
        RVal::RLst(vs) => {
            &&& vs@.len() == 0 ==> r@ == Val::VLst(Seq::empty()) && e1 == e0
            &&& vs@.len() == 2 && head_is(vs@, "quote"@) ==> r == vs@[1] && e1 == e0
            &&& vs@.len() == 3 && head_is(vs@, "let"@) && vs@[1] is RSym ==> e1.binds().contains_key(
                vs@[1]->RSym_0@,
            ) && e1.binds()[vs@[1]->RSym_0@] == r
            &&& head_is(vs@, "do"@) && (exists|j: int| 1 <= j < vs@.len() && #[trigger] vs@[j] is RErr)
                ==> r is RErr
            &&& applies_builtin(vs@, e0, d) ==> r@ == builtin_val(
                e0.binds()[vs@[0]->RSym_0@]->RBfn_0,
                vs@.drop_first(),
            )->Some_0 && e1 == e0
            &&& vs@.len() == 3 && head_is(vs@, "fn"@) && vs@[1] is RLst && all_symbols(
                vs@[1]->RLst_0@,
            ) ==> r is RLfn && r->RLfn_0.params == vs@[1] && r->RLfn_0.body == vs@[2] && e1 == e0
            &&& d > 0 && vs@.len() == 2 && is_identity_form(vs@[0]) && inert(vs@[1]) ==> r
                == vs@[1] && e1.binds() == e0.binds()
            &&& d > 0 && vs@.len() > 0 && vs@[0] is RSym && all_inert(vs@.drop_first())
                && access_val(vs@[0]->RSym_0@, vs@.drop_first()) is Some ==> r@ == access_val(
                vs@[0]->RSym_0@,
                vs@.drop_first(),
            )->Some_0 && e1 == e0
        },
        _ => r == v && e1 == e0,
    }
}

/// A function value `(fn (x) x)`: one parameter, which is also the body.
pub open spec fn is_identity(l: RLambda) -> bool {
    &&& l.params is RLst
    &&& l.params->RLst_0@.len() == 1
    &&& l.params->RLst_0@[0] is RSym
    &&& !is_keyword(l.params->RLst_0@[0]->RSym_0@)
    &&& l.body == l.params->RLst_0@[0]
}

/// The form `(fn (x) x)`.
pub open spec fn is_identity_form(f: RVal) -> bool {
    &&& f is RLst
    &&& f->RLst_0@.len() == 3
    &&& head_is(f->RLst_0@, "fn"@)
    &&& is_identity(RLambda { params: f->RLst_0@[1], body: f->RLst_0@[2] })
}

/// The form calls an arithmetic, bitwise, comparison or logic builtin by a symbol bound
/// to it, on arguments that evaluate to themselves.
pub open spec fn applies_builtin(vs: Seq<RVal>, e0: REnv, d: int) -> bool {
    &&& d > 0
    &&& vs.len() > 0
    &&& vs[0] is RSym
    &&& !is_special(vs[0]->RSym_0@)
    &&& e0.binds().contains_key(vs[0]->RSym_0@)
    &&& e0.binds()[vs[0]->RSym_0@] is RBfn
    &&& all_inert(vs.drop_first())
    &&& builtin_val(e0.binds()[vs[0]->RSym_0@]->RBfn_0, vs.drop_first()) is Some
}

/// The names of the special forms differ from each other: in their first letter, or else
/// in their length (`fn`, `for`) or their last letter (`cond`, `cons`).
pub proof fn lemma_form_names()
    ensures
        "quote"@.len() == 5 && "quote"@[0] == 'q',
        "let"@.len() == 3 && "let"@[0] == 'l',
        "do"@.len() == 2 && "do"@[0] == 'd',
        "fn"@.len() == 2 && "fn"@[0] == 'f',
        "eval"@.len() == 4 && "eval"@[0] == 'e',
        "at"@.len() == 2 && "at"@[0] == 'a',
        "head"@.len() == 4 && "head"@[0] == 'h',
        "rest"@.len() == 4 && "rest"@[0] == 'r',
        "get"@.len() == 3 && "get"@[0] == 'g',
        "if"@.len() == 2 && "if"@[0] == 'i',
        "cond"@.len() == 4 && "cond"@[0] == 'c' && "cond"@[3] == 'd',
        "for"@.len() == 3 && "for"@[0] == 'f',
        "while"@.len() == 5 && "while"@[0] == 'w',
        "cons"@.len() == 4 && "cons"@[0] == 'c' && "cons"@[3] == 's',
{
    reveal_strlit("if");
    reveal_strlit("cond");
    reveal_strlit("for");
    reveal_strlit("while");
    reveal_strlit("cons");
    reveal_strlit("quote");
    reveal_strlit("let");
    reveal_strlit("do");
    reveal_strlit("fn");
    reveal_strlit("eval");
    reveal_strlit("at");
    reveal_strlit("head");
    reveal_strlit("rest");
    reveal_strlit("get");
}

/// The names the builtins other than the special forms are bound to are not special.
pub proof fn lemma_operators_not_special()
    ensures
        !is_special("+"@),
        !is_special("/"@),
        !is_special("*"@),
        !is_special("-"@),
        !is_special("%"@),
        !is_special("&"@),
        !is_special("|"@),
        !is_special("~"@),
        !is_special("^"@),
        !is_special("<<"@),
        !is_special(">>"@),
        !is_special("floor"@),
        !is_special("not"@),
        !is_special("and"@),
        !is_special("or"@),
        !is_special("!"@),
        !is_special("&&"@),
        !is_special("||"@),
        !is_special("="@),
        !is_special("!="@),
        !is_special("<"@),
        !is_special("<="@),
        !is_special(">"@),
        !is_special(">="@),
        !is_special("read"@),
        !is_special("write"@),
        !is_special("load"@),
{
    lemma_form_names();
    reveal_strlit("at");
    assert("at"@[1] == 't');
    reveal_strlit("fn");
    assert("fn"@[1] == 'n');
    reveal_strlit("for");
    assert("for"@[1] == 'o');
    reveal_strlit("rest");
    assert("rest"@[1] == 'e');
    reveal_strlit("let");
    assert("let"@[1] == 'e' && "let"@[2] == 't');
    reveal_strlit("while");
    assert("while"@[1] == 'h');
    reveal_strlit("+");
    assert("+"@.len() == 1 && "+"@[0] == '+');
    reveal_strlit("/");
    assert("/"@.len() == 1 && "/"@[0] == '/');
    reveal_strlit("*");
    assert("*"@.len() == 1 && "*"@[0] == '*');
    reveal_strlit("-");
    assert("-"@.len() == 1 && "-"@[0] == '-');
    reveal_strlit("%");
    assert("%"@.len() == 1 && "%"@[0] == '%');
    reveal_strlit("&");
    assert("&"@.len() == 1 && "&"@[0] == '&');
    reveal_strlit("|");
    assert("|"@.len() == 1 && "|"@[0] == '|');
    reveal_strlit("~");
    assert("~"@.len() == 1 && "~"@[0] == '~');
    reveal_strlit("^");
    assert("^"@.len() == 1 && "^"@[0] == '^');
    reveal_strlit("<<");
    assert("<<"@.len() == 2 && "<<"@[0] == '<' && "<<"@[1] == '<');
    reveal_strlit(">>");
    assert(">>"@.len() == 2 && ">>"@[0] == '>' && ">>"@[1] == '>');
    reveal_strlit("floor");
    assert("floor"@.len() == 5 && "floor"@[0] == 'f' && "floor"@[1] == 'l' && "floor"@[2] == 'o' && "floor"@[3] == 'o' && "floor"@[4] == 'r');
    reveal_strlit("not");
    assert("not"@.len() == 3 && "not"@[0] == 'n' && "not"@[1] == 'o' && "not"@[2] == 't');
    reveal_strlit("and");
    assert("and"@.len() == 3 && "and"@[0] == 'a' && "and"@[1] == 'n' && "and"@[2] == 'd');
    reveal_strlit("or");
    assert("or"@.len() == 2 && "or"@[0] == 'o' && "or"@[1] == 'r');
    reveal_strlit("!");
    assert("!"@.len() == 1 && "!"@[0] == '!');
    reveal_strlit("&&");
    assert("&&"@.len() == 2 && "&&"@[0] == '&' && "&&"@[1] == '&');
    reveal_strlit("||");
    assert("||"@.len() == 2 && "||"@[0] == '|' && "||"@[1] == '|');
    reveal_strlit("=");
    assert("="@.len() == 1 && "="@[0] == '=');
    reveal_strlit("!=");
    assert("!="@.len() == 2 && "!="@[0] == '!' && "!="@[1] == '=');
    reveal_strlit("<");
    assert("<"@.len() == 1 && "<"@[0] == '<');
    reveal_strlit("<=");
    assert("<="@.len() == 2 && "<="@[0] == '<' && "<="@[1] == '=');
    reveal_strlit(">");
    assert(">"@.len() == 1 && ">"@[0] == '>');
    reveal_strlit(">=");
    assert(">="@.len() == 2 && ">="@[0] == '>' && ">="@[1] == '=');
    reveal_strlit("read");
    assert("read"@.len() == 4 && "read"@[0] == 'r' && "read"@[1] == 'e' && "read"@[2] == 'a' && "read"@[3] == 'd');
    reveal_strlit("write");
    assert("write"@.len() == 5 && "write"@[0] == 'w' && "write"@[1] == 'r' && "write"@[2] == 'i' && "write"@[3] == 't' && "write"@[4] == 'e');
    reveal_strlit("load");
    assert("load"@.len() == 4 && "load"@[0] == 'l' && "load"@[1] == 'o' && "load"@[2] == 'a' && "load"@[3] == 'd');
}

fn same_str(s: &String, lit: &str) -> (r: bool)
    ensures
        r == (s@ == lit@),
{
    same_chars(&chars_of(s.as_str()), &chars_of(lit))
}

fn empty_list() -> (r: RVal)
    ensures
        r@ == Val::VLst(Seq::empty()),
        r is RLst && r->RLst_0@.len() == 0,
{
    let v: Vec<RVal> = Vec::new();
    let r = RVal::RLst(Arc::new(v));
    proof {
        crate::model::lemma_models_ext(v@, Seq::empty());
    }
    r
}

/// `expected <what>, received <tags of args>`.
pub open spec fn expected_msg(what: Seq<char>, args: Seq<RVal>) -> Seq<char> {
    "expected "@ + what + ", received "@ + seq!['('] + tag_seq(args) + seq![')']
}

fn expected(what: &str, args: &Vec<RVal>) -> (r: RVal)
    ensures
        r@ == Val::VErr(expected_msg(what@, args@)),
{
    let mut buf: Vec<char> = Vec::new();
    append_str(&mut buf, "expected ");
    append_str(&mut buf, what);
    append_str(&mut buf, ", received ");
    buf.push('(');
    write_tags(args, &mut buf);
    buf.push(')');
    assert(buf@ =~= expected_msg(what@, args@));
    RVal::RErr(string_of(&buf))
}

fn err(msg: &str) -> (r: RVal)
    ensures
        r@ == Val::VErr(msg@),
{
    RVal::RErr(text(msg))
}

/// The elements after the first.
fn tail(vs: &Vec<RVal>) -> (r: Vec<RVal>)
    requires
        vs@.len() > 0,
    ensures
        r@ == vs@.subrange(1, vs@.len() as int),
{
    let mut r: Vec<RVal> = Vec::new();
    let mut i: usize = 1;
    while i < vs.len()
        invariant
            1 <= i <= vs@.len(),
            r@ == vs@.subrange(1, i as int),
        decreases vs@.len() - i,
    {
        r.push(vs[i].dup());
        i = i + 1;
        assert(r@ =~= vs@.subrange(1, i as int));
    }
    r
}

/// Reads the first expression of `expr` and evaluates it.
pub fn rep(expr: &str, env: &mut REnv) -> (r: RVal)
    ensures
        match parse_result(expr@) {
            Err(m) => r@ == Val::VErr(m) && *final(env) == *old(env),
            Ok(_) => true,
        },
        rep_rel(MAX_DEPTH as int, expr@, *old(env), *final(env), r),
{
    rep_in(expr, env, MAX_DEPTH)
}

pub open spec fn parse_result(src: Seq<char>) -> Result<(Val, int), Seq<char>> {
    crate::reader::parse_at(crate::reader::lex(src), 0)
}

fn rep_in(expr: &str, env: &mut REnv, depth: u32) -> (r: RVal)
    ensures
        match parse_result(expr@) {
            Err(m) => r@ == Val::VErr(m) && *final(env) == *old(env),
            Ok(_) => true,
        },
        rep_rel(depth as int, expr@, *old(env), *final(env), r),
    decreases depth, 1nat,
{
    let tokens = tokenize(expr);
    proof {
        assert(tokens@.map_values(|t: String| t@) == crate::reader::views(tokens@));
    }
    match parse(&tokens) {
        Ok((v, _)) => {
            let r = eval_sub(&v, env, depth);
            assert(ev_sub(depth as int, v, *old(env), *env, r));
            assert(trigger_step(*old(env), *env, v));
            r
        },
        Err(e) => e,
    }
}

/// Evaluates a value in the environment.
pub fn eval(val: &RVal, env: &mut REnv) -> (r: RVal)
    ensures
        eval_post(*val, *old(env), *final(env), r, MAX_DEPTH as int),
        ev(MAX_DEPTH as int, *val, *old(env), *final(env), r),
{
    eval_in(val, env, MAX_DEPTH)
}

fn eval_sub(val: &RVal, env: &mut REnv, depth: u32) -> (r: RVal)
    ensures
        depth > 0 ==> eval_post(*val, *old(env), *final(env), r, depth - 1),
        depth == 0 ==> r@ == Val::VErr("recursion depth exceeded"@) && *final(env) == *old(env),
        ev_sub(depth as int, *val, *old(env), *final(env), r),
    decreases depth, 0nat,
{
    if depth == 0 {
        err("recursion depth exceeded")
    } else {
        eval_in(val, env, depth - 1)
    }
}

fn eval_in(val: &RVal, env: &mut REnv, depth: u32) -> (r: RVal)
    ensures
        eval_post(*val, *old(env), *final(env), r, depth as int),
        ev(depth as int, *val, *old(env), *final(env), r),
    decreases depth, 7nat,
{
    match val {
        RVal::RSym(s) => {
            let cs = chars_of(s.as_str());
            if cs.len() > 0 && cs[0] == ':' {
                return val.dup();
            }
            match env.get(s.as_str()) {
                Some(v) => v,
                None => {
                    let mut buf: Vec<char> = Vec::new();
                    append_str(&mut buf, "unbound symbol '");
                    append_str(&mut buf, s.as_str());
                    append_str(&mut buf, "'");
                    assert(buf@ =~= unbound_msg(s@));
                    RVal::RErr(string_of(&buf))
                },
            }
        },
        RVal::RLst(vs) => {
            if vs.len() == 0 {
                empty_list()
            } else {
                eval_list(vs, env, depth)
            }
        },
        _ => val.dup(),
    }
}

/// Evaluates a non-empty form: a special form by its head symbol, else an application.
fn eval_list(vs: &Vec<RVal>, env: &mut REnv, depth: u32) -> (r: RVal)
    requires
        vs@.len() > 0,
    ensures
        vs@.len() == 2 && head_is(vs@, "quote"@) ==> r == vs@[1] && *final(env) == *old(env),
        vs@.len() == 3 && head_is(vs@, "let"@) && vs@[1] is RSym ==> final(env).binds().contains_key(
            vs@[1]->RSym_0@,
        ) && final(env).binds()[vs@[1]->RSym_0@] == r,
        head_is(vs@, "do"@) && (exists|j: int| 1 <= j < vs@.len() && #[trigger] vs@[j] is RErr)
            ==> r is RErr,
        applies_builtin(vs@, *old(env), depth as int) ==> r@ == builtin_val(
            old(env).binds()[vs@[0]->RSym_0@]->RBfn_0,
            vs@.drop_first(),
        )->Some_0 && *final(env) == *old(env),
        ev_list(depth as int, vs@, *old(env), *final(env), r),
        vs@.len() == 3 && head_is(vs@, "fn"@) && vs@[1] is RLst && all_symbols(vs@[1]->RLst_0@)
            ==> r is RLfn && r->RLfn_0.params == vs@[1] && r->RLfn_0.body == vs@[2] && *final(env)
            == *old(env),
        depth > 0 && vs@.len() == 2 && is_identity_form(vs@[0]) && inert(vs@[1]) ==> r == vs@[1]
            && final(env).binds() == old(env).binds(),
        depth > 0 && vs@[0] is RSym && all_inert(vs@.drop_first()) && access_val(
            vs@[0]->RSym_0@,
            vs@.drop_first(),
        ) is Some ==> r@ == access_val(vs@[0]->RSym_0@, vs@.drop_first())->Some_0 && *final(env)
            == *old(env),
    decreases depth, 6nat,
{
    let head = &vs[0];
    let args = tail(vs);
    assert(args@ =~= vs@.drop_first());
    proof {
        if head_is(vs@, "do"@) && (exists|j: int| 1 <= j < vs@.len() && #[trigger] vs@[j] is RErr) {
            let j = choose|j: int| 1 <= j < vs@.len() && #[trigger] vs@[j] is RErr;
            assert(args@[j - 1] == vs@[j]);
        }
    }
    match special_form(head, &args, env, depth) {
        Some(r) => r,
        None => match head {
            RVal::RSym(s) => match env.get(s.as_str()) {
                Some(RVal::RBfn(b)) => call_builtin(b, &args, env, depth),
                Some(RVal::RLfn(l)) => apply_in(&l, &args, env, depth),
                _ => not_a_function(head),
            },
            _ => not_a_function(head),
        },
    }
}

/// The names of the special forms.
pub open spec fn is_special(s: Seq<char>) -> bool {
    s == "at"@ || s == "head"@ || s == "rest"@ || s == "do"@ || s == "let"@ || s == "fn"@ || s
        == "quote"@ || s == "eval"@ || s == "get"@ || s == "if"@ || s == "cond"@ || s == "for"@
        || s == "while"@ || s == "cons"@
}

/// Runs a special form when `x` names one, and applies `x` when it is a list that
/// evaluates to a function; `None` for any other head.
fn special_form(x: &RVal, xs: &Vec<RVal>, env: &mut REnv, depth: u32) -> (r: Option<RVal>)
    ensures
        x is RSym && !is_special(x->RSym_0@) ==> r is None && *final(env) == *old(env),
        !(x is RSym) && !(x is RLst) ==> r is None && *final(env) == *old(env),
        x is RSym && is_special(x->RSym_0@) ==> r is Some,
        x is RLst ==> r is Some,
        x is RSym && x->RSym_0@ == "quote"@ && xs@.len() == 1 ==> r == Some(xs@[0]) && *final(env)
            == *old(env),
        x is RSym && x->RSym_0@ == "let"@ && xs@.len() == 2 && xs@[0] is RSym ==> r is Some
            && final(env).binds().contains_key(xs@[0]->RSym_0@) && final(env).binds()[xs@[0]->RSym_0@]
            == r->Some_0,
        x is RSym && x->RSym_0@ == "do"@ && (exists|j: int| 0 <= j < xs@.len() && #[trigger] xs@[j] is RErr)
            ==> r is Some && r->Some_0 is RErr,
        x is RSym && x->RSym_0@ == "fn"@ && xs@.len() == 2 && xs@[0] is RLst && all_symbols(
            xs@[0]->RLst_0@,
        ) ==> r is Some && r->Some_0 is RLfn && r->Some_0->RLfn_0.params == xs@[0]
            && r->Some_0->RLfn_0.body == xs@[1] && *final(env) == *old(env),
        depth > 0 && xs@.len() == 1 && is_identity_form(*x) && inert(xs@[0]) ==> r == Some(xs@[0])
            && final(env).binds() == old(env).binds(),
        x is RSym && depth > 0 && all_inert(xs@) && access_val(x->RSym_0@, xs@) is Some ==> r is Some
            && r->Some_0@ == access_val(x->RSym_0@, xs@)->Some_0 && *final(env) == *old(env),
        x is RSym && is_special(x->RSym_0@) ==> r is Some && form_rel(
            depth as int,
            x->RSym_0@,
            xs@,
            *old(env),
            *final(env),
            r->Some_0,
        ),
        x is RLst ==> r is Some && exists|f: RVal, mid: REnv|
            #![trigger trigger_step(*old(env), mid, f)]
            trigger_step(*old(env), mid, f) && ev_sub(depth as int, *x, *old(env), mid, f) && match f {
                RVal::RBfn(b) => bi_rel(depth as int, b, xs@, mid, *final(env), r->Some_0),
                RVal::RLfn(l) => app_rel(depth as int, l.params, l.body, xs@, mid, *final(env), r->Some_0),
                _ => r->Some_0@ == Val::VErr(not_fn_msg(*x)) && *final(env) == mid,
            },
    decreases depth, 5nat,
{
    proof {
        lemma_form_names();
    }
    match x {
        RVal::RSym(s) => {
            if same_str(s, "quote") {
                Some(form_quote(xs))
            } else if same_str(s, "let") {
                Some(form_let(xs, env, depth))
            } else if same_str(s, "do") {
                let r = form_do(xs, env, depth);
                proof {
                    if exists|j: int| 0 <= j < xs@.len() && #[trigger] xs@[j] is RErr {
                        let j = choose|j: int| 0 <= j < xs@.len() && #[trigger] xs@[j] is RErr;
                        assert(r.0 is RErr);
                    }
                }
                Some(r.0)
            } else if same_str(s, "fn") {
                Some(form_fn(xs))
            } else if same_str(s, "at") {
                Some(form_at(xs, env, depth))
            } else if same_str(s, "head") {
                Some(form_head(xs, env, depth))
            } else if same_str(s, "rest") {
                Some(form_rest(xs, env, depth))
            } else if same_str(s, "eval") {
                Some(form_eval(xs, env, depth))
            } else if same_str(s, "get") {
                Some(form_get(xs, env, depth))
            } else if same_str(s, "if") {
                Some(call_builtin(Builtin::If, xs, env, depth))
            } else if same_str(s, "cond") {
                Some(call_builtin(Builtin::Cond, xs, env, depth))
            } else if same_str(s, "for") {
                Some(call_builtin(Builtin::For, xs, env, depth))
            } else if same_str(s, "while") {
                Some(call_builtin(Builtin::While, xs, env, depth))
            } else if same_str(s, "cons") {
                Some(call_builtin(Builtin::Cons, xs, env, depth))
            } else {
                None
            }
        },
        RVal::RLst(fs) => {
            proof {
                if is_identity_form(*x) {
                    reveal_strlit("fn");
                    assert(fs@[1]->RLst_0@ =~= seq![fs@[1]->RLst_0@[0]]);
                    assert(all_symbols(fs@[1]->RLst_0@));
                }
            }
            let f = eval_sub(x, env, depth);
            let ghost mid = *env;
            assert(trigger_step(*old(env), mid, f));
            match f {
                RVal::RBfn(b) => Some(call_builtin(b, xs, env, depth)),
                RVal::RLfn(l) => Some(apply_in(&l, xs, env, depth)),
                _ => Some(not_a_function(x)),
            }
        },
        _ => None,
    }
}

impl REnv {
    /// Runs a special form named by `x`, or applies `x` when it is a list that evaluates
    /// to a function; `nil` for any other head.
    pub fn try_builtin(&mut self, x: &RVal, xs: &Vec<RVal>) -> (r: RVal)
        ensures
            x is RSym && !is_special(x->RSym_0@) ==> r == RVal::RNil && *final(self) == *old(self),
            x is RSym && x->RSym_0@ == "quote"@ && xs@.len() == 1 ==> r == xs@[0] && *final(self)
                == *old(self),
            x is RSym && x->RSym_0@ == "let"@ && xs@.len() == 2 && xs@[0] is RSym
                ==> final(self).binds().contains_key(xs@[0]->RSym_0@)
                && final(self).binds()[xs@[0]->RSym_0@] == r,
            x is RSym && is_special(x->RSym_0@) ==> form_rel(
                MAX_DEPTH as int,
                x->RSym_0@,
                xs@,
                *old(self),
                *final(self),
                r,
            ),
            x is RLst ==> exists|f: RVal, mid: REnv|
                #![trigger trigger_step(*old(self), mid, f)]
                trigger_step(*old(self), mid, f) && ev_sub(MAX_DEPTH as int, *x, *old(self), mid, f)
                    && match f {
                    RVal::RBfn(b) => bi_rel(MAX_DEPTH as int, b, xs@, mid, *final(self), r),
                    RVal::RLfn(l) => app_rel(
                        MAX_DEPTH as int,
                        l.params,
                        l.body,
                        xs@,
                        mid,
                        *final(self),
                        r,
                    ),
                    _ => r@ == Val::VErr(not_fn_msg(*x)) && *final(self) == mid,
                },
            !(x is RSym) && !(x is RLst) ==> r == RVal::RNil && *final(self) == *old(self),
    {
        match special_form(x, xs, self, MAX_DEPTH) {
            Some(r) => r,
            None => RVal::RNil,
        }
    }

    /// `(let <sym> <expr>)` with its arguments: binds the value of the expression and
    /// returns it.
    pub fn builtin_def(&mut self, xs: &Vec<RVal>) -> (r: RVal)
        ensures
            xs@.len() == 2 && xs@[0] is RSym ==> final(self).binds().contains_key(xs@[0]->RSym_0@)
                && final(self).binds()[xs@[0]->RSym_0@] == r,
            !(xs@.len() == 2 && xs@[0] is RSym) ==> *final(self) == *old(self) && r@ == Val::VErr(
                expected_msg("(Sym Any)"@, xs@),
            ),
            form_rel(MAX_DEPTH as int, "let"@, xs@, *old(self), *final(self), r),
            xs@.len() == 2 && xs@[0] is RSym && inert(xs@[1]) ==> r == xs@[1] && final(self).binds()
                == old(self).binds().insert(xs@[0]->RSym_0@, r),
    {
        form_let(xs, self, MAX_DEPTH)
    }
}

fn not_a_function(head: &RVal) -> (r: RVal)
    ensures
        r@ == Val::VErr("expected Fn, received "@ + tag(*head)),
{
    let mut buf: Vec<char> = Vec::new();
    append_str(&mut buf, "expected Fn, received ");
    head.write_tag(&mut buf);
    RVal::RErr(string_of(&buf))
}

// ---------------------------------------------------------------- special forms

/// `(let <sym> <expr>)`: binds the value of the expression and returns it.
fn form_let(args: &Vec<RVal>, env: &mut REnv, depth: u32) -> (r: RVal)
    ensures
        args@.len() == 2 && args@[0] is RSym ==> final(env).binds().contains_key(args@[0]->RSym_0@)
            && final(env).binds()[args@[0]->RSym_0@] == r,
        !(args@.len() == 2 && args@[0] is RSym) ==> *final(env) == *old(env) && r@ == Val::VErr(
            expected_msg("(Sym Any)"@, args@),
        ),
        form_rel(depth as int, "let"@, args@, *old(env), *final(env), r),
        depth > 0 && args@.len() == 2 && args@[0] is RSym && inert(args@[1]) ==> r == args@[1]
            && final(env).binds() == old(env).binds().insert(args@[0]->RSym_0@, r),
    decreases depth, 3nat,
{
    proof {
        lemma_form_names();
    }
    if args.len() == 2 {
        match &args[0] {
            RVal::RSym(s) => {
                let v = eval_sub(&args[1], env, depth);
                let ghost mid = *env;
                let r = env.def(s.as_str(), v);
                assert(ev_sub(depth as int, args@[1], *old(env), mid, r));
                assert(trigger_step(*old(env), mid, r));
                assert(env.binds() == mid.binds().insert(args@[0]->RSym_0@, r));
                assert(env.same_io(&mid));
                assert("let"@ != "quote"@);
                assert(exists|m: REnv| ev_sub(depth as int, args@[1], *old(env), m, r) && env.binds() == m.binds().insert(args@[0]->RSym_0@, r) && env.same_io(&m));
                assert(args@.len() == 2 && args@[0] is RSym);
                assert(form_rel(depth as int, "let"@, args@, *old(env), *env, r)) by {
                    reveal_with_fuel(form_rel, 2);
                }
                return r;
            },
            _ => {},
        }
    }
    expected("(Sym Any)", args)
}

/// `(quote <x>)`: `x` itself.
fn form_quote(args: &Vec<RVal>) -> (r: RVal)
    ensures
        args@.len() == 1 ==> r == args@[0],
        args@.len() != 1 ==> r@ == Val::VErr(
            expected_msg("(Any)"@, args@),
        ),
{
    if args.len() == 1 {
        args[0].dup()
    } else {
        expected("(Any)", args)
    }
}

pub open spec fn all_symbols(ps: Seq<RVal>) -> bool {
    forall|i: int| 0 <= i < ps.len() ==> #[trigger] ps[i] is RSym
}

/// `(fn (<sym> ...) <body>)`: a function value.
fn form_fn(args: &Vec<RVal>) -> (r: RVal)
    ensures
        args@.len() == 2 && args@[0] is RLst && all_symbols(args@[0]->RLst_0@) ==> r is RLfn
            && r->RLfn_0.params == args@[0] && r->RLfn_0.body == args@[1],
        args@.len() == 2 && args@[0] is RLst && !all_symbols(args@[0]->RLst_0@) ==> r@ == Val::VErr(
            "parameters must be symbols"@,
        ),
        args@.len() == 2 && !(args@[0] is RLst) ==> r@ == Val::VErr(
            "parameters must be in list form"@,
        ),
        args@.len() != 2 ==> r@ == Val::VErr("expected (parameters) body"@),
{
    if args.len() != 2 {
        return err("expected (parameters) body");
    }
    match &args[0] {
        RVal::RLst(ps) => {
            let mut i: usize = 0;
            while i < ps.len()
                invariant
                    i <= ps@.len(),
                    args@.len() == 2,
                    args@[0] == RVal::RLst(*ps),
                    forall|j: int| 0 <= j < i ==> #[trigger] ps@[j] is RSym,
                decreases ps@.len() - i,
            {
                match &ps[i] {
                    RVal::RSym(_) => {},
                    _ => {
                        assert(args@[0]->RLst_0@ == ps@);
                        assert(!(ps@[i as int] is RSym));
                        assert(!all_symbols(args@[0]->RLst_0@));
                        return err("parameters must be symbols");
                    },
                }
                i = i + 1;
            }
            RVal::RLfn(Arc::new(RLambda { params: args[0].dup(), body: args[1].dup() }))
        },
        _ => err("parameters must be in list form"),
    }
}

/// `(do <e> ...)`: evaluates in order and returns the last value; stops at the first
/// error. Also gives how many expressions it evaluated.
fn form_do(args: &Vec<RVal>, env: &mut REnv, depth: u32) -> (r: (RVal, usize))
    ensures
        r.1 <= args@.len(),
        args@.len() == 0 ==> r.0 == RVal::RNil && *final(env) == *old(env),
        r.1 < args@.len() ==> r.0 is RErr,
        forall|j: int| 0 <= j < args@.len() && #[trigger] args@[j] is RErr ==> r.1 <= j + 1 && r.0 is RErr,
        do_rel(depth as int, args@, 0, RVal::RNil, *old(env), *final(env), r.0),
    decreases depth, 3nat,
{
    let ghost d = depth as int;
    let mut val = RVal::RNil;
    let mut i: usize = 0;
    while i < args.len()
        invariant
            i <= args@.len(),
            d == depth as int,
            i == 0 ==> val == RVal::RNil && *env == *old(env),
            forall|j: int| 0 <= j < i ==> !(#[trigger] args@[j] is RErr),
            forall|e1: REnv, r1: RVal|
                #[trigger] do_rel(d, args@, i as int, val, *env, e1, r1) ==> do_rel(
                    d,
                    args@,
                    0,
                    RVal::RNil,
                    *old(env),
                    e1,
                    r1,
                ),
        decreases args@.len() - i,
    {
        let ghost ei = *env;
        let ghost vi = val;
        let ghost ii = i as int;
        val = eval_sub(&args[i], env, depth);
        i = i + 1;
        if let RVal::RErr(_) = val {
            assert(trigger_step(ei, *env, val));
            assert(do_rel(d, args@, ii, vi, ei, *env, val));
            return (val, i);
        }
        assert forall|e1: REnv, r1: RVal|
            #[trigger] do_rel(d, args@, i as int, val, *env, e1, r1) implies do_rel(
                d,
                args@,
                0,
                RVal::RNil,
                *old(env),
                e1,
                r1,
            ) by {
            assert(ev_sub(d, args@[ii], ei, *env, val));
            assert(trigger_step(ei, *env, val));
            assert(do_rel(d, args@, ii, vi, ei, e1, r1));
        }
    }
    assert(do_rel(d, args@, i as int, val, *env, *env, val));
    (val, i)
}

/// `(eval <x>)`: a string is read and evaluated; a list is printed, read and evaluated,
/// and its value evaluated again; anything else is evaluated once.
fn form_eval(args: &Vec<RVal>, env: &mut REnv, depth: u32) -> (r: RVal)
    ensures
        args@.len() != 1 ==> r@ == Val::VErr(
            expected_msg("(Any)"@, args@),
        ) && *final(env) == *old(env),
        args@.len() == 1 && args@[0] is RStr ==> (match parse_result(args@[0]->RStr_0@) {
            Err(m) => r@ == Val::VErr(m),
            Ok(_) => true,
        }),
        form_rel(depth as int, "eval"@, args@, *old(env), *final(env), r),
    decreases depth, 3nat,
{
    proof {
        lemma_form_names();
    }
    if args.len() != 1 {
        return expected("(Any)", args);
    }
    match &args[0] {
        RVal::RStr(s) => rep_in(s.as_str(), env, depth),
        RVal::RLst(_) => {
            let printed = args[0].display();
            let v = rep_in(printed.as_str(), env, depth);
            let ghost mid = *env;
            let r = eval_sub(&v, env, depth);
            assert(rep_rel(depth as int, show(args@[0]), *old(env), mid, v));
            assert(trigger_step(*old(env), mid, v));
            assert(ev_sub(depth as int, v, mid, *env, r));
            assert(trigger_step(mid, *env, r));
            r
        },
        _ => eval_sub(&args[0], env, depth),
    }
}

/// What `at` gives when its arguments evaluate to themselves.
pub open spec fn at_val(args: Seq<RVal>) -> Val {
    match (args[0], args[1]) {
        (RVal::RInt(i), RVal::RVec(vs)) => if 0 <= i < vs@.len() {
            model(vs@[i as int])
        } else {
            Val::VErr("index out of bounds"@)
        },
        _ => Val::VErr(expected_msg("Int (Vec)"@, args)),
    }
}

/// What `get` gives when its arguments evaluate to themselves.
pub open spec fn get_val(args: Seq<RVal>) -> Val {
    match args[1] {
        RVal::RMap(kvs) => if find_key(kvs@, args[0]) >= 0 {
            model(kvs@[find_key(kvs@, args[0]) + 1])
        } else {
            Val::VLst(Seq::empty())
        },
        _ => Val::VErr(expected_msg("(Any Map)"@, args)),
    }
}

/// What `head` gives when its argument evaluates to itself.
pub open spec fn head_val(args: Seq<RVal>) -> Val {
    match args[0] {
        RVal::RLst(vs) | RVal::RVec(vs) => if vs@.len() == 0 {
            Val::VLst(Seq::empty())
        } else {
            model(vs@[0])
        },
        _ => Val::VErr(expected_msg("(Lst | Vec)"@, args)),
    }
}

/// What `rest` gives when its argument evaluates to itself.
pub open spec fn rest_val(args: Seq<RVal>) -> Val {
    match args[0] {
        RVal::RLst(vs) => if vs@.len() < 2 {
            Val::VLst(Seq::empty())
        } else {
            Val::VLst(models(vs@.subrange(1, vs@.len() as int)))
        },
        RVal::RVec(vs) => if vs@.len() < 2 {
            Val::VLst(Seq::empty())
        } else {
            Val::VVec(models(vs@.subrange(1, vs@.len() as int)))
        },
        _ => Val::VErr(expected_msg("(Lst | Vec)"@, args)),
    }
}

/// What the access forms `at`, `get`, `head` and `rest` give on arguments that evaluate
/// to themselves; `None` for other names or counts.
pub open spec fn access_val(name: Seq<char>, args: Seq<RVal>) -> Option<Val> {
    if name == "at"@ && args.len() == 2 {
        Some(at_val(args))
    } else if name == "get"@ && args.len() == 2 {
        Some(get_val(args))
    } else if name == "head"@ && args.len() == 1 {
        Some(head_val(args))
    } else if name == "rest"@ && args.len() == 1 {
        Some(rest_val(args))
    } else {
        None
    }
}

/// `(at <int> <vec>)`: the element at a literal index of an evaluated vector.
fn form_at(args: &Vec<RVal>, env: &mut REnv, depth: u32) -> (r: RVal)
    ensures
        args@.len() == 2 && depth > 0 && all_inert(args@) ==> r@ == at_val(args@) && *final(env)
            == *old(env),
        form_rel(depth as int, "at"@, args@, *old(env), *final(env), r),
    decreases depth, 3nat,
{
    proof {
        lemma_form_names();
    }
    if args.len() != 2 {
        return expected("Int (Vec)", args);
    }
    let v = eval_sub(&args[1], env, depth);
    assert(ev_sub(depth as int, args@[1], *old(env), *env, v));
    assert(trigger_step(*old(env), *env, v));
    match (&args[0], &v) {
        (RVal::RInt(i), RVal::RVec(vs)) => at_index(*i, vs),
        _ => expected("Int (Vec)", args),
    }
}

/// The element at index `i`, or the bounds error; a negative index is out of bounds.
pub fn at_index(i: i64, vs: &Vec<RVal>) -> (r: RVal)
    ensures
        0 <= i < vs@.len() ==> r == vs@[i as int],
        !(0 <= i < vs@.len()) ==> r@ == Val::VErr("index out of bounds"@),
{
    if i < 0 || i as u64 >= vs.len() as u64 {
        err("index out of bounds")
    } else {
        vs[i as usize].dup()
    }
}

/// `(head <seq>)`: the first element of an evaluated list or vector.
fn form_head(args: &Vec<RVal>, env: &mut REnv, depth: u32) -> (r: RVal)
    ensures
        args@.len() == 1 && depth > 0 && all_inert(args@) ==> r@ == head_val(args@) && *final(env)
            == *old(env),
        form_rel(depth as int, "head"@, args@, *old(env), *final(env), r),
    decreases depth, 3nat,
{
    proof {
        lemma_form_names();
    }
    if args.len() != 1 {
        return expected("(Lst | Vec)", args);
    }
    let v = eval_sub(&args[0], env, depth);
    assert(ev_sub(depth as int, args@[0], *old(env), *env, v));
    assert(trigger_step(*old(env), *env, v));
    match head_of(&v) {
        Some(h) => h,
        None => expected("(Lst | Vec)", args),
    }
}

/// First element of a list or vector (the empty list when there is none); `None` for
/// other values.
pub fn head_of(v: &RVal) -> (r: Option<RVal>)
    ensures
        match *v {
            RVal::RLst(vs) | RVal::RVec(vs) => r is Some && (if vs@.len() == 0 {
                r->Some_0@ == Val::VLst(Seq::empty())
            } else {
                r->Some_0 == vs@[0]
            }),
            _ => r is None,
        },
{
    match v {
        RVal::RLst(vs) | RVal::RVec(vs) => {
            if vs.len() == 0 {
                Some(empty_list())
            } else {
                Some(vs[0].dup())
            }
        },
        _ => None,
    }
}

/// `(rest <seq>)`: all but the first element of an evaluated list or vector.
fn form_rest(args: &Vec<RVal>, env: &mut REnv, depth: u32) -> (r: RVal)
    ensures
        args@.len() == 1 && depth > 0 && all_inert(args@) ==> r@ == rest_val(args@) && *final(env)
            == *old(env),
        form_rel(depth as int, "rest"@, args@, *old(env), *final(env), r),
    decreases depth, 3nat,
{
    proof {
        lemma_form_names();
    }
    if args.len() != 1 {
        return expected("(Lst | Vec)", args);
    }
    let v = eval_sub(&args[0], env, depth);
    assert(ev_sub(depth as int, args@[0], *old(env), *env, v));
    assert(trigger_step(*old(env), *env, v));
    match rest_of(&v) {
        Some(t) => t,
        None => expected("(Lst | Vec)", args),
    }
}

/// All but the first element, of the same kind (the empty list when fewer than two);
/// `None` for values that are not lists or vectors.
pub fn rest_of(v: &RVal) -> (r: Option<RVal>)
    ensures
        match *v {
            RVal::RLst(vs) => r is Some && (if vs@.len() < 2 {
                r->Some_0@ == Val::VLst(Seq::empty())
            } else {
                r->Some_0 is RLst && r->Some_0->RLst_0@ == vs@.subrange(1, vs@.len() as int)
            }),
            RVal::RVec(vs) => r is Some && (if vs@.len() < 2 {
                r->Some_0@ == Val::VLst(Seq::empty())
            } else {
                r->Some_0 is RVec && r->Some_0->RVec_0@ == vs@.subrange(1, vs@.len() as int)
            }),
            _ => r is None,
        },
{
    match v {
        RVal::RLst(vs) => {
            if vs.len() < 2 {
                Some(empty_list())
            } else {
                Some(RVal::RLst(Arc::new(tail(vs))))
            }
        },
        RVal::RVec(vs) => {
            if vs.len() < 2 {
                Some(empty_list())
            } else {
                Some(RVal::RVec(Arc::new(tail(vs))))
            }
        },
        _ => None,
    }
}

/// `(get <key> <map>)`: the value bound to the evaluated key in the evaluated map.
fn form_get(args: &Vec<RVal>, env: &mut REnv, depth: u32) -> (r: RVal)
    ensures
        args@.len() == 2 && depth > 0 && all_inert(args@) ==> r@ == get_val(args@) && *final(env)
            == *old(env),
        form_rel(depth as int, "get"@, args@, *old(env), *final(env), r),
    decreases depth, 3nat,
{
    proof {
        lemma_form_names();
    }
    if args.len() != 2 {
        return expected("(Any Map)", args);
    }
    let m = eval_sub(&args[1], env, depth);
    let ghost mid = *env;
    assert(ev_sub(depth as int, args@[1], *old(env), mid, m));
    assert(trigger_step(*old(env), mid, m));
    match &m {
        RVal::RMap(kvs) => {
            let k = eval_sub(&args[0], env, depth);
            assert(ev_sub(depth as int, args@[0], mid, *env, k));
            assert(trigger_step(mid, *env, k));
            map_get(kvs, &k)
        },
        _ => expected("(Any Map)", args),
    }
}

/// The value bound to `k` in the flat map `kvs`, or the empty list.
pub fn map_get(kvs: &Vec<RVal>, k: &RVal) -> (r: RVal)
    ensures
        find_key(kvs@, *k) >= 0 ==> r == kvs@[find_key(kvs@, *k) + 1],
        find_key(kvs@, *k) < 0 ==> r@ == Val::VLst(Seq::empty()),
{
    proof {
        lemma_find_key_bounds(kvs@, *k, 0);
    }
    match find_key_index(kvs, k) {
        Some(j) => kvs[j + 1].dup(),
        None => empty_list(),
    }
}

// ---------------------------------------------------------------- application

pub open spec fn arity_msg(n: nat, k: nat) -> Seq<char> {
    "expected "@ + nat_text(n) + " arguments, received "@ + nat_text(k)
}

/// Applies a function value to unevaluated arguments: checks the count, evaluates the
/// arguments in the caller's environment, binds them in a copy of the environment taken
/// before, and evaluates the body there.
fn apply_in(lambda: &RLambda, args: &Vec<RVal>, env: &mut REnv, depth: u32) -> (r: RVal)
    ensures
        app_rel(depth as int, lambda.params, lambda.body, args@, *old(env), *final(env), r),
        lambda.params is RLst && args@.len() != lambda.params->RLst_0@.len() ==> r@ == Val::VErr(
            arity_msg(lambda.params->RLst_0@.len(), args@.len()),
        ) && *final(env) == *old(env),
        depth > 0 && is_identity(*lambda) && args@.len() == 1 && inert(args@[0]) ==> r == args@[0]
            && final(env).binds() == old(env).binds(),
        depth > 0 && all_inert(args@) ==> final(env).binds() == old(env).binds(),
        no_lists(args@) ==> final(env).binds() == old(env).binds(),
    decreases depth, 3nat,
{
    match &lambda.params {
        RVal::RLst(ps) => {
            if args.len() != ps.len() {
                let mut buf: Vec<char> = Vec::new();
                append_str(&mut buf, "expected ");
                crate::value::push_nat(&mut buf, ps.len() as u64);
                append_str(&mut buf, " arguments, received ");
                crate::value::push_nat(&mut buf, args.len() as u64);
                assert(buf@ =~= arity_msg(ps@.len(), args@.len()));
                return RVal::RErr(string_of(&buf));
            }
            let frame = env.call_frame();
            let mut vals: Vec<RVal> = Vec::new();
            let mut i: usize = 0;
            let ghost d = depth as int;
            let ghost pure = depth > 0 && args@.len() == 1 && inert(args@[0]);
            while i < args.len()
                invariant
                    i <= args@.len(),
                    vals@.len() == i,
                    pure == (depth > 0 && args@.len() == 1 && inert(args@[0])),
                    pure ==> *env == *old(env) && (i == 1 ==> vals@[0] == args@[0]),
                    depth > 0 && all_inert(args@) ==> *env == *old(env),
                    no_lists(args@) ==> *env == *old(env),
                    frame.binds() == old(env).binds(),
                    d == depth as int,
                    forall|e1: REnv, rest: Seq<RVal>|
                        #[trigger] args_rel(d, args@, i as int, *env, e1, rest) ==> args_rel(
                            d,
                            args@,
                            0,
                            *old(env),
                            e1,
                            vals@ + rest,
                        ),
                decreases args@.len() - i,
            {
                let ghost ei = *env;
                let ghost v0 = vals@;
                let ghost ii = i as int;
                proof {
                    if depth > 0 && all_inert(args@) {
                        assert(inert(args@[ii]));
                    }
                    if no_lists(args@) {
                        assert(!(args@[ii] is RLst));
                    }
                }
                let v = eval_sub(&args[i], env, depth);
                vals.push(v);
                assert forall|e1: REnv, rest: Seq<RVal>|
                    #[trigger] args_rel(d, args@, ii + 1, *env, e1, rest) implies args_rel(
                        d,
                        args@,
                        0,
                        *old(env),
                        e1,
                        vals@ + rest,
                    ) by {
                    let all = seq![v] + rest;
                    assert(all[0] == v);
                    assert(all.drop_first() =~= rest);
                    assert(trigger_step(ei, *env, all[0]));
                    assert(args_rel(d, args@, ii, ei, e1, all));
                    assert(v0 + all =~= vals@ + rest);
                }
                i = i + 1;
            }
            assert(args_rel(d, args@, i as int, *env, *env, Seq::<RVal>::empty()));
            assert(vals@ + Seq::<RVal>::empty() =~= vals@);
            let ghost mid = *env;
            proof {
                if depth > 0 && is_identity(*lambda) && args@.len() == 1 && inert(args@[0]) {
                    assert(ps@ == lambda.params->RLst_0@);
                    law_identity_lambda(frame.binds(), ps@[0], vals@[0]);
                    assert(ps@ =~= seq![ps@[0]]);
                    assert(vals@ =~= seq![vals@[0]]);
                }
            }
            apply_lambda(ps, &lambda.body, &vals, frame, env, depth)
        },
        _ => err("parameters must be in list form"),
    }
}

/// Applies a function value to unevaluated arguments (see `apply_in`).
pub fn eval_lambda(lambda: &RLambda, args: &Vec<RVal>, env: &mut REnv) -> (r: RVal)
    ensures
        lambda.params is RLst && args@.len() != lambda.params->RLst_0@.len() ==> r@ == Val::VErr(
            arity_msg(lambda.params->RLst_0@.len(), args@.len()),
        ) && *final(env) == *old(env),
        app_rel(MAX_DEPTH as int, lambda.params, lambda.body, args@, *old(env), *final(env), r),
        is_identity(*lambda) && args@.len() == 1 && inert(args@[0]) ==> r == args@[0]
            && final(env).binds() == old(env).binds(),
        all_inert(args@) ==> final(env).binds() == old(env).binds(),
        no_lists(args@) ==> final(env).binds() == old(env).binds(),
{
    apply_in(lambda, args, env, MAX_DEPTH)
}

/// No argument is a list, so evaluating the arguments runs no form.
pub open spec fn no_lists(args: Seq<RVal>) -> bool {
    forall|k: int| 0 <= k < args.len() ==> !(#[trigger] args[k] is RLst)
}

/// The bindings `m` with each parameter name bound to its value, in order.
pub open spec fn bind_all(m: Map<Seq<char>, RVal>, ps: Seq<RVal>, vals: Seq<RVal>) -> Map<
    Seq<char>,
    RVal,
>
    decreases ps.len(),
{
    if ps.len() == 0 || vals.len() == 0 {
        m
    } else {
        let m2 = bind_all(m, ps.drop_last(), vals.drop_last());
        if ps.last() is RSym {
            m2.insert(ps.last()->RSym_0@, vals.last())
        } else {
            m2
        }
    }
}

/// Binding one parameter to a value makes its name evaluate to that value: the body of
/// `(fn (x) x)` gives back the argument it was applied to.
pub proof fn law_identity_lambda(m: Map<Seq<char>, RVal>, x: RVal, v: RVal)
    requires
        x is RSym,
    ensures
        bind_all(m, seq![x], seq![v]).contains_key(x->RSym_0@),
        bind_all(m, seq![x], seq![v])[x->RSym_0@] == v,
{
    let ps = seq![x];
    let vs = seq![v];
    assert(ps.drop_last() =~= Seq::<RVal>::empty());
    assert(vs.drop_last() =~= Seq::<RVal>::empty());
    assert(bind_all(m, ps.drop_last(), vs.drop_last()) == m);
}

/// Evaluates a function body in `frame` with the parameters bound to `vals`; the
/// bindings of `env` are left as they are, and what the body writes or reads goes
/// through `env`.
fn apply_lambda(
    ps: &Vec<RVal>,
    body: &RVal,
    vals: &Vec<RVal>,
    frame: REnv,
    env: &mut REnv,
    depth: u32,
) -> (r: RVal)
    requires
        ps@.len() == vals@.len(),
    ensures
        final(env).binds() == old(env).binds(),
        body is RSym && !is_keyword(body->RSym_0@) && bind_all(frame.binds(), ps@, vals@).contains_key(
            body->RSym_0@,
        ) && depth > 0 ==> r == bind_all(frame.binds(), ps@, vals@)[body->RSym_0@],
        exists|fr: REnv, fe: REnv|
            #![trigger trigger_call(vals@, *old(env), fr, fe)]
            trigger_call(vals@, *old(env), fr, fe) && fr.binds() == bind_all(frame.binds(), ps@, vals@)
                && fr.same_io(&*old(env)) && ev_sub(depth as int, *body, fr, fe, r)
                && final(env).same_io(&fe),
    decreases depth, 1nat,
{
    let mut frame = frame;
    let ghost m0 = frame.binds();
    let mut i: usize = 0;
    while i < ps.len()
        invariant
            i <= ps@.len(),
            ps@.len() == vals@.len(),
            frame.binds() == bind_all(m0, ps@.subrange(0, i as int), vals@.subrange(0, i as int)),
        decreases ps@.len() - i,
    {
        let ghost pre = frame.binds();
        match &ps[i] {
            RVal::RSym(s) => {
                frame.def(s.as_str(), vals[i].dup());
            },
            _ => {},
        }
        proof {
            let a = ps@.subrange(0, i + 1);
            let b = vals@.subrange(0, i + 1);
            assert(a.drop_last() =~= ps@.subrange(0, i as int));
            assert(b.drop_last() =~= vals@.subrange(0, i as int));
        }
        i = i + 1;
    }
    assert(ps@.subrange(0, ps@.len() as int) =~= ps@);
    assert(vals@.subrange(0, vals@.len() as int) =~= vals@);
    frame.swap_io(env);
    let ghost fr = frame;
    let r = eval_sub(body, &mut frame, depth);
    let ghost fe = frame;
    env.swap_io(&mut frame);
    assert(trigger_call(vals@, *old(env), fr, fe));
    r
}

// ---------------------------------------------------------------- builtins

pub open spec fn is_compare(b: Builtin) -> bool {
    b == Builtin::Eq || b == Builtin::Ne || b == Builtin::Lt || b == Builtin::Le || b
        == Builtin::Gt || b == Builtin::Ge
}

/// What an arithmetic, bitwise, comparison or logic builtin gives on arguments that
/// evaluate to themselves; `None` for the other builtins.
pub open spec fn builtin_val(b: Builtin, args: Seq<RVal>) -> Option<Val> {
    if b == Builtin::Add {
        Some(fold_val(Builtin::Add, RVal::RInt(0), args))
    } else if b == Builtin::Mul {
        Some(fold_val(Builtin::Mul, RVal::RInt(1), args))
    } else if is_binop(b) {
        if args.len() < 2 {
            Some(Val::VErr(expected_msg("(Num Num ...)"@, args)))
        } else if args[0] is RErr {
            Some(model(args[0]))
        } else {
            Some(fold_val(b, args[0], args.drop_first()))
        }
    } else if is_compare(b) {
        if args.len() < 2 {
            Some(Val::VErr(expected_msg("(A A ...)"@, args)))
        } else {
            Some(chain_val(b, args))
        }
    } else if b == Builtin::Not {
        if args.len() == 1 && args[0] is RBool {
            Some(Val::VBool(!args[0]->RBool_0))
        } else {
            Some(Val::VErr("expected (Bool)"@))
        }
    } else if b == Builtin::And {
        Some(and_val(args))
    } else if b == Builtin::Or {
        Some(or_val(args))
    } else {
        None
    }
}

fn call_builtin(b: Builtin, args: &Vec<RVal>, env: &mut REnv, depth: u32) -> (r: RVal)
    ensures
        bi_rel(depth as int, b, args@, *old(env), *final(env), r),
        depth > 0 && all_inert(args@) && builtin_val(b, args@) is Some ==> r@ == builtin_val(
            b,
            args@,
        )->Some_0 && *final(env) == *old(env),
    decreases depth, 4nat,
{
    proof {
        assert(args@.subrange(0, args@.len() as int) =~= args@);
        if args@.len() > 0 {
            assert(args@.subrange(1, args@.len() as int) =~= args@.drop_first());
            if all_inert(args@) {
                assert forall|k: int| 0 <= k < args@.len() - 1 implies inert(
                    #[trigger] args@.drop_first()[k],
                ) by {
                    assert(args@.drop_first()[k] == args@[k + 1]);
                }
            }
        }
    }
    match b {
        Builtin::Add => fold_args(Builtin::Add, RVal::RInt(0), args, 0, env, depth),
        Builtin::Mul => fold_args(Builtin::Mul, RVal::RInt(1), args, 0, env, depth),
        Builtin::BitNot => map_ints(false, args, env, depth),
        Builtin::Floor => map_ints(true, args, env, depth),
        Builtin::Not => builtin_not(args, env, depth),
        Builtin::And => builtin_and(args, env, depth),
        Builtin::Or => builtin_or(args, env, depth),
        Builtin::Eq | Builtin::Ne | Builtin::Lt | Builtin::Le | Builtin::Gt | Builtin::Ge => {
            compare_args(b, args, env, depth)
        },
        Builtin::Cons => builtin_cons(args),
        Builtin::Cond => builtin_cond(args, env, depth),
        Builtin::If => builtin_if(args, env, depth),
        Builtin::For => builtin_for(args, env, depth),
        Builtin::While => builtin_while(args, env, depth),
        Builtin::Read => builtin_read(args, env),
        Builtin::Write => builtin_write(args, env, depth),
        Builtin::Load => builtin_load(args, env, depth),
        _ => {
            if args.len() < 2 {
                expected("(Num Num ...)", args)
            } else {
                proof {
                    if all_inert(args@) {
                        assert(inert(args@[0]));
                    }
                }
                let first = eval_sub(&args[0], env, depth);
                assert(trigger_step(*old(env), *env, first));
                if let RVal::RErr(_) = first {
                    first
                } else {
                    fold_args(b, first, args, 1, env, depth)
                }
            }
        },
    }
}

/// Values that evaluate to themselves: anything but lists and symbols other than keywords.
pub open spec fn inert(v: RVal) -> bool {
    !(v is RLst) && !(v is RSym && !is_keyword(v->RSym_0@))
}

pub open spec fn all_inert(vs: Seq<RVal>) -> bool {
    forall|i: int| 0 <= i < vs.len() ==> inert(#[trigger] vs[i])
}

/// A binary operator folded over values from `acc` on, stopping at the first error value
/// or failed step.
pub open spec fn fold_val(op: Builtin, acc: RVal, vs: Seq<RVal>) -> Val
    decreases vs.len(),
{
    if vs.len() == 0 {
        model(acc)
    } else if vs[0] is RErr {
        model(vs[0])
    } else {
        match op_val(op, acc, vs[0]) {
            Val::VInt(n) => fold_val(op, RVal::RInt(n as i64), vs.drop_first()),
            other => other,
        }
    }
}

/// Folds a binary operator over the evaluated arguments from `from` on, starting at
/// `acc`; the first error stops it.
fn fold_args(op: Builtin, seed: RVal, args: &Vec<RVal>, from: usize, env: &mut REnv, depth: u32) -> (r: RVal)
    requires
        is_binop(op),
        from <= args@.len(),
    ensures
        from == args@.len() ==> r == seed && *final(env) == *old(env),
        depth > 0 && all_inert(args@.subrange(from as int, args@.len() as int)) ==> r@ == fold_val(
            op,
            seed,
            args@.subrange(from as int, args@.len() as int),
        ) && *final(env) == *old(env),
        fold_rel(depth as int, op, seed, args@, from as int, *old(env), *final(env), r),
    decreases depth, 2nat,
{
    let ghost d = depth as int;
    let ghost acc0 = seed;
    let ghost n = args@.len() as int;
    let ghost pure = depth > 0 && all_inert(args@.subrange(from as int, n));
    let mut acc = seed;
    let mut i = from;
    while i < args.len()
        invariant
            from <= i <= args@.len(),
            n == args@.len(),
            is_binop(op),
            i == from ==> acc == acc0 && *env == *old(env),
            acc0 == seed,
            pure == (depth > 0 && all_inert(args@.subrange(from as int, n))),
            pure ==> fold_val(op, acc0, args@.subrange(from as int, n)) == fold_val(
                op,
                acc,
                args@.subrange(i as int, n),
            ) && *env == *old(env),
            d == depth as int,
            forall|e1: REnv, r1: RVal|
                #[trigger] fold_rel(d, op, acc, args@, i as int, *env, e1, r1) ==> fold_rel(
                    d,
                    op,
                    acc0,
                    args@,
                    from as int,
                    *old(env),
                    e1,
                    r1,
                ),
        decreases args@.len() - i,
    {
        let ghost sb = args@.subrange(i as int, n);
        let ghost ei = *env;
        let ghost ii = i as int;
        proof {
            if pure {
                assert(args@.subrange(from as int, n)[i - from] == args@[i as int]);
                assert(inert(args@[i as int]));
            }
            assert(sb[0] == args@[i as int]);
            assert(sb.drop_first() =~= args@.subrange(i + 1, n));
        }
        let v = eval_sub(&args[i], env, depth);
        assert(trigger_step(ei, *env, v));
        if let RVal::RErr(_) = v {
            assert(fold_rel(d, op, acc, args@, ii, ei, *env, v));
            assert(pure ==> v@ == fold_val(op, acc0, args@.subrange(from as int, n)) && *env
                == *old(env)) by {
                if pure {
                    assert(v == sb[0]);
                    assert(fold_val(op, acc, sb) == model(sb[0]));
                }
            }
            return v;
        }
        let ghost before = acc;
        acc = binop(op, &acc, &v);
        if let RVal::RErr(_) = acc {
            assert(fold_rel(d, op, before, args@, ii, ei, *env, acc));
            assert(pure ==> acc@ == fold_val(op, acc0, args@.subrange(from as int, n)) && *env
                == *old(env)) by {
                if pure {
                    assert(v == sb[0]);
                    assert(fold_val(op, before, sb) == op_val(op, before, sb[0]));
                }
            }
            return acc;
        }
        proof {
            if pure {
                assert(op_val(op, before, v) == model(acc));
                assert(acc is RInt);
            }
            let n2 = acc->RInt_0 as int;
            assert(op_val(op, before, v) == Val::VInt(n2));
            assert(acc == RVal::RInt(n2 as i64));
            assert forall|e1: REnv, r1: RVal|
                #[trigger] fold_rel(d, op, acc, args@, ii + 1, *env, e1, r1) implies fold_rel(
                    d,
                    op,
                    acc0,
                    args@,
                    from as int,
                    *old(env),
                    e1,
                    r1,
                ) by {
                assert(fold_rel(d, op, before, args@, ii, ei, e1, r1));
            }
        }
        i = i + 1;
    }
    assert(fold_rel(d, op, acc, args@, i as int, *env, *env, acc));
    acc
}

/// `~` (bitwise not of each argument) or `floor` (each integer as it is), as a list.
fn map_ints(keep: bool, args: &Vec<RVal>, env: &mut REnv, depth: u32) -> (r: RVal)
    ensures
        args@.len() == 0 ==> r@ == Val::VErr(
            expected_msg("(Num ...)"@, args@),
        ),
        bi_rel(
            depth as int,
            if keep {
                Builtin::Floor
            } else {
                Builtin::BitNot
            },
            args@,
            *old(env),
            *final(env),
            r,
        ),
    decreases depth, 2nat,
{
    if args.len() == 0 {
        return expected("(Num ...)", args);
    }
    let ghost d = depth as int;
    let mut out: Vec<RVal> = Vec::new();
    let mut i: usize = 0;
    while i < args.len()
        invariant
            i <= args@.len(),
            d == depth as int,
            forall|e1: REnv, r1: RVal|
                #[trigger] map_rel(d, keep, args@, i as int, out@, *env, e1, r1) ==> map_rel(
                    d,
                    keep,
                    args@,
                    0,
                    Seq::empty(),
                    *old(env),
                    e1,
                    r1,
                ),
        decreases args@.len() - i,
    {
        let ghost ei = *env;
        let ghost oi = out@;
        let ghost ii = i as int;
        let v = eval_sub(&args[i], env, depth);
        assert(trigger_step(ei, *env, v));
        match v {
            RVal::RInt(n) => {
                if keep {
                    out.push(RVal::RInt(n));
                } else {
                    out.push(RVal::RInt(!n));
                }
            },
            _ => {
                let r = expected("(Num ...)", args);
                assert(map_rel(d, keep, args@, ii, oi, ei, *env, r));
                return r;
            },
        }
        assert forall|e1: REnv, r1: RVal|
            #[trigger] map_rel(d, keep, args@, ii + 1, out@, *env, e1, r1) implies map_rel(
                d,
                keep,
                args@,
                0,
                Seq::empty(),
                *old(env),
                e1,
                r1,
            ) by {
            assert(map_rel(d, keep, args@, ii, oi, ei, e1, r1));
        }
        i = i + 1;
    }
    let r = RVal::RLst(Arc::new(out));
    assert(map_rel(d, keep, args@, i as int, out@, *env, *env, r));
    r
}

fn builtin_not(args: &Vec<RVal>, env: &mut REnv, depth: u32) -> (r: RVal)
    ensures
        args@.len() != 1 ==> r@ == Val::VErr("expected (Bool)"@) && *final(env) == *old(env),
        args@.len() == 1 && inert(args@[0]) && depth > 0 ==> *final(env) == *old(env) && r@ == (
        if args@[0] is RBool {
            Val::VBool(!args@[0]->RBool_0)
        } else {
            Val::VErr("expected (Bool)"@)
        }),
        bi_rel(depth as int, Builtin::Not, args@, *old(env), *final(env), r),
    decreases depth, 2nat,
{
    if args.len() == 1 {
        let v = eval_sub(&args[0], env, depth);
        assert(trigger_step(*old(env), *env, v));
        match v {
            RVal::RBool(b) => RVal::RBool(!b),
            _ => err("expected (Bool)"),
        }
    } else {
        err("expected (Bool)")
    }
}

fn expected_bool(e: &RVal) -> (r: RVal)
    ensures
        r@ == Val::VErr("expected (Bool), received "@ + tag(*e)),
{
    let mut buf: Vec<char> = Vec::new();
    append_str(&mut buf, "expected (Bool), received ");
    e.write_tag(&mut buf);
    RVal::RErr(string_of(&buf))
}

/// Index of the first value at or after `i` that is not a boolean, or -1.
pub open spec fn first_non_bool(vs: Seq<RVal>, i: int) -> int
    decreases vs.len() - i,
{
    if i < 0 || i >= vs.len() {
        -1
    } else if !(vs[i] is RBool) {
        i
    } else {
        first_non_bool(vs, i + 1)
    }
}

/// `and` over values that evaluate to themselves.
pub open spec fn and_val(vs: Seq<RVal>) -> Val {
    if vs.len() == 0 {
        Val::VErr("expected (Bool ...)"@)
    } else if first_non_bool(vs, 0) >= 0 {
        Val::VErr("expected (Bool), received "@ + tag(vs[first_non_bool(vs, 0)]))
    } else {
        Val::VBool(forall|k: int| 0 <= k < vs.len() ==> #[trigger] vs[k] == RVal::RBool(true))
    }
}

/// Index of the first value at or after `i` that is not `false`, or -1.
pub open spec fn first_not_false(vs: Seq<RVal>, i: int) -> int
    decreases vs.len() - i,
{
    if i < 0 || i >= vs.len() {
        -1
    } else if vs[i] != RVal::RBool(false) {
        i
    } else {
        first_not_false(vs, i + 1)
    }
}

/// `or` over values that evaluate to themselves.
pub open spec fn or_val(vs: Seq<RVal>) -> Val {
    if vs.len() == 0 {
        Val::VErr("expected (Bool ...)"@)
    } else if first_not_false(vs, 0) < 0 {
        Val::VBool(false)
    } else if vs[first_not_false(vs, 0)] == RVal::RBool(true) {
        Val::VBool(true)
    } else {
        Val::VErr("expected (Bool), received "@ + tag(vs[first_not_false(vs, 0)]))
    }
}

fn builtin_and(args: &Vec<RVal>, env: &mut REnv, depth: u32) -> (r: RVal)
    ensures
        args@.len() == 0 ==> r@ == Val::VErr("expected (Bool ...)"@),
        depth > 0 && all_inert(args@) ==> r@ == and_val(args@) && *final(env) == *old(env),
        bi_rel(depth as int, Builtin::And, args@, *old(env), *final(env), r),
    decreases depth, 2nat,
{
    if args.len() == 0 {
        return err("expected (Bool ...)");
    }
    let ghost d = depth as int;
    let ghost pure = depth > 0 && all_inert(args@);
    let mut acc = true;
    let mut i: usize = 0;
    while i < args.len()
        invariant
            i <= args@.len(),
            d == depth as int,
            forall|e1: REnv, r1: RVal|
                #[trigger] and_rel(d, args@, i as int, acc, *env, e1, r1) ==> and_rel(
                    d,
                    args@,
                    0,
                    true,
                    *old(env),
                    e1,
                    r1,
                ),
            pure == (depth > 0 && all_inert(args@)),
            pure ==> *env == *old(env) && first_non_bool(args@, 0) == first_non_bool(args@, i as int)
                && acc == (forall|k: int| 0 <= k < i ==> #[trigger] args@[k] == RVal::RBool(true)),
        decreases args@.len() - i,
    {
        proof {
            if pure {
                assert(inert(args@[i as int]));
            }
        }
        let ghost ei = *env;
        let ghost ai = acc;
        let ghost ii = i as int;
        let v = eval_sub(&args[i], env, depth);
        assert(trigger_step(ei, *env, v));
        match v {
            RVal::RBool(b) => {
                acc = acc && b;
            },
            _ => {
                let r = expected_bool(&args[i]);
                assert(and_rel(d, args@, ii, ai, ei, *env, r));
                return r;
            },
        }
        assert forall|e1: REnv, r1: RVal|
            #[trigger] and_rel(d, args@, ii + 1, acc, *env, e1, r1) implies and_rel(
                d,
                args@,
                0,
                true,
                *old(env),
                e1,
                r1,
            ) by {
            assert(and_rel(d, args@, ii, ai, ei, e1, r1));
        }
        i = i + 1;
    }
    assert(and_rel(d, args@, i as int, acc, *env, *env, RVal::RBool(acc)));
    RVal::RBool(acc)
}

fn builtin_or(args: &Vec<RVal>, env: &mut REnv, depth: u32) -> (r: RVal)
    ensures
        args@.len() == 0 ==> r@ == Val::VErr("expected (Bool ...)"@),
        depth > 0 && all_inert(args@) ==> r@ == or_val(args@) && *final(env) == *old(env),
        bi_rel(depth as int, Builtin::Or, args@, *old(env), *final(env), r),
    decreases depth, 2nat,
{
    if args.len() == 0 {
        return err("expected (Bool ...)");
    }
    let ghost d = depth as int;
    let ghost pure = depth > 0 && all_inert(args@);
    let mut i: usize = 0;
    while i < args.len()
        invariant
            i <= args@.len(),
            d == depth as int,
            forall|e1: REnv, r1: RVal|
                #[trigger] or_rel(d, args@, i as int, *env, e1, r1) ==> or_rel(
                    d,
                    args@,
                    0,
                    *old(env),
                    e1,
                    r1,
                ),
            pure == (depth > 0 && all_inert(args@)),
            pure ==> *env == *old(env) && first_not_false(args@, 0) == first_not_false(
                args@,
                i as int,
            ),
        decreases args@.len() - i,
    {
        proof {
            if pure {
                assert(inert(args@[i as int]));
            }
        }
        let ghost ei = *env;
        let ghost ii = i as int;
        let v = eval_sub(&args[i], env, depth);
        assert(trigger_step(ei, *env, v));
        match v {
            RVal::RBool(b) => {
                if b {
                    assert(or_rel(d, args@, ii, ei, *env, RVal::RBool(true)));
                    return RVal::RBool(true);
                }
            },
            _ => {
                let r = expected_bool(&args[i]);
                assert(or_rel(d, args@, ii, ei, *env, r));
                return r;
            },
        }
        assert forall|e1: REnv, r1: RVal|
            #[trigger] or_rel(d, args@, ii + 1, *env, e1, r1) implies or_rel(
                d,
                args@,
                0,
                *old(env),
                e1,
                r1,
            ) by {
            assert(or_rel(d, args@, ii, ei, e1, r1));
        }
        i = i + 1;
    }
    assert(or_rel(d, args@, i as int, *env, *env, RVal::RBool(false)));
    RVal::RBool(false)
}

/// The result of comparing two values with a comparison builtin.
pub open spec fn pair_val(op: Builtin, a: RVal, b: RVal) -> Val {
    if op == Builtin::Eq {
        Val::VBool(val_eq(a, b))
    } else if op == Builtin::Ne {
        Val::VBool(!val_eq(a, b))
    } else {
        match val_cmp(a, b) {
            Some(o) => Val::VBool(
                if op == Builtin::Lt {
                    o == Ordering::Less
                } else if op == Builtin::Le {
                    o != Ordering::Greater
                } else if op == Builtin::Gt {
                    o == Ordering::Greater
                } else {
                    o != Ordering::Less
                },
            ),
            None => Val::VErr("expected (Ord Ord), received ("@ + tag(a) + seq![' '] + tag(b) + seq![')']),
        }
    }
}

/// Compares two values with a comparison builtin.
pub fn compare_pair(op: Builtin, a: &RVal, b: &RVal) -> (r: RVal)
    requires
        op == Builtin::Eq || op == Builtin::Ne || op == Builtin::Lt || op == Builtin::Le || op
            == Builtin::Gt || op == Builtin::Ge,
    ensures
        r@ == pair_val(op, *a, *b),
{
    match op {
        Builtin::Eq => RVal::RBool(a.equals(b)),
        Builtin::Ne => RVal::RBool(!a.equals(b)),
        _ => match a.compare(b) {
            Some(o) => {
                let less = match o {
                    Ordering::Less => true,
                    _ => false,
                };
                let greater = match o {
                    Ordering::Greater => true,
                    _ => false,
                };
                let res = match op {
                    Builtin::Lt => less,
                    Builtin::Le => !greater,
                    Builtin::Gt => greater,
                    _ => !less,
                };
                RVal::RBool(res)
            },
            None => {
                let mut buf: Vec<char> = Vec::new();
                append_str(&mut buf, "expected (Ord Ord), received (");
                a.write_tag(&mut buf);
                buf.push(' ');
                b.write_tag(&mut buf);
                buf.push(')');
                assert(buf@ =~= "expected (Ord Ord), received ("@ + tag(*a) + seq![' '] + tag(*b) + seq![')']);
                RVal::RErr(string_of(&buf))
            },
        },
    }
}

/// A chain of comparisons over values already evaluated: true when every adjacent pair
/// compares as asked; stops at the first error value, failed pair or undefined ordering.
pub open spec fn chain_val(op: Builtin, vs: Seq<RVal>) -> Val
    decreases vs.len(),
{
    if vs.len() == 0 {
        Val::VBool(true)
    } else if vs[0] is RErr {
        vs[0]@
    } else if vs.len() == 1 {
        Val::VBool(true)
    } else if vs[1] is RErr {
        vs[1]@
    } else {
        match pair_val(op, vs[0], vs[1]) {
            Val::VBool(true) => chain_val(op, vs.subrange(1, vs.len() as int)),
            other => other,
        }
    }
}

/// Whether every value is `true`; `None` when one is not a boolean.
pub open spec fn all_true(vs: Seq<Val>) -> Option<bool> {
    if forall|i: int| 0 <= i < vs.len() ==> #[trigger] vs[i] is VBool {
        Some(forall|i: int| 0 <= i < vs.len() ==> #[trigger] vs[i] == Val::VBool(true))
    } else {
        None
    }
}

/// A comparison chain over three values is the conjunction of its two links,
/// whenever all three are free of errors and both sides are defined.
pub proof fn law_chained_comparison(op: Builtin, a: RVal, b: RVal, c: RVal)
    requires
        op == Builtin::Eq || op == Builtin::Ne || op == Builtin::Lt || op == Builtin::Le || op
            == Builtin::Gt || op == Builtin::Ge,
        !(a is RErr) && !(b is RErr) && !(c is RErr),
        chain_val(op, seq![a, b, c]) is VBool,
        all_true(seq![chain_val(op, seq![a, b]), chain_val(op, seq![b, c])]) is Some,
    ensures
        chain_val(op, seq![a, b, c]) == Val::VBool(
            all_true(seq![chain_val(op, seq![a, b]), chain_val(op, seq![b, c])])->Some_0,
        ),
{
    let s3 = seq![a, b, c];
    let s2a = seq![a, b];
    let s2b = seq![b, c];
    assert(s3.subrange(1, 3) =~= s2b);
    assert(s2a.subrange(1, 2) =~= seq![b]);
    assert(s2b.subrange(1, 2) =~= seq![c]);
    assert(chain_val(op, seq![b]) == Val::VBool(true));
    assert(chain_val(op, seq![c]) == Val::VBool(true));
    let l1 = chain_val(op, s2a);
    let l2 = chain_val(op, s2b);
    let ls = seq![l1, l2];
    assert(ls[0] == l1 && ls[1] == l2);
    if l1 == Val::VBool(true) && l2 == Val::VBool(true) {
        assert(forall|i: int| 0 <= i < ls.len() ==> #[trigger] ls[i] == Val::VBool(true));
    } else {
        assert(!(ls[0] == Val::VBool(true) && ls[1] == Val::VBool(true)));
    }
}

/// `= != < <= > >=` over two or more arguments, evaluated left to right.
fn compare_args(op: Builtin, args: &Vec<RVal>, env: &mut REnv, depth: u32) -> (r: RVal)
    requires
        op == Builtin::Eq || op == Builtin::Ne || op == Builtin::Lt || op == Builtin::Le || op
            == Builtin::Gt || op == Builtin::Ge,
    ensures
        args@.len() < 2 ==> r@ == Val::VErr(expected_msg("(A A ...)"@, args@)) && *final(env)
            == *old(env),
        args@.len() >= 2 && depth > 0 && all_inert(args@) ==> r@ == chain_val(op, args@)
            && *final(env) == *old(env),
        bi_rel(depth as int, op, args@, *old(env), *final(env), r),
    decreases depth, 2nat,
{
    if args.len() < 2 {
        return expected("(A A ...)", args);
    }
    let ghost d = depth as int;
    let ghost n = args@.len() as int;
    let ghost pure = depth > 0 && all_inert(args@);
    proof {
        if pure {
            assert(inert(args@[0]));
        }
    }
    let mut prev = eval_sub(&args[0], env, depth);
    assert(trigger_step(*old(env), *env, prev));
    if let RVal::RErr(_) = prev {
        return prev;
    }
    proof {
        assert(args@.subrange(0, n) =~= args@);
    }
    let ghost e_first = *env;
    assert forall|e1: REnv, r1: RVal|
        #[trigger] chain_rel(d, op, prev, args@, 1, e_first, e1, r1) implies bi_rel(
            d,
            op,
            args@,
            *old(env),
            e1,
            r1,
        ) by {
        assert(trigger_step(*old(env), e_first, prev));
    }
    let mut i: usize = 1;
    while i < args.len()
        invariant
            1 <= i <= args@.len(),
            n == args@.len(),
            op == Builtin::Eq || op == Builtin::Ne || op == Builtin::Lt || op == Builtin::Le
                || op == Builtin::Gt || op == Builtin::Ge,
            pure == (depth > 0 && all_inert(args@)),
            pure ==> prev == args@[i - 1] && !(prev is RErr) && chain_val(op, args@) == chain_val(
                op,
                args@.subrange(i - 1, n),
            ) && *env == *old(env),
            d == depth as int,
            forall|e1: REnv, r1: RVal|
                #[trigger] chain_rel(d, op, prev, args@, i as int, *env, e1, r1) ==> bi_rel(
                    d,
                    op,
                    args@,
                    *old(env),
                    e1,
                    r1,
                ),
        decreases args@.len() - i,
    {
        let ghost ei = *env;
        let ghost pi = prev;
        let ghost ii = i as int;
        let ghost sb = args@.subrange(i - 1, n);
        proof {
            if pure {
                assert(inert(args@[i as int]));
            }
            assert(sb[0] == args@[i - 1]);
            assert(sb[1] == args@[i as int]);
            assert(sb.subrange(1, sb.len() as int) =~= args@.subrange(i as int, n));
        }
        let v = eval_sub(&args[i], env, depth);
        assert(trigger_step(ei, *env, v));
        if let RVal::RErr(_) = v {
            assert(chain_rel(d, op, pi, args@, ii, ei, *env, v));
            return v;
        }
        let c = compare_pair(op, &prev, &v);
        match c {
            RVal::RBool(true) => {},
            _ => {
                assert(chain_rel(d, op, pi, args@, ii, ei, *env, c));
                return c;
            },
        }
        prev = v;
        assert forall|e1: REnv, r1: RVal|
            #[trigger] chain_rel(d, op, prev, args@, ii + 1, *env, e1, r1) implies bi_rel(
                d,
                op,
                args@,
                *old(env),
                e1,
                r1,
            ) by {
            assert(chain_rel(d, op, pi, args@, ii, ei, e1, r1));
        }
        i = i + 1;
    }
    assert(chain_rel(d, op, prev, args@, i as int, *env, *env, RVal::RBool(true)));
    proof {
        if pure {
            let last = args@.subrange(n - 1, n);
            assert(last[0] == args@[n - 1]);
        }
    }
    RVal::RBool(true)
}

/// `(cons <a> <b>)`: the two arguments, unevaluated, as a list.
fn builtin_cons(args: &Vec<RVal>) -> (r: RVal)
    ensures
        forall|e: REnv| bi_rel(0, Builtin::Cons, args@, e, e, r),
        args@.len() == 2 ==> r is RLst && r->RLst_0@ == args@,
        args@.len() != 2 ==> r@ == Val::VErr(
            expected_msg("(Any Any)"@, args@),
        ),
{
    if args.len() == 2 {
        let mut v: Vec<RVal> = Vec::new();
        v.push(args[0].dup());
        v.push(args[1].dup());
        assert(v@ =~= args@);
        RVal::RLst(Arc::new(v))
    } else {
        expected("(Any Any)", args)
    }
}

/// Every clause that is a list holds only values that evaluate to themselves.
pub open spec fn literal_clauses(args: Seq<RVal>) -> bool {
    forall|i: int| 0 <= i < args.len() && #[trigger] args[i] is RLst ==> all_inert(args[i]->RLst_0@)
}

/// What `cond` gives from clause `i` on, when its clauses hold only literal values.
pub open spec fn cond_from(args: Seq<RVal>, i: int) -> Val
    decreases args.len() - i,
{
    if i < 0 || i >= args.len() {
        Val::VLst(Seq::empty())
    } else if !(args[i] is RLst && args[i]->RLst_0@.len() == 2) {
        Val::VErr("expected (Bool Any), received "@ + tag(args[i]))
    } else if args[i]->RLst_0@[0] == RVal::RBool(true) {
        model(args[i]->RLst_0@[1])
    } else if args[i]->RLst_0@[0] == RVal::RBool(false) {
        cond_from(args, i + 1)
    } else {
        Val::VErr("expected (Bool Any), received "@ + tag(args[i]))
    }
}

/// `(cond (<test> <expr>) ...)`: the value of the first expression whose test is true,
/// or the empty list.
fn builtin_cond(args: &Vec<RVal>, env: &mut REnv, depth: u32) -> (r: RVal)
    ensures
        args@.len() == 0 ==> r@ == Val::VErr("expected ((Bool Any) ...), received ()"@),
        args@.len() > 0 && depth > 0 && literal_clauses(args@) ==> r@ == cond_from(args@, 0)
            && *final(env) == *old(env),
        bi_rel(depth as int, Builtin::Cond, args@, *old(env), *final(env), r),
    decreases depth, 2nat,
{
    if args.len() == 0 {
        return err("expected ((Bool Any) ...), received ()");
    }
    let ghost d = depth as int;
    let ghost pure = depth > 0 && literal_clauses(args@);
    let mut i: usize = 0;
    while i < args.len()
        invariant
            i <= args@.len(),
            d == depth as int,
            forall|e1: REnv, r1: RVal|
                #[trigger] cond_rel(d, args@, i as int, *env, e1, r1) ==> cond_rel(
                    d,
                    args@,
                    0,
                    *old(env),
                    e1,
                    r1,
                ),
            pure == (depth > 0 && literal_clauses(args@)),
            pure ==> *env == *old(env) && cond_from(args@, 0) == cond_from(args@, i as int),
        decreases args@.len() - i,
    {
        proof {
            if pure && args@[i as int] is RLst {
                assert(all_inert(args@[i as int]->RLst_0@));
                if args@[i as int]->RLst_0@.len() == 2 {
                    assert(inert(args@[i as int]->RLst_0@[0]));
                    assert(inert(args@[i as int]->RLst_0@[1]));
                }
            }
        }
        let ghost ei = *env;
        let ghost ii = i as int;
        let pair = &args[i];
        match pair {
            RVal::RLst(vs) => {
                if vs.len() != 2 {
                    let r = expected_pair(pair);
                    assert(cond_rel(d, args@, ii, ei, *env, r));
                    return r;
                }
                let c = eval_sub(&vs[0], env, depth);
                let ghost mid = *env;
                assert(trigger_step(ei, mid, c));
                match c {
                    RVal::RBool(true) => {
                        let r = eval_sub(&vs[1], env, depth);
                        assert(cond_rel(d, args@, ii, ei, *env, r));
                        return r;
                    },
                    RVal::RBool(false) => {
                        assert forall|e1: REnv, r1: RVal|
                            #[trigger] cond_rel(d, args@, ii + 1, mid, e1, r1) implies cond_rel(
                                d,
                                args@,
                                0,
                                *old(env),
                                e1,
                                r1,
                            ) by {
                            assert(cond_rel(d, args@, ii, ei, e1, r1));
                        }
                    },
                    _ => {
                        let r = expected_pair(pair);
                        assert(cond_rel(d, args@, ii, ei, *env, r));
                        return r;
                    },
                }
            },
            _ => {
                let r = expected_pair(pair);
                assert(cond_rel(d, args@, ii, ei, *env, r));
                return r;
            },
        }
        i = i + 1;
    }
    let r = empty_list();
    assert(cond_rel(d, args@, i as int, *env, *env, r));
    r
}

fn expected_pair(pair: &RVal) -> (r: RVal)
    ensures
        r@ == Val::VErr("expected (Bool Any), received "@ + tag(*pair)),
{
    let mut buf: Vec<char> = Vec::new();
    append_str(&mut buf, "expected (Bool Any), received ");
    pair.write_tag(&mut buf);
    RVal::RErr(string_of(&buf))
}

/// `(if <cond> <then> [<else>])`.
fn builtin_if(args: &Vec<RVal>, env: &mut REnv, depth: u32) -> (r: RVal)
    ensures
        args@.len() != 2 && args@.len() != 3 ==> r@ == Val::VErr(
            expected_msg("(Bool Any Any) | (Bool Any)"@, args@),
        ) && *final(env) == *old(env),
        (args@.len() == 2 || args@.len() == 3) && depth > 0 && all_inert(args@) ==> *final(env)
            == *old(env) && (match args@[0] {
            RVal::RBool(true) => r == args@[1],
            RVal::RBool(false) => if args@.len() == 3 {
                r == args@[2]
            } else {
                r@ == Val::VLst(Seq::empty())
            },
            _ => r@ == Val::VErr(
                expected_msg(
                    if args@.len() == 2 {
                        "(Bool Any)"@
                    } else {
                        "(Bool Any Any)"@
                    },
                    args@,
                ),
            ),
        }),
        bi_rel(depth as int, Builtin::If, args@, *old(env), *final(env), r),
    decreases depth, 2nat,
{
    proof {
        if all_inert(args@) && args@.len() >= 2 {
            assert(inert(args@[0]) && inert(args@[1]));
            if args@.len() == 3 {
                assert(inert(args@[2]));
            }
        }
    }
    if args.len() != 2 && args.len() != 3 {
        return expected("(Bool Any Any) | (Bool Any)", args);
    }
    let c = eval_sub(&args[0], env, depth);
    assert(trigger_step(*old(env), *env, c));
    match c {
        RVal::RBool(b) => {
            if b {
                eval_sub(&args[1], env, depth)
            } else if args.len() == 3 {
                eval_sub(&args[2], env, depth)
            } else {
                empty_list()
            }
        },
        _ => {
            if args.len() == 2 {
                expected("(Bool Any)", args)
            } else {
                expected("(Bool Any Any)", args)
            }
        },
    }
}

/// `(for <sym> <from> <to> <body>)`: evaluates the body with the symbol bound to each
/// integer of the half-open range between the two bounds; restores the symbol after.
fn builtin_for(args: &Vec<RVal>, env: &mut REnv, depth: u32) -> (r: RVal)
    ensures
        args@.len() != 4 ==> r@ == Val::VErr(
            expected_msg("(Sym Int Int Any)"@, args@),
        ) && *final(env) == *old(env),
        args@.len() == 4 && depth > 0 && args@[0] is RSym && args@[1] is RInt && args@[2] is RInt
            ==> final(env).binds().contains_key(args@[0]->RSym_0@) == old(env).binds().contains_key(
            args@[0]->RSym_0@,
        ) && (old(env).binds().contains_key(args@[0]->RSym_0@) ==> final(env).binds()[args@[0]->RSym_0@]
            == old(env).binds()[args@[0]->RSym_0@]),
        args@.len() == 4 && depth > 0 && args@[0] is RSym && args@[1] is RInt && args@[2] is RInt
            && args@[1] == args@[2] ==> r@ == Val::VLst(Seq::empty()),
        bi_rel(depth as int, Builtin::For, args@, *old(env), *final(env), r),
    decreases depth, 2nat,
{
    if args.len() != 4 {
        return expected("(Sym Int Int Any)", args);
    }
    let ghost d = depth as int;
    let a = eval_sub(&args[1], env, depth);
    let ghost m1 = *env;
    assert(trigger_step(*old(env), m1, a));
    let b = eval_sub(&args[2], env, depth);
    let ghost m2 = *env;
    assert(trigger_step(m1, m2, b));
    match (&args[0], a, b) {
        (RVal::RSym(s), RVal::RInt(x), RVal::RInt(y)) => {
            let from = if x < y { x } else { y };
            let to = if y > x { y } else { x };
            assert(from as int == (if x < y { x as int } else { y as int }));
            assert(to as int == (if x < y { y as int } else { x as int }));
            let past = env.get(s.as_str());
            let mut out = empty_list();
            let ghost mut cur: Option<RVal> = None;
            let mut it = from;
            while it < to
                invariant
                    from <= it <= to,
                    args@.len() == 4,
                    it == from ==> out@ == Val::VLst(Seq::empty()),
                    d == depth as int,
                    cur is None ==> out@ == Val::VLst(Seq::empty()),
                    cur matches Some(c) ==> c == out,
                    forall|e1: REnv, r1: RVal|
                        #[trigger] for_rel(d, s@, args@[3], it as int, to as int, cur, *env, e1, r1)
                            ==> for_rel(d, s@, args@[3], from as int, to as int, None, m2, e1, r1),
                decreases to - it,
            {
                let ghost ei = *env;
                let ghost ci = cur;
                let ghost ii = it as int;
                env.def(s.as_str(), RVal::RInt(it));
                let ghost ed = *env;
                out = eval_sub(&args[3], env, depth);
                proof {
                    cur = Some(out);
                    assert(trigger_step(ed, *env, out));
                    assert forall|e1: REnv, r1: RVal|
                        #[trigger] for_rel(d, s@, args@[3], ii + 1, to as int, cur, *env, e1, r1)
                            implies for_rel(d, s@, args@[3], from as int, to as int, None, m2, e1, r1) by {
                        assert(for_rel(d, s@, args@[3], ii, to as int, ci, ei, e1, r1));
                    }
                }
                it = it + 1;
            }
            let ghost m3 = *env;
            assert(for_rel(d, s@, args@[3], it as int, to as int, cur, m3, m3, out));
            env.restore(s.as_str(), past);
            assert(trigger_step(m2, m3, out));
            out
        },
        _ => expected("(Sym Int Int Any)", args),
    }
}

/// `(while <cond> <body>)`: the last body value, or the empty list.
fn builtin_while(args: &Vec<RVal>, env: &mut REnv, depth: u32) -> (r: RVal)
    ensures
        args@.len() != 2 ==> r@ == Val::VErr(
            expected_msg("(Bool Any)"@, args@),
        ) && *final(env) == *old(env),
        args@.len() == 2 && depth > 0 && inert(args@[0]) && !(args@[0] is RBool) ==> r@ == Val::VErr(
            expected_msg("(Bool Any)"@, args@),
        ) && *final(env) == *old(env),
        args@.len() == 2 && depth > 0 && args@[0] == RVal::RBool(false) ==> r@ == Val::VLst(
            Seq::empty(),
        ) && *final(env) == *old(env),
        bi_rel(depth as int, Builtin::While, args@, *old(env), *final(env), r),
    decreases depth, 2nat,
{
    if args.len() != 2 {
        return expected("(Bool Any)", args);
    }
    let ghost d = depth as int;
    let c0 = eval_sub(&args[0], env, depth);
    let ghost m1 = *env;
    assert(trigger_step(*old(env), m1, c0));
    let mut cond = match c0 {
        RVal::RBool(b) => b,
        _ => {
            return expected("(Bool Any)", args);
        },
    };
    let ghost cond0 = cond;
    let mut out = empty_list();
    let mut left: u64 = MAX_LOOPS;
    let ghost mut cur: Option<RVal> = None;
    while cond
        invariant
            args@.len() == 2,
            d == depth as int,
            cur is None ==> out@ == Val::VLst(Seq::empty()),
            cur matches Some(c) ==> c == out,
            trigger_step(*old(env), m1, c0) && ev_sub(d, args@[0], *old(env), m1, c0) && c0 == RVal::RBool(
                cond0,
            ),
            forall|e1: REnv, r1: RVal|
                #[trigger] while_rel(d, args@, cond, left as int, cur, *env, e1, r1) ==> while_rel(
                    d,
                    args@,
                    cond0,
                    MAX_LOOPS as int,
                    None,
                    m1,
                    e1,
                    r1,
                ),
            depth > 0 && inert(args@[0]) ==> args@[0] is RBool,
            depth > 0 && args@[0] == RVal::RBool(false) ==> !cond && out@ == Val::VLst(Seq::empty())
                && *env == *old(env),
        decreases left,
    {
        let ghost ei = *env;
        let ghost ci = cur;
        let ghost li = left as int;
        if left == 0 {
            let r = err("iteration limit exceeded");
            assert(while_rel(d, args@, cond, li, ci, ei, *env, r));
            return r;
        }
        left = left - 1;
        out = eval_sub(&args[1], env, depth);
        let ghost mb = *env;
        assert(trigger_step(ei, mb, out));
        let c = eval_sub(&args[0], env, depth);
        assert(trigger_step(mb, *env, c));
        match c {
            RVal::RBool(b) => {
                cond = b;
                proof {
                    cur = Some(out);
                    assert forall|e1: REnv, r1: RVal|
                        #[trigger] while_rel(d, args@, cond, left as int, cur, *env, e1, r1)
                            implies while_rel(d, args@, cond0, MAX_LOOPS as int, None, m1, e1, r1) by {
                        assert(while_rel(d, args@, true, li, ci, ei, e1, r1));
                    }
                }
            },
            _ => {
                let r = expected("(Bool Any)", args);
                assert(while_rel(d, args@, true, li, ci, ei, *env, r));
                return r;
            },
        }
    }
    assert(while_rel(d, args@, cond, left as int, cur, *env, *env, out));
    out
}

// ---------------------------------------------------------------- input and output

/// `(read [<prompt>])`: the next queued input line as a string.
fn builtin_read(args: &Vec<RVal>, env: &mut REnv) -> (r: RVal)
    ensures
        args@.len() > 1 ==> r@ == Val::VErr(
            expected_msg("(Str)"@, args@),
        ) && *final(env) == *old(env),
        args@.len() == 1 && !(args@[0] is RStr) ==> r@ == Val::VErr("expected (Str)"@)
            && *final(env) == *old(env),
        args@.len() <= 1 && (args@.len() == 0 || args@[0] is RStr) ==> (if old(env).input@.len()
            == 0 {
            r@ == Val::VErr("could not read line"@) && *final(env) == *old(env)
        } else {
            r is RStr && r->RStr_0 == old(env).input@[0] && final(env).input@ == old(
                env,
            ).input@.drop_first()
        }),
        forall|d: int| bi_rel(d, Builtin::Read, args@, *old(env), *final(env), r),
{
    if args.len() > 1 {
        return expected("(Str)", args);
    }
    if args.len() == 1 {
        match &args[0] {
            RVal::RStr(_) => {},
            _ => {
                return err("expected (Str)");
            },
        }
    }
    if env.input.len() == 0 {
        return err("could not read line");
    }
    let line = env.input.remove(0);
    assert(env.input@ =~= old(env).input@.drop_first());
    RVal::RStr(line)
}

/// How `write` shows a value that it does not evaluate.
pub open spec fn write_piece(v: RVal) -> Seq<char> {
    match v {
        RVal::RStr(s) => s@,
        _ => show(v),
    }
}

/// The line that `write` produces for arguments that hold no symbol.
pub open spec fn write_text(vs: Seq<RVal>) -> Seq<char>
    decreases vs.len(),
{
    if vs.len() == 0 {
        Seq::empty()
    } else {
        write_text(vs.drop_last()) + write_piece(vs.last())
    }
}

/// `(write <x> ...)`: one output line; strings are written as they are, symbols by their
/// value, anything else in printed form.
fn builtin_write(args: &Vec<RVal>, env: &mut REnv, depth: u32) -> (r: RVal)
    ensures
        !(r is RErr) ==> r@ == Val::VLst(Seq::empty()) && final(env).output@.len() > 0,
        (forall|k: int| 0 <= k < args@.len() ==> !(#[trigger] args@[k] is RSym)) ==> {
            &&& r@ == Val::VLst(Seq::empty())
            &&& final(env).output@.len() == old(env).output@.len() + 1
            &&& final(env).output@.drop_last() == old(env).output@
            &&& final(env).output@.last()@ == write_text(args@)
            &&& final(env).symbols == old(env).symbols
            &&& final(env).input == old(env).input
            &&& final(env).files == old(env).files
        },
        bi_rel(depth as int, Builtin::Write, args@, *old(env), *final(env), r),
    decreases depth, 2nat,
{
    let ghost d = depth as int;
    let ghost plain = forall|k: int| 0 <= k < args@.len() ==> !(#[trigger] args@[k] is RSym);
    let mut line: Vec<char> = Vec::new();
    let mut i: usize = 0;
    while i < args.len()
        invariant
            i <= args@.len(),
            d == depth as int,
            forall|e1: REnv, r1: RVal|
                #[trigger] write_rel(d, args@, i as int, line@, *env, e1, r1) ==> write_rel(
                    d,
                    args@,
                    0,
                    Seq::empty(),
                    *old(env),
                    e1,
                    r1,
                ),
            plain == (forall|k: int| 0 <= k < args@.len() ==> !(#[trigger] args@[k] is RSym)),
            plain ==> *env == *old(env) && line@ == write_text(args@.subrange(0, i as int)),
        decreases args@.len() - i,
    {
        proof {
            let a = args@.subrange(0, i + 1);
            assert(a.drop_last() =~= args@.subrange(0, i as int));
            assert(a.last() == args@[i as int]);
        }
        let ghost ei = *env;
        let ghost li = line@;
        let ghost ii = i as int;
        match &args[i] {
            RVal::RStr(s) => append_str(&mut line, s.as_str()),
            RVal::RSym(s) => {
                let cs = chars_of(s.as_str());
                let keyword = cs.len() > 0 && cs[0] == ':';
                if !keyword && env.get(s.as_str()).is_none() {
                    let mut buf: Vec<char> = Vec::new();
                    append_str(&mut buf, "unbound symbol '");
                    append_str(&mut buf, s.as_str());
                    append_str(&mut buf, "'");
                    assert(buf@ =~= unbound_msg(s@));
                    let r = RVal::RErr(string_of(&buf));
                    assert(write_rel(d, args@, ii, li, ei, *env, r));
                    return r;
                }
                let v = eval_sub(&args[i], env, depth);
                assert(trigger_step(ei, *env, v));
                match &v {
                    RVal::RStr(t) => append_str(&mut line, t.as_str()),
                    _ => v.write_to(&mut line),
                }
            },
            _ => args[i].write_to(&mut line),
        }
        assert forall|e1: REnv, r1: RVal|
            #[trigger] write_rel(d, args@, ii + 1, line@, *env, e1, r1) implies write_rel(
                d,
                args@,
                0,
                Seq::empty(),
                *old(env),
                e1,
                r1,
            ) by {
            assert(write_rel(d, args@, ii, li, ei, e1, r1));
        }
        i = i + 1;
    }
    proof {
        assert(args@.subrange(0, args@.len() as int) =~= args@);
    }
    let ghost en = *env;
    env.output.push(string_of(&line));
    assert(plain ==> env.output@.drop_last() =~= old(env).output@);
    assert(env.output@.drop_last() =~= en.output@);
    let r = empty_list();
    assert(write_rel(d, args@, i as int, line@, en, *env, r));
    r
}

/// `(load <path>)`: evaluates the registered source text of `path` as one `do` block.
fn builtin_load(args: &Vec<RVal>, env: &mut REnv, depth: u32) -> (r: RVal)
    ensures
        !(args@.len() == 1 && args@[0] is RStr) ==> r@ == Val::VErr(
            expected_msg("(Str)"@, args@),
        ) && *final(env) == *old(env),
        bi_rel(depth as int, Builtin::Load, args@, *old(env), *final(env), r),
    decreases depth, 3nat,
{
    if args.len() == 1 {
        match &args[0] {
            RVal::RStr(path) => {
                return load_in(path, env, depth);
            },
            _ => {},
        }
    }
    expected("(Str)", args)
}

pub open spec fn load_msg(path: Seq<char>) -> Seq<char> {
    "could not load "@ + path
}

/// The text that `load` evaluates for a source: the source inside one `do` form.
pub open spec fn wrapped_source(src: Seq<char>) -> Seq<char> {
    "(do\n"@ + src + ")"@
}

fn load_in(path: &String, env: &mut REnv, depth: u32) -> (r: RVal)
    ensures
        (forall|i: int| 0 <= i < old(env).files@.len() ==> (#[trigger] old(env).files@[i]).0@ != path@)
            ==> r@ == Val::VErr(load_msg(path@)) && *final(env) == *old(env),
        first_file(old(env).files@, path@) >= 0 ==> rep_rel(
            depth as int,
            wrapped_source(old(env).files@[first_file(old(env).files@, path@)].1@),
            *old(env),
            *final(env),
            r,
        ),
        first_file(old(env).files@, path@) < 0 ==> r@ == Val::VErr(load_msg(path@)) && *final(env)
            == *old(env),
    decreases depth, 2nat,
{
    match env.find_file(path) {
        Some(src) => {
            let mut buf: Vec<char> = Vec::new();
            append_str(&mut buf, "(do\n");
            append_str(&mut buf, src.as_str());
            append_str(&mut buf, ")");
            let wrapped = string_of(&buf);
            assert(wrapped@ =~= wrapped_source(src@));
            rep_in(wrapped.as_str(), env, depth)
        },
        None => {
            let mut buf: Vec<char> = Vec::new();
            append_str(&mut buf, "could not load ");
            append_str(&mut buf, path.as_str());
            assert(buf@ =~= load_msg(path@));
            RVal::RErr(string_of(&buf))
        },
    }
}

impl REnv {
    /// Evaluates the registered source text of `path` as one `do` block; an
    /// unregistered path gives `could not load <path>`.
    pub fn load(&mut self, path: &str) -> (r: RVal)
        ensures
            (forall|i: int| 0 <= i < old(self).files@.len() ==> (#[trigger] old(self).files@[i]).0@ != path@)
                ==> r@ == Val::VErr(load_msg(path@)) && *final(self) == *old(self),
            first_file(old(self).files@, path@) >= 0 ==> rep_rel(
                MAX_DEPTH as int,
                wrapped_source(old(self).files@[first_file(old(self).files@, path@)].1@),
                *old(self),
                *final(self),
                r,
            ),
    {
        let p = text(path);
        load_in(&p, self, MAX_DEPTH)
    }
}

} // verus!
