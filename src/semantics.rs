use vstd::prelude::*;
use crate::value::{RVal, Builtin, show, tag};
use crate::model::Val;
use crate::env::REnv;
use crate::ops::{is_binop, op_val};
use crate::eval::{
    is_keyword, unbound_msg, is_special, expected_msg, parse_result, all_symbols, arity_msg,
    bind_all, pair_val, is_compare, wrapped_source, load_msg, lemma_form_names, is_identity,
    law_identity_lambda, lemma_operators_not_special,
};
use crate::value::RLambda;
use crate::env::{first_file, builtin_bindings, lemma_builtin_bindings};
use crate::value::find_key;
use crate::eval::MAX_LOOPS;

verus! {

/// Trigger term for the quantifiers of the evaluation relation: names a step from one
/// environment to another with a value, and always holds.
pub open spec fn trigger_step(e0: REnv, e1: REnv, v: RVal) -> bool {
    true
}

/// Trigger term for the quantifier in `app_rel`: names the states of a function call,
/// and always holds.
pub open spec fn trigger_call(vals: Seq<RVal>, mid: REnv, fr: REnv, fe: REnv) -> bool {
    true
}

// The evaluation relation: `ev(d, v, e0, e1, r)` holds when evaluating `v` in `e0`
// with `d` levels of nesting left gives `r` and leaves the environment `e1`. Each case
// fixes the result from the results of the evaluations it makes, in the order it makes
// them; every intermediate environment is named by an `exists`.

/// Evaluation of a sub-expression: one level of nesting is used up.
pub open spec fn ev_sub(d: int, v: RVal, e0: REnv, e1: REnv, r: RVal) -> bool
    decreases d, 0int, 0int,
{
    if d <= 0 {
        r@ == Val::VErr("recursion depth exceeded"@) && e1 == e0
    } else {
        ev(d - 1, v, e0, e1, r)
    }
}

/// Evaluation of a value.
pub open spec fn ev(d: int, v: RVal, e0: REnv, e1: REnv, r: RVal) -> bool
    decreases d, 10int, 0int,
{
    match v {
        RVal::RSym(s) => {
            &&& e1 == e0
            &&& is_keyword(s@) ==> r == v
            &&& !is_keyword(s@) && e0.binds().contains_key(s@) ==> r == e0.binds()[s@]
            &&& !is_keyword(s@) && !e0.binds().contains_key(s@) ==> r@ == Val::VErr(
                unbound_msg(s@),
            )
        },
        RVal::RLst(vs) => if vs@.len() == 0 {
            r@ == Val::VLst(Seq::empty()) && e1 == e0
        } else {
            ev_list(d, vs@, e0, e1, r)
        },
        _ => r == v && e1 == e0,
    }
}

pub open spec fn not_fn_msg(h: RVal) -> Seq<char> {
    "expected Fn, received "@ + tag(h)
}

/// Evaluation of a non-empty form.
pub open spec fn ev_list(d: int, vs: Seq<RVal>, e0: REnv, e1: REnv, r: RVal) -> bool
    decreases d, 9int, 0int,
{
    let h = vs[0];
    let args = vs.drop_first();
    if h is RSym && is_special(h->RSym_0@) {
        form_rel(d, h->RSym_0@, args, e0, e1, r)
    } else if h is RSym {
        let m = e0.binds();
        let s = h->RSym_0@;
        if m.contains_key(s) && m[s] is RBfn {
            bi_rel(d, m[s]->RBfn_0, args, e0, e1, r)
        } else if m.contains_key(s) && m[s] is RLfn {
            app_rel(d, m[s]->RLfn_0.params, m[s]->RLfn_0.body, args, e0, e1, r)
        } else {
            r@ == Val::VErr(not_fn_msg(h)) && e1 == e0
        }
    } else if h is RLst {
        exists|f: RVal, mid: REnv|
            #![trigger trigger_step(e0, mid, f)]
            trigger_step(e0, mid, f) && ev_sub(d, h, e0, mid, f) && match f {
                RVal::RBfn(b) => bi_rel(d, b, args, mid, e1, r),
                RVal::RLfn(l) => app_rel(d, l.params, l.body, args, mid, e1, r),
                _ => r@ == Val::VErr(not_fn_msg(h)) && e1 == mid,
            }
    } else {
        r@ == Val::VErr(not_fn_msg(h)) && e1 == e0
    }
}

/// Reading the first expression of a text and evaluating it.
pub open spec fn rep_rel(d: int, text: Seq<char>, e0: REnv, e1: REnv, r: RVal) -> bool
    decreases d, 1int, 0int,
{
    match parse_result(text) {
        Err(m) => r@ == Val::VErr(m) && e1 == e0,
        Ok((v, _)) => exists|x: RVal|
            #![trigger trigger_step(e0, e1, x)]
            trigger_step(e0, e1, x) && x@ == v && ev_sub(d, x, e0, e1, r),
    }
}

/// The special forms.
pub open spec fn form_rel(d: int, name: Seq<char>, args: Seq<RVal>, e0: REnv, e1: REnv, r: RVal) -> bool
    decreases d, 8int, 0int,
{
    if name == "quote"@ {
        e1 == e0 && (if args.len() == 1 {
            r == args[0]
        } else {
            r@ == Val::VErr(expected_msg("(Any)"@, args))
        })
    } else if name == "let"@ {
        if args.len() == 2 && args[0] is RSym {
            exists|mid: REnv|
                #![trigger trigger_step(e0, mid, r)]
                trigger_step(e0, mid, r) && ev_sub(d, args[1], e0, mid, r) && e1.binds() == mid.binds().insert(
                    args[0]->RSym_0@,
                    r,
                ) && e1.same_io(&mid)
        } else {
            e1 == e0 && r@ == Val::VErr(expected_msg("(Sym Any)"@, args))
        }
    } else if name == "do"@ {
        do_rel(d, args, 0, RVal::RNil, e0, e1, r)
    } else if name == "fn"@ {
        &&& e1 == e0
        &&& args.len() == 2 && args[0] is RLst && all_symbols(args[0]->RLst_0@) ==> r is RLfn
            && r->RLfn_0.params == args[0] && r->RLfn_0.body == args[1]
        &&& args.len() == 2 && args[0] is RLst && !all_symbols(args[0]->RLst_0@) ==> r@
            == Val::VErr("parameters must be symbols"@)
        &&& args.len() == 2 && !(args[0] is RLst) ==> r@ == Val::VErr(
            "parameters must be in list form"@,
        )
        &&& args.len() != 2 ==> r@ == Val::VErr("expected (parameters) body"@)
    } else if name == "eval"@ {
        if args.len() != 1 {
            e1 == e0 && r@ == Val::VErr(expected_msg("(Any)"@, args))
        } else {
            match args[0] {
                RVal::RStr(s) => rep_rel(d, s@, e0, e1, r),
                RVal::RLst(_) => exists|x: RVal, mid: REnv|
                    #![trigger trigger_step(e0, mid, x)]
                    trigger_step(e0, mid, x) && rep_rel(d, show(args[0]), e0, mid, x) && ev_sub(d, x, mid, e1, r),
                _ => ev_sub(d, args[0], e0, e1, r),
            }
        }
    } else if name == "at"@ {
        if args.len() != 2 {
            e1 == e0 && r@ == Val::VErr(expected_msg("Int (Vec)"@, args))
        } else {
            exists|v: RVal|
                #![trigger trigger_step(e0, e1, v)]
                trigger_step(e0, e1, v) && ev_sub(d, args[1], e0, e1, v) && match (args[0], v) {
                    (RVal::RInt(i), RVal::RVec(vs)) => if 0 <= i < vs@.len() {
                        r == vs@[i as int]
                    } else {
                        r@ == Val::VErr("index out of bounds"@)
                    },
                    _ => r@ == Val::VErr(expected_msg("Int (Vec)"@, args)),
                }
        }
    } else if name == "head"@ {
        if args.len() != 1 {
            e1 == e0 && r@ == Val::VErr(expected_msg("(Lst | Vec)"@, args))
        } else {
            exists|v: RVal|
                #![trigger trigger_step(e0, e1, v)]
                trigger_step(e0, e1, v) && ev_sub(d, args[0], e0, e1, v) && match v {
                    RVal::RLst(vs) | RVal::RVec(vs) => if vs@.len() == 0 {
                        r@ == Val::VLst(Seq::empty())
                    } else {
                        r == vs@[0]
                    },
                    _ => r@ == Val::VErr(expected_msg("(Lst | Vec)"@, args)),
                }
        }
    } else if name == "if"@ {
        bi_rel(d, Builtin::If, args, e0, e1, r)
    } else if name == "cond"@ {
        bi_rel(d, Builtin::Cond, args, e0, e1, r)
    } else if name == "for"@ {
        bi_rel(d, Builtin::For, args, e0, e1, r)
    } else if name == "while"@ {
        bi_rel(d, Builtin::While, args, e0, e1, r)
    } else if name == "cons"@ {
        bi_rel(d, Builtin::Cons, args, e0, e1, r)
    } else if name == "rest"@ {
        if args.len() != 1 {
            e1 == e0 && r@ == Val::VErr(expected_msg("(Lst | Vec)"@, args))
        } else {
            exists|v: RVal|
                #![trigger trigger_step(e0, e1, v)]
                trigger_step(e0, e1, v) && ev_sub(d, args[0], e0, e1, v) && match v {
                    RVal::RLst(vs) => if vs@.len() < 2 {
                        r@ == Val::VLst(Seq::empty())
                    } else {
                        r is RLst && r->RLst_0@ == vs@.subrange(1, vs@.len() as int)
                    },
                    RVal::RVec(vs) => if vs@.len() < 2 {
                        r@ == Val::VLst(Seq::empty())
                    } else {
                        r is RVec && r->RVec_0@ == vs@.subrange(1, vs@.len() as int)
                    },
                    _ => r@ == Val::VErr(expected_msg("(Lst | Vec)"@, args)),
                }
        }
    } else {
        if args.len() != 2 {
            e1 == e0 && r@ == Val::VErr(expected_msg("(Any Map)"@, args))
        } else {
            exists|m: RVal, mid: REnv|
                #![trigger trigger_step(e0, mid, m)]
                trigger_step(e0, mid, m) && ev_sub(d, args[1], e0, mid, m) && match m {
                    RVal::RMap(kvs) => exists|k: RVal|
                        #![trigger trigger_step(mid, e1, k)]
                        trigger_step(mid, e1, k) && ev_sub(d, args[0], mid, e1, k) && (if find_key(kvs@, k) >= 0 {
                            r == kvs@[find_key(kvs@, k) + 1]
                        } else {
                            r@ == Val::VLst(Seq::empty())
                        }),
                    _ => e1 == mid && r@ == Val::VErr(expected_msg("(Any Map)"@, args)),
                }
        }
    }
}

/// `do` from argument `i` on, with `last` the value so far.
pub open spec fn do_rel(d: int, args: Seq<RVal>, i: int, last: RVal, e0: REnv, e1: REnv, r: RVal) -> bool
    decreases d, 6int, args.len() - i,
{
    if i < 0 || i >= args.len() {
        r == last && e1 == e0
    } else {
        exists|v: RVal, mid: REnv|
            #![trigger trigger_step(e0, mid, v)]
            trigger_step(e0, mid, v) && ev_sub(d, args[i], e0, mid, v) && if v is RErr {
                r == v && e1 == mid
            } else {
                do_rel(d, args, i + 1, v, mid, e1, r)
            }
    }
}

/// A binary operator folded over the values of the arguments from `i` on.
pub open spec fn fold_rel(
    d: int,
    op: Builtin,
    acc: RVal,
    args: Seq<RVal>,
    i: int,
    e0: REnv,
    e1: REnv,
    r: RVal,
) -> bool
    decreases d, 6int, args.len() - i,
{
    if i < 0 || i >= args.len() {
        r == acc && e1 == e0
    } else {
        exists|v: RVal, mid: REnv|
            #![trigger trigger_step(e0, mid, v)]
            trigger_step(e0, mid, v) && ev_sub(d, args[i], e0, mid, v) && if v is RErr {
                r == v && e1 == mid
            } else {
                match op_val(op, acc, v) {
                    Val::VInt(n) => fold_rel(d, op, RVal::RInt(n as i64), args, i + 1, mid, e1, r),
                    other => r@ == other && e1 == mid,
                }
            }
    }
}

/// A chain of comparisons over the values of the arguments from `i` on, after `prev`.
pub open spec fn chain_rel(
    d: int,
    op: Builtin,
    prev: RVal,
    args: Seq<RVal>,
    i: int,
    e0: REnv,
    e1: REnv,
    r: RVal,
) -> bool
    decreases d, 6int, args.len() - i,
{
    if i < 0 || i >= args.len() {
        r == RVal::RBool(true) && e1 == e0
    } else {
        exists|v: RVal, mid: REnv|
            #![trigger trigger_step(e0, mid, v)]
            trigger_step(e0, mid, v) && ev_sub(d, args[i], e0, mid, v) && if v is RErr {
                r == v && e1 == mid
            } else if pair_val(op, prev, v) == Val::VBool(true) {
                chain_rel(d, op, v, args, i + 1, mid, e1, r)
            } else {
                r@ == pair_val(op, prev, v) && e1 == mid
            }
    }
}

/// `and` over the values of the arguments from `i` on.
pub open spec fn and_rel(d: int, args: Seq<RVal>, i: int, acc: bool, e0: REnv, e1: REnv, r: RVal) -> bool
    decreases d, 6int, args.len() - i,
{
    if i < 0 || i >= args.len() {
        r == RVal::RBool(acc) && e1 == e0
    } else {
        exists|v: RVal, mid: REnv|
            #![trigger trigger_step(e0, mid, v)]
            trigger_step(e0, mid, v) && ev_sub(d, args[i], e0, mid, v) && match v {
                RVal::RBool(b) => and_rel(d, args, i + 1, acc && b, mid, e1, r),
                _ => r@ == Val::VErr("expected (Bool), received "@ + tag(args[i])) && e1 == mid,
            }
    }
}

/// `or` over the values of the arguments from `i` on.
pub open spec fn or_rel(d: int, args: Seq<RVal>, i: int, e0: REnv, e1: REnv, r: RVal) -> bool
    decreases d, 6int, args.len() - i,
{
    if i < 0 || i >= args.len() {
        r == RVal::RBool(false) && e1 == e0
    } else {
        exists|v: RVal, mid: REnv|
            #![trigger trigger_step(e0, mid, v)]
            trigger_step(e0, mid, v) && ev_sub(d, args[i], e0, mid, v) && match v {
                RVal::RBool(true) => r == RVal::RBool(true) && e1 == mid,
                RVal::RBool(false) => or_rel(d, args, i + 1, mid, e1, r),
                _ => r@ == Val::VErr("expected (Bool), received "@ + tag(args[i])) && e1 == mid,
            }
    }
}

/// `cond` from clause `i` on.
pub open spec fn cond_rel(d: int, args: Seq<RVal>, i: int, e0: REnv, e1: REnv, r: RVal) -> bool
    decreases d, 6int, args.len() - i,
{
    if i < 0 || i >= args.len() {
        r@ == Val::VLst(Seq::empty()) && e1 == e0
    } else if !(args[i] is RLst && args[i]->RLst_0@.len() == 2) {
        r@ == Val::VErr("expected (Bool Any), received "@ + tag(args[i])) && e1 == e0
    } else {
        exists|c: RVal, mid: REnv|
            #![trigger trigger_step(e0, mid, c)]
            trigger_step(e0, mid, c) && ev_sub(d, args[i]->RLst_0@[0], e0, mid, c) && match c {
                RVal::RBool(true) => ev_sub(d, args[i]->RLst_0@[1], mid, e1, r),
                RVal::RBool(false) => cond_rel(d, args, i + 1, mid, e1, r),
                _ => r@ == Val::VErr("expected (Bool Any), received "@ + tag(args[i])) && e1
                    == mid,
            }
    }
}

/// The bindings `m` with `s` bound as in `past`, or unbound when `past` has no binding.
pub open spec fn restored(m: Map<Seq<char>, RVal>, s: Seq<char>, past: Map<Seq<char>, RVal>) -> Map<
    Seq<char>,
    RVal,
> {
    if past.contains_key(s) {
        m.insert(s, past[s])
    } else {
        m.remove(s)
    }
}

/// The iterations of `for` from `it` up to `to`, with `s` bound to each integer in turn;
/// `out` is the last body value (`None` before the first).
pub open spec fn for_rel(
    d: int,
    s: Seq<char>,
    body: RVal,
    it: int,
    to: int,
    out: Option<RVal>,
    e0: REnv,
    e1: REnv,
    r: RVal,
) -> bool
    decreases d, 6int, to - it,
{
    if it >= to {
        e1 == e0 && match out {
            Some(v) => r == v,
            None => r@ == Val::VLst(Seq::empty()),
        }
    } else {
        exists|ed: REnv, v: RVal, mid: REnv|
            #![trigger trigger_step(ed, mid, v)]
            trigger_step(ed, mid, v) && ed.binds() == e0.binds().insert(s, RVal::RInt(it as i64))
                && ed.same_io(&e0) && ev_sub(d, body, ed, mid, v) && for_rel(
                d,
                s,
                body,
                it + 1,
                to,
                Some(v),
                mid,
                e1,
                r,
            )
    }
}

/// `while` with the condition last evaluated to `cond`, at most `left` more runs of the
/// body, and `out` the last body value (`None` before the first).
pub open spec fn while_rel(
    d: int,
    args: Seq<RVal>,
    cond: bool,
    left: int,
    out: Option<RVal>,
    e0: REnv,
    e1: REnv,
    r: RVal,
) -> bool
    decreases d, 6int, left,
{
    if !cond {
        e1 == e0 && match out {
            Some(v) => r == v,
            None => r@ == Val::VLst(Seq::empty()),
        }
    } else if left <= 0 {
        r@ == Val::VErr("iteration limit exceeded"@) && e1 == e0
    } else {
        exists|v: RVal, m1: REnv|
            #![trigger trigger_step(e0, m1, v)]
            trigger_step(e0, m1, v) && ev_sub(d, args[1], e0, m1, v) && exists|c: RVal, m2: REnv|
                #![trigger trigger_step(m1, m2, c)]
                trigger_step(m1, m2, c) && ev_sub(d, args[0], m1, m2, c) && match c {
                    RVal::RBool(x) => while_rel(d, args, x, left - 1, Some(v), m2, e1, r),
                    _ => r@ == Val::VErr(expected_msg("(Bool Any)"@, args)) && e1 == m2,
                }
    }
}

/// `write` from argument `i` on, with `line` written so far: strings as they are,
/// symbols by their value, anything else in printed form; the line is added to the
/// output at the end.
pub open spec fn write_rel(
    d: int,
    args: Seq<RVal>,
    i: int,
    line: Seq<char>,
    e0: REnv,
    e1: REnv,
    r: RVal,
) -> bool
    decreases d, 6int, args.len() - i,
{
    if i < 0 || i >= args.len() {
        &&& r@ == Val::VLst(Seq::empty())
        &&& e1.output@.len() == e0.output@.len() + 1
        &&& e1.output@.drop_last() == e0.output@
        &&& e1.output@.last()@ == line
        &&& e1.symbols == e0.symbols
        &&& e1.input == e0.input
        &&& e1.files == e0.files
    } else {
        match args[i] {
            RVal::RStr(t) => write_rel(d, args, i + 1, line + t@, e0, e1, r),
            RVal::RSym(t) => if !is_keyword(t@) && !e0.binds().contains_key(t@) {
                r@ == Val::VErr(unbound_msg(t@)) && e1 == e0
            } else {
                exists|v: RVal, mid: REnv|
                    #![trigger trigger_step(e0, mid, v)]
                    trigger_step(e0, mid, v) && ev_sub(d, args[i], e0, mid, v) && match v {
                        RVal::RStr(u) => write_rel(d, args, i + 1, line + u@, mid, e1, r),
                        _ => write_rel(d, args, i + 1, line + show(v), mid, e1, r),
                    }
            },
            _ => write_rel(d, args, i + 1, line + show(args[i]), e0, e1, r),
        }
    }
}

/// `~` (`keep` false: bitwise not) or `floor` (`keep` true: the integer itself) over the
/// values of the arguments from `i` on, after the results `acc`.
pub open spec fn map_rel(
    d: int,
    keep: bool,
    args: Seq<RVal>,
    i: int,
    acc: Seq<RVal>,
    e0: REnv,
    e1: REnv,
    r: RVal,
) -> bool
    decreases d, 6int, args.len() - i,
{
    if i < 0 || i >= args.len() {
        r is RLst && r->RLst_0@ == acc && e1 == e0
    } else {
        exists|v: RVal, mid: REnv|
            #![trigger trigger_step(e0, mid, v)]
            trigger_step(e0, mid, v) && ev_sub(d, args[i], e0, mid, v) && match v {
                RVal::RInt(n) => map_rel(
                    d,
                    keep,
                    args,
                    i + 1,
                    acc.push(RVal::RInt(if keep { n } else { !n })),
                    mid,
                    e1,
                    r,
                ),
                _ => r@ == Val::VErr(expected_msg("(Num ...)"@, args)) && e1 == mid,
            }
    }
}

/// The values of the arguments from `i` on, evaluated in order.
pub open spec fn args_rel(d: int, args: Seq<RVal>, i: int, e0: REnv, e1: REnv, vals: Seq<RVal>) -> bool
    decreases d, 6int, args.len() - i,
{
    if i < 0 || i >= args.len() {
        vals.len() == 0 && e1 == e0
    } else {
        vals.len() > 0 && exists|mid: REnv|
            #![trigger trigger_step(e0, mid, vals[0])]
            trigger_step(e0, mid, vals[0]) && ev_sub(d, args[i], e0, mid, vals[0]) && args_rel(d, args, i + 1, mid, e1, vals.drop_first())
    }
}

/// Applying a function value: the arguments are evaluated in the caller's environment,
/// the body in a copy of the caller's bindings taken before, with each parameter bound
/// to its value; the caller keeps its bindings and takes over what the body wrote and read.
pub open spec fn app_rel(
    d: int,
    params: RVal,
    body: RVal,
    args: Seq<RVal>,
    e0: REnv,
    e1: REnv,
    r: RVal,
) -> bool
    decreases d, 7int, 0int,
{
    match params {
        RVal::RLst(ps) => if args.len() != ps@.len() {
            r@ == Val::VErr(arity_msg(ps@.len(), args.len())) && e1 == e0
        } else {
            exists|vals: Seq<RVal>, mid: REnv, fr: REnv, fe: REnv|
                #![trigger trigger_call(vals, mid, fr, fe)]
                trigger_call(vals, mid, fr, fe) && args_rel(d, args, 0, e0, mid, vals) && fr.binds() == bind_all(e0.binds(), ps@, vals)
                    && fr.same_io(&mid) && ev_sub(d, body, fr, fe, r) && e1.binds() == mid.binds()
                    && e1.same_io(&fe)
        },
        _ => r@ == Val::VErr("parameters must be in list form"@) && e1 == e0,
    }
}

/// Calling a builtin.
pub open spec fn bi_rel(d: int, b: Builtin, args: Seq<RVal>, e0: REnv, e1: REnv, r: RVal) -> bool
    decreases d, 7int, 0int,
{
    if b == Builtin::Add {
        fold_rel(d, b, RVal::RInt(0), args, 0, e0, e1, r)
    } else if b == Builtin::Mul {
        fold_rel(d, b, RVal::RInt(1), args, 0, e0, e1, r)
    } else if is_binop(b) {
        if args.len() < 2 {
            r@ == Val::VErr(expected_msg("(Num Num ...)"@, args)) && e1 == e0
        } else {
            exists|v: RVal, mid: REnv|
                #![trigger trigger_step(e0, mid, v)]
                trigger_step(e0, mid, v) && ev_sub(d, args[0], e0, mid, v) && if v is RErr {
                    r == v && e1 == mid
                } else {
                    fold_rel(d, b, v, args, 1, mid, e1, r)
                }
        }
    } else if is_compare(b) {
        if args.len() < 2 {
            r@ == Val::VErr(expected_msg("(A A ...)"@, args)) && e1 == e0
        } else {
            exists|v: RVal, mid: REnv|
                #![trigger trigger_step(e0, mid, v)]
                trigger_step(e0, mid, v) && ev_sub(d, args[0], e0, mid, v) && if v is RErr {
                    r == v && e1 == mid
                } else {
                    chain_rel(d, b, v, args, 1, mid, e1, r)
                }
        }
    } else if b == Builtin::Not {
        if args.len() != 1 {
            r@ == Val::VErr("expected (Bool)"@) && e1 == e0
        } else {
            exists|v: RVal|
                #![trigger trigger_step(e0, e1, v)]
                trigger_step(e0, e1, v) && ev_sub(d, args[0], e0, e1, v) && r@ == match v {
                    RVal::RBool(x) => Val::VBool(!x),
                    _ => Val::VErr("expected (Bool)"@),
                }
        }
    } else if b == Builtin::And {
        if args.len() == 0 {
            r@ == Val::VErr("expected (Bool ...)"@) && e1 == e0
        } else {
            and_rel(d, args, 0, true, e0, e1, r)
        }
    } else if b == Builtin::Or {
        if args.len() == 0 {
            r@ == Val::VErr("expected (Bool ...)"@) && e1 == e0
        } else {
            or_rel(d, args, 0, e0, e1, r)
        }
    } else if b == Builtin::If {
        if args.len() != 2 && args.len() != 3 {
            r@ == Val::VErr(expected_msg("(Bool Any Any) | (Bool Any)"@, args)) && e1 == e0
        } else {
            exists|c: RVal, mid: REnv|
                #![trigger trigger_step(e0, mid, c)]
                trigger_step(e0, mid, c) && ev_sub(d, args[0], e0, mid, c) && match c {
                    RVal::RBool(true) => ev_sub(d, args[1], mid, e1, r),
                    RVal::RBool(false) => if args.len() == 3 {
                        ev_sub(d, args[2], mid, e1, r)
                    } else {
                        r@ == Val::VLst(Seq::empty()) && e1 == mid
                    },
                    _ => e1 == mid && r@ == Val::VErr(
                        expected_msg(
                            if args.len() == 2 {
                                "(Bool Any)"@
                            } else {
                                "(Bool Any Any)"@
                            },
                            args,
                        ),
                    ),
                }
        }
    } else if b == Builtin::Cond {
        if args.len() == 0 {
            r@ == Val::VErr("expected ((Bool Any) ...), received ()"@) && e1 == e0
        } else {
            cond_rel(d, args, 0, e0, e1, r)
        }
    } else if b == Builtin::For {
        if args.len() != 4 {
            r@ == Val::VErr(expected_msg("(Sym Int Int Any)"@, args)) && e1 == e0
        } else {
            exists|a: RVal, m1: REnv|
                #![trigger trigger_step(e0, m1, a)]
                trigger_step(e0, m1, a) && ev_sub(d, args[1], e0, m1, a) && exists|c: RVal, m2: REnv|
                    #![trigger trigger_step(m1, m2, c)]
                    trigger_step(m1, m2, c) && ev_sub(d, args[2], m1, m2, c) && match (args[0], a, c) {
                        (RVal::RSym(s), RVal::RInt(x), RVal::RInt(y)) => exists|m3: REnv|
                            #![trigger trigger_step(m2, m3, r)]
                            trigger_step(m2, m3, r) && for_rel(
                                d,
                                s@,
                                args[3],
                                if x < y { x as int } else { y as int },
                                if x < y { y as int } else { x as int },
                                None,
                                m2,
                                m3,
                                r,
                            ) && e1.binds() == restored(m3.binds(), s@, m2.binds()) && e1.same_io(
                                &m3,
                            ),
                        _ => r@ == Val::VErr(expected_msg("(Sym Int Int Any)"@, args)) && e1 == m2,
                    }
        }
    } else if b == Builtin::While {
        if args.len() != 2 {
            r@ == Val::VErr(expected_msg("(Bool Any)"@, args)) && e1 == e0
        } else {
            exists|c: RVal, m1: REnv|
                #![trigger trigger_step(e0, m1, c)]
                trigger_step(e0, m1, c) && ev_sub(d, args[0], e0, m1, c) && match c {
                    RVal::RBool(x) => while_rel(d, args, x, MAX_LOOPS as int, None, m1, e1, r),
                    _ => r@ == Val::VErr(expected_msg("(Bool Any)"@, args)) && e1 == m1,
                }
        }
    } else if b == Builtin::Write {
        write_rel(d, args, 0, Seq::empty(), e0, e1, r)
    } else if b == Builtin::BitNot || b == Builtin::Floor {
        if args.len() == 0 {
            r@ == Val::VErr(expected_msg("(Num ...)"@, args)) && e1 == e0
        } else {
            map_rel(d, b == Builtin::Floor, args, 0, Seq::empty(), e0, e1, r)
        }
    } else if b == Builtin::Read {
        if args.len() > 1 {
            r@ == Val::VErr(expected_msg("(Str)"@, args)) && e1 == e0
        } else if args.len() == 1 && !(args[0] is RStr) {
            r@ == Val::VErr("expected (Str)"@) && e1 == e0
        } else if e0.input@.len() == 0 {
            r@ == Val::VErr("could not read line"@) && e1 == e0
        } else {
            &&& r is RStr && r->RStr_0 == e0.input@[0]
            &&& e1.input@ == e0.input@.drop_first()
            &&& e1.symbols == e0.symbols && e1.output == e0.output && e1.files == e0.files
        }
    } else if b == Builtin::Load {
        if args.len() == 1 && args[0] is RStr {
            let p = args[0]->RStr_0@;
            if first_file(e0.files@, p) >= 0 {
                rep_rel(d, wrapped_source(e0.files@[first_file(e0.files@, p)].1@), e0, e1, r)
            } else {
                r@ == Val::VErr(load_msg(p)) && e1 == e0
            }
        } else {
            r@ == Val::VErr(expected_msg("(Str)"@, args)) && e1 == e0
        }
    } else {
        e1 == e0 && if args.len() == 2 {
            r is RLst && r->RLst_0@ == args
        } else {
            r@ == Val::VErr(expected_msg("(Any Any)"@, args))
        }
    }
}

} // verus!


verus! {

// ---------------------------------------------------------------- laws of evaluation

/// One step of a fold over an integer argument, which evaluates to itself.
proof fn lemma_fold_int_step(
    d: int,
    op: Builtin,
    acc: RVal,
    args: Seq<RVal>,
    i: int,
    e0: REnv,
    e1: REnv,
    r: RVal,
    x: i64,
)
    requires
        d >= 1,
        0 <= i < args.len(),
        args[i] == RVal::RInt(x),
        fold_rel(d, op, acc, args, i, e0, e1, r),
    ensures
        match op_val(op, acc, RVal::RInt(x)) {
            Val::VInt(n) => fold_rel(d, op, RVal::RInt(n as i64), args, i + 1, e0, e1, r),
            other => r@ == other && e1 == e0,
        },
{
    let (v, mid) = choose|v: RVal, mid: REnv|
        #![trigger trigger_step(e0, mid, v)]
        trigger_step(e0, mid, v) && ev_sub(d, args[i], e0, mid, v) && if v is RErr {
            r == v && e1 == mid
        } else {
            match op_val(op, acc, v) {
                Val::VInt(n) => fold_rel(d, op, RVal::RInt(n as i64), args, i + 1, mid, e1, r),
                other => r@ == other && e1 == mid,
            }
        };
    assert(ev(d - 1, args[i], e0, mid, v));
    assert(v == RVal::RInt(x) && mid == e0);
}

/// An arithmetic or bitwise call on two integers, by a symbol bound to the operator,
/// gives the checked result of the operator and leaves the environment as it was: an
/// integer when the exact result fits in `i64`, else the overflow or division error.
pub proof fn law_integer_call(d: int, f: RVal, e0: REnv, e1: REnv, r: RVal, op: Builtin, a: i64, b: i64)
    requires
        d >= 1,
        is_binop(op),
        f is RLst,
        f->RLst_0@.len() == 3,
        f->RLst_0@[0] is RSym,
        !is_special(f->RLst_0@[0]->RSym_0@),
        e0.binds().contains_key(f->RLst_0@[0]->RSym_0@),
        e0.binds()[f->RLst_0@[0]->RSym_0@] == RVal::RBfn(op),
        f->RLst_0@[1] == RVal::RInt(a),
        f->RLst_0@[2] == RVal::RInt(b),
        ev(d, f, e0, e1, r),
    ensures
        r@ == op_val(op, RVal::RInt(a), RVal::RInt(b)),
        e1 == e0,
{
    let vs = f->RLst_0@;
    let args = vs.drop_first();
    assert(args[0] == RVal::RInt(a) && args[1] == RVal::RInt(b));
    assert(ev_list(d, vs, e0, e1, r));
    assert(bi_rel(d, op, args, e0, e1, r));
    let acc1 = RVal::RInt(a);
    if op == Builtin::Add || op == Builtin::Mul {
        let seed = if op == Builtin::Add { RVal::RInt(0) } else { RVal::RInt(1) };
        assert(fold_rel(d, op, seed, args, 0, e0, e1, r));
        lemma_fold_int_step(d, op, seed, args, 0, e0, e1, r, a);
        assert(op_val(op, seed, RVal::RInt(a)) == Val::VInt(a as int));
        assert(fold_rel(d, op, acc1, args, 1, e0, e1, r));
    } else {
        let (v, mid) = choose|v: RVal, mid: REnv|
            #![trigger trigger_step(e0, mid, v)]
            trigger_step(e0, mid, v) && ev_sub(d, args[0], e0, mid, v) && if v is RErr {
                r == v && e1 == mid
            } else {
                fold_rel(d, op, v, args, 1, mid, e1, r)
            };
        assert(ev(d - 1, args[0], e0, mid, v));
        assert(v == acc1 && mid == e0);
    }
    lemma_fold_int_step(d, op, acc1, args, 1, e0, e1, r, b);
    match op_val(op, acc1, RVal::RInt(b)) {
        Val::VInt(n) => {
            assert(fold_rel(d, op, RVal::RInt(n as i64), args, 2, e0, e1, r));
            assert(r == RVal::RInt(n as i64) && e1 == e0);
        },
        _ => {},
    }
}

/// `(do e1 e2 e3)` where `e2` is an error value: `e1` is evaluated first; if it gives an
/// error, that error is the result, else the result is `e2`; `e3` is never evaluated,
/// so the environment is the one `e1` left.
pub proof fn law_do_stops_at_error(d: int, f: RVal, e0: REnv, e1: REnv, r: RVal)
    requires
        d >= 1,
        f is RLst,
        f->RLst_0@.len() == 4,
        f->RLst_0@[0] is RSym,
        f->RLst_0@[0]->RSym_0@ == "do"@,
        f->RLst_0@[2] is RErr,
        ev(d, f, e0, e1, r),
    ensures
        exists|v1: RVal, m1: REnv|
            #![trigger trigger_step(e0, m1, v1)]
            trigger_step(e0, m1, v1) && ev_sub(d, f->RLst_0@[1], e0, m1, v1) && e1 == m1 && if v1 is RErr {
                r == v1
            } else {
                r == f->RLst_0@[2]
            },
{
    lemma_form_names();
    let vs = f->RLst_0@;
    let args = vs.drop_first();
    assert(args[0] == vs[1] && args[1] == vs[2]);
    assert(is_special("do"@));
    assert(ev_list(d, vs, e0, e1, r));
    assert(form_rel(d, "do"@, args, e0, e1, r));
    assert(do_rel(d, args, 0, RVal::RNil, e0, e1, r));
    let (v1, m1) = choose|v: RVal, mid: REnv|
        #![trigger trigger_step(e0, mid, v)]
        trigger_step(e0, mid, v) && ev_sub(d, args[0], e0, mid, v) && if v is RErr {
            r == v && e1 == mid
        } else {
            do_rel(d, args, 1, v, mid, e1, r)
        };
    if !(v1 is RErr) {
        let (v2, m2) = choose|v: RVal, mid: REnv|
            #![trigger trigger_step(m1, mid, v)]
            trigger_step(m1, mid, v) && ev_sub(d, args[1], m1, mid, v) && if v is RErr {
                r == v && e1 == mid
            } else {
                do_rel(d, args, 2, v, mid, e1, r)
            };
        assert(ev(d - 1, args[1], m1, m2, v2));
        assert(v2 == vs[2] && m2 == m1);
    }
}

/// Applying `(fn (x) x)` to one argument gives what evaluating that argument in the
/// caller's environment gives, and the caller keeps the bindings that evaluation left.
pub proof fn law_identity_call(
    d: int,
    params: RVal,
    body: RVal,
    args: Seq<RVal>,
    e0: REnv,
    e1: REnv,
    r: RVal,
)
    requires
        d >= 1,
        is_identity(RLambda { params, body }),
        args.len() == 1,
        app_rel(d, params, body, args, e0, e1, r),
    ensures
        exists|mid: REnv|
            #![trigger trigger_step(e0, mid, r)]
            trigger_step(e0, mid, r) && ev_sub(d, args[0], e0, mid, r) && e1.binds() == mid.binds(),
{
    let ps = params->RLst_0@;
    let (vals, mid, fr, fe) = choose|vals: Seq<RVal>, mid: REnv, fr: REnv, fe: REnv|
        #![trigger trigger_call(vals, mid, fr, fe)]
        trigger_call(vals, mid, fr, fe) && args_rel(d, args, 0, e0, mid, vals) && fr.binds()
            == bind_all(e0.binds(), ps, vals) && fr.same_io(&mid) && ev_sub(d, body, fr, fe, r)
            && e1.binds() == mid.binds() && e1.same_io(&fe);
    let m0 = choose|m: REnv|
        #![trigger trigger_step(e0, m, vals[0])]
        trigger_step(e0, m, vals[0]) && ev_sub(d, args[0], e0, m, vals[0]) && args_rel(
            d,
            args,
            1,
            m,
            mid,
            vals.drop_first(),
        );
    assert(m0 == mid);
    assert(ps =~= seq![ps[0]]);
    assert(vals =~= seq![vals[0]]);
    law_identity_lambda(e0.binds(), ps[0], vals[0]);
    assert(ev(d - 1, body, fr, fe, r));
    assert(r == vals[0]);
    assert(trigger_step(e0, mid, r));
}

/// Whether comparing the integers `x` and `y` with `op` holds.
pub open spec fn int_holds(op: Builtin, x: i64, y: i64) -> bool {
    pair_val(op, RVal::RInt(x), RVal::RInt(y)) == Val::VBool(true)
}

/// One link of a comparison chain over an integer argument, which evaluates to itself.
proof fn lemma_chain_int_step(
    d: int,
    op: Builtin,
    prev: i64,
    args: Seq<RVal>,
    i: int,
    e0: REnv,
    e1: REnv,
    r: RVal,
    x: i64,
)
    requires
        d >= 1,
        is_compare(op),
        0 <= i < args.len(),
        args[i] == RVal::RInt(x),
        chain_rel(d, op, RVal::RInt(prev), args, i, e0, e1, r),
    ensures
        int_holds(op, prev, x) ==> chain_rel(d, op, RVal::RInt(x), args, i + 1, e0, e1, r),
        !int_holds(op, prev, x) ==> r == RVal::RBool(false) && e1 == e0,
{
    let (v, mid) = choose|v: RVal, mid: REnv|
        #![trigger trigger_step(e0, mid, v)]
        trigger_step(e0, mid, v) && ev_sub(d, args[i], e0, mid, v) && if v is RErr {
            r == v && e1 == mid
        } else if pair_val(op, RVal::RInt(prev), v) == Val::VBool(true) {
            chain_rel(d, op, v, args, i + 1, mid, e1, r)
        } else {
            r@ == pair_val(op, RVal::RInt(prev), v) && e1 == mid
        };
    assert(ev(d - 1, args[i], e0, mid, v));
    assert(v == RVal::RInt(x) && mid == e0);
    if !int_holds(op, prev, x) {
        assert(pair_val(op, RVal::RInt(prev), v) == Val::VBool(false));
        assert(r@ == Val::VBool(false));
    }
}

/// A comparison call on integers, by a symbol bound to the comparison: true exactly
/// when every adjacent pair compares as asked; the environment is left as it was.
pub proof fn law_integer_comparison(d: int, f: RVal, e0: REnv, e1: REnv, r: RVal, op: Builtin, xs: Seq<i64>)
    requires
        d >= 1,
        is_compare(op),
        xs.len() >= 2,
        f is RLst,
        f->RLst_0@.len() == xs.len() + 1,
        f->RLst_0@[0] is RSym,
        !is_special(f->RLst_0@[0]->RSym_0@),
        e0.binds().contains_key(f->RLst_0@[0]->RSym_0@),
        e0.binds()[f->RLst_0@[0]->RSym_0@] == RVal::RBfn(op),
        forall|k: int| 0 <= k < xs.len() ==> f->RLst_0@[k + 1] == RVal::RInt(#[trigger] xs[k]),
        ev(d, f, e0, e1, r),
    ensures
        r == RVal::RBool(forall|k: int| 0 <= k < xs.len() - 1 ==> int_holds(op, #[trigger] xs[k], xs[k + 1])),
        e1 == e0,
{
    let vs = f->RLst_0@;
    let args = vs.drop_first();
    assert forall|k: int| 0 <= k < xs.len() implies args[k] == RVal::RInt(#[trigger] xs[k]) by {
        assert(args[k] == vs[k + 1]);
    }
    assert(ev_list(d, vs, e0, e1, r));
    assert(bi_rel(d, op, args, e0, e1, r));
    let (v, mid) = choose|v: RVal, mid: REnv|
        #![trigger trigger_step(e0, mid, v)]
        trigger_step(e0, mid, v) && ev_sub(d, args[0], e0, mid, v) && if v is RErr {
            r == v && e1 == mid
        } else {
            chain_rel(d, op, v, args, 1, mid, e1, r)
        };
    assert(ev(d - 1, args[0], e0, mid, v));
    assert(v == RVal::RInt(xs[0]) && mid == e0);
    lemma_chain_ints(d, op, args, xs, 1, e0, e1, r);
}

proof fn lemma_chain_ints(d: int, op: Builtin, args: Seq<RVal>, xs: Seq<i64>, i: int, e0: REnv, e1: REnv, r: RVal)
    requires
        d >= 1,
        is_compare(op),
        1 <= i <= xs.len(),
        args.len() == xs.len(),
        forall|k: int| 0 <= k < xs.len() ==> args[k] == RVal::RInt(#[trigger] xs[k]),
        forall|k: int| 0 <= k < i - 1 ==> int_holds(op, #[trigger] xs[k], xs[k + 1]),
        chain_rel(d, op, RVal::RInt(xs[i - 1]), args, i, e0, e1, r),
    ensures
        r == RVal::RBool(forall|k: int| 0 <= k < xs.len() - 1 ==> int_holds(op, #[trigger] xs[k], xs[k + 1])),
        e1 == e0,
    decreases xs.len() - i,
{
    if i < xs.len() {
        lemma_chain_int_step(d, op, xs[i - 1], args, i, e0, e1, r, xs[i]);
        if int_holds(op, xs[i - 1], xs[i]) {
            lemma_chain_ints(d, op, args, xs, i + 1, e0, e1, r);
        } else {
            assert(!(forall|k: int| 0 <= k < xs.len() - 1 ==> int_holds(op, #[trigger] xs[k], xs[k + 1])));
        }
    }
}

/// `(op a b c)` and `(and (op a b) (op b c))` on integers evaluate to the same boolean,
/// true exactly when both links hold, and leave the environment as it was.
pub proof fn law_chain_is_conjunction(
    d: int,
    f: RVal,
    g: RVal,
    e0: REnv,
    e1: REnv,
    r: RVal,
    e2: REnv,
    q: RVal,
    op: Builtin,
    a: i64,
    b: i64,
    c: i64,
)
    requires
        d >= 2,
        is_compare(op),
        f is RLst,
        f->RLst_0@.len() == 4,
        f->RLst_0@[0] is RSym,
        !is_special(f->RLst_0@[0]->RSym_0@),
        e0.binds().contains_key(f->RLst_0@[0]->RSym_0@),
        e0.binds()[f->RLst_0@[0]->RSym_0@] == RVal::RBfn(op),
        f->RLst_0@[1] == RVal::RInt(a),
        f->RLst_0@[2] == RVal::RInt(b),
        f->RLst_0@[3] == RVal::RInt(c),
        g is RLst,
        g->RLst_0@.len() == 3,
        g->RLst_0@[0] is RSym,
        !is_special(g->RLst_0@[0]->RSym_0@),
        e0.binds().contains_key(g->RLst_0@[0]->RSym_0@),
        e0.binds()[g->RLst_0@[0]->RSym_0@] == RVal::RBfn(Builtin::And),
        g->RLst_0@[1] is RLst,
        g->RLst_0@[1]->RLst_0@ == seq![f->RLst_0@[0], RVal::RInt(a), RVal::RInt(b)],
        g->RLst_0@[2] is RLst,
        g->RLst_0@[2]->RLst_0@ == seq![f->RLst_0@[0], RVal::RInt(b), RVal::RInt(c)],
        ev(d, f, e0, e1, r),
        ev(d, g, e0, e2, q),
    ensures
        r == RVal::RBool(int_holds(op, a, b) && int_holds(op, b, c)),
        q == r,
        e1 == e0,
        e2 == e0,
{
    let xs = seq![a, b, c];
    assert forall|k: int| 0 <= k < xs.len() implies f->RLst_0@[k + 1] == RVal::RInt(
        #[trigger] xs[k],
    ) by {}
    law_integer_comparison(d, f, e0, e1, r, op, xs);
    assert((forall|k: int| 0 <= k < xs.len() - 1 ==> int_holds(op, #[trigger] xs[k], xs[k + 1]))
        == (int_holds(op, a, b) && int_holds(op, b, c))) by {
        if int_holds(op, a, b) && int_holds(op, b, c) {
            assert forall|k: int| 0 <= k < xs.len() - 1 implies int_holds(
                op,
                #[trigger] xs[k],
                xs[k + 1],
            ) by {
                if k == 0 {
                } else {
                    assert(k == 1);
                }
            }
        } else {
            if !int_holds(op, a, b) {
                assert(!int_holds(op, xs[0], xs[1]));
            } else {
                assert(!int_holds(op, xs[1], xs[2]));
            }
        }
    }
    let gs = g->RLst_0@;
    let args = gs.drop_first();
    assert(args[0] == gs[1] && args[1] == gs[2]);
    assert(ev_list(d, gs, e0, e2, q));
    assert(bi_rel(d, Builtin::And, args, e0, e2, q));
    assert(and_rel(d, args, 0, true, e0, e2, q));
    let (v1, m1) = choose|v: RVal, mid: REnv|
        #![trigger trigger_step(e0, mid, v)]
        trigger_step(e0, mid, v) && ev_sub(d, args[0], e0, mid, v) && match v {
            RVal::RBool(x) => and_rel(d, args, 1, true && x, mid, e2, q),
            _ => q@ == Val::VErr("expected (Bool), received "@ + tag(args[0])) && e2 == mid,
        };
    let ab = seq![a, b];
    assert forall|k: int| 0 <= k < ab.len() implies args[0]->RLst_0@[k + 1] == RVal::RInt(
        #[trigger] ab[k],
    ) by {}
    law_integer_comparison(d - 1, args[0], e0, m1, v1, op, ab);
    assert((forall|k: int| 0 <= k < ab.len() - 1 ==> int_holds(op, #[trigger] ab[k], ab[k + 1]))
        == int_holds(op, a, b)) by {
        if !int_holds(op, a, b) {
            assert(!int_holds(op, ab[0], ab[1]));
        }
    }
    let (v2, m2) = choose|v: RVal, mid: REnv|
        #![trigger trigger_step(m1, mid, v)]
        trigger_step(m1, mid, v) && ev_sub(d, args[1], m1, mid, v) && match v {
            RVal::RBool(x) => and_rel(d, args, 2, int_holds(op, a, b) && x, mid, e2, q),
            _ => q@ == Val::VErr("expected (Bool), received "@ + tag(args[1])) && e2 == mid,
        };
    let bc = seq![b, c];
    assert forall|k: int| 0 <= k < bc.len() implies args[1]->RLst_0@[k + 1] == RVal::RInt(
        #[trigger] bc[k],
    ) by {}
    law_integer_comparison(d - 1, args[1], m1, m2, v2, op, bc);
    assert((forall|k: int| 0 <= k < bc.len() - 1 ==> int_holds(op, #[trigger] bc[k], bc[k + 1]))
        == int_holds(op, b, c)) by {
        if !int_holds(op, b, c) {
            assert(!int_holds(op, bc[0], bc[1]));
        }
    }
}

/// In a fresh environment, `(* 9223372036854775807 2)` is the overflow error: integer
/// arithmetic does not wrap around.
pub proof fn law_fresh_overflow(d: int, f: RVal, e0: REnv, e1: REnv, r: RVal)
    requires
        d >= 1,
        e0.binds() == builtin_bindings(),
        f is RLst,
        f->RLst_0@.len() == 3,
        f->RLst_0@[0] is RSym,
        f->RLst_0@[0]->RSym_0@ == "*"@,
        f->RLst_0@[1] == RVal::RInt(i64::MAX),
        f->RLst_0@[2] == RVal::RInt(2),
        ev(d, f, e0, e1, r),
    ensures
        r@ == Val::VErr("arithmetic overflow"@),
        e1 == e0,
{
    lemma_builtin_bindings();
    lemma_operators_not_special();
    law_integer_call(d, f, e0, e1, r, Builtin::Mul, i64::MAX, 2);
}

} // verus!
