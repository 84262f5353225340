use std::sync::Arc;

use risp::env::{load_arithmetic, REnv};
use risp::eval::{at_index, compare_pair, eval, eval_lambda, head_of, map_get, rep, rest_of};
use risp::ops::binop;
use risp::value::{Builtin, RLambda, RVal};

fn sym(s: &str) -> RVal {
    RVal::RSym(s.to_string())
}

fn lst(v: Vec<RVal>) -> RVal {
    RVal::RLst(Arc::new(v))
}

#[test]
fn define_get_and_restore() {
    let mut env = REnv::new();
    assert!(env.get("x").is_none());
    let r = env.def("x", RVal::RInt(7));
    assert!(matches!(r, RVal::RInt(7)));
    assert!(matches!(env.get("x"), Some(RVal::RInt(7))));
    env.restore("x", Some(RVal::RInt(8)));
    assert!(matches!(env.get("x"), Some(RVal::RInt(8))));
    env.restore("x", None);
    assert!(env.get("x").is_none());
}

#[test]
fn builtins_are_bound() {
    let env = REnv::new();
    assert!(matches!(env.is_function(&sym("+")), RVal::RBfn(Builtin::Add)));
    assert!(matches!(env.is_function(&sym("while")), RVal::RBfn(Builtin::While)));
    assert!(matches!(env.is_function(&sym("nothing")), RVal::RNil));
    assert!(matches!(env.is_function(&RVal::RInt(1)), RVal::RNil));
    assert_eq!(env.is_function(&sym("read")).display(), "Builtin-Fn");
}

#[test]
fn arithmetic_table_alone() {
    let mut env = REnv::new();
    env.restore("+", None);
    assert!(env.get("+").is_none());
    load_arithmetic(&mut env);
    assert!(matches!(env.get("+"), Some(RVal::RBfn(Builtin::Add))));
}

#[test]
fn special_forms_directly() {
    let mut env = REnv::new();
    let q = env.try_builtin(&sym("quote"), &vec![sym("zz")]);
    assert_eq!(q.display(), "zz");
    let n = env.try_builtin(&sym("plain"), &vec![]);
    assert!(matches!(n, RVal::RNil));
    let d = env.builtin_def(&vec![sym("y"), lst(vec![sym("+"), RVal::RInt(1), RVal::RInt(2)])]);
    assert_eq!(d.display(), "3");
    assert_eq!(eval(&sym("y"), &mut env).display(), "3");
    let bad = env.builtin_def(&vec![RVal::RInt(1), RVal::RInt(2)]);
    assert_eq!(bad.display(), "(Err: expected (Sym Any), received (Int Int))");
}

#[test]
fn lambda_application() {
    let mut env = REnv::new();
    let l = RLambda {
        params: lst(vec![sym("a"), sym("b")]),
        body: lst(vec![sym("*"), sym("a"), sym("b")]),
    };
    let r = eval_lambda(&l, &vec![RVal::RInt(6), lst(vec![sym("+"), RVal::RInt(3), RVal::RInt(4)])], &mut env);
    assert_eq!(r.display(), "42");
    assert!(env.get("a").is_none());
    let e = eval_lambda(&l, &vec![RVal::RInt(6)], &mut env);
    assert_eq!(e.display(), "(Err: expected 2 arguments, received 1)");
    let f = RVal::RLfn(Arc::new(l));
    assert_eq!(f.display(), "(Fn (a b) (* a b))");
    assert_eq!(f.variant(), "Fn");
}

#[test]
fn value_helpers() {
    let v = RVal::RVec(Arc::new(vec![RVal::RInt(1), RVal::RStr("s".to_string())]));
    assert_eq!(v.len(), 2);
    assert_eq!(RVal::RInt(3).len(), 1);
    assert_eq!(v.variant(), "[Int Str]");
    assert_eq!(RVal::RErr("boom".to_string()).variant(), "(Err: boom)");
    assert_eq!(RVal::RStr("a\"b\\c\nd".to_string()).display(), "\"a\\\"b\\\\c\\nd\"");
    assert!(v.equals(&v.dup()));
    assert!(!v.equals(&RVal::RInt(1)));
}

#[test]
fn sequence_access() {
    let items = vec![RVal::RInt(10), RVal::RInt(20)];
    assert!(matches!(at_index(1, &items), RVal::RInt(20)));
    assert_eq!(at_index(-1, &items).display(), "(Err: index out of bounds)");
    assert_eq!(at_index(2, &items).display(), "(Err: index out of bounds)");
    let l = lst(items.clone());
    assert!(matches!(head_of(&l), Some(RVal::RInt(10))));
    assert_eq!(rest_of(&l).unwrap().display(), "(20)");
    assert!(head_of(&RVal::RInt(1)).is_none());
    let kvs = vec![sym(":a"), RVal::RInt(1), sym(":b"), RVal::RInt(2)];
    assert!(matches!(map_get(&kvs, &sym(":b")), RVal::RInt(2)));
    assert_eq!(map_get(&kvs, &sym(":c")).display(), "()");
}

#[test]
fn operators_on_values() {
    assert!(matches!(binop(Builtin::Sub, &RVal::RInt(5), &RVal::RInt(7)), RVal::RInt(-2)));
    assert_eq!(
        binop(Builtin::Mul, &RVal::RInt(i64::MAX), &RVal::RInt(2)).display(),
        "(Err: arithmetic overflow)"
    );
    assert_eq!(
        binop(Builtin::Div, &RVal::RInt(i64::MIN), &RVal::RInt(-1)).display(),
        "(Err: division by zero or arithmetic overflow)"
    );
    assert!(matches!(binop(Builtin::Shr, &RVal::RInt(-16), &RVal::RInt(2)), RVal::RInt(-4)));
    assert!(matches!(compare_pair(Builtin::Le, &RVal::RInt(2), &RVal::RInt(2)), RVal::RBool(true)));
    assert!(matches!(compare_pair(Builtin::Gt, &RVal::RInt(2), &RVal::RInt(2)), RVal::RBool(false)));
    let a = lst(vec![RVal::RInt(1), RVal::RInt(2)]);
    let b = lst(vec![RVal::RInt(1), RVal::RInt(3)]);
    assert!(matches!(compare_pair(Builtin::Lt, &a, &b), RVal::RBool(true)));
    assert!(matches!(compare_pair(Builtin::Eq, &a, &a.dup()), RVal::RBool(true)));
}

#[test]
fn maps_compare_by_content() {
    let mut env = REnv::new();
    assert_eq!(rep("(= {:a 1 :b 2} {:b 2 :a 1})", &mut env).display(), "true");
    assert_eq!(rep("(= {:a 1} {:a 2})", &mut env).display(), "false");
}

#[test]
fn arguments_are_evaluated_in_the_callers_environment() {
    let mut env = REnv::new();
    env.def("x", RVal::RInt(5));
    let l = RLambda { params: lst(vec![sym("x"), sym("y")]), body: sym("y") };
    let r = eval_lambda(&l, &vec![RVal::RInt(1), sym("x")], &mut env);
    assert!(matches!(r, RVal::RInt(5)));
    assert!(matches!(env.get("x"), Some(RVal::RInt(5))));
    assert!(env.get("y").is_none());
}

#[test]
fn maps_with_repeated_keys_are_never_equal() {
    let a = RVal::RMap(Arc::new(vec![RVal::RInt(1), RVal::RInt(1), RVal::RInt(1), RVal::RInt(1)]));
    let b = RVal::RMap(Arc::new(vec![RVal::RInt(1), RVal::RInt(1), RVal::RInt(2), RVal::RInt(2)]));
    assert!(!a.equals(&b));
    assert!(!b.equals(&a));
    assert!(b.equals(&b.dup()));
}

#[test]
fn let_binds_the_value_of_the_expression() {
    let mut env = REnv::new();
    assert_eq!(rep("(let k (+ 2 3))", &mut env).display(), "5");
    assert!(matches!(env.get("k"), Some(RVal::RInt(5))));
    let d = env.builtin_def(&vec![sym("m"), RVal::RInt(9)]);
    assert!(matches!(d, RVal::RInt(9)));
}

#[test]
fn loaded_source_runs_as_one_do_block() {
    let mut env = REnv::new();
    env.add_file("a", "(let p 1) (at 5 [1]) (let q 2)");
    assert_eq!(env.load("a").display(), "(Err: index out of bounds)");
    assert!(matches!(env.get("p"), Some(RVal::RInt(1))));
    assert!(env.get("q").is_none());
    assert_eq!(env.find_file(&"a".to_string()).unwrap(), "(let p 1) (at 5 [1]) (let q 2)");
    assert!(env.find_file(&"b".to_string()).is_none());
}

#[test]
fn while_counts_down() {
    let mut env = REnv::new();
    rep("(let n 3)", &mut env);
    assert_eq!(rep("(while (> n 0) (do (write n) (let n (- n 1))))", &mut env).display(), "0");
    assert_eq!(env.take_output(), vec!["3".to_string(), "2".to_string(), "1".to_string()]);
    assert_eq!(rep("(while false 1)", &mut env).display(), "()");
    assert_eq!(rep("(while 1 1)", &mut env).display(), "(Err: expected (Bool Any), received (Int Int))");
}

#[test]
fn floor_and_not_over_values() {
    let mut env = REnv::new();
    assert_eq!(rep("(floor 3 (+ 1 1))", &mut env).display(), "(3 2)");
    assert_eq!(rep("(~ 1 \"a\")", &mut env).display(), "(Err: expected (Num ...), received (Int Str))");
}

#[test]
fn special_forms_survive_rebinding() {
    let mut env = REnv::new();
    rep("(let if 1)", &mut env);
    rep("(let while 2)", &mut env);
    assert_eq!(rep("(if (< 1 2) \"y\" \"n\")", &mut env).display(), "\"y\"");
    assert_eq!(rep("(cons 1 2)", &mut env).display(), "(1 2)");
    assert_eq!(rep("(for i 0 2 i)", &mut env).display(), "1");
}

#[test]
fn write_prints_an_error_bound_to_a_symbol() {
    let mut env = REnv::new();
    rep("(let e (at 3 [1]))", &mut env);
    assert_eq!(rep("(write e)", &mut env).display(), "()");
    assert_eq!(env.take_output(), vec!["(Err: index out of bounds)".to_string()]);
    assert_eq!(rep("(write nowhere)", &mut env).display(), "(Err: unbound symbol 'nowhere')");
}

#[test]
fn list_heads_are_applied() {
    let mut env = REnv::new();
    let head = lst(vec![sym("fn"), lst(vec![sym("x")]), sym("x")]);
    let r = env.try_builtin(&head, &vec![RVal::RInt(4)]);
    assert!(matches!(r, RVal::RInt(4)));
    let n = env.try_builtin(&RVal::RInt(1), &vec![]);
    assert!(matches!(n, RVal::RNil));
}
