use risp::env::REnv;
use risp::eval::rep;

fn run(env: &mut REnv, src: &str) -> String {
    rep(src, env).display()
}

#[test]
fn sum_of_three() {
    let mut env = REnv::new();
    assert_eq!(run(&mut env, "(+ 1 2 3)"), "6");
}

#[test]
fn define_and_call_lambda() {
    let mut env = REnv::new();
    run(&mut env, "(let f (fn (x y) (+ x y)))");
    assert_eq!(run(&mut env, "(f 40 2)"), "42");
}

#[test]
fn if_picks_else_branch() {
    let mut env = REnv::new();
    assert_eq!(run(&mut env, "(if (< 3 2) \"a\" \"b\")"), "\"b\"");
}

#[test]
fn for_writes_each_index() {
    let mut env = REnv::new();
    assert_eq!(run(&mut env, "(for i 0 3 (write i))"), "()");
    let lines = env.take_output();
    assert_eq!(lines, vec!["0".to_string(), "1".to_string(), "2".to_string()]);
    assert_eq!(run(&mut env, "i"), "(Err: unbound symbol 'i')");
}

#[test]
fn get_from_map() {
    let mut env = REnv::new();
    assert_eq!(run(&mut env, "(get :one {:one 1 :two 2})"), "1");
    assert_eq!(run(&mut env, "(get :three {:one 1 :two 2})"), "()");
}

#[test]
fn at_index_and_bounds() {
    let mut env = REnv::new();
    assert_eq!(run(&mut env, "(at 2 [10 20 30 40])"), "30");
    assert_eq!(run(&mut env, "(at 9 [10 20])"), "(Err: index out of bounds)");
}

#[test]
fn eval_of_string() {
    let mut env = REnv::new();
    assert_eq!(run(&mut env, "(eval \"(+ 1 2)\")"), "3");
}

#[test]
fn recursive_factorial() {
    let mut env = REnv::new();
    run(&mut env, "(let fact (fn (n) (if (<= n 1) n (* n (fact (- n 1))))))");
    assert_eq!(run(&mut env, "(fact 5)"), "120");
}

#[test]
fn recursive_fibonacci() {
    let mut env = REnv::new();
    run(
        &mut env,
        "(let fibonacci (fn (n) (if (<= n 2) (- n 1) (+ (fibonacci (- n 1)) (fibonacci (- n 2))))))",
    );
    assert_eq!(run(&mut env, "(fibonacci 10)"), "34");
}

#[test]
fn atoms_evaluate_to_themselves() {
    let mut env = REnv::new();
    assert_eq!(run(&mut env, "42"), "42");
    assert_eq!(run(&mut env, "-7"), "-7");
    assert_eq!(run(&mut env, "\"hi\""), "\"hi\"");
    assert_eq!(run(&mut env, "true"), "true");
    assert_eq!(run(&mut env, "nil"), "nil");
    assert_eq!(run(&mut env, "[1 x]"), "[1 x]");
}

#[test]
fn keywords_evaluate_to_themselves() {
    let mut env = REnv::new();
    run(&mut env, "(let :foo 3)");
    assert_eq!(run(&mut env, ":foo"), ":foo");
}

#[test]
fn quote_returns_argument() {
    let mut env = REnv::new();
    assert_eq!(run(&mut env, "(quote (+ 1 2))"), "(+ 1 2)");
    assert_eq!(run(&mut env, "(quote undefined)"), "undefined");
}

#[test]
fn let_then_lookup() {
    let mut env = REnv::new();
    assert_eq!(run(&mut env, "(let k (* 6 7))"), "42");
    assert_eq!(run(&mut env, "k"), "42");
}

#[test]
fn lambda_scoping() {
    let mut env = REnv::new();
    assert_eq!(run(&mut env, "((fn (x) x) (+ 2 3))"), "5");
    run(&mut env, "(let g (fn (y) (let inner y)))");
    assert_eq!(run(&mut env, "(g 1)"), "1");
    assert_eq!(run(&mut env, "inner"), "(Err: unbound symbol 'inner')");
}

#[test]
fn arity_is_enforced() {
    let mut env = REnv::new();
    run(&mut env, "(let f (fn (x y) x))");
    assert_eq!(run(&mut env, "(f 1)"), "(Err: expected 2 arguments, received 1)");
    assert_eq!(run(&mut env, "(f 1 2 3)"), "(Err: expected 2 arguments, received 3)");
}

#[test]
fn chained_comparison() {
    let mut env = REnv::new();
    assert_eq!(run(&mut env, "(< 1 2 3)"), "true");
    assert_eq!(run(&mut env, "(< 1 3 2)"), "false");
    assert_eq!(run(&mut env, "(and (< 1 3) (< 3 2))"), "false");
    assert_eq!(run(&mut env, "(= 1 1 1)"), "true");
    assert_eq!(run(&mut env, "(!= 1 2)"), "true");
    assert_eq!(run(&mut env, "(>= 3 3 1)"), "true");
    assert_eq!(run(&mut env, "(< \"a\" \"b\")"), "true");
    assert_eq!(run(&mut env, "(< true false)"), "(Err: expected (Ord Ord), received (Bool Bool))");
}

#[test]
fn overflow_is_an_error() {
    let mut env = REnv::new();
    assert_eq!(run(&mut env, "(* 9223372036854775807 2)"), "(Err: arithmetic overflow)");
    assert_eq!(run(&mut env, "(+ 9223372036854775807 1)"), "(Err: arithmetic overflow)");
    assert_eq!(run(&mut env, "(/ 1 0)"), "(Err: division by zero or arithmetic overflow)");
    assert_eq!(run(&mut env, "(% 7 0)"), "(Err: division by zero or arithmetic overflow)");
    assert_eq!(run(&mut env, "(- -9223372036854775808 1)"), "(Err: arithmetic overflow)");
}

#[test]
fn do_stops_at_first_error() {
    let mut env = REnv::new();
    assert_eq!(
        run(&mut env, "(do (write 1) (at 5 [1]) (write 3))"),
        "(Err: index out of bounds)"
    );
    assert_eq!(env.take_output(), vec!["1".to_string()]);
    assert_eq!(run(&mut env, "(do 1 2 3)"), "3");
    assert_eq!(run(&mut env, "(do)"), "nil");
}

#[test]
fn arithmetic_folds() {
    let mut env = REnv::new();
    assert_eq!(run(&mut env, "(- 10 3 2)"), "5");
    assert_eq!(run(&mut env, "(/ 100 5 2)"), "10");
    assert_eq!(run(&mut env, "(/ -7 2)"), "-3");
    assert_eq!(run(&mut env, "(% -7 2)"), "-1");
    assert_eq!(run(&mut env, "(*)"), "1");
    assert_eq!(run(&mut env, "(+ 5)"), "5");
    assert_eq!(run(&mut env, "(- 5)"), "(Err: expected (Num Num ...), received (Int))");
    assert_eq!(run(&mut env, "(+ 1 :a)"), "(Err: expected (Num Num), received (Int Sym))");
}

#[test]
fn bitwise_operators() {
    let mut env = REnv::new();
    assert_eq!(run(&mut env, "(& 12 10)"), "8");
    assert_eq!(run(&mut env, "(| 12 10)"), "14");
    assert_eq!(run(&mut env, "(^ 12 10)"), "6");
    assert_eq!(run(&mut env, "(<< 1 4)"), "16");
    assert_eq!(run(&mut env, "(>> 256 4)"), "16");
    assert_eq!(run(&mut env, "(<< 1 64)"), "(Err: arithmetic overflow)");
    assert_eq!(run(&mut env, "(~ 0 5)"), "(-1 -6)");
    assert_eq!(run(&mut env, "(% 1 :a)"), "(Err: expected (Int Int), received (Int Sym))");
}

#[test]
fn logic_operators() {
    let mut env = REnv::new();
    assert_eq!(run(&mut env, "(not true)"), "false");
    assert_eq!(run(&mut env, "(! false)"), "true");
    assert_eq!(run(&mut env, "(and true true)"), "true");
    assert_eq!(run(&mut env, "(&& true false)"), "false");
    assert_eq!(run(&mut env, "(or false true)"), "true");
    assert_eq!(run(&mut env, "(|| false false)"), "false");
    assert_eq!(run(&mut env, "(and true 1)"), "(Err: expected (Bool), received Int)");
    assert_eq!(run(&mut env, "(not 1 2)"), "(Err: expected (Bool))");
}

#[test]
fn constructs() {
    let mut env = REnv::new();
    assert_eq!(run(&mut env, "(cons 1 2)"), "(1 2)");
    assert_eq!(run(&mut env, "(cond ((< 2 1) 1) ((< 1 2) 2))"), "2");
    assert_eq!(run(&mut env, "(cond ((< 2 1) 1))"), "()");
    assert_eq!(run(&mut env, "(if true 1)"), "1");
    assert_eq!(run(&mut env, "(if false 1)"), "()");
    assert_eq!(run(&mut env, "(if 1 2 3)"), "(Err: expected (Bool Any Any), received (Int Int Int))");
    run(&mut env, "(let n 0)");
    assert_eq!(run(&mut env, "(while (< n 3) (let n (+ n 1)))"), "3");
    assert_eq!(run(&mut env, "(head [7 8])"), "7");
    assert_eq!(run(&mut env, "(rest [7 8 9])"), "[8 9]");
    assert_eq!(run(&mut env, "(rest (quote (7 8 9)))"), "(8 9)");
    assert_eq!(run(&mut env, "(head [])"), "()");
}

#[test]
fn errors_as_values() {
    let mut env = REnv::new();
    assert_eq!(run(&mut env, "foo"), "(Err: unbound symbol 'foo')");
    assert_eq!(run(&mut env, "(1 2)"), "(Err: expected Fn, received Int)");
    assert_eq!(run(&mut env, ")"), "(Err: unexpected ')')");
    assert_eq!(run(&mut env, "(+ 1"), "(Err: expected ')', received EOF)");
    assert_eq!(run(&mut env, ""), "(Err: unexpected EOF)");
    assert_eq!(run(&mut env, "(fn (1) 1)"), "(Err: parameters must be symbols)");
    assert_eq!(run(&mut env, "99999999999999999999"), "(Err: integer overflow)");
}

#[test]
fn read_and_load() {
    let mut env = REnv::new();
    assert_eq!(run(&mut env, "(read)"), "(Err: could not read line)");
    env.push_input("hello");
    assert_eq!(run(&mut env, "(read \"? \")"), "\"hello\"");
    assert_eq!(run(&mut env, "(load \"nowhere\")"), "(Err: could not load nowhere)");
    env.add_file("lib", "(let twice (fn (x) (* 2 x)))\n(let three 3)");
    assert_eq!(run(&mut env, "(load \"lib\")"), "3");
    assert_eq!(run(&mut env, "(twice three)"), "6");
    assert_eq!(env.load("lib").display(), "3");
}

#[test]
fn write_prints_strings_raw() {
    let mut env = REnv::new();
    run(&mut env, "(let s \"x\")");
    assert_eq!(run(&mut env, "(write \"a\" s 1 (+ 1 2))"), "()");
    assert_eq!(env.take_output(), vec!["ax1(+ 1 2)".to_string()]);
}
