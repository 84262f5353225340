use risp::reader::{make_map, parse, parse_atom, tokenize, unescape};
use risp::value::RVal;

fn strings(v: &[&str]) -> Vec<String> {
    v.iter().map(|s| s.to_string()).collect()
}

#[test]
fn tokens_of_a_form() {
    let t = tokenize("(+ 1 \"a b\") ; note\n[x,@y]");
    assert_eq!(t, strings(&["(", "+", "1", "\"a b\"", ")", "[", "x", ",@", "y", "]"]));
}

#[test]
fn tokens_of_unterminated_string() {
    assert_eq!(tokenize("\"abc"), strings(&["\"abc"]));
    assert_eq!(tokenize("\"a\\\"b\" c"), strings(&["\"a\\\"b\"", "c"]));
}

#[test]
fn parse_nested() {
    let t = tokenize("(a [1 2] {:k \"v\"}) rest");
    let (v, n) = parse(&t).unwrap();
    assert_eq!(n, 11);
    assert_eq!(v.display(), "(a [1 2] {:k \"v\"})");
    assert_eq!(v.variant(), "(Sym [Int Int] {Sym Str})");
}

#[test]
fn parse_errors() {
    assert_eq!(parse(&tokenize("]")).unwrap_err().display(), "(Err: unexpected ']')");
    assert_eq!(parse(&tokenize("[1")).unwrap_err().display(), "(Err: expected ']', received EOF)");
    assert_eq!(parse(&tokenize("\"ab")).unwrap_err().display(), "(Err: expected '\"', received EOF)");
}

#[test]
fn atoms() {
    assert!(matches!(parse_atom("nil"), RVal::RNil));
    assert!(matches!(parse_atom("true"), RVal::RBool(true)));
    assert!(matches!(parse_atom("+12"), RVal::RInt(12)));
    assert!(matches!(parse_atom("-9223372036854775808"), RVal::RInt(i64::MIN)));
    assert_eq!(parse_atom("9223372036854775808").display(), "(Err: integer overflow)");
    assert_eq!(parse_atom("01").display(), "01");
    assert_eq!(parse_atom("1.5").display(), "(Err: floating point numbers are not supported)");
    assert_eq!(parse_atom("\"a\\nb\"").display(), "\"a\\nb\"");
    assert!(matches!(parse_atom("\"a\\nb\""), RVal::RStr(s) if s == "a\nb"));
}

#[test]
fn unescape_in_one_pass() {
    assert_eq!(unescape("a\\\\nb"), "a\\nb");
    assert_eq!(unescape("\\\"q\\\""), "\"q\"");
    assert_eq!(unescape("x\\ty"), "x\\ty");
}

#[test]
fn maps_from_pairs() {
    let m = make_map(&vec![RVal::RInt(1), RVal::RInt(2), RVal::RInt(1), RVal::RInt(3)]);
    assert_eq!(m.display(), "{1 3}");
    let odd = make_map(&vec![RVal::RInt(1)]);
    assert_eq!(odd.display(), "(Err: uneven number of elements in hash map)");
    let t = tokenize("{[1] 2}");
    let (v, _) = parse(&t).unwrap();
    assert_eq!(v.display(), "(Err: [Int] is not hashable)");
}

#[test]
fn print_then_read_round_trip() {
    for src in ["(1 -2 \"q\\\"\\\\\" sym [nil true false])", "[]", "()", "\"line\\nbreak\""] {
        let (v, _) = parse(&tokenize(src)).unwrap();
        let printed = v.display();
        let (w, _) = parse(&tokenize(&printed)).unwrap();
        assert!(v.equals(&w), "{}", printed);
        assert_eq!(w.display(), printed);
    }
}
