use std::sync::Arc;
use vstd::prelude::*;
use crate::value::{
    RVal, show, show_seq, escape, escape_char, int_text, nat_text, chars_of, string_of, key_eq,
    find_key, find_key_from, find_key_index, lemma_find_key_bounds, text, append_str,
    keys_distinct,
};
use crate::model::{Val, model, models, lemma_models, lemma_models_ext, vtag, lemma_tag_model};

verus! {

// ---------------------------------------------------------------- lexer

pub open spec fn is_ws(c: char) -> bool {
    c == ' ' || c == '\t' || c == '\n' || c == '\r' || c == '\x0B' || c == '\x0C'
}

/// Characters that form a token on their own.
pub open spec fn is_single(c: char) -> bool {
    c == '(' || c == ')' || c == '[' || c == ']' || c == '{' || c == '}' || c == '`' || c == ','
        || c == '^' || c == '@' || c == '\''
}

/// Characters that end an atom.
pub open spec fn is_delim(c: char) -> bool {
    is_ws(c) || c == '(' || c == ')' || c == '[' || c == ']' || c == '{' || c == '}' || c == '"'
        || c == '`' || c == ',' || c == ';' || c == '\''
}

/// End of a string token whose body starts at `j`: the position after the closing quote,
/// or where the body stops without one.
pub open spec fn string_end(s: Seq<char>, j: int) -> int
    decreases s.len() - j,
{
    if j < 0 || j >= s.len() {
        j
    } else if s[j] == '\\' {
        if j + 1 < s.len() && s[j + 1] != '\n' {
            string_end(s, j + 2)
        } else {
            j
        }
    } else if s[j] == '"' {
        j + 1
    } else {
        string_end(s, j + 1)
    }
}

/// End of a run of characters for which `stop` does not hold.
pub open spec fn comment_end(s: Seq<char>, j: int) -> int
    decreases s.len() - j,
{
    if j < 0 || j >= s.len() || s[j] == '\n' {
        j
    } else {
        comment_end(s, j + 1)
    }
}

pub open spec fn atom_end(s: Seq<char>, j: int) -> int
    decreases s.len() - j,
{
    if j < 0 || j >= s.len() || is_delim(s[j]) {
        j
    } else {
        atom_end(s, j + 1)
    }
}

/// End of the token that starts at `i` (where `s[i]` is not whitespace).
pub open spec fn token_end(s: Seq<char>, i: int) -> int {
    if s[i] == ',' && i + 1 < s.len() && s[i + 1] == '@' {
        i + 2
    } else if is_single(s[i]) {
        i + 1
    } else if s[i] == '"' {
        string_end(s, i + 1)
    } else if s[i] == ';' {
        comment_end(s, i + 1)
    } else {
        atom_end(s, i + 1)
    }
}

/// The tokens of `s` from position `i` on; comments are dropped.
pub open spec fn tokens_from(s: Seq<char>, i: int) -> Seq<Seq<char>>
    decreases s.len() - i,
{
    if i < 0 || i >= s.len() {
        Seq::empty()
    } else if is_ws(s[i]) {
        tokens_from(s, i + 1)
    } else if token_end(s, i) <= i || token_end(s, i) > s.len() {
        Seq::empty()
    } else if s[i] == ';' {
        tokens_from(s, token_end(s, i))
    } else {
        seq![s.subrange(i, token_end(s, i))] + tokens_from(s, token_end(s, i))
    }
}

pub open spec fn lex(s: Seq<char>) -> Seq<Seq<char>> {
    tokens_from(s, 0)
}

pub open spec fn views(ts: Seq<String>) -> Seq<Seq<char>> {
    ts.map_values(|t: String| t@)
}

fn is_ws_exec(c: char) -> (r: bool)
    ensures
        r == is_ws(c),
{
    c == ' ' || c == '\t' || c == '\n' || c == '\r' || c == '\x0B' || c == '\x0C'
}

fn is_single_exec(c: char) -> (r: bool)
    ensures
        r == is_single(c),
{
    c == '(' || c == ')' || c == '[' || c == ']' || c == '{' || c == '}' || c == '`' || c == ','
        || c == '^' || c == '@' || c == '\''
}

fn is_delim_exec(c: char) -> (r: bool)
    ensures
        r == is_delim(c),
{
    is_ws_exec(c) || c == '(' || c == ')' || c == '[' || c == ']' || c == '{' || c == '}' || c
        == '"' || c == '`' || c == ',' || c == ';' || c == '\''
}

fn string_end_exec(s: &Vec<char>, j: usize) -> (r: usize)
    requires
        j <= s@.len(),
    ensures
        r == string_end(s@, j as int),
        j <= r <= s@.len(),
{
    let mut k = j;
    while k < s.len()
        invariant
            j <= k <= s@.len(),
            string_end(s@, j as int) == string_end(s@, k as int),
        decreases s@.len() - k,
    {
        if s[k] == '\\' {
            if k + 1 < s.len() && s[k + 1] != '\n' {
                k = k + 2;
            } else {
                return k;
            }
        } else if s[k] == '"' {
            return k + 1;
        } else {
            k = k + 1;
        }
    }
    k
}

fn comment_end_exec(s: &Vec<char>, j: usize) -> (r: usize)
    requires
        j <= s@.len(),
    ensures
        r == comment_end(s@, j as int),
        j <= r <= s@.len(),
{
    let mut k = j;
    while k < s.len() && s[k] != '\n'
        invariant
            j <= k <= s@.len(),
            comment_end(s@, j as int) == comment_end(s@, k as int),
        decreases s@.len() - k,
    {
        k = k + 1;
    }
    k
}

fn atom_end_exec(s: &Vec<char>, j: usize) -> (r: usize)
    requires
        j <= s@.len(),
    ensures
        r == atom_end(s@, j as int),
        j <= r <= s@.len(),
{
    let mut k = j;
    while k < s.len() && !is_delim_exec(s[k])
        invariant
            j <= k <= s@.len(),
            atom_end(s@, j as int) == atom_end(s@, k as int),
        decreases s@.len() - k,
    {
        k = k + 1;
    }
    k
}

fn token_end_exec(s: &Vec<char>, i: usize) -> (r: usize)
    requires
        i < s@.len(),
    ensures
        r == token_end(s@, i as int),
        i < r <= s@.len(),
{
    let n = s.len();
    let c = s[i];
    if c == ',' && n - i > 1 && s[i + 1] == '@' {
        i + 2
    } else if is_single_exec(c) {
        i + 1
    } else if c == '"' {
        string_end_exec(s, i + 1)
    } else if c == ';' {
        comment_end_exec(s, i + 1)
    } else {
        atom_end_exec(s, i + 1)
    }
}

/// The characters `s[from..to]`.
pub fn slice_chars(s: &Vec<char>, from: usize, to: usize) -> (r: Vec<char>)
    requires
        from <= to <= s@.len(),
    ensures
        r@ == s@.subrange(from as int, to as int),
{
    let mut r: Vec<char> = Vec::new();
    let mut k = from;
    while k < to
        invariant
            from <= k <= to,
            to <= s@.len(),
            r@ == s@.subrange(from as int, k as int),
        decreases to - k,
    {
        r.push(s[k]);
        k = k + 1;
        assert(r@ =~= s@.subrange(from as int, k as int));
    }
    r
}

/// Splits source text into tokens: brackets and quote marks, whole string literals
/// (possibly unterminated), and atoms; whitespace and `;` comments are dropped.
pub fn tokenize(src: &str) -> (r: Vec<String>)
    ensures
        views(r@) == lex(src@),
{
    let s = chars_of(src);
    let mut out: Vec<String> = Vec::new();
    let mut i: usize = 0;
    while i < s.len()
        invariant
            i <= s@.len(),
            s@ == src@,
            views(out@) + tokens_from(s@, i as int) == lex(src@),
        decreases s@.len() - i,
    {
        let ghost before = views(out@);
        if is_ws_exec(s[i]) {
            i = i + 1;
        } else {
            let e = token_end_exec(&s, i);
            if s[i] != ';' {
                let t = slice_chars(&s, i, e);
                out.push(string_of(&t));
                assert(views(out@) =~= before + seq![s@.subrange(i as int, e as int)]);
                assert(views(out@) + tokens_from(s@, e as int) =~= before + tokens_from(
                    s@,
                    i as int,
                ));
            }
            i = e;
        }
    }
    assert(views(out@) =~= lex(src@));
    out
}

// ---------------------------------------------------------------- atoms

pub open spec fn is_digit(c: char) -> bool {
    '0' <= c && c <= '9'
}

pub open spec fn all_digits(s: Seq<char>) -> bool {
    forall|i: int| 0 <= i < s.len() ==> is_digit(#[trigger] s[i])
}

pub open spec fn sign_len(t: Seq<char>) -> int {
    if t.len() > 0 && (t[0] == '+' || t[0] == '-') {
        1
    } else {
        0
    }
}

/// The text after an optional sign.
pub open spec fn unsigned_part(t: Seq<char>) -> Seq<char> {
    t.subrange(sign_len(t), t.len() as int)
}

/// `[-+]?(0|[1-9][0-9]*)`
pub open spec fn is_int_literal(t: Seq<char>) -> bool {
    let d = unsigned_part(t);
    d.len() > 0 && all_digits(d) && (d[0] != '0' || d.len() == 1)
}

pub open spec fn digits_value(d: Seq<char>) -> nat
    decreases d.len(),
{
    if d.len() == 0 {
        0
    } else {
        digits_value(d.drop_last()) * 10 + ((d.last() as u32) - 48) as nat
    }
}

pub open spec fn int_literal_value(t: Seq<char>) -> int {
    let n = digits_value(unsigned_part(t)) as int;
    if t.len() > 0 && t[0] == '-' {
        -n
    } else {
        n
    }
}

/// Position of the first `.` at or after `i`, or the length.
pub open spec fn first_dot(r: Seq<char>, i: int) -> int
    decreases r.len() - i,
{
    if i < 0 || i >= r.len() || r[i] == '.' {
        i
    } else {
        first_dot(r, i + 1)
    }
}

/// `[-+]?(\.[0-9]+|(0|[1-9][0-9]*)\.[0-9]*)`
pub open spec fn is_float_literal(t: Seq<char>) -> bool {
    let r = unsigned_part(t);
    let k = first_dot(r, 0);
    &&& 0 <= k < r.len()
    &&& all_digits(r.subrange(k + 1, r.len() as int))
    &&& if k == 0 {
        r.len() > 1
    } else {
        all_digits(r.subrange(0, k)) && (r[0] != '0' || k == 1)
    }
}

/// Index of the quote that closes a string body starting at `j`, or -1.
pub open spec fn string_close(s: Seq<char>, j: int) -> int
    decreases s.len() - j,
{
    if j < 0 || j >= s.len() {
        -1
    } else if s[j] == '\\' {
        if j + 1 < s.len() && s[j + 1] != '\n' {
            string_close(s, j + 2)
        } else {
            -1
        }
    } else if s[j] == '"' {
        j
    } else {
        string_close(s, j + 1)
    }
}

pub open spec fn is_string_literal(t: Seq<char>) -> bool {
    t.len() >= 2 && t[0] == '"' && string_close(t, 1) == t.len() - 1
}

/// Decodes the escapes `\\`, `\"` and `\n` in one pass from the left; any other
/// backslash stays as it is.
pub open spec fn unescape_chars(s: Seq<char>) -> Seq<char>
    decreases s.len(),
{
    if s.len() == 0 {
        s
    } else if s[0] == '\\' && s.len() >= 2 && (s[1] == '\\' || s[1] == '"' || s[1] == 'n') {
        seq![if s[1] == 'n' { '\n' } else { s[1] }] + unescape_chars(s.subrange(2, s.len() as int))
    } else {
        seq![s[0]] + unescape_chars(s.subrange(1, s.len() as int))
    }
}

/// The value an atom token denotes; errors are `VErr` with their message.
pub open spec fn atom_val(t: Seq<char>) -> Val {
    if t == "nil"@ {
        Val::VNil
    } else if t == "false"@ {
        Val::VBool(false)
    } else if t == "true"@ {
        Val::VBool(true)
    } else if is_int_literal(t) {
        if i64::MIN <= int_literal_value(t) <= i64::MAX {
            Val::VInt(int_literal_value(t))
        } else {
            Val::VErr("integer overflow"@)
        }
    } else if is_float_literal(t) {
        Val::VErr("floating point numbers are not supported"@)
    } else if is_string_literal(t) {
        Val::VStr(unescape_chars(t.subrange(1, t.len() - 1)))
    } else if t.len() > 0 && t[0] == '"' {
        Val::VErr("expected '\"', received EOF"@)
    } else {
        Val::VSym(t)
    }
}

pub fn same_chars(a: &Vec<char>, b: &Vec<char>) -> (r: bool)
    ensures
        r == (a@ == b@),
{
    if a.len() != b.len() {
        return false;
    }
    let mut i: usize = 0;
    while i < a.len()
        invariant
            i <= a@.len(),
            a@.len() == b@.len(),
            forall|j: int| 0 <= j < i ==> a@[j] == b@[j],
        decreases a@.len() - i,
    {
        if a[i] != b[i] {
            return false;
        }
        i = i + 1;
    }
    assert(a@ =~= b@);
    true
}

fn digits_from(t: &Vec<char>, from: usize, to: usize) -> (r: bool)
    requires
        from <= to <= t@.len(),
    ensures
        r == all_digits(t@.subrange(from as int, to as int)),
{
    let mut i = from;
    while i < to
        invariant
            from <= i <= to,
            to <= t@.len(),
            all_digits(t@.subrange(from as int, i as int)),
        decreases to - i,
    {
        if !('0' <= t[i] && t[i] <= '9') {
            assert(!is_digit(t@.subrange(from as int, to as int)[i - from]));
            return false;
        }
        i = i + 1;
        assert(forall|j: int| 0 <= j < i - from ==> #[trigger] t@.subrange(from as int, i as int)[j] == t@.subrange(from as int, i - 1)[j] || j == i - 1 - from);
    }
    true
}

fn sign_len_exec(t: &Vec<char>) -> (r: usize)
    ensures
        r == sign_len(t@),
{
    if t.len() > 0 && (t[0] == '+' || t[0] == '-') {
        1
    } else {
        0
    }
}

fn is_int_literal_exec(t: &Vec<char>) -> (r: bool)
    ensures
        r == is_int_literal(t@),
{
    let b = sign_len_exec(t);
    let n = t.len();
    let ghost d = unsigned_part(t@);
    if b >= n {
        return false;
    }
    assert(d[0] == t@[b as int]);
    let ok = digits_from(t, b, n) && (t[b] != '0' || n - b == 1);
    ok
}

proof fn lemma_digits_value_prefix(d: Seq<char>, k: int)
    requires
        0 <= k <= d.len(),
        all_digits(d),
    ensures
        digits_value(d.subrange(0, k)) <= digits_value(d),
    decreases d.len() - k,
{
    if k < d.len() {
        lemma_digits_value_prefix(d, k + 1);
        assert(d.subrange(0, k + 1).drop_last() =~= d.subrange(0, k));
        assert(is_digit(d[k]));
    } else {
        assert(d.subrange(0, k) =~= d);
    }
}

/// Reads an integer literal; out of the range of `i64` it is an error.
fn parse_int(t: &Vec<char>) -> (r: RVal)
    requires
        is_int_literal(t@),
    ensures
        r@ == atom_int(t@),
{
    let b = sign_len_exec(t);
    let n = t.len();
    let ghost d = unsigned_part(t@);
    let limit: u128 = 9223372036854775808;
    let mut acc: u128 = 0;
    let mut big = false;
    let mut i = b;
    while i < n && !big
        invariant
            b <= i <= n,
            n == t@.len(),
            b == sign_len(t@),
            d == t@.subrange(b as int, n as int),
            all_digits(d),
            !big ==> acc == digits_value(d.subrange(0, i - b)),
            !big ==> acc <= limit,
            limit == 9223372036854775808,
            big ==> digits_value(d) > limit,
        decreases n - i,
    {
        assert(is_digit(d[i - b]));
        let c = t[i];
        assert(t@[i as int] == d[i - b]);
        let dg: u128 = ((c as u32) - 48) as u128;
        assert(acc * 10 + dg <= 92233720368547758089) by (nonlinear_arith)
            requires
                acc <= 9223372036854775808,
                dg <= 9,
        ;
        acc = acc * 10 + dg;
        assert(d.subrange(0, i + 1 - b).drop_last() =~= d.subrange(0, i - b));
        assert(d.subrange(0, i + 1 - b).last() == c);
        i = i + 1;
        if acc > limit {
            big = true;
            proof {
                lemma_digits_value_prefix(d, i - b);
            }
        }
    }
    if !big {
        assert(d.subrange(0, n - b) =~= d);
        assert(acc == digits_value(d));
    }
    let neg = t[0] == '-';
    assert(neg ==> int_literal_value(t@) == -(digits_value(d) as int));
    assert(!neg ==> int_literal_value(t@) == digits_value(d) as int);
    if big || (!neg && acc == limit) {
        RVal::RErr(text("integer overflow"))
    } else if neg {
        RVal::RInt((0i128 - (acc as i128)) as i64)
    } else {
        RVal::RInt(acc as i64)
    }
}

pub open spec fn atom_int(t: Seq<char>) -> Val {
    if i64::MIN <= int_literal_value(t) <= i64::MAX {
        Val::VInt(int_literal_value(t))
    } else {
        Val::VErr("integer overflow"@)
    }
}

fn first_dot_exec(r: &Vec<char>, from: usize) -> (k: usize)
    requires
        from <= r@.len(),
    ensures
        k == first_dot(r@.subrange(from as int, r@.len() as int), 0) + from,
        from <= k <= r@.len(),
{
    let ghost u = r@.subrange(from as int, r@.len() as int);
    let mut k = from;
    while k < r.len() && r[k] != '.'
        invariant
            from <= k <= r@.len(),
            u == r@.subrange(from as int, r@.len() as int),
            first_dot(u, 0) == first_dot(u, k - from),
        decreases r@.len() - k,
    {
        assert(u[k - from] == r@[k as int]);
        k = k + 1;
    }
    k
}

fn is_float_literal_exec(t: &Vec<char>) -> (r: bool)
    ensures
        r == is_float_literal(t@),
{
    let b = sign_len_exec(t);
    let n = t.len();
    let ghost u = unsigned_part(t@);
    let k = first_dot_exec(t, b);
    if k >= n {
        return false;
    }
    assert(u.subrange(k - b + 1, u.len() as int) =~= t@.subrange(k + 1, n as int));
    if !digits_from(t, k + 1, n) {
        return false;
    }
    if k == b {
        n - b > 1
    } else {
        assert(u.subrange(0, k - b) =~= t@.subrange(b as int, k as int));
        assert(u[0] == t@[b as int]);
        digits_from(t, b, k) && (t[b] != '0' || k - b == 1)
    }
}

fn string_close_exec(s: &Vec<char>, j: usize) -> (r: Option<usize>)
    requires
        j <= s@.len(),
    ensures
        match r {
            Some(k) => k == string_close(s@, j as int) && k < s@.len(),
            None => string_close(s@, j as int) == -1,
        },
{
    let mut k = j;
    while k < s.len()
        invariant
            j <= k <= s@.len(),
            string_close(s@, j as int) == string_close(s@, k as int),
        decreases s@.len() - k,
    {
        if s[k] == '\\' {
            if k + 1 < s.len() && s[k + 1] != '\n' {
                k = k + 2;
            } else {
                return None;
            }
        } else if s[k] == '"' {
            return Some(k);
        } else {
            k = k + 1;
        }
    }
    None
}

/// Decodes the escapes `\\`, `\"` and `\n` in one pass from the left.
pub fn unescape(src: &str) -> (r: String)
    ensures
        r@ == unescape_chars(src@),
{
    let s = chars_of(src);
    let out = unescape_vec(&s, 0, s.len());
    assert(s@.subrange(0, s@.len() as int) =~= src@);
    string_of(&out)
}

fn unescape_vec(s: &Vec<char>, from: usize, to: usize) -> (r: Vec<char>)
    requires
        from <= to <= s@.len(),
    ensures
        r@ == unescape_chars(s@.subrange(from as int, to as int)),
{
    let ghost whole = s@.subrange(from as int, to as int);
    let mut out: Vec<char> = Vec::new();
    let mut i = from;
    while i < to
        invariant
            from <= i <= to,
            to <= s@.len(),
            whole == s@.subrange(from as int, to as int),
            out@ + unescape_chars(s@.subrange(i as int, to as int)) == unescape_chars(whole),
        decreases to - i,
    {
        let ghost rest = s@.subrange(i as int, to as int);
        let ghost before = out@;
        if s[i] == '\\' && to - i >= 2 && (s[i + 1] == '\\' || s[i + 1] == '"' || s[i + 1] == 'n') {
            if s[i + 1] == 'n' {
                out.push('\n');
            } else {
                out.push(s[i + 1]);
            }
            assert(rest.subrange(2, rest.len() as int) =~= s@.subrange(i + 2, to as int));
            i = i + 2;
        } else {
            out.push(s[i]);
            assert(rest.subrange(1, rest.len() as int) =~= s@.subrange(i + 1, to as int));
            i = i + 1;
        }
        assert(out@ + unescape_chars(s@.subrange(i as int, to as int)) =~= before + unescape_chars(rest));
    }
    assert(s@.subrange(to as int, to as int) =~= Seq::<char>::empty());
    assert(out@ + Seq::<char>::empty() =~= out@);
    out
}

/// The value that an atom token denotes: `nil`, a boolean, an integer, a string
/// literal or a symbol; malformed literals give an error value.
pub fn parse_atom(atom: &str) -> (r: RVal)
    ensures
        r@ == atom_val(atom@),
{
    let t = chars_of(atom);
    if same_chars(&t, &chars_of("nil")) {
        RVal::RNil
    } else if same_chars(&t, &chars_of("false")) {
        RVal::RBool(false)
    } else if same_chars(&t, &chars_of("true")) {
        RVal::RBool(true)
    } else if is_int_literal_exec(&t) {
        parse_int(&t)
    } else if is_float_literal_exec(&t) {
        RVal::RErr(text("floating point numbers are not supported"))
    } else if t.len() >= 2 && t[0] == '"' && string_close_exec(&t, 1) == Some(t.len() - 1) {
        let body = unescape_vec(&t, 1, t.len() - 1);
        RVal::RStr(string_of(&body))
    } else if t.len() > 0 && t[0] == '"' {
        RVal::RErr(text("expected '\"', received EOF"))
    } else {
        RVal::RSym(text(atom))
    }
}

// ---------------------------------------------------------------- maps

pub open spec fn hashable(v: Val) -> bool {
    v is VErr || v is VStr || v is VSym || v is VBool || v is VInt
}

/// Index of the first key of the flat map `kvs` equal to `k` at or after `j`, or -1.
pub open spec fn vfind_key(kvs: Seq<Val>, k: Val, j: int) -> int
    decreases kvs.len() - j,
{
    if j < 0 || j + 1 >= kvs.len() {
        -1
    } else if kvs[j] == k {
        j
    } else {
        vfind_key(kvs, k, j + 2)
    }
}

/// Binds `k` to `v`: replaces the value of an existing key in place, or appends the pair.
pub open spec fn map_insert(kvs: Seq<Val>, k: Val, v: Val) -> Seq<Val> {
    let j = vfind_key(kvs, k, 0);
    if j >= 0 {
        kvs.update(j + 1, v)
    } else {
        kvs + seq![k, v]
    }
}

/// The map built by inserting the first `n` pairs of `vs` in order.
pub open spec fn map_of_pairs(vs: Seq<Val>, n: nat) -> Seq<Val>
    decreases n,
{
    if n == 0 || 2 * n > vs.len() {
        Seq::empty()
    } else {
        map_insert(map_of_pairs(vs, (n - 1) as nat), vs[2 * n - 2], vs[2 * n - 1])
    }
}

/// First even position at or after `j` that holds a key that cannot be hashed, or -1.
pub open spec fn first_unhashable(vs: Seq<Val>, j: int) -> int
    decreases vs.len() - j,
{
    if j < 0 || j + 1 >= vs.len() {
        -1
    } else if !hashable(vs[j]) {
        j
    } else {
        first_unhashable(vs, j + 2)
    }
}

/// The map that the elements `k0 v0 k1 v1 ...` denote, or the error that rejects them.
pub open spec fn map_val(vs: Seq<Val>) -> Val {
    if vs.len() % 2 != 0 {
        Val::VErr("uneven number of elements in hash map"@)
    } else if first_unhashable(vs, 0) >= 0 {
        Val::VErr(vtag(vs[first_unhashable(vs, 0)]) + " is not hashable"@)
    } else {
        Val::VMap(map_of_pairs(vs, (vs.len() / 2) as nat))
    }
}

fn is_hashable(v: &RVal) -> (r: bool)
    ensures
        r == hashable(v@),
{
    match v {
        RVal::RErr(_) | RVal::RStr(_) | RVal::RSym(_) | RVal::RBool(_) | RVal::RInt(_) => true,
        _ => false,
    }
}

pub open spec fn keys_hashable(kvs: Seq<RVal>) -> bool {
    forall|j: int| 0 <= j < kvs.len() && j % 2 == 0 ==> hashable(#[trigger] model(kvs[j]))
}

proof fn lemma_find_key_model(kvs: Seq<RVal>, k: RVal, j: int)
    requires
        hashable(model(k)),
        j >= 0,
        j % 2 == 0,
    ensures
        find_key_from(kvs, k, j) == vfind_key(models(kvs), model(k), j),
    decreases kvs.len() - j,
{
    lemma_models(kvs);
    if j + 1 < kvs.len() {
        assert(key_eq(kvs[j], k) == (model(kvs[j]) == model(k)));
        lemma_find_key_model(kvs, k, j + 2);
    }
}

/// Builds a map from alternating keys and values; later pairs replace earlier ones with
/// an equal key.
pub fn make_map(vs: &Vec<RVal>) -> (r: RVal)
    ensures
        r@ == map_val(models(vs@)),
        r matches RVal::RMap(kvs) ==> keys_distinct(kvs@) && kvs@.len() % 2 == 0,
{
    proof {
        lemma_models(vs@);
    }
    let ghost mv = models(vs@);
    if vs.len() % 2 != 0 {
        return RVal::RErr(text("uneven number of elements in hash map"));
    }
    let mut j: usize = 0;
    while j < vs.len()
        invariant
            j % 2 == 0,
            j <= vs@.len(),
            vs@.len() % 2 == 0,
            mv == models(vs@),
            mv.len() == vs@.len(),
            forall|i: int| 0 <= i < vs@.len() ==> mv[i] == model(#[trigger] vs@[i]),
            first_unhashable(mv, 0) == first_unhashable(mv, j as int),
        decreases vs@.len() - j,
    {
        if !is_hashable(&vs[j]) {
            let mut buf: Vec<char> = Vec::new();
            vs[j].write_tag(&mut buf);
            append_str(&mut buf, " is not hashable");
            proof {
                lemma_tag_model(vs@[j as int]);
            }
            return RVal::RErr(string_of(&buf));
        }
        j = j + 2;
    }
    let mut out: Vec<RVal> = Vec::new();
    let mut n: usize = 0;
    while n < vs.len() / 2
        invariant
            n <= vs@.len() / 2,
            vs@.len() % 2 == 0,
            mv == models(vs@),
            mv.len() == vs@.len(),
            forall|i: int| 0 <= i < vs@.len() ==> mv[i] == model(#[trigger] vs@[i]),
            first_unhashable(mv, 0) == -1,
            models(out@) == map_of_pairs(mv, n as nat),
            keys_hashable(out@),
            out@.len() % 2 == 0,
            keys_distinct(out@),
        decreases vs@.len() / 2 - n,
    {
        let ghost before = out@;
        let k = &vs[2 * n];
        let v = &vs[2 * n + 1];
        proof {
            lemma_unhashable_none(mv, 0, 2 * n as int);
            lemma_find_key_model(out@, *k, 0);
            lemma_find_key_bounds(out@, *k, 0);
            lemma_models(out@);
            assert(2 * (n + 1) <= mv.len());
            assert(map_of_pairs(mv, (n + 1) as nat) == map_insert(
                map_of_pairs(mv, n as nat),
                mv[2 * n as int],
                mv[2 * n + 1],
            ));
            assert(mv[2 * n as int] == model(*k));
            assert(mv[2 * n + 1] == model(*v));
        }
        match find_key_index(&out, k) {
            Some(i) => {
                out.set(i + 1, v.dup());
                assert forall|a: int, b: int|
                    0 <= a < b < out@.len() / 2 implies !key_eq(
                    #[trigger] out@[2 * a],
                    #[trigger] out@[2 * b],
                ) by {
                    assert(out@[2 * a] == before[2 * a]);
                    assert(out@[2 * b] == before[2 * b]);
                }
                proof {
                    lemma_models_ext(out@, models(before).update(i + 1, model(*v)));
                    assert(find_key(before, *k) >= 0);
                    assert(find_key(before, *k) + 1 < before.len());
                    assert(i as int == find_key(before, *k));
                    assert(vfind_key(models(before), model(*k), 0) == i);
                    assert(models(out@) == map_insert(models(before), model(*k), model(*v)));
                }
            },
            None => {
                proof {
                    lemma_find_key_absent(before, *k, 0);
                }
                out.push(k.dup());
                out.push(v.dup());
                assert forall|a: int, b: int|
                    0 <= a < b < out@.len() / 2 implies !key_eq(
                    #[trigger] out@[2 * a],
                    #[trigger] out@[2 * b],
                ) by {
                    assert(out@[2 * a] == before[2 * a]);
                    if b < before.len() / 2 {
                        assert(out@[2 * b] == before[2 * b]);
                    } else {
                        assert(out@[2 * b] == *k);
                    }
                }
                proof {
                    lemma_models_ext(out@, models(before) + seq![model(*k), model(*v)]);
                    assert(vfind_key(models(before), model(*k), 0) == -1);
                    assert(models(out@) == map_insert(models(before), model(*k), model(*v)));
                }
            },
        }
        assert(models(out@) == map_of_pairs(mv, (n + 1) as nat));
        n = n + 1;
        assert(keys_hashable(out@));
    }
    RVal::RMap(Arc::new(out))
}

proof fn lemma_find_key_absent(kvs: Seq<RVal>, k: RVal, j: int)
    requires
        0 <= j,
        j % 2 == 0,
        find_key_from(kvs, k, j) == -1,
    ensures
        forall|a: int| j <= 2 * a && 2 * a + 1 < kvs.len() ==> !key_eq(#[trigger] kvs[2 * a], k),
    decreases kvs.len() - j,
{
    if j + 1 < kvs.len() {
        lemma_find_key_absent(kvs, k, j + 2);
        assert forall|a: int| j <= 2 * a && 2 * a + 1 < kvs.len() implies !key_eq(
            #[trigger] kvs[2 * a],
            k,
        ) by {
            if 2 * a == j {
            } else {
                assert(j + 2 <= 2 * a);
            }
        }
    }
}

proof fn lemma_unhashable_none(vs: Seq<Val>, j: int, m: int)
    requires
        0 <= j <= m < vs.len(),
        vs.len() % 2 == 0,
        j % 2 == 0,
        m % 2 == 0,
        first_unhashable(vs, j) == -1,
    ensures
        hashable(vs[m]),
    decreases m - j,
{
    if j < m {
        lemma_unhashable_none(vs, j + 2, m);
    }
}

// ---------------------------------------------------------------- parser

pub open spec fn expected_close(c: char) -> Seq<char> {
    "expected '"@ + seq![c] + "', received EOF"@
}

/// The value whose text starts at token `pos`, and the position after it.
pub open spec fn parse_at(ts: Seq<Seq<char>>, pos: int) -> Result<(Val, int), Seq<char>>
    decreases ts.len() - pos, 0nat,
{
    if pos < 0 || pos >= ts.len() {
        Err("unexpected EOF"@)
    } else if ts[pos] == seq!['('] {
        read_rest(ts, pos + 1, ')', Seq::empty())
    } else if ts[pos] == seq!['['] {
        read_rest(ts, pos + 1, ']', Seq::empty())
    } else if ts[pos] == seq!['{'] {
        read_rest(ts, pos + 1, '}', Seq::empty())
    } else if ts[pos] == seq![')'] {
        Err("unexpected ')'"@)
    } else if ts[pos] == seq![']'] {
        Err("unexpected ']'"@)
    } else if ts[pos] == seq!['}'] {
        Err("unexpected '}'"@)
    } else {
        match atom_val(ts[pos]) {
            Val::VErr(m) => Err(m),
            v => Ok((v, pos + 1)),
        }
    }
}

/// The elements from token `pos` up to the bracket `close`, after those already read.
pub open spec fn read_rest(ts: Seq<Seq<char>>, pos: int, close: char, acc: Seq<Val>) -> Result<
    (Val, int),
    Seq<char>,
>
    decreases ts.len() - pos, 1nat,
{
    if pos < 0 || pos >= ts.len() {
        Err(expected_close(close))
    } else if ts[pos] == seq![close] {
        Ok((closed_val(close, acc), pos + 1))
    } else {
        match parse_at(ts, pos) {
            Err(m) => Err(m),
            Ok((v, p)) => if p <= pos || p > ts.len() {
                Err(expected_close(close))
            } else {
                read_rest(ts, p, close, acc.push(v))
            },
        }
    }
}

pub open spec fn closed_val(close: char, acc: Seq<Val>) -> Val {
    if close == ')' {
        Val::VLst(acc)
    } else if close == ']' {
        Val::VVec(acc)
    } else {
        map_val(acc)
    }
}

/// Whether a parse result agrees with its model.
pub open spec fn parse_agrees(r: Result<(RVal, usize), RVal>, s: Result<(Val, int), Seq<char>>) -> bool {
    match (r, s) {
        (Ok((v, p)), Ok((sv, sp))) => v@ == sv && p == sp,
        (Err(e), Err(m)) => e@ == Val::VErr(m),
        _ => false,
    }
}

fn token_is(t: &String, c: char) -> (r: bool)
    ensures
        r == (t@ == seq![c]),
{
    let cs = chars_of(t.as_str());
    if cs.len() == 1 && cs[0] == c {
        assert(cs@ =~= seq![c]);
        true
    } else {
        false
    }
}

fn err_text(s: &str) -> (r: RVal)
    ensures
        r@ == Val::VErr(s@),
{
    RVal::RErr(text(s))
}

fn err_expected_close(c: char) -> (r: RVal)
    ensures
        r@ == Val::VErr(expected_close(c)),
{
    let mut buf: Vec<char> = Vec::new();
    append_str(&mut buf, "expected '");
    buf.push(c);
    append_str(&mut buf, "', received EOF");
    assert(buf@ =~= expected_close(c));
    RVal::RErr(string_of(&buf))
}

/// Reads one value from the tokens; on success also gives how many tokens it took.
pub fn parse(tokens: &Vec<String>) -> (r: Result<(RVal, usize), RVal>)
    ensures
        parse_agrees(r, parse_at(tokens@.map_values(|t: String| t@), 0)),
{
    parse_from(tokens, 0)
}

fn parse_from(tokens: &Vec<String>, pos: usize) -> (r: Result<(RVal, usize), RVal>)
    ensures
        parse_agrees(r, parse_at(tokens@.map_values(|t: String| t@), pos as int)),
        r matches Ok((_, p)) ==> pos < p <= tokens@.len(),
    decreases tokens@.len() - pos, 0nat,
{
    let ghost ts = tokens@.map_values(|t: String| t@);
    if pos >= tokens.len() {
        return Err(err_text("unexpected EOF"));
    }
    assert(ts[pos as int] == tokens@[pos as int]@);
    let h = &tokens[pos];
    if token_is(h, '(') {
        read_rest_from(tokens, pos + 1, ')')
    } else if token_is(h, '[') {
        read_rest_from(tokens, pos + 1, ']')
    } else if token_is(h, '{') {
        read_rest_from(tokens, pos + 1, '}')
    } else if token_is(h, ')') {
        Err(err_text("unexpected ')'"))
    } else if token_is(h, ']') {
        Err(err_text("unexpected ']'"))
    } else if token_is(h, '}') {
        Err(err_text("unexpected '}'"))
    } else {
        let a = parse_atom(h.as_str());
        match a {
            RVal::RErr(_) => Err(a),
            _ => Ok((a, pos + 1)),
        }
    }
}

fn read_rest_from(tokens: &Vec<String>, pos: usize, close: char) -> (r: Result<(RVal, usize), RVal>)
    requires
        close == ')' || close == ']' || close == '}',
    ensures
        parse_agrees(r, read_rest(tokens@.map_values(|t: String| t@), pos as int, close, Seq::empty())),
        r matches Ok((_, p)) ==> pos < p <= tokens@.len(),
    decreases tokens@.len() - pos, 1nat,
{
    let ghost ts = tokens@.map_values(|t: String| t@);
    let mut acc: Vec<RVal> = Vec::new();
    let mut p = pos;
    proof {
        lemma_models_ext(acc@, Seq::empty());
    }
    loop
        invariant
            pos <= p,
            ts == tokens@.map_values(|t: String| t@),
            close == ')' || close == ']' || close == '}',
            read_rest(ts, pos as int, close, Seq::empty()) == read_rest(ts, p as int, close, models(acc@)),
        decreases tokens@.len() - p,
    {
        if p >= tokens.len() {
            return Err(err_expected_close(close));
        }
        assert(ts[p as int] == tokens@[p as int]@);
        if token_is(&tokens[p], close) {
            proof {
                lemma_models(acc@);
            }
            let v = if close == ')' {
                RVal::RLst(Arc::new(acc))
            } else if close == ']' {
                RVal::RVec(Arc::new(acc))
            } else {
                make_map(&acc)
            };
            return Ok((v, p + 1));
        }
        match parse_from(tokens, p) {
            Err(e) => {
                return Err(e);
            },
            Ok((v, p2)) => {
                let ghost before = acc@;
                acc.push(v);
                proof {
                    lemma_models(before);
                    lemma_models_ext(acc@, models(before).push(model(v)));
                }
                p = p2;
            },
        }
    }
}

} // verus!

verus! {

// ---------------------------------------------------------------- printing then reading

/// No character of `t` ends an atom.
pub open spec fn atom_chars(t: Seq<char>) -> bool {
    forall|k: int| 0 <= k < t.len() ==> !is_delim(#[trigger] t[k])
}

/// A symbol that reading its own text gives back.
pub open spec fn reader_symbol(t: Seq<char>) -> bool {
    t.len() > 0 && atom_chars(t) && !is_single(t[0]) && atom_val(t) == Val::VSym(t)
}

proof fn lemma_atom_end(t: Seq<char>, j: int)
    requires
        0 <= j <= t.len(),
        atom_chars(t),
    ensures
        atom_end(t, j) == t.len(),
{
    lemma_atom_end_at(t, j, t.len() as int);
}

proof fn lemma_atom_end_at(t: Seq<char>, j: int, e: int)
    requires
        0 <= j <= e <= t.len(),
        forall|k: int| j <= k < e ==> !is_delim(#[trigger] t[k]),
        e == t.len() || is_delim(t[e]),
    ensures
        atom_end(t, j) == e,
    decreases e - j,
{
    if j < e {
        lemma_atom_end_at(t, j + 1, e);
    }
}

proof fn lemma_lex_atom(t: Seq<char>)
    requires
        t.len() > 0,
        atom_chars(t),
        !is_single(t[0]),
    ensures
        lex(t) == seq![t],
{
    assert(!is_delim(t[0]));
    lemma_atom_end(t, 1);
    assert(t.subrange(0, t.len() as int) =~= t);
    assert(tokens_from(t, t.len() as int) == Seq::<Seq<char>>::empty());
    assert(seq![t] + Seq::<Seq<char>>::empty() =~= seq![t]);
}

proof fn lemma_digit(d: int)
    requires
        0 <= d < 10,
    ensures
        is_digit(crate::value::digit_char(d)),
        ((crate::value::digit_char(d) as u32) - 48) as nat == d,
        crate::value::digit_char(d) == '0' <==> d == 0,
        !is_delim(crate::value::digit_char(d)),
        !is_single(crate::value::digit_char(d)),
{
}

proof fn lemma_nat_text(n: nat)
    ensures
        nat_text(n).len() > 0,
        all_digits(nat_text(n)),
        atom_chars(nat_text(n)),
        digits_value(nat_text(n)) == n,
        nat_text(n)[0] != '0' || nat_text(n).len() == 1,
        nat_text(n)[0] == '0' ==> n == 0,
    decreases n,
{
    if n < 10 {
        lemma_digit(n as int);
        let t = nat_text(n);
        assert(t.drop_last() =~= Seq::<char>::empty());
        assert(t.last() == crate::value::digit_char(n as int));
        assert(digits_value(t.drop_last()) == 0);
    } else {
        lemma_nat_text(n / 10);
        lemma_digit((n % 10) as int);
        let t = nat_text(n);
        assert(t.drop_last() =~= nat_text(n / 10));
        assert(t.last() == crate::value::digit_char((n % 10) as int));
        assert(t[0] == nat_text(n / 10)[0]);
        assert((n / 10) * 10 + n % 10 == n);
        assert(digits_value(t) == digits_value(nat_text(n / 10)) * 10 + ((t.last() as u32) - 48) as nat);
    }
}

proof fn lemma_read_nat(n: nat, i: int)
    requires
        n == if i < 0 { -i } else { i },
    ensures
        int_text(i).len() > 0,
        atom_chars(int_text(i)),
        !is_single(int_text(i)[0]),
        is_int_literal(int_text(i)),
        int_literal_value(int_text(i)) == i,
        int_text(i)[0] == '-' || is_digit(int_text(i)[0]),
{
    lemma_nat_text(n);
    let d = nat_text(n);
    if i < 0 {
        let t = int_text(i);
        assert(t == seq!['-'] + d);
        assert(unsigned_part(t) =~= d);
        assert forall|k: int| 0 <= k < t.len() implies !is_delim(#[trigger] t[k]) by {
            if k > 0 {
                assert(t[k] == d[k - 1]);
            }
        }
    } else {
        assert(unsigned_part(d) =~= d);
        assert(is_digit(d[0]));
    }
}

/// Escaping distributes over concatenation.
proof fn lemma_escape_concat(a: Seq<char>, b: Seq<char>)
    ensures
        escape(a + b) == escape(a) + escape(b),
    decreases b.len(),
{
    if b.len() == 0 {
        assert(a + b =~= a);
        assert(escape(a) + escape(b) =~= escape(a));
    } else {
        lemma_escape_concat(a, b.drop_last());
        assert((a + b).drop_last() =~= a + b.drop_last());
        assert((a + b).last() == b.last());
        assert(escape(a + b) =~= escape(a) + escape(b));
    }
}

proof fn lemma_escape_first(s: Seq<char>)
    requires
        s.len() > 0,
    ensures
        escape(s) == escape_char(s[0]) + escape(s.drop_first()),
{
    lemma_escape_concat(seq![s[0]], s.drop_first());
    assert(seq![s[0]] + s.drop_first() =~= s);
    assert(seq![s[0]].drop_last() =~= Seq::<char>::empty());
    assert(seq![s[0]].last() == s[0]);
    assert(escape(Seq::<char>::empty()) == Seq::<char>::empty());
    assert(escape(seq![s[0]]) =~= escape_char(s[0]));
}

/// Reading an escaped body back gives the same characters.
proof fn lemma_unescape_escape(s: Seq<char>)
    ensures
        unescape_chars(escape(s)) == s,
    decreases s.len(),
{
    if s.len() > 0 {
        lemma_escape_first(s);
        lemma_unescape_escape(s.drop_first());
        let e = escape(s);
        let c = s[0];
        let rest = escape(s.drop_first());
        if c == '\\' || c == '"' || c == '\n' {
            assert(e.subrange(2, e.len() as int) =~= rest);
        } else {
            assert(e.subrange(1, e.len() as int) =~= rest);
        }
        assert(seq![c] + s.drop_first() =~= s);
    } else {
        assert(escape(s) =~= s);
    }
}

/// Scanning an escaped body followed by a quote ends just after that quote.
proof fn lemma_scan_escaped(t: Seq<char>, j: int, s: Seq<char>)
    requires
        0 <= j <= t.len(),
        t.subrange(j, t.len() as int) == escape(s) + seq!['"'],
    ensures
        string_end(t, j) == t.len(),
        string_close(t, j) == t.len() - 1,
{
    assert(t.subrange(j, t.len() as int).len() == escape(s).len() + 1);
    lemma_scan_escaped_at(t, j, s);
}

proof fn lemma_scan_escaped_at(t: Seq<char>, j: int, s: Seq<char>)
    requires
        0 <= j,
        j + escape(s).len() + 1 <= t.len(),
        t.subrange(j, j + escape(s).len() + 1) == escape(s) + seq!['"'],
    ensures
        string_end(t, j) == j + escape(s).len() + 1,
        string_close(t, j) == j + escape(s).len(),
    decreases s.len(),
{
    let u = t.subrange(j, j + escape(s).len() + 1);
    if s.len() == 0 {
        assert(escape(s) =~= Seq::<char>::empty());
        assert(u =~= seq!['"']);
        assert(u[0] == t[j]);
    } else {
        lemma_escape_first(s);
        let c = s[0];
        let k = escape_char(c).len() as int;
        let w = escape(s.drop_first()) + seq!['"'];
        assert(u =~= escape_char(c) + w);
        assert(u[0] == t[j]);
        assert(u[0] == escape_char(c)[0]);
        if k == 2 {
            assert(u[1] == t[j + 1]);
            assert(u[1] == escape_char(c)[1]);
        }
        assert(u.subrange(k, u.len() as int) =~= w);
        assert(t.subrange(j + k, j + escape(s).len() + 1) =~= u.subrange(k, u.len() as int));
        lemma_scan_escaped_at(t, j + k, s.drop_first());
    }
}

proof fn lemma_first_dot_after(r: Seq<char>, i: int)
    requires
        0 <= i,
    ensures
        first_dot(r, i) >= i,
    decreases r.len() - i,
{
    if i < r.len() && r[i] != '.' {
        lemma_first_dot_after(r, i + 1);
    }
}

/// Values whose printed form reads back as themselves: `nil`, booleans, integers,
/// strings, symbols that read as themselves, and lists and vectors of such values.
pub open spec fn printable(v: RVal) -> bool
    decreases v,
{
    match v {
        RVal::RNil | RVal::RBool(_) | RVal::RInt(_) | RVal::RStr(_) => true,
        RVal::RSym(s) => reader_symbol(s@),
        RVal::RLst(vs) => forall|i: int| 0 <= i < vs@.len() ==> printable(#[trigger] vs@[i]),
        RVal::RVec(vs) => forall|i: int| 0 <= i < vs@.len() ==> printable(#[trigger] vs@[i]),
        _ => false,
    }
}

pub open spec fn is_bracket_token(t: Seq<char>) -> bool {
    t == seq!['('] || t == seq!['['] || t == seq!['{'] || t == seq![')'] || t == seq![']'] || t
        == seq!['}']
}

/// The tokens of a printed value.
pub open spec fn toks(v: RVal) -> Seq<Seq<char>>
    decreases v,
{
    match v {
        RVal::RLst(vs) => seq![seq!['(']] + toks_seq(vs@) + seq![seq![')']],
        RVal::RVec(vs) => seq![seq!['[']] + toks_seq(vs@) + seq![seq![']']],
        _ => seq![show(v)],
    }
}

pub open spec fn toks_seq(vs: Seq<RVal>) -> Seq<Seq<char>>
    decreases vs,
{
    if vs.len() == 0 {
        Seq::empty()
    } else {
        toks(vs[0]) + toks_seq(vs.subrange(1, vs.len() as int))
    }
}

/// The printed form of a printable atom is one token that reads back as the atom.
proof fn lemma_atom_facts(v: RVal)
    requires
        printable(v),
        !(v is RLst),
        !(v is RVec),
    ensures
        show(v).len() > 0,
        atom_val(show(v)) == model(v),
        !(model(v) is VErr),
        !is_bracket_token(show(v)),
        lex(show(v)) == seq![show(v)],
        v is RStr ==> show(v) == seq!['"'] + escape(v->RStr_0@) + seq!['"'],
        !(v is RStr) ==> atom_chars(show(v)) && !is_single(show(v)[0]),
{
    reveal_strlit("nil");
    reveal_strlit("true");
    reveal_strlit("false");
    let t = show(v);
    match v {
        RVal::RNil => {
            assert(t =~= seq!['n', 'i', 'l']);
            lemma_lex_atom(t);
            assert(t != seq!['('] && t != seq!['['] && t != seq!['{'] && t != seq![')'] && t
                != seq![']'] && t != seq!['}']);
        },
        RVal::RBool(b) => {
            if b {
                assert(t =~= seq!['t', 'r', 'u', 'e']);
            } else {
                assert(t =~= seq!['f', 'a', 'l', 's', 'e']);
            }
            lemma_lex_atom(t);
            assert(t != seq!['('] && t != seq!['['] && t != seq!['{'] && t != seq![')'] && t
                != seq![']'] && t != seq!['}']);
        },
        RVal::RInt(i) => {
            let n: nat = if i < 0 { (-i) as nat } else { i as nat };
            lemma_read_nat(n, i as int);
            lemma_lex_atom(t);
            assert(t != "nil"@ && t != "true"@ && t != "false"@) by {
                if t == "nil"@ || t == "true"@ || t == "false"@ {
                    assert(t[0] == 'n' || t[0] == 't' || t[0] == 'f');
                }
            }
            assert(t != seq!['('] && t != seq!['['] && t != seq!['{'] && t != seq![')'] && t
                != seq![']'] && t != seq!['}']) by {
                if t.len() == 1 {
                    assert(is_digit(t[0]));
                }
            }
        },
        RVal::RStr(s) => {
            let e = escape(s@);
            assert(t == seq!['"'] + e + seq!['"']);
            assert(t.subrange(1, t.len() as int) =~= e + seq!['"']);
            lemma_scan_escaped(t, 1, s@);
            assert(t.subrange(0, t.len() as int) =~= t);
            assert(tokens_from(t, t.len() as int) == Seq::<Seq<char>>::empty());
            assert(lex(t) =~= seq![t]);
            assert(t.subrange(1, t.len() - 1) =~= e);
            lemma_unescape_escape(s@);
            assert(t != "nil"@ && t != "true"@ && t != "false"@) by {
                if t == "nil"@ || t == "true"@ || t == "false"@ {
                    assert(t[0] == 'n' || t[0] == 't' || t[0] == 'f');
                }
            }
            assert(!is_digit(t[0]));
            assert(!is_int_literal(t));
            lemma_first_dot_after(t, 1);
            assert(t[0] != '.');
            assert(!is_float_literal(t)) by {
                let k = first_dot(t, 0);
                assert(unsigned_part(t) =~= t);
                if 0 <= k < t.len() && k > 0 {
                    assert(t.subrange(0, k)[0] == t[0]);
                }
            }
            assert(t.len() >= 2);
            assert(t != seq!['('] && t != seq!['['] && t != seq!['{'] && t != seq![')'] && t
                != seq![']'] && t != seq!['}']);
        },
        RVal::RSym(s) => {
            lemma_lex_atom(s@);
            assert(s@ != seq!['('] && s@ != seq!['['] && s@ != seq!['{'] && s@ != seq![')'] && s@
                != seq![']'] && s@ != seq!['}']) by {
                assert(!is_delim(s@[0]));
            }
        },
        _ => {},
    }
}


proof fn lemma_subrange_of<A>(t: Seq<A>, i: int, e: int, a: Seq<A>, j: int, m: int)
    requires
        0 <= i <= e <= t.len(),
        t.subrange(i, e) == a,
        0 <= j <= m <= a.len(),
    ensures
        t.subrange(i + j, i + m) == a.subrange(j, m),
        forall|k: int| j <= k < m ==> #[trigger] t[i + k] == a[k],
{
    assert forall|k: int| j <= k < m implies #[trigger] t[i + k] == a[k] by {
        assert(t.subrange(i, e)[k] == t[i + k]);
    }
    assert forall|k: int| 0 <= k < m - j implies t.subrange(i + j, i + m)[k] == a.subrange(
        j,
        m,
    )[k] by {
        assert(t.subrange(i, e)[j + k] == t[i + j + k]);
    }
    assert(t.subrange(i + j, i + m) =~= a.subrange(j, m));
}

/// Lexing the printed form of a value, where a delimiter or the end follows it.
proof fn lemma_lex_value(t: Seq<char>, i: int, v: RVal)
    requires
        printable(v),
        0 <= i,
        i + show(v).len() <= t.len(),
        t.subrange(i, i + show(v).len()) == show(v),
        i + show(v).len() == t.len() || is_delim(t[i + show(v).len()]),
    ensures
        tokens_from(t, i) == toks(v) + tokens_from(t, i + show(v).len()),
    decreases v,
{
    let e = i + show(v).len();
    let sv = show(v);
    match v {
        RVal::RLst(vs) => {
            let inner = show_seq(vs@);
            assert(sv == seq!['('] + inner + seq![')']);
            lemma_subrange_of(t, i, e, sv, 0, sv.len() as int);
            assert(t[i] == sv[0]);
            assert(t[e - 1] == sv[sv.len() - 1]);
            assert(t.subrange(i, i + 1) =~= seq!['(']);
            lemma_subrange_of(t, i, e, sv, 1, sv.len() - 1);
            assert(sv.subrange(1, sv.len() - 1) =~= inner);
            lemma_lex_seq(t, i + 1, vs@);
            assert(t.subrange(e - 1, e) =~= seq![')']);
            assert(tokens_from(t, e - 1) == seq![seq![')']] + tokens_from(t, e));
            assert(tokens_from(t, i) =~= toks(v) + tokens_from(t, e));
        },
        RVal::RVec(vs) => {
            let inner = show_seq(vs@);
            assert(sv == seq!['['] + inner + seq![']']);
            lemma_subrange_of(t, i, e, sv, 0, sv.len() as int);
            assert(t[i] == sv[0]);
            assert(t[e - 1] == sv[sv.len() - 1]);
            assert(t.subrange(i, i + 1) =~= seq!['[']);
            lemma_subrange_of(t, i, e, sv, 1, sv.len() - 1);
            assert(sv.subrange(1, sv.len() - 1) =~= inner);
            lemma_lex_seq(t, i + 1, vs@);
            assert(t.subrange(e - 1, e) =~= seq![']']);
            assert(tokens_from(t, e - 1) == seq![seq![']']] + tokens_from(t, e));
            assert(tokens_from(t, i) =~= toks(v) + tokens_from(t, e));
        },
        RVal::RStr(st) => {
            lemma_atom_facts(v);
            lemma_subrange_of(t, i, e, sv, 0, sv.len() as int);
            assert(t[i] == sv[0]);
            lemma_subrange_of(t, i, e, sv, 1, sv.len() as int);
            assert(sv.subrange(1, sv.len() as int) =~= escape(st@) + seq!['"']);
            lemma_scan_escaped_at(t, i + 1, st@);
            assert(tokens_from(t, i) =~= toks(v) + tokens_from(t, e));
        },
        _ => {
            lemma_atom_facts(v);
            lemma_subrange_of(t, i, e, sv, 0, sv.len() as int);
            assert(t[i] == sv[0]);
            assert forall|k: int| i + 1 <= k < e implies !is_delim(#[trigger] t[k]) by {
                assert(t[i + (k - i)] == sv[k - i]);
            }
            assert(!is_delim(t[i]));
            lemma_atom_end_at(t, i + 1, e);
            assert(tokens_from(t, i) =~= toks(v) + tokens_from(t, e));
        },
    }
}

/// Lexing the printed forms of a sequence, where a delimiter or the end follows them.
proof fn lemma_lex_seq(t: Seq<char>, i: int, vs: Seq<RVal>)
    requires
        forall|k: int| 0 <= k < vs.len() ==> printable(#[trigger] vs[k]),
        0 <= i,
        i + show_seq(vs).len() <= t.len(),
        t.subrange(i, i + show_seq(vs).len()) == show_seq(vs),
        i + show_seq(vs).len() == t.len() || is_delim(t[i + show_seq(vs).len()]),
    ensures
        tokens_from(t, i) == toks_seq(vs) + tokens_from(t, i + show_seq(vs).len()),
    decreases vs,
{
    let e = i + show_seq(vs).len();
    if vs.len() == 0 {
        assert(toks_seq(vs) + tokens_from(t, e) =~= tokens_from(t, e));
    } else if vs.len() == 1 {
        assert(printable(vs[0]));
        lemma_lex_value(t, i, vs[0]);
        assert(vs.subrange(1, 1) =~= Seq::<RVal>::empty());
        assert(toks_seq(Seq::<RVal>::empty()) == Seq::<Seq<char>>::empty());
        assert(toks_seq(vs) =~= toks(vs[0]));
    } else {
        let v0 = vs[0];
        let rest = vs.subrange(1, vs.len() as int);
        let s0 = show(v0);
        let e0 = i + s0.len();
        let whole = show_seq(vs);
        assert(whole == s0 + seq![' '] + show_seq(rest));
        lemma_subrange_of(t, i, e, whole, 0, s0.len() as int);
        assert(whole.subrange(0, s0.len() as int) =~= s0);
        lemma_subrange_of(t, i, e, whole, 0, whole.len() as int);
        assert(t[e0] == whole[s0.len() as int]);
        assert(printable(v0));
        lemma_lex_value(t, i, v0);
        lemma_subrange_of(t, i, e, whole, (s0.len() + 1) as int, whole.len() as int);
        assert(whole.subrange((s0.len() + 1) as int, whole.len() as int) =~= show_seq(rest));
        assert forall|k: int| 0 <= k < rest.len() implies printable(#[trigger] rest[k]) by {
            assert(rest[k] == vs[k + 1]);
        }
        lemma_lex_seq(t, e0 + 1, rest);
        assert(tokens_from(t, e0) == tokens_from(t, e0 + 1));
        assert(tokens_from(t, i) =~= toks_seq(vs) + tokens_from(t, e));
    }
}

proof fn lemma_toks_first(v: RVal)
    requires
        printable(v),
    ensures
        toks(v).len() >= 1,
        toks(v)[0] != seq![')'] && toks(v)[0] != seq![']'] && toks(v)[0] != seq!['}'],
{
    match v {
        RVal::RLst(_) => {
            assert(toks(v)[0] == seq!['(']);
            assert(seq!['('][0] != seq![')'][0] && seq!['('][0] != seq![']'][0] && seq!['('][0]
                != seq!['}'][0]);
        },
        RVal::RVec(_) => {
            assert(toks(v)[0] == seq!['[']);
            assert(seq!['['][0] != seq![')'][0] && seq!['['][0] != seq![']'][0] && seq!['['][0]
                != seq!['}'][0]);
        },
        _ => {
            lemma_atom_facts(v);
        },
    }
}

/// Reading the tokens of a printed value gives the value back.
proof fn lemma_parse_value(ts: Seq<Seq<char>>, p: int, v: RVal)
    requires
        printable(v),
        0 <= p,
        p + toks(v).len() <= ts.len(),
        ts.subrange(p, p + toks(v).len()) == toks(v),
    ensures
        parse_at(ts, p) == Ok::<(Val, int), Seq<char>>((model(v), p + toks(v).len())),
    decreases v,
{
    let tv = toks(v);
    lemma_subrange_of(ts, p, p + tv.len(), tv, 0, tv.len() as int);
    assert(ts[p] == tv[0]);
    match v {
        RVal::RLst(vs) => {
            let inner = toks_seq(vs@);
            lemma_subrange_of(ts, p, p + tv.len(), tv, 1, (1 + inner.len()) as int);
            assert(tv.subrange(1, (1 + inner.len()) as int) =~= inner);
            assert(ts[p + 1 + inner.len()] == tv[tv.len() - 1]);
            lemma_read_seq(ts, p + 1, ')', Seq::empty(), vs@);
            assert(Seq::<Val>::empty() + models(vs@) =~= models(vs@));
        },
        RVal::RVec(vs) => {
            let inner = toks_seq(vs@);
            lemma_subrange_of(ts, p, p + tv.len(), tv, 1, (1 + inner.len()) as int);
            assert(tv.subrange(1, (1 + inner.len()) as int) =~= inner);
            assert(ts[p + 1 + inner.len()] == tv[tv.len() - 1]);
            lemma_read_seq(ts, p + 1, ']', Seq::empty(), vs@);
            assert(Seq::<Val>::empty() + models(vs@) =~= models(vs@));
        },
        _ => {
            lemma_atom_facts(v);
        },
    }
}

/// Reading the tokens of a sequence of printed values up to the closing bracket.
proof fn lemma_read_seq(ts: Seq<Seq<char>>, q: int, close: char, acc: Seq<Val>, vs: Seq<RVal>)
    requires
        forall|k: int| 0 <= k < vs.len() ==> printable(#[trigger] vs[k]),
        close == ')' || close == ']',
        0 <= q,
        q + toks_seq(vs).len() < ts.len(),
        ts.subrange(q, q + toks_seq(vs).len()) == toks_seq(vs),
        ts[q + toks_seq(vs).len()] == seq![close],
    ensures
        read_rest(ts, q, close, acc) == Ok::<(Val, int), Seq<char>>(
            (closed_val(close, acc + models(vs)), q + toks_seq(vs).len() + 1),
        ),
    decreases vs,
{
    lemma_models(vs);
    if vs.len() == 0 {
        assert(acc + models(vs) =~= acc);
    } else {
        let v0 = vs[0];
        let rest = vs.subrange(1, vs.len() as int);
        let t0 = toks(v0);
        assert(printable(v0));
        lemma_toks_first(v0);
        let all = toks_seq(vs);
        assert(all == t0 + toks_seq(rest));
        lemma_subrange_of(ts, q, q + all.len(), all, 0, t0.len() as int);
        assert(all.subrange(0, t0.len() as int) =~= t0);
        assert(ts[q] == all[0]);
        lemma_parse_value(ts, q, v0);
        lemma_subrange_of(ts, q, q + all.len(), all, t0.len() as int, all.len() as int);
        assert(all.subrange(t0.len() as int, all.len() as int) =~= toks_seq(rest));
        assert forall|k: int| 0 <= k < rest.len() implies printable(#[trigger] rest[k]) by {
            assert(rest[k] == vs[k + 1]);
        }
        lemma_read_seq(ts, q + t0.len(), close, acc.push(model(v0)), rest);
        lemma_models(rest);
        assert(acc.push(model(v0)) + models(rest) =~= acc + models(vs));
    }
}

/// Printing a value that reading can produce (`nil`, booleans, integers, strings,
/// symbols that read as themselves, and lists and vectors of these) and reading the text
/// back gives the same value, having taken all of the tokens.
pub proof fn law_print_read(v: RVal)
    requires
        printable(v),
    ensures
        lex(show(v)) == toks(v),
        parse_at(lex(show(v)), 0) == Ok::<(Val, int), Seq<char>>((model(v), toks(v).len() as int)),
{
    let t = show(v);
    assert(t.subrange(0, t.len() as int) =~= t);
    lemma_lex_value(t, 0, v);
    assert(tokens_from(t, t.len() as int) == Seq::<Seq<char>>::empty());
    assert(toks(v) + Seq::<Seq<char>>::empty() =~= toks(v));
    let ts = toks(v);
    assert(ts.subrange(0, ts.len() as int) =~= ts);
    lemma_parse_value(ts, 0, v);
}

} // verus!
