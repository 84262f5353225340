use std::cmp::Ordering;
use std::sync::Arc;
use vstd::prelude::*;

verus! {

/// Native operations that the environment binds to symbols.
#[derive(Clone, Copy, Debug, PartialEq, Eq, Structural)]
pub enum Builtin {
    Add,
    Sub,
    Mul,
    Div,
    Rem,
    BitAnd,
    BitOr,
    BitXor,
    Shl,
    Shr,
    BitNot,
    Floor,
    Not,
    And,
    Or,
    Eq,
    Ne,
    Lt,
    Le,
    Gt,
    Ge,
    Cons,
    Cond,
    If,
    For,
    While,
    Read,
    Write,
    Load,
}

/// A user-defined function: a parameter list (a list of symbols) and a body.
#[derive(Clone, Debug)]
pub struct RLambda {
    pub params: RVal,
    pub body: RVal,
}

/// A value of the language. Compound payloads are shared and never mutated.
#[derive(Clone, Debug)]
pub enum RVal {
    RErr(String),
    RStr(String),
    RSym(String),
    RNil,
    RBool(bool),
    RInt(i64),
    RLst(Arc<Vec<RVal>>),
    RVec(Arc<Vec<RVal>>),
    /// Keys and values alternate: `k0 v0 k1 v1 ...`. A map is well formed when its keys
    /// are distinct (`keys_distinct`), as every map that `make_map` builds is; maps that
    /// are not are equal to no map.
    RMap(Arc<Vec<RVal>>),
    RBfn(Builtin),
    RLfn(Arc<RLambda>),
}

/// Relies on Arc::clone: the copy points at the same payload.
#[verifier::external_body]
pub(crate) fn share<T>(a: &Arc<T>) -> (r: Arc<T>)
    ensures
        r == *a,
{
    Arc::clone(a)
}

/// Relies on str::chars collected into a Vec: the characters in order.
#[verifier::external_body]
pub fn chars_of(s: &str) -> (r: Vec<char>)
    ensures
        r@ == s@,
{
    s.chars().collect()
}

/// Relies on collecting chars into a String: the same characters in order.
#[verifier::external_body]
pub fn string_of(v: &Vec<char>) -> (r: String)
    ensures
        r@ == v@,
{
    v.iter().collect()
}

pub fn append(out: &mut Vec<char>, s: &Vec<char>)
    ensures
        final(out)@ == old(out)@ + s@,
{
    let mut i: usize = 0;
    while i < s.len()
        invariant
            i <= s@.len(),
            out@ == old(out)@ + s@.subrange(0, i as int),
        decreases s@.len() - i,
    {
        out.push(s[i]);
        i = i + 1;
        assert(s@.subrange(0, i as int) == s@.subrange(0, i - 1).push(s@[i - 1]));
    }
    assert(s@.subrange(0, s@.len() as int) == s@);
}

/// A `String` holding the characters of `s`.
pub fn text(s: &str) -> (r: String)
    ensures
        r@ == s@,
{
    s.to_owned()
}

pub fn append_str(out: &mut Vec<char>, s: &str)
    ensures
        final(out)@ == old(out)@ + s@,
{
    let v = chars_of(s);
    append(out, &v);
}

/// Equality of map keys: same hashable variant and same payload.
pub open spec fn key_eq(a: RVal, b: RVal) -> bool {
    match (a, b) {
        (RVal::RErr(x), RVal::RErr(y)) => x@ == y@,
        (RVal::RStr(x), RVal::RStr(y)) => x@ == y@,
        (RVal::RSym(x), RVal::RSym(y)) => x@ == y@,
        (RVal::RBool(x), RVal::RBool(y)) => x == y,
        (RVal::RInt(x), RVal::RInt(y)) => x == y,
        _ => false,
    }
}

/// Index of the first key of the flat map `kvs` equal to `k` at or after `j`, or -1.
pub open spec fn find_key_from(kvs: Seq<RVal>, k: RVal, j: int) -> int
    decreases kvs.len() - j,
{
    if j < 0 || j + 1 >= kvs.len() {
        -1
    } else if key_eq(kvs[j], k) {
        j
    } else {
        find_key_from(kvs, k, j + 2)
    }
}

/// Index of the first key of the flat map `kvs` equal to `k`, or -1.
pub open spec fn find_key(kvs: Seq<RVal>, k: RVal) -> int {
    find_key_from(kvs, k, 0)
}

/// Structural equality of the language: same variant and equal payloads; maps are equal
/// when they have the same size and every key of one is bound to an equal value in the other.
pub open spec fn val_eq(a: RVal, b: RVal) -> bool
    decreases a,
{
    match (a, b) {
        (RVal::RErr(x), RVal::RErr(y)) => x@ == y@,
        (RVal::RStr(x), RVal::RStr(y)) => x@ == y@,
        (RVal::RSym(x), RVal::RSym(y)) => x@ == y@,
        (RVal::RNil, RVal::RNil) => true,
        (RVal::RBool(x), RVal::RBool(y)) => x == y,
        (RVal::RInt(x), RVal::RInt(y)) => x == y,
        (RVal::RLst(xs), RVal::RLst(ys)) => xs@.len() == ys@.len() && forall|i: int|
            0 <= i < xs@.len() ==> val_eq(#[trigger] xs@[i], ys@[i]),
        (RVal::RVec(xs), RVal::RVec(ys)) => xs@.len() == ys@.len() && forall|i: int|
            0 <= i < xs@.len() ==> val_eq(#[trigger] xs@[i], ys@[i]),
        (RVal::RMap(xs), RVal::RMap(ys)) => xs@.len() == ys@.len() && keys_distinct(xs@)
            && keys_distinct(ys@) && forall|i: int|
            0 <= i < xs@.len() / 2 ==> find_key(ys@, #[trigger] xs@[2 * i]) >= 0 && val_eq(
                xs@[2 * i + 1],
                ys@[find_key(ys@, xs@[2 * i]) + 1],
            ),
        _ => false,
    }
}

/// No two keys of the flat map `kvs` are equal.
pub open spec fn keys_distinct(kvs: Seq<RVal>) -> bool {
    forall|a: int, b: int|
        0 <= a < b < kvs.len() / 2 ==> !key_eq(#[trigger] kvs[2 * a], #[trigger] kvs[2 * b])
}

fn keys_distinct_exec(kvs: &Vec<RVal>) -> (r: bool)
    ensures
        r == keys_distinct(kvs@),
{
    let len = kvs.len();
    let n = len / 2;
    let mut a: usize = 0;
    while a < n
        invariant
            len == kvs@.len(),
            n == kvs@.len() / 2,
            a <= n,
            forall|x: int, y: int|
                0 <= x < a && x < y < n ==> !key_eq(#[trigger] kvs@[2 * x], #[trigger] kvs@[2 * y]),
        decreases n - a,
    {
        let mut b: usize = a + 1;
        while b < n
            invariant
                len == kvs@.len(),
                n == kvs@.len() / 2,
                a < n,
                a + 1 <= b <= n,
                forall|x: int, y: int|
                    0 <= x < a && x < y < n ==> !key_eq(#[trigger] kvs@[2 * x], #[trigger] kvs@[2 * y]),
                forall|y: int| a < y < b ==> !key_eq(kvs@[2 * a as int], #[trigger] kvs@[2 * y]),
            decreases n - b,
        {
            if key_equals(&kvs[2 * a], &kvs[2 * b]) {
                return false;
            }
            b = b + 1;
        }
        a = a + 1;
    }
    true
}

// ---------------------------------------------------------------- display

pub open spec fn digit_char(d: int) -> char {
    ((d + 48) as u8) as char
}

/// Decimal digits of a natural number.
pub open spec fn nat_text(n: nat) -> Seq<char>
    decreases n,
{
    if n < 10 {
        seq![digit_char(n as int)]
    } else {
        nat_text(n / 10).push(digit_char((n % 10) as int))
    }
}

/// Decimal form of an integer, with a leading `-` when negative.
pub open spec fn int_text(i: int) -> Seq<char> {
    if i < 0 {
        seq!['-'] + nat_text((-i) as nat)
    } else {
        nat_text(i as nat)
    }
}

/// A string with `\`, `"` and newline written as `\\`, `\"` and `\n`.
pub open spec fn escape(s: Seq<char>) -> Seq<char>
    decreases s.len(),
{
    if s.len() == 0 {
        s
    } else {
        escape(s.drop_last()) + escape_char(s.last())
    }
}

pub open spec fn escape_char(c: char) -> Seq<char> {
    if c == '\\' {
        seq!['\\', '\\']
    } else if c == '"' {
        seq!['\\', '"']
    } else if c == '\n' {
        seq!['\\', 'n']
    } else {
        seq![c]
    }
}

/// Printed form of a value.
pub open spec fn show(v: RVal) -> Seq<char>
    decreases v,
{
    match v {
        RVal::RErr(e) => "(Err: "@ + e@ + ")"@,
        RVal::RStr(s) => seq!['"'] + escape(s@) + seq!['"'],
        RVal::RSym(s) => s@,
        RVal::RNil => "nil"@,
        RVal::RBool(b) => if b { "true"@ } else { "false"@ },
        RVal::RInt(i) => int_text(i as int),
        RVal::RLst(vs) => seq!['('] + show_seq(vs@) + seq![')'],
        RVal::RVec(vs) => seq!['['] + show_seq(vs@) + seq![']'],
        RVal::RMap(vs) => seq!['{'] + show_seq(vs@) + seq!['}'],
        RVal::RBfn(_) => "Builtin-Fn"@,
        RVal::RLfn(l) => "(Fn "@ + show(l.params) + seq![' '] + show(l.body) + seq![')'],
    }
}

/// Printed forms of a sequence of values, separated by single spaces.
pub open spec fn show_seq(vs: Seq<RVal>) -> Seq<char>
    decreases vs,
{
    if vs.len() == 0 {
        Seq::empty()
    } else if vs.len() == 1 {
        show(vs[0])
    } else {
        show(vs[0]) + seq![' '] + show_seq(vs.subrange(1, vs.len() as int))
    }
}

/// Type tag of a value, as error messages print it.
pub open spec fn tag(v: RVal) -> Seq<char>
    decreases v,
{
    match v {
        RVal::RErr(_) => show(v),
        RVal::RStr(_) => "Str"@,
        RVal::RSym(_) => "Sym"@,
        RVal::RNil => "Nil"@,
        RVal::RBool(_) => "Bool"@,
        RVal::RInt(_) => "Int"@,
        RVal::RLst(vs) => seq!['('] + tag_seq(vs@) + seq![')'],
        RVal::RVec(vs) => seq!['['] + tag_seq(vs@) + seq![']'],
        RVal::RMap(vs) => seq!['{'] + tag_seq(vs@) + seq!['}'],
        RVal::RBfn(_) => "Builtin-Fn"@,
        RVal::RLfn(_) => "Fn"@,
    }
}

/// Type tags of a sequence of values, separated by single spaces.
pub open spec fn tag_seq(vs: Seq<RVal>) -> Seq<char>
    decreases vs,
{
    if vs.len() == 0 {
        Seq::empty()
    } else if vs.len() == 1 {
        tag(vs[0])
    } else {
        tag(vs[0]) + seq![' '] + tag_seq(vs.subrange(1, vs.len() as int))
    }
}

pub fn push_nat(out: &mut Vec<char>, n: u64)
    ensures
        final(out)@ == old(out)@ + nat_text(n as nat),
    decreases n,
{
    if n >= 10 {
        push_nat(out, n / 10);
    }
    let d: u8 = (n % 10) as u8;
    out.push((d + 48) as char);
    assert(digit_char((n % 10) as int) == (d + 48) as char);
}

pub fn push_int(out: &mut Vec<char>, i: i64)
    ensures
        final(out)@ == old(out)@ + int_text(i as int),
{
    if i < 0 {
        out.push('-');
        let m: u64 = (0i128 - (i as i128)) as u64;
        push_nat(out, m);
        assert(final(out)@ =~= old(out)@ + int_text(i as int));
    } else {
        push_nat(out, i as u64);
    }
}

fn push_escaped(out: &mut Vec<char>, s: &String)
    ensures
        final(out)@ == old(out)@ + escape(s@),
{
    let cs = chars_of(s.as_str());
    let mut i: usize = 0;
    while i < cs.len()
        invariant
            i <= cs@.len(),
            cs@ == s@,
            out@ == old(out)@ + escape(cs@.subrange(0, i as int)),
        decreases cs@.len() - i,
    {
        let c = cs[i];
        let ghost before = out@;
        if c == '\\' {
            out.push('\\');
            out.push('\\');
        } else if c == '"' {
            out.push('\\');
            out.push('"');
        } else if c == '\n' {
            out.push('\\');
            out.push('n');
        } else {
            out.push(c);
        }
        assert(out@ =~= before + escape_char(c));
        let ghost pre = cs@.subrange(0, i as int);
        i = i + 1;
        assert(cs@.subrange(0, i as int).drop_last() =~= pre);
    }
    assert(cs@.subrange(0, cs@.len() as int) =~= s@);
}

impl RVal {
    /// A copy of the value; compound payloads are shared, not copied.
    pub fn dup(&self) -> (r: RVal)
        ensures
            r == *self,
    {
        match self {
            RVal::RErr(s) => RVal::RErr(s.clone()),
            RVal::RStr(s) => RVal::RStr(s.clone()),
            RVal::RSym(s) => RVal::RSym(s.clone()),
            RVal::RNil => RVal::RNil,
            RVal::RBool(b) => RVal::RBool(*b),
            RVal::RInt(i) => RVal::RInt(*i),
            RVal::RLst(v) => RVal::RLst(share(v)),
            RVal::RVec(v) => RVal::RVec(share(v)),
            RVal::RMap(v) => RVal::RMap(share(v)),
            RVal::RBfn(b) => RVal::RBfn(*b),
            RVal::RLfn(l) => RVal::RLfn(share(l)),
        }
    }

    /// Number of elements of a list or vector; 1 for any other value.
    pub fn len(&self) -> (r: usize)
        ensures
            r == match *self {
                RVal::RLst(vs) => vs@.len(),
                RVal::RVec(vs) => vs@.len(),
                _ => 1,
            },
    {
        match self {
            RVal::RLst(vs) => vs.len(),
            RVal::RVec(vs) => vs.len(),
            _ => 1,
        }
    }

    /// Appends the printed form of the value.
    pub fn write_to(&self, out: &mut Vec<char>)
        ensures
            final(out)@ == old(out)@ + show(*self),
        decreases self,
    {
        match self {
            RVal::RErr(e) => {
                append_str(out, "(Err: ");
                append_str(out, e.as_str());
                append_str(out, ")");
            },
            RVal::RStr(s) => {
                out.push('"');
                push_escaped(out, s);
                out.push('"');
            },
            RVal::RSym(s) => append_str(out, s.as_str()),
            RVal::RNil => append_str(out, "nil"),
            RVal::RBool(b) => {
                if *b {
                    append_str(out, "true");
                } else {
                    append_str(out, "false");
                }
            },
            RVal::RInt(i) => push_int(out, *i),
            RVal::RLst(vs) => {
                out.push('(');
                write_seq(vs, out);
                out.push(')');
            },
            RVal::RVec(vs) => {
                out.push('[');
                write_seq(vs, out);
                out.push(']');
            },
            RVal::RMap(vs) => {
                out.push('{');
                write_seq(vs, out);
                out.push('}');
            },
            RVal::RBfn(_) => append_str(out, "Builtin-Fn"),
            RVal::RLfn(l) => {
                append_str(out, "(Fn ");
                l.params.write_to(out);
                out.push(' ');
                l.body.write_to(out);
                out.push(')');
            },
        }
        assert(final(out)@ =~= old(out)@ + show(*self));
    }

    /// Appends the type tag of the value.
    pub fn write_tag(&self, out: &mut Vec<char>)
        ensures
            final(out)@ == old(out)@ + tag(*self),
        decreases self,
    {
        match self {
            RVal::RErr(_) => self.write_to(out),
            RVal::RStr(_) => append_str(out, "Str"),
            RVal::RSym(_) => append_str(out, "Sym"),
            RVal::RNil => append_str(out, "Nil"),
            RVal::RBool(_) => append_str(out, "Bool"),
            RVal::RInt(_) => append_str(out, "Int"),
            RVal::RLst(vs) => {
                out.push('(');
                write_tags(vs, out);
                out.push(')');
            },
            RVal::RVec(vs) => {
                out.push('[');
                write_tags(vs, out);
                out.push(']');
            },
            RVal::RMap(vs) => {
                out.push('{');
                write_tags(vs, out);
                out.push('}');
            },
            RVal::RBfn(_) => append_str(out, "Builtin-Fn"),
            RVal::RLfn(_) => append_str(out, "Fn"),
        }
        assert(final(out)@ =~= old(out)@ + tag(*self));
    }

    /// The type tag of the value, as error messages print it.
    pub fn variant(&self) -> (r: String)
        ensures
            r@ == tag(*self),
    {
        let mut out: Vec<char> = Vec::new();
        self.write_tag(&mut out);
        assert(out@ =~= tag(*self));
        string_of(&out)
    }

    /// Equality of the language.
    pub fn equals(&self, other: &RVal) -> (r: bool)
        ensures
            r == val_eq(*self, *other),
        decreases self,
    {
        match (self, other) {
            (RVal::RErr(x), RVal::RErr(y)) => *x == *y,
            (RVal::RStr(x), RVal::RStr(y)) => *x == *y,
            (RVal::RSym(x), RVal::RSym(y)) => *x == *y,
            (RVal::RNil, RVal::RNil) => true,
            (RVal::RBool(x), RVal::RBool(y)) => *x == *y,
            (RVal::RInt(x), RVal::RInt(y)) => *x == *y,
            (RVal::RLst(xs), RVal::RLst(ys)) => seq_equals(xs, ys),
            (RVal::RVec(xs), RVal::RVec(ys)) => seq_equals(xs, ys),
            (RVal::RMap(xs), RVal::RMap(ys)) => {
                keys_distinct_exec(xs) && keys_distinct_exec(ys) && map_equals(xs, ys)
            },
            _ => false,
        }
    }

    /// Ordering of the language.
    pub fn compare(&self, other: &RVal) -> (r: Option<Ordering>)
        ensures
            r == val_cmp(*self, *other),
        decreases self,
    {
        match (self, other) {
            (RVal::RStr(x), RVal::RStr(y)) => Some(chars_compare(x, y)),
            (RVal::RInt(x), RVal::RInt(y)) => {
                if *x < *y {
                    Some(Ordering::Less)
                } else if *x > *y {
                    Some(Ordering::Greater)
                } else {
                    Some(Ordering::Equal)
                }
            },
            (RVal::RLst(xs), RVal::RLst(ys)) => seq_compare(xs, ys),
            (RVal::RVec(xs), RVal::RVec(ys)) => seq_compare(xs, ys),
            _ => None,
        }
    }

    /// The printed form of the value.
    pub fn display(&self) -> (r: String)
        ensures
            r@ == show(*self),
    {
        let mut out: Vec<char> = Vec::new();
        self.write_to(&mut out);
        assert(out@ =~= show(*self));
        string_of(&out)
    }
}

/// Lexicographic order of character sequences.
pub open spec fn chars_cmp(a: Seq<char>, b: Seq<char>) -> Ordering
    decreases a.len(),
{
    if a.len() == 0 && b.len() == 0 {
        Ordering::Equal
    } else if a.len() == 0 {
        Ordering::Less
    } else if b.len() == 0 {
        Ordering::Greater
    } else if (a[0] as u32) < (b[0] as u32) {
        Ordering::Less
    } else if (a[0] as u32) > (b[0] as u32) {
        Ordering::Greater
    } else {
        chars_cmp(a.drop_first(), b.drop_first())
    }
}

pub open spec fn int_cmp(a: int, b: int) -> Ordering {
    if a < b {
        Ordering::Less
    } else if a > b {
        Ordering::Greater
    } else {
        Ordering::Equal
    }
}

/// Ordering of the language: strings, integers, and lists or vectors of the same kind
/// (lexicographically); `None` for any other pair.
pub open spec fn val_cmp(a: RVal, b: RVal) -> Option<Ordering>
    decreases a,
{
    match (a, b) {
        (RVal::RStr(x), RVal::RStr(y)) => Some(chars_cmp(x@, y@)),
        (RVal::RInt(x), RVal::RInt(y)) => Some(int_cmp(x as int, y as int)),
        (RVal::RLst(xs), RVal::RLst(ys)) => seq_cmp(xs@, ys@),
        (RVal::RVec(xs), RVal::RVec(ys)) => seq_cmp(xs@, ys@),
        _ => None,
    }
}

/// Lexicographic ordering of value sequences; stops at the first pair that is not equal.
pub open spec fn seq_cmp(xs: Seq<RVal>, ys: Seq<RVal>) -> Option<Ordering>
    decreases xs,
{
    if xs.len() == 0 && ys.len() == 0 {
        Some(Ordering::Equal)
    } else if xs.len() == 0 {
        Some(Ordering::Less)
    } else if ys.len() == 0 {
        Some(Ordering::Greater)
    } else {
        match val_cmp(xs[0], ys[0]) {
            Some(Ordering::Equal) => seq_cmp(
                xs.subrange(1, xs.len() as int),
                ys.subrange(1, ys.len() as int),
            ),
            other => other,
        }
    }
}

fn write_seq(vs: &Vec<RVal>, out: &mut Vec<char>)
    ensures
        final(out)@ == old(out)@ + show_seq(vs@),
    decreases vs,
{
    let n = vs.len();
    if n == 0 {
        assert(final(out)@ =~= old(out)@ + show_seq(vs@));
        return;
    }
    let mut i: usize = 0;
    while i < n
        invariant
            0 <= i <= n,
            n == vs@.len(),
            n > 0,
            i > 0 ==> out@ == old(out)@ + show_seq(vs@.subrange(0, i as int)),
            i == 0 ==> out@ == old(out)@,
        decreases n - i,
    {
        if i > 0 {
            out.push(' ');
        }
        assert(decreases_to!(*vs => vs@[i as int]));
        vs[i].write_to(out);
        proof {
            lemma_show_seq_snoc(vs@.subrange(0, i + 1));
            assert(vs@.subrange(0, i + 1).drop_last() =~= vs@.subrange(0, i as int));
        }
        i = i + 1;
    }
    assert(vs@.subrange(0, n as int) =~= vs@);
}

pub fn write_tags(vs: &Vec<RVal>, out: &mut Vec<char>)
    ensures
        final(out)@ == old(out)@ + tag_seq(vs@),
    decreases vs,
{
    let n = vs.len();
    if n == 0 {
        assert(final(out)@ =~= old(out)@ + tag_seq(vs@));
        return;
    }
    let mut i: usize = 0;
    while i < n
        invariant
            0 <= i <= n,
            n == vs@.len(),
            n > 0,
            i > 0 ==> out@ == old(out)@ + tag_seq(vs@.subrange(0, i as int)),
            i == 0 ==> out@ == old(out)@,
        decreases n - i,
    {
        if i > 0 {
            out.push(' ');
        }
        assert(decreases_to!(*vs => vs@[i as int]));
        vs[i].write_tag(out);
        proof {
            lemma_tag_seq_snoc(vs@.subrange(0, i + 1));
            assert(vs@.subrange(0, i + 1).drop_last() =~= vs@.subrange(0, i as int));
        }
        i = i + 1;
    }
    assert(vs@.subrange(0, n as int) =~= vs@);
}

/// Tagging a sequence one element longer adds a space and the new element's tag.
pub proof fn lemma_tag_seq_snoc(vs: Seq<RVal>)
    requires
        vs.len() > 0,
    ensures
        tag_seq(vs) == if vs.len() == 1 {
            tag(vs.last())
        } else {
            tag_seq(vs.drop_last()) + seq![' '] + tag(vs.last())
        },
    decreases vs.len(),
{
    if vs.len() > 2 {
        let t = vs.subrange(1, vs.len() as int);
        lemma_tag_seq_snoc(t);
        let d = vs.drop_last();
        assert(t.drop_last() =~= d.subrange(1, d.len() as int));
        assert(t.last() == vs.last());
        assert(d[0] == vs[0]);
        assert(tag_seq(d) == tag(vs[0]) + seq![' '] + tag_seq(t.drop_last()));
        assert(tag_seq(vs) == tag(vs[0]) + seq![' '] + tag_seq(t));
        assert(tag_seq(vs) =~= tag_seq(d) + seq![' '] + tag(vs.last()));
    } else if vs.len() == 2 {
        assert(vs.drop_last() =~= seq![vs[0]]);
        assert(tag_seq(vs.subrange(1, 2)) == tag(vs[1]));
        assert(tag_seq(vs.drop_last()) == tag(vs[0]));
    } else {
        assert(vs.last() == vs[0]);
    }
}

fn seq_equals(xs: &Vec<RVal>, ys: &Vec<RVal>) -> (r: bool)
    ensures
        r == (xs@.len() == ys@.len() && forall|i: int|
            0 <= i < xs@.len() ==> val_eq(#[trigger] xs@[i], ys@[i])),
    decreases xs,
{
    if xs.len() != ys.len() {
        return false;
    }
    let mut i: usize = 0;
    while i < xs.len()
        invariant
            i <= xs@.len(),
            xs@.len() == ys@.len(),
            forall|j: int| 0 <= j < i ==> val_eq(#[trigger] xs@[j], ys@[j]),
        decreases xs@.len() - i,
    {
        assert(decreases_to!(*xs => xs@[i as int]));
        if !xs[i].equals(&ys[i]) {
            return false;
        }
        i = i + 1;
    }
    true
}

fn key_equals(a: &RVal, b: &RVal) -> (r: bool)
    ensures
        r == key_eq(*a, *b),
{
    match (a, b) {
        (RVal::RErr(x), RVal::RErr(y)) => *x == *y,
        (RVal::RStr(x), RVal::RStr(y)) => *x == *y,
        (RVal::RSym(x), RVal::RSym(y)) => *x == *y,
        (RVal::RBool(x), RVal::RBool(y)) => *x == *y,
        (RVal::RInt(x), RVal::RInt(y)) => *x == *y,
        _ => false,
    }
}

/// Position of the first key of the flat map `kvs` equal to `k`.
pub fn find_key_index(kvs: &Vec<RVal>, k: &RVal) -> (r: Option<usize>)
    ensures
        r matches Some(j) ==> j as int == find_key(kvs@, *k) && j + 1 < kvs@.len() && j % 2 == 0,
        r is None ==> find_key(kvs@, *k) == -1,
{
    let mut j: usize = 0;
    while j + 1 < kvs.len()
        invariant
            j % 2 == 0,
            j <= kvs@.len() + 1,
            find_key(kvs@, *k) == find_key_from(kvs@, *k, j as int),
        decreases kvs@.len() + 2 - j,
    {
        if key_equals(&kvs[j], k) {
            return Some(j);
        }
        j = j + 2;
    }
    None
}

pub proof fn lemma_find_key_bounds(kvs: Seq<RVal>, k: RVal, j: int)
    requires
        j >= 0,
        j % 2 == 0,
    ensures
        find_key_from(kvs, k, j) >= 0 || find_key_from(kvs, k, j) == -1,
        find_key_from(kvs, k, j) >= 0 ==> find_key_from(kvs, k, j) + 1 < kvs.len()
            && find_key_from(kvs, k, j) % 2 == 0,
    decreases kvs.len() - j,
{
    if j + 1 < kvs.len() && !key_eq(kvs[j], k) {
        lemma_find_key_bounds(kvs, k, j + 2);
    }
}

fn map_equals(xs: &Vec<RVal>, ys: &Vec<RVal>) -> (r: bool)
    ensures
        r == (xs@.len() == ys@.len() && forall|i: int|
            0 <= i < xs@.len() / 2 ==> find_key(ys@, #[trigger] xs@[2 * i]) >= 0 && val_eq(
                xs@[2 * i + 1],
                ys@[find_key(ys@, xs@[2 * i]) + 1],
            )),
    decreases xs,
{
    if xs.len() != ys.len() {
        return false;
    }
    let mut i: usize = 0;
    while i < xs.len() / 2
        invariant
            i <= xs@.len() / 2,
            xs@.len() == ys@.len(),
            forall|m: int|
                0 <= m < i ==> find_key(ys@, #[trigger] xs@[2 * m]) >= 0 && val_eq(
                    xs@[2 * m + 1],
                    ys@[find_key(ys@, xs@[2 * m]) + 1],
                ),
        decreases xs@.len() / 2 - i,
    {
        proof {
            lemma_find_key_bounds(ys@, xs@[2 * i as int], 0);
        }
        match find_key_index(ys, &xs[2 * i]) {
            None => {
                return false;
            },
            Some(j) => {
                assert(decreases_to!(*xs => xs@[2 * i + 1]));
                if !xs[2 * i + 1].equals(&ys[j + 1]) {
                    return false;
                }
            },
        }
        i = i + 1;
    }
    true
}

fn chars_compare(x: &String, y: &String) -> (r: Ordering)
    ensures
        r == chars_cmp(x@, y@),
{
    let a = chars_of(x.as_str());
    let b = chars_of(y.as_str());
    let mut i: usize = 0;
    assert(a@.subrange(0, a@.len() as int) =~= a@);
    assert(b@.subrange(0, b@.len() as int) =~= b@);
    while i < a.len() && i < b.len()
        invariant
            i <= a@.len(),
            i <= b@.len(),
            a@ == x@,
            b@ == y@,
            chars_cmp(x@, y@) == chars_cmp(a@.subrange(i as int, a@.len() as int), b@.subrange(i as int, b@.len() as int)),
        decreases a@.len() - i,
    {
        let ghost sa = a@.subrange(i as int, a@.len() as int);
        let ghost sb = b@.subrange(i as int, b@.len() as int);
        if (a[i] as u32) < (b[i] as u32) {
            return Ordering::Less;
        }
        if (a[i] as u32) > (b[i] as u32) {
            return Ordering::Greater;
        }
        assert(sa.drop_first() =~= a@.subrange(i + 1, a@.len() as int));
        assert(sb.drop_first() =~= b@.subrange(i + 1, b@.len() as int));
        i = i + 1;
    }
    if i < a.len() {
        Ordering::Greater
    } else if i < b.len() {
        Ordering::Less
    } else {
        Ordering::Equal
    }
}

fn seq_compare(xs: &Vec<RVal>, ys: &Vec<RVal>) -> (r: Option<Ordering>)
    ensures
        r == seq_cmp(xs@, ys@),
    decreases xs,
{
    let mut i: usize = 0;
    assert(xs@.subrange(0, xs@.len() as int) =~= xs@);
    assert(ys@.subrange(0, ys@.len() as int) =~= ys@);
    while i < xs.len() && i < ys.len()
        invariant
            i <= xs@.len(),
            i <= ys@.len(),
            seq_cmp(xs@, ys@) == seq_cmp(xs@.subrange(i as int, xs@.len() as int), ys@.subrange(i as int, ys@.len() as int)),
        decreases xs@.len() - i,
    {
        let ghost sa = xs@.subrange(i as int, xs@.len() as int);
        let ghost sb = ys@.subrange(i as int, ys@.len() as int);
        assert(decreases_to!(*xs => xs@[i as int]));
        let c = xs[i].compare(&ys[i]);
        match c {
            Some(Ordering::Equal) => {},
            _ => {
                return c;
            },
        }
        assert(sa.subrange(1, sa.len() as int) =~= xs@.subrange(i + 1, xs@.len() as int));
        assert(sb.subrange(1, sb.len() as int) =~= ys@.subrange(i + 1, ys@.len() as int));
        i = i + 1;
    }
    if i < xs.len() {
        Some(Ordering::Greater)
    } else if i < ys.len() {
        Some(Ordering::Less)
    } else {
        Some(Ordering::Equal)
    }
}

/// Printing a sequence one element longer adds a space and the new element.
pub proof fn lemma_show_seq_snoc(vs: Seq<RVal>)
    requires
        vs.len() > 0,
    ensures
        show_seq(vs) == if vs.len() == 1 {
            show(vs.last())
        } else {
            show_seq(vs.drop_last()) + seq![' '] + show(vs.last())
        },
    decreases vs.len(),
{
    if vs.len() > 2 {
        let t = vs.subrange(1, vs.len() as int);
        lemma_show_seq_snoc(t);
        let d = vs.drop_last();
        assert(t.drop_last() =~= d.subrange(1, d.len() as int));
        assert(t.last() == vs.last());
        assert(d[0] == vs[0]);
        assert(show_seq(d) == show(vs[0]) + seq![' '] + show_seq(t.drop_last()));
        assert(show_seq(vs) == show(vs[0]) + seq![' '] + show_seq(t));
        assert(show_seq(vs) =~= show_seq(d) + seq![' '] + show(vs.last()));
    } else if vs.len() == 2 {
        assert(vs.subrange(1, 2) =~= seq![vs[1]]);
        assert(vs.drop_last() =~= seq![vs[0]]);
        assert(show_seq(vs.subrange(1, 2)) == show(vs[1]));
        assert(show_seq(vs.drop_last()) == show(vs[0]));
    } else {
        assert(vs.last() == vs[0]);
    }
}

} // verus!
