use fnv::FnvHashMap;
use fnv::FnvHasher;
use std::hash::BuildHasherDefault;
use vstd::prelude::*;
use crate::value::{RVal, Builtin, text};

verus! {

/// fnv's hasher, carried opaquely inside the binding table's type.
#[verifier::external_type_specification]
#[verifier::external_body]
pub struct ExFnvHasher(FnvHasher);

/// std's `BuildHasherDefault`, with which fnv builds its hashers; carried opaquely.
#[verifier::external_type_specification]
#[verifier::external_body]
#[verifier::reject_recursive_types(H)]
pub struct ExBuildHasherDefault<H>(BuildHasherDefault<H>);

/// What a binding table holds: each name, as characters, to its value.
pub uninterp spec fn bindings(m: FnvHashMap<String, RVal>) -> Map<Seq<char>, RVal>;

pub open spec fn no_bindings() -> Map<Seq<char>, RVal> {
    Map::empty()
}

/// Relies on HashMap::default with fnv's hasher: the table starts empty.
#[verifier::external_body]
fn table_new() -> (r: FnvHashMap<String, RVal>)
    ensures
        bindings(r) == no_bindings(),
{
    FnvHashMap::default()
}

/// Relies on HashMap::insert: the key is bound to the value, replacing any earlier binding.
#[verifier::external_body]
fn table_insert(m: &mut FnvHashMap<String, RVal>, k: String, v: RVal)
    ensures
        bindings(*final(m)) == bindings(*old(m)).insert(k@, v),
{
    m.insert(k, v);
}

/// Relies on HashMap::get: the value bound to the key, if any.
#[verifier::external_body]
fn table_get<'a>(m: &'a FnvHashMap<String, RVal>, k: &str) -> (r: Option<&'a RVal>)
    ensures
        match r {
            Some(v) => bindings(*m).contains_key(k@) && bindings(*m)[k@] == *v,
            None => !bindings(*m).contains_key(k@),
        },
{
    m.get(k)
}

/// Relies on HashMap::remove: the key is no longer bound.
#[verifier::external_body]
fn table_remove(m: &mut FnvHashMap<String, RVal>, k: &str)
    ensures
        bindings(*final(m)) == bindings(*old(m)).remove(k@),
{
    m.remove(k);
}

/// Relies on HashMap::clone: a table with the same bindings (values are copied with
/// their derived `Clone`, which copies strings and shares compound payloads).
#[verifier::external_body]
fn table_clone(m: &FnvHashMap<String, RVal>) -> (r: FnvHashMap<String, RVal>)
    ensures
        bindings(r) == bindings(*m),
{
    m.clone()
}

/// The environment: a flat table of bindings, plus the lines that `write` produced, the
/// lines that `read` will consume, and the source texts that `load` can find by path.
pub struct REnv {
    pub symbols: FnvHashMap<String, RVal>,
    pub output: Vec<String>,
    pub input: Vec<String>,
    pub files: Vec<(String, String)>,
}

impl REnv {
    pub open spec fn binds(&self) -> Map<Seq<char>, RVal> {
        bindings(self.symbols)
    }

    /// Whether `self` differs from `other` at most in its bindings.
    pub open spec fn same_io(&self, other: &REnv) -> bool {
        self.output == other.output && self.input == other.input && self.files == other.files
    }

    /// A fresh environment holding every builtin under its name.
    pub fn new() -> (r: REnv)
        ensures
            r.binds() == builtin_bindings(),
            r.output@.len() == 0,
            r.input@.len() == 0,
            r.files@.len() == 0,
    {
        let mut env = REnv {
            symbols: table_new(),
            output: Vec::new(),
            input: Vec::new(),
            files: Vec::new(),
        };
        load_arithmetic(&mut env);
        load_logic(&mut env);
        load_io(&mut env);
        load_constructs(&mut env);
        env
    }

    /// Binds `key` to `val`, replacing any earlier binding; returns `val`.
    pub fn def(&mut self, key: &str, val: RVal) -> (r: RVal)
        ensures
            final(self).binds() == old(self).binds().insert(key@, val),
            final(self).same_io(old(self)),
            r == val,
    {
        let v = val.dup();
        table_insert(&mut self.symbols, text(key), val);
        v
    }

    /// The value bound to `key`, if any.
    pub fn get(&self, key: &str) -> (r: Option<RVal>)
        ensures
            r == (if self.binds().contains_key(key@) {
                Some(self.binds()[key@])
            } else {
                None::<RVal>
            }),
    {
        match table_get(&self.symbols, key) {
            Some(v) => Some(v.dup()),
            None => None,
        }
    }

    /// Puts back a binding captured by `get`: binds it again, or removes the name.
    pub fn restore(&mut self, key: &str, past: Option<RVal>)
        ensures
            final(self).binds() == (match past {
                Some(v) => old(self).binds().insert(key@, v),
                None => old(self).binds().remove(key@),
            }),
            final(self).same_io(old(self)),
    {
        match past {
            Some(v) => {
                table_insert(&mut self.symbols, text(key), v);
            },
            None => {
                table_remove(&mut self.symbols, key);
            },
        }
    }

    /// The value bound to a symbol, or `nil` for anything else.
    pub fn is_function(&self, x: &RVal) -> (r: RVal)
        ensures
            r == (match *x {
                RVal::RSym(s) => if self.binds().contains_key(s@) {
                    self.binds()[s@]
                } else {
                    RVal::RNil
                },
                _ => RVal::RNil,
            }),
    {
        match x {
            RVal::RSym(s) => match self.get(s.as_str()) {
                Some(v) => v,
                None => RVal::RNil,
            },
            _ => RVal::RNil,
        }
    }

    /// Makes `path` loadable with the given source text.
    pub fn add_file(&mut self, path: &str, src: &str)
        ensures
            final(self).files@.len() == old(self).files@.len() + 1,
            final(self).files@.drop_last() == old(self).files@,
            final(self).files@.last().0@ == path@,
            final(self).files@.last().1@ == src@,
            final(self).symbols == old(self).symbols,
            final(self).output == old(self).output,
            final(self).input == old(self).input,
    {
        self.files.push((text(path), text(src)));
        assert(self.files@.drop_last() =~= old(self).files@);
    }

    /// Queues a line for `read`.
    pub fn push_input(&mut self, line: &str)
        ensures
            final(self).input@.len() == old(self).input@.len() + 1,
            final(self).input@.drop_last() == old(self).input@,
            final(self).input@.last()@ == line@,
            final(self).symbols == old(self).symbols,
            final(self).output == old(self).output,
            final(self).files == old(self).files,
    {
        self.input.push(text(line));
        assert(self.input@.drop_last() =~= old(self).input@);
    }

    /// Hands out the lines written so far and clears them.
    pub fn take_output(&mut self) -> (r: Vec<String>)
        ensures
            r == old(self).output,
            final(self).output@.len() == 0,
            final(self).symbols == old(self).symbols,
            final(self).input == old(self).input,
            final(self).files == old(self).files,
    {
        let mut out: Vec<String> = Vec::new();
        std::mem::swap(&mut out, &mut self.output);
        out
    }

    /// A frame for a function call: a copy of the bindings, with nothing written,
    /// to be read or to be loaded.
    pub fn call_frame(&self) -> (r: REnv)
        ensures
            r.binds() == self.binds(),
            r.output@.len() == 0,
            r.input@.len() == 0,
            r.files@.len() == 0,
    {
        REnv {
            symbols: table_clone(&self.symbols),
            output: Vec::new(),
            input: Vec::new(),
            files: Vec::new(),
        }
    }

    /// Exchanges the lines written, the lines to be read and the loadable sources.
    pub fn swap_io(&mut self, other: &mut REnv)
        ensures
            final(self).symbols == old(self).symbols,
            final(other).symbols == old(other).symbols,
            final(self).same_io(old(other)),
            final(other).same_io(old(self)),
    {
        std::mem::swap(&mut self.output, &mut other.output);
        std::mem::swap(&mut self.input, &mut other.input);
        std::mem::swap(&mut self.files, &mut other.files);
    }

    /// The source text registered under `path`, if any.
    pub fn find_file(&self, path: &String) -> (r: Option<String>)
        ensures
            r is Some <==> exists|i: int|
                0 <= i < self.files@.len() && (#[trigger] self.files@[i]).0@ == path@,
            r matches Some(t) ==> first_file(self.files@, path@) >= 0 && t@ == self.files@[first_file(
                self.files@,
                path@,
            )].1@,
            r is None ==> first_file(self.files@, path@) == -1,
    {
        let mut i: usize = 0;
        while i < self.files.len()
            invariant
                i <= self.files@.len(),
                forall|j: int| 0 <= j < i ==> (#[trigger] self.files@[j]).0@ != path@,
                first_file(self.files@, path@) == first_file_from(self.files@, path@, i as int),
            decreases self.files@.len() - i,
        {
            if self.files[i].0 == *path {
                return Some(self.files[i].1.clone());
            }
            i = i + 1;
        }
        None
    }
}

/// Index of the first registered source at or after `i` whose path is `path`, or -1.
pub open spec fn first_file_from(files: Seq<(String, String)>, path: Seq<char>, i: int) -> int
    decreases files.len() - i,
{
    if i < 0 || i >= files.len() {
        -1
    } else if files[i].0@ == path {
        i
    } else {
        first_file_from(files, path, i + 1)
    }
}

/// Index of the first registered source whose path is `path`, or -1.
pub open spec fn first_file(files: Seq<(String, String)>, path: Seq<char>) -> int {
    first_file_from(files, path, 0)
}

pub open spec fn arithmetic_bindings(m: Map<Seq<char>, RVal>) -> Map<Seq<char>, RVal> {
    m.insert("+"@, RVal::RBfn(Builtin::Add)).insert("/"@, RVal::RBfn(Builtin::Div)).insert(
        "*"@,
        RVal::RBfn(Builtin::Mul),
    ).insert("-"@, RVal::RBfn(Builtin::Sub)).insert("%"@, RVal::RBfn(Builtin::Rem)).insert(
        "&"@,
        RVal::RBfn(Builtin::BitAnd),
    ).insert("|"@, RVal::RBfn(Builtin::BitOr)).insert("~"@, RVal::RBfn(Builtin::BitNot)).insert(
        "^"@,
        RVal::RBfn(Builtin::BitXor),
    ).insert("<<"@, RVal::RBfn(Builtin::Shl)).insert(">>"@, RVal::RBfn(Builtin::Shr)).insert(
        "floor"@,
        RVal::RBfn(Builtin::Floor),
    )
}

pub open spec fn logic_bindings(m: Map<Seq<char>, RVal>) -> Map<Seq<char>, RVal> {
    m.insert("not"@, RVal::RBfn(Builtin::Not)).insert("and"@, RVal::RBfn(Builtin::And)).insert(
        "or"@,
        RVal::RBfn(Builtin::Or),
    ).insert("!"@, RVal::RBfn(Builtin::Not)).insert("&&"@, RVal::RBfn(Builtin::And)).insert(
        "||"@,
        RVal::RBfn(Builtin::Or),
    ).insert("="@, RVal::RBfn(Builtin::Eq)).insert("!="@, RVal::RBfn(Builtin::Ne)).insert(
        "<"@,
        RVal::RBfn(Builtin::Lt),
    ).insert("<="@, RVal::RBfn(Builtin::Le)).insert(">"@, RVal::RBfn(Builtin::Gt)).insert(
        ">="@,
        RVal::RBfn(Builtin::Ge),
    )
}

pub open spec fn io_bindings(m: Map<Seq<char>, RVal>) -> Map<Seq<char>, RVal> {
    m.insert("read"@, RVal::RBfn(Builtin::Read)).insert("write"@, RVal::RBfn(Builtin::Write)).insert(
        "load"@,
        RVal::RBfn(Builtin::Load),
    )
}

pub open spec fn construct_bindings(m: Map<Seq<char>, RVal>) -> Map<Seq<char>, RVal> {
    m.insert("cons"@, RVal::RBfn(Builtin::Cons)).insert("cond"@, RVal::RBfn(Builtin::Cond)).insert(
        "if"@,
        RVal::RBfn(Builtin::If),
    ).insert("for"@, RVal::RBfn(Builtin::For)).insert("while"@, RVal::RBfn(Builtin::While))
}

/// The bindings of a fresh environment.
pub open spec fn builtin_bindings() -> Map<Seq<char>, RVal> {
    construct_bindings(io_bindings(logic_bindings(arithmetic_bindings(no_bindings()))))
}

/// Binds the arithmetic and bitwise builtins.
pub fn load_arithmetic(env: &mut REnv)
    ensures
        final(env).binds() == arithmetic_bindings(old(env).binds()),
        final(env).same_io(old(env)),
{
    env.def("+", RVal::RBfn(Builtin::Add));
    env.def("/", RVal::RBfn(Builtin::Div));
    env.def("*", RVal::RBfn(Builtin::Mul));
    env.def("-", RVal::RBfn(Builtin::Sub));
    env.def("%", RVal::RBfn(Builtin::Rem));
    env.def("&", RVal::RBfn(Builtin::BitAnd));
    env.def("|", RVal::RBfn(Builtin::BitOr));
    env.def("~", RVal::RBfn(Builtin::BitNot));
    env.def("^", RVal::RBfn(Builtin::BitXor));
    env.def("<<", RVal::RBfn(Builtin::Shl));
    env.def(">>", RVal::RBfn(Builtin::Shr));
    env.def("floor", RVal::RBfn(Builtin::Floor));
}

/// Binds the logic and comparison builtins.
pub fn load_logic(env: &mut REnv)
    ensures
        final(env).binds() == logic_bindings(old(env).binds()),
        final(env).same_io(old(env)),
{
    env.def("not", RVal::RBfn(Builtin::Not));
    env.def("and", RVal::RBfn(Builtin::And));
    env.def("or", RVal::RBfn(Builtin::Or));
    env.def("!", RVal::RBfn(Builtin::Not));
    env.def("&&", RVal::RBfn(Builtin::And));
    env.def("||", RVal::RBfn(Builtin::Or));
    env.def("=", RVal::RBfn(Builtin::Eq));
    env.def("!=", RVal::RBfn(Builtin::Ne));
    env.def("<", RVal::RBfn(Builtin::Lt));
    env.def("<=", RVal::RBfn(Builtin::Le));
    env.def(">", RVal::RBfn(Builtin::Gt));
    env.def(">=", RVal::RBfn(Builtin::Ge));
}

/// Binds `read`, `write` and `load`.
pub fn load_io(env: &mut REnv)
    ensures
        final(env).binds() == io_bindings(old(env).binds()),
        final(env).same_io(old(env)),
{
    env.def("read", RVal::RBfn(Builtin::Read));
    env.def("write", RVal::RBfn(Builtin::Write));
    env.def("load", RVal::RBfn(Builtin::Load));
}

/// Binds `cons`, `cond`, `if`, `for` and `while`.
pub fn load_constructs(env: &mut REnv)
    ensures
        final(env).binds() == construct_bindings(old(env).binds()),
        final(env).same_io(old(env)),
{
    env.def("cons", RVal::RBfn(Builtin::Cons));
    env.def("cond", RVal::RBfn(Builtin::Cond));
    env.def("if", RVal::RBfn(Builtin::If));
    env.def("for", RVal::RBfn(Builtin::For));
    env.def("while", RVal::RBfn(Builtin::While));
}


proof fn lemma_arithmetic_bindings_own(m: Map<Seq<char>, RVal>)
    ensures
        arithmetic_bindings(m).contains_key("+"@) && arithmetic_bindings(m)["+"@] == RVal::RBfn(Builtin::Add),
        arithmetic_bindings(m).contains_key("/"@) && arithmetic_bindings(m)["/"@] == RVal::RBfn(Builtin::Div),
        arithmetic_bindings(m).contains_key("*"@) && arithmetic_bindings(m)["*"@] == RVal::RBfn(Builtin::Mul),
        arithmetic_bindings(m).contains_key("-"@) && arithmetic_bindings(m)["-"@] == RVal::RBfn(Builtin::Sub),
        arithmetic_bindings(m).contains_key("%"@) && arithmetic_bindings(m)["%"@] == RVal::RBfn(Builtin::Rem),
        arithmetic_bindings(m).contains_key("&"@) && arithmetic_bindings(m)["&"@] == RVal::RBfn(Builtin::BitAnd),
        arithmetic_bindings(m).contains_key("|"@) && arithmetic_bindings(m)["|"@] == RVal::RBfn(Builtin::BitOr),
        arithmetic_bindings(m).contains_key("~"@) && arithmetic_bindings(m)["~"@] == RVal::RBfn(Builtin::BitNot),
        arithmetic_bindings(m).contains_key("^"@) && arithmetic_bindings(m)["^"@] == RVal::RBfn(Builtin::BitXor),
        arithmetic_bindings(m).contains_key("<<"@) && arithmetic_bindings(m)["<<"@] == RVal::RBfn(Builtin::Shl),
        arithmetic_bindings(m).contains_key(">>"@) && arithmetic_bindings(m)[">>"@] == RVal::RBfn(Builtin::Shr),
        arithmetic_bindings(m).contains_key("floor"@) && arithmetic_bindings(m)["floor"@] == RVal::RBfn(Builtin::Floor),
{
    reveal_strlit("+");
    assert("+"@.len() == 1 && "+"@[0] == '+');
    reveal_strlit("/");
    assert("/"@.len() == 1 && "/"@[0] == '/');
    reveal_strlit("*");
    assert("*"@.len() == 1 && "*"@[0] == '*');
    reveal_strlit("-");
    assert("-"@.len() == 1 && "-"@[0] == '-');
    reveal_strlit("%");
    assert("%"@.len() == 1 && "%"@[0] == '%');
    reveal_strlit("&");
    assert("&"@.len() == 1 && "&"@[0] == '&');
    reveal_strlit("|");
    assert("|"@.len() == 1 && "|"@[0] == '|');
    reveal_strlit("~");
    assert("~"@.len() == 1 && "~"@[0] == '~');
    reveal_strlit("^");
    assert("^"@.len() == 1 && "^"@[0] == '^');
    reveal_strlit("<<");
    assert("<<"@.len() == 2 && "<<"@[0] == '<' && "<<"@[1] == '<');
    reveal_strlit(">>");
    assert(">>"@.len() == 2 && ">>"@[0] == '>' && ">>"@[1] == '>');
    reveal_strlit("floor");
    assert("floor"@.len() == 5 && "floor"@[0] == 'f' && "floor"@[1] == 'l' && "floor"@[2] == 'o' && "floor"@[3] == 'o' && "floor"@[4] == 'r');
}


proof fn lemma_arithmetic_bindings_other(m: Map<Seq<char>, RVal>)
    ensures
        forall|k: Seq<char>| #![trigger arithmetic_bindings(m).contains_key(k)] !(k == "+"@ || k == "/"@ || k == "*"@ || k == "-"@ || k == "%"@ || k == "&"@ || k == "|"@ || k == "~"@ || k == "^"@ || k == "<<"@ || k == ">>"@ || k == "floor"@) ==> (arithmetic_bindings(m).contains_key(k) == m.contains_key(k) && (m.contains_key(k) ==> arithmetic_bindings(m)[k] == m[k])),
{
}


proof fn lemma_logic_bindings_own(m: Map<Seq<char>, RVal>)
    ensures
        logic_bindings(m).contains_key("not"@) && logic_bindings(m)["not"@] == RVal::RBfn(Builtin::Not),
        logic_bindings(m).contains_key("and"@) && logic_bindings(m)["and"@] == RVal::RBfn(Builtin::And),
        logic_bindings(m).contains_key("or"@) && logic_bindings(m)["or"@] == RVal::RBfn(Builtin::Or),
        logic_bindings(m).contains_key("!"@) && logic_bindings(m)["!"@] == RVal::RBfn(Builtin::Not),
        logic_bindings(m).contains_key("&&"@) && logic_bindings(m)["&&"@] == RVal::RBfn(Builtin::And),
        logic_bindings(m).contains_key("||"@) && logic_bindings(m)["||"@] == RVal::RBfn(Builtin::Or),
        logic_bindings(m).contains_key("="@) && logic_bindings(m)["="@] == RVal::RBfn(Builtin::Eq),
        logic_bindings(m).contains_key("!="@) && logic_bindings(m)["!="@] == RVal::RBfn(Builtin::Ne),
        logic_bindings(m).contains_key("<"@) && logic_bindings(m)["<"@] == RVal::RBfn(Builtin::Lt),
        logic_bindings(m).contains_key("<="@) && logic_bindings(m)["<="@] == RVal::RBfn(Builtin::Le),
        logic_bindings(m).contains_key(">"@) && logic_bindings(m)[">"@] == RVal::RBfn(Builtin::Gt),
        logic_bindings(m).contains_key(">="@) && logic_bindings(m)[">="@] == RVal::RBfn(Builtin::Ge),
{
    reveal_strlit("not");
    assert("not"@.len() == 3 && "not"@[0] == 'n' && "not"@[1] == 'o' && "not"@[2] == 't');
    reveal_strlit("and");
    assert("and"@.len() == 3 && "and"@[0] == 'a' && "and"@[1] == 'n' && "and"@[2] == 'd');
    reveal_strlit("or");
    assert("or"@.len() == 2 && "or"@[0] == 'o' && "or"@[1] == 'r');
    reveal_strlit("!");
    assert("!"@.len() == 1 && "!"@[0] == '!');
    reveal_strlit("&&");
    assert("&&"@.len() == 2 && "&&"@[0] == '&' && "&&"@[1] == '&');
    reveal_strlit("||");
    assert("||"@.len() == 2 && "||"@[0] == '|' && "||"@[1] == '|');
    reveal_strlit("=");
    assert("="@.len() == 1 && "="@[0] == '=');
    reveal_strlit("!=");
    assert("!="@.len() == 2 && "!="@[0] == '!' && "!="@[1] == '=');
    reveal_strlit("<");
    assert("<"@.len() == 1 && "<"@[0] == '<');
    reveal_strlit("<=");
    assert("<="@.len() == 2 && "<="@[0] == '<' && "<="@[1] == '=');
    reveal_strlit(">");
    assert(">"@.len() == 1 && ">"@[0] == '>');
    reveal_strlit(">=");
    assert(">="@.len() == 2 && ">="@[0] == '>' && ">="@[1] == '=');
}


proof fn lemma_logic_bindings_other(m: Map<Seq<char>, RVal>)
    ensures
        forall|k: Seq<char>| #![trigger logic_bindings(m).contains_key(k)] !(k == "not"@ || k == "and"@ || k == "or"@ || k == "!"@ || k == "&&"@ || k == "||"@ || k == "="@ || k == "!="@ || k == "<"@ || k == "<="@ || k == ">"@ || k == ">="@) ==> (logic_bindings(m).contains_key(k) == m.contains_key(k) && (m.contains_key(k) ==> logic_bindings(m)[k] == m[k])),
{
}


proof fn lemma_io_bindings_own(m: Map<Seq<char>, RVal>)
    ensures
        io_bindings(m).contains_key("read"@) && io_bindings(m)["read"@] == RVal::RBfn(Builtin::Read),
        io_bindings(m).contains_key("write"@) && io_bindings(m)["write"@] == RVal::RBfn(Builtin::Write),
        io_bindings(m).contains_key("load"@) && io_bindings(m)["load"@] == RVal::RBfn(Builtin::Load),
{
    reveal_strlit("read");
    assert("read"@.len() == 4 && "read"@[0] == 'r' && "read"@[1] == 'e' && "read"@[2] == 'a' && "read"@[3] == 'd');
    reveal_strlit("write");
    assert("write"@.len() == 5 && "write"@[0] == 'w' && "write"@[1] == 'r' && "write"@[2] == 'i' && "write"@[3] == 't' && "write"@[4] == 'e');
    reveal_strlit("load");
    assert("load"@.len() == 4 && "load"@[0] == 'l' && "load"@[1] == 'o' && "load"@[2] == 'a' && "load"@[3] == 'd');
}


proof fn lemma_io_bindings_other(m: Map<Seq<char>, RVal>)
    ensures
        forall|k: Seq<char>| #![trigger io_bindings(m).contains_key(k)] !(k == "read"@ || k == "write"@ || k == "load"@) ==> (io_bindings(m).contains_key(k) == m.contains_key(k) && (m.contains_key(k) ==> io_bindings(m)[k] == m[k])),
{
}


proof fn lemma_construct_bindings_own(m: Map<Seq<char>, RVal>)
    ensures
        construct_bindings(m).contains_key("cons"@) && construct_bindings(m)["cons"@] == RVal::RBfn(Builtin::Cons),
        construct_bindings(m).contains_key("cond"@) && construct_bindings(m)["cond"@] == RVal::RBfn(Builtin::Cond),
        construct_bindings(m).contains_key("if"@) && construct_bindings(m)["if"@] == RVal::RBfn(Builtin::If),
        construct_bindings(m).contains_key("for"@) && construct_bindings(m)["for"@] == RVal::RBfn(Builtin::For),
        construct_bindings(m).contains_key("while"@) && construct_bindings(m)["while"@] == RVal::RBfn(Builtin::While),
{
    reveal_strlit("cons");
    assert("cons"@.len() == 4 && "cons"@[0] == 'c' && "cons"@[1] == 'o' && "cons"@[2] == 'n' && "cons"@[3] == 's');
    reveal_strlit("cond");
    assert("cond"@.len() == 4 && "cond"@[0] == 'c' && "cond"@[1] == 'o' && "cond"@[2] == 'n' && "cond"@[3] == 'd');
    reveal_strlit("if");
    assert("if"@.len() == 2 && "if"@[0] == 'i' && "if"@[1] == 'f');
    reveal_strlit("for");
    assert("for"@.len() == 3 && "for"@[0] == 'f' && "for"@[1] == 'o' && "for"@[2] == 'r');
    reveal_strlit("while");
    assert("while"@.len() == 5 && "while"@[0] == 'w' && "while"@[1] == 'h' && "while"@[2] == 'i' && "while"@[3] == 'l' && "while"@[4] == 'e');
}


proof fn lemma_construct_bindings_other(m: Map<Seq<char>, RVal>)
    ensures
        forall|k: Seq<char>| #![trigger construct_bindings(m).contains_key(k)] !(k == "cons"@ || k == "cond"@ || k == "if"@ || k == "for"@ || k == "while"@) ==> (construct_bindings(m).contains_key(k) == m.contains_key(k) && (m.contains_key(k) ==> construct_bindings(m)[k] == m[k])),
{
}


/// A fresh environment binds each builtin's name to it.
pub proof fn lemma_builtin_bindings()
    ensures
        builtin_bindings().contains_key("+"@) && builtin_bindings()["+"@] == RVal::RBfn(Builtin::Add),
        builtin_bindings().contains_key("/"@) && builtin_bindings()["/"@] == RVal::RBfn(Builtin::Div),
        builtin_bindings().contains_key("*"@) && builtin_bindings()["*"@] == RVal::RBfn(Builtin::Mul),
        builtin_bindings().contains_key("-"@) && builtin_bindings()["-"@] == RVal::RBfn(Builtin::Sub),
        builtin_bindings().contains_key("%"@) && builtin_bindings()["%"@] == RVal::RBfn(Builtin::Rem),
        builtin_bindings().contains_key("&"@) && builtin_bindings()["&"@] == RVal::RBfn(Builtin::BitAnd),
        builtin_bindings().contains_key("|"@) && builtin_bindings()["|"@] == RVal::RBfn(Builtin::BitOr),
        builtin_bindings().contains_key("~"@) && builtin_bindings()["~"@] == RVal::RBfn(Builtin::BitNot),
        builtin_bindings().contains_key("^"@) && builtin_bindings()["^"@] == RVal::RBfn(Builtin::BitXor),
        builtin_bindings().contains_key("<<"@) && builtin_bindings()["<<"@] == RVal::RBfn(Builtin::Shl),
        builtin_bindings().contains_key(">>"@) && builtin_bindings()[">>"@] == RVal::RBfn(Builtin::Shr),
        builtin_bindings().contains_key("floor"@) && builtin_bindings()["floor"@] == RVal::RBfn(Builtin::Floor),
        builtin_bindings().contains_key("not"@) && builtin_bindings()["not"@] == RVal::RBfn(Builtin::Not),
        builtin_bindings().contains_key("and"@) && builtin_bindings()["and"@] == RVal::RBfn(Builtin::And),
        builtin_bindings().contains_key("or"@) && builtin_bindings()["or"@] == RVal::RBfn(Builtin::Or),
        builtin_bindings().contains_key("!"@) && builtin_bindings()["!"@] == RVal::RBfn(Builtin::Not),
        builtin_bindings().contains_key("&&"@) && builtin_bindings()["&&"@] == RVal::RBfn(Builtin::And),
        builtin_bindings().contains_key("||"@) && builtin_bindings()["||"@] == RVal::RBfn(Builtin::Or),
        builtin_bindings().contains_key("="@) && builtin_bindings()["="@] == RVal::RBfn(Builtin::Eq),
        builtin_bindings().contains_key("!="@) && builtin_bindings()["!="@] == RVal::RBfn(Builtin::Ne),
        builtin_bindings().contains_key("<"@) && builtin_bindings()["<"@] == RVal::RBfn(Builtin::Lt),
        builtin_bindings().contains_key("<="@) && builtin_bindings()["<="@] == RVal::RBfn(Builtin::Le),
        builtin_bindings().contains_key(">"@) && builtin_bindings()[">"@] == RVal::RBfn(Builtin::Gt),
        builtin_bindings().contains_key(">="@) && builtin_bindings()[">="@] == RVal::RBfn(Builtin::Ge),
        builtin_bindings().contains_key("read"@) && builtin_bindings()["read"@] == RVal::RBfn(Builtin::Read),
        builtin_bindings().contains_key("write"@) && builtin_bindings()["write"@] == RVal::RBfn(Builtin::Write),
        builtin_bindings().contains_key("load"@) && builtin_bindings()["load"@] == RVal::RBfn(Builtin::Load),
        builtin_bindings().contains_key("cons"@) && builtin_bindings()["cons"@] == RVal::RBfn(Builtin::Cons),
        builtin_bindings().contains_key("cond"@) && builtin_bindings()["cond"@] == RVal::RBfn(Builtin::Cond),
        builtin_bindings().contains_key("if"@) && builtin_bindings()["if"@] == RVal::RBfn(Builtin::If),
        builtin_bindings().contains_key("for"@) && builtin_bindings()["for"@] == RVal::RBfn(Builtin::For),
        builtin_bindings().contains_key("while"@) && builtin_bindings()["while"@] == RVal::RBfn(Builtin::While),
{
    let m0 = no_bindings();
    let m1 = arithmetic_bindings(m0);
    let m2 = logic_bindings(m1);
    let m3 = io_bindings(m2);
    lemma_arithmetic_bindings_own(m0);
    lemma_logic_bindings_own(m1);
    lemma_io_bindings_own(m2);
    lemma_construct_bindings_own(m3);
    lemma_logic_bindings_other(m1);
    lemma_io_bindings_other(m2);
    lemma_construct_bindings_other(m3);
    reveal_strlit("+");
    assert("+"@.len() == 1 && "+"@[0] == '+');
    reveal_strlit("/");
    assert("/"@.len() == 1 && "/"@[0] == '/');
    reveal_strlit("*");
    assert("*"@.len() == 1 && "*"@[0] == '*');
    reveal_strlit("-");
    assert("-"@.len() == 1 && "-"@[0] == '-');
    reveal_strlit("%");
    assert("%"@.len() == 1 && "%"@[0] == '%');
    reveal_strlit("&");
    assert("&"@.len() == 1 && "&"@[0] == '&');
    reveal_strlit("|");
    assert("|"@.len() == 1 && "|"@[0] == '|');
    reveal_strlit("~");
    assert("~"@.len() == 1 && "~"@[0] == '~');
    reveal_strlit("^");
    assert("^"@.len() == 1 && "^"@[0] == '^');
    reveal_strlit("<<");
    assert("<<"@.len() == 2 && "<<"@[0] == '<' && "<<"@[1] == '<');
    reveal_strlit(">>");
    assert(">>"@.len() == 2 && ">>"@[0] == '>' && ">>"@[1] == '>');
    reveal_strlit("floor");
    assert("floor"@.len() == 5 && "floor"@[0] == 'f' && "floor"@[1] == 'l' && "floor"@[2] == 'o' && "floor"@[3] == 'o' && "floor"@[4] == 'r');
    reveal_strlit("not");
    assert("not"@.len() == 3 && "not"@[0] == 'n' && "not"@[1] == 'o' && "not"@[2] == 't');
    reveal_strlit("and");
    assert("and"@.len() == 3 && "and"@[0] == 'a' && "and"@[1] == 'n' && "and"@[2] == 'd');
    reveal_strlit("or");
    assert("or"@.len() == 2 && "or"@[0] == 'o' && "or"@[1] == 'r');
    reveal_strlit("!");
    assert("!"@.len() == 1 && "!"@[0] == '!');
    reveal_strlit("&&");
    assert("&&"@.len() == 2 && "&&"@[0] == '&' && "&&"@[1] == '&');
    reveal_strlit("||");
    assert("||"@.len() == 2 && "||"@[0] == '|' && "||"@[1] == '|');
    reveal_strlit("=");
    assert("="@.len() == 1 && "="@[0] == '=');
    reveal_strlit("!=");
    assert("!="@.len() == 2 && "!="@[0] == '!' && "!="@[1] == '=');
    reveal_strlit("<");
    assert("<"@.len() == 1 && "<"@[0] == '<');
    reveal_strlit("<=");
    assert("<="@.len() == 2 && "<="@[0] == '<' && "<="@[1] == '=');
    reveal_strlit(">");
    assert(">"@.len() == 1 && ">"@[0] == '>');
    reveal_strlit(">=");
    assert(">="@.len() == 2 && ">="@[0] == '>' && ">="@[1] == '=');
    reveal_strlit("read");
    assert("read"@.len() == 4 && "read"@[0] == 'r' && "read"@[1] == 'e' && "read"@[2] == 'a' && "read"@[3] == 'd');
    reveal_strlit("write");
    assert("write"@.len() == 5 && "write"@[0] == 'w' && "write"@[1] == 'r' && "write"@[2] == 'i' && "write"@[3] == 't' && "write"@[4] == 'e');
    reveal_strlit("load");
    assert("load"@.len() == 4 && "load"@[0] == 'l' && "load"@[1] == 'o' && "load"@[2] == 'a' && "load"@[3] == 'd');
    reveal_strlit("cons");
    assert("cons"@.len() == 4 && "cons"@[0] == 'c' && "cons"@[1] == 'o' && "cons"@[2] == 'n' && "cons"@[3] == 's');
    reveal_strlit("cond");
    assert("cond"@.len() == 4 && "cond"@[0] == 'c' && "cond"@[1] == 'o' && "cond"@[2] == 'n' && "cond"@[3] == 'd');
    reveal_strlit("if");
    assert("if"@.len() == 2 && "if"@[0] == 'i' && "if"@[1] == 'f');
    reveal_strlit("for");
    assert("for"@.len() == 3 && "for"@[0] == 'f' && "for"@[1] == 'o' && "for"@[2] == 'r');
    reveal_strlit("while");
    assert("while"@.len() == 5 && "while"@[0] == 'w' && "while"@[1] == 'h' && "while"@[2] == 'i' && "while"@[3] == 'l' && "while"@[4] == 'e');
    assert(logic_bindings(m1).contains_key("+"@));
    assert(io_bindings(m2).contains_key("+"@));
    assert(construct_bindings(m3).contains_key("+"@));
    assert(logic_bindings(m1).contains_key("/"@));
    assert(io_bindings(m2).contains_key("/"@));
    assert(construct_bindings(m3).contains_key("/"@));
    assert(logic_bindings(m1).contains_key("*"@));
    assert(io_bindings(m2).contains_key("*"@));
    assert(construct_bindings(m3).contains_key("*"@));
    assert(logic_bindings(m1).contains_key("-"@));
    assert(io_bindings(m2).contains_key("-"@));
    assert(construct_bindings(m3).contains_key("-"@));
    assert(logic_bindings(m1).contains_key("%"@));
    assert(io_bindings(m2).contains_key("%"@));
    assert(construct_bindings(m3).contains_key("%"@));
    assert(logic_bindings(m1).contains_key("&"@));
    assert(io_bindings(m2).contains_key("&"@));
    assert(construct_bindings(m3).contains_key("&"@));
    assert(logic_bindings(m1).contains_key("|"@));
    assert(io_bindings(m2).contains_key("|"@));
    assert(construct_bindings(m3).contains_key("|"@));
    assert(logic_bindings(m1).contains_key("~"@));
    assert(io_bindings(m2).contains_key("~"@));
    assert(construct_bindings(m3).contains_key("~"@));
    assert(logic_bindings(m1).contains_key("^"@));
    assert(io_bindings(m2).contains_key("^"@));
    assert(construct_bindings(m3).contains_key("^"@));
    assert(logic_bindings(m1).contains_key("<<"@));
    assert(io_bindings(m2).contains_key("<<"@));
    assert(construct_bindings(m3).contains_key("<<"@));
    assert(logic_bindings(m1).contains_key(">>"@));
    assert(io_bindings(m2).contains_key(">>"@));
    assert(construct_bindings(m3).contains_key(">>"@));
    assert(logic_bindings(m1).contains_key("floor"@));
    assert(io_bindings(m2).contains_key("floor"@));
    assert(construct_bindings(m3).contains_key("floor"@));
    assert(io_bindings(m2).contains_key("not"@));
    assert(construct_bindings(m3).contains_key("not"@));
    assert(io_bindings(m2).contains_key("and"@));
    assert(construct_bindings(m3).contains_key("and"@));
    assert(io_bindings(m2).contains_key("or"@));
    assert(construct_bindings(m3).contains_key("or"@));
    assert(io_bindings(m2).contains_key("!"@));
    assert(construct_bindings(m3).contains_key("!"@));
    assert(io_bindings(m2).contains_key("&&"@));
    assert(construct_bindings(m3).contains_key("&&"@));
    assert(io_bindings(m2).contains_key("||"@));
    assert(construct_bindings(m3).contains_key("||"@));
    assert(io_bindings(m2).contains_key("="@));
    assert(construct_bindings(m3).contains_key("="@));
    assert(io_bindings(m2).contains_key("!="@));
    assert(construct_bindings(m3).contains_key("!="@));
    assert(io_bindings(m2).contains_key("<"@));
    assert(construct_bindings(m3).contains_key("<"@));
    assert(io_bindings(m2).contains_key("<="@));
    assert(construct_bindings(m3).contains_key("<="@));
    assert(io_bindings(m2).contains_key(">"@));
    assert(construct_bindings(m3).contains_key(">"@));
    assert(io_bindings(m2).contains_key(">="@));
    assert(construct_bindings(m3).contains_key(">="@));
    assert(construct_bindings(m3).contains_key("read"@));
    assert(construct_bindings(m3).contains_key("write"@));
    assert(construct_bindings(m3).contains_key("load"@));
}

} // verus!
