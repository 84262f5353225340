use vstd::prelude::*;
use crate::value::{RVal, Builtin, tag, tag_seq};

verus! {

/// Mathematical model of a value: strings as character sequences, integers as `int`.
pub enum Val {
    VErr(Seq<char>),
    VStr(Seq<char>),
    VSym(Seq<char>),
    VNil,
    VBool(bool),
    VInt(int),
    VLst(Seq<Val>),
    VVec(Seq<Val>),
    /// Keys and values alternate.
    VMap(Seq<Val>),
    VBfn(Builtin),
    VLfn(Box<Val>, Box<Val>),
}

pub open spec fn model(v: RVal) -> Val
    decreases v,
{
    match v {
        RVal::RErr(s) => Val::VErr(s@),
        RVal::RStr(s) => Val::VStr(s@),
        RVal::RSym(s) => Val::VSym(s@),
        RVal::RNil => Val::VNil,
        RVal::RBool(b) => Val::VBool(b),
        RVal::RInt(i) => Val::VInt(i as int),
        RVal::RLst(vs) => Val::VLst(models(vs@)),
        RVal::RVec(vs) => Val::VVec(models(vs@)),
        RVal::RMap(vs) => Val::VMap(models(vs@)),
        RVal::RBfn(b) => Val::VBfn(b),
        RVal::RLfn(l) => Val::VLfn(Box::new(model(l.params)), Box::new(model(l.body))),
    }
}

pub open spec fn models(vs: Seq<RVal>) -> Seq<Val>
    decreases vs,
{
    if vs.len() == 0 {
        Seq::empty()
    } else {
        models(vs.subrange(0, vs.len() - 1)).push(model(vs[vs.len() - 1]))
    }
}

impl View for RVal {
    type V = Val;

    open spec fn view(&self) -> Val {
        model(*self)
    }
}

pub broadcast proof fn lemma_models(vs: Seq<RVal>)
    ensures
        #[trigger] models(vs).len() == vs.len(),
        forall|i: int| 0 <= i < vs.len() ==> #[trigger] models(vs)[i] == model(vs[i]),
    decreases vs.len(),
{
    if vs.len() > 0 {
        lemma_models(vs.subrange(0, vs.len() - 1));
    }
}

pub proof fn lemma_models_ext(a: Seq<RVal>, b: Seq<Val>)
    requires
        a.len() == b.len(),
        forall|i: int| 0 <= i < a.len() ==> model(#[trigger] a[i]) == b[i],
    ensures
        models(a) == b,
{
    lemma_models(a);
    assert(models(a) =~= b);
}

/// Type tag of a modelled value.
pub open spec fn vtag(v: Val) -> Seq<char>
    decreases v,
{
    match v {
        Val::VErr(e) => "(Err: "@ + e + ")"@,
        Val::VStr(_) => "Str"@,
        Val::VSym(_) => "Sym"@,
        Val::VNil => "Nil"@,
        Val::VBool(_) => "Bool"@,
        Val::VInt(_) => "Int"@,
        Val::VLst(vs) => seq!['('] + vtag_seq(vs) + seq![')'],
        Val::VVec(vs) => seq!['['] + vtag_seq(vs) + seq![']'],
        Val::VMap(vs) => seq!['{'] + vtag_seq(vs) + seq!['}'],
        Val::VBfn(_) => "Builtin-Fn"@,
        Val::VLfn(_, _) => "Fn"@,
    }
}

pub open spec fn vtag_seq(vs: Seq<Val>) -> Seq<char>
    decreases vs,
{
    if vs.len() == 0 {
        Seq::empty()
    } else if vs.len() == 1 {
        vtag(vs[0])
    } else {
        vtag(vs[0]) + seq![' '] + vtag_seq(vs.subrange(1, vs.len() as int))
    }
}

pub proof fn lemma_tag_model(v: RVal)
    ensures
        tag(v) == vtag(model(v)),
    decreases v,
{
    match v {
        RVal::RLst(vs) => {
            lemma_tag_seq_model(vs@);
        },
        RVal::RVec(vs) => {
            lemma_tag_seq_model(vs@);
        },
        RVal::RMap(vs) => {
            lemma_tag_seq_model(vs@);
        },
        _ => {},
    }
}

pub proof fn lemma_tag_seq_model(vs: Seq<RVal>)
    ensures
        tag_seq(vs) == vtag_seq(models(vs)),
    decreases vs,
{
    lemma_models(vs);
    if vs.len() == 1 {
        lemma_tag_model(vs[0]);
    } else if vs.len() > 1 {
        let t = vs.subrange(1, vs.len() as int);
        lemma_tag_model(vs[0]);
        lemma_tag_seq_model(t);
        lemma_models(t);
        assert(models(t) =~= models(vs).subrange(1, vs.len() as int));
    }
}

} // verus!
