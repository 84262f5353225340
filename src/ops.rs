use vstd::prelude::*;
use crate::value::{RVal, Builtin, tag, text, append_str};
use crate::model::Val;

verus! {

/// Operators that accept integers mixed as `(Num Num)`; the rest take `(Int Int)`.
pub open spec fn is_num_op(op: Builtin) -> bool {
    op == Builtin::Add || op == Builtin::Sub || op == Builtin::Mul || op == Builtin::Div
}

pub open spec fn is_binop(op: Builtin) -> bool {
    is_num_op(op) || op == Builtin::Rem || op == Builtin::BitAnd || op == Builtin::BitOr || op
        == Builtin::BitXor || op == Builtin::Shl || op == Builtin::Shr
}

pub open spec fn in_i64(x: int) -> bool {
    i64::MIN <= x <= i64::MAX
}

pub open spec fn overflow_msg() -> Seq<char> {
    "arithmetic overflow"@
}

pub open spec fn div_msg() -> Seq<char> {
    "division by zero or arithmetic overflow"@
}

/// The error for operands of the wrong kinds.
pub open spec fn mismatch_msg(op: Builtin, a: RVal, b: RVal) -> Seq<char> {
    (if is_num_op(op) {
        "expected (Num Num), received ("@
    } else {
        "expected (Int Int), received ("@
    }) + tag(a) + seq![' '] + tag(b) + seq![')']
}

/// A checked result: the integer when it fits in `i64`, else the error.
pub open spec fn checked(x: int, msg: Seq<char>) -> Val {
    if in_i64(x) {
        Val::VInt(x)
    } else {
        Val::VErr(msg)
    }
}

/// Result of a binary operator on two values.
pub open spec fn op_val(op: Builtin, a: RVal, b: RVal) -> Val {
    match (a, b) {
        (RVal::RInt(x), RVal::RInt(y)) => {
            if op == Builtin::Add {
                checked(x + y, overflow_msg())
            } else if op == Builtin::Sub {
                checked(x - y, overflow_msg())
            } else if op == Builtin::Mul {
                checked(x * y, overflow_msg())
            } else if op == Builtin::Div {
                match x.checked_div(y) {
                    Some(q) => Val::VInt(q as int),
                    None => Val::VErr(div_msg()),
                }
            } else if op == Builtin::Rem {
                match x.checked_rem(y) {
                    Some(q) => Val::VInt(q as int),
                    None => Val::VErr(div_msg()),
                }
            } else if op == Builtin::BitAnd {
                Val::VInt((x & y) as int)
            } else if op == Builtin::BitOr {
                Val::VInt((x | y) as int)
            } else if op == Builtin::BitXor {
                Val::VInt((x ^ y) as int)
            } else if op == Builtin::Shl {
                if (y as u32) < 64 {
                    Val::VInt(x.wrapping_shl(y as u32) as int)
                } else {
                    Val::VErr(overflow_msg())
                }
            } else {
                if (y as u32) < 64 {
                    Val::VInt(x.wrapping_shr(y as u32) as int)
                } else {
                    Val::VErr(overflow_msg())
                }
            }
        },
        _ => Val::VErr(mismatch_msg(op, a, b)),
    }
}

fn mismatch(op: Builtin, a: &RVal, b: &RVal) -> (r: RVal)
    ensures
        r@ == Val::VErr(mismatch_msg(op, *a, *b)),
{
    let mut buf: Vec<char> = Vec::new();
    if op == Builtin::Add || op == Builtin::Sub || op == Builtin::Mul || op == Builtin::Div {
        append_str(&mut buf, "expected (Num Num), received (");
    } else {
        append_str(&mut buf, "expected (Int Int), received (");
    }
    a.write_tag(&mut buf);
    buf.push(' ');
    b.write_tag(&mut buf);
    buf.push(')');
    assert(buf@ =~= mismatch_msg(op, *a, *b));
    RVal::RErr(crate::value::string_of(&buf))
}

/// Applies a binary operator: checked integer arithmetic, bitwise operations and shifts
/// by an amount read as an unsigned 32-bit number.
pub fn binop(op: Builtin, a: &RVal, b: &RVal) -> (r: RVal)
    requires
        is_binop(op),
    ensures
        r@ == op_val(op, *a, *b),
{
    match (a, b) {
        (RVal::RInt(x), RVal::RInt(y)) => {
            let x = *x;
            let y = *y;
            match op {
                Builtin::Add => match x.checked_add(y) {
                    Some(z) => RVal::RInt(z),
                    None => RVal::RErr(text("arithmetic overflow")),
                },
                Builtin::Sub => match x.checked_sub(y) {
                    Some(z) => RVal::RInt(z),
                    None => RVal::RErr(text("arithmetic overflow")),
                },
                Builtin::Mul => match x.checked_mul(y) {
                    Some(z) => RVal::RInt(z),
                    None => RVal::RErr(text("arithmetic overflow")),
                },
                Builtin::Div => match x.checked_div(y) {
                    Some(z) => RVal::RInt(z),
                    None => RVal::RErr(text("division by zero or arithmetic overflow")),
                },
                Builtin::Rem => match x.checked_rem(y) {
                    Some(z) => RVal::RInt(z),
                    None => RVal::RErr(text("division by zero or arithmetic overflow")),
                },
                Builtin::BitAnd => RVal::RInt(x & y),
                Builtin::BitOr => RVal::RInt(x | y),
                Builtin::BitXor => RVal::RInt(x ^ y),
                Builtin::Shl => {
                    let s = y as u32;
                    if s < 64 {
                        RVal::RInt(x.wrapping_shl(s))
                    } else {
                        RVal::RErr(text("arithmetic overflow"))
                    }
                },
                _ => {
                    let s = y as u32;
                    if s < 64 {
                        RVal::RInt(x.wrapping_shr(s))
                    } else {
                        RVal::RErr(text("arithmetic overflow"))
                    }
                },
            }
        },
        _ => mismatch(op, a, b),
    }
}

/// Integer arithmetic never wraps around: an integer result is the exact sum,
/// difference or product.
pub proof fn law_no_wraparound(op: Builtin, x: i64, y: i64)
    requires
        op == Builtin::Add || op == Builtin::Sub || op == Builtin::Mul,
    ensures
        op_val(op, RVal::RInt(x), RVal::RInt(y)) is VInt ==> op_val(op, RVal::RInt(x), RVal::RInt(y))
            == Val::VInt(if op == Builtin::Add {
            x + y
        } else if op == Builtin::Sub {
            x - y
        } else {
            x * y
        }),
        op_val(op, RVal::RInt(x), RVal::RInt(y)) is VErr ==> op_val(op, RVal::RInt(x), RVal::RInt(y))
            == Val::VErr(overflow_msg()),
{
}

} // verus!
