//! Expansion of unary operations: each expansion creates one fresh local for
//! the result and registers one instruction that computes it.

use vstd::prelude::*;
use crate::ir::{CubeContext, Elem, ExpandElement, Instruction, Item, Operator, UIntKind, Variable};

pub mod not;
pub mod neg;

verus! {

/// What one unary expansion does to a context: `out` is a fresh local of item
/// `out_item` (numbered after every earlier local), and exactly one
/// instruction `out = operator(input)` is appended.
pub open spec fn unary_step(
    before: (Seq<Instruction>, nat),
    operator: Operator,
    input: Variable,
    out_item: Item,
    after: (Seq<Instruction>, nat),
    out: Variable,
) -> bool {
    &&& out == Variable { index: before.1 as u32, item: out_item }
    &&& after.0 == before.0.push(Instruction { operator, input, out })
    &&& after.1 == before.1 + 1
}

/// Expands `operator` applied to `input`; the result has the input's item.
pub fn unary_expand(context: &mut CubeContext, input: ExpandElement, operator: Operator) -> (out:
    ExpandElement)
    requires
        old(context)@.1 < u32::MAX,
    ensures
        unary_step(old(context)@, operator, input.variable, input.variable.item, final(context)@, out.variable),
{
    unary_expand_fixed_output(context, input, input.variable.item, operator)
}

/// Expands `operator` applied to `input`; the result has the item `out_item`.
pub fn unary_expand_fixed_output(
    context: &mut CubeContext,
    input: ExpandElement,
    out_item: Item,
    operator: Operator,
) -> (out: ExpandElement)
    requires
        old(context)@.1 < u32::MAX,
    ensures
        unary_step(old(context)@, operator, input.variable, out_item, final(context)@, out.variable),
{
    let out = context.create_local(out_item);
    context.register(Instruction { operator, input: input.variable, out: out.variable });
    out
}

/// Element kinds that arithmetic applies to (every kind but `Bool`).
pub open spec fn is_numeric(elem: Elem) -> bool {
    !(elem is Bool)
}

/// The element kinds each operator is defined on.
pub open spec fn accepts(operator: Operator, elem: Elem) -> bool {
    match operator {
        Operator::Not => elem is Bool,
        Operator::Neg => is_numeric(elem),
        Operator::Abs => is_numeric(elem),
        Operator::CountOnes | Operator::ReverseBits | Operator::BitwiseNot => elem is Int
            || elem is UInt,
        _ => elem is Float,
    }
}

/// The item of the result of `operator` on an input of item `input`:
/// the magnitude of a vector is a scalar, a count of ones is a `u32`, and
/// every other operator keeps the input's item.
pub open spec fn result_item(operator: Operator, input: Item) -> Item {
    match operator {
        Operator::Magnitude => Item { elem: input.elem, vectorization: None },
        Operator::CountOnes => Item { elem: Elem::UInt(UIntKind::U32), vectorization: input.vectorization },
        _ => input,
    }
}

/// Expands the unary function `operator` on `x`, for an operator defined on
/// `x`'s element kind.
pub fn expand_unary_func(context: &mut CubeContext, operator: Operator, x: ExpandElement) -> (out:
    ExpandElement)
    requires
        old(context)@.1 < u32::MAX,
        accepts(operator, x.variable.item.elem),
    ensures
        unary_step(
            old(context)@,
            operator,
            x.variable,
            result_item(operator, x.variable.item),
            final(context)@,
            out.variable,
        ),
        operator != Operator::Magnitude && operator != Operator::CountOnes ==> out.variable.item
            == x.variable.item,
        operator == Operator::Magnitude ==> out.variable.item.elem == x.variable.item.elem
            && out.variable.item.vectorization == None::<u8>,
        operator == Operator::CountOnes ==> out.variable.item.elem == Elem::UInt(UIntKind::U32)
            && out.variable.item.vectorization == x.variable.item.vectorization,
        out.variable.index == old(context)@.1,
        final(context)@.0.last() == (Instruction { operator, input: x.variable, out: out.variable }),
{
    proof {
        lemma_result_item(operator, x.variable.item);
    }
    match operator {
        Operator::Magnitude => {
            let mut item = x.variable.item;
            item.vectorization = None;
            unary_expand_fixed_output(context, x, item, operator)
        },
        Operator::CountOnes => {
            let mut item = x.variable.item;
            item.elem = Elem::UInt(UIntKind::U32);
            unary_expand_fixed_output(context, x, item, operator)
        },
        _ => unary_expand(context, x, operator),
    }
}

/// What a unary function produces: every operator but `Magnitude` and
/// `CountOnes` (`Normalize`, `Abs`, `Floor`, `ReverseBits`, ... included)
/// gives a result of exactly the input's item, element kind and
/// vectorization alike; `Magnitude` keeps the element kind and makes the
/// result a scalar; `CountOnes` keeps the vectorization and makes the element
/// kind `u32`.
pub proof fn lemma_result_item(operator: Operator, input: Item)
    ensures
        operator != Operator::Magnitude && operator != Operator::CountOnes ==> result_item(operator, input)
            == input,
        operator == Operator::Magnitude ==> result_item(operator, input).elem == input.elem
            && result_item(operator, input).vectorization == None::<u8>,
        operator == Operator::CountOnes ==> result_item(operator, input).elem == Elem::UInt(UIntKind::U32)
            && result_item(operator, input).vectorization == input.vectorization,
{
}

/// A unary function expansion keeps the input's element kind unless the
/// operator is `CountOnes`, and keeps its vectorization unless the operator is
/// `Magnitude`: the result of such an expansion, for every operator, context
/// and input, has the item `lemma_result_item` describes, and it is the
/// output of the instruction the expansion appends.
pub proof fn lemma_unary_func_expansion(
    before: (Seq<Instruction>, nat),
    operator: Operator,
    input: Variable,
    after: (Seq<Instruction>, nat),
    out: Variable,
)
    requires
        unary_step(before, operator, input, result_item(operator, input.item), after, out),
    ensures
        operator != Operator::Magnitude && operator != Operator::CountOnes ==> out.item == input.item,
        operator != Operator::CountOnes ==> out.item.elem == input.item.elem,
        operator != Operator::Magnitude ==> out.item.vectorization == input.item.vectorization,
        operator == Operator::Magnitude ==> out.item.vectorization == None::<u8>,
        operator == Operator::CountOnes ==> out.item.elem == Elem::UInt(UIntKind::U32),
        after.0.last() == (Instruction { operator, input, out }),
        after.0.len() == before.0.len() + 1,
{
    lemma_result_item(operator, input.item);
}

/// Two expansions in a row create distinct result variables, and the second
/// keeps the instruction of the first in front of its own.
pub proof fn lemma_successive_expansions_are_fresh(
    c0: (Seq<Instruction>, nat),
    op1: Operator,
    in1: Variable,
    item1: Item,
    c1: (Seq<Instruction>, nat),
    out1: Variable,
    op2: Operator,
    in2: Variable,
    item2: Item,
    c2: (Seq<Instruction>, nat),
    out2: Variable,
)
    requires
        c0.1 + 1 < u32::MAX,
        unary_step(c0, op1, in1, item1, c1, out1),
        unary_step(c1, op2, in2, item2, c2, out2),
    ensures
        out1.index != out2.index,
        c2.0.len() == c0.0.len() + 2,
        c2.0.subrange(0, c0.0.len() as int) == c0.0,
        c2.0[c0.0.len() as int] == (Instruction { operator: op1, input: in1, out: out1 }),
        c2.0[c0.0.len() + 1int] == (Instruction { operator: op2, input: in2, out: out2 }),
{
    assert(c2.0.subrange(0, c0.0.len() as int) =~= c0.0);
}

} // verus!
