//! Expansion of unary operations into the intermediate representation.

use cubecl::ir::{
    CubeContext, Elem, FloatKind, Instruction, IntKind, Item, Operator, UIntKind, Variable,
};
use cubecl::unary::{expand_unary_func, neg, not};

fn item(elem: Elem, vectorization: Option<u8>) -> Item {
    Item { elem, vectorization }
}

#[test]
fn new_context_is_empty() {
    let context = CubeContext::new();
    assert!(context.instructions().is_empty());
    assert_eq!(context.num_locals(), 0);
}

#[test]
fn not_expand_registers_one_instruction() {
    let mut context = CubeContext::new();
    let x = context.create_local(item(Elem::Bool, None));
    let out = not::expand(&mut context, x);
    assert_eq!(out.variable, Variable { index: 1, item: item(Elem::Bool, None) });
    assert_eq!(
        context.instructions(),
        &vec![Instruction { operator: Operator::Not, input: x.variable, out: out.variable }]
    );
    assert_eq!(context.num_locals(), 2);
}

#[test]
fn neg_expand_keeps_the_item() {
    let mut context = CubeContext::new();
    let it = item(Elem::Float(FloatKind::F32), Some(4));
    let x = context.create_local(it);
    let out = neg::expand(&mut context, x);
    assert_eq!(out.variable.item, it);
    assert_eq!(out.variable.index, 1);
    assert_eq!(context.instructions()[0].operator, Operator::Neg);
    assert_eq!(context.instructions()[0].input, x.variable);
}

#[test]
fn successive_expansions_are_fresh_and_in_order() {
    let mut context = CubeContext::new();
    let x = context.create_local(item(Elem::Int(IntKind::I32), None));
    let a = neg::expand(&mut context, x);
    let b = neg::expand(&mut context, a);
    assert_ne!(a.variable.index, b.variable.index);
    assert_eq!(context.instructions().len(), 2);
    assert_eq!(context.instructions()[0].out, a.variable);
    assert_eq!(context.instructions()[1].input, a.variable);
    assert_eq!(context.instructions()[1].out, b.variable);
    assert_eq!(context.num_locals(), 3);
}

#[test]
fn magnitude_is_a_scalar() {
    let mut context = CubeContext::new();
    let x = context.create_local(item(Elem::Float(FloatKind::F16), Some(4)));
    let out = expand_unary_func(&mut context, Operator::Magnitude, x);
    assert_eq!(out.variable.item, item(Elem::Float(FloatKind::F16), None));
    assert_eq!(context.instructions()[0].operator, Operator::Magnitude);
}

#[test]
fn count_ones_is_a_u32() {
    let mut context = CubeContext::new();
    let x = context.create_local(item(Elem::Int(IntKind::I64), Some(2)));
    let out = expand_unary_func(&mut context, Operator::CountOnes, x);
    assert_eq!(out.variable.item, item(Elem::UInt(UIntKind::U32), Some(2)));
}

#[test]
fn abs_keeps_the_item() {
    let mut context = CubeContext::new();
    let it = item(Elem::UInt(UIntKind::U8), Some(8));
    let x = context.create_local(it);
    let out = expand_unary_func(&mut context, Operator::Abs, x);
    assert_eq!(out.variable.item, it);
    assert_eq!(
        context.instructions(),
        &vec![Instruction { operator: Operator::Abs, input: x.variable, out: out.variable }]
    );
}

#[test]
fn exp_on_bf16() {
    let mut context = CubeContext::new();
    let it = item(Elem::Float(FloatKind::BF16), None);
    let x = context.create_local(it);
    let out = expand_unary_func(&mut context, Operator::Exp, x);
    assert_eq!(out.variable, Variable { index: 1, item: it });
}
