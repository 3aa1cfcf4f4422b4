//! Arithmetic negation.

use vstd::prelude::*;
use crate::ir::{CubeContext, ExpandElement, Operator};
use crate::unary::{is_numeric, unary_expand, unary_step};

verus! {

/// Expands `-x` for a numeric `x`.
pub fn expand(context: &mut CubeContext, x: ExpandElement) -> (out: ExpandElement)
    requires
        old(context)@.1 < u32::MAX,
        is_numeric(x.variable.item.elem),
    ensures
        unary_step(old(context)@, Operator::Neg, x.variable, x.variable.item, final(context)@, out.variable),
{
    unary_expand(context, x, Operator::Neg)
}

} // verus!
