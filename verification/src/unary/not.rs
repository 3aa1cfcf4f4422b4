//! Logical negation.

use vstd::prelude::*;
use crate::ir::{CubeContext, ExpandElement, Operator};
use crate::unary::{unary_expand, unary_step};

verus! {

/// Expands `!x` for a boolean `x`.
pub fn expand(context: &mut CubeContext, x: ExpandElement) -> (out: ExpandElement)
    requires
        old(context)@.1 < u32::MAX,
        x.variable.item.elem is Bool,
    ensures
        unary_step(old(context)@, Operator::Not, x.variable, x.variable.item, final(context)@, out.variable),
{
    unary_expand(context, x, Operator::Not)
}

} // verus!
