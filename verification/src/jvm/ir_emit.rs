//! Emission of files to class files.

use vstd::prelude::*;

use crate::ir::expr::IrExpr;
use crate::ir::file::IrFile;
use crate::ir::tree::grows;

verus! {

/// Whether nothing that a plugin planned is left to realize. The target declines a file in which
/// something is.
pub open spec fn realized(exprs: Seq<IrExpr>) -> bool {
    forall|k: int| 0 <= k < exprs.len() ==> !(#[trigger] exprs[k] is PluginPlaceholder)
}

/// Whether the target can emit the operations of a file.
pub fn jvm_can_emit(ir: &IrFile) -> (yes: bool)
    ensures
        yes == realized(ir.exprs@),
{
    let mut index: usize = 0;
    while index < ir.exprs.len()
        invariant
            index <= ir.exprs@.len(),
            realized(ir.exprs@.take(index as int)),
        decreases ir.exprs@.len() - index,
    {
        if matches!(ir.exprs[index], IrExpr::PluginPlaceholder { .. }) {
            return false;
        }
        assert forall|k: int| 0 <= k < index + 1 implies !(#[trigger] ir.exprs@.take(
            index as int + 1,
        )[k] is PluginPlaceholder) by {
            if k < index {
                assert(!(ir.exprs@.take(index as int)[k] is PluginPlaceholder));
            }
        }
        index += 1;
    }
    assert(ir.exprs@.take(index as int) =~= ir.exprs@);
    true
}

/// A file that is declined stays declined whatever is added to it: what a plugin leaves unrealized
/// never becomes a file that is emitted without it.
pub proof fn additions_do_not_realize_a_residual(before: Seq<IrExpr>, after: Seq<IrExpr>)
    requires
        grows(before, after),
        !realized(before),
    ensures
        !realized(after),
{
    let k = choose|k: int| 0 <= k < before.len() && (#[trigger] before[k] is PluginPlaceholder);
    assert(after[k] == before[k]);
}

} // verus!
