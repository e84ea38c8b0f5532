//! Local rewrites of the intermediate representation.

use crate::ir::IRInstruction;
use crate::word::MyU256;
use vstd::prelude::*;

verus! {

/// The constant load that the pass remembers when it reaches position `i`:
/// the destination and value of the load that began the run of loads of one
/// value that ends just before `i`, if position `i - 1` holds a load.
pub open spec fn remembered(ir: Seq<IRInstruction>, i: int) -> Option<(MyU256, MyU256)>
    decreases i,
{
    if i <= 0 || i > ir.len() {
        None
    } else {
        match ir[i - 1] {
            IRInstruction::LoadConst { dest, value } => match remembered(ir, i - 1) {
                Some((first, v)) => if v == value {
                    Some((first, v))
                } else {
                    Some((dest, value))
                },
                None => Some((dest, value)),
            },
            _ => None,
        }
    }
}

/// What the pass puts at position `i`: a move from the remembered
/// destination in place of a load of the remembered value, and the operation
/// itself otherwise.
pub open spec fn optimized_at(ir: Seq<IRInstruction>, i: int) -> IRInstruction {
    match ir[i] {
        IRInstruction::LoadConst { dest, value } => match remembered(ir, i) {
            Some((first, v)) => if v == value {
                IRInstruction::UnaryOp { op: "mov", dest, src: first }
            } else {
                ir[i]
            },
            None => ir[i],
        },
        _ => ir[i],
    }
}

/// Folds redundant constant loads: a load of the value that the load just
/// before it brought becomes a move from that load's destination. Order and
/// length are kept.
pub fn optimize_ir(ir: &[IRInstruction]) -> (optimized: Vec<IRInstruction>)
    ensures
        optimized@.len() == ir@.len(),
        forall|i: int| 0 <= i < ir@.len() ==> optimized@[i] == optimized_at(ir@, i),
{
    let mut optimized: Vec<IRInstruction> = Vec::new();
    let mut last_load: Option<(MyU256, MyU256)> = None;
    let mut i: usize = 0;
    while i < ir.len()
        invariant
            i <= ir@.len(),
            optimized@.len() == i,
            last_load == remembered(ir@, i as int),
            forall|k: int| 0 <= k < i ==> optimized@[k] == optimized_at(ir@, k),
        decreases ir@.len() - i,
    {
        let inst = ir[i];
        let mut out = inst;
        match inst {
            IRInstruction::LoadConst { dest, value } => {
                let mut folded = false;
                if let Some((last_dest, last_value)) = last_load {
                    if value == last_value {
                        out = IRInstruction::UnaryOp { op: "mov", dest, src: last_dest };
                        folded = true;
                    }
                }
                if !folded {
                    last_load = Some((dest, value));
                }
            },
            _ => {
                last_load = None;
            },
        }
        optimized.push(out);
        i += 1;
    }
    optimized
}

/// Of two adjacent loads of one value, the second becomes a move into its
/// own destination from the destination of the first. Stated of a first
/// load that the pass keeps: where the first is itself folded, the move
/// reads from the load that its run began with.
pub proof fn law_adjacent_loads_fold(ir: Seq<IRInstruction>, i: int)
    requires
        0 <= i,
        i + 1 < ir.len(),
        ir[i] is LoadConst,
        ir[i + 1] is LoadConst,
        ir[i]->LoadConst_value == ir[i + 1]->LoadConst_value,
        optimized_at(ir, i) == ir[i],
    ensures
        optimized_at(ir, i + 1) == (IRInstruction::UnaryOp {
            op: "mov",
            dest: ir[i + 1]->LoadConst_dest,
            src: ir[i]->LoadConst_dest,
        }),
{
}

/// The second of two adjacent loads of one value always becomes a move into
/// its own destination.
pub proof fn law_second_load_is_move(ir: Seq<IRInstruction>, i: int)
    requires
        0 <= i,
        i + 1 < ir.len(),
        ir[i] is LoadConst,
        ir[i + 1] is LoadConst,
        ir[i]->LoadConst_value == ir[i + 1]->LoadConst_value,
    ensures
        optimized_at(ir, i + 1) matches IRInstruction::UnaryOp { op, dest, src } && op == "mov"
            && dest == ir[i + 1]->LoadConst_dest,
{
}

/// Whatever is not a load passes through unchanged.
pub proof fn law_other_operations_kept(ir: Seq<IRInstruction>, i: int)
    requires
        0 <= i < ir.len(),
        !(ir[i] is LoadConst),
    ensures
        optimized_at(ir, i) == ir[i],
{
}

} // verus!
