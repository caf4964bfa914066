//! Runtime validation of a loaded program against the well-formedness the
//! decompiler's contracts assume: a caller that obtained a program from an
//! outside loader checks it here before emission.

use vstd::prelude::*;

use crate::ir::{
    invoke_wf, stmt_wf, type_wf_at, types_wf, OpKind, Program, Statement, TypeDesc,
};

verus! {

/// True exactly when every reference in `ids` is below `bound`.
fn refs_below(ids: &Vec<usize>, bound: usize) -> (b: bool)
    ensures
        b == (forall|j: int| 0 <= j < ids@.len() ==> (ids@[j] as int) < bound),
{
    let mut j: usize = 0;
    while j < ids.len()
        invariant
            j <= ids@.len(),
            forall|k: int| 0 <= k < j ==> (ids@[k] as int) < bound,
        decreases ids@.len() - j,
    {
        if ids[j] >= bound {
            return false;
        }
        j = j + 1;
    }
    true
}

/// True exactly when the type catalog only refers backward.
fn check_types(types: &Vec<TypeDesc>) -> (b: bool)
    ensures
        b == types_wf(types@),
{
    let mut i: usize = 0;
    while i < types.len()
        invariant
            i <= types@.len(),
            forall|k: int| 0 <= k < i ==> #[trigger] type_wf_at(types@, k),
        decreases types@.len() - i,
    {
        let good = match &types[i] {
            TypeDesc::Scalar(_) => true,
            TypeDesc::Array(e) => *e < i,
            TypeDesc::Wrapper(_, e) => *e < i,
            TypeDesc::Record(ms) => refs_below(ms, i),
            TypeDesc::Union(vs) => refs_below(vs, i),
            TypeDesc::ConstVal { digits: _, inner } => *inner < i,
        };
        if !good {
            proof {
                assert(!type_wf_at(types@, i as int));
            }
            return false;
        }
        proof {
            assert(type_wf_at(types@, i as int));
        }
        i = i + 1;
    }
    true
}

/// True exactly when one statement has the shape its operator's kind
/// dictates.
fn check_statement(p: &Program, s: &Statement) -> (b: bool)
    ensures
        b == stmt_wf(*p, *s),
{
    match s {
        Statement::Return { vars: _ } => true,
        Statement::Invoke { op, args, branches } => {
            if *op >= p.ops.len() {
                return true;
            }
            let d = &p.ops[*op];
            let n = p.statements.len();
            let single = branches.len() == 1 && branches[0].target < n;
            let emits_one = single && branches[0].results.len() >= 1 && d.branch_results.len() >= 1
                && d.branch_results[0].len() >= 1;
            match d.kind {
                OpKind::ApTrack | OpKind::BranchAlign | OpKind::StoreTemp | OpKind::StoreLocal
                    | OpKind::FinalizeLocals | OpKind::AllocLocal => single,
                OpKind::GasReserve => true,
                OpKind::DropVal => single && args.len() >= 1,
                OpKind::ArrayNew => emits_one,
                OpKind::ArrayAppend => emits_one && args.len() >= 2,
                OpKind::RecordBuild => emits_one,
                OpKind::UnionInit { variant: _ } => emits_one,
                OpKind::ConstImm { const_ty } => emits_one && (const_ty >= p.types.len()
                    || matches!(&p.types[const_ty], TypeDesc::ConstVal { .. })),
                OpKind::CheckedAdd | OpKind::CheckedSub => branches.len() == 2
                    && branches[0].target < n && branches[1].target < n
                    && branches[0].results.len() >= 1 && branches[1].results.len() >= 2
                    && args.len() >= 3 && d.branch_results.len() >= 2
                    && d.branch_results[0].len() >= 1 && d.branch_results[1].len() >= 2,
                OpKind::Unrecognized => true,
            }
        },
    }
}

/// Decides the whole well-formedness predicate the emitters assume: the
/// type catalog only refers backward, every statement has the shape its
/// operator's kind dictates, and every function's entry point is a real
/// statement.  Returns true exactly on well-formed programs.
pub fn check_program(p: &Program) -> (b: bool)
    ensures
        b == p.wf(),
{
    if !check_types(&p.types) {
        return false;
    }
    let mut i: usize = 0;
    while i < p.statements.len()
        invariant
            types_wf(p.types@),
            i <= p.statements@.len(),
            forall|k: int| 0 <= k < i ==> stmt_wf(*p, #[trigger] p.statements@[k]),
        decreases p.statements@.len() - i,
    {
        if !check_statement(p, &p.statements[i]) {
            return false;
        }
        i = i + 1;
    }
    let mut f: usize = 0;
    while f < p.funcs.len()
        invariant
            types_wf(p.types@),
            forall|k: int| 0 <= k < p.statements@.len() ==> stmt_wf(*p, #[trigger] p.statements@[k]),
            f <= p.funcs@.len(),
            forall|k: int|
                0 <= k < f ==> (#[trigger] p.funcs@[k]).entry < p.statements@.len(),
        decreases p.funcs@.len() - f,
    {
        if p.funcs[f].entry >= p.statements.len() {
            return false;
        }
        f = f + 1;
    }
    true
}

} // verus!
