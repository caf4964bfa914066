//! The decompiler's laws: on branching trees the walker terminates and
//! visits each statement it reaches exactly once; a return emits exactly
//! its comma-joined identifiers and ends its path; an unsupported operator
//! aborts without emitting; and a completed checked-arithmetic step emits
//! one destructuring binding followed by exactly an `if` and an `else`
//! block whose pass-through bindings carry the catalog's declared types.

use vstd::prelude::*;

use crate::ir::{
    all_results, invoke_wf, stmt_wf, type_wf_at, types_wf, Branch, EmitError, OpKind, Program,
    Statement, TypeDesc,
};
use crate::resolver::type_txt;
use crate::text::{dec_txt, digit_txt, indent_txt, var_txt, vars_txt};
use crate::walker::{
    checked_else_step, checked_head_txt, checked_tail_step, checked_step, close_txt, else_txt,
    if_open_txt, passthrough_txt, return_txt, walk, walk_invoke,
};

verus! {

/// Every resolution failure is a `TypeNotFound` naming the unresolvable
/// reference: the resolver raises no other error.
pub proof fn lemma_type_txt_err_kind(ts: Seq<TypeDesc>, id: usize)
    requires
        types_wf(ts),
    ensures
        match type_txt(ts, id) {
            Ok(_) => true,
            Err(e) => e is TypeNotFound,
        },
    decreases id, 1int, 0int,
{
    if (id as int) < ts.len() {
        assert(type_wf_at(ts, id as int));
        match ts[id as int] {
            TypeDesc::Array(e) => lemma_type_txt_err_kind(ts, e),
            TypeDesc::Wrapper(_, e) => lemma_type_txt_err_kind(ts, e),
            TypeDesc::Record(ms) => lemma_type_list_err_kind(ts, ms@, id as int),
            TypeDesc::Union(vs) => lemma_type_list_err_kind(ts, vs@, id as int),
            _ => {},
        }
    }
}

proof fn lemma_type_list_err_kind(ts: Seq<TypeDesc>, ids: Seq<usize>, b: int)
    requires
        types_wf(ts),
        forall|j: int| 0 <= j < ids.len() ==> (ids[j] as int) < b,
    ensures
        match crate::resolver::type_list_txt(ts, ids, b, true) {
            Ok(_) => true,
            Err(e) => e is TypeNotFound,
        },
        match crate::resolver::type_list_txt(ts, ids, b, false) {
            Ok(_) => true,
            Err(e) => e is TypeNotFound,
        },
    decreases b, 0int, ids.len(),
{
    if ids.len() > 0 {
        assert((ids[0] as int) < b);
        lemma_type_txt_err_kind(ts, ids[0]);
        assert forall|k: int| 0 <= k < ids.drop_first().len() implies (ids.drop_first()[k] as int)
            < b by {
            assert(ids.drop_first()[k] == ids[k + 1]);
        }
        lemma_type_list_err_kind(ts, ids.drop_first(), b);
    }
}

/// No back-edges: every branch of every invocation jumps strictly forward
/// in the flat statement list.
pub open spec fn forward_edges(p: Program) -> bool {
    forall|i: int, b: int|
        (0 <= i < p.statements@.len() && p.statements@[i] is Invoke
            && 0 <= b < p.statements@[i]->Invoke_branches@.len())
            ==> ((#[trigger] p.statements@[i]->Invoke_branches@[b]).target as int) > i
}

/// On a program whose branch graph has no back-edges, the walk never runs
/// out of fuel: started with one unit per remaining statement it never
/// reports a control-flow cycle, so the walker terminates with either its
/// text or a lookup/support error.
#[verifier::rlimit(100)]
#[verifier::spinoff_prover]
pub proof fn lemma_walk_terminates(p: Program, idx: usize, depth: nat, fuel: nat)
    requires
        p.wf(),
        forward_edges(p),
        (idx as int) < p.statements@.len(),
        fuel >= p.statements@.len() - idx,
    ensures
        match walk(p, idx, depth, fuel).err {
            Some(e) => !(e is CycleDetected),
            None => true,
        },
    decreases fuel,
{
    let n = p.statements@.len() as int;
    let w = walk(p, idx, depth, fuel);
    let tabs = indent_txt(depth);
    match p.statements@[idx as int] {
        Statement::Return { vars: _ } => {},
        Statement::Invoke { op, args, branches } => {
            if (op as int) < p.ops@.len() {
                assert(stmt_wf(p, p.statements@[idx as int]));
                assert(invoke_wf(p, p.ops@[op as int], args@, branches@));
                let d = p.ops@[op as int];
                let ds = all_results(branches@);
                assert(w == walk_invoke(p, idx, depth, fuel, d, args@, branches@, ds, tabs));
                match d.kind {
                    OpKind::ApTrack | OpKind::BranchAlign | OpKind::StoreTemp
                        | OpKind::StoreLocal | OpKind::FinalizeLocals | OpKind::AllocLocal
                        | OpKind::DropVal => {
                        assert(((p.statements@[idx as int]->Invoke_branches@[0]).target as int)
                            > idx);
                        lemma_walk_terminates(p, branches@[0].target, depth, (fuel - 1) as nat);
                        assert(w.err == walk(
                            p,
                            branches@[0].target,
                            depth,
                            (fuel - 1) as nat,
                        ).err);
                    },
                    OpKind::GasReserve => {},
                    OpKind::ArrayNew | OpKind::ArrayAppend | OpKind::RecordBuild => {
                        lemma_type_txt_err_kind(p.types@, d.branch_results@[0]@[0]);
                        assert(((p.statements@[idx as int]->Invoke_branches@[0]).target as int)
                            > idx);
                        lemma_walk_terminates(p, branches@[0].target, depth, (fuel - 1) as nat);
                    },
                    OpKind::UnionInit { variant: _ } => {
                        lemma_type_txt_err_kind(p.types@, d.branch_results@[0]@[0]);
                        assert(((p.statements@[idx as int]->Invoke_branches@[0]).target as int)
                            > idx);
                        lemma_walk_terminates(p, branches@[0].target, depth, (fuel - 1) as nat);
                    },
                    OpKind::ConstImm { const_ty: _ } => {
                        lemma_type_txt_err_kind(p.types@, d.branch_results@[0]@[0]);
                        assert(((p.statements@[idx as int]->Invoke_branches@[0]).target as int)
                            > idx);
                        lemma_walk_terminates(p, branches@[0].target, depth, (fuel - 1) as nat);
                    },
                    OpKind::CheckedAdd | OpKind::CheckedSub => {
                        assert(((p.statements@[idx as int]->Invoke_branches@[0]).target as int)
                            > idx);
                        assert(((p.statements@[idx as int]->Invoke_branches@[1]).target as int)
                            > idx);
                        assert(w == checked_step(p, idx, depth, fuel, d, args@, branches@, ds,
                            tabs));
                        lemma_type_txt_err_kind(p.types@, d.branch_results@[1]@[1]);
                        match type_txt(p.types@, d.branch_results@[1]@[1]) {
                            Err(_) => {},
                            Ok(_) => {
                                let t = checked_tail_step(p, depth, fuel, d, args@, branches@, tabs);
                                assert(w.err == t.err);
                                lemma_type_txt_err_kind(p.types@, d.branch_results@[0]@[0]);
                                match type_txt(p.types@, d.branch_results@[0]@[0]) {
                                    Err(_) => {},
                                    Ok(_) => {
                                        let sub0 = walk(
                                            p,
                                            branches@[0].target,
                                            depth + 1,
                                            (fuel - 1) as nat,
                                        );
                                        lemma_walk_terminates(
                                            p,
                                            branches@[0].target,
                                            depth + 1,
                                            (fuel - 1) as nat,
                                        );
                                        if sub0.err is Some {
                                            assert(t.err == sub0.err);
                                        } else {
                                            let e = checked_else_step(
                                                p,
                                                depth,
                                                fuel,
                                                d,
                                                args@,
                                                branches@,
                                                tabs,
                                            );
                                            assert(t.err == e.err);
                                            lemma_type_txt_err_kind(
                                                p.types@,
                                                d.branch_results@[1]@[0],
                                            );
                                            match type_txt(p.types@, d.branch_results@[1]@[0]) {
                                                Err(_) => {},
                                                Ok(_) => {
                                                    lemma_walk_terminates(
                                                        p,
                                                        branches@[1].target,
                                                        depth + 1,
                                                        (fuel - 1) as nat,
                                                    );
                                                    assert(e.err == walk(
                                                        p,
                                                        branches@[1].target,
                                                        depth + 1,
                                                        (fuel - 1) as nat,
                                                    ).err);
                                                },
                                            }
                                        }
                                    },
                                }
                            },
                        }
                    },
                    OpKind::Unrecognized => {},
                }
            }
        },
    }
}

/// The branches of the invocation at index `i`.
pub open spec fn stmt_branches(p: Program, i: int) -> Seq<Branch> {
    p.statements@[i]->Invoke_branches@
}

/// `i` indexes an invocation of the statement list.
pub open spec fn is_invoke(p: Program, i: int) -> bool {
    0 <= i < p.statements@.len() && p.statements@[i] is Invoke
}

/// Some branch of the invocation at `a` targets the statement at `x`.
pub open spec fn has_edge(p: Program, a: int, x: int) -> bool {
    is_invoke(p, a) && exists|b: int|
        0 <= b < stmt_branches(p, a).len() && ((#[trigger] stmt_branches(p, a)[b]).target as int)
            == x
}

/// The branch graph is a tree: no two distinct branches of any invocations
/// share a target, so every statement has at most one incoming edge.
pub open spec fn unique_targets(p: Program) -> bool {
    forall|i1: int, b1: int, i2: int, b2: int|
        (is_invoke(p, i1) && 0 <= b1 < stmt_branches(p, i1).len() && is_invoke(p, i2) && 0 <= b2
            < stmt_branches(p, i2).len() && (#[trigger] stmt_branches(p, i1)[b1]).target == (
        #[trigger] stmt_branches(p, i2)[b2]).target) ==> (i1 == i2 && b1 == b2)
}

/// Every statement a walk visits lies between its start and the end of the
/// statement list, and a walk with fuel starts by visiting its start.
pub proof fn lemma_visits_bounds(p: Program, idx: usize, depth: nat, fuel: nat)
    requires
        p.wf(),
        forward_edges(p),
        (idx as int) < p.statements@.len(),
    ensures
        ({
            let w = walk(p, idx, depth, fuel);
            &&& (fuel >= 1 ==> w.visits.len() >= 1 && w.visits[0] == idx as int)
            &&& forall|k: int|
                0 <= k < w.visits.len() ==> (idx as int) <= #[trigger] w.visits[k]
                    < p.statements@.len()
        }),
    decreases fuel, 1int,
{
    if fuel >= 1 {
        let w = walk(p, idx, depth, fuel);
        let tabs = indent_txt(depth);
        match p.statements@[idx as int] {
            Statement::Return { vars: _ } => {},
            Statement::Invoke { op, args, branches } => {
                if (op as int) < p.ops@.len() {
                    assert(stmt_wf(p, p.statements@[idx as int]));
                    assert(invoke_wf(p, p.ops@[op as int], args@, branches@));
                    let d = p.ops@[op as int];
                    let ds = all_results(branches@);
                    assert(w == walk_invoke(p, idx, depth, fuel, d, args@, branches@, ds, tabs));
                    match d.kind {
                        OpKind::ApTrack | OpKind::BranchAlign | OpKind::StoreTemp
                            | OpKind::StoreLocal | OpKind::FinalizeLocals | OpKind::AllocLocal
                            | OpKind::DropVal => {
                            single_target_bounds(p, idx, depth, fuel, branches@);
                        },
                        OpKind::GasReserve => {},
                        OpKind::ArrayNew | OpKind::ArrayAppend | OpKind::RecordBuild => {
                            match type_txt(p.types@, d.branch_results@[0]@[0]) {
                                Err(_) => {},
                                Ok(_) => {
                                    single_target_bounds(p, idx, depth, fuel, branches@);
                                },
                            }
                        },
                        OpKind::UnionInit { variant: _ } => {
                            match type_txt(p.types@, d.branch_results@[0]@[0]) {
                                Err(_) => {},
                                Ok(_) => {
                                    single_target_bounds(p, idx, depth, fuel, branches@);
                                },
                            }
                        },
                        OpKind::ConstImm { const_ty } => {
                            match type_txt(p.types@, d.branch_results@[0]@[0]) {
                                Err(_) => {},
                                Ok(_) => {
                                    if (const_ty as int) < p.types@.len()
                                        && p.types@[const_ty as int] is ConstVal {
                                        single_target_bounds(p, idx, depth, fuel, branches@);
                                    }
                                },
                            }
                        },
                        OpKind::CheckedAdd | OpKind::CheckedSub => {
                            assert(w == checked_step(p, idx, depth, fuel, d, args@, branches@, ds,
                                tabs));
                            assert(((p.statements@[idx as int]->Invoke_branches@[0]).target as int)
                                > idx);
                            assert(((p.statements@[idx as int]->Invoke_branches@[1]).target as int)
                                > idx);
                            let t0 = branches@[0].target;
                            let t1 = branches@[1].target;
                            match type_txt(p.types@, d.branch_results@[1]@[1]) {
                                Err(_) => {},
                                Ok(_) => {
                                    let t = checked_tail_step(p, depth, fuel, d, args@, branches@,
                                        tabs);
                                    assert(w.visits == seq![idx as int] + t.visits);
                                    match type_txt(p.types@, d.branch_results@[0]@[0]) {
                                        Err(_) => {},
                                        Ok(_) => {
                                            let sub0 = walk(p, t0, depth + 1, (fuel - 1) as nat);
                                            lemma_visits_bounds(p, t0, depth + 1, (fuel - 1) as nat);
                                            if sub0.err is Some {
                                            } else {
                                                let e = checked_else_step(p, depth, fuel, d, args@,
                                                    branches@, tabs);
                                                assert(t.visits == sub0.visits + e.visits);
                                                match type_txt(p.types@, d.branch_results@[1]@[0]) {
                                                    Err(_) => {},
                                                    Ok(_) => {
                                                        lemma_visits_bounds(
                                                            p,
                                                            t1,
                                                            depth + 1,
                                                            (fuel - 1) as nat,
                                                        );
                                                    },
                                                }
                                            }
                                        },
                                    }
                                },
                            }
                        },
                        OpKind::Unrecognized => {},
                    }
                }
            },
        }
    }
}

/// Bounds for the single-branch continuation arms.
proof fn single_target_bounds(p: Program, idx: usize, depth: nat, fuel: nat, branches: Seq<Branch>)
    requires
        p.wf(),
        forward_edges(p),
        fuel >= 1,
        (idx as int) < p.statements@.len(),
        p.statements@[idx as int] is Invoke,
        p.statements@[idx as int]->Invoke_branches@ == branches,
        branches.len() >= 1,
        (branches[0].target as int) < p.statements@.len(),
    ensures
        ({
            let sub = walk(p, branches[0].target, depth, (fuel - 1) as nat);
            &&& (branches[0].target as int) > idx
            &&& forall|k: int|
                0 <= k < sub.visits.len() ==> (idx as int) < #[trigger] sub.visits[k]
                    < p.statements@.len()
        }),
    decreases fuel, 0int,
{
    assert(((p.statements@[idx as int]->Invoke_branches@[0]).target as int) > idx);
    lemma_visits_bounds(p, branches[0].target, depth, (fuel - 1) as nat);
}

/// Within one walk, every visited statement other than the start was
/// entered through a branch of another visited statement.
#[verifier::rlimit(100)]
#[verifier::spinoff_prover]
pub proof fn lemma_visits_edges(p: Program, idx: usize, depth: nat, fuel: nat)
    requires
        p.wf(),
        forward_edges(p),
        (idx as int) < p.statements@.len(),
    ensures
        ({
            let w = walk(p, idx, depth, fuel);
            forall|k: int|
                0 <= k < w.visits.len() ==> (#[trigger] w.visits[k]) == idx as int || exists|m: int|
                    0 <= m < w.visits.len() && has_edge(p, w.visits[m], w.visits[k])
        }),
    decreases fuel, 1int,
{
    if fuel >= 1 {
        let w = walk(p, idx, depth, fuel);
        let tabs = indent_txt(depth);
        match p.statements@[idx as int] {
            Statement::Return { vars: _ } => {},
            Statement::Invoke { op, args, branches } => {
                if (op as int) < p.ops@.len() {
                    assert(stmt_wf(p, p.statements@[idx as int]));
                    assert(invoke_wf(p, p.ops@[op as int], args@, branches@));
                    let d = p.ops@[op as int];
                    let ds = all_results(branches@);
                    assert(w == walk_invoke(p, idx, depth, fuel, d, args@, branches@, ds, tabs));
                    match d.kind {
                        OpKind::ApTrack | OpKind::BranchAlign | OpKind::StoreTemp
                            | OpKind::StoreLocal | OpKind::FinalizeLocals | OpKind::AllocLocal
                            | OpKind::DropVal => {
                            chain_edges(p, idx, depth, fuel, branches@);
                        },
                        OpKind::GasReserve => {},
                        OpKind::ArrayNew | OpKind::ArrayAppend | OpKind::RecordBuild => {
                            match type_txt(p.types@, d.branch_results@[0]@[0]) {
                                Err(_) => {},
                                Ok(_) => {
                                    chain_edges(p, idx, depth, fuel, branches@);
                                },
                            }
                        },
                        OpKind::UnionInit { variant: _ } => {
                            match type_txt(p.types@, d.branch_results@[0]@[0]) {
                                Err(_) => {},
                                Ok(_) => {
                                    chain_edges(p, idx, depth, fuel, branches@);
                                },
                            }
                        },
                        OpKind::ConstImm { const_ty } => {
                            match type_txt(p.types@, d.branch_results@[0]@[0]) {
                                Err(_) => {},
                                Ok(_) => {
                                    if (const_ty as int) < p.types@.len()
                                        && p.types@[const_ty as int] is ConstVal {
                                        chain_edges(p, idx, depth, fuel, branches@);
                                    }
                                },
                            }
                        },
                        OpKind::CheckedAdd | OpKind::CheckedSub => {
                            assert(w == checked_step(p, idx, depth, fuel, d, args@, branches@, ds,
                                tabs));
                            let t0 = branches@[0].target;
                            let t1 = branches@[1].target;
                            match type_txt(p.types@, d.branch_results@[1]@[1]) {
                                Err(_) => {},
                                Ok(_) => {
                                    let t = checked_tail_step(p, depth, fuel, d, args@, branches@,
                                        tabs);
                                    assert(w.visits == seq![idx as int] + t.visits);
                                    match type_txt(p.types@, d.branch_results@[0]@[0]) {
                                        Err(_) => {},
                                        Ok(_) => {
                                            let sub0 = walk(p, t0, depth + 1, (fuel - 1) as nat);
                                            lemma_visits_edges(p, t0, depth + 1, (fuel - 1) as nat);
                                            lemma_visits_bounds(p, t0, depth + 1, (fuel - 1) as nat);
                                            if sub0.err is Some {
                                                assert(w.visits =~= seq![idx as int] + sub0.visits
                                                    + Seq::<int>::empty());
                                                branching_edges(
                                                    p,
                                                    idx,
                                                    t0,
                                                    t1,
                                                    w.visits,
                                                    sub0.visits,
                                                    Seq::<int>::empty(),
                                                );
                                            } else {
                                                let e = checked_else_step(p, depth, fuel, d, args@,
                                                    branches@, tabs);
                                                match type_txt(p.types@, d.branch_results@[1]@[0]) {
                                                    Err(_) => {
                                                        assert(w.visits =~= seq![idx as int]
                                                            + sub0.visits + Seq::<int>::empty());
                                                        branching_edges(
                                                            p,
                                                            idx,
                                                            t0,
                                                            t1,
                                                            w.visits,
                                                            sub0.visits,
                                                            Seq::<int>::empty(),
                                                        );
                                                    },
                                                    Ok(_) => {
                                                        let sub1 = walk(
                                                            p,
                                                            t1,
                                                            depth + 1,
                                                            (fuel - 1) as nat,
                                                        );
                                                        lemma_visits_edges(
                                                            p,
                                                            t1,
                                                            depth + 1,
                                                            (fuel - 1) as nat,
                                                        );
                                                        lemma_visits_bounds(
                                                            p,
                                                            t1,
                                                            depth + 1,
                                                            (fuel - 1) as nat,
                                                        );
                                                        assert(w.visits =~= seq![idx as int]
                                                            + sub0.visits + sub1.visits);
                                                        branching_edges(
                                                            p,
                                                            idx,
                                                            t0,
                                                            t1,
                                                            w.visits,
                                                            sub0.visits,
                                                            sub1.visits,
                                                        );
                                                    },
                                                }
                                            }
                                        },
                                    }
                                },
                            }
                        },
                        OpKind::Unrecognized => {},
                    }
                }
            },
        }
    }
}

/// The edge property carried over a single-branch continuation.
#[verifier::rlimit(100)]
#[verifier::spinoff_prover]
proof fn chain_edges(p: Program, idx: usize, depth: nat, fuel: nat, branches: Seq<Branch>)
    requires
        p.wf(),
        forward_edges(p),
        fuel >= 1,
        (idx as int) < p.statements@.len(),
        p.statements@[idx as int] is Invoke,
        p.statements@[idx as int]->Invoke_branches@ == branches,
        branches.len() >= 1,
        (branches[0].target as int) < p.statements@.len(),
    ensures
        ({
            let sub = walk(p, branches[0].target, depth, (fuel - 1) as nat);
            let vis = seq![idx as int] + sub.visits;
            forall|k: int|
                0 <= k < vis.len() ==> (#[trigger] vis[k]) == idx as int || exists|m: int|
                    0 <= m < vis.len() && has_edge(p, vis[m], vis[k])
        }),
    decreases fuel, 0int,
{
    let t = branches[0].target;
    lemma_visits_edges(p, t, depth, (fuel - 1) as nat);
    let sub = walk(p, t, depth, (fuel - 1) as nat);
    let vis = seq![idx as int] + sub.visits;
    assert(stmt_branches(p, idx as int)[0].target == t);
    assert forall|k: int|
        0 <= k < vis.len() implies (#[trigger] vis[k]) == idx as int || exists|m: int|
            0 <= m < vis.len() && has_edge(p, vis[m], vis[k]) by {
        if k >= 1 {
            let x = vis[k];
            assert(x == sub.visits[k - 1]);
            if x == t as int {
                assert(has_edge(p, idx as int, x));
                assert(vis[0] == idx as int);
                assert(0 <= 0 < vis.len() && has_edge(p, vis[0], vis[k]));
            } else if x != idx as int {
                let m0 = choose|m: int|
                    0 <= m < sub.visits.len() && #[trigger] has_edge(p, sub.visits[m], x);
                assert(vis[m0 + 1] == sub.visits[m0]);
                assert(0 <= m0 + 1 < vis.len() && has_edge(p, vis[m0 + 1], vis[k]));
            }
        }
    }
}

/// The edge property carried over the two blocks of a checked step.
proof fn branching_edges(
    p: Program,
    idx: usize,
    t0: usize,
    t1: usize,
    vis: Seq<int>,
    v0: Seq<int>,
    v1: Seq<int>,
)
    requires
        is_invoke(p, idx as int),
        stmt_branches(p, idx as int).len() >= 2,
        stmt_branches(p, idx as int)[0].target == t0,
        stmt_branches(p, idx as int)[1].target == t1,
        vis == seq![idx as int] + v0 + v1,
        forall|k: int|
            0 <= k < v0.len() ==> (#[trigger] v0[k]) == t0 as int || exists|m: int|
                0 <= m < v0.len() && has_edge(p, v0[m], v0[k]),
        forall|k: int|
            0 <= k < v1.len() ==> (#[trigger] v1[k]) == t1 as int || exists|m: int|
                0 <= m < v1.len() && has_edge(p, v1[m], v1[k]),
    ensures
        forall|k: int|
            0 <= k < vis.len() ==> (#[trigger] vis[k]) == idx as int || exists|m: int|
                0 <= m < vis.len() && has_edge(p, vis[m], vis[k]),
{
    assert forall|k: int|
        0 <= k < vis.len() implies (#[trigger] vis[k]) == idx as int || exists|m: int|
            0 <= m < vis.len() && has_edge(p, vis[m], vis[k]) by {
        if k >= 1 && vis[k] != idx as int {
            let x = vis[k];
            assert(vis[0] == idx as int);
            if k < 1 + v0.len() {
                assert(x == v0[k - 1]);
                if x == t0 as int {
                    assert(has_edge(p, idx as int, x));
                    assert(0 <= 0 < vis.len() && has_edge(p, vis[0], vis[k]));
                } else {
                    let m0 = choose|m: int| 0 <= m < v0.len() && #[trigger] has_edge(p, v0[m], v0[k - 1]);
                    assert(vis[m0 + 1] == v0[m0]);
                    assert(0 <= m0 + 1 < vis.len() && has_edge(p, vis[m0 + 1], vis[k]));
                }
            } else {
                assert(x == v1[k - 1 - v0.len()]);
                if x == t1 as int {
                    assert(has_edge(p, idx as int, x));
                    assert(0 <= 0 < vis.len() && has_edge(p, vis[0], vis[k]));
                } else {
                    let m1 = choose|m: int|
                        0 <= m < v1.len() && #[trigger] has_edge(p, v1[m], v1[k - 1 - v0.len()]);
                    assert(vis[m1 + 1 + v0.len()] == v1[m1]);
                    assert(0 <= m1 + 1 + v0.len() < vis.len() && has_edge(
                        p,
                        vis[m1 + 1 + v0.len()],
                        vis[k],
                    ));
                }
            }
        }
    }
}

/// On a tree, the walks of two distinct branches of one invocation visit
/// disjoint statements: were `x` visited by both, its unique incoming edge
/// would have to come from both walks, and following it backward forever
/// contradicts the forward order.
#[verifier::rlimit(100)]
#[verifier::spinoff_prover]
proof fn lemma_branch_subwalks_disjoint(
    p: Program,
    parent: usize,
    t0: usize,
    t1: usize,
    d0: nat,
    d1: nat,
    f0: nat,
    f1: nat,
    x: int,
)
    requires
        p.wf(),
        forward_edges(p),
        unique_targets(p),
        is_invoke(p, parent as int),
        stmt_branches(p, parent as int).len() >= 2,
        stmt_branches(p, parent as int)[0].target == t0,
        stmt_branches(p, parent as int)[1].target == t1,
        (parent as int) < t0 as int,
        (parent as int) < t1 as int,
        (t0 as int) < p.statements@.len(),
        (t1 as int) < p.statements@.len(),
    ensures
        !(walk(p, t0, d0, f0).visits.contains(x) && walk(p, t1, d1, f1).visits.contains(x)),
    decreases x,
{
    let v0 = walk(p, t0, d0, f0).visits;
    let v1 = walk(p, t1, d1, f1).visits;
    if v0.contains(x) && v1.contains(x) {
        lemma_visits_bounds(p, t0, d0, f0);
    lemma_visits_bounds(p, t1, d1, f1);
    lemma_visits_edges(p, t0, d0, f0);
    lemma_visits_edges(p, t1, d1, f1);
    let k0 = choose|k: int| 0 <= k < v0.len() && v0[k] == x;
    let k1 = choose|k: int| 0 <= k < v1.len() && v1[k] == x;
    assert(v0[k0] == x && v1[k1] == x);
    assert(t0 as int <= x < p.statements@.len());
    assert(t1 as int <= x);
    if x == t0 as int && x == t1 as int {
        assert(stmt_branches(p, parent as int)[0].target == stmt_branches(
            p,
            parent as int,
        )[1].target);
        assert(false);
    } else if x == t0 as int {
        let m1 = choose|m: int| 0 <= m < v1.len() && #[trigger] has_edge(p, v1[m], x);
        let a = v1[m1];
        let bb = choose|b: int|
            0 <= b < stmt_branches(p, a).len() && ((#[trigger] stmt_branches(p, a)[b]).target
                as int) == x;
        assert(stmt_branches(p, a)[bb].target == stmt_branches(p, parent as int)[0].target);
        assert(a == parent as int);
        assert(a >= t1 as int);
        assert(false);
    } else if x == t1 as int {
        let m0 = choose|m: int| 0 <= m < v0.len() && #[trigger] has_edge(p, v0[m], x);
        let a = v0[m0];
        let bb = choose|b: int|
            0 <= b < stmt_branches(p, a).len() && ((#[trigger] stmt_branches(p, a)[b]).target
                as int) == x;
        assert(stmt_branches(p, a)[bb].target == stmt_branches(p, parent as int)[1].target);
        assert(a == parent as int);
        assert(a >= t0 as int);
        assert(false);
    } else {
        let m0 = choose|m: int| 0 <= m < v0.len() && #[trigger] has_edge(p, v0[m], x);
        let m1 = choose|m: int| 0 <= m < v1.len() && #[trigger] has_edge(p, v1[m], x);
        let a0 = v0[m0];
        let a1 = v1[m1];
        let b0 = choose|b: int|
            0 <= b < stmt_branches(p, a0).len() && ((#[trigger] stmt_branches(p, a0)[b]).target
                as int) == x;
        let b1 = choose|b: int|
            0 <= b < stmt_branches(p, a1).len() && ((#[trigger] stmt_branches(p, a1)[b]).target
                as int) == x;
        assert(stmt_branches(p, a0)[b0].target == stmt_branches(p, a1)[b1].target);
        assert(a0 == a1 && b0 == b1);
        assert(((p.statements@[a0]->Invoke_branches@[b0]).target as int) > a0);
        assert(a0 < x);
        assert(v0.contains(a0));
        assert(v1.contains(a0));
        lemma_branch_subwalks_disjoint(p, parent, t0, t1, d0, d1, f0, f1, a0);
    }
    }
}

/// The walk from any statement never visits a statement twice on a tree:
/// together with the containment and edge lemmas this is the heart of the
/// visits-each-statement-once guarantee.
#[verifier::rlimit(100)]
#[verifier::spinoff_prover]
pub proof fn lemma_visits_once(p: Program, idx: usize, depth: nat, fuel: nat)
    requires
        p.wf(),
        forward_edges(p),
        unique_targets(p),
        (idx as int) < p.statements@.len(),
    ensures
        ({
            let w = walk(p, idx, depth, fuel);
            forall|k1: int, k2: int|
                0 <= k1 < k2 < w.visits.len() ==> #[trigger] w.visits[k1] != #[trigger] w.visits[k2]
        }),
    decreases fuel, 1int,
{
    if fuel >= 1 {
        let w = walk(p, idx, depth, fuel);
        let tabs = indent_txt(depth);
        match p.statements@[idx as int] {
            Statement::Return { vars: _ } => {},
            Statement::Invoke { op, args, branches } => {
                if (op as int) < p.ops@.len() {
                    assert(stmt_wf(p, p.statements@[idx as int]));
                    assert(invoke_wf(p, p.ops@[op as int], args@, branches@));
                    let d = p.ops@[op as int];
                    let ds = all_results(branches@);
                    assert(w == walk_invoke(p, idx, depth, fuel, d, args@, branches@, ds, tabs));
                    match d.kind {
                        OpKind::ApTrack | OpKind::BranchAlign | OpKind::StoreTemp
                            | OpKind::StoreLocal | OpKind::FinalizeLocals | OpKind::AllocLocal
                            | OpKind::DropVal => {
                            chain_once(p, idx, depth, fuel, branches@);
                        },
                        OpKind::GasReserve => {},
                        OpKind::ArrayNew | OpKind::ArrayAppend | OpKind::RecordBuild => {
                            match type_txt(p.types@, d.branch_results@[0]@[0]) {
                                Err(_) => {},
                                Ok(_) => {
                                    chain_once(p, idx, depth, fuel, branches@);
                                },
                            }
                        },
                        OpKind::UnionInit { variant: _ } => {
                            match type_txt(p.types@, d.branch_results@[0]@[0]) {
                                Err(_) => {},
                                Ok(_) => {
                                    chain_once(p, idx, depth, fuel, branches@);
                                },
                            }
                        },
                        OpKind::ConstImm { const_ty } => {
                            match type_txt(p.types@, d.branch_results@[0]@[0]) {
                                Err(_) => {},
                                Ok(_) => {
                                    if (const_ty as int) < p.types@.len()
                                        && p.types@[const_ty as int] is ConstVal {
                                        chain_once(p, idx, depth, fuel, branches@);
                                    }
                                },
                            }
                        },
                        OpKind::CheckedAdd | OpKind::CheckedSub => {
                            assert(w == checked_step(p, idx, depth, fuel, d, args@, branches@, ds,
                                tabs));
                            assert(((p.statements@[idx as int]->Invoke_branches@[0]).target as int)
                                > idx);
                            assert(((p.statements@[idx as int]->Invoke_branches@[1]).target as int)
                                > idx);
                            let t0 = branches@[0].target;
                            let t1 = branches@[1].target;
                            match type_txt(p.types@, d.branch_results@[1]@[1]) {
                                Err(_) => {},
                                Ok(_) => {
                                    let t = checked_tail_step(p, depth, fuel, d, args@, branches@,
                                        tabs);
                                    assert(w.visits == seq![idx as int] + t.visits);
                                    match type_txt(p.types@, d.branch_results@[0]@[0]) {
                                        Err(_) => {},
                                        Ok(_) => {
                                            let sub0 = walk(p, t0, depth + 1, (fuel - 1) as nat);
                                            lemma_visits_once(p, t0, depth + 1, (fuel - 1) as nat);
                                            lemma_visits_bounds(p, t0, depth + 1, (fuel - 1) as nat);
                                            if sub0.err is Some {
                                                assert(w.visits =~= seq![idx as int] + sub0.visits
                                                    + Seq::<int>::empty());
                                                branching_once(
                                                    idx,
                                                    w.visits,
                                                    sub0.visits,
                                                    Seq::<int>::empty(),
                                                );
                                            } else {
                                                let e = checked_else_step(p, depth, fuel, d, args@,
                                                    branches@, tabs);
                                                match type_txt(p.types@, d.branch_results@[1]@[0]) {
                                                    Err(_) => {
                                                        assert(w.visits =~= seq![idx as int]
                                                            + sub0.visits + Seq::<int>::empty());
                                                        branching_once(
                                                            idx,
                                                            w.visits,
                                                            sub0.visits,
                                                            Seq::<int>::empty(),
                                                        );
                                                    },
                                                    Ok(_) => {
                                                        let sub1 = walk(
                                                            p,
                                                            t1,
                                                            depth + 1,
                                                            (fuel - 1) as nat,
                                                        );
                                                        lemma_visits_once(
                                                            p,
                                                            t1,
                                                            depth + 1,
                                                            (fuel - 1) as nat,
                                                        );
                                                        lemma_visits_bounds(
                                                            p,
                                                            t1,
                                                            depth + 1,
                                                            (fuel - 1) as nat,
                                                        );
                                                        assert(w.visits =~= seq![idx as int]
                                                            + sub0.visits + sub1.visits);
                                                        assert forall|x: int|
                                                            !(#[trigger] sub0.visits.contains(x)
                                                                && sub1.visits.contains(x)) by {
                                                            lemma_branch_subwalks_disjoint(
                                                                p,
                                                                idx,
                                                                t0,
                                                                t1,
                                                                depth + 1,
                                                                depth + 1,
                                                                (fuel - 1) as nat,
                                                                (fuel - 1) as nat,
                                                                x,
                                                            );
                                                        }
                                                        branching_once(
                                                            idx,
                                                            w.visits,
                                                            sub0.visits,
                                                            sub1.visits,
                                                        );
                                                    },
                                                }
                                            }
                                        },
                                    }
                                },
                            }
                        },
                        OpKind::Unrecognized => {},
                    }
                }
            },
        }
    }
}

/// No duplicates across one continuation: the start is below everything the
/// sub-walk visits.
#[verifier::rlimit(100)]
#[verifier::spinoff_prover]
proof fn chain_once(p: Program, idx: usize, depth: nat, fuel: nat, branches: Seq<Branch>)
    requires
        p.wf(),
        forward_edges(p),
        unique_targets(p),
        fuel >= 1,
        (idx as int) < p.statements@.len(),
        p.statements@[idx as int] is Invoke,
        p.statements@[idx as int]->Invoke_branches@ == branches,
        branches.len() >= 1,
        (branches[0].target as int) < p.statements@.len(),
    ensures
        ({
            let sub = walk(p, branches[0].target, depth, (fuel - 1) as nat);
            let vis = seq![idx as int] + sub.visits;
            forall|k1: int, k2: int|
                0 <= k1 < k2 < vis.len() ==> #[trigger] vis[k1] != #[trigger] vis[k2]
        }),
    decreases fuel, 0int,
{
    let t = branches[0].target;
    assert(((p.statements@[idx as int]->Invoke_branches@[0]).target as int) > idx);
    lemma_visits_once(p, t, depth, (fuel - 1) as nat);
    lemma_visits_bounds(p, t, depth, (fuel - 1) as nat);
    let sub = walk(p, t, depth, (fuel - 1) as nat);
    let vis = seq![idx as int] + sub.visits;
    assert forall|k1: int, k2: int|
        0 <= k1 < k2 < vis.len() implies #[trigger] vis[k1] != #[trigger] vis[k2] by {
        if k1 == 0 {
            assert(vis[k2] == sub.visits[k2 - 1]);
            assert(vis[k2] > idx as int);
        } else {
            assert(vis[k1] == sub.visits[k1 - 1]);
            assert(vis[k2] == sub.visits[k2 - 1]);
        }
    }
}

/// No duplicates across the two blocks of a checked step: the start is
/// below both sub-walks' visits, each sub-walk is duplicate-free, and the
/// two visit disjoint statements.
#[verifier::rlimit(100)]
#[verifier::spinoff_prover]
proof fn branching_once(idx: usize, vis: Seq<int>, v0: Seq<int>, v1: Seq<int>)
    requires
        vis == seq![idx as int] + v0 + v1,
        forall|k1: int, k2: int| 0 <= k1 < k2 < v0.len() ==> #[trigger] v0[k1] != #[trigger] v0[k2],
        forall|k1: int, k2: int| 0 <= k1 < k2 < v1.len() ==> #[trigger] v1[k1] != #[trigger] v1[k2],
        forall|k: int| 0 <= k < v0.len() ==> (idx as int) < #[trigger] v0[k],
        forall|k: int| 0 <= k < v1.len() ==> (idx as int) < #[trigger] v1[k],
        forall|x: int| !(#[trigger] v0.contains(x) && v1.contains(x)),
    ensures
        forall|k1: int, k2: int|
            0 <= k1 < k2 < vis.len() ==> #[trigger] vis[k1] != #[trigger] vis[k2],
{
    assert forall|k1: int, k2: int|
        0 <= k1 < k2 < vis.len() implies #[trigger] vis[k1] != #[trigger] vis[k2] by {
        if k1 == 0 {
            if k2 < 1 + v0.len() {
                assert(vis[k2] == v0[k2 - 1]);
            } else {
                assert(vis[k2] == v1[k2 - 1 - v0.len()]);
            }
        } else if k2 < 1 + v0.len() {
            assert(vis[k1] == v0[k1 - 1]);
            assert(vis[k2] == v0[k2 - 1]);
        } else if k1 >= 1 + v0.len() {
            assert(vis[k1] == v1[k1 - 1 - v0.len()]);
            assert(vis[k2] == v1[k2 - 1 - v0.len()]);
        } else {
            assert(vis[k1] == v0[k1 - 1]);
            assert(vis[k2] == v1[k2 - 1 - v0.len()]);
            if vis[k1] == vis[k2] {
                let x = vis[k1];
                assert(v0.contains(x));
                assert(v1.contains(x));
            }
        }
    }
}

/// The walker treats a branching tree as exactly that: on a program with no
/// back-edges and no two branches sharing a target, a walk given one unit
/// of fuel per statement never reports a control-flow cycle — it terminates
/// with its text or a lookup/support error.  It starts at its start
/// statement and visits no statement twice; and when it succeeds it is also
/// complete: every branch it follows out of a visited statement leads to a
/// visited statement.  Together: each statement the walk reaches is visited
/// exactly once.
pub proof fn lemma_tree_walk(p: Program, idx: usize, depth: nat)
    requires
        p.wf(),
        forward_edges(p),
        unique_targets(p),
        (idx as int) < p.statements@.len(),
    ensures
        ({
            let w = walk(p, idx, depth, p.statements@.len() as nat);
            &&& match w.err {
                Some(e) => !(e is CycleDetected),
                None => true,
            }
            &&& w.visits.len() >= 1 && w.visits[0] == idx as int
            &&& forall|k1: int, k2: int|
                0 <= k1 < k2 < w.visits.len() ==> #[trigger] w.visits[k1] != #[trigger] w.visits[k2]
            &&& w.err is None ==> forall|k: int|
                0 <= k < w.visits.len() ==> successors_visited(p, w.visits, #[trigger] w.visits[k])
        }),
{
    lemma_walk_terminates(p, idx, depth, p.statements@.len() as nat);
    lemma_visits_bounds(p, idx, depth, p.statements@.len() as nat);
    lemma_visits_once(p, idx, depth, p.statements@.len() as nat);
    if walk(p, idx, depth, p.statements@.len() as nat).err is None {
        lemma_visits_complete(p, idx, depth, p.statements@.len() as nat);
    }
}

/// Every branch the walker follows out of the statement at `s` leads to a
/// statement in `vis`: single-branch operators follow their one branch, a
/// checked operator follows both, and resource no-ops, unsupported
/// operators and returns follow none.
pub open spec fn successors_visited(p: Program, vis: Seq<int>, s: int) -> bool {
    (is_invoke(p, s) && (p.statements@[s]->Invoke_op as int) < p.ops@.len()) ==> {
        let branches = stmt_branches(p, s);
        match p.ops@[p.statements@[s]->Invoke_op as int].kind {
            OpKind::ApTrack | OpKind::BranchAlign | OpKind::StoreTemp | OpKind::StoreLocal
                | OpKind::FinalizeLocals | OpKind::AllocLocal | OpKind::DropVal | OpKind::ArrayNew
                | OpKind::ArrayAppend | OpKind::RecordBuild => vis.contains(
                branches[0].target as int,
            ),
            OpKind::UnionInit { variant: _ } => vis.contains(branches[0].target as int),
            OpKind::ConstImm { const_ty: _ } => vis.contains(branches[0].target as int),
            OpKind::CheckedAdd | OpKind::CheckedSub => vis.contains(branches[0].target as int)
                && vis.contains(branches[1].target as int),
            OpKind::GasReserve => true,
            OpKind::Unrecognized => true,
        }
    }
}

proof fn successors_visited_mono(p: Program, small: Seq<int>, big: Seq<int>, s: int)
    requires
        successors_visited(p, small, s),
        forall|x: int| small.contains(x) ==> big.contains(x),
    ensures
        successors_visited(p, big, s),
{
}

/// An error-free walk is complete: every branch it follows out of a visited
/// statement reaches a statement it also visits.
#[verifier::rlimit(100)]
#[verifier::spinoff_prover]
pub proof fn lemma_visits_complete(p: Program, idx: usize, depth: nat, fuel: nat)
    requires
        p.wf(),
        forward_edges(p),
        (idx as int) < p.statements@.len(),
        walk(p, idx, depth, fuel).err is None,
    ensures
        ({
            let w = walk(p, idx, depth, fuel);
            forall|k: int|
                0 <= k < w.visits.len() ==> successors_visited(p, w.visits, #[trigger] w.visits[k])
        }),
    decreases fuel, 1int,
{
    let w = walk(p, idx, depth, fuel);
    let tabs = indent_txt(depth);
    match p.statements@[idx as int] {
        Statement::Return { vars: _ } => {},
        Statement::Invoke { op, args, branches } => {
            if (op as int) < p.ops@.len() {
                assert(stmt_wf(p, p.statements@[idx as int]));
                assert(invoke_wf(p, p.ops@[op as int], args@, branches@));
                let d = p.ops@[op as int];
                let ds = all_results(branches@);
                assert(w == walk_invoke(p, idx, depth, fuel, d, args@, branches@, ds, tabs));
                match d.kind {
                    OpKind::ApTrack | OpKind::BranchAlign | OpKind::StoreTemp
                        | OpKind::StoreLocal | OpKind::FinalizeLocals | OpKind::AllocLocal
                        | OpKind::DropVal | OpKind::ArrayNew | OpKind::ArrayAppend
                        | OpKind::RecordBuild => {
                        chain_complete(p, idx, depth, fuel, branches@);
                    },
                    OpKind::UnionInit { variant: _ } => {
                        chain_complete(p, idx, depth, fuel, branches@);
                    },
                    OpKind::ConstImm { const_ty: _ } => {
                        chain_complete(p, idx, depth, fuel, branches@);
                    },
                    OpKind::GasReserve => {},
                    OpKind::CheckedAdd | OpKind::CheckedSub => {
                        assert(w == checked_step(p, idx, depth, fuel, d, args@, branches@, ds,
                            tabs));
                        let t0 = branches@[0].target;
                        let t1 = branches@[1].target;
                        let t = checked_tail_step(p, depth, fuel, d, args@, branches@, tabs);
                        let e = checked_else_step(p, depth, fuel, d, args@, branches@, tabs);
                        let sub0 = walk(p, t0, depth + 1, (fuel - 1) as nat);
                        let sub1 = walk(p, t1, depth + 1, (fuel - 1) as nat);
                        assert(sub0.err is None && sub1.err is None);
                        assert((fuel - 1) as nat >= 1);
                        lemma_visits_complete(p, t0, depth + 1, (fuel - 1) as nat);
                        lemma_visits_complete(p, t1, depth + 1, (fuel - 1) as nat);
                        lemma_visits_bounds(p, t0, depth + 1, (fuel - 1) as nat);
                        lemma_visits_bounds(p, t1, depth + 1, (fuel - 1) as nat);
                        assert(w.visits =~= seq![idx as int] + sub0.visits + sub1.visits);
                        assert forall|x: int| sub0.visits.contains(x) implies w.visits.contains(
                            x,
                        ) by {
                            let m = choose|m: int|
                                0 <= m < sub0.visits.len() && sub0.visits[m] == x;
                            assert(w.visits[m + 1] == x);
                        }
                        assert forall|x: int| sub1.visits.contains(x) implies w.visits.contains(
                            x,
                        ) by {
                            let m = choose|m: int|
                                0 <= m < sub1.visits.len() && sub1.visits[m] == x;
                            assert(w.visits[m + 1 + sub0.visits.len() as int] == x);
                        }
                        assert(w.visits[1] == t0 as int);
                        assert(w.visits[1 + sub0.visits.len() as int] == t1 as int);
                        assert(w.visits.contains(t0 as int));
                        assert(w.visits.contains(t1 as int));
                        assert forall|k: int|
                            0 <= k < w.visits.len() implies successors_visited(
                            p,
                            w.visits,
                            #[trigger] w.visits[k],
                        ) by {
                            if k == 0 {
                                assert(successors_visited(p, w.visits, idx as int));
                            } else if k < 1 + sub0.visits.len() {
                                assert(w.visits[k] == sub0.visits[k - 1]);
                                successors_visited_mono(p, sub0.visits, w.visits, w.visits[k]);
                            } else {
                                assert(w.visits[k] == sub1.visits[k - 1 - sub0.visits.len()]);
                                successors_visited_mono(p, sub1.visits, w.visits, w.visits[k]);
                            }
                        }
                    },
                    OpKind::Unrecognized => {},
                }
            }
        },
    }
}

/// Completeness carried over a single-branch continuation.
#[verifier::rlimit(100)]
#[verifier::spinoff_prover]
proof fn chain_complete(p: Program, idx: usize, depth: nat, fuel: nat, branches: Seq<Branch>)
    requires
        p.wf(),
        forward_edges(p),
        fuel >= 1,
        (idx as int) < p.statements@.len(),
        p.statements@[idx as int] is Invoke,
        (p.statements@[idx as int]->Invoke_op as int) < p.ops@.len(),
        !(p.ops@[p.statements@[idx as int]->Invoke_op as int].kind is CheckedAdd),
        !(p.ops@[p.statements@[idx as int]->Invoke_op as int].kind is CheckedSub),
        p.statements@[idx as int]->Invoke_branches@ == branches,
        branches.len() >= 1,
        (branches[0].target as int) < p.statements@.len(),
        walk(p, branches[0].target, depth, (fuel - 1) as nat).err is None,
        walk(p, idx, depth, fuel).visits == seq![idx as int] + walk(
            p,
            branches[0].target,
            depth,
            (fuel - 1) as nat,
        ).visits,
    ensures
        ({
            let w = walk(p, idx, depth, fuel);
            forall|k: int|
                0 <= k < w.visits.len() ==> successors_visited(p, w.visits, #[trigger] w.visits[k])
        }),
    decreases fuel, 0int,
{
    let t = branches[0].target;
    let w = walk(p, idx, depth, fuel);
    let sub = walk(p, t, depth, (fuel - 1) as nat);
    assert((fuel - 1) as nat >= 1);
    lemma_visits_complete(p, t, depth, (fuel - 1) as nat);
    lemma_visits_bounds(p, t, depth, (fuel - 1) as nat);
    assert forall|x: int| sub.visits.contains(x) implies w.visits.contains(x) by {
        let m = choose|m: int| 0 <= m < sub.visits.len() && sub.visits[m] == x;
        assert(w.visits[m + 1] == x);
    }
    assert(w.visits[1] == t as int);
    assert(w.visits.contains(t as int));
    assert forall|k: int|
        0 <= k < w.visits.len() implies successors_visited(p, w.visits, #[trigger] w.visits[k]) by {
        if k == 0 {
            assert(successors_visited(p, w.visits, idx as int));
        } else {
            assert(w.visits[k] == sub.visits[k - 1]);
            successors_visited_mono(p, sub.visits, w.visits, w.visits[k]);
        }
    }
}

/// How often `c` occurs in `s`.
pub open spec fn count_char(s: Seq<char>, c: char) -> nat
    decreases s.len(),
{
    if s.len() == 0 {
        0
    } else {
        count_char(s.drop_last(), c) + (if s.last() == c {
            1nat
        } else {
            0nat
        })
    }
}

proof fn lemma_count_char_concat(a: Seq<char>, b: Seq<char>, c: char)
    ensures
        count_char(a + b, c) == count_char(a, c) + count_char(b, c),
    decreases b.len(),
{
    if b.len() == 0 {
        assert(a + b =~= a);
    } else {
        lemma_count_char_concat(a, b.drop_last(), c);
        assert((a + b).drop_last() =~= a + b.drop_last());
        assert((a + b).last() == b.last());
    }
}

proof fn lemma_digit_txt_no_comma(d: u64)
    ensures
        count_char(digit_txt(d), ',') == 0,
{
    reveal_strlit("0");
    reveal_strlit("1");
    reveal_strlit("2");
    reveal_strlit("3");
    reveal_strlit("4");
    reveal_strlit("5");
    reveal_strlit("6");
    reveal_strlit("7");
    reveal_strlit("8");
    reveal_strlit("9");
    assert(count_char(Seq::<char>::empty(), ',') == 0);
    assert(digit_txt(d).len() == 1);
    assert(digit_txt(d).drop_last() =~= Seq::<char>::empty());
    assert(digit_txt(d).last() != ',');
}

proof fn lemma_dec_txt_no_comma(n: u64)
    ensures
        count_char(dec_txt(n), ',') == 0,
    decreases n,
{
    if n < 10 {
        lemma_digit_txt_no_comma(n);
    } else {
        lemma_dec_txt_no_comma(n / 10);
        lemma_digit_txt_no_comma(n % 10);
        lemma_count_char_concat(dec_txt(n / 10), digit_txt(n % 10), ',');
    }
}

/// A joined variable list of `k` identifiers holds exactly `k - 1` commas
/// (none when it is empty): each identifier is comma-free, and exactly one
/// comma separates each neighbouring pair.
pub proof fn lemma_vars_txt_commas(vs: Seq<u64>)
    ensures
        count_char(vars_txt(vs), ',') == (if vs.len() == 0 {
            0int
        } else {
            vs.len() - 1
        }),
    decreases vs.len(),
{
    reveal_strlit("v");
    reveal_strlit(", ");
    assert(count_char(Seq::<char>::empty(), ',') == 0);
    if vs.len() == 0 {
    } else if vs.len() == 1 {
        lemma_dec_txt_no_comma(vs[0]);
        lemma_count_char_concat("v"@, dec_txt(vs[0]), ',');
        assert(("v"@).drop_last() =~= Seq::<char>::empty());
        assert(count_char("v"@, ',') == 0);
    } else {
        lemma_vars_txt_commas(vs.drop_last());
        let pre = vars_txt(vs.drop_last());
        lemma_count_char_concat(pre, ", "@, ',');
        lemma_count_char_concat(pre + ", "@, var_txt(vs.last()), ',');
        lemma_dec_txt_no_comma(vs.last());
        lemma_count_char_concat("v"@, dec_txt(vs.last()), ',');
        assert(("v"@).drop_last() =~= Seq::<char>::empty());
        assert(count_char("v"@, ',') == 0);
        assert((", "@).len() == 2);
        assert((", "@).drop_last().len() == 1);
        assert((", "@).drop_last().last() == ',');
        assert((", "@).last() == ' ');
        assert(count_char((", "@).drop_last().drop_last(), ',') == 0);
        assert(count_char((", "@).drop_last(), ',') == 1);
        assert(count_char(", "@, ',') == 1);
    }
}

/// A return with `k` variable identifiers emits exactly the `return` line:
/// the identifiers in declared order joined by `, ` — so with exactly
/// `k - 1` separating commas — and nothing after it on that path: the walk
/// ends there, with no error and no further statement visited.
pub proof fn lemma_return_emission(p: Program, idx: usize, depth: nat, fuel: nat)
    requires
        p.wf(),
        fuel >= 1,
        (idx as int) < p.statements@.len(),
        p.statements@[idx as int] is Return,
    ensures
        ({
            let w = walk(p, idx, depth, fuel);
            let vars = p.statements@[idx as int]->Return_vars@;
            &&& w.err is None
            &&& w.text == return_txt(indent_txt(depth), vars)
            &&& w.visits == seq![idx as int]
            &&& w.decls == Seq::<u64>::empty()
            &&& count_char(vars_txt(vars), ',') == (if vars.len() == 0 {
                0int
            } else {
                vars.len() - 1
            })
        }),
{
    lemma_vars_txt_commas(p.statements@[idx as int]->Return_vars@);
}

/// An unsupported operator aborts the walk at once: the walk fails with
/// `UnsupportedOperator` naming the statement, emits no text for it, and
/// visits nothing beyond it — no statement is ever emitted half-bound.
pub proof fn lemma_unsupported_aborts(p: Program, idx: usize, depth: nat, fuel: nat)
    requires
        p.wf(),
        fuel >= 1,
        (idx as int) < p.statements@.len(),
        p.statements@[idx as int] is Invoke,
        (p.statements@[idx as int]->Invoke_op as int) < p.ops@.len(),
        p.ops@[p.statements@[idx as int]->Invoke_op as int].kind is Unrecognized,
    ensures
        ({
            let w = walk(p, idx, depth, fuel);
            &&& w.err == Some(EmitError::UnsupportedOperator { statement: idx })
            &&& w.text == Seq::<char>::empty()
            &&& w.visits == seq![idx as int]
        }),
{
}

/// A checked-arithmetic invocation that the walk completes emits exactly
/// one destructuring binding followed by exactly two blocks: the `if` block
/// binding branch 0's pass-through at the type the catalog declares as the
/// operator's branch-0 result, and the `else` block binding branch 1's, at
/// one deeper nesting level each.
#[verifier::rlimit(100)]
#[verifier::spinoff_prover]
pub proof fn lemma_checked_emission(p: Program, idx: usize, depth: nat, fuel: nat)
    requires
        p.wf(),
        fuel >= 1,
        (idx as int) < p.statements@.len(),
        p.statements@[idx as int] is Invoke,
        (p.statements@[idx as int]->Invoke_op as int) < p.ops@.len(),
        p.ops@[p.statements@[idx as int]->Invoke_op as int].kind is CheckedAdd || p.ops@[p.statements@[idx as int]->Invoke_op as int].kind is CheckedSub,
        walk(p, idx, depth, fuel).err is None,
    ensures
        ({
            let w = walk(p, idx, depth, fuel);
            let d = p.ops@[p.statements@[idx as int]->Invoke_op as int];
            let args = p.statements@[idx as int]->Invoke_args@;
            let branches = p.statements@[idx as int]->Invoke_branches@;
            let tabs = indent_txt(depth);
            let o = branches[1].results@[1];
            let ty = type_txt(p.types@, d.branch_results@[1]@[1]);
            let ty00 = type_txt(p.types@, d.branch_results@[0]@[0]);
            let ty10 = type_txt(p.types@, d.branch_results@[1]@[0]);
            let sub0 = walk(p, branches[0].target, depth + 1, (fuel - 1) as nat);
            let sub1 = walk(p, branches[1].target, depth + 1, (fuel - 1) as nat);
            &&& ty is Ok
            &&& ty00 is Ok
            &&& ty10 is Ok
            &&& sub0.err is None
            &&& sub1.err is None
            &&& w.text == checked_head_txt(tabs, o, ty->Ok_0, d.kind, args[1], args[2])
                + if_open_txt(tabs, o)
                + passthrough_txt(tabs, branches[0].results@[0], ty00->Ok_0, args[0])
                + sub0.text + else_txt(tabs)
                + passthrough_txt(tabs, branches[1].results@[0], ty10->Ok_0, args[0])
                + sub1.text + close_txt(tabs)
        }),
{
    let w = walk(p, idx, depth, fuel);
    let tabs = indent_txt(depth);
    let stmt = p.statements@[idx as int];
    let op = stmt->Invoke_op;
    let args = stmt->Invoke_args;
    let branches = stmt->Invoke_branches;
    assert(stmt_wf(p, stmt));
    assert(invoke_wf(p, p.ops@[op as int], args@, branches@));
    let d = p.ops@[op as int];
    let ds = all_results(branches@);
    assert(w == walk_invoke(p, idx, depth, fuel, d, args@, branches@, ds, tabs));
    assert(w == checked_step(p, idx, depth, fuel, d, args@, branches@, ds, tabs));
    let ty = type_txt(p.types@, d.branch_results@[1]@[1]);
    assert(ty is Ok);
    let t = checked_tail_step(p, depth, fuel, d, args@, branches@, tabs);
    assert(w.err == t.err);
    let ty00 = type_txt(p.types@, d.branch_results@[0]@[0]);
    assert(ty00 is Ok);
    let sub0 = walk(p, branches@[0].target, depth + 1, (fuel - 1) as nat);
    assert(sub0.err is None);
    let e = checked_else_step(p, depth, fuel, d, args@, branches@, tabs);
    assert(t.err == e.err);
    let ty10 = type_txt(p.types@, d.branch_results@[1]@[0]);
    assert(ty10 is Ok);
    let sub1 = walk(p, branches@[1].target, depth + 1, (fuel - 1) as nat);
    assert(sub1.err is None);
    let o = branches@[1].results@[1];
    assert(w.text =~= checked_head_txt(tabs, o, ty->Ok_0, d.kind, args@[1], args@[2])
        + if_open_txt(tabs, o) + passthrough_txt(tabs, branches@[0].results@[0], ty00->Ok_0, args@[0])
        + sub0.text + else_txt(tabs)
        + passthrough_txt(tabs, branches@[1].results@[0], ty10->Ok_0, args@[0])
        + sub1.text + close_txt(tabs));
}

} // verus!
