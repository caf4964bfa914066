//! The statement walker: turns the flat, branch-addressed statement list,
//! starting at one statement, into nested pseudo-source text.  Single-branch
//! operators are inlined at the same nesting depth; a checked-arithmetic
//! operator, the one two-branch construct, opens an `if`/`else` pair one
//! level deeper.  The spec function `walk` defines the emitted text, the
//! order in which result variables are recorded as declared, the visited
//! statements, and which error (if any) ends the walk; the executable
//! walker is proved to produce exactly that.
//!
//! The walk carries fuel: each visited statement consumes one unit, and the
//! public entry points supply one unit per statement of the program.  A walk
//! that exhausts this can only have revisited a statement, which means a
//! control-flow cycle: the walker supports branching trees only and rejects
//! such programs with `CycleDetected` instead of recursing forever.

use vstd::prelude::*;

use crate::ir::{
    all_results, invoke_wf, stmt_wf, Branch, EmitError, OpKind, OperatorDesc, Program, Statement,
    TypeDesc,
};
use crate::resolver::{get_type_name, type_txt};
use crate::text::{
    dec_txt, fields_txt, indent_txt, push_dec, push_fields, push_indent, push_vars, vars_txt,
};

verus! {

/// Everything one walk determines: the text it appends, the result variables
/// it records as declared (in order), the statements it visits (in order),
/// and the error that ended it, if any.
pub struct WalkRes {
    pub text: Seq<char>,
    pub decls: Seq<u64>,
    pub visits: Seq<int>,
    pub err: Option<EmitError>,
}

/// A walk step that emitted `head` for the statement at `idx`, recorded
/// `ds`, and continued as `sub`.
pub open spec fn chain(ds: Seq<u64>, idx: usize, head: Seq<char>, sub: WalkRes) -> WalkRes {
    WalkRes {
        text: head + sub.text,
        decls: ds + sub.decls,
        visits: seq![idx as int] + sub.visits,
        err: sub.err,
    }
}

/// A walk that ends at the statement at `idx`, having emitted `text` for it.
pub open spec fn halt(ds: Seq<u64>, idx: usize, text: Seq<char>, err: Option<EmitError>) -> WalkRes {
    WalkRes { text, decls: ds, visits: seq![idx as int], err }
}

/// `let mut v<o>: <ty> = Array::new();` — a new empty array binding.
pub open spec fn array_new_txt(tabs: Seq<char>, o: u64, ty: Seq<char>) -> Seq<char> {
    tabs + "let mut v"@ + dec_txt(o) + ": "@ + ty + " = Array::new();\n"@
}

/// `v<a0>.append(v<a1>);` — the append call itself.
pub open spec fn append_call_txt(tabs: Seq<char>, a0: u64, a1: u64) -> Seq<char> {
    tabs + "v"@ + dec_txt(a0) + ".append(v"@ + dec_txt(a1) + ");\n"@
}

/// `let mut v<o>: <ty> = v<a0>;` — rebinding the appended array, modelling
/// its value-semantics move.
pub open spec fn append_bind_txt(tabs: Seq<char>, o: u64, ty: Seq<char>, a0: u64) -> Seq<char> {
    tabs + "let mut v"@ + dec_txt(o) + ": "@ + ty + " = v"@ + dec_txt(a0) + ";\n"@
}

/// `let v<o>: <ty> = <val>;` — materializing a compile-time constant.
pub open spec fn const_bind_txt(tabs: Seq<char>, o: u64, ty: Seq<char>, val: Seq<char>) -> Seq<
    char,
> {
    tabs + "let v"@ + dec_txt(o) + ": "@ + ty + " = "@ + val + ";\n"@
}

/// `drop(v<a0>);` — an explicit drop of the argument.
pub open spec fn drop_txt(tabs: Seq<char>, a0: u64) -> Seq<char> {
    tabs + "drop(v"@ + dec_txt(a0) + ");\n"@
}

/// `let v<o>: <ty> = Enum::Variant<k>(<args>);` — a tagged-union literal.
pub open spec fn union_init_txt(
    tabs: Seq<char>,
    o: u64,
    ty: Seq<char>,
    variant: u64,
    args: Seq<u64>,
) -> Seq<char> {
    tabs + "let v"@ + dec_txt(o) + ": "@ + ty + " = Enum::Variant"@ + dec_txt(variant) + "("@
        + vars_txt(args) + ");\n"@
}

/// `let v<o>: <ty> = Struct { ... };` — a positional record literal.
pub open spec fn record_build_txt(tabs: Seq<char>, o: u64, ty: Seq<char>, args: Seq<u64>) -> Seq<
    char,
> {
    tabs + "let v"@ + dec_txt(o) + ": "@ + ty + " = Struct {\n"@ + fields_txt(tabs, args) + tabs
        + "};\n"@
}

/// The operator sign, with its surrounding spaces, of a checked-arithmetic
/// kind: `+` for addition, `-` for subtraction.
pub open spec fn op_sep_txt(k: OpKind) -> Seq<char> {
    match k {
        OpKind::CheckedSub => " - "@,
        _ => " + "@,
    }
}

/// `let (v<o> : <ty>, v<o>_overflowed: bool) = v<lhs> <op> v<rhs>;` — the
/// destructuring binding of a checked-arithmetic result.
pub open spec fn checked_head_txt(
    tabs: Seq<char>,
    o: u64,
    ty: Seq<char>,
    k: OpKind,
    lhs: u64,
    rhs: u64,
) -> Seq<char> {
    tabs + "let (v"@ + dec_txt(o) + " : "@ + ty + ", v"@ + dec_txt(o) + "_overflowed: bool) = v"@
        + dec_txt(lhs) + op_sep_txt(k) + "v"@ + dec_txt(rhs) + ";\n"@
}

/// `if !v<o>_overflowed {` — opening the no-overflow block.
pub open spec fn if_open_txt(tabs: Seq<char>, o: u64) -> Seq<char> {
    tabs + "if !v"@ + dec_txt(o) + "_overflowed {\n"@
}

/// `    let v<rc>: <ty> = v<a0>;` — binding a branch's carried pass-through
/// value, one level inside the block.
pub open spec fn passthrough_txt(tabs: Seq<char>, rc: u64, ty: Seq<char>, a0: u64) -> Seq<char> {
    tabs + "    let v"@ + dec_txt(rc) + ": "@ + ty + " = v"@ + dec_txt(a0) + ";\n"@
}

/// `} else {` — between the two blocks.
pub open spec fn else_txt(tabs: Seq<char>) -> Seq<char> {
    tabs + "} else {\n"@
}

/// `}` — closing the else block.
pub open spec fn close_txt(tabs: Seq<char>) -> Seq<char> {
    tabs + "}\n"@
}

/// `return v1, v2, ...;` — the terminal statement of a path, preceded by a
/// blank line.
pub open spec fn return_txt(tabs: Seq<char>, vars: Seq<u64>) -> Seq<char> {
    "\n"@ + tabs + "return "@ + vars_txt(vars) + ";\n"@
}

/// The walk from the statement at `idx` at nesting `depth` with `fuel`
/// visits left.  This is the definition the executable walker is held to.
pub open spec fn walk(p: Program, idx: usize, depth: nat, fuel: nat) -> WalkRes
    decreases fuel, 6int,
{
    if fuel == 0 {
        WalkRes {
            text: Seq::empty(),
            decls: Seq::empty(),
            visits: Seq::empty(),
            err: Some(EmitError::CycleDetected { statement: idx }),
        }
    } else {
        let tabs = indent_txt(depth);
        match p.statements@[idx as int] {
            Statement::Return { vars } => halt(
                Seq::empty(),
                idx,
                return_txt(tabs, vars@),
                None,
            ),
            Statement::Invoke { op, args, branches } => {
                if (op as int) >= p.ops@.len() {
                    halt(
                        Seq::empty(),
                        idx,
                        Seq::empty(),
                        Some(EmitError::OperatorNotFound { id: op }),
                    )
                } else {
                    walk_invoke(
                        p,
                        idx,
                        depth,
                        fuel,
                        p.ops@[op as int],
                        args@,
                        branches@,
                        all_results(branches@),
                        tabs,
                    )
                }
            },
        }
    }
}

/// A structural no-op step: nothing emitted, the walk continues at the
/// single branch's target at the same depth.
pub open spec fn skip_step(
    p: Program,
    idx: usize,
    depth: nat,
    fuel: nat,
    branches: Seq<Branch>,
    ds: Seq<u64>,
) -> WalkRes
    decreases fuel, 4int,
    when fuel >= 1
{
    chain(ds, idx, Seq::empty(), walk(p, branches[0].target, depth, (fuel - 1) as nat))
}

/// The explicit-drop step.
pub open spec fn drop_step(
    p: Program,
    idx: usize,
    depth: nat,
    fuel: nat,
    args: Seq<u64>,
    branches: Seq<Branch>,
    ds: Seq<u64>,
    tabs: Seq<char>,
) -> WalkRes
    decreases fuel, 4int,
    when fuel >= 1
{
    chain(ds, idx, drop_txt(tabs, args[0]), walk(p, branches[0].target, depth, (fuel - 1) as nat))
}

/// The new-empty-array step; fails without emitting if the declared result
/// type does not resolve.
pub open spec fn array_new_step(
    p: Program,
    idx: usize,
    depth: nat,
    fuel: nat,
    d: OperatorDesc,
    branches: Seq<Branch>,
    ds: Seq<u64>,
    tabs: Seq<char>,
) -> WalkRes
    decreases fuel, 4int,
    when fuel >= 1
{
    match type_txt(p.types@, d.branch_results@[0]@[0]) {
        Err(e) => halt(ds, idx, Seq::empty(), Some(e)),
        Ok(ty) => chain(
            ds,
            idx,
            array_new_txt(tabs, branches[0].results@[0], ty),
            walk(p, branches[0].target, depth, (fuel - 1) as nat),
        ),
    }
}

/// The array-append step: the call line is emitted first, so a failing
/// rebind type leaves exactly that line behind.
pub open spec fn append_step(
    p: Program,
    idx: usize,
    depth: nat,
    fuel: nat,
    d: OperatorDesc,
    args: Seq<u64>,
    branches: Seq<Branch>,
    ds: Seq<u64>,
    tabs: Seq<char>,
) -> WalkRes
    decreases fuel, 4int,
    when fuel >= 1
{
    let call = append_call_txt(tabs, args[0], args[1]);
    match type_txt(p.types@, d.branch_results@[0]@[0]) {
        Err(e) => halt(ds, idx, call, Some(e)),
        Ok(ty) => chain(
            ds,
            idx,
            call + append_bind_txt(tabs, branches[0].results@[0], ty, args[0]),
            walk(p, branches[0].target, depth, (fuel - 1) as nat),
        ),
    }
}

/// The record-construction step.
pub open spec fn record_step(
    p: Program,
    idx: usize,
    depth: nat,
    fuel: nat,
    d: OperatorDesc,
    args: Seq<u64>,
    branches: Seq<Branch>,
    ds: Seq<u64>,
    tabs: Seq<char>,
) -> WalkRes
    decreases fuel, 4int,
    when fuel >= 1
{
    match type_txt(p.types@, d.branch_results@[0]@[0]) {
        Err(e) => halt(ds, idx, Seq::empty(), Some(e)),
        Ok(ty) => chain(
            ds,
            idx,
            record_build_txt(tabs, branches[0].results@[0], ty, args),
            walk(p, branches[0].target, depth, (fuel - 1) as nat),
        ),
    }
}

/// The tagged-union-construction step.
pub open spec fn union_step(
    p: Program,
    idx: usize,
    depth: nat,
    fuel: nat,
    d: OperatorDesc,
    variant: u64,
    args: Seq<u64>,
    branches: Seq<Branch>,
    ds: Seq<u64>,
    tabs: Seq<char>,
) -> WalkRes
    decreases fuel, 4int,
    when fuel >= 1
{
    match type_txt(p.types@, d.branch_results@[0]@[0]) {
        Err(e) => halt(ds, idx, Seq::empty(), Some(e)),
        Ok(ty) => chain(
            ds,
            idx,
            union_init_txt(tabs, branches[0].results@[0], ty, variant, args),
            walk(p, branches[0].target, depth, (fuel - 1) as nat),
        ),
    }
}

/// The constant-materialization step: the declared result type must
/// resolve, and the constant's catalog entry must exist and hold a literal.
pub open spec fn const_step(
    p: Program,
    idx: usize,
    depth: nat,
    fuel: nat,
    d: OperatorDesc,
    const_ty: usize,
    branches: Seq<Branch>,
    ds: Seq<u64>,
    tabs: Seq<char>,
) -> WalkRes
    decreases fuel, 4int,
    when fuel >= 1
{
    match type_txt(p.types@, d.branch_results@[0]@[0]) {
        Err(e) => halt(ds, idx, Seq::empty(), Some(e)),
        Ok(ty) => {
            if (const_ty as int) >= p.types@.len() {
                halt(ds, idx, Seq::empty(), Some(EmitError::TypeNotFound { id: const_ty }))
            } else {
                match p.types@[const_ty as int] {
                    TypeDesc::ConstVal { digits, inner: _ } => chain(
                        ds,
                        idx,
                        const_bind_txt(tabs, branches[0].results@[0], ty, digits@),
                        walk(p, branches[0].target, depth, (fuel - 1) as nat),
                    ),
                    _ => halt(
                        ds,
                        idx,
                        Seq::empty(),
                        Some(EmitError::TypeNotFound { id: const_ty }),
                    ),
                }
            }
        },
    }
}

/// The checked-arithmetic step: one destructuring binding, then the
/// no-overflow block for branch 0 and the `else` block for branch 1, the
/// only construct that increases nesting depth.
pub open spec fn checked_step(
    p: Program,
    idx: usize,
    depth: nat,
    fuel: nat,
    d: OperatorDesc,
    args: Seq<u64>,
    branches: Seq<Branch>,
    ds: Seq<u64>,
    tabs: Seq<char>,
) -> WalkRes
    decreases fuel, 4int,
    when fuel >= 1
{
    let o = branches[1].results@[1];
    match type_txt(p.types@, d.branch_results@[1]@[1]) {
        Err(e) => halt(ds, idx, Seq::empty(), Some(e)),
        Ok(ty) => {
            let head = checked_head_txt(tabs, o, ty, d.kind, args[1], args[2]) + if_open_txt(
                tabs,
                o,
            );
            let t = checked_tail_step(p, depth, fuel, d, args, branches, tabs);
            WalkRes {
                text: head + t.text,
                decls: ds + t.decls,
                visits: seq![idx as int] + t.visits,
                err: t.err,
            }
        },
    }
}

/// The part of a checked-arithmetic step after its destructuring binding
/// and `if` line: branch 0's pass-through binding, the walk of branch 0's
/// target one level deeper, and — if that succeeded — the `else` half.
pub open spec fn checked_tail_step(
    p: Program,
    depth: nat,
    fuel: nat,
    d: OperatorDesc,
    args: Seq<u64>,
    branches: Seq<Branch>,
    tabs: Seq<char>,
) -> WalkRes
    decreases fuel, 3int,
    when fuel >= 1
{
    match type_txt(p.types@, d.branch_results@[0]@[0]) {
        Err(e) => WalkRes {
            text: Seq::empty(),
            decls: Seq::empty(),
            visits: Seq::empty(),
            err: Some(e),
        },
        Ok(ty00) => {
            let pass0 = passthrough_txt(tabs, branches[0].results@[0], ty00, args[0]);
            let sub0 = walk(p, branches[0].target, depth + 1, (fuel - 1) as nat);
            if sub0.err is Some {
                WalkRes {
                    text: pass0 + sub0.text,
                    decls: sub0.decls,
                    visits: sub0.visits,
                    err: sub0.err,
                }
            } else {
                let e = checked_else_step(p, depth, fuel, d, args, branches, tabs);
                WalkRes {
                    text: pass0 + sub0.text + e.text,
                    decls: sub0.decls + e.decls,
                    visits: sub0.visits + e.visits,
                    err: e.err,
                }
            }
        },
    }
}

/// The overflow (`else`) half of a checked-arithmetic step: the `else`
/// line, branch 1's pass-through binding, the walk of branch 1's target,
/// and the closing brace — which is left out if that walk failed.
pub open spec fn checked_else_step(
    p: Program,
    depth: nat,
    fuel: nat,
    d: OperatorDesc,
    args: Seq<u64>,
    branches: Seq<Branch>,
    tabs: Seq<char>,
) -> WalkRes
    decreases fuel, 2int,
    when fuel >= 1
{
    match type_txt(p.types@, d.branch_results@[1]@[0]) {
        Err(e) => WalkRes {
            text: else_txt(tabs),
            decls: Seq::empty(),
            visits: Seq::empty(),
            err: Some(e),
        },
        Ok(ty10) => {
            let sub1 = walk(p, branches[1].target, depth + 1, (fuel - 1) as nat);
            WalkRes {
                text: else_txt(tabs) + passthrough_txt(tabs, branches[1].results@[0], ty10, args[0])
                    + sub1.text + (if sub1.err is Some {
                    Seq::<char>::empty()
                } else {
                    close_txt(tabs)
                }),
                decls: sub1.decls,
                visits: sub1.visits,
                err: sub1.err,
            }
        },
    }
}

/// One invocation step of the walk, dispatched on the operator's kind.
pub open spec fn walk_invoke(
    p: Program,
    idx: usize,
    depth: nat,
    fuel: nat,
    d: OperatorDesc,
    args: Seq<u64>,
    branches: Seq<Branch>,
    ds: Seq<u64>,
    tabs: Seq<char>,
) -> WalkRes
    decreases fuel, 5int,
    when fuel >= 1
{
    match d.kind {
        OpKind::ApTrack | OpKind::BranchAlign | OpKind::StoreTemp | OpKind::StoreLocal
            | OpKind::FinalizeLocals | OpKind::AllocLocal => skip_step(
            p,
            idx,
            depth,
            fuel,
            branches,
            ds,
        ),
        OpKind::GasReserve => halt(ds, idx, Seq::empty(), None),
        OpKind::DropVal => drop_step(p, idx, depth, fuel, args, branches, ds, tabs),
        OpKind::ArrayNew => array_new_step(p, idx, depth, fuel, d, branches, ds, tabs),
        OpKind::ArrayAppend => append_step(p, idx, depth, fuel, d, args, branches, ds, tabs),
        OpKind::RecordBuild => record_step(p, idx, depth, fuel, d, args, branches, ds, tabs),
        OpKind::UnionInit { variant } => union_step(
            p,
            idx,
            depth,
            fuel,
            d,
            variant,
            args,
            branches,
            ds,
            tabs,
        ),
        OpKind::ConstImm { const_ty } => const_step(
            p,
            idx,
            depth,
            fuel,
            d,
            const_ty,
            branches,
            ds,
            tabs,
        ),
        OpKind::CheckedAdd | OpKind::CheckedSub => checked_step(
            p,
            idx,
            depth,
            fuel,
            d,
            args,
            branches,
            ds,
            tabs,
        ),
        OpKind::Unrecognized => halt(
            ds,
            idx,
            Seq::empty(),
            Some(EmitError::UnsupportedOperator { statement: idx }),
        ),
    }
}

fn push_array_new(buf: &mut String, tabs: &String, o: u64, ty: &String)
    ensures
        final(buf)@ == old(buf)@ + array_new_txt(tabs@, o, ty@),
{
    buf.append(tabs.as_str());
    buf.append("let mut v");
    push_dec(buf, o);
    buf.append(": ");
    buf.append(ty.as_str());
    buf.append(" = Array::new();\n");
    proof {
        assert(buf@ =~= old(buf)@ + array_new_txt(tabs@, o, ty@));
    }
}

fn push_append_call(buf: &mut String, tabs: &String, a0: u64, a1: u64)
    ensures
        final(buf)@ == old(buf)@ + append_call_txt(tabs@, a0, a1),
{
    buf.append(tabs.as_str());
    buf.append("v");
    push_dec(buf, a0);
    buf.append(".append(v");
    push_dec(buf, a1);
    buf.append(");\n");
    proof {
        assert(buf@ =~= old(buf)@ + append_call_txt(tabs@, a0, a1));
    }
}

fn push_append_bind(buf: &mut String, tabs: &String, o: u64, ty: &String, a0: u64)
    ensures
        final(buf)@ == old(buf)@ + append_bind_txt(tabs@, o, ty@, a0),
{
    buf.append(tabs.as_str());
    buf.append("let mut v");
    push_dec(buf, o);
    buf.append(": ");
    buf.append(ty.as_str());
    buf.append(" = v");
    push_dec(buf, a0);
    buf.append(";\n");
    proof {
        assert(buf@ =~= old(buf)@ + append_bind_txt(tabs@, o, ty@, a0));
    }
}

fn push_const_bind(buf: &mut String, tabs: &String, o: u64, ty: &String, val: &String)
    ensures
        final(buf)@ == old(buf)@ + const_bind_txt(tabs@, o, ty@, val@),
{
    buf.append(tabs.as_str());
    buf.append("let v");
    push_dec(buf, o);
    buf.append(": ");
    buf.append(ty.as_str());
    buf.append(" = ");
    buf.append(val.as_str());
    buf.append(";\n");
    proof {
        assert(buf@ =~= old(buf)@ + const_bind_txt(tabs@, o, ty@, val@));
    }
}

fn push_drop(buf: &mut String, tabs: &String, a0: u64)
    ensures
        final(buf)@ == old(buf)@ + drop_txt(tabs@, a0),
{
    buf.append(tabs.as_str());
    buf.append("drop(v");
    push_dec(buf, a0);
    buf.append(");\n");
    proof {
        assert(buf@ =~= old(buf)@ + drop_txt(tabs@, a0));
    }
}

fn push_union_init(buf: &mut String, tabs: &String, o: u64, ty: &String, variant: u64, args: &Vec<u64>)
    ensures
        final(buf)@ == old(buf)@ + union_init_txt(tabs@, o, ty@, variant, args@),
{
    buf.append(tabs.as_str());
    buf.append("let v");
    push_dec(buf, o);
    buf.append(": ");
    buf.append(ty.as_str());
    buf.append(" = Enum::Variant");
    push_dec(buf, variant);
    buf.append("(");
    push_vars(buf, args);
    buf.append(");\n");
    proof {
        assert(buf@ =~= old(buf)@ + union_init_txt(tabs@, o, ty@, variant, args@));
    }
}

fn push_record_build(buf: &mut String, tabs: &String, o: u64, ty: &String, args: &Vec<u64>)
    ensures
        final(buf)@ == old(buf)@ + record_build_txt(tabs@, o, ty@, args@),
{
    buf.append(tabs.as_str());
    buf.append("let v");
    push_dec(buf, o);
    buf.append(": ");
    buf.append(ty.as_str());
    buf.append(" = Struct {\n");
    push_fields(buf, tabs, args);
    buf.append(tabs.as_str());
    buf.append("};\n");
    proof {
        assert(buf@ =~= old(buf)@ + record_build_txt(tabs@, o, ty@, args@));
    }
}

fn push_checked_head(buf: &mut String, tabs: &String, o: u64, ty: &String, sub: bool, lhs: u64, rhs: u64)
    ensures
        final(buf)@ == old(buf)@ + checked_head_txt(
            tabs@,
            o,
            ty@,
            if sub {
                OpKind::CheckedSub
            } else {
                OpKind::CheckedAdd
            },
            lhs,
            rhs,
        ),
{
    buf.append(tabs.as_str());
    buf.append("let (v");
    push_dec(buf, o);
    buf.append(" : ");
    buf.append(ty.as_str());
    buf.append(", v");
    push_dec(buf, o);
    buf.append("_overflowed: bool) = v");
    push_dec(buf, lhs);
    if sub {
        buf.append(" - ");
    } else {
        buf.append(" + ");
    }
    buf.append("v");
    push_dec(buf, rhs);
    buf.append(";\n");
    proof {
        let k = if sub {
            OpKind::CheckedSub
        } else {
            OpKind::CheckedAdd
        };
        assert(buf@ =~= old(buf)@ + checked_head_txt(tabs@, o, ty@, k, lhs, rhs));
    }
}

fn push_if_open(buf: &mut String, tabs: &String, o: u64)
    ensures
        final(buf)@ == old(buf)@ + if_open_txt(tabs@, o),
{
    buf.append(tabs.as_str());
    buf.append("if !v");
    push_dec(buf, o);
    buf.append("_overflowed {\n");
    proof {
        assert(buf@ =~= old(buf)@ + if_open_txt(tabs@, o));
    }
}

fn push_passthrough(buf: &mut String, tabs: &String, rc: u64, ty: &String, a0: u64)
    ensures
        final(buf)@ == old(buf)@ + passthrough_txt(tabs@, rc, ty@, a0),
{
    buf.append(tabs.as_str());
    buf.append("    let v");
    push_dec(buf, rc);
    buf.append(": ");
    buf.append(ty.as_str());
    buf.append(" = v");
    push_dec(buf, a0);
    buf.append(";\n");
    proof {
        assert(buf@ =~= old(buf)@ + passthrough_txt(tabs@, rc, ty@, a0));
    }
}

fn push_return(buf: &mut String, tabs: &String, vars: &Vec<u64>)
    ensures
        final(buf)@ == old(buf)@ + return_txt(tabs@, vars@),
{
    buf.append("\n");
    buf.append(tabs.as_str());
    buf.append("return ");
    push_vars(buf, vars);
    buf.append(";\n");
    proof {
        assert(buf@ =~= old(buf)@ + return_txt(tabs@, vars@));
    }
}

/// Records every result variable of every branch, in declared order, into
/// the per-function list of declared variables.
fn record_results(declared: &mut Vec<u64>, branches: &Vec<Branch>)
    ensures
        final(declared)@ == old(declared)@ + all_results(branches@),
{
    let mut b: usize = 0;
    proof {
        assert(declared@ =~= old(declared)@ + all_results(branches@.take(0)));
    }
    while b < branches.len()
        invariant
            b <= branches@.len(),
            declared@ == old(declared)@ + all_results(branches@.take(b as int)),
        decreases branches@.len() - b,
    {
        let res = &branches[b].results;
        let mut v: usize = 0;
        proof {
            assert(declared@ =~= old(declared)@ + all_results(branches@.take(b as int))
                + res@.take(0));
        }
        while v < res.len()
            invariant
                b < branches@.len(),
                v <= res@.len(),
                res == branches@[b as int].results,
                declared@ == old(declared)@ + all_results(branches@.take(b as int)) + res@.take(
                    v as int,
                ),
            decreases res@.len() - v,
        {
            declared.push(res[v]);
            v = v + 1;
            proof {
                assert(res@.take(v as int) =~= res@.take(v - 1).push(res@[v - 1]));
                assert(declared@ =~= old(declared)@ + all_results(branches@.take(b as int))
                    + res@.take(v as int));
            }
        }
        b = b + 1;
        proof {
            assert(res@.take(res@.len() as int) =~= res@);
            assert(branches@.take(b as int).drop_last() =~= branches@.take(b - 1));
            assert(branches@.take(b as int).last() == branches@[b - 1]);
            assert(declared@ =~= old(declared)@ + all_results(branches@.take(b as int)));
        }
    }
    proof {
        assert(branches@.take(branches@.len() as int) =~= branches@);
    }
}

fn push_else(buf: &mut String, tabs: &String)
    ensures
        final(buf)@ == old(buf)@ + else_txt(tabs@),
{
    buf.append(tabs.as_str());
    buf.append("} else {\n");
    proof {
        assert(buf@ =~= old(buf)@ + else_txt(tabs@));
    }
}

fn push_close(buf: &mut String, tabs: &String)
    ensures
        final(buf)@ == old(buf)@ + close_txt(tabs@),
{
    buf.append(tabs.as_str());
    buf.append("}\n");
    proof {
        assert(buf@ =~= old(buf)@ + close_txt(tabs@));
    }
}

/// The executable walker with explicit fuel: appends to `buf` exactly the
/// text `walk` defines, records exactly its declared variables, and returns
/// exactly its error, if any.
#[verifier::rlimit(100)]
#[verifier::spinoff_prover]
fn walk_rec(
    buf: &mut String,
    p: &Program,
    idx: usize,
    declared: &mut Vec<u64>,
    depth: usize,
    fuel: usize,
) -> (r: Result<(), EmitError>)
    requires
        p.wf(),
        idx < p.statements@.len(),
        4 * (depth as int + fuel as int) <= usize::MAX as int,
    ensures
        ({
            let w = walk(*p, idx, depth as nat, fuel as nat);
            &&& final(buf)@ == old(buf)@ + w.text
            &&& final(declared)@ == old(declared)@ + w.decls
            &&& match r {
                Ok(()) => w.err is None,
                Err(e) => w.err == Some(e),
            }
        }),
    decreases fuel, 3int,
{
    let ghost w = walk(*p, idx, depth as nat, fuel as nat);
    if fuel == 0 {
        proof {
            assert(buf@ =~= buf@ + w.text);
            assert(declared@ =~= declared@ + w.decls);
        }
        return Err(EmitError::CycleDetected { statement: idx });
    }
    match &p.statements[idx] {
        Statement::Return { vars } => {
            let mut tabs = String::new();
            push_indent(&mut tabs, depth);
            proof {
                assert(tabs@ =~= indent_txt(depth as nat));
            }
            push_return(buf, &tabs, vars);
            proof {
                assert(buf@ =~= old(buf)@ + w.text);
                assert(declared@ =~= old(declared)@ + w.decls);
            }
            Ok(())
        },
        Statement::Invoke { op, args, branches } => {
            let opv = *op;
            if opv >= p.ops.len() {
                proof {
                    assert(buf@ =~= old(buf)@ + w.text);
                    assert(declared@ =~= old(declared)@ + w.decls);
                }
                return Err(EmitError::OperatorNotFound { id: opv });
            }
            proof {
                assert(stmt_wf(*p, p.statements@[idx as int]));
                assert(invoke_wf(*p, p.ops@[opv as int], args@, branches@));
            }
            let is_checked = match p.ops[opv].kind {
                OpKind::CheckedAdd | OpKind::CheckedSub => true,
                _ => false,
            };
            if is_checked {
                return walk_checked(buf, p, idx, declared, depth, fuel, opv);
            }
            let mut tabs = String::new();
            push_indent(&mut tabs, depth);
            proof {
                assert(tabs@ =~= indent_txt(depth as nat));
            }
            record_results(declared, branches);
            let ghost ds = all_results(branches@);
            let d = &p.ops[opv];
            proof {
                assert(w == walk_invoke(
                    *p,
                    idx,
                    depth as nat,
                    fuel as nat,
                    p.ops@[opv as int],
                    args@,
                    branches@,
                    ds,
                    tabs@,
                ));
            }
            match d.kind {
                OpKind::ApTrack | OpKind::BranchAlign | OpKind::StoreTemp | OpKind::StoreLocal
                    | OpKind::FinalizeLocals | OpKind::AllocLocal => {
                    let t = branches[0].target;
                    let r = walk_rec(buf, p, t, declared, depth, fuel - 1);
                    proof {
                        let sub = walk(*p, t, depth as nat, (fuel - 1) as nat);
                        assert(buf@ =~= old(buf)@ + (Seq::<char>::empty() + sub.text));
                        assert(declared@ =~= old(declared)@ + (ds + sub.decls));
                    }
                    r
                },
                OpKind::GasReserve => {
                    proof {
                        assert(buf@ =~= old(buf)@ + w.text);
                    }
                    Ok(())
                },
                OpKind::DropVal => {
                    push_drop(buf, &tabs, args[0]);
                    let t = branches[0].target;
                    let r = walk_rec(buf, p, t, declared, depth, fuel - 1);
                    proof {
                        let sub = walk(*p, t, depth as nat, (fuel - 1) as nat);
                        assert(buf@ =~= old(buf)@ + (drop_txt(tabs@, args@[0]) + sub.text));
                        assert(declared@ =~= old(declared)@ + (ds + sub.decls));
                    }
                    r
                },
                OpKind::ArrayNew => {
                    match get_type_name(&p.types, d.branch_results[0][0]) {
                        Err(er) => {
                            proof {
                                assert(buf@ =~= old(buf)@ + w.text);
                            }
                            Err(er)
                        },
                        Ok(ty) => {
                            let o = branches[0].results[0];
                            push_array_new(buf, &tabs, o, &ty);
                            let t = branches[0].target;
                            let r = walk_rec(buf, p, t, declared, depth, fuel - 1);
                            proof {
                                let sub = walk(*p, t, depth as nat, (fuel - 1) as nat);
                                assert(buf@ =~= old(buf)@ + (array_new_txt(tabs@, o, ty@)
                                    + sub.text));
                                assert(declared@ =~= old(declared)@ + (ds + sub.decls));
                            }
                            r
                        },
                    }
                },
                OpKind::ArrayAppend => {
                    let a0 = args[0];
                    push_append_call(buf, &tabs, a0, args[1]);
                    match get_type_name(&p.types, d.branch_results[0][0]) {
                        Err(er) => {
                            proof {
                                assert(buf@ =~= old(buf)@ + w.text);
                            }
                            Err(er)
                        },
                        Ok(ty) => {
                            let o = branches[0].results[0];
                            push_append_bind(buf, &tabs, o, &ty, a0);
                            let t = branches[0].target;
                            let r = walk_rec(buf, p, t, declared, depth, fuel - 1);
                            proof {
                                let sub = walk(*p, t, depth as nat, (fuel - 1) as nat);
                                assert(buf@ =~= old(buf)@ + ((append_call_txt(tabs@, a0, args@[1])
                                    + append_bind_txt(tabs@, o, ty@, a0)) + sub.text));
                                assert(declared@ =~= old(declared)@ + (ds + sub.decls));
                            }
                            r
                        },
                    }
                },
                OpKind::RecordBuild => {
                    match get_type_name(&p.types, d.branch_results[0][0]) {
                        Err(er) => {
                            proof {
                                assert(buf@ =~= old(buf)@ + w.text);
                            }
                            Err(er)
                        },
                        Ok(ty) => {
                            let o = branches[0].results[0];
                            push_record_build(buf, &tabs, o, &ty, args);
                            let t = branches[0].target;
                            let r = walk_rec(buf, p, t, declared, depth, fuel - 1);
                            proof {
                                let sub = walk(*p, t, depth as nat, (fuel - 1) as nat);
                                assert(buf@ =~= old(buf)@ + (record_build_txt(tabs@, o, ty@, args@)
                                    + sub.text));
                                assert(declared@ =~= old(declared)@ + (ds + sub.decls));
                            }
                            r
                        },
                    }
                },
                OpKind::UnionInit { variant } => {
                    match get_type_name(&p.types, d.branch_results[0][0]) {
                        Err(er) => {
                            proof {
                                assert(buf@ =~= old(buf)@ + w.text);
                            }
                            Err(er)
                        },
                        Ok(ty) => {
                            let o = branches[0].results[0];
                            push_union_init(buf, &tabs, o, &ty, variant, args);
                            let t = branches[0].target;
                            let r = walk_rec(buf, p, t, declared, depth, fuel - 1);
                            proof {
                                let sub = walk(*p, t, depth as nat, (fuel - 1) as nat);
                                assert(buf@ =~= old(buf)@ + (union_init_txt(
                                    tabs@,
                                    o,
                                    ty@,
                                    variant,
                                    args@,
                                ) + sub.text));
                                assert(declared@ =~= old(declared)@ + (ds + sub.decls));
                            }
                            r
                        },
                    }
                },
                OpKind::ConstImm { const_ty } => {
                    match get_type_name(&p.types, d.branch_results[0][0]) {
                        Err(er) => {
                            proof {
                                assert(buf@ =~= old(buf)@ + w.text);
                            }
                            Err(er)
                        },
                        Ok(ty) => {
                            if const_ty >= p.types.len() {
                                proof {
                                    assert(buf@ =~= old(buf)@ + w.text);
                                }
                                return Err(EmitError::TypeNotFound { id: const_ty });
                            }
                            match &p.types[const_ty] {
                                TypeDesc::ConstVal { digits, inner: _ } => {
                                    let o = branches[0].results[0];
                                    push_const_bind(buf, &tabs, o, &ty, digits);
                                    let t = branches[0].target;
                                    let r = walk_rec(buf, p, t, declared, depth, fuel - 1);
                                    proof {
                                        let sub = walk(*p, t, depth as nat, (fuel - 1) as nat);
                                        assert(buf@ =~= old(buf)@ + (const_bind_txt(
                                            tabs@,
                                            o,
                                            ty@,
                                            p.types@[const_ty as int]->ConstVal_digits@,
                                        ) + sub.text));
                                        assert(declared@ =~= old(declared)@ + (ds + sub.decls));
                                    }
                                    r
                                },
                                _ => {
                                    proof {
                                        assert(buf@ =~= old(buf)@ + w.text);
                                    }
                                    Err(EmitError::TypeNotFound { id: const_ty })
                                },
                            }
                        },
                    }
                },
                OpKind::CheckedAdd | OpKind::CheckedSub => {
                    // Dispatched to walk_checked before this match.
                    proof {
                        assert(false);
                    }
                    Err(EmitError::OperatorNotFound { id: opv })
                },
                OpKind::Unrecognized => {
                    proof {
                        assert(buf@ =~= old(buf)@ + w.text);
                    }
                    Err(EmitError::UnsupportedOperator { statement: idx })
                },
            }
        },
    }
}

/// The checked-arithmetic step: the destructuring binding, then the
/// no-overflow and overflow blocks, the only construct that nests.
#[verifier::rlimit(100)]
#[verifier::spinoff_prover]
fn walk_checked(
    buf: &mut String,
    p: &Program,
    idx: usize,
    declared: &mut Vec<u64>,
    depth: usize,
    fuel: usize,
    opv: usize,
) -> (r: Result<(), EmitError>)
    requires
        p.wf(),
        idx < p.statements@.len(),
        4 * (depth as int + fuel as int) <= usize::MAX as int,
        fuel >= 1,
        p.statements@[idx as int] is Invoke,
        p.statements@[idx as int]->Invoke_op == opv,
        (opv as int) < p.ops@.len(),
        p.ops@[opv as int].kind is CheckedAdd || p.ops@[opv as int].kind is CheckedSub,
    ensures
        ({
            let w = walk(*p, idx, depth as nat, fuel as nat);
            &&& final(buf)@ == old(buf)@ + w.text
            &&& final(declared)@ == old(declared)@ + w.decls
            &&& match r {
                Ok(()) => w.err is None,
                Err(e) => w.err == Some(e),
            }
        }),
    decreases fuel, 2int,
{
    let ghost w = walk(*p, idx, depth as nat, fuel as nat);
    match &p.statements[idx] {
        Statement::Return { vars: _ } => {
            // The statement at idx is an invocation by this function's contract.
            proof {
                assert(false);
            }
            Err(EmitError::OperatorNotFound { id: opv })
        },
        Statement::Invoke { op: _, args, branches } => {
            proof {
                assert(stmt_wf(*p, p.statements@[idx as int]));
                assert(invoke_wf(*p, p.ops@[opv as int], args@, branches@));
            }
            let mut tabs = String::new();
            push_indent(&mut tabs, depth);
            proof {
                assert(tabs@ =~= indent_txt(depth as nat));
            }
            record_results(declared, branches);
            let ghost ds = all_results(branches@);
            let d = &p.ops[opv];
            proof {
                assert(w == walk_invoke(
                    *p,
                    idx,
                    depth as nat,
                    fuel as nat,
                    p.ops@[opv as int],
                    args@,
                    branches@,
                    ds,
                    tabs@,
                ));
            }
            let is_sub = match d.kind {
                OpKind::CheckedSub => true,
                _ => false,
            };
            let o = branches[1].results[1];
                    match get_type_name(&p.types, d.branch_results[1][1]) {
                        Err(er) => {
                            proof {
                                assert(buf@ =~= old(buf)@ + w.text);
                            }
                            Err(er)
                        },
                        Ok(ty) => {
                            push_checked_head(buf, &tabs, o, &ty, is_sub, args[1], args[2]);
                            push_if_open(buf, &tabs, o);
                            let ghost head = checked_head_txt(
                                tabs@,
                                o,
                                ty@,
                                d.kind,
                                args@[1],
                                args@[2],
                            ) + if_open_txt(tabs@, o);
                            proof {
                                assert(buf@ =~= old(buf)@ + head);
                            }
                            let rt = walk_checked_tail(buf, p, idx, declared, depth, fuel, opv);
                            proof {
                                let t = checked_tail_step(
                                    *p,
                                    depth as nat,
                                    fuel as nat,
                                    p.ops@[opv as int],
                                    args@,
                                    branches@,
                                    tabs@,
                                );
                                assert(buf@ =~= old(buf)@ + (head + t.text));
                                assert(declared@ =~= old(declared)@ + (ds + t.decls));
                            }
                            rt
                        },
                    }
        },
    }
}

/// The executable part of a checked-arithmetic step after its destructuring
/// binding and `if` line.
#[verifier::rlimit(100)]
#[verifier::spinoff_prover]
fn walk_checked_tail(
    buf: &mut String,
    p: &Program,
    idx: usize,
    declared: &mut Vec<u64>,
    depth: usize,
    fuel: usize,
    opv: usize,
) -> (r: Result<(), EmitError>)
    requires
        p.wf(),
        idx < p.statements@.len(),
        4 * (depth as int + fuel as int) <= usize::MAX as int,
        fuel >= 1,
        p.statements@[idx as int] is Invoke,
        p.statements@[idx as int]->Invoke_op == opv,
        (opv as int) < p.ops@.len(),
        p.ops@[opv as int].kind is CheckedAdd || p.ops@[opv as int].kind is CheckedSub,
    ensures
        ({
            let t = checked_tail_step(
                *p,
                depth as nat,
                fuel as nat,
                p.ops@[opv as int],
                p.statements@[idx as int]->Invoke_args@,
                p.statements@[idx as int]->Invoke_branches@,
                indent_txt(depth as nat),
            );
            &&& final(buf)@ == old(buf)@ + t.text
            &&& final(declared)@ == old(declared)@ + t.decls
            &&& match r {
                Ok(()) => t.err is None,
                Err(er) => t.err == Some(er),
            }
        }),
    decreases fuel, 1int,
{
    match &p.statements[idx] {
        Statement::Return { vars: _ } => {
            // The statement at idx is an invocation by this function's contract.
            proof {
                assert(false);
            }
            Err(EmitError::OperatorNotFound { id: opv })
        },
        Statement::Invoke { op: _, args, branches } => {
            proof {
                assert(stmt_wf(*p, p.statements@[idx as int]));
                assert(invoke_wf(*p, p.ops@[opv as int], args@, branches@));
            }
            let ghost t = checked_tail_step(
                *p,
                depth as nat,
                fuel as nat,
                p.ops@[opv as int],
                args@,
                branches@,
                indent_txt(depth as nat),
            );
            let mut tabs = String::new();
            push_indent(&mut tabs, depth);
            proof {
                assert(tabs@ =~= indent_txt(depth as nat));
            }
            let d = &p.ops[opv];
            match get_type_name(&p.types, d.branch_results[0][0]) {
                Err(er) => {
                    proof {
                        assert(buf@ =~= old(buf)@ + t.text);
                        assert(declared@ =~= old(declared)@ + t.decls);
                    }
                    Err(er)
                },
                Ok(ty00) => {
                    push_passthrough(buf, &tabs, branches[0].results[0], &ty00, args[0]);
                    let r0 = walk_rec(buf, p, branches[0].target, declared, depth + 1, fuel - 1);
                    let ghost sub0 = walk(*p, branches@[0].target, depth as nat + 1, (fuel
                        - 1) as nat);
                    let ghost pass0 = passthrough_txt(
                        tabs@,
                        branches@[0].results@[0],
                        ty00@,
                        args@[0],
                    );
                    match r0 {
                        Err(e0) => {
                            proof {
                                assert(buf@ =~= old(buf)@ + (pass0 + sub0.text));
                                assert(declared@ =~= old(declared)@ + sub0.decls);
                            }
                            Err(e0)
                        },
                        Ok(()) => {
                            let re = walk_checked_else(buf, p, idx, declared, depth, fuel, opv);
                            proof {
                                let e = checked_else_step(
                                    *p,
                                    depth as nat,
                                    fuel as nat,
                                    p.ops@[opv as int],
                                    args@,
                                    branches@,
                                    tabs@,
                                );
                                assert(buf@ =~= old(buf)@ + (pass0 + sub0.text + e.text));
                                assert(declared@ =~= old(declared)@ + (sub0.decls + e.decls));
                            }
                            re
                        },
                    }
                },
            }
        },
    }
}

/// The executable overflow (`else`) half of a checked-arithmetic step.
#[verifier::rlimit(100)]
#[verifier::spinoff_prover]
fn walk_checked_else(
    buf: &mut String,
    p: &Program,
    idx: usize,
    declared: &mut Vec<u64>,
    depth: usize,
    fuel: usize,
    opv: usize,
) -> (r: Result<(), EmitError>)
    requires
        p.wf(),
        idx < p.statements@.len(),
        4 * (depth as int + fuel as int) <= usize::MAX as int,
        fuel >= 1,
        p.statements@[idx as int] is Invoke,
        p.statements@[idx as int]->Invoke_op == opv,
        (opv as int) < p.ops@.len(),
        p.ops@[opv as int].kind is CheckedAdd || p.ops@[opv as int].kind is CheckedSub,
    ensures
        ({
            let e = checked_else_step(
                *p,
                depth as nat,
                fuel as nat,
                p.ops@[opv as int],
                p.statements@[idx as int]->Invoke_args@,
                p.statements@[idx as int]->Invoke_branches@,
                indent_txt(depth as nat),
            );
            &&& final(buf)@ == old(buf)@ + e.text
            &&& final(declared)@ == old(declared)@ + e.decls
            &&& match r {
                Ok(()) => e.err is None,
                Err(er) => e.err == Some(er),
            }
        }),
    decreases fuel, 0int,
{
    match &p.statements[idx] {
        Statement::Return { vars: _ } => {
            // The statement at idx is an invocation by this function's contract.
            proof {
                assert(false);
            }
            Err(EmitError::OperatorNotFound { id: opv })
        },
        Statement::Invoke { op: _, args, branches } => {
            proof {
                assert(stmt_wf(*p, p.statements@[idx as int]));
                assert(invoke_wf(*p, p.ops@[opv as int], args@, branches@));
            }
            let ghost e = checked_else_step(
                *p,
                depth as nat,
                fuel as nat,
                p.ops@[opv as int],
                args@,
                branches@,
                indent_txt(depth as nat),
            );
            let mut tabs = String::new();
            push_indent(&mut tabs, depth);
            proof {
                assert(tabs@ =~= indent_txt(depth as nat));
            }
            let d = &p.ops[opv];
            push_else(buf, &tabs);
            match get_type_name(&p.types, d.branch_results[1][0]) {
                Err(er) => {
                    proof {
                        assert(buf@ =~= old(buf)@ + e.text);
                        assert(declared@ =~= old(declared)@ + e.decls);
                    }
                    Err(er)
                },
                Ok(ty10) => {
                    push_passthrough(buf, &tabs, branches[1].results[0], &ty10, args[0]);
                    let r1 = walk_rec(buf, p, branches[1].target, declared, depth + 1, fuel - 1);
                    let ghost sub1 = walk(*p, branches@[1].target, depth as nat + 1, (fuel
                        - 1) as nat);
                    match r1 {
                        Err(e1) => {
                            proof {
                                assert(buf@ =~= old(buf)@ + (else_txt(tabs@) + passthrough_txt(
                                    tabs@,
                                    branches@[1].results@[0],
                                    ty10@,
                                    args@[0],
                                ) + sub1.text));
                                assert(declared@ =~= old(declared)@ + sub1.decls);
                            }
                            Err(e1)
                        },
                        Ok(()) => {
                            push_close(buf, &tabs);
                            proof {
                                assert(buf@ =~= old(buf)@ + (else_txt(tabs@) + passthrough_txt(
                                    tabs@,
                                    branches@[1].results@[0],
                                    ty10@,
                                    args@[0],
                                ) + sub1.text + close_txt(tabs@)));
                                assert(declared@ =~= old(declared)@ + sub1.decls);
                            }
                            Ok(())
                        },
                    }
                },
            }
        },
    }
}

/// Walks one function body from the statement at `idx` at nesting `depth`,
/// appending the reconstructed pseudo-source to `buf` and recording every
/// result variable it binds into `declared`: exactly what `walk` defines,
/// with one unit of fuel per statement of the program — enough for every
/// branching tree, so `CycleDetected` is returned only on genuinely cyclic
/// control flow.
pub fn build_statement(
    buf: &mut String,
    p: &Program,
    idx: usize,
    declared: &mut Vec<u64>,
    depth: usize,
) -> (r: Result<(), EmitError>)
    requires
        p.wf(),
        idx < p.statements@.len(),
        4 * (depth as int + p.statements@.len()) <= usize::MAX as int,
    ensures
        ({
            let w = walk(*p, idx, depth as nat, p.statements@.len());
            &&& final(buf)@ == old(buf)@ + w.text
            &&& final(declared)@ == old(declared)@ + w.decls
            &&& match r {
                Ok(()) => w.err is None,
                Err(e) => w.err == Some(e),
            }
        }),
{
    walk_rec(buf, p, idx, declared, depth, p.statements.len())
}

} // verus!
