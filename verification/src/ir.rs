//! In-memory model of the flat, branch-addressed intermediate representation
//! that the decompiler consumes, together with its well-formedness predicates.
//!
//! A program is an immutable arena: a type catalog, an operator catalog, one
//! flat ordered statement list shared by all functions, and the function
//! entry points.  Branch targets and catalog references are plain indices
//! into these arenas; variable identifiers are opaque numbers.

use vstd::prelude::*;

verus! {

/// Scalar builtin types of the catalog, each rendered as a fixed keyword.
#[derive(Clone, Copy, Debug)]
pub enum ScalarKind {
    Felt252,
    GasBuiltin,
    BuiltinCosts,
    Uint8,
    Uint16,
    Uint32,
    Uint64,
    Uint128,
    Uint128MulGuarantee,
    Sint8,
    Sint16,
    Sint32,
    Sint64,
    Sint128,
    RangeCheck,
    RangeCheck96,
}

/// Single-inner-type wrappers of the catalog.
#[derive(Clone, Copy, Debug)]
pub enum WrapperKind {
    NonZero,
    Nullable,
    Uninitialized,
    Snapshot,
}

/// Structural descriptor of one type in the catalog.  Member references are
/// indices into the same catalog; a well-formed catalog only refers backward
/// (every inner index is smaller than the index of the descriptor using it),
/// which is how the declarations arrive: each one may only mention types
/// declared before it.
#[derive(Debug)]
pub enum TypeDesc {
    Scalar(ScalarKind),
    /// Array of the element type.
    Array(usize),
    /// One wrapped inner type.
    Wrapper(WrapperKind, usize),
    /// Record (tuple) of the member types, in declared order.
    Record(Vec<usize>),
    /// Tagged union of the variant types, in declared order.
    Union(Vec<usize>),
    /// Compile-time constant: its literal decimal text plus the underlying type.
    ConstVal { digits: String, inner: usize },
}

/// One successor path of an invocation: the statement it continues at and the
/// result variables it binds there.
#[derive(Debug)]
pub struct Branch {
    pub target: usize,
    pub results: Vec<u64>,
}

/// One statement of the flat list: an operator invocation with one or more
/// branches, or a terminal return.
#[derive(Debug)]
pub enum Statement {
    Invoke { op: usize, args: Vec<u64>, branches: Vec<Branch> },
    Return { vars: Vec<u64> },
}

/// The kind tag of an operator, a closed set: the walker dispatches on it.
#[derive(Clone, Copy, Debug)]
pub enum OpKind {
    /// Bookkeeping marker for ap tracking; emits nothing.
    ApTrack,
    /// Bookkeeping marker at a branch join; emits nothing.
    BranchAlign,
    /// Memory-slot store; emits nothing.
    StoreTemp,
    /// Memory-slot store; emits nothing.
    StoreLocal,
    /// Memory-slot finalization; emits nothing.
    FinalizeLocals,
    /// Memory-slot allocation; emits nothing.
    AllocLocal,
    /// Resource-bookkeeping operation; emits nothing and ends the path.
    GasReserve,
    /// Construct a new empty array.
    ArrayNew,
    /// Append one element to an array, rebinding the array variable.
    ArrayAppend,
    /// Construct a record from the argument variables, positionally.
    RecordBuild,
    /// Construct a tagged-union value selecting the given variant index.
    UnionInit { variant: u64 },
    /// Materialize the compile-time constant held by the given catalog type.
    ConstImm { const_ty: usize },
    /// Explicitly drop the argument variable.
    DropVal,
    /// Checked addition: two branches, success then overflow.
    CheckedAdd,
    /// Checked subtraction: two branches, success then overflow.
    CheckedSub,
    /// Known to the catalog but not supported by the walker; emission fails.
    Unrecognized,
}

/// Catalog descriptor of one operator: its kind tag and, per branch, the
/// ordered result types it declares.
#[derive(Debug)]
pub struct OperatorDesc {
    pub kind: OpKind,
    pub branch_results: Vec<Vec<usize>>,
}

/// One function: its numeric identifier, its signature as catalog type
/// references, and the index into the shared statement list where its body
/// begins.
#[derive(Debug)]
pub struct Function {
    pub id: u64,
    pub params: Vec<usize>,
    pub rets: Vec<usize>,
    pub entry: usize,
}

/// A whole program, immutable for the decompiler's lifetime.
#[derive(Debug)]
pub struct Program {
    pub types: Vec<TypeDesc>,
    pub ops: Vec<OperatorDesc>,
    pub statements: Vec<Statement>,
    pub funcs: Vec<Function>,
}

/// The typed errors of the decompiler.  Lookup errors name the missing
/// catalog entry; the other two name the offending statement.
#[derive(Clone, Copy, Debug, PartialEq, Eq)]
pub enum EmitError {
    /// A type reference that the catalog does not resolve.
    TypeNotFound { id: usize },
    /// An operator reference that the catalog does not resolve.
    OperatorNotFound { id: usize },
    /// An operator whose kind the walker does not support.
    UnsupportedOperator { statement: usize },
    /// A control-flow cycle: the walk revisited statements instead of
    /// reaching a return; the walker supports branching trees only.
    CycleDetected { statement: usize },
}

/// The descriptor at index `i` only refers to types declared before it.
pub open spec fn type_wf_at(ts: Seq<TypeDesc>, i: int) -> bool {
    match ts[i] {
        TypeDesc::Scalar(_) => true,
        TypeDesc::Array(e) => (e as int) < i,
        TypeDesc::Wrapper(_, e) => (e as int) < i,
        TypeDesc::Record(ms) => forall|j: int| 0 <= j < ms@.len() ==> (ms@[j] as int) < i,
        TypeDesc::Union(vs) => forall|j: int| 0 <= j < vs@.len() ==> (vs@[j] as int) < i,
        TypeDesc::ConstVal { digits: _, inner } => (inner as int) < i,
    }
}

/// Every descriptor of the catalog only refers backward; type resolution
/// therefore terminates.
pub open spec fn types_wf(ts: Seq<TypeDesc>) -> bool {
    forall|i: int| 0 <= i < ts.len() ==> #[trigger] type_wf_at(ts, i)
}

/// An invocation with exactly one branch whose target is a real statement.
pub open spec fn single_branch_wf(n_statements: int, branches: Seq<Branch>) -> bool {
    branches.len() == 1 && (branches[0].target as int) < n_statements
}

/// The shape an invocation must have for its operator's kind: the branch
/// count the kind dictates, targets inside the statement list, and enough
/// argument and result variables for the text the walker builds from them.
pub open spec fn invoke_wf(
    p: Program,
    d: OperatorDesc,
    args: Seq<u64>,
    branches: Seq<Branch>,
) -> bool {
    let n = p.statements@.len() as int;
    match d.kind {
        OpKind::ApTrack => single_branch_wf(n, branches),
        OpKind::BranchAlign => single_branch_wf(n, branches),
        OpKind::StoreTemp => single_branch_wf(n, branches),
        OpKind::StoreLocal => single_branch_wf(n, branches),
        OpKind::FinalizeLocals => single_branch_wf(n, branches),
        OpKind::AllocLocal => single_branch_wf(n, branches),
        OpKind::GasReserve => true,
        OpKind::DropVal => single_branch_wf(n, branches) && args.len() >= 1,
        OpKind::ArrayNew => single_branch_wf(n, branches) && branches[0].results@.len() >= 1
            && d.branch_results@.len() >= 1 && d.branch_results@[0]@.len() >= 1,
        OpKind::ArrayAppend => single_branch_wf(n, branches) && branches[0].results@.len() >= 1
            && d.branch_results@.len() >= 1 && d.branch_results@[0]@.len() >= 1
            && args.len() >= 2,
        OpKind::RecordBuild => single_branch_wf(n, branches) && branches[0].results@.len() >= 1
            && d.branch_results@.len() >= 1 && d.branch_results@[0]@.len() >= 1,
        OpKind::UnionInit { variant: _ } => single_branch_wf(n, branches)
            && branches[0].results@.len() >= 1 && d.branch_results@.len() >= 1
            && d.branch_results@[0]@.len() >= 1,
        OpKind::ConstImm { const_ty } => single_branch_wf(n, branches)
            && branches[0].results@.len() >= 1 && d.branch_results@.len() >= 1
            && d.branch_results@[0]@.len() >= 1
            && ((const_ty as int) < p.types@.len() ==> p.types@[const_ty as int] is ConstVal),
        OpKind::CheckedAdd | OpKind::CheckedSub => branches.len() == 2
            && (branches[0].target as int) < n && (branches[1].target as int) < n
            && branches[0].results@.len() >= 1 && branches[1].results@.len() >= 2
            && args.len() >= 3 && d.branch_results@.len() >= 2
            && d.branch_results@[0]@.len() >= 1 && d.branch_results@[1]@.len() >= 2,
        OpKind::Unrecognized => true,
    }
}

/// Well-formedness of one statement against the catalogs.  A return is
/// always well formed; an invocation whose operator the catalog does not
/// know is allowed here (emission reports it), but one the catalog knows
/// must have the shape its kind dictates.
pub open spec fn stmt_wf(p: Program, s: Statement) -> bool {
    match s {
        Statement::Return { vars: _ } => true,
        Statement::Invoke { op, args, branches } => (op as int) < p.ops@.len()
            ==> invoke_wf(p, p.ops@[op as int], args@, branches@),
    }
}

impl Program {
    /// Well-formedness of the whole program: a backward-referring type
    /// catalog, statements shaped as their operators dictate, and function
    /// entry points inside the statement list.
    pub open spec fn wf(self) -> bool {
        &&& types_wf(self.types@)
        &&& forall|i: int|
            0 <= i < self.statements@.len() ==> stmt_wf(self, #[trigger] self.statements@[i])
        &&& forall|i: int|
            0 <= i < self.funcs@.len() ==> (#[trigger] self.funcs@[i]).entry
                < self.statements@.len()
    }
}

/// All result variables an invocation binds, across its branches in declared
/// order: these are recorded as declared for the enclosing function.
pub open spec fn all_results(branches: Seq<Branch>) -> Seq<u64>
    decreases branches.len(),
{
    if branches.len() == 0 {
        Seq::empty()
    } else {
        all_results(branches.drop_last()) + branches.last().results@
    }
}

} // verus!
