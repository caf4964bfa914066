//! The type resolver: turns a catalog type reference into a readable,
//! structural type expression.  The spec function `type_txt` is the
//! definition of that text; `get_type_name` is the executable resolver,
//! proved to return exactly it, including which lookup error it reports.

use vstd::prelude::*;

use crate::ir::{EmitError, ScalarKind, TypeDesc, WrapperKind, type_wf_at, types_wf};

verus! {

/// The fixed keyword of a scalar builtin.
pub open spec fn scalar_txt(k: ScalarKind) -> Seq<char> {
    match k {
        ScalarKind::Felt252 => "felt252"@,
        ScalarKind::GasBuiltin => "GasBuiltin"@,
        ScalarKind::BuiltinCosts => "BuiltinCosts"@,
        ScalarKind::Uint8 => "u8"@,
        ScalarKind::Uint16 => "u16"@,
        ScalarKind::Uint32 => "u32"@,
        ScalarKind::Uint64 => "u64"@,
        ScalarKind::Uint128 => "u128"@,
        ScalarKind::Uint128MulGuarantee => "Uint128MulGuarantee"@,
        ScalarKind::Sint8 => "i8"@,
        ScalarKind::Sint16 => "i16"@,
        ScalarKind::Sint32 => "i32"@,
        ScalarKind::Sint64 => "i64"@,
        ScalarKind::Sint128 => "i128"@,
        ScalarKind::RangeCheck => "RangeCheck"@,
        ScalarKind::RangeCheck96 => "RangeCheck96"@,
    }
}

/// The keyword of a wrapper type.
pub open spec fn wrapper_txt(k: WrapperKind) -> Seq<char> {
    match k {
        WrapperKind::NonZero => "NonZero"@,
        WrapperKind::Nullable => "Nullable"@,
        WrapperKind::Uninitialized => "Uninitialized"@,
        WrapperKind::Snapshot => "Snapshot"@,
    }
}

/// The text a catalog type reference resolves to, or the lookup error:
/// scalars are keywords, arrays and wrappers wrap their inner type's text in
/// angle brackets, records parenthesize their comma-joined members, unions
/// list their comma-joined variants inside `Enum<...>`, and a compile-time
/// constant decays to its literal decimal text.
pub open spec fn type_txt(ts: Seq<TypeDesc>, id: usize) -> Result<Seq<char>, EmitError>
    decreases id, 1int, 0int,
    when types_wf(ts)
    via type_txt_dec
{
    if (id as int) >= ts.len() {
        Err(EmitError::TypeNotFound { id })
    } else {
        match ts[id as int] {
            TypeDesc::Scalar(k) => Ok(scalar_txt(k)),
            TypeDesc::Array(e) => match type_txt(ts, e) {
                Ok(t) => Ok("Array<"@ + t + ">"@),
                Err(er) => Err(er),
            },
            TypeDesc::Wrapper(k, e) => match type_txt(ts, e) {
                Ok(t) => Ok(wrapper_txt(k) + "<"@ + t + ">"@),
                Err(er) => Err(er),
            },
            TypeDesc::Record(ms) => match type_list_txt(ts, ms@, id as int, true) {
                Ok(t) => Ok("("@ + t + ")"@),
                Err(er) => Err(er),
            },
            TypeDesc::Union(vs) => match type_list_txt(ts, vs@, id as int, true) {
                Ok(t) => Ok("Enum<"@ + t + ">"@),
                Err(er) => Err(er),
            },
            TypeDesc::ConstVal { digits, inner: _ } => Ok(digits@),
        }
    }
}

#[via_fn]
proof fn type_txt_dec(ts: Seq<TypeDesc>, id: usize) {
    if (id as int) < ts.len() {
        assert(type_wf_at(ts, id as int));
    }
}

/// The `, `-joined texts of a list of type references, resolved left to
/// right, reporting the leftmost lookup error.  `first` is false once a
/// preceding member has been emitted; `b` bounds the references, as the
/// well-formed catalog guarantees for members of the descriptor at `b`.
pub open spec fn type_list_txt(ts: Seq<TypeDesc>, ids: Seq<usize>, b: int, first: bool) -> Result<
    Seq<char>,
    EmitError,
>
    decreases b, 0int, ids.len(),
    when types_wf(ts) && (forall|j: int| 0 <= j < ids.len() ==> (ids[j] as int) < b)
    via type_list_txt_dec
{
    if ids.len() == 0 {
        Ok(Seq::empty())
    } else {
        match type_txt(ts, ids[0]) {
            Err(er) => Err(er),
            Ok(t) => match type_list_txt(ts, ids.drop_first(), b, false) {
                Err(er) => Err(er),
                Ok(r) => Ok((if first {
                    t
                } else {
                    ", "@ + t
                }) + r),
            },
        }
    }
}

#[via_fn]
proof fn type_list_txt_dec(ts: Seq<TypeDesc>, ids: Seq<usize>, b: int, first: bool) {
    if ids.len() > 0 {
        assert((ids[0] as int) < b);
        assert forall|k: int| 0 <= k < ids.drop_first().len() implies (ids.drop_first()[k] as int)
            < b by {
            assert(ids.drop_first()[k] == ids[k + 1]);
        }
    }
}

/// The view of an executable resolution result, for stating contracts.
pub open spec fn txt_res(r: Result<String, EmitError>) -> Result<Seq<char>, EmitError> {
    match r {
        Ok(s) => Ok(s@),
        Err(e) => Err(e),
    }
}

/// `r` prepended with the already-built text `pre` when it succeeded.
pub open spec fn cat_res(pre: Seq<char>, r: Result<Seq<char>, EmitError>) -> Result<
    Seq<char>,
    EmitError,
> {
    match r {
        Ok(t) => Ok(pre + t),
        Err(e) => Err(e),
    }
}

/// The fixed keyword of a scalar builtin, as an owned string.
pub fn scalar_name(k: ScalarKind) -> (r: String)
    ensures
        r@ == scalar_txt(k),
{
    match k {
        ScalarKind::Felt252 => String::from_str("felt252"),
        ScalarKind::GasBuiltin => String::from_str("GasBuiltin"),
        ScalarKind::BuiltinCosts => String::from_str("BuiltinCosts"),
        ScalarKind::Uint8 => String::from_str("u8"),
        ScalarKind::Uint16 => String::from_str("u16"),
        ScalarKind::Uint32 => String::from_str("u32"),
        ScalarKind::Uint64 => String::from_str("u64"),
        ScalarKind::Uint128 => String::from_str("u128"),
        ScalarKind::Uint128MulGuarantee => String::from_str("Uint128MulGuarantee"),
        ScalarKind::Sint8 => String::from_str("i8"),
        ScalarKind::Sint16 => String::from_str("i16"),
        ScalarKind::Sint32 => String::from_str("i32"),
        ScalarKind::Sint64 => String::from_str("i64"),
        ScalarKind::Sint128 => String::from_str("i128"),
        ScalarKind::RangeCheck => String::from_str("RangeCheck"),
        ScalarKind::RangeCheck96 => String::from_str("RangeCheck96"),
    }
}

/// Resolves one catalog type reference to its type expression, exactly as
/// `type_txt` defines it: deterministic, and failing with `TypeNotFound`
/// precisely on the references the catalog does not resolve.
pub fn get_type_name(types: &Vec<TypeDesc>, id: usize) -> (r: Result<String, EmitError>)
    requires
        types_wf(types@),
    ensures
        txt_res(r) == type_txt(types@, id),
    decreases id, 1int, 0int,
{
    if id >= types.len() {
        return Err(EmitError::TypeNotFound { id });
    }
    proof {
        assert(type_wf_at(types@, id as int));
    }
    match &types[id] {
        TypeDesc::Scalar(k) => Ok(scalar_name(*k)),
        TypeDesc::Array(e) => match get_type_name(types, *e) {
            Ok(t) => {
                let mut s = String::from_str("Array<");
                s.append(t.as_str());
                s.append(">");
                proof {
                    assert(s@ =~= "Array<"@ + t@ + ">"@);
                }
                Ok(s)
            },
            Err(er) => Err(er),
        },
        TypeDesc::Wrapper(k, e) => match get_type_name(types, *e) {
            Ok(t) => {
                let mut s = scalar_or_wrapper_kw(*k);
                s.append("<");
                s.append(t.as_str());
                s.append(">");
                proof {
                    assert(s@ =~= wrapper_txt(*k) + "<"@ + t@ + ">"@);
                }
                Ok(s)
            },
            Err(er) => Err(er),
        },
        TypeDesc::Record(ms) => match join_type_names(types, ms, id) {
            Ok(t) => {
                let mut s = String::from_str("(");
                s.append(t.as_str());
                s.append(")");
                proof {
                    assert(s@ =~= "("@ + t@ + ")"@);
                }
                Ok(s)
            },
            Err(er) => Err(er),
        },
        TypeDesc::Union(vs) => match join_type_names(types, vs, id) {
            Ok(t) => {
                let mut s = String::from_str("Enum<");
                s.append(t.as_str());
                s.append(">");
                proof {
                    assert(s@ =~= "Enum<"@ + t@ + ">"@);
                }
                Ok(s)
            },
            Err(er) => Err(er),
        },
        TypeDesc::ConstVal { digits, inner: _ } => Ok(digits.clone()),
    }
}

/// The keyword of a wrapper type, as an owned string.
fn scalar_or_wrapper_kw(k: WrapperKind) -> (r: String)
    ensures
        r@ == wrapper_txt(k),
{
    match k {
        WrapperKind::NonZero => String::from_str("NonZero"),
        WrapperKind::Nullable => String::from_str("Nullable"),
        WrapperKind::Uninitialized => String::from_str("Uninitialized"),
        WrapperKind::Snapshot => String::from_str("Snapshot"),
    }
}

/// Resolves a member list left to right into its `, `-joined text, exactly
/// as `type_list_txt` defines it.
fn join_type_names(types: &Vec<TypeDesc>, ids: &Vec<usize>, bound: usize) -> (r: Result<
    String,
    EmitError,
>)
    requires
        types_wf(types@),
        forall|j: int| 0 <= j < ids@.len() ==> (ids@[j] as int) < bound,
    ensures
        txt_res(r) == type_list_txt(types@, ids@, bound as int, true),
    decreases bound, 0int, 0int,
{
    let mut s = String::new();
    let mut j: usize = 0;
    proof {
        assert(ids@.skip(0) =~= ids@);
        match type_list_txt(types@, ids@, bound as int, true) {
            Ok(t) => {
                assert(Seq::<char>::empty() + t =~= t);
            },
            Err(_) => {},
        }
    }
    while j < ids.len()
        invariant
            types_wf(types@),
            forall|k: int| 0 <= k < ids@.len() ==> (ids@[k] as int) < bound,
            j <= ids@.len(),
            cat_res(s@, type_list_txt(types@, ids@.skip(j as int), bound as int, j == 0))
                == type_list_txt(types@, ids@, bound as int, true),
        decreases ids@.len() - j,
    {
        proof {
            assert((ids@[j as int] as int) < bound);
            assert(ids@.skip(j as int)[0] == ids@[j as int]);
            assert(ids@.skip(j as int).drop_first() =~= ids@.skip(j + 1));
            assert forall|k: int| 0 <= k < ids@.skip(j as int).len() implies (ids@.skip(
                j as int,
            )[k] as int) < bound by {
                assert(ids@.skip(j as int)[k] == ids@[j + k]);
            }
        }
        match get_type_name(types, ids[j]) {
            Err(er) => {
                return Err(er);
            },
            Ok(t) => {
                let ghost pre = s@;
                if j > 0 {
                    s.append(", ");
                }
                s.append(t.as_str());
                proof {
                    let rest = type_list_txt(types@, ids@.skip(j + 1), bound as int, false);
                    match rest {
                        Ok(r) => {
                            if j == 0 {
                                assert(s@ + r =~= pre + (t@ + r));
                            } else {
                                assert(s@ + r =~= pre + ((", "@ + t@) + r));
                            }
                        },
                        Err(_) => {},
                    }
                }
            },
        }
        j = j + 1;
    }
    proof {
        assert(ids@.skip(ids@.len() as int) =~= Seq::<usize>::empty());
        assert(s@ + Seq::<char>::empty() =~= s@);
    }
    Ok(s)
}

/// Resolution is deterministic: any two results that meet the resolver's
/// contract for the same catalog and reference are identical, so resolving
/// the same reference twice yields identical text.
pub proof fn lemma_resolve_deterministic(
    ts: Seq<TypeDesc>,
    id: usize,
    r1: Result<Seq<char>, EmitError>,
    r2: Result<Seq<char>, EmitError>,
)
    requires
        r1 == type_txt(ts, id),
        r2 == type_txt(ts, id),
    ensures
        r1 == r2,
{
}

/// Resolving an array reference always yields `Array<` around its element's
/// own resolution, and fails exactly when the element's resolution fails.
pub proof fn lemma_resolve_array(ts: Seq<TypeDesc>, id: usize, e: usize)
    requires
        types_wf(ts),
        (id as int) < ts.len(),
        ts[id as int] == TypeDesc::Array(e),
    ensures
        type_txt(ts, id) == (match type_txt(ts, e) {
            Ok(t) => Ok::<Seq<char>, EmitError>("Array<"@ + t + ">"@),
            Err(er) => Err::<Seq<char>, EmitError>(er),
        }),
{
}

} // verus!
