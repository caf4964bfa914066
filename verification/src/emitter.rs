//! The function and program emitters: the signature line of each declared
//! function, its body via the statement walker, and the concatenation over
//! all functions in declared order.  Emission is all-or-nothing: the first
//! error aborts the whole program's emission, so no partial text is ever
//! handed to a caller.

use vstd::prelude::*;

use crate::ir::{EmitError, Function, Program, TypeDesc, types_wf};
use crate::resolver::{cat_res, get_type_name, txt_res, type_txt};
use crate::text::{dec_txt, push_dec};
use crate::walker::{build_statement, walk};

verus! {

/// The `, `-joined parameter list `v<i>: <type>, ...`, numbering parameters
/// by position starting at `i`; fails with the leftmost lookup error.
pub open spec fn params_txt(ts: Seq<TypeDesc>, ids: Seq<usize>, i: u64, first: bool) -> Result<
    Seq<char>,
    EmitError,
>
    decreases ids.len(),
{
    if ids.len() == 0 {
        Ok(Seq::empty())
    } else {
        match type_txt(ts, ids[0]) {
            Err(e) => Err(e),
            Ok(t) => match params_txt(ts, ids.drop_first(), (i + 1) as u64, false) {
                Err(e) => Err(e),
                Ok(r) => Ok(
                    (if first {
                        Seq::empty()
                    } else {
                        ", "@
                    }) + "v"@ + dec_txt(i) + ": "@ + t + r,
                ),
            },
        }
    }
}

/// The `, `-joined return type list; fails with the leftmost lookup error.
pub open spec fn rets_txt(ts: Seq<TypeDesc>, ids: Seq<usize>, first: bool) -> Result<
    Seq<char>,
    EmitError,
>
    decreases ids.len(),
{
    if ids.len() == 0 {
        Ok(Seq::empty())
    } else {
        match type_txt(ts, ids[0]) {
            Err(e) => Err(e),
            Ok(t) => match rets_txt(ts, ids.drop_first(), false) {
                Err(e) => Err(e),
                Ok(r) => Ok(
                    (if first {
                        Seq::empty()
                    } else {
                        ", "@
                    }) + t + r,
                ),
            },
        }
    }
}

/// One function's whole emission: the signature line, the walked body at
/// one level of indentation, and the closing brace — or the first error of
/// its signature resolution or body walk.
pub open spec fn func_txt(p: Program, f: Function) -> Result<Seq<char>, EmitError> {
    match params_txt(p.types@, f.params@, 0, true) {
        Err(e) => Err(e),
        Ok(ps) => match rets_txt(p.types@, f.rets@, true) {
            Err(e) => Err(e),
            Ok(rs) => {
                let w = walk(p, f.entry, 1, p.statements@.len() as nat);
                match w.err {
                    Some(e) => Err(e),
                    None => Ok(
                        "pub fn func_"@ + dec_txt(f.id) + "("@ + ps + ") -> ("@ + rs + ") {\n"@
                            + w.text + "}\n\n"@,
                    ),
                }
            },
        },
    }
}

/// The emissions of the functions from index `k` on, concatenated in
/// declared order; the first failing function aborts the rest.
pub open spec fn program_rest(p: Program, k: int) -> Result<Seq<char>, EmitError>
    decreases p.funcs@.len() - k,
{
    if k < 0 || k >= p.funcs@.len() {
        Ok(Seq::empty())
    } else {
        match func_txt(p, p.funcs@[k]) {
            Err(e) => Err(e),
            Ok(t) => match program_rest(p, k + 1) {
                Err(e) => Err(e),
                Ok(r) => Ok(t + r),
            },
        }
    }
}

/// The whole program's emission: a leading blank line, then every function
/// in declared order — or the first error, in which case nothing is owed.
pub open spec fn program_txt(p: Program) -> Result<Seq<char>, EmitError> {
    match program_rest(p, 0) {
        Err(e) => Err(e),
        Ok(t) => Ok("\n"@ + t),
    }
}

/// Builds the parameter list of a signature, exactly as `params_txt`
/// defines it.
fn join_params(types: &Vec<TypeDesc>, ids: &Vec<usize>) -> (r: Result<String, EmitError>)
    requires
        types_wf(types@),
    ensures
        txt_res(r) == params_txt(types@, ids@, 0, true),
{
    let mut s = String::new();
    let mut j: usize = 0;
    proof {
        assert(ids@.skip(0) =~= ids@);
        match params_txt(types@, ids@, 0, true) {
            Ok(t) => {
                assert(Seq::<char>::empty() + t =~= t);
            },
            Err(_) => {},
        }
    }
    while j < ids.len()
        invariant
            types_wf(types@),
            j <= ids@.len(),
            cat_res(s@, params_txt(types@, ids@.skip(j as int), j as u64, j == 0)) == params_txt(
                types@,
                ids@,
                0,
                true,
            ),
        decreases ids@.len() - j,
    {
        proof {
            assert(ids@.skip(j as int)[0] == ids@[j as int]);
            assert(ids@.skip(j as int).drop_first() =~= ids@.skip(j + 1));
            assert((j as u64 + 1) as u64 == (j + 1) as u64);
        }
        match get_type_name(types, ids[j]) {
            Err(er) => {
                return Err(er);
            },
            Ok(t) => {
                let ghost pre = s@;
                if j > 0 {
                    s.append(", ");
                }
                s.append("v");
                push_dec(&mut s, j as u64);
                s.append(": ");
                s.append(t.as_str());
                proof {
                    let rest = params_txt(types@, ids@.skip(j + 1), (j + 1) as u64, false);
                    match rest {
                        Ok(r) => {
                            if j == 0 {
                                assert(s@ + r =~= pre + ((Seq::<char>::empty() + "v"@ + dec_txt(
                                    j as u64,
                                ) + ": "@ + t@) + r));
                            } else {
                                assert(s@ + r =~= pre + ((", "@ + "v"@ + dec_txt(j as u64) + ": "@
                                    + t@) + r));
                            }
                        },
                        Err(_) => {},
                    }
                }
            },
        }
        j = j + 1;
    }
    proof {
        assert(ids@.skip(ids@.len() as int) =~= Seq::<usize>::empty());
        assert(s@ + Seq::<char>::empty() =~= s@);
    }
    Ok(s)
}

/// Builds the return type list of a signature, exactly as `rets_txt`
/// defines it.
fn join_rets(types: &Vec<TypeDesc>, ids: &Vec<usize>) -> (r: Result<String, EmitError>)
    requires
        types_wf(types@),
    ensures
        txt_res(r) == rets_txt(types@, ids@, true),
{
    let mut s = String::new();
    let mut j: usize = 0;
    proof {
        assert(ids@.skip(0) =~= ids@);
        match rets_txt(types@, ids@, true) {
            Ok(t) => {
                assert(Seq::<char>::empty() + t =~= t);
            },
            Err(_) => {},
        }
    }
    while j < ids.len()
        invariant
            types_wf(types@),
            j <= ids@.len(),
            cat_res(s@, rets_txt(types@, ids@.skip(j as int), j == 0)) == rets_txt(
                types@,
                ids@,
                true,
            ),
        decreases ids@.len() - j,
    {
        proof {
            assert(ids@.skip(j as int)[0] == ids@[j as int]);
            assert(ids@.skip(j as int).drop_first() =~= ids@.skip(j + 1));
        }
        match get_type_name(types, ids[j]) {
            Err(er) => {
                return Err(er);
            },
            Ok(t) => {
                let ghost pre = s@;
                if j > 0 {
                    s.append(", ");
                }
                s.append(t.as_str());
                proof {
                    let rest = rets_txt(types@, ids@.skip(j + 1), false);
                    match rest {
                        Ok(r) => {
                            if j == 0 {
                                assert(s@ + r =~= pre + ((Seq::<char>::empty() + t@) + r));
                            } else {
                                assert(s@ + r =~= pre + ((", "@ + t@) + r));
                            }
                        },
                        Err(_) => {},
                    }
                }
            },
        }
        j = j + 1;
    }
    proof {
        assert(ids@.skip(ids@.len() as int) =~= Seq::<usize>::empty());
        assert(s@ + Seq::<char>::empty() =~= s@);
    }
    Ok(s)
}

/// Emits one function: resolves its signature, walks its body from its
/// entry statement, and returns exactly the text `func_txt` defines — or
/// exactly the first error met, with nothing handed out.
pub fn emit_function(p: &Program, f: &Function) -> (r: Result<String, EmitError>)
    requires
        p.wf(),
        (f.entry as int) < p.statements@.len(),
        4 * (1 + p.statements@.len()) <= usize::MAX as int,
    ensures
        txt_res(r) == func_txt(*p, *f),
{
    let ps = match join_params(&p.types, &f.params) {
        Ok(x) => x,
        Err(e) => {
            return Err(e);
        },
    };
    let rs = match join_rets(&p.types, &f.rets) {
        Ok(x) => x,
        Err(e) => {
            return Err(e);
        },
    };
    let mut s = String::from_str("pub fn func_");
    push_dec(&mut s, f.id);
    s.append("(");
    s.append(ps.as_str());
    s.append(") -> (");
    s.append(rs.as_str());
    s.append(") {\n");
    let ghost header = "pub fn func_"@ + dec_txt(f.id) + "("@ + ps@ + ") -> ("@ + rs@ + ") {\n"@;
    proof {
        assert(s@ =~= header);
    }
    let mut declared: Vec<u64> = Vec::new();
    match build_statement(&mut s, p, f.entry, &mut declared, 1) {
        Err(e) => {
            return Err(e);
        },
        Ok(()) => {},
    }
    s.append("}\n\n");
    proof {
        let w = walk(*p, f.entry, 1, p.statements@.len() as nat);
        assert(s@ =~= header + w.text + "}\n\n"@);
    }
    Ok(s)
}

/// Emits the whole program, every function in declared order after one
/// leading blank line: exactly the text `program_txt` defines, or exactly
/// the first error met — all-or-nothing, never partial text.
pub fn emit_program(p: &Program) -> (r: Result<String, EmitError>)
    requires
        p.wf(),
        4 * (1 + p.statements@.len()) <= usize::MAX as int,
    ensures
        txt_res(r) == program_txt(*p),
{
    let mut buf = String::from_str("\n");
    let mut k: usize = 0;
    proof {
        match program_rest(*p, 0) {
            Ok(t) => {
                assert("\n"@ + t =~= "\n"@ + t);
            },
            Err(_) => {},
        }
    }
    while k < p.funcs.len()
        invariant
            p.wf(),
            4 * (1 + p.statements@.len()) <= usize::MAX as int,
            k <= p.funcs@.len(),
            cat_res(buf@, program_rest(*p, k as int)) == program_txt(*p),
        decreases p.funcs@.len() - k,
    {
        proof {
            assert(p.funcs@[k as int].entry < p.statements@.len());
        }
        match emit_function(p, &p.funcs[k]) {
            Err(e) => {
                return Err(e);
            },
            Ok(t) => {
                let ghost pre = buf@;
                buf.append(t.as_str());
                proof {
                    let rest = program_rest(*p, k + 1);
                    match rest {
                        Ok(r) => {
                            assert(buf@ + r =~= pre + (t@ + r));
                        },
                        Err(_) => {},
                    }
                }
            },
        }
        k = k + 1;
    }
    proof {
        assert(buf@ + Seq::<char>::empty() =~= buf@);
    }
    Ok(buf)
}

} // verus!
