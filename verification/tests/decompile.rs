use sierra_dec::checker::check_program;
use sierra_dec::emitter::{emit_function, emit_program};
use sierra_dec::ir::{
    Branch, EmitError, Function, OpKind, OperatorDesc, Program, ScalarKind, Statement, TypeDesc,
};
use sierra_dec::walker::build_statement;

fn op(kind: OpKind, branch_results: Vec<Vec<usize>>) -> OperatorDesc {
    OperatorDesc { kind, branch_results }
}

fn br(target: usize, results: Vec<u64>) -> Branch {
    Branch { target, results }
}

/// Two unsigned-32 parameters, one checked add, the sum returned on
/// success and a sentinel on overflow.
fn checked_add_program() -> Program {
    Program {
        types: vec![
            TypeDesc::Scalar(ScalarKind::Uint32),
            TypeDesc::ConstVal { digits: String::from("4294967295"), inner: 0 },
        ],
        ops: vec![
            op(OpKind::CheckedAdd, vec![vec![0], vec![0, 0]]),
            op(OpKind::ConstImm { const_ty: 1 }, vec![vec![0]]),
        ],
        statements: vec![
            Statement::Invoke {
                op: 0,
                args: vec![0, 0, 1],
                branches: vec![br(1, vec![2]), br(2, vec![4, 3])],
            },
            Statement::Return { vars: vec![3] },
            Statement::Invoke { op: 1, args: vec![], branches: vec![br(3, vec![5])] },
            Statement::Return { vars: vec![5] },
        ],
        funcs: vec![Function { id: 0, params: vec![0, 0], rets: vec![0], entry: 0 }],
    }
}

#[test]
fn checked_add_end_to_end() {
    let p = checked_add_program();
    assert!(check_program(&p));
    let out = emit_program(&p).unwrap();
    let expected = "\npub fn func_0(v0: u32, v1: u32) -> (u32) {\n\
        \x20   let (v3 : u32, v3_overflowed: bool) = v0 + v1;\n\
        \x20   if !v3_overflowed {\n\
        \x20       let v2: u32 = v0;\n\
        \n\
        \x20       return v3;\n\
        \x20   } else {\n\
        \x20       let v4: u32 = v0;\n\
        \x20       let v5: u32 = 4294967295;\n\
        \n\
        \x20       return v5;\n\
        \x20   }\n\
        }\n\n";
    assert_eq!(out, expected);
}

#[test]
fn checked_sub_uses_minus() {
    let mut p = checked_add_program();
    p.ops[0] = op(OpKind::CheckedSub, vec![vec![0], vec![0, 0]]);
    let out = emit_program(&p).unwrap();
    assert!(out.contains("let (v3 : u32, v3_overflowed: bool) = v0 - v1;"));
}

/// An array parameter with a single element appended and returned.
fn append_program() -> Program {
    Program {
        types: vec![TypeDesc::Scalar(ScalarKind::Uint32), TypeDesc::Array(0)],
        ops: vec![op(OpKind::ArrayAppend, vec![vec![1]])],
        statements: vec![
            Statement::Invoke { op: 0, args: vec![0, 1], branches: vec![br(1, vec![2])] },
            Statement::Return { vars: vec![2] },
        ],
        funcs: vec![Function { id: 0, params: vec![1, 0], rets: vec![1], entry: 0 }],
    }
}

#[test]
fn append_end_to_end() {
    let p = append_program();
    assert!(check_program(&p));
    let out = emit_program(&p).unwrap();
    let expected = "\npub fn func_0(v0: Array<u32>, v1: u32) -> (Array<u32>) {\n\
        \x20   v0.append(v1);\n\
        \x20   let mut v2: Array<u32> = v0;\n\
        \n\
        \x20   return v2;\n\
        }\n\n";
    assert_eq!(out, expected);
}

#[test]
fn array_new_skip_and_drop() {
    let p = Program {
        types: vec![TypeDesc::Scalar(ScalarKind::Uint32), TypeDesc::Array(0)],
        ops: vec![
            op(OpKind::ArrayNew, vec![vec![1]]),
            op(OpKind::StoreTemp, vec![vec![1]]),
            op(OpKind::DropVal, vec![vec![]]),
        ],
        statements: vec![
            Statement::Invoke { op: 0, args: vec![], branches: vec![br(1, vec![0])] },
            Statement::Invoke { op: 1, args: vec![0], branches: vec![br(2, vec![1])] },
            Statement::Invoke { op: 2, args: vec![1], branches: vec![br(3, vec![])] },
            Statement::Return { vars: vec![] },
        ],
        funcs: vec![Function { id: 3, params: vec![], rets: vec![], entry: 0 }],
    };
    assert!(check_program(&p));
    let out = emit_program(&p).unwrap();
    let expected = "\npub fn func_3() -> () {\n\
        \x20   let mut v0: Array<u32> = Array::new();\n\
        \x20   drop(v1);\n\
        \n\
        \x20   return ;\n\
        }\n\n";
    assert_eq!(out, expected);
}

#[test]
fn record_and_union_literals() {
    let p = Program {
        types: vec![
            TypeDesc::Scalar(ScalarKind::Uint32),
            TypeDesc::Record(vec![0, 0]),
            TypeDesc::Union(vec![0, 1]),
        ],
        ops: vec![
            op(OpKind::RecordBuild, vec![vec![1]]),
            op(OpKind::UnionInit { variant: 1 }, vec![vec![2]]),
        ],
        statements: vec![
            Statement::Invoke { op: 0, args: vec![0, 1], branches: vec![br(1, vec![2])] },
            Statement::Invoke { op: 1, args: vec![2], branches: vec![br(2, vec![3])] },
            Statement::Return { vars: vec![3] },
        ],
        funcs: vec![Function { id: 1, params: vec![0, 0], rets: vec![2], entry: 0 }],
    };
    assert!(check_program(&p));
    let out = emit_program(&p).unwrap();
    let expected = "\npub fn func_1(v0: u32, v1: u32) -> (Enum<u32, (u32, u32)>) {\n\
        \x20   let v2: (u32, u32) = Struct {\n\
        \x20   \tfield_0: v0,\n\
        \x20   \tfield_1: v1,\n\
        \x20   };\n\
        \x20   let v3: Enum<u32, (u32, u32)> = Enum::Variant1(v2);\n\
        \n\
        \x20   return v3;\n\
        }\n\n";
    assert_eq!(out, expected);
}

#[test]
fn gas_reserve_ends_the_path_silently() {
    let p = Program {
        types: vec![],
        ops: vec![op(OpKind::GasReserve, vec![])],
        statements: vec![Statement::Invoke { op: 0, args: vec![], branches: vec![] }],
        funcs: vec![Function { id: 9, params: vec![], rets: vec![], entry: 0 }],
    };
    assert!(check_program(&p));
    let out = emit_program(&p).unwrap();
    assert_eq!(out, "\npub fn func_9() -> () {\n}\n\n");
}

#[test]
fn unsupported_operator_aborts() {
    let p = Program {
        types: vec![],
        ops: vec![op(OpKind::Unrecognized, vec![])],
        statements: vec![
            Statement::Invoke { op: 0, args: vec![], branches: vec![] },
            Statement::Return { vars: vec![] },
        ],
        funcs: vec![Function { id: 0, params: vec![], rets: vec![], entry: 0 }],
    };
    assert!(check_program(&p));
    assert_eq!(
        emit_program(&p),
        Err(EmitError::UnsupportedOperator { statement: 0 })
    );
}

#[test]
fn unknown_operator_aborts() {
    let p = Program {
        types: vec![],
        ops: vec![],
        statements: vec![Statement::Invoke { op: 5, args: vec![], branches: vec![] }],
        funcs: vec![Function { id: 0, params: vec![], rets: vec![], entry: 0 }],
    };
    assert!(check_program(&p));
    assert_eq!(emit_program(&p), Err(EmitError::OperatorNotFound { id: 5 }));
}

#[test]
fn unknown_return_type_aborts() {
    let p = Program {
        types: vec![],
        ops: vec![],
        statements: vec![Statement::Return { vars: vec![] }],
        funcs: vec![Function { id: 0, params: vec![], rets: vec![99], entry: 0 }],
    };
    assert!(check_program(&p));
    assert_eq!(emit_program(&p), Err(EmitError::TypeNotFound { id: 99 }));
}

#[test]
fn cycle_is_rejected() {
    let p = Program {
        types: vec![],
        ops: vec![op(OpKind::StoreTemp, vec![])],
        statements: vec![Statement::Invoke { op: 0, args: vec![], branches: vec![br(0, vec![])] }],
        funcs: vec![Function { id: 0, params: vec![], rets: vec![], entry: 0 }],
    };
    assert!(check_program(&p));
    assert_eq!(emit_program(&p), Err(EmitError::CycleDetected { statement: 0 }));
}

#[test]
fn emission_is_all_or_nothing() {
    // Two functions; the second hits an unsupported operator, so the whole
    // program's emission fails even though the first function is fine.
    let p = Program {
        types: vec![],
        ops: vec![op(OpKind::Unrecognized, vec![])],
        statements: vec![
            Statement::Return { vars: vec![] },
            Statement::Invoke { op: 0, args: vec![], branches: vec![] },
        ],
        funcs: vec![
            Function { id: 0, params: vec![], rets: vec![], entry: 0 },
            Function { id: 1, params: vec![], rets: vec![], entry: 1 },
        ],
    };
    assert!(check_program(&p));
    assert_eq!(
        emit_program(&p),
        Err(EmitError::UnsupportedOperator { statement: 1 })
    );
}

#[test]
fn two_functions_in_declared_order() {
    let p = Program {
        types: vec![TypeDesc::Scalar(ScalarKind::Felt252)],
        ops: vec![],
        statements: vec![Statement::Return { vars: vec![7] }],
        funcs: vec![
            Function { id: 4, params: vec![0], rets: vec![0], entry: 0 },
            Function { id: 5, params: vec![], rets: vec![], entry: 0 },
        ],
    };
    assert!(check_program(&p));
    let out = emit_program(&p).unwrap();
    let expected = "\npub fn func_4(v0: felt252) -> (felt252) {\n\
        \n\
        \x20   return v7;\n\
        }\n\npub fn func_5() -> () {\n\
        \n\
        \x20   return v7;\n\
        }\n\n";
    assert_eq!(out, expected);
}

#[test]
fn empty_program_is_one_blank_line() {
    let p = Program { types: vec![], ops: vec![], statements: vec![], funcs: vec![] };
    assert!(check_program(&p));
    assert_eq!(emit_program(&p).unwrap(), "\n");
}

#[test]
fn build_statement_appends_and_records_declarations() {
    let p = checked_add_program();
    let mut buf = String::from("x");
    let mut declared: Vec<u64> = Vec::new();
    let r = build_statement(&mut buf, &p, 0, &mut declared, 0);
    assert!(r.is_ok());
    assert!(buf.starts_with("xlet (v3 : u32"));
    assert_eq!(declared, vec![2, 4, 3, 5]);
}

#[test]
fn emit_function_reports_parameter_lookup_failure() {
    let p = Program {
        types: vec![],
        ops: vec![],
        statements: vec![Statement::Return { vars: vec![] }],
        funcs: vec![],
    };
    let f = Function { id: 0, params: vec![3], rets: vec![], entry: 0 };
    assert_eq!(emit_function(&p, &f), Err(EmitError::TypeNotFound { id: 3 }));
}

#[test]
fn huge_variable_identifiers_render_in_decimal() {
    let p = Program {
        types: vec![],
        ops: vec![],
        statements: vec![Statement::Return { vars: vec![0, u64::MAX] }],
        funcs: vec![Function { id: u64::MAX, params: vec![], rets: vec![], entry: 0 }],
    };
    let out = emit_program(&p).unwrap();
    assert!(out.contains("pub fn func_18446744073709551615()"));
    assert!(out.contains("return v0, v18446744073709551615;"));
}

#[test]
fn append_type_failure_leaves_only_the_call_line() {
    // The append call line is emitted before the rebind type resolves, so a
    // failing rebind type leaves exactly that line in the buffer and
    // reports the unresolvable reference.
    let p = Program {
        types: vec![],
        ops: vec![op(OpKind::ArrayAppend, vec![vec![42]])],
        statements: vec![
            Statement::Invoke { op: 0, args: vec![0, 1], branches: vec![br(1, vec![2])] },
            Statement::Return { vars: vec![2] },
        ],
        funcs: vec![],
    };
    assert!(check_program(&p));
    let mut buf = String::new();
    let mut declared: Vec<u64> = Vec::new();
    let r = build_statement(&mut buf, &p, 0, &mut declared, 1);
    assert_eq!(r, Err(EmitError::TypeNotFound { id: 42 }));
    assert_eq!(buf, "    v0.append(v1);\n");
    assert_eq!(declared, vec![2]);
}

#[test]
fn nested_checked_blocks_indent_further() {
    // A second checked add inside the overflow block of the first: nesting
    // grows by one level per checked construct and nowhere else.
    let p = Program {
        types: vec![TypeDesc::Scalar(ScalarKind::Uint32)],
        ops: vec![op(OpKind::CheckedAdd, vec![vec![0], vec![0, 0]])],
        statements: vec![
            Statement::Invoke {
                op: 0,
                args: vec![0, 0, 1],
                branches: vec![br(1, vec![2]), br(2, vec![3, 4])],
            },
            Statement::Return { vars: vec![2] },
            Statement::Invoke {
                op: 0,
                args: vec![0, 0, 1],
                branches: vec![br(3, vec![5]), br(4, vec![6, 7])],
            },
            Statement::Return { vars: vec![5] },
            Statement::Return { vars: vec![6] },
        ],
        funcs: vec![Function { id: 2, params: vec![0, 0], rets: vec![0], entry: 0 }],
    };
    assert!(check_program(&p));
    let out = emit_program(&p).unwrap();
    assert!(out.contains("    let (v4 : u32, v4_overflowed: bool) = v0 + v1;\n"));
    assert!(out.contains("        let (v7 : u32, v7_overflowed: bool) = v0 + v1;\n"));
    assert!(out.contains("        if !v7_overflowed {\n"));
    assert!(out.contains("            let v5: u32 = v0;\n"));
    assert!(out.contains("\n            return v5;\n"));
    assert!(out.contains("        }\n"));
}

#[test]
fn malformed_programs_are_rejected() {
    // A store-temp with two branches.
    let p1 = Program {
        types: vec![],
        ops: vec![op(OpKind::StoreTemp, vec![])],
        statements: vec![Statement::Invoke {
            op: 0,
            args: vec![],
            branches: vec![br(0, vec![]), br(0, vec![])],
        }],
        funcs: vec![],
    };
    assert!(!check_program(&p1));
    // An entry point outside the statement list.
    let p2 = Program {
        types: vec![],
        ops: vec![],
        statements: vec![],
        funcs: vec![Function { id: 0, params: vec![], rets: vec![], entry: 0 }],
    };
    assert!(!check_program(&p2));
    // A type catalog that refers forward.
    let p3 = Program {
        types: vec![TypeDesc::Array(1), TypeDesc::Scalar(ScalarKind::Uint32)],
        ops: vec![],
        statements: vec![],
        funcs: vec![],
    };
    assert!(!check_program(&p3));
}
