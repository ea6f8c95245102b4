//! Tests for the placeholder import registry, the synthesized replacement
//! functions and the guard verifier.

use externref::processor::functions::{ExternrefImports, PatchedFunctions};
use externref::processor::{Error, Processor};
use externref::wasm::{
    Export, ExportItem, Func, FuncKind, FuncType, Import, ImportKind, Instr, InstrSeq,
    LocalFunction, LocatedInstr, Module, ValType,
};

fn li(instr: Instr) -> LocatedInstr {
    LocatedInstr { instr, offset: None }
}

fn import(module: &str, name: &str, func: usize) -> Import {
    Import { module: module.to_owned(), name: name.to_owned(), kind: ImportKind::Function { func } }
}

fn empty_module() -> Module {
    Module {
        types: Vec::new(),
        funcs: Vec::new(),
        locals: Vec::new(),
        tables: Vec::new(),
        imports: Vec::new(),
        exports: Vec::new(),
        custom_section: None,
    }
}

fn import_func(ty: usize) -> Func {
    Func { name: None, kind: FuncKind::Import { ty } }
}

#[test]
fn taking_externref_imports() {
    let mut module = empty_module();
    module.types.push(FuncType { params: vec![ValType::I32], results: vec![ValType::I32] });
    module.types.push(FuncType { params: vec![ValType::F32], results: vec![] });
    module.funcs.push(import_func(0));
    module.funcs.push(import_func(0));
    module.funcs.push(import_func(1));
    module.imports.push(import("externref", "insert", 0));
    module.imports.push(import("externref", "get", 1));
    module.imports.push(import("test", "function", 2));

    let imports = ExternrefImports::new(&mut module.imports).unwrap();
    assert!(imports.insert.is_some());
    assert!(imports.get.is_some());
    assert!(imports.drop.is_none());
    assert_eq!(module.imports.len(), 1);
}

#[test]
fn non_function_placeholder_is_rejected() {
    let mut module = empty_module();
    module.tables.push(externref::wasm::TableDecl {
        initial: 0,
        maximum: None,
        element_ty: ValType::Funcref,
    });
    module.imports.push(Import {
        module: "externref".to_owned(),
        name: "insert".to_owned(),
        kind: ImportKind::Table { table: 0 },
    });
    let err = ExternrefImports::new(&mut module.imports).unwrap_err();
    assert!(matches!(
        err,
        Error::UnexpectedImportType { module, name } if module == "externref" && name == "insert"
    ));
}

#[test]
fn replacing_function_calls() {
    let mut module = empty_module();
    module.types.push(FuncType { params: vec![ValType::I32], results: vec![ValType::I32] });
    module.types.push(FuncType { params: vec![ValType::I32], results: vec![] });
    module.funcs.push(import_func(0));
    module.funcs.push(import_func(0));
    module.imports.push(import("externref", "insert", 0));
    module.imports.push(import("externref", "get", 1));
    module.locals.push(ValType::I32);
    module.funcs.push(Func {
        name: Some("test".to_owned()),
        kind: FuncKind::Local(LocalFunction {
            ty: 1,
            args: vec![0],
            seqs: vec![InstrSeq {
                ty: None,
                instrs: vec![
                    li(Instr::LocalGet { local: 0 }),
                    li(Instr::Call { func: 0 }),
                    li(Instr::Call { func: 1 }),
                    li(Instr::Other { token: 0 }),
                ],
            }],
        }),
    });
    module.exports.push(Export { name: "test".to_owned(), item: ExportItem::Function { func: 2 } });

    let imports = ExternrefImports::new(&mut module.imports).unwrap();
    let fns = PatchedFunctions::new(&mut module, &imports, &Processor::default());
    assert_eq!(fns.fn_mapping.len(), 2);
    let (replaced_calls, guarded_fns) = fns.replace_calls(&mut module).unwrap();
    assert_eq!(replaced_calls, 2); // 1 insert + 1 get
    assert!(guarded_fns.iter().all(|&g| !g));

    // The calls now target the synthesized replacements, past the original pool.
    let body = match &module.funcs[2].kind {
        FuncKind::Local(lf) => &lf.seqs[0].instrs,
        _ => panic!("function body lost"),
    };
    match (&body[1].instr, &body[2].instr) {
        (Instr::Call { func: f1 }, Instr::Call { func: f2 }) => {
            assert!(*f1 >= 3 && *f2 >= 3 && f1 != f2);
        },
        _ => panic!("calls were not preserved"),
    }
}

#[test]
fn guarded_functions() {
    let mut module = empty_module();
    module.types.push(FuncType { params: vec![], results: vec![] });
    module.types.push(FuncType { params: vec![ValType::I32], results: vec![] });
    module.funcs.push(import_func(0));
    module.imports.push(import("externref", "guard", 0));
    module.locals.push(ValType::I32);
    module.funcs.push(Func {
        name: None,
        kind: FuncKind::Local(LocalFunction {
            ty: 1,
            args: vec![0],
            seqs: vec![InstrSeq {
                ty: None,
                instrs: vec![
                    li(Instr::Call { func: 0 }),
                    li(Instr::LocalGet { local: 0 }),
                    li(Instr::Other { token: 0 }),
                ],
            }],
        }),
    });

    let imports = ExternrefImports::new(&mut module.imports).unwrap();
    let fns = PatchedFunctions::new(&mut module, &imports, &Processor::default());
    let (_, guarded_fns) = fns.replace_calls(&mut module).unwrap();
    assert_eq!(guarded_fns.iter().filter(|&&g| g).count(), 1);
    assert!(guarded_fns[1]);

    // The guard call is removed.
    let body = match &module.funcs[1].kind {
        FuncKind::Local(lf) => &lf.seqs[0].instrs,
        _ => panic!("function body lost"),
    };
    assert_eq!(body.len(), 2);
    assert!(matches!(body[0].instr, Instr::LocalGet { local: 0 }));
}

#[test]
fn guarded_function_manipulating_stack() {
    let mut module = empty_module();
    module.types.push(FuncType { params: vec![], results: vec![] });
    module.types.push(FuncType { params: vec![ValType::I32], results: vec![] });
    module.funcs.push(import_func(0));
    module.imports.push(import("externref", "guard", 0));
    module.locals.push(ValType::I32);
    module.locals.push(ValType::I32);
    module.funcs.push(Func {
        name: None,
        kind: FuncKind::Local(LocalFunction {
            ty: 1,
            args: vec![0],
            seqs: vec![InstrSeq {
                ty: None,
                instrs: vec![
                    li(Instr::Other { token: 0 }),
                    li(Instr::Other { token: 1 }),
                    li(Instr::Binop { op: externref::wasm::BinaryOp::I32Sub }),
                    li(Instr::LocalTee { local: 1 }),
                    li(Instr::GlobalSet { global: 0 }),
                    li(Instr::Call { func: 0 }),
                    li(Instr::LocalGet { local: 0 }),
                    li(Instr::Other { token: 2 }),
                ],
            }],
        }),
    });

    let imports = ExternrefImports::new(&mut module.imports).unwrap();
    let fns = PatchedFunctions::new(&mut module, &imports, &Processor::default());
    let (_, guarded_fns) = fns.replace_calls(&mut module).unwrap();
    assert_eq!(guarded_fns.iter().filter(|&&g| g).count(), 1);
}

#[test]
fn incorrect_guard_placement() {
    let mut module = empty_module();
    module.types.push(FuncType { params: vec![], results: vec![] });
    module.types.push(FuncType { params: vec![ValType::I32], results: vec![] });
    module.funcs.push(import_func(0));
    module.imports.push(import("externref", "guard", 0));
    module.locals.push(ValType::I32);
    module.funcs.push(Func {
        name: Some("test".to_owned()),
        kind: FuncKind::Local(LocalFunction {
            ty: 1,
            args: vec![0],
            seqs: vec![InstrSeq {
                ty: None,
                instrs: vec![
                    li(Instr::LocalGet { local: 0 }),
                    li(Instr::Other { token: 0 }),
                    li(Instr::Call { func: 0 }),
                ],
            }],
        }),
    });

    let imports = ExternrefImports::new(&mut module.imports).unwrap();
    let fns = PatchedFunctions::new(&mut module, &imports, &Processor::default());
    let err = fns.replace_calls(&mut module).unwrap_err();
    assert!(matches!(
        err,
        Error::IncorrectGuard { function_name: Some(name), .. } if name == "test"
    ));
}


#[test]
fn synthesized_insert_returns_sentinel_for_null() {
    // The synthesized insert's null branch is literally `i32.const -1; return`,
    // and its entry starts by testing the argument for null.
    let mut module = empty_module();
    module.types.push(FuncType { params: vec![ValType::I32], results: vec![ValType::I32] });
    module.funcs.push(import_func(0));
    module.imports.push(import("externref", "insert", 0));

    let imports = ExternrefImports::new(&mut module.imports).unwrap();
    let fns = PatchedFunctions::new(&mut module, &imports, &Processor::default());
    let (_, new_id) = fns.fn_mapping[0];
    let lf = match &module.funcs[new_id].kind {
        FuncKind::Local(lf) => lf,
        _ => panic!("synthesized insert is not a defined function"),
    };
    assert!(matches!(lf.seqs[0].instrs[0].instr, Instr::LocalGet { .. }));
    assert!(matches!(lf.seqs[0].instrs[1].instr, Instr::RefIsNull));
    assert!(matches!(
        lf.seqs[0].instrs[2].instr,
        Instr::IfElse { consequent: 1, alternative: 2 }
    ));
    assert!(matches!(lf.seqs[1].instrs[0].instr, Instr::I32Const { value: -1 }));
    assert!(matches!(lf.seqs[1].instrs[1].instr, Instr::Return));
}

#[test]
fn synthesized_drop_calls_hook_before_clearing() {
    // With a drop hook configured, the synthesized drop reads the slot, calls
    // the hook import, and only then clears the slot.
    let mut module = empty_module();
    module.types.push(FuncType { params: vec![ValType::I32], results: vec![] });
    module.funcs.push(import_func(0));
    module.imports.push(import("externref", "drop", 0));

    let mut processor = Processor::default();
    processor.set_drop_fn("hook", "drop_ref");
    let imports = ExternrefImports::new(&mut module.imports).unwrap();
    let fns = PatchedFunctions::new(&mut module, &imports, &processor);
    let (_, new_id) = fns.fn_mapping[0];
    let hook_id = match module.imports.last().unwrap().kind {
        ImportKind::Function { func } => func,
        _ => panic!("hook import missing"),
    };
    let lf = match &module.funcs[new_id].kind {
        FuncKind::Local(lf) => lf,
        _ => panic!("synthesized drop is not a defined function"),
    };
    let body = &lf.seqs[0].instrs;
    assert!(matches!(body[0].instr, Instr::LocalGet { .. }));
    assert!(matches!(body[1].instr, Instr::TableGet { .. }));
    assert!(matches!(body[2].instr, Instr::Call { func } if func == hook_id));
    assert!(matches!(body[3].instr, Instr::LocalGet { .. }));
    assert!(matches!(body[4].instr, Instr::RefNull { .. }));
    assert!(matches!(body[5].instr, Instr::TableSet { .. }));
}
