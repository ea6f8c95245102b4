//! End-to-end tests for the module processor.

use externref::processor::Processor;
use externref::signature::{BitSlice, Function, FunctionKind};
use externref::wasm::{
    Export, ExportItem, Func, FuncKind, FuncType, Import, ImportKind, Instr, InstrSeq,
    LocalFunction, LocatedInstr, Module, ValType,
};

fn li(instr: Instr) -> LocatedInstr {
    LocatedInstr { instr, offset: None }
}

fn arena_alloc_entry() -> Function {
    Function {
        kind: FunctionKind::Import("arena".to_owned()),
        name: "alloc".to_owned(),
        externrefs: BitSlice::builder(3).with_set_bit(0).with_set_bit(2).build(),
    }
}

fn test_export_entry() -> Function {
    Function {
        kind: FunctionKind::Export,
        name: "test".to_owned(),
        externrefs: BitSlice::builder(1).with_set_bit(0).build(),
    }
}

fn basic_custom_section() -> Vec<u8> {
    let mut section = arena_alloc_entry().custom_section();
    section.extend_from_slice(&test_export_entry().custom_section());
    section
}

/// A module with the placeholder imports, an `arena::alloc` import of type
/// `(i32, i32) -> i32`, and an export `test: (i32) -> ()`.
fn simple_module() -> Module {
    let mut module = Module {
        types: Vec::new(),
        funcs: Vec::new(),
        locals: Vec::new(),
        tables: Vec::new(),
        imports: Vec::new(),
        exports: Vec::new(),
        custom_section: None,
    };
    module.types.push(FuncType { params: vec![ValType::I32], results: vec![ValType::I32] }); // placeholders
    module.types.push(FuncType { params: vec![ValType::I32], results: vec![] }); // drop & test
    module.types.push(FuncType { params: vec![], results: vec![] }); // guard
    module.types.push(FuncType {
        params: vec![ValType::I32, ValType::I32],
        results: vec![ValType::I32],
    }); // arena::alloc
    for (i, (name, ty)) in [("insert", 0), ("get", 0), ("drop", 1), ("guard", 2)]
        .into_iter()
        .enumerate()
    {
        module.funcs.push(Func { name: None, kind: FuncKind::Import { ty } });
        module.imports.push(Import {
            module: "externref".to_owned(),
            name: name.to_owned(),
            kind: ImportKind::Function { func: i },
        });
    }
    module.funcs.push(Func { name: None, kind: FuncKind::Import { ty: 3 } });
    module.imports.push(Import {
        module: "arena".to_owned(),
        name: "alloc".to_owned(),
        kind: ImportKind::Function { func: 4 },
    });
    module.locals.push(ValType::I32);
    module.funcs.push(Func {
        name: Some("test".to_owned()),
        kind: FuncKind::Local(LocalFunction {
            ty: 1,
            args: vec![0],
            seqs: vec![InstrSeq {
                ty: None,
                instrs: vec![li(Instr::LocalGet { local: 0 }), li(Instr::Other { token: 0 })],
            }],
        }),
    });
    module.exports.push(Export { name: "test".to_owned(), item: ExportItem::Function { func: 5 } });
    module.custom_section = Some(basic_custom_section());
    module
}

fn func_type(module: &Module, func: usize) -> &FuncType {
    let ty = match &module.funcs[func].kind {
        FuncKind::Import { ty } => *ty,
        FuncKind::Local(lf) => lf.ty,
        FuncKind::Deleted => panic!("function {func} was deleted"),
    };
    &module.types[ty]
}

#[test]
fn basic_module() {
    let mut module = simple_module();
    Processor::default().process(&mut module).unwrap();

    // The placeholder imports are gone; `arena::alloc` remains.
    assert_eq!(module.imports.len(), 1);
    assert_eq!(module.imports[0].module, "arena");
    assert_eq!(module.imports[0].name, "alloc");
    let alloc_id = match module.imports[0].kind {
        ImportKind::Function { func } => func,
        _ => panic!("unexpected import kind"),
    };
    let alloc_ty = func_type(&module, alloc_id);
    assert_eq!(alloc_ty.params, vec![ValType::Externref, ValType::I32]);
    assert_eq!(alloc_ty.results, vec![ValType::Externref]);

    // The reference table is created and exported.
    assert_eq!(module.tables.len(), 1);
    assert_eq!(module.tables[0].initial, 0);
    assert!(module.tables[0].maximum.is_none());
    assert_eq!(module.tables[0].element_ty, ValType::Externref);
    assert!(module.exports.iter().any(|export| {
        export.name == "externrefs" && matches!(export.item, ExportItem::Table { table: 0 })
    }));

    // The export's signature now takes a reference.
    let export_id = module
        .exports
        .iter()
        .find_map(|export| {
            if export.name == "test" {
                Some(match export.item {
                    ExportItem::Function { func } => func,
                    _ => panic!("unexpected export kind"),
                })
            } else {
                None
            }
        })
        .unwrap();
    let export_ty = func_type(&module, export_id);
    assert_eq!(export_ty.params, vec![ValType::Externref]);
    assert_eq!(export_ty.results, vec![]);

    // Its body reads its parameter as a reference-typed local.
    let lf = match &module.funcs[export_id].kind {
        FuncKind::Local(lf) => lf,
        _ => panic!("export is not a defined function"),
    };
    let arg = lf.args[0];
    assert_eq!(module.locals[arg], ValType::Externref);
    assert!(matches!(lf.seqs[0].instrs[0].instr, Instr::LocalGet { local } if local == arg));

    // The custom section is consumed.
    assert!(module.custom_section.is_none());
}

#[test]
fn basic_module_with_no_table_export_and_drop_hook() {
    let mut module = simple_module();
    let mut processor = Processor::default();
    processor.set_ref_table(None);
    processor.set_drop_fn("hook", "drop_ref");
    processor.process(&mut module).unwrap();

    // The drop hook is imported with signature `(externref) -> ()`.
    assert_eq!(module.imports.len(), 2);
    let hook = module
        .imports
        .iter()
        .find(|import| import.module == "hook" && import.name == "drop_ref")
        .unwrap();
    let hook_id = match hook.kind {
        ImportKind::Function { func } => func,
        _ => panic!("unexpected import kind"),
    };
    let hook_ty = func_type(&module, hook_id);
    assert_eq!(hook_ty.params, vec![ValType::Externref]);
    assert_eq!(hook_ty.results, vec![]);

    // The reference table is not exported.
    assert!(!module.exports.iter().any(|export| matches!(export.item, ExportItem::Table { .. })));
}

#[test]
fn identity_on_catalog_less_module() {
    let mut module = simple_module();
    module.custom_section = None;
    let tables_before = module.tables.len();
    let funcs_before = module.funcs.len();
    let imports_before = module.imports.len();

    Processor::default().process(&mut module).unwrap();

    // No reference table is created and nothing is rewritten.
    assert_eq!(module.tables.len(), tables_before);
    assert_eq!(module.funcs.len(), funcs_before);
    assert_eq!(module.imports.len(), imports_before);
}

#[test]
fn import_only_rewrite() {
    let mut module = simple_module();
    // Keep only the `arena::alloc` catalog entry.
    module.custom_section = Some(arena_alloc_entry().custom_section());
    // Drop the export from the module and the function pool.
    module.exports.clear();
    Processor::default().process(&mut module).unwrap();

    assert_eq!(module.imports.len(), 1);
    let alloc_id = match module.imports[0].kind {
        ImportKind::Function { func } => func,
        _ => panic!("unexpected import kind"),
    };
    let alloc_ty = func_type(&module, alloc_id);
    assert_eq!(alloc_ty.params, vec![ValType::Externref, ValType::I32]);
    assert_eq!(alloc_ty.results, vec![ValType::Externref]);
    assert!(module
        .exports
        .iter()
        .any(|export| export.name == "externrefs" && matches!(export.item, ExportItem::Table { .. })));
}

#[test]
fn guard_misplacement_reports_offset() {
    let mut module = simple_module();
    // A local function whose guard call is the third instruction.
    module.locals.push(ValType::I32);
    module.funcs.push(Func {
        name: Some("broken".to_owned()),
        kind: FuncKind::Local(LocalFunction {
            ty: 1,
            args: vec![1],
            seqs: vec![InstrSeq {
                ty: None,
                instrs: vec![
                    li(Instr::LocalGet { local: 1 }),
                    li(Instr::Other { token: 0 }),
                    LocatedInstr { instr: Instr::Call { func: 3 }, offset: Some(42) },
                ],
            }],
        }),
    });

    let err = Processor::default().process(&mut module).unwrap_err();
    assert!(matches!(
        err,
        externref::processor::Error::IncorrectGuard {
            function_name: Some(name),
            code_offset: Some(42),
        } if name == "broken"
    ));
}

#[test]
fn missing_export_is_reported() {
    let mut module = simple_module();
    module.exports.clear();
    let err = Processor::default().process(&mut module).unwrap_err();
    assert!(matches!(
        err,
        externref::processor::Error::NoExport(name) if name == "test"
    ));
}

#[test]
fn arity_mismatch_is_reported() {
    let mut module = simple_module();
    // The export's type has arity 1, but the catalog records arity 2.
    let bad_entry = Function {
        kind: FunctionKind::Export,
        name: "test".to_owned(),
        externrefs: BitSlice::builder(2).with_set_bit(0).build(),
    };
    module.custom_section = Some(bad_entry.custom_section());
    let err = Processor::default().process(&mut module).unwrap_err();
    assert!(matches!(
        err,
        externref::processor::Error::UnexpectedArity { expected_arity: 2, real_arity: 1, .. }
    ));
}

#[test]
fn non_surrogate_type_is_reported() {
    let mut module = simple_module();
    // Mark a position that holds `f32` rather than the integer surrogate.
    module.types[1] = FuncType { params: vec![ValType::F32], results: vec![] };
    let err = Processor::default().process(&mut module).unwrap_err();
    assert!(matches!(
        err,
        externref::processor::Error::UnexpectedType {
            location: externref::processor::Location::Arg(0),
            real_type: ValType::F32,
            ..
        }
    ));
}

#[test]
fn non_function_export_is_reported() {
    let mut module = simple_module();
    module.tables.push(externref::wasm::TableDecl {
        initial: 0,
        maximum: None,
        element_ty: ValType::Funcref,
    });
    module.exports[0].item = ExportItem::Table { table: 0 };
    let err = Processor::default().process(&mut module).unwrap_err();
    assert!(matches!(
        err,
        externref::processor::Error::UnexpectedExportType(name) if name == "test"
    ));
}
