//! Tests for call-site detection and locals retyping.

use externref::processor::state::transform_local_fn;
use externref::wasm::{
    Export, ExportItem, Func, FuncKind, FuncType, Import, ImportKind, Instr, InstrSeq,
    LocalFunction, LocatedInstr, Module, ValType,
};

fn li(instr: Instr) -> LocatedInstr {
    LocatedInstr { instr, offset: None }
}

fn ref_call_module() -> Module {
    // An import returning a surrogate that the processing marks as producing
    // a reference, and an exported function storing and re-reading it.
    let mut module = Module {
        types: Vec::new(),
        funcs: Vec::new(),
        locals: Vec::new(),
        tables: Vec::new(),
        imports: Vec::new(),
        exports: Vec::new(),
        custom_section: None,
    };
    module.types.push(FuncType { params: vec![], results: vec![ValType::I32] });
    module.types.push(FuncType { params: vec![ValType::I32], results: vec![] });
    module.funcs.push(Func { name: None, kind: FuncKind::Import { ty: 0 } });
    module.imports.push(Import {
        module: "test".to_owned(),
        name: "function".to_owned(),
        kind: ImportKind::Function { func: 0 },
    });
    module.locals.push(ValType::I32); // $ref
    module.locals.push(ValType::I32); // $x
    module.funcs.push(Func {
        name: Some("test".to_owned()),
        kind: FuncKind::Local(LocalFunction {
            ty: 1,
            args: vec![0],
            seqs: vec![InstrSeq {
                ty: None,
                instrs: vec![
                    // local.set $x (local.get $ref): no new local required
                    li(Instr::LocalGet { local: 0 }),
                    li(Instr::LocalSet { local: 1 }),
                    // local.set $x (call $get_ref): new local required
                    li(Instr::Call { func: 0 }),
                    li(Instr::LocalSet { local: 1 }),
                    // drop (local.get $x): new local used
                    li(Instr::LocalGet { local: 1 }),
                    li(Instr::Other { token: 0 }),
                    // drop (local.tee $x (local.get $ref)): existing local again
                    li(Instr::LocalGet { local: 0 }),
                    li(Instr::LocalTee { local: 1 }),
                    li(Instr::Other { token: 1 }),
                    // drop (local.get $x)
                    li(Instr::LocalGet { local: 1 }),
                    li(Instr::Other { token: 2 }),
                    // drop (call $get_ref)
                    li(Instr::Call { func: 0 }),
                    li(Instr::Other { token: 3 }),
                ],
            }],
        }),
    });
    module.exports.push(Export { name: "test".to_owned(), item: ExportItem::Function { func: 1 } });
    module
}

#[test]
fn detecting_calls_to_functions_returning_ref() {
    let mut module = ref_call_module();
    let functions_returning_ref = vec![true, false];

    transform_local_fn(&mut module, &functions_returning_ref, true, 1).unwrap();

    // Exactly one reference-typed local is introduced.
    let ref_locals: Vec<usize> = (0..module.locals.len())
        .filter(|&l| module.locals[l] == ValType::Externref)
        .collect();
    assert_eq!(ref_locals.len(), 1, "{ref_locals:?}");
    let ref_local_id = ref_locals[0];

    // It is mentioned twice: by the redirected store and by the first
    // subsequent read; the read after the integer reassignment is untouched.
    let body = match &module.funcs[1].kind {
        FuncKind::Local(lf) => &lf.seqs[0].instrs,
        _ => panic!("function body lost"),
    };
    let mentions = body
        .iter()
        .filter(|i| {
            matches!(
                i.instr,
                Instr::LocalGet { local } | Instr::LocalSet { local } | Instr::LocalTee { local }
                    if local == ref_local_id
            )
        })
        .count();
    assert_eq!(mentions, 2);
    // The reference flows: `call; local.set $new; ...; local.get $new`.
    assert!(matches!(body[3].instr, Instr::LocalSet { local } if local == ref_local_id));
    assert!(matches!(body[4].instr, Instr::LocalGet { local } if local == ref_local_id));
    // After `local.tee $x` of an integer, reads see the old local again.
    assert!(matches!(body[7].instr, Instr::LocalTee { local: 1 }));
    assert!(matches!(body[9].instr, Instr::LocalGet { local: 1 }));
}

#[test]
fn state_detecting_calls_to_functions_returning_ref() {
    // The detection scenario once more, checked through the mention count
    // alone.
    let mut module = ref_call_module();
    let functions_returning_ref = vec![true, false];

    transform_local_fn(&mut module, &functions_returning_ref, true, 1).unwrap();

    let ref_locals: Vec<usize> = (0..module.locals.len())
        .filter(|&l| module.locals[l] == ValType::Externref)
        .collect();
    assert_eq!(ref_locals.len(), 1, "{ref_locals:?}");
    let ref_local_id = ref_locals[0];
    let body = match &module.funcs[1].kind {
        FuncKind::Local(lf) => &lf.seqs[0].instrs,
        _ => panic!("function body lost"),
    };
    let mentions = body
        .iter()
        .filter(|i| {
            matches!(
                i.instr,
                Instr::LocalGet { local } | Instr::LocalSet { local } | Instr::LocalTee { local }
                    if local == ref_local_id
            )
        })
        .count();
    assert_eq!(mentions, 2);
}

#[test]
fn unguarded_ref_call_is_rejected() {
    // The same scenario, driven through the unguarded path: the function is
    // rejected since it is not guarded.
    let mut module = ref_call_module();
    let functions_returning_ref = vec![true, false];
    let err = transform_local_fn(&mut module, &functions_returning_ref, false, 1).unwrap_err();
    assert!(matches!(
        err,
        externref::processor::Error::UnexpectedCall { function_name: Some(name), .. } if name == "test"
    ));
}

#[test]
fn reassignment_respected() {
    // Store a reference-producing call into a local, then an integer, then
    // read it: the final read stays an integer read, the store targets a new
    // reference local, and exactly one new local is added.
    let mut module = ref_call_module();
    let lf = LocalFunction {
        ty: 1,
        args: vec![0],
        seqs: vec![InstrSeq {
            ty: None,
            instrs: vec![
                li(Instr::Call { func: 0 }),
                li(Instr::LocalSet { local: 1 }),
                li(Instr::I32Const { value: 3 }),
                li(Instr::LocalSet { local: 1 }),
                li(Instr::LocalGet { local: 1 }),
                li(Instr::Other { token: 0 }),
            ],
        }],
    };
    module.funcs[1] = Func { name: None, kind: FuncKind::Local(lf) };
    let n_locals_before = module.locals.len();

    transform_local_fn(&mut module, &vec![true, false], true, 1).unwrap();

    assert_eq!(module.locals.len(), n_locals_before + 1);
    let new_local = n_locals_before;
    assert_eq!(module.locals[new_local], ValType::Externref);
    let body = match &module.funcs[1].kind {
        FuncKind::Local(lf) => &lf.seqs[0].instrs,
        _ => panic!("function body lost"),
    };
    assert!(matches!(body[1].instr, Instr::LocalSet { local } if local == new_local));
    assert!(matches!(body[3].instr, Instr::LocalSet { local: 1 }));
    assert!(matches!(body[4].instr, Instr::LocalGet { local: 1 }));
}
