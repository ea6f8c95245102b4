//! Placeholder imports and the functions synthesized to replace them.

use vstd::prelude::*;

use crate::processor::Error;
use crate::str_eq;
use crate::processor::Processor;
use crate::wasm::{
    instr_wf, lemma_module_extended_trans, lemma_wf_extend, module_extended, BinaryOp, BodyBuilder,
    Export, ExportItem, Func, FuncKind, FuncType, Import, ImportKind, Instr, InstrSeq,
    LocalFunction, LocatedInstr, Module, TableDecl, ValType,
};

verus! {

/// The reserved pseudo-module the guest's placeholder imports live under.
pub const PLACEHOLDER_MODULE: &'static str = "externref";

/// Whether `imp` is the import `module`::`name`.
pub open spec fn import_matches(imp: Import, module: Seq<char>, name: Seq<char>) -> bool {
    imp.module@ == module && imp.name@ == name
}

/// The index of the first import `module`::`name`, if any.
pub open spec fn find_import(imports: Seq<Import>, module: Seq<char>, name: Seq<char>) -> Option<int>
    decreases imports.len(),
{
    if imports.len() == 0 {
        None
    } else if import_matches(imports[0], module, name) {
        Some(0)
    } else {
        match find_import(imports.drop_first(), module, name) {
            Some(i) => Some(i + 1),
            None => None,
        }
    }
}

pub(crate) proof fn lemma_find_import_at(imports: Seq<Import>, module: Seq<char>, name: Seq<char>, i: int)
    requires
        0 <= i < imports.len(),
        import_matches(imports[i], module, name),
        forall|j: int| 0 <= j < i ==> !import_matches(#[trigger] imports[j], module, name),
    ensures
        find_import(imports, module, name) == Some(i),
    decreases imports.len(),
{
    if i > 0 {
        lemma_find_import_at(imports.drop_first(), module, name, i - 1);
    }
}

pub(crate) proof fn lemma_find_import_none(imports: Seq<Import>, module: Seq<char>, name: Seq<char>)
    requires
        forall|j: int| 0 <= j < imports.len() ==> !import_matches(#[trigger] imports[j], module, name),
    ensures
        find_import(imports, module, name) is None,
    decreases imports.len(),
{
    if imports.len() > 0 {
        lemma_find_import_none(imports.drop_first(), module, name);
    }
}

/// Every element of `sub` occurs in `sup`.
pub open spec fn elements_of(sub: Seq<Import>, sup: Seq<Import>) -> bool {
    forall|j: int| 0 <= j < sub.len() ==> sup.contains(#[trigger] sub[j])
}

proof fn lemma_elements_of_refl(s: Seq<Import>)
    ensures
        elements_of(s, s),
{
    assert forall|j: int| 0 <= j < s.len() implies s.contains(#[trigger] s[j]) by {
        s.lemma_index_contains(j);
    }
}

proof fn lemma_elements_of_remove(s: Seq<Import>, i: int)
    requires
        0 <= i < s.len(),
    ensures
        elements_of(s.remove(i), s),
{
    let t = s.remove(i);
    assert forall|j: int| 0 <= j < t.len() implies s.contains(#[trigger] t[j]) by {
        if j < i {
            assert(t[j] == s[j]);
            s.lemma_index_contains(j);
        } else {
            assert(t[j] == s[j + 1]);
            s.lemma_index_contains(j + 1);
        }
    }
}

proof fn lemma_elements_of_trans(a: Seq<Import>, b: Seq<Import>, c: Seq<Import>)
    requires
        elements_of(a, b),
        elements_of(b, c),
    ensures
        elements_of(a, c),
{
    assert forall|j: int| 0 <= j < a.len() implies c.contains(#[trigger] a[j]) by {
        assert(b.contains(a[j]));
        let kb = b.lemma_contains_to_index(a[j]);
        assert(c.contains(b[kb]));
    }
}

proof fn lemma_came_from_super(sub: Seq<Import>, sup: Seq<Import>, name: Seq<char>, f: usize)
    requires
        elements_of(sub, sup),
        ExternrefImports::came_from(sub, name, f),
    ensures
        ExternrefImports::came_from(sup, name, f),
{
    let k = choose|k: int|
        0 <= k < sub.len() && import_matches(#[trigger] sub[k], PLACEHOLDER_MODULE@, name) && sub[k].kind
            == (ImportKind::Function { func: f });
    assert(sup.contains(sub[k]));
    let k2 = sup.lemma_contains_to_index(sub[k]);
    assert(import_matches(sup[k2], PLACEHOLDER_MODULE@, name) && sup[k2].kind == (ImportKind::Function {
        func: f,
    }));
}

proof fn lemma_none_left_sub(sub: Seq<Import>, sup: Seq<Import>, name: Seq<char>)
    requires
        elements_of(sub, sup),
        ExternrefImports::none_left(sup, name),
    ensures
        ExternrefImports::none_left(sub, name),
{
    assert forall|k: int| 0 <= k < sub.len() implies !import_matches(
        #[trigger] sub[k],
        PLACEHOLDER_MODULE@,
        name,
    ) by {
        assert(sup.contains(sub[k]));
        let k2 = sup.lemma_contains_to_index(sub[k]);
        assert(!import_matches(sup[k2], PLACEHOLDER_MODULE@, name));
    }
}

/// The pre-removal function ids of the placeholder imports found under the
/// reserved pseudo-module. Any placeholder may be absent.
#[derive(Debug)]
pub struct ExternrefImports {
    /// The reference-insertion placeholder.
    pub insert: Option<usize>,
    /// The reference-load placeholder.
    pub get: Option<usize>,
    /// The reference-drop placeholder.
    pub drop: Option<usize>,
    /// The guard marker placeholder.
    pub guard: Option<usize>,
}

impl ExternrefImports {
    /// Locates and removes the four placeholder imports, returning their
    /// function ids.
    pub fn new(imports: &mut Vec<Import>) -> (r: Result<ExternrefImports, Error>)
        ensures
            elements_of(final(imports)@, old(imports)@),
            match Self::seized(old(imports)@) {
                Some(res) => r == Ok::<ExternrefImports, Error>(res.0) && final(imports)@ == res.1,
                None => r matches Err(e) && (e matches Error::UnexpectedImportType { module, name }
                    && module@ == PLACEHOLDER_MODULE@ && Self::first_failing_name(old(imports)@, name@)),
            },
            match r {
                Ok(imps) => {
                    &&& imps.insert matches Some(f) ==> Self::came_from(old(imports)@, "insert"@, f)
                    &&& imps.get matches Some(f) ==> Self::came_from(old(imports)@, "get"@, f)
                    &&& imps.drop matches Some(f) ==> Self::came_from(old(imports)@, "drop"@, f)
                    &&& imps.guard matches Some(f) ==> Self::came_from(old(imports)@, "guard"@, f)
                    &&& imps.insert is None ==> Self::none_left(final(imports)@, "insert"@)
                    &&& imps.get is None ==> Self::none_left(final(imports)@, "get"@)
                    &&& imps.drop is None ==> Self::none_left(final(imports)@, "drop"@)
                    &&& imps.guard is None ==> Self::none_left(final(imports)@, "guard"@)
                },
                Err(e) => true,
            },
    {
        let ghost s0 = imports@;
        let insert = match Self::take_import(imports, "insert") {
            Ok(v) => v,
            Err(e) => {
                return Err(e);
            },
        };
        let ghost s1 = imports@;
        let get = match Self::take_import(imports, "get") {
            Ok(v) => v,
            Err(e) => {
                proof {
                    lemma_elements_of_trans(imports@, s1, s0);
                }
                return Err(e);
            },
        };
        let ghost s2 = imports@;
        let drop = match Self::take_import(imports, "drop") {
            Ok(v) => v,
            Err(e) => {
                proof {
                    lemma_elements_of_trans(s2, s1, s0);
                    lemma_elements_of_trans(imports@, s2, s0);
                }
                return Err(e);
            },
        };
        let ghost s3 = imports@;
        let guard = match Self::take_import(imports, "guard") {
            Ok(v) => v,
            Err(e) => {
                proof {
                    lemma_elements_of_trans(s2, s1, s0);
                    lemma_elements_of_trans(s3, s2, s0);
                    lemma_elements_of_trans(imports@, s3, s0);
                }
                return Err(e);
            },
        };
        let ghost s4 = imports@;
        proof {
            lemma_elements_of_trans(s2, s1, s0);
            lemma_elements_of_trans(s3, s2, s0);
            lemma_elements_of_trans(s4, s3, s0);
            if let Some(f) = get {
                lemma_came_from_super(s1, s0, "get"@, f);
            }
            if let Some(f) = drop {
                lemma_came_from_super(s2, s0, "drop"@, f);
            }
            if let Some(f) = guard {
                lemma_came_from_super(s3, s0, "guard"@, f);
            }
            if insert is None {
                lemma_none_left_sub(s4, s1, "insert"@);
            }
            if get is None {
                lemma_none_left_sub(s4, s2, "get"@);
            }
            if drop is None {
                lemma_none_left_sub(s4, s3, "drop"@);
            }
        }
        Ok(ExternrefImports { insert, get, drop, guard })
    }

    /// Some import of the reserved pseudo-module under `name` is the function
    /// `f`.
    pub open spec fn came_from(imports: Seq<Import>, name: Seq<char>, f: usize) -> bool {
        exists|k: int|
            0 <= k < imports.len() && import_matches(#[trigger] imports[k], PLACEHOLDER_MODULE@, name)
                && imports[k].kind == (ImportKind::Function { func: f })
    }

    /// No import of the reserved pseudo-module under `name` remains.
    pub open spec fn none_left(imports: Seq<Import>, name: Seq<char>) -> bool {
        forall|k: int|
            0 <= k < imports.len() ==> !import_matches(#[trigger] imports[k], PLACEHOLDER_MODULE@, name)
    }

    /// What taking one placeholder does: the first import of the reserved
    /// pseudo-module under `name` is removed and its function id returned;
    /// an absent placeholder changes nothing; a placeholder that is not a
    /// function import is an error (`None` here).
    pub open spec fn spec_take_import(imports: Seq<Import>, name: Seq<char>) -> Option<(Option<usize>, Seq<Import>)> {
        match find_import(imports, PLACEHOLDER_MODULE@, name) {
            Some(i) => match imports[i].kind {
                ImportKind::Function { func } => Some((Some(func), imports.remove(i))),
                _ => None,
            },
            None => Some((None, imports)),
        }
    }

    /// The import pool after taking `name`; unchanged when taking fails.
    pub open spec fn state_after(imports: Seq<Import>, name: Seq<char>) -> Seq<Import> {
        match Self::spec_take_import(imports, name) {
            Some(p) => p.1,
            None => imports,
        }
    }

    /// The function id taking `name` yields; `None` also when taking fails.
    pub open spec fn taken_id(imports: Seq<Import>, name: Seq<char>) -> Option<usize> {
        match Self::spec_take_import(imports, name) {
            Some(p) => p.0,
            None => None,
        }
    }

    /// What seizing all four placeholders in order does: the ids found and
    /// the import pool with the found placeholders removed, or `None` when
    /// one of them is not a function import.
    pub open spec fn seized(imports: Seq<Import>) -> Option<(ExternrefImports, Seq<Import>)> {
        let s1 = Self::state_after(imports, "insert"@);
        let s2 = Self::state_after(s1, "get"@);
        let s3 = Self::state_after(s2, "drop"@);
        let s4 = Self::state_after(s3, "guard"@);
        if Self::spec_take_import(imports, "insert"@) is Some && Self::spec_take_import(s1, "get"@) is Some
            && Self::spec_take_import(s2, "drop"@) is Some && Self::spec_take_import(s3, "guard"@) is Some {
            Some(
                (
                    ExternrefImports {
                        insert: Self::taken_id(imports, "insert"@),
                        get: Self::taken_id(s1, "get"@),
                        drop: Self::taken_id(s2, "drop"@),
                        guard: Self::taken_id(s3, "guard"@),
                    },
                    s4,
                ),
            )
        } else {
            None
        }
    }

    /// Whether `name` is the first placeholder whose taking fails.
    pub open spec fn first_failing_name(imports: Seq<Import>, name: Seq<char>) -> bool {
        let s1 = Self::state_after(imports, "insert"@);
        let s2 = Self::state_after(s1, "get"@);
        let s3 = Self::state_after(s2, "drop"@);
        if Self::spec_take_import(imports, "insert"@) is None {
            name == "insert"@
        } else if Self::spec_take_import(s1, "get"@) is None {
            name == "get"@
        } else if Self::spec_take_import(s2, "drop"@) is None {
            name == "drop"@
        } else {
            name == "guard"@
        }
    }

    /// Removes the first placeholder import named `name`, when present; it
    /// must be a function import.
    fn take_import(imports: &mut Vec<Import>, name: &str) -> (r: Result<Option<usize>, Error>)
        ensures
            match Self::spec_take_import(old(imports)@, name@) {
                Some(p) => r == Ok::<Option<usize>, Error>(p.0) && final(imports)@ == p.1,
                None => r matches Err(e) && final(imports)@ == old(imports)@ && (
                e matches Error::UnexpectedImportType { module, name: n } && module@
                    == PLACEHOLDER_MODULE@ && n@ == name@),
            },
            elements_of(final(imports)@, old(imports)@),
            match r {
                Ok(found) => match found {
                    Some(f) => Self::came_from(old(imports)@, name@, f),
                    None => Self::none_left(final(imports)@, name@),
                },
                Err(e) => true,
            },
    {
        let n = imports.len();
        let mut i: usize = 0;
        while i < n
            invariant
                0 <= i <= n,
                imports@ == old(imports)@,
                n == imports@.len(),
                forall|j: int|
                    0 <= j < i ==> !import_matches(#[trigger] imports@[j], PLACEHOLDER_MODULE@, name@),
            decreases n - i,
        {
            if str_eq(imports[i].module.as_str(), PLACEHOLDER_MODULE) && str_eq(
                imports[i].name.as_str(),
                name,
            ) {
                proof {
                    lemma_find_import_at(imports@, PLACEHOLDER_MODULE@, name@, i as int);
                }
                let func_id: Option<usize> = match &imports[i].kind {
                    ImportKind::Function { func } => Some(*func),
                    _ => None,
                };
                match func_id {
                    Some(func) => {
                        let removed = imports.remove(i);
                        proof {
                            lemma_elements_of_remove(old(imports)@, i as int);
                        }
                        return Ok(Some(func));
                    },
                    None => {
                        return Err(Error::UnexpectedImportType {
                            module: PLACEHOLDER_MODULE.to_owned(),
                            name: name.to_owned(),
                        });
                    },
                }
            }
            i = i + 1;
        }
        proof {
            lemma_find_import_none(imports@, PLACEHOLDER_MODULE@, name@);
        }
        Ok(None)
    }
}

} // verus!


verus! {

/// A mapping from old (placeholder) function ids to new (synthesized) ids;
/// the first matching pair wins.
pub open spec fn mapping_of(m: Seq<(usize, usize)>, f: usize) -> Option<usize>
    decreases m.len(),
{
    if m.len() == 0 {
        None
    } else if m[0].0 == f {
        Some(m[0].1)
    } else {
        mapping_of(m.drop_first(), f)
    }
}

proof fn lemma_mapping_push(m: Seq<(usize, usize)>, p: (usize, usize), f: usize)
    ensures
        mapping_of(m.push(p), f) == (match mapping_of(m, f) {
            Some(v) => Some(v),
            None => if p.0 == f {
                Some(p.1)
            } else {
                None::<usize>
            },
        }),
    decreases m.len(),
{
    if m.len() == 0 {
        let s = m.push(p);
        assert(s.len() == 1);
        assert(s[0] == p);
        if p.0 == f {
            assert(mapping_of(s, f) == Some(p.1));
        } else {
            assert(s.drop_first() =~= Seq::<(usize, usize)>::empty());
            assert(mapping_of(s.drop_first(), f) is None);
            assert(mapping_of(s, f) is None);
        }
    } else {
        assert(m.push(p)[0] == m[0]);
        assert(m.push(p).drop_first() =~= m.drop_first().push(p));
        lemma_mapping_push(m.drop_first(), p, f);
    }
}

/// Whether function `f` of `m` is a local function with parameter types
/// `params` and result types `results`.
pub open spec fn fn_sig_is(m: Module, f: usize, params: Seq<ValType>, results: Seq<ValType>) -> bool {
    &&& f < m.funcs@.len()
    &&& match m.funcs@[f as int].kind {
        FuncKind::Local(lf) => {
            &&& lf.ty < m.types@.len()
            &&& m.types@[lf.ty as int].params@ == params
            &&& m.types@[lf.ty as int].results@ == results
        },
        _ => false,
    }
}

/// Whether function `f` of `m` is an imported function with parameter types
/// `params` and result types `results`.
pub open spec fn import_fn_type_is(m: Module, f: usize, params: Seq<ValType>, results: Seq<ValType>) -> bool {
    &&& f < m.funcs@.len()
    &&& match m.funcs@[f as int].kind {
        FuncKind::Import { ty } => {
            &&& ty < m.types@.len()
            &&& m.types@[ty as int].params@ == params
            &&& m.types@[ty as int].results@ == results
        },
        _ => false,
    }
}

proof fn lemma_fn_sig_preserved(ma: Module, mb: Module, f: usize, params: Seq<ValType>, results: Seq<ValType>)
    requires
        fn_sig_is(ma, f, params, results),
        module_extended(ma, mb),
        mb.funcs@[f as int] == ma.funcs@[f as int],
    ensures
        fn_sig_is(mb, f, params, results),
{
}

/// A synthesized instruction, which carries no source offset.
pub open spec fn ni(instr: Instr) -> LocatedInstr {
    LocatedInstr { instr, offset: None }
}

/// The body of the synthesized *insert* replacement, instruction for
/// instruction: return `-1` for a null reference; otherwise scan the table
/// from the tail for a null slot, store there, or grow by one — trapping on
/// growth failure — when every slot is occupied.
pub open spec fn insert_body(seqs: Seq<InstrSeq>, value: usize, free_idx: usize, table: usize) -> bool {
    &&& seqs.len() == 15
    &&& forall|s: int| 0 <= s < 15 ==> (#[trigger] seqs[s]).ty is None
    &&& seqs[0].instrs@ == seq![
        ni(Instr::LocalGet { local: value }),
        ni(Instr::RefIsNull),
        ni(Instr::IfElse { consequent: 1, alternative: 2 }),
        ni(Instr::TableSize { table }),
        ni(Instr::IfElse { consequent: 3, alternative: 4 }),
        ni(Instr::LocalGet { local: free_idx }),
        ni(Instr::TableSize { table }),
        ni(Instr::Binop { op: BinaryOp::I32Eq }),
        ni(Instr::IfElse { consequent: 11, alternative: 12 }),
        ni(Instr::LocalGet { local: free_idx }),
    ]
    &&& seqs[1].instrs@ == seq![ni(Instr::I32Const { value: -1i32 }), ni(Instr::Return)]
    &&& seqs[2].instrs@ == Seq::<LocatedInstr>::empty()
    &&& seqs[3].instrs@ == seq![
        ni(Instr::TableSize { table }),
        ni(Instr::I32Const { value: 1 }),
        ni(Instr::Binop { op: BinaryOp::I32Sub }),
        ni(Instr::LocalSet { local: free_idx }),
        ni(Instr::Block { seq: 5 }),
    ]
    &&& seqs[4].instrs@ == Seq::<LocatedInstr>::empty()
    &&& seqs[5].instrs@ == seq![ni(Instr::Loop { seq: 6 })]
    &&& seqs[6].instrs@ == seq![
        ni(Instr::LocalGet { local: free_idx }),
        ni(Instr::TableGet { table }),
        ni(Instr::RefIsNull),
        ni(Instr::IfElse { consequent: 7, alternative: 8 }),
    ]
    &&& seqs[7].instrs@ == seq![ni(Instr::Br { block: 5 })]
    &&& seqs[8].instrs@ == seq![
        ni(Instr::LocalGet { local: free_idx }),
        ni(Instr::IfElse { consequent: 9, alternative: 10 }),
    ]
    &&& seqs[9].instrs@ == seq![
        ni(Instr::LocalGet { local: free_idx }),
        ni(Instr::I32Const { value: 1 }),
        ni(Instr::Binop { op: BinaryOp::I32Sub }),
        ni(Instr::LocalSet { local: free_idx }),
        ni(Instr::Br { block: 6 }),
    ]
    &&& seqs[10].instrs@ == seq![
        ni(Instr::TableSize { table }),
        ni(Instr::LocalSet { local: free_idx }),
        ni(Instr::Br { block: 5 }),
    ]
    &&& seqs[11].instrs@ == seq![
        ni(Instr::LocalGet { local: value }),
        ni(Instr::I32Const { value: 1 }),
        ni(Instr::TableGrow { table }),
        ni(Instr::I32Const { value: -1i32 }),
        ni(Instr::Binop { op: BinaryOp::I32Eq }),
        ni(Instr::IfElse { consequent: 13, alternative: 14 }),
    ]
    &&& seqs[12].instrs@ == seq![
        ni(Instr::LocalGet { local: free_idx }),
        ni(Instr::LocalGet { local: value }),
        ni(Instr::TableSet { table }),
    ]
    &&& seqs[13].instrs@ == seq![ni(Instr::Unreachable)]
    &&& seqs[14].instrs@ == Seq::<LocatedInstr>::empty()
}

/// The body of the synthesized *get* replacement: the null reference for the
/// sentinel index `-1`, the table element otherwise.
pub open spec fn get_body(seqs: Seq<InstrSeq>, idx: usize, table: usize) -> bool {
    &&& seqs.len() == 3
    &&& seqs[0].ty is None
    &&& seqs[1].ty == Some(ValType::Externref)
    &&& seqs[2].ty == Some(ValType::Externref)
    &&& seqs[0].instrs@ == seq![
        ni(Instr::LocalGet { local: idx }),
        ni(Instr::I32Const { value: -1i32 }),
        ni(Instr::Binop { op: BinaryOp::I32Eq }),
        ni(Instr::IfElse { consequent: 1, alternative: 2 }),
    ]
    &&& seqs[1].instrs@ == seq![ni(Instr::RefNull { ty: ValType::Externref })]
    &&& seqs[2].instrs@ == seq![ni(Instr::LocalGet { local: idx }), ni(Instr::TableGet { table })]
}

/// The body of the synthesized *drop* replacement: when a drop notification
/// is configured, it is called with the slot's current value first; then the
/// slot is cleared.
pub open spec fn drop_body(seqs: Seq<InstrSeq>, idx: usize, table: usize, drop_fn: Option<usize>) -> bool {
    &&& seqs.len() == 1
    &&& seqs[0].ty is None
    &&& seqs[0].instrs@ == (match drop_fn {
        Some(df) => seq![
            ni(Instr::LocalGet { local: idx }),
            ni(Instr::TableGet { table }),
            ni(Instr::Call { func: df }),
        ],
        None => Seq::<LocatedInstr>::empty(),
    }) + seq![
        ni(Instr::LocalGet { local: idx }),
        ni(Instr::RefNull { ty: ValType::Externref }),
        ni(Instr::TableSet { table }),
    ]
}

/// The functions synthesized to replace the placeholder imports, the mapping
/// from placeholder ids to them, and the guard placeholder's id.
#[derive(Debug)]
pub struct PatchedFunctions {
    /// Pairs of a placeholder function id and the local function replacing it.
    pub fn_mapping: Vec<(usize, usize)>,
    /// The synthesized *get* function: the one synthesized function whose
    /// calls leave a reference on the stack.
    pub get_ref_id: Option<usize>,
    /// The guard placeholder's function id, whose calls are removed.
    pub guard_id: Option<usize>,
}

/// One when a placeholder is present, zero otherwise.
pub open spec fn opt_count(o: Option<usize>) -> int {
    if o is Some {
        1int
    } else {
        0int
    }
}

/// The id of the synthesized *insert* function: the first appended one.
pub open spec fn spec_insert_id(base: int) -> int {
    base
}

/// The id of the synthesized *get* function.
pub open spec fn spec_get_id(imps: ExternrefImports, base: int) -> int {
    base + opt_count(imps.insert)
}

/// The id of the drop-notification import's function, when one is installed.
pub open spec fn spec_hook_id(imps: ExternrefImports, base: int) -> int {
    spec_get_id(imps, base) + opt_count(imps.get)
}

/// The id of the synthesized *drop* function.
pub open spec fn spec_drop_id(imps: ExternrefImports, base: int, hook: bool) -> int {
    spec_hook_id(imps, base) + (if imps.drop is Some && hook {
        1int
    } else {
        0int
    })
}

/// The placeholder mapping the synthesis produces: each placeholder present
/// among insert, get and drop, paired with its freshly appended replacement.
pub open spec fn spec_fn_mapping(imps: ExternrefImports, base: int, hook: bool) -> Seq<(usize, usize)> {
    (match imps.insert {
        Some(f) => seq![(f, spec_insert_id(base) as usize)],
        None => Seq::<(usize, usize)>::empty(),
    }) + (match imps.get {
        Some(f) => seq![(f, spec_get_id(imps, base) as usize)],
        None => Seq::<(usize, usize)>::empty(),
    }) + (match imps.drop {
        Some(f) => seq![(f, spec_drop_id(imps, base, hook) as usize)],
        None => Seq::<(usize, usize)>::empty(),
    })
}

impl PatchedFunctions {
    /// Whether `f` is a placeholder id the processor replaces (insert, get or
    /// drop; the guard has no replacement).
    pub open spec fn is_patched_placeholder(imports: ExternrefImports, f: int) -> bool {
        ||| imports.insert == Some(f as usize)
        ||| imports.get == Some(f as usize)
        ||| imports.drop == Some(f as usize)
    }

    /// Synthesizes the reference table and the replacement functions, deletes
    /// the placeholder function shells, optionally exports the table and
    /// installs the drop-notification import.
    #[verifier::rlimit(100)]
    pub fn new(module: &mut Module, imports: &ExternrefImports, processor: &Processor) -> (pf: PatchedFunctions)
        requires
            old(module).wf(),
            imports.insert matches Some(f) ==> f < old(module).funcs@.len(),
            imports.get matches Some(f) ==> f < old(module).funcs@.len(),
            imports.drop matches Some(f) ==> f < old(module).funcs@.len(),
        ensures
            final(module).wf(),
            module_extended(*old(module), *final(module)),
            final(module).custom_section == old(module).custom_section,
            final(module).tables@.len() == old(module).tables@.len() + 1,
            final(module).tables@.last() == (TableDecl {
                initial: 0,
                maximum: None,
                element_ty: ValType::Externref,
            }),
            match processor.table_name {
                Some(n) => final(module).exports@ == old(module).exports@.push(
                    Export {
                        name: n,
                        item: ExportItem::Table { table: (old(module).tables@.len() as usize) },
                    },
                ),
                None => final(module).exports@ == old(module).exports@,
            },
            forall|f: int|
                0 <= f < old(module).funcs@.len() ==> if Self::is_patched_placeholder(*imports, f) {
                    (#[trigger] final(module).funcs@[f]).kind is Deleted
                } else {
                    final(module).funcs@[f] == old(module).funcs@[f]
                },
            match (processor.drop_fn_name, imports.drop) {
                (Some(d), Some(_)) => {
                    &&& final(module).imports@.len() == old(module).imports@.len() + 1
                    &&& final(module).imports@.last().module@ == d.0@
                    &&& final(module).imports@.last().name@ == d.1@
                    &&& (final(module).imports@.last().kind matches ImportKind::Function { func }
                        && import_fn_type_is(*final(module), func, seq![ValType::Externref], Seq::empty()))
                    &&& forall|i: int|
                        0 <= i < old(module).imports@.len() ==> #[trigger] final(module).imports@[i]
                            == old(module).imports@[i]
                },
                _ => final(module).imports@ == old(module).imports@,
            },
            // each placeholder is mapped to a replacement of the right shape
            imports.insert matches Some(i) ==> (mapping_of(pf.fn_mapping@, i) matches Some(nf)
                && fn_sig_is(*final(module), nf, seq![ValType::Externref], seq![ValType::I32])),
            imports.get matches Some(g) ==> (pf.get_ref_id is Some && (imports.insert != Some(g)
                ==> mapping_of(pf.fn_mapping@, g) == pf.get_ref_id)),
            imports.drop matches Some(dr) ==> (imports.insert != Some(dr) && imports.get != Some(dr))
                ==> (mapping_of(pf.fn_mapping@, dr) matches Some(nf)
                && fn_sig_is(*final(module), nf, seq![ValType::I32], Seq::empty())),
            // and nothing else is remapped
            forall|f: usize|
                !Self::is_patched_placeholder(*imports, f as int) ==> #[trigger] mapping_of(
                    pf.fn_mapping@,
                    f,
                ) is None,
            pf.guard_id == imports.guard,
            pf.get_ref_id is Some <==> imports.get is Some,
            pf.get_ref_id matches Some(gid) ==> fn_sig_is(*final(module), gid, seq![ValType::I32], seq![ValType::Externref]),
            // the mapping and the synthesized functions, exactly
            pf.fn_mapping@ == spec_fn_mapping(
                *imports,
                old(module).funcs@.len() as int,
                processor.drop_fn_name is Some,
            ),
            pf.get_ref_id == (if imports.get is Some {
                Some(spec_get_id(*imports, old(module).funcs@.len() as int) as usize)
            } else {
                None::<usize>
            }),
            final(module).funcs@.len() == old(module).funcs@.len() + opt_count(imports.insert)
                + opt_count(imports.get) + opt_count(imports.drop) + (
            if imports.drop is Some && processor.drop_fn_name is Some {
                1int
            } else {
                0int
            }),
            imports.insert is Some ==> (final(module).funcs@[spec_insert_id(old(module).funcs@.len() as int)].kind
                matches FuncKind::Local(lf) && ({
                &&& lf.args@ == seq![(old(module).locals@.len() as usize)]
                &&& insert_body(
                    lf.seqs@,
                    old(module).locals@.len() as usize,
                    (old(module).locals@.len() + 1) as usize,
                    (old(module).tables@.len() as usize),
                )
            })),
            imports.get is Some ==> (final(module).funcs@[spec_get_id(*imports, old(module).funcs@.len() as int)].kind
                matches FuncKind::Local(lf) && ({
                let idx = old(module).locals@.len() + 2 * opt_count(imports.insert);
                &&& lf.args@ == seq![(idx as usize)]
                &&& get_body(lf.seqs@, idx as usize, (old(module).tables@.len() as usize))
            })),
            imports.drop is Some ==> (final(module).funcs@[spec_drop_id(
                *imports,
                old(module).funcs@.len() as int,
                processor.drop_fn_name is Some,
            )].kind matches FuncKind::Local(lf) && ({
                let idx = old(module).locals@.len() + 2 * opt_count(imports.insert) + opt_count(
                    imports.get,
                );
                &&& lf.args@ == seq![(idx as usize)]
                &&& drop_body(
                    lf.seqs@,
                    idx as usize,
                    (old(module).tables@.len() as usize),
                    if processor.drop_fn_name is Some {
                        Some(spec_hook_id(*imports, old(module).funcs@.len() as int) as usize)
                    } else {
                        None::<usize>
                    },
                )
            })),
            (imports.drop is Some && processor.drop_fn_name is Some)
                ==> final(module).imports@.last().kind == (ImportKind::Function {
                func: (spec_hook_id(*imports, old(module).funcs@.len() as int) as usize),
            }),
    {
        let ghost m0 = *module;
        let table_id = module.tables.len();
        module.tables.push(TableDecl { initial: 0, maximum: None, element_ty: ValType::Externref });
        if let Some(table_name) = &processor.table_name {
            module.exports.push(Export {
                name: table_name.clone(),
                item: ExportItem::Table { table: table_id },
            });
        }
        proof {
            lemma_wf_extend(m0, *module);
        }
        let ghost m1 = *module;

        let mut fn_mapping: Vec<(usize, usize)> = Vec::new();
        let mut get_ref_id: Option<usize> = None;

        if let Some(fn_id) = imports.insert {
            module.funcs[fn_id].kind = FuncKind::Deleted;
            proof {
                lemma_wf_extend(m1, *module);
            }
            let new_id = Self::patch_insert_fn(module, table_id);
            fn_mapping.push((fn_id, new_id));
        }
        let ghost m2 = *module;
        let ghost map1 = fn_mapping@;

        if let Some(fn_id) = imports.get {
            module.funcs[fn_id].kind = FuncKind::Deleted;
            proof {
                lemma_wf_extend(m2, *module);
            }
            let patched_fn_id = Self::patch_get_fn(module, table_id);
            fn_mapping.push((fn_id, patched_fn_id));
            get_ref_id = Some(patched_fn_id);
        }
        let ghost m3 = *module;
        let ghost map2 = fn_mapping@;

        if let Some(fn_id) = imports.drop {
            module.funcs[fn_id].kind = FuncKind::Deleted;
            proof {
                lemma_wf_extend(m3, *module);
            }
            let drop_fn_id: Option<usize> = if let Some((dm, dn)) = &processor.drop_fn_name {
                let ghost ma = *module;
                let ty = module.types.len();
                module.types.push(FuncType { params: vec![ValType::Externref], results: Vec::new() });
                let f = module.funcs.len();
                module.funcs.push(Func { name: None, kind: FuncKind::Import { ty } });
                module.imports.push(Import {
                    module: dm.clone(),
                    name: dn.clone(),
                    kind: ImportKind::Function { func: f },
                });
                proof {
                    lemma_wf_extend(ma, *module);
                    assert(module.types@[ty as int].params@ =~= seq![ValType::Externref]);
                    assert(module.types@[ty as int].results@ =~= Seq::<ValType>::empty());
                }
                Some(f)
            } else {
                None
            };
            let patched_fn_id = Self::patch_drop_fn(module, table_id, drop_fn_id);
            fn_mapping.push((fn_id, patched_fn_id));
        }
        let ghost m4 = *module;
        let ghost map3 = fn_mapping@;

        proof {
            lemma_module_extended_trans(m0, m1, m2);
            lemma_module_extended_trans(m0, m2, m3);
            lemma_module_extended_trans(m0, m3, m4);
            assert(map3 =~= spec_fn_mapping(
                *imports,
                m0.funcs@.len() as int,
                processor.drop_fn_name is Some,
            ));
            assert forall|f: usize| true implies #[trigger] mapping_of(map3, f) == (
            if imports.insert == Some(f) && map1.len() == 1 {
                Some(map1[0].1)
            } else if imports.get == Some(f) && map2.len() > map1.len() {
                Some(map2.last().1)
            } else if imports.drop == Some(f) && map3.len() > map2.len() {
                Some(map3.last().1)
            } else {
                None::<usize>
            }) by {
                if imports.insert is Some {
                    lemma_mapping_push(Seq::<(usize, usize)>::empty(), map1.last(), f);
                    assert(map1 =~= Seq::<(usize, usize)>::empty().push(map1.last()));
                }
                if imports.get is Some {
                    lemma_mapping_push(map1, map2.last(), f);
                    assert(map2 =~= map1.push(map2.last()));
                }
                if imports.drop is Some {
                    lemma_mapping_push(map2, map3.last(), f);
                    assert(map3 =~= map2.push(map3.last()));
                }
            }
        }

        PatchedFunctions { fn_mapping, get_ref_id, guard_id: imports.guard }
    }

    /// Synthesizes the *insert* replacement: `(externref) -> i32`, storing a
    /// non-null reference in the highest-indexed free slot of the reference
    /// table — growing the table only when no slot is free — and returning
    /// `-1` for a null reference. The algorithm is the one
    /// [`crate::table::RefTable::insert`] gives semantics to.
    #[verifier::rlimit(100)]
    fn patch_insert_fn(module: &mut Module, table_id: usize) -> (fid: usize)
        requires
            old(module).wf(),
        ensures
            final(module).wf(),
            module_extended(*old(module), *final(module)),
            final(module).imports@ == old(module).imports@,
            final(module).exports@ == old(module).exports@,
            final(module).tables@ == old(module).tables@,
            final(module).custom_section == old(module).custom_section,
            final(module).funcs@.len() == old(module).funcs@.len() + 1,
            forall|h: int|
                0 <= h < old(module).funcs@.len() ==> #[trigger] final(module).funcs@[h] == old(
                    module,
                ).funcs@[h],
            fid == old(module).funcs@.len(),
            fn_sig_is(*final(module), fid, seq![ValType::Externref], seq![ValType::I32]),
            final(module).funcs@[fid as int].kind matches FuncKind::Local(lf) && ({
                &&& lf.args@ == seq![(old(module).locals@.len() as usize)]
                &&& insert_body(
                    lf.seqs@,
                    old(module).locals@.len() as usize,
                    (old(module).locals@.len() + 1) as usize,
                    table_id,
                )
            }),
            final(module).locals@.len() == old(module).locals@.len() + 2,
    {
        let ghost m0 = *module;
        let ty = module.types.len();
        module.types.push(FuncType { params: vec![ValType::Externref], results: vec![ValType::I32] });
        let value = module.locals.len();
        module.locals.push(ValType::Externref);
        let free_idx = module.locals.len();
        module.locals.push(ValType::I32);

        let mut b = BodyBuilder::new(None, module.locals.len(), module.funcs.len());
        let value_is_null = b.new_seq(None);
        let after_null_check = b.new_seq(None);
        let table_not_empty = b.new_seq(None);
        let table_empty = b.new_seq(None);
        let loop_wrapper = b.new_seq(None);
        let idx_loop = b.new_seq(None);
        let found_null = b.new_seq(None);
        let not_null = b.new_seq(None);
        let idx_not_zero = b.new_seq(None);
        let idx_zero = b.new_seq(None);
        let growth_required = b.new_seq(None);
        let growth_not_required = b.new_seq(None);
        let growth_failed = b.new_seq(None);
        let growth_ok = b.new_seq(None);

        b.push(0, Instr::LocalGet { local: value });
        b.push(0, Instr::RefIsNull);
        b.push(0, Instr::IfElse { consequent: value_is_null, alternative: after_null_check });
        b.push(value_is_null, Instr::I32Const { value: -1 });
        b.push(value_is_null, Instr::Return);
        b.push(0, Instr::TableSize { table: table_id });
        b.push(0, Instr::IfElse { consequent: table_not_empty, alternative: table_empty });
        b.push(table_not_empty, Instr::TableSize { table: table_id });
        b.push(table_not_empty, Instr::I32Const { value: 1 });
        b.push(table_not_empty, Instr::Binop { op: BinaryOp::I32Sub });
        b.push(table_not_empty, Instr::LocalSet { local: free_idx });
        b.push(table_not_empty, Instr::Block { seq: loop_wrapper });
        b.push(loop_wrapper, Instr::Loop { seq: idx_loop });
        b.push(idx_loop, Instr::LocalGet { local: free_idx });
        b.push(idx_loop, Instr::TableGet { table: table_id });
        b.push(idx_loop, Instr::RefIsNull);
        b.push(idx_loop, Instr::IfElse { consequent: found_null, alternative: not_null });
        b.push(found_null, Instr::Br { block: loop_wrapper });
        b.push(not_null, Instr::LocalGet { local: free_idx });
        b.push(not_null, Instr::IfElse { consequent: idx_not_zero, alternative: idx_zero });
        b.push(idx_not_zero, Instr::LocalGet { local: free_idx });
        b.push(idx_not_zero, Instr::I32Const { value: 1 });
        b.push(idx_not_zero, Instr::Binop { op: BinaryOp::I32Sub });
        b.push(idx_not_zero, Instr::LocalSet { local: free_idx });
        b.push(idx_not_zero, Instr::Br { block: idx_loop });
        b.push(idx_zero, Instr::TableSize { table: table_id });
        b.push(idx_zero, Instr::LocalSet { local: free_idx });
        b.push(idx_zero, Instr::Br { block: loop_wrapper });
        b.push(0, Instr::LocalGet { local: free_idx });
        b.push(0, Instr::TableSize { table: table_id });
        b.push(0, Instr::Binop { op: BinaryOp::I32Eq });
        b.push(0, Instr::IfElse { consequent: growth_required, alternative: growth_not_required });
        b.push(growth_required, Instr::LocalGet { local: value });
        b.push(growth_required, Instr::I32Const { value: 1 });
        b.push(growth_required, Instr::TableGrow { table: table_id });
        b.push(growth_required, Instr::I32Const { value: -1 });
        b.push(growth_required, Instr::Binop { op: BinaryOp::I32Eq });
        b.push(growth_required, Instr::IfElse { consequent: growth_failed, alternative: growth_ok });
        b.push(growth_failed, Instr::Unreachable);
        b.push(growth_not_required, Instr::LocalGet { local: free_idx });
        b.push(growth_not_required, Instr::LocalGet { local: value });
        b.push(growth_not_required, Instr::TableSet { table: table_id });
        b.push(0, Instr::LocalGet { local: free_idx });

        let fid = module.funcs.len();
        let args = vec![value];
        module.funcs.push(Func {
            name: None,
            kind: FuncKind::Local(LocalFunction { ty, args, seqs: b.seqs }),
        });
        proof {
            lemma_wf_extend(m0, *module);
            assert(module.types@[ty as int].params@ =~= seq![ValType::Externref]);
            assert(module.types@[ty as int].results@ =~= seq![ValType::I32]);
            let lf = module.funcs@[fid as int].kind->Local_0;
            assert(lf.args@ =~= seq![(m0.locals@.len() as usize)]);
            assert(lf.seqs@[0].instrs@ =~= seq![
                ni(Instr::LocalGet { local: value }),
                ni(Instr::RefIsNull),
                ni(Instr::IfElse { consequent: 1, alternative: 2 }),
                ni(Instr::TableSize { table: table_id }),
                ni(Instr::IfElse { consequent: 3, alternative: 4 }),
                ni(Instr::LocalGet { local: free_idx }),
                ni(Instr::TableSize { table: table_id }),
                ni(Instr::Binop { op: BinaryOp::I32Eq }),
                ni(Instr::IfElse { consequent: 11, alternative: 12 }),
                ni(Instr::LocalGet { local: free_idx }),
            ]);
            assert(lf.seqs@[1].instrs@ =~= seq![ni(Instr::I32Const { value: -1i32 }), ni(Instr::Return)]);
            assert(lf.seqs@[2].instrs@ =~= Seq::<LocatedInstr>::empty());
            assert(lf.seqs@[3].instrs@ =~= seq![
                ni(Instr::TableSize { table: table_id }),
                ni(Instr::I32Const { value: 1 }),
                ni(Instr::Binop { op: BinaryOp::I32Sub }),
                ni(Instr::LocalSet { local: free_idx }),
                ni(Instr::Block { seq: 5 }),
            ]);
            assert(lf.seqs@[4].instrs@ =~= Seq::<LocatedInstr>::empty());
            assert(lf.seqs@[5].instrs@ =~= seq![ni(Instr::Loop { seq: 6 })]);
            assert(lf.seqs@[6].instrs@ =~= seq![
                ni(Instr::LocalGet { local: free_idx }),
                ni(Instr::TableGet { table: table_id }),
                ni(Instr::RefIsNull),
                ni(Instr::IfElse { consequent: 7, alternative: 8 }),
            ]);
            assert(lf.seqs@[7].instrs@ =~= seq![ni(Instr::Br { block: 5 })]);
            assert(lf.seqs@[8].instrs@ =~= seq![
                ni(Instr::LocalGet { local: free_idx }),
                ni(Instr::IfElse { consequent: 9, alternative: 10 }),
            ]);
            assert(lf.seqs@[9].instrs@ =~= seq![
                ni(Instr::LocalGet { local: free_idx }),
                ni(Instr::I32Const { value: 1 }),
                ni(Instr::Binop { op: BinaryOp::I32Sub }),
                ni(Instr::LocalSet { local: free_idx }),
                ni(Instr::Br { block: 6 }),
            ]);
            assert(lf.seqs@[10].instrs@ =~= seq![
                ni(Instr::TableSize { table: table_id }),
                ni(Instr::LocalSet { local: free_idx }),
                ni(Instr::Br { block: 5 }),
            ]);
            assert(lf.seqs@[11].instrs@ =~= seq![
                ni(Instr::LocalGet { local: value }),
                ni(Instr::I32Const { value: 1 }),
                ni(Instr::TableGrow { table: table_id }),
                ni(Instr::I32Const { value: -1i32 }),
                ni(Instr::Binop { op: BinaryOp::I32Eq }),
                ni(Instr::IfElse { consequent: 13, alternative: 14 }),
            ]);
            assert(lf.seqs@[12].instrs@ =~= seq![
                ni(Instr::LocalGet { local: free_idx }),
                ni(Instr::LocalGet { local: value }),
                ni(Instr::TableSet { table: table_id }),
            ]);
            assert(lf.seqs@[13].instrs@ =~= seq![ni(Instr::Unreachable)]);
            assert(lf.seqs@[14].instrs@ =~= Seq::<LocatedInstr>::empty());
        }
        fid
    }

    /// Synthesizes the *get* replacement: `(i32) -> externref`, returning the
    /// null reference for the sentinel index `-1` and the table element
    /// otherwise, as [`crate::table::RefTable::get`] gives semantics to.
    fn patch_get_fn(module: &mut Module, table_id: usize) -> (fid: usize)
        requires
            old(module).wf(),
        ensures
            final(module).wf(),
            module_extended(*old(module), *final(module)),
            final(module).imports@ == old(module).imports@,
            final(module).exports@ == old(module).exports@,
            final(module).tables@ == old(module).tables@,
            final(module).custom_section == old(module).custom_section,
            final(module).funcs@.len() == old(module).funcs@.len() + 1,
            forall|h: int|
                0 <= h < old(module).funcs@.len() ==> #[trigger] final(module).funcs@[h] == old(
                    module,
                ).funcs@[h],
            fid == old(module).funcs@.len(),
            fn_sig_is(*final(module), fid, seq![ValType::I32], seq![ValType::Externref]),
            final(module).funcs@[fid as int].kind matches FuncKind::Local(lf) && ({
                &&& lf.args@ == seq![(old(module).locals@.len() as usize)]
                &&& get_body(lf.seqs@, old(module).locals@.len() as usize, table_id)
            }),
            final(module).locals@.len() == old(module).locals@.len() + 1,
    {
        let ghost m0 = *module;
        let ty = module.types.len();
        module.types.push(FuncType { params: vec![ValType::I32], results: vec![ValType::Externref] });
        let idx = module.locals.len();
        module.locals.push(ValType::I32);

        let mut b = BodyBuilder::new(None, module.locals.len(), module.funcs.len());
        let null_requested = b.new_seq(Some(ValType::Externref));
        let elem_requested = b.new_seq(Some(ValType::Externref));
        b.push(0, Instr::LocalGet { local: idx });
        b.push(0, Instr::I32Const { value: -1 });
        b.push(0, Instr::Binop { op: BinaryOp::I32Eq });
        b.push(0, Instr::IfElse { consequent: null_requested, alternative: elem_requested });
        b.push(null_requested, Instr::RefNull { ty: ValType::Externref });
        b.push(elem_requested, Instr::LocalGet { local: idx });
        b.push(elem_requested, Instr::TableGet { table: table_id });

        let fid = module.funcs.len();
        let args = vec![idx];
        module.funcs.push(Func {
            name: None,
            kind: FuncKind::Local(LocalFunction { ty, args, seqs: b.seqs }),
        });
        proof {
            lemma_wf_extend(m0, *module);
            assert(module.types@[ty as int].params@ =~= seq![ValType::I32]);
            assert(module.types@[ty as int].results@ =~= seq![ValType::Externref]);
            let lf = module.funcs@[fid as int].kind->Local_0;
            assert(lf.args@ =~= seq![(m0.locals@.len() as usize)]);
            assert(lf.seqs@[0].instrs@ =~= seq![
                ni(Instr::LocalGet { local: idx }),
                ni(Instr::I32Const { value: -1i32 }),
                ni(Instr::Binop { op: BinaryOp::I32Eq }),
                ni(Instr::IfElse { consequent: 1, alternative: 2 }),
            ]);
            assert(lf.seqs@[1].instrs@ =~= seq![ni(Instr::RefNull { ty: ValType::Externref })]);
            assert(lf.seqs@[2].instrs@ =~= seq![
                ni(Instr::LocalGet { local: idx }),
                ni(Instr::TableGet { table: table_id }),
            ]);
        }
        fid
    }

    /// Synthesizes the *drop* replacement: `(i32) -> ()`, invoking the
    /// drop-notification import with the slot's current value when one is
    /// configured, then clearing the slot, as
    /// [`crate::table::RefTable::drop`] gives semantics to.
    fn patch_drop_fn(module: &mut Module, table_id: usize, drop_fn_id: Option<usize>) -> (fid: usize)
        requires
            old(module).wf(),
            drop_fn_id matches Some(df) ==> df < old(module).funcs@.len(),
        ensures
            final(module).wf(),
            module_extended(*old(module), *final(module)),
            final(module).imports@ == old(module).imports@,
            final(module).exports@ == old(module).exports@,
            final(module).tables@ == old(module).tables@,
            final(module).custom_section == old(module).custom_section,
            final(module).funcs@.len() == old(module).funcs@.len() + 1,
            forall|h: int|
                0 <= h < old(module).funcs@.len() ==> #[trigger] final(module).funcs@[h] == old(
                    module,
                ).funcs@[h],
            fid == old(module).funcs@.len(),
            fn_sig_is(*final(module), fid, seq![ValType::I32], Seq::empty()),
            final(module).funcs@[fid as int].kind matches FuncKind::Local(lf) && ({
                &&& lf.args@ == seq![(old(module).locals@.len() as usize)]
                &&& drop_body(lf.seqs@, old(module).locals@.len() as usize, table_id, drop_fn_id)
            }),
            final(module).locals@.len() == old(module).locals@.len() + 1,
    {
        let ghost m0 = *module;
        let ty = module.types.len();
        module.types.push(FuncType { params: vec![ValType::I32], results: Vec::new() });
        let idx = module.locals.len();
        module.locals.push(ValType::I32);

        let mut b = BodyBuilder::new(None, module.locals.len(), module.funcs.len());
        if let Some(drop_fn_id) = drop_fn_id {
            b.push(0, Instr::LocalGet { local: idx });
            b.push(0, Instr::TableGet { table: table_id });
            b.push(0, Instr::Call { func: drop_fn_id });
        }
        b.push(0, Instr::LocalGet { local: idx });
        b.push(0, Instr::RefNull { ty: ValType::Externref });
        b.push(0, Instr::TableSet { table: table_id });

        let fid = module.funcs.len();
        let args = vec![idx];
        module.funcs.push(Func {
            name: None,
            kind: FuncKind::Local(LocalFunction { ty, args, seqs: b.seqs }),
        });
        proof {
            lemma_wf_extend(m0, *module);
            assert(module.types@[ty as int].params@ =~= seq![ValType::I32]);
            assert(module.types@[ty as int].results@ =~= Seq::<ValType>::empty());
            let lf = module.funcs@[fid as int].kind->Local_0;
            assert(lf.args@ =~= seq![(m0.locals@.len() as usize)]);
            match drop_fn_id {
                Some(df) => {
                    assert(lf.seqs@[0].instrs@ =~= seq![
                        ni(Instr::LocalGet { local: idx }),
                        ni(Instr::TableGet { table: table_id }),
                        ni(Instr::Call { func: df }),
                        ni(Instr::LocalGet { local: idx }),
                        ni(Instr::RefNull { ty: ValType::Externref }),
                        ni(Instr::TableSet { table: table_id }),
                    ]);
                    assert(lf.seqs@[0].instrs@ =~= seq![
                        ni(Instr::LocalGet { local: idx }),
                        ni(Instr::TableGet { table: table_id }),
                        ni(Instr::Call { func: df }),
                    ] + seq![
                        ni(Instr::LocalGet { local: idx }),
                        ni(Instr::RefNull { ty: ValType::Externref }),
                        ni(Instr::TableSet { table: table_id }),
                    ]);
                },
                None => {
                    assert(lf.seqs@[0].instrs@ =~= Seq::<LocatedInstr>::empty() + seq![
                        ni(Instr::LocalGet { local: idx }),
                        ni(Instr::RefNull { ty: ValType::Externref }),
                        ni(Instr::TableSet { table: table_id }),
                    ]);
                },
            }
        }
        fid
    }
}

} // verus!

verus! {

/// Whether `i` is a call of the function `guard`.
pub open spec fn is_guard_call(i: Instr, guard: usize) -> bool {
    i matches Instr::Call { func } && func == guard
}

/// How the guard calls of a function are placed, mirroring the order used to
/// combine several guards: a misplaced guard outweighs a correct one, and of
/// several misplaced guards the one with the greatest offset is reported.
#[derive(Debug, Clone, Copy)]
pub enum GuardPlacement {
    /// The guard is the first executable instruction of the entry sequence,
    /// or directly follows a shadow-stack pointer adjustment there.
    Correct,
    /// The guard sits anywhere else; the payload is its bytecode offset.
    Incorrect(Option<u32>),
}

/// Order on optional offsets: absent before present, then by value.
pub open spec fn offset_le(a: Option<u32>, b: Option<u32>) -> bool {
    match (a, b) {
        (None, _) => true,
        (Some(_), None) => false,
        (Some(x), Some(y)) => x <= y,
    }
}

/// Order on optional placements: none, then correct, then incorrect by offset.
pub open spec fn placement_le(a: Option<GuardPlacement>, b: Option<GuardPlacement>) -> bool {
    match (a, b) {
        (None, _) => true,
        (Some(_), None) => false,
        (Some(GuardPlacement::Correct), Some(_)) => true,
        (Some(GuardPlacement::Incorrect(_)), Some(GuardPlacement::Correct)) => false,
        (Some(GuardPlacement::Incorrect(x)), Some(GuardPlacement::Incorrect(y))) => offset_le(x, y),
    }
}

/// The greater of two optional placements; the second wins ties.
pub open spec fn placement_max(a: Option<GuardPlacement>, b: Option<GuardPlacement>) -> Option<GuardPlacement> {
    if placement_le(a, b) {
        b
    } else {
        a
    }
}

/// The placement the guard call at position `k` contributes, or `None` if the
/// instruction is no guard call. A guard call is acceptable only in the entry
/// sequence, as the first instruction or directly after a `global.set`.
pub open spec fn instr_placement(instrs: Seq<LocatedInstr>, k: int, is_entry: bool, guard: usize) -> Option<GuardPlacement> {
    if is_guard_call(instrs[k].instr, guard) {
        if is_entry && (k == 0 || instrs[k - 1].instr is GlobalSet) {
            Some(GuardPlacement::Correct)
        } else {
            Some(GuardPlacement::Incorrect(instrs[k].offset))
        }
    } else {
        None
    }
}

/// The combined placement of the guard calls among the first `n` instructions.
pub open spec fn seq_placement_upto(instrs: Seq<LocatedInstr>, n: int, is_entry: bool, guard: usize) -> Option<GuardPlacement>
    decreases n,
{
    if n <= 0 {
        None
    } else {
        placement_max(
            seq_placement_upto(instrs, n - 1, is_entry, guard),
            instr_placement(instrs, n - 1, is_entry, guard),
        )
    }
}

/// The combined placement of the guard calls of the first `n` instruction
/// lists of a body; list `0` belongs to the entry sequence.
pub open spec fn fn_placement_upto(bodies: Seq<Seq<LocatedInstr>>, n: int, guard: usize) -> Option<GuardPlacement>
    decreases n,
{
    if n <= 0 {
        None
    } else {
        placement_max(
            fn_placement_upto(bodies, n - 1, guard),
            seq_placement_upto(bodies[n - 1], bodies[n - 1].len() as int, n - 1 == 0, guard),
        )
    }
}

/// The combined placement of all guard calls of a body.
pub open spec fn fn_guard_placement(bodies: Seq<Seq<LocatedInstr>>, guard: usize) -> Option<GuardPlacement> {
    fn_placement_upto(bodies, bodies.len() as int, guard)
}

/// The instruction lists of a body's sequences.
pub open spec fn instr_lists(seqs: Seq<InstrSeq>) -> Seq<Seq<LocatedInstr>> {
    seqs.map_values(|q: InstrSeq| q.instrs@)
}

/// The instruction lists of a body's sequences, after call redirection.
pub open spec fn mapped_bodies(seqs: Seq<InstrSeq>, m: Seq<(usize, usize)>) -> Seq<Seq<LocatedInstr>> {
    Seq::new(seqs.len(), |s: int| map_calls_in_seq(seqs[s].instrs@, m))
}

/// One sequence's instruction list after the whole rewrite: calls redirected,
/// then guard calls removed when a guard placeholder exists.
pub open spec fn processed_seq(instrs: Seq<LocatedInstr>, m: Seq<(usize, usize)>, guard: Option<usize>) -> Seq<LocatedInstr> {
    let mapped = map_calls_in_seq(instrs, m);
    match guard {
        Some(g) => strip_guards(mapped, g),
        None => mapped,
    }
}

/// Whether two optional function names hold the same text.
pub open spec fn opt_name_eq(a: Option<String>, b: Option<String>) -> bool {
    match (a, b) {
        (Some(x), Some(y)) => x@ == y@,
        (None, None) => true,
        _ => false,
    }
}

/// `instrs` with every guard call removed.
pub open spec fn strip_guards(instrs: Seq<LocatedInstr>, guard: usize) -> Seq<LocatedInstr>
    decreases instrs.len(),
{
    if instrs.len() == 0 {
        instrs
    } else {
        let prefix = strip_guards(instrs.drop_last(), guard);
        if is_guard_call(instrs.last().instr, guard) {
            prefix
        } else {
            prefix.push(instrs.last())
        }
    }
}

proof fn lemma_strip_guards_wf(instrs: Seq<LocatedInstr>, guard: usize, sid: int, n_seqs: int, n_locals: int, n_funcs: int)
    requires
        forall|k: int| 0 <= k < instrs.len() ==> instr_wf(#[trigger] instrs[k].instr, sid, n_seqs, n_locals, n_funcs),
    ensures
        forall|k: int|
            0 <= k < strip_guards(instrs, guard).len() ==> instr_wf(
                #[trigger] strip_guards(instrs, guard)[k].instr,
                sid,
                n_seqs,
                n_locals,
                n_funcs,
            ),
        strip_guards(instrs, guard).len() <= instrs.len(),
    decreases instrs.len(),
{
    if instrs.len() > 0 {
        lemma_strip_guards_wf(instrs.drop_last(), guard, sid, n_seqs, n_locals, n_funcs);
    }
}

/// `i` with a call of a mapped placeholder redirected to its replacement.
pub open spec fn map_call_instr(i: Instr, m: Seq<(usize, usize)>) -> Instr {
    match i {
        Instr::Call { func } => match mapping_of(m, func) {
            Some(nf) => Instr::Call { func: nf },
            None => i,
        },
        _ => i,
    }
}

/// `instrs` with every call of a mapped placeholder redirected.
pub open spec fn map_calls_in_seq(instrs: Seq<LocatedInstr>, m: Seq<(usize, usize)>) -> Seq<LocatedInstr> {
    instrs.map_values(|li: LocatedInstr| LocatedInstr { instr: map_call_instr(li.instr, m), offset: li.offset })
}

/// Whether `i` is a call the mapping redirects.
pub open spec fn is_mapped_call(i: Instr, m: Seq<(usize, usize)>) -> bool {
    i matches Instr::Call { func } && mapping_of(m, func) is Some
}

/// `c`, plus one if `b`, saturating at `usize::MAX`.
pub open spec fn capped_inc(c: int, b: bool) -> int {
    if b && c < usize::MAX {
        c + 1
    } else {
        c
    }
}

/// The count `c` increased, saturating, by the number of redirected calls
/// among the first `n` instructions.
pub open spec fn add_mapped_count(c: int, instrs: Seq<LocatedInstr>, n: int, m: Seq<(usize, usize)>) -> int
    decreases n,
{
    if n <= 0 {
        c
    } else {
        capped_inc(add_mapped_count(c, instrs, n - 1, m), is_mapped_call(instrs[n - 1].instr, m))
    }
}

/// The count `c` increased, saturating, by the number of redirected calls in
/// the first `n` sequences.
pub open spec fn add_mapped_count_seqs(c: int, seqs: Seq<InstrSeq>, n: int, m: Seq<(usize, usize)>) -> int
    decreases n,
{
    if n <= 0 {
        c
    } else {
        add_mapped_count(
            add_mapped_count_seqs(c, seqs, n - 1, m),
            seqs[n - 1].instrs@,
            seqs[n - 1].instrs@.len() as int,
            m,
        )
    }
}

proof fn lemma_mapping_at(m: Seq<(usize, usize)>, f: usize, i: int)
    requires
        0 <= i < m.len(),
        m[i].0 == f,
        forall|j: int| 0 <= j < i ==> (#[trigger] m[j]).0 != f,
    ensures
        mapping_of(m, f) == Some(m[i].1),
    decreases m.len(),
{
    if i > 0 {
        lemma_mapping_at(m.drop_first(), f, i - 1);
    }
}

proof fn lemma_mapping_none(m: Seq<(usize, usize)>, f: usize)
    requires
        forall|j: int| 0 <= j < m.len() ==> (#[trigger] m[j]).0 != f,
    ensures
        mapping_of(m, f) is None,
    decreases m.len(),
{
    if m.len() > 0 {
        lemma_mapping_none(m.drop_first(), f);
    }
}

/// Looks `f` up in the placeholder mapping; the first matching pair wins.
pub(crate) fn lookup_mapping(m: &Vec<(usize, usize)>, f: usize) -> (r: Option<usize>)
    ensures
        r == mapping_of(m@, f),
{
    let n = m.len();
    let mut i: usize = 0;
    while i < n
        invariant
            0 <= i <= n,
            n == m@.len(),
            forall|j: int| 0 <= j < i ==> (#[trigger] m@[j]).0 != f,
        decreases n - i,
    {
        let (key, value) = m[i];
        if key == f {
            proof {
                lemma_mapping_at(m@, f, i as int);
            }
            return Some(value);
        }
        i = i + 1;
    }
    proof {
        lemma_mapping_none(m@, f);
    }
    None
}

} // verus!

verus! {

/// Copies an optional function name.
pub(crate) fn clone_opt_name(n: &Option<String>) -> (r: Option<String>)
    ensures
        opt_name_eq(r, *n),
{
    match n {
        Some(s) => Some(s.clone()),
        None => None,
    }
}

/// Redirects every call of a mapped placeholder in one instruction list,
/// counting (saturating) the redirected calls on top of `count`.
fn map_calls_in_instrs(instrs: &mut Vec<LocatedInstr>, m: &Vec<(usize, usize)>, count0: usize) -> (r: usize)
    ensures
        final(instrs)@ == map_calls_in_seq(old(instrs)@, m@),
        r == add_mapped_count(count0 as int, old(instrs)@, old(instrs)@.len() as int, m@),
{
    let n = instrs.len();
    let mut count = count0;
    let mut k: usize = 0;
    while k < n
        invariant
            0 <= k <= n,
            n == instrs@.len(),
            instrs@.len() == old(instrs)@.len(),
            forall|j: int| k <= j < n ==> instrs@[j] == old(instrs)@[j],
            forall|j: int|
                0 <= j < k ==> instrs@[j] == (LocatedInstr {
                    instr: map_call_instr(old(instrs)@[j].instr, m@),
                    offset: old(instrs)@[j].offset,
                }),
            count == add_mapped_count(count0 as int, old(instrs)@, k as int, m@),
        decreases n - k,
    {
        let target: Option<usize> = match &instrs[k].instr {
            Instr::Call { func } => Some(*func),
            _ => None,
        };
        if let Some(func) = target {
            if let Some(nf) = lookup_mapping(m, func) {
                let offset = instrs[k].offset;
                instrs[k] = LocatedInstr { instr: Instr::Call { func: nf }, offset };
                if count < usize::MAX {
                    count = count + 1;
                }
            }
        }
        k = k + 1;
    }
    proof {
        assert(instrs@ =~= map_calls_in_seq(old(instrs)@, m@));
    }
    count
}

/// Removes the guard calls from one instruction list, returning the stripped
/// list and the combined placement of the removed guards.
fn strip_guards_in_instrs(instrs: Vec<LocatedInstr>, is_entry: bool, guard: usize) -> (r: (Vec<LocatedInstr>, Option<GuardPlacement>))
    ensures
        r.0@ == strip_guards(instrs@, guard),
        r.1 == seq_placement_upto(instrs@, instrs@.len() as int, is_entry, guard),
{
    let ghost orig = instrs@;
    let mut rest = instrs;
    let total = rest.len();
    let mut out: Vec<LocatedInstr> = Vec::new();
    let mut placement: Option<GuardPlacement> = None;
    let mut k: usize = 0;
    let mut maybe_set_stack_ptr = false;
    while rest.len() > 0
        invariant
            0 <= k,
            total == orig.len(),
            k + rest@.len() == orig.len(),
            rest@ == orig.skip(k as int),
            out@ == strip_guards(orig.take(k as int), guard),
            placement == seq_placement_upto(orig, k as int, is_entry, guard),
            maybe_set_stack_ptr == (k > 0 && orig[k as int - 1].instr is GlobalSet),
        decreases rest@.len(),
    {
        let li = rest.remove(0);
        proof {
            assert(li == orig[k as int]);
            assert(rest@ =~= orig.skip(k as int + 1));
            assert(orig.take(k as int + 1).drop_last() =~= orig.take(k as int));
            assert(orig.take(k as int + 1).last() == orig[k as int]);
        }
        let is_guard: bool = match &li.instr {
            Instr::Call { func } => *func == guard,
            _ => false,
        };
        let li_is_global_set = matches!(&li.instr, Instr::GlobalSet { .. });
        if is_guard {
            let contributed: GuardPlacement = if is_entry && (k == 0 || maybe_set_stack_ptr) {
                GuardPlacement::Correct
            } else {
                GuardPlacement::Incorrect(li.offset)
            };
            placement = placement_max_exec(placement, Some(contributed));
        } else {
            out.push(li);
        }
        maybe_set_stack_ptr = li_is_global_set;
        k = k + 1;
    }
    proof {
        assert(orig.take(k as int) =~= orig);
    }
    (out, placement)
}

/// The greater of two optional placements.
fn placement_max_exec(a: Option<GuardPlacement>, b: Option<GuardPlacement>) -> (r: Option<GuardPlacement>)
    ensures
        r == placement_max(a, b),
{
    let le = match (&a, &b) {
        (None, _) => true,
        (Some(_), None) => false,
        (Some(GuardPlacement::Correct), Some(_)) => true,
        (Some(GuardPlacement::Incorrect(_)), Some(GuardPlacement::Correct)) => false,
        (Some(GuardPlacement::Incorrect(x)), Some(GuardPlacement::Incorrect(y))) => match (x, y) {
            (None, _) => true,
            (Some(_), None) => false,
            (Some(xv), Some(yv)) => *xv <= *yv,
        },
    };
    if le {
        b
    } else {
        a
    }
}

} // verus!

verus! {

proof fn lemma_map_calls_wf(instrs: Seq<LocatedInstr>, m: Seq<(usize, usize)>, sid: int, n_seqs: int, n_locals: int, n_funcs: int)
    requires
        forall|k: int| 0 <= k < instrs.len() ==> instr_wf(#[trigger] instrs[k].instr, sid, n_seqs, n_locals, n_funcs),
        forall|f: usize| #[trigger] mapping_of(m, f) matches Some(nf) ==> nf < n_funcs,
    ensures
        map_calls_in_seq(instrs, m).len() == instrs.len(),
        forall|k: int|
            0 <= k < instrs.len() ==> instr_wf(
                #[trigger] map_calls_in_seq(instrs, m)[k].instr,
                sid,
                n_seqs,
                n_locals,
                n_funcs,
            ),
{
    assert forall|k: int| 0 <= k < instrs.len() implies instr_wf(
        #[trigger] map_calls_in_seq(instrs, m)[k].instr,
        sid,
        n_seqs,
        n_locals,
        n_funcs,
    ) by {
        assert(map_calls_in_seq(instrs, m)[k].instr == map_call_instr(instrs[k].instr, m));
        match instrs[k].instr {
            Instr::Call { func } => {
                assert(mapping_of(m, func) matches Some(nf) ==> nf < n_funcs);
            },
            _ => {},
        }
    }
}

/// The count `c` increased, saturating, by the number of redirected calls in
/// the bodies of the first `n` functions.
pub open spec fn add_mapped_count_funcs(c: int, funcs: Seq<Func>, n: int, m: Seq<(usize, usize)>) -> int
    decreases n,
{
    if n <= 0 {
        c
    } else {
        let c_prev = add_mapped_count_funcs(c, funcs, n - 1, m);
        match funcs[n - 1].kind {
            FuncKind::Local(lf) => add_mapped_count_seqs(c_prev, lf.seqs@, lf.seqs@.len() as int, m),
            _ => c_prev,
        }
    }
}

/// Redirects every call of a mapped placeholder throughout a function body,
/// counting (saturating) the redirected calls on top of `count0`.
fn map_calls_in_fn(lf: &mut LocalFunction, m: &Vec<(usize, usize)>, count0: usize) -> (r: usize)
    ensures
        final(lf).ty == old(lf).ty,
        final(lf).args == old(lf).args,
        final(lf).seqs@.len() == old(lf).seqs@.len(),
        forall|s: int|
            0 <= s < old(lf).seqs@.len() ==> (#[trigger] final(lf).seqs@[s]).ty == old(lf).seqs@[s].ty
                && final(lf).seqs@[s].instrs@ == map_calls_in_seq(old(lf).seqs@[s].instrs@, m@),
        r == add_mapped_count_seqs(count0 as int, old(lf).seqs@, old(lf).seqs@.len() as int, m@),
{
    let n = lf.seqs.len();
    let mut count = count0;
    let mut s: usize = 0;
    while s < n
        invariant
            0 <= s <= n,
            n == lf.seqs@.len(),
            n == old(lf).seqs@.len(),
            lf.ty == old(lf).ty,
            lf.args == old(lf).args,
            forall|j: int| s <= j < n ==> #[trigger] lf.seqs@[j] == old(lf).seqs@[j],
            forall|j: int|
                0 <= j < s ==> (#[trigger] lf.seqs@[j]).ty == old(lf).seqs@[j].ty
                    && lf.seqs@[j].instrs@ == map_calls_in_seq(old(lf).seqs@[j].instrs@, m@),
            count == add_mapped_count_seqs(count0 as int, old(lf).seqs@, s as int, m@),
        decreases n - s,
    {
        count = map_calls_in_instrs(&mut lf.seqs[s].instrs, m, count);
        s = s + 1;
    }
    count
}

impl PatchedFunctions {
    /// How the whole rewrite leaves one function: a defined function has its
    /// calls redirected and its guard calls removed, keeping its type, its
    /// parameters and every other instruction; any other entry is untouched.
    /// `guarded` records whether a guard stood at an accepted entry position.
    pub open spec fn fn_rewritten(&self, oldf: Func, newf: Func, guarded: bool) -> bool {
        match oldf.kind {
            FuncKind::Local(lf) => {
                &&& (newf.kind matches FuncKind::Local(nlf) && {
                    &&& nlf.ty == lf.ty
                    &&& nlf.args == lf.args
                    &&& nlf.seqs@.len() == lf.seqs@.len()
                    &&& forall|s: int|
                        0 <= s < lf.seqs@.len() ==> (#[trigger] nlf.seqs@[s]).ty == lf.seqs@[s].ty
                            && nlf.seqs@[s].instrs@ == processed_seq(
                            lf.seqs@[s].instrs@,
                            self.fn_mapping@,
                            self.guard_id,
                        )
                })
                &&& guarded == (self.guard_id matches Some(g) && fn_guard_placement(
                    mapped_bodies(lf.seqs@, self.fn_mapping@),
                    g,
                ) == Some(GuardPlacement::Correct))
            },
            _ => newf == oldf && !guarded,
        }
    }

    /// Whether the function `fk` holds a misplaced guard once its calls are
    /// redirected.
    pub open spec fn fn_has_misplaced_guard(&self, fk: Func) -> bool {
        &&& self.guard_id matches Some(g)
        &&& fk.kind matches FuncKind::Local(lf) && fn_guard_placement(
            mapped_bodies(lf.seqs@, self.fn_mapping@),
            g,
        ) matches Some(GuardPlacement::Incorrect(_))
    }

    /// Returns the id of the synthesized *get* function, if one was installed.
    pub fn get_ref_id(&self) -> (r: Option<usize>)
        ensures
            r == self.get_ref_id,
    {
        self.get_ref_id
    }

    /// Removes all guard calls from `lf` and classifies it. The function is
    /// guarded when a guard call stood at an accepted entry position, and
    /// unguarded when it held no guard call; a guard call anywhere else is an
    /// error naming the function and the guard's bytecode offset.
    fn remove_guards(guard_id: usize, name: &Option<String>, lf: &mut LocalFunction) -> (r: Result<bool, Error>)
        ensures
            final(lf).ty == old(lf).ty,
            final(lf).args == old(lf).args,
            final(lf).seqs@.len() == old(lf).seqs@.len(),
            forall|s: int|
                0 <= s < old(lf).seqs@.len() ==> (#[trigger] final(lf).seqs@[s]).ty == old(
                    lf,
                ).seqs@[s].ty && final(lf).seqs@[s].instrs@ == strip_guards(
                    old(lf).seqs@[s].instrs@,
                    guard_id,
                ),
            match r {
                Ok(guarded) => {
                    &&& !(fn_guard_placement(instr_lists(old(lf).seqs@), guard_id) matches Some(
                        GuardPlacement::Incorrect(_),
                    ))
                    &&& guarded == (fn_guard_placement(instr_lists(old(lf).seqs@), guard_id)
                        == Some(GuardPlacement::Correct))
                },
                Err(e) => fn_guard_placement(instr_lists(old(lf).seqs@), guard_id) matches Some(
                    GuardPlacement::Incorrect(off),
                ) && (e matches Error::IncorrectGuard { function_name, code_offset }
                    && code_offset == off && opt_name_eq(function_name, *name)),
            },
    {
        let n = lf.seqs.len();
        let mut placement: Option<GuardPlacement> = None;
        let mut s: usize = 0;
        while s < n
            invariant
                0 <= s <= n,
                n == lf.seqs@.len(),
                n == old(lf).seqs@.len(),
                lf.ty == old(lf).ty,
                lf.args == old(lf).args,
                forall|j: int| s <= j < n ==> #[trigger] lf.seqs@[j] == old(lf).seqs@[j],
                forall|j: int|
                    0 <= j < s ==> (#[trigger] lf.seqs@[j]).ty == old(lf).seqs@[j].ty
                        && lf.seqs@[j].instrs@ == strip_guards(old(lf).seqs@[j].instrs@, guard_id),
                placement == fn_placement_upto(instr_lists(old(lf).seqs@), s as int, guard_id),
            decreases n - s,
        {
            let mut tmp: Vec<LocatedInstr> = Vec::new();
            core::mem::swap(&mut lf.seqs[s].instrs, &mut tmp);
            let (stripped, pl) = strip_guards_in_instrs(tmp, s == 0, guard_id);
            lf.seqs[s].instrs = stripped;
            proof {
                assert(instr_lists(old(lf).seqs@)[s as int] == old(lf).seqs@[s as int].instrs@);
            }
            placement = placement_max_exec(placement, pl);
            s = s + 1;
        }
        match placement {
            None => Ok(false),
            Some(GuardPlacement::Correct) => Ok(true),
            Some(GuardPlacement::Incorrect(off)) => Err(Error::IncorrectGuard {
                function_name: clone_opt_name(name),
                code_offset: off,
            }),
        }
    }

    /// Redirects every call of a replaced placeholder in every defined
    /// function, removes guard calls, and classifies each function as guarded
    /// or not. Returns the (saturating) number of redirected calls and the
    /// per-function classification, or the misplaced-guard error of the
    /// lowest-numbered offending function.
    #[verifier::rlimit(100)]
    pub fn replace_calls(&self, module: &mut Module) -> (r: Result<(usize, Vec<bool>), Error>)
        requires
            old(module).wf(),
            forall|f: usize| #[trigger] mapping_of(self.fn_mapping@, f) matches Some(nf) ==> nf < old(
                module,
            ).funcs@.len(),
        ensures
            final(module).wf(),
            final(module).types == old(module).types,
            final(module).locals == old(module).locals,
            final(module).tables == old(module).tables,
            final(module).imports == old(module).imports,
            final(module).exports == old(module).exports,
            final(module).custom_section == old(module).custom_section,
            final(module).funcs@.len() == old(module).funcs@.len(),
            forall|f: int|
                0 <= f < old(module).funcs@.len() ==> (#[trigger] final(module).funcs@[f]).name
                    == old(module).funcs@[f].name,
            r is Ok <==> (forall|f: int|
                0 <= f < old(module).funcs@.len() ==> !self.fn_has_misplaced_guard(
                    #[trigger] old(module).funcs@[f],
                )),
            match r {
                Ok(res) => {
                    &&& res.1@.len() == old(module).funcs@.len()
                    &&& forall|f: int|
                        0 <= f < old(module).funcs@.len() ==> self.fn_rewritten(
                            #[trigger] old(module).funcs@[f],
                            final(module).funcs@[f],
                            res.1@[f],
                        )
                    &&& res.0 == add_mapped_count_funcs(
                        0,
                        old(module).funcs@,
                        old(module).funcs@.len() as int,
                        self.fn_mapping@,
                    )
                },
                Err(e) => exists|f: int|
                    #![trigger old(module).funcs@[f]]
                    {
                        &&& 0 <= f < old(module).funcs@.len()
                        &&& self.fn_has_misplaced_guard(old(module).funcs@[f])
                        &&& self.guard_id matches Some(g) && (old(
                            module,
                        ).funcs@[f].kind matches FuncKind::Local(lf) && (fn_guard_placement(
                            mapped_bodies(lf.seqs@, self.fn_mapping@),
                            g,
                        ) matches Some(GuardPlacement::Incorrect(off)) && (
                        e matches Error::IncorrectGuard { function_name, code_offset }
                            && code_offset == off && opt_name_eq(
                            function_name,
                            old(module).funcs@[f].name,
                        ))))
                        &&& forall|f2: int|
                            0 <= f2 < f ==> !self.fn_has_misplaced_guard(
                                #[trigger] old(module).funcs@[f2],
                            )
                    },
            },
    {
        let ghost m0 = *module;
        let n_funcs = module.funcs.len();
        let mut guarded: Vec<bool> = vec![false; n_funcs];
        let mut count: usize = 0;
        let mut f: usize = 0;
        while f < n_funcs
            invariant
                m0 == *old(module),
                0 <= f <= n_funcs,
                n_funcs == module.funcs@.len(),
                n_funcs == m0.funcs@.len(),
                module.wf(),
                module.types == m0.types,
                module.locals == m0.locals,
                module.tables == m0.tables,
                module.imports == m0.imports,
                module.exports == m0.exports,
                module.custom_section == m0.custom_section,
                forall|f2: usize| #[trigger] mapping_of(self.fn_mapping@, f2) matches Some(nf2)
                    ==> nf2 < m0.funcs@.len(),
                forall|j: int| f <= j < n_funcs ==> #[trigger] module.funcs@[j] == m0.funcs@[j],
                forall|j: int|
                    0 <= j < n_funcs ==> (#[trigger] module.funcs@[j]).name == m0.funcs@[j].name,
                guarded@.len() == n_funcs,
                forall|j: int| f <= j < n_funcs ==> #[trigger] guarded@[j] == false,
                forall|j: int|
                    0 <= j < f ==> self.fn_rewritten(
                        #[trigger] m0.funcs@[j],
                        module.funcs@[j],
                        guarded@[j],
                    ),
                forall|j: int| 0 <= j < f ==> !self.fn_has_misplaced_guard(#[trigger] m0.funcs@[j]),
                count == add_mapped_count_funcs(0, m0.funcs@, f as int, self.fn_mapping@),
            decreases n_funcs - f,
        {
            let mut kind = FuncKind::Deleted;
            core::mem::swap(&mut module.funcs[f].kind, &mut kind);
            match kind {
                FuncKind::Local(mut lf) => {
                    let ghost lf0 = lf;
                    count = map_calls_in_fn(&mut lf, &self.fn_mapping, count);
                    let ghost lf_mapped = lf;
                    let mut is_guarded = false;
                    let mut failure: Option<Error> = None;
                    if let Some(guard_id) = self.guard_id {
                        proof {
                            assert forall|s: int| 0 <= s < lf_mapped.seqs@.len() implies #[trigger] instr_lists(
                                lf_mapped.seqs@,
                            )[s] == mapped_bodies(lf0.seqs@, self.fn_mapping@)[s] by {
                                assert(instr_lists(lf_mapped.seqs@)[s] == lf_mapped.seqs@[s].instrs@);
                                assert(mapped_bodies(lf0.seqs@, self.fn_mapping@)[s]
                                    == map_calls_in_seq(lf0.seqs@[s].instrs@, self.fn_mapping@));
                            }
                            assert(instr_lists(lf_mapped.seqs@) =~= mapped_bodies(
                                lf0.seqs@,
                                self.fn_mapping@,
                            ));
                        }
                        match Self::remove_guards(guard_id, &module.funcs[f].name, &mut lf) {
                            Ok(g) => {
                                is_guarded = g;
                            },
                            Err(e) => {
                                failure = Some(e);
                            },
                        }
                    }
                    proof {
                        assert forall|s: int|
                            0 <= s < lf0.seqs@.len() implies {
                            &&& (#[trigger] lf.seqs@[s]).ty == lf0.seqs@[s].ty
                            &&& lf.seqs@[s].instrs@ == processed_seq(
                                lf0.seqs@[s].instrs@,
                                self.fn_mapping@,
                                self.guard_id,
                            )
                            &&& forall|k: int|
                                0 <= k < lf.seqs@[s].instrs@.len() ==> instr_wf(
                                    #[trigger] lf.seqs@[s].instrs@[k].instr,
                                    s,
                                    lf.seqs@.len() as int,
                                    module.locals@.len() as int,
                                    module.funcs@.len() as int,
                                )
                        } by {
                            assert(lf0.wf(
                                m0.types@.len() as int,
                                m0.locals@.len() as int,
                                m0.funcs@.len() as int,
                            ));
                            lemma_map_calls_wf(
                                lf0.seqs@[s].instrs@,
                                self.fn_mapping@,
                                s,
                                lf0.seqs@.len() as int,
                                m0.locals@.len() as int,
                                m0.funcs@.len() as int,
                            );
                            if let Some(g) = self.guard_id {
                                lemma_strip_guards_wf(
                                    map_calls_in_seq(lf0.seqs@[s].instrs@, self.fn_mapping@),
                                    g,
                                    s,
                                    lf0.seqs@.len() as int,
                                    m0.locals@.len() as int,
                                    m0.funcs@.len() as int,
                                );
                            }
                        }
                    }
                    module.funcs[f].kind = FuncKind::Local(lf);
                    if let Some(e) = failure {
                        return Err(e);
                    }
                    guarded[f] = is_guarded;
                },
                other => {
                    module.funcs[f].kind = other;
                },
            }
            f = f + 1;
        }
        Ok((count, guarded))
    }
}

} // verus!

verus! {

proof fn lemma_placement_le_refl(a: Option<GuardPlacement>)
    ensures
        placement_le(a, a),
{
}

proof fn lemma_placement_le_total(a: Option<GuardPlacement>, b: Option<GuardPlacement>)
    ensures
        placement_le(a, b) || placement_le(b, a),
{
}

proof fn lemma_placement_le_trans(a: Option<GuardPlacement>, b: Option<GuardPlacement>, c: Option<GuardPlacement>)
    requires
        placement_le(a, b),
        placement_le(b, c),
    ensures
        placement_le(a, c),
{
}

proof fn lemma_seq_placement_bound(instrs: Seq<LocatedInstr>, n: int, is_entry: bool, guard: usize, j: int)
    requires
        0 <= j < n,
    ensures
        placement_le(
            instr_placement(instrs, j, is_entry, guard),
            seq_placement_upto(instrs, n, is_entry, guard),
        ),
    decreases n,
{
    let prev = seq_placement_upto(instrs, n - 1, is_entry, guard);
    let here = instr_placement(instrs, n - 1, is_entry, guard);
    lemma_placement_le_total(prev, here);
    if j < n - 1 {
        lemma_seq_placement_bound(instrs, n - 1, is_entry, guard, j);
        if placement_le(prev, here) {
            lemma_placement_le_trans(instr_placement(instrs, j, is_entry, guard), prev, here);
        }
    } else {
        lemma_placement_le_refl(here);
    }
}

proof fn lemma_fn_placement_bound(bodies: Seq<Seq<LocatedInstr>>, n: int, guard: usize, s: int)
    requires
        0 <= s < n,
    ensures
        placement_le(
            seq_placement_upto(bodies[s], bodies[s].len() as int, s == 0, guard),
            fn_placement_upto(bodies, n, guard),
        ),
    decreases n,
{
    let prev = fn_placement_upto(bodies, n - 1, guard);
    let here = seq_placement_upto(bodies[n - 1], bodies[n - 1].len() as int, n - 1 == 0, guard);
    lemma_placement_le_total(prev, here);
    if s < n - 1 {
        lemma_fn_placement_bound(bodies, n - 1, guard, s);
        if placement_le(prev, here) {
            lemma_placement_le_trans(
                seq_placement_upto(bodies[s], bodies[s].len() as int, s == 0, guard),
                prev,
                here,
            );
        }
    } else {
        lemma_placement_le_refl(here);
    }
}

proof fn lemma_seq_placement_no_incorrect(instrs: Seq<LocatedInstr>, n: int, is_entry: bool, guard: usize)
    requires
        forall|k: int| #![trigger instrs[k]]
            0 <= k < n ==> !(instr_placement(instrs, k, is_entry, guard) matches Some(
                GuardPlacement::Incorrect(_),
            )),
    ensures
        !(seq_placement_upto(instrs, n, is_entry, guard) matches Some(GuardPlacement::Incorrect(_))),
    decreases n,
{
    if n > 0 {
        lemma_seq_placement_no_incorrect(instrs, n - 1, is_entry, guard);
    }
}

/// Law: a guard call at the head of the entry sequence — directly, or right
/// after a shadow-stack pointer adjustment — makes the function guarded,
/// provided no other guard call of the body is misplaced.
pub proof fn lemma_entry_guard_classifies_guarded(bodies: Seq<Seq<LocatedInstr>>, guard: usize)
    requires
        bodies.len() > 0,
        ({
            ||| (bodies[0].len() > 0 && is_guard_call(bodies[0][0].instr, guard))
            ||| (bodies[0].len() > 1 && bodies[0][0].instr is GlobalSet && is_guard_call(
                bodies[0][1].instr,
                guard,
            ))
        }),
        forall|s: int, k: int| #![trigger bodies[s][k]]
            0 <= s < bodies.len() && 0 <= k < bodies[s].len() ==> !(instr_placement(
                bodies[s],
                k,
                s == 0,
                guard,
            ) matches Some(GuardPlacement::Incorrect(_))),
    ensures
        fn_guard_placement(bodies, guard) == Some(GuardPlacement::Correct),
{
    let n = bodies.len() as int;
    // Some guard call of the entry sequence contributes `Correct`.
    let k = if bodies[0].len() > 0 && is_guard_call(bodies[0][0].instr, guard) {
        0int
    } else {
        1int
    };
    assert(instr_placement(bodies[0], k, true, guard) == Some(GuardPlacement::Correct));
    lemma_seq_placement_bound(bodies[0], bodies[0].len() as int, true, guard, k);
    lemma_fn_placement_bound(bodies, n, guard, 0);
    lemma_placement_le_trans(
        Some(GuardPlacement::Correct),
        seq_placement_upto(bodies[0], bodies[0].len() as int, true, guard),
        fn_placement_upto(bodies, n, guard),
    );
    // And no sequence contributes `Incorrect`.
    lemma_fn_placement_no_incorrect(bodies, n, guard);
}

proof fn lemma_fn_placement_no_incorrect(bodies: Seq<Seq<LocatedInstr>>, n: int, guard: usize)
    requires
        forall|s: int, k: int| #![trigger bodies[s][k]]
            0 <= s < bodies.len() && 0 <= k < bodies[s].len() ==> !(instr_placement(
                bodies[s],
                k,
                s == 0,
                guard,
            ) matches Some(GuardPlacement::Incorrect(_))),
        n <= bodies.len(),
    ensures
        !(fn_placement_upto(bodies, n, guard) matches Some(GuardPlacement::Incorrect(_))),
    decreases n,
{
    if n > 0 {
        lemma_fn_placement_no_incorrect(bodies, n - 1, guard);
        lemma_seq_placement_no_incorrect(bodies[n - 1], bodies[n - 1].len() as int, n - 1 == 0, guard);
    }
}

/// Law: a guard call anywhere but at an accepted entry position makes the
/// whole function's guard placement incorrect, whatever else the body holds.
pub proof fn lemma_misplaced_guard_rejects(bodies: Seq<Seq<LocatedInstr>>, guard: usize, s: int, k: int)
    requires
        0 <= s < bodies.len(),
        0 <= k < bodies[s].len(),
        is_guard_call(bodies[s][k].instr, guard),
        !(s == 0 && (k == 0 || bodies[0][k - 1].instr is GlobalSet)),
    ensures
        fn_guard_placement(bodies, guard) matches Some(GuardPlacement::Incorrect(_)),
{
    assert(instr_placement(bodies[s], k, s == 0, guard) matches Some(GuardPlacement::Incorrect(_)));
    lemma_seq_placement_bound(bodies[s], bodies[s].len() as int, s == 0, guard, k);
    lemma_fn_placement_bound(bodies, bodies.len() as int, guard, s);
    lemma_placement_le_trans(
        instr_placement(bodies[s], k, s == 0, guard),
        seq_placement_upto(bodies[s], bodies[s].len() as int, s == 0, guard),
        fn_placement_upto(bodies, bodies.len() as int, guard),
    );
}

} // verus!
