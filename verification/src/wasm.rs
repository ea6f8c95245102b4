//! Plain-value model of the parts of a Wasm module that the processor
//! rewrites.
//!
//! The model keeps exactly what the rewrite reads and mutates: the type pool,
//! the function pool with instruction bodies, the local pool, tables, imports,
//! exports and the catalog custom section. Instructions the rewrite never
//! inspects are carried through as opaque [`Instr::Other`] tokens; an embedder
//! that translates a concrete module into this model keeps the real
//! instructions on the side, keyed by those tokens.
//!
//! Instruction sequences of a function form an arena indexed by sequence id.
//! Sequence `0` is the entry sequence, and a structural child (the body of a
//! `block`, `loop` or `if`/`else`) always has a greater id than the sequence
//! holding it, so a traversal that descends into children terminates.

use vstd::prelude::*;

verus! {

/// A Wasm value type.
#[derive(Debug, Clone, Copy, PartialEq, Eq, Structural)]
pub enum ValType {
    /// A 32-bit integer: the surrogate type the catalog marks for retyping.
    I32,
    /// A 64-bit integer.
    I64,
    /// A 32-bit floating-point number.
    F32,
    /// A 64-bit floating-point number.
    F64,
    /// A 128-bit vector.
    V128,
    /// An opaque host reference.
    Externref,
    /// A function reference.
    Funcref,
}

/// A function type: parameter and result value types.
#[derive(Debug)]
pub struct FuncType {
    /// The parameter types.
    pub params: Vec<ValType>,
    /// The result types.
    pub results: Vec<ValType>,
}

/// The binary operators the synthesized functions use.
#[derive(Debug, Clone, Copy, PartialEq, Eq, Structural)]
pub enum BinaryOp {
    /// 32-bit integer subtraction.
    I32Sub,
    /// 32-bit integer equality.
    I32Eq,
}

/// One instruction, as far as the rewrite inspects it.
#[derive(Debug, Clone)]
pub enum Instr {
    /// A `block` whose body is the child sequence `seq`.
    Block {
        /// The child sequence id.
        seq: usize,
    },
    /// A `loop` whose body is the child sequence `seq`.
    Loop {
        /// The child sequence id.
        seq: usize,
    },
    /// An `if`/`else` over two child sequences.
    IfElse {
        /// The sequence taken on a non-zero condition.
        consequent: usize,
        /// The sequence taken on a zero condition.
        alternative: usize,
    },
    /// An unconditional branch to the end of the sequence `block`.
    Br {
        /// The target sequence id.
        block: usize,
    },
    /// A conditional branch to the end of the sequence `block`.
    BrIf {
        /// The target sequence id.
        block: usize,
    },
    /// A branch table over sequence targets.
    BrTable {
        /// The branch targets.
        blocks: Vec<usize>,
        /// The default target.
        default: usize,
    },
    /// A call of the function `func`.
    Call {
        /// The callee's function id.
        func: usize,
    },
    /// `local.get`.
    LocalGet {
        /// The local read.
        local: usize,
    },
    /// `local.set`.
    LocalSet {
        /// The local written.
        local: usize,
    },
    /// `local.tee`.
    LocalTee {
        /// The local written.
        local: usize,
    },
    /// `global.set`; the shadow-stack pointer adjustment the guard verifier
    /// tolerates before a guard call.
    GlobalSet {
        /// The global written.
        global: usize,
    },
    /// A 32-bit integer constant.
    I32Const {
        /// The constant value.
        value: i32,
    },
    /// A binary operator.
    Binop {
        /// The operator.
        op: BinaryOp,
    },
    /// `ref.null`.
    RefNull {
        /// The reference type of the null value.
        ty: ValType,
    },
    /// `ref.is_null`.
    RefIsNull,
    /// `table.get`.
    TableGet {
        /// The table read.
        table: usize,
    },
    /// `table.set`.
    TableSet {
        /// The table written.
        table: usize,
    },
    /// `table.size`.
    TableSize {
        /// The table measured.
        table: usize,
    },
    /// `table.grow`.
    TableGrow {
        /// The table grown.
        table: usize,
    },
    /// `return`.
    Return,
    /// `unreachable`.
    Unreachable,
    /// Any instruction the rewrite does not inspect; the embedder keeps the
    /// real instruction on the side, keyed by the token.
    Other {
        /// The embedder's key for the carried instruction.
        token: usize,
    },
}

/// An instruction together with its bytecode offset in the source module, when
/// one is known.
#[derive(Debug, Clone)]
pub struct LocatedInstr {
    /// The instruction.
    pub instr: Instr,
    /// Its offset in the module's code section, if known.
    pub offset: Option<u32>,
}

/// One instruction sequence of a function body.
#[derive(Debug, Clone)]
pub struct InstrSeq {
    /// The sequence's result type, if it has one.
    pub ty: Option<ValType>,
    /// The instructions, in textual order.
    pub instrs: Vec<LocatedInstr>,
}

/// A function defined inside the module.
#[derive(Debug)]
pub struct LocalFunction {
    /// Index of the function's type in [`Module::types`].
    pub ty: usize,
    /// The locals bound to the parameters, in order.
    pub args: Vec<usize>,
    /// The body's instruction sequences; sequence `0` is the entry sequence.
    pub seqs: Vec<InstrSeq>,
}

/// What a function pool entry is.
#[derive(Debug)]
pub enum FuncKind {
    /// An imported function of the type with the given index.
    Import {
        /// Index of the function's type in [`Module::types`].
        ty: usize,
    },
    /// A function defined in the module.
    Local(LocalFunction),
    /// A deleted entry; its id stays allocated and is never called.
    Deleted,
}

/// A function pool entry.
#[derive(Debug)]
pub struct Func {
    /// The function's name, if the module names it.
    pub name: Option<String>,
    /// What the entry is.
    pub kind: FuncKind,
}

/// What an import provides.
#[derive(Debug)]
pub enum ImportKind {
    /// A function import.
    Function {
        /// The imported function's id in the function pool.
        func: usize,
    },
    /// A table import.
    Table {
        /// The imported table's id.
        table: usize,
    },
    /// Any other import kind (memory, global).
    Other,
}

/// An entry of the import pool.
#[derive(Debug)]
pub struct Import {
    /// The module the import comes from.
    pub module: String,
    /// The import's name within that module.
    pub name: String,
    /// What the import provides.
    pub kind: ImportKind,
}

/// What an export refers to.
#[derive(Debug)]
pub enum ExportItem {
    /// An exported function.
    Function {
        /// The exported function's id.
        func: usize,
    },
    /// An exported table.
    Table {
        /// The exported table's id.
        table: usize,
    },
    /// Any other export kind (memory, global).
    Other,
}

/// An entry of the export pool.
#[derive(Debug)]
pub struct Export {
    /// The name the item is exported under.
    pub name: String,
    /// The exported item.
    pub item: ExportItem,
}

/// A table declared in the module.
#[derive(Debug)]
pub struct TableDecl {
    /// The initial size.
    pub initial: u64,
    /// The maximum size, if the table is constrained.
    pub maximum: Option<u64>,
    /// The element type.
    pub element_ty: ValType,
}

/// The model of a Wasm module.
#[derive(Debug)]
pub struct Module {
    /// The type pool.
    pub types: Vec<FuncType>,
    /// The function pool; ids are indices and stay stable.
    pub funcs: Vec<Func>,
    /// The local pool, shared by all functions; ids are indices.
    pub locals: Vec<ValType>,
    /// The table pool.
    pub tables: Vec<TableDecl>,
    /// The import pool.
    pub imports: Vec<Import>,
    /// The export pool.
    pub exports: Vec<Export>,
    /// The raw bytes of the reserved catalog custom section, if present.
    pub custom_section: Option<Vec<u8>>,
}

/// Well-formedness of one instruction at position inside sequence `sid`:
/// structural children have greater ids, and every id it names exists.
pub open spec fn instr_wf(i: Instr, sid: int, n_seqs: int, n_locals: int, n_funcs: int) -> bool {
    match i {
        Instr::Block { seq } => sid < seq < n_seqs,
        Instr::Loop { seq } => sid < seq < n_seqs,
        Instr::IfElse { consequent, alternative } => sid < consequent < n_seqs && sid < alternative
            < n_seqs,
        Instr::Br { block } => block < n_seqs,
        Instr::BrIf { block } => block < n_seqs,
        Instr::BrTable { blocks, default } => default < n_seqs && forall|k: int|
            0 <= k < blocks@.len() ==> blocks@[k] < n_seqs,
        Instr::Call { func } => func < n_funcs,
        Instr::LocalGet { local } => local < n_locals,
        Instr::LocalSet { local } => local < n_locals,
        Instr::LocalTee { local } => local < n_locals,
        _ => true,
    }
}

/// Well-formedness of a body's sequences with respect to the given pools.
pub open spec fn seqs_wf(seqs: Seq<InstrSeq>, n_locals: int, n_funcs: int) -> bool {
    forall|sid: int, k: int|
        0 <= sid < seqs.len() && 0 <= k < seqs[sid].instrs@.len() ==> instr_wf(
            #[trigger] seqs[sid].instrs@[k].instr,
            sid,
            seqs.len() as int,
            n_locals,
            n_funcs,
        )
}

impl LocalFunction {
    /// Well-formedness with respect to the given pools.
    pub open spec fn wf(&self, n_types: int, n_locals: int, n_funcs: int) -> bool {
        &&& self.ty < n_types
        &&& self.seqs@.len() >= 1
        &&& forall|a: int| 0 <= a < self.args@.len() ==> #[trigger] self.args@[a] < n_locals
        &&& seqs_wf(self.seqs@, n_locals, n_funcs)
    }
}

impl Func {
    /// Well-formedness with respect to the given pools.
    pub open spec fn wf(&self, n_types: int, n_locals: int, n_funcs: int) -> bool {
        match self.kind {
            FuncKind::Import { ty } => ty < n_types,
            FuncKind::Local(lf) => lf.wf(n_types, n_locals, n_funcs),
            FuncKind::Deleted => true,
        }
    }
}

/// Whether an import entry only names pool entries that exist.
pub open spec fn import_valid(imp: Import, n_funcs: int, n_tables: int) -> bool {
    match imp.kind {
        ImportKind::Function { func } => func < n_funcs,
        ImportKind::Table { table } => table < n_tables,
        ImportKind::Other => true,
    }
}

/// Whether an export entry only names pool entries that exist.
pub open spec fn export_valid(e: Export, n_funcs: int, n_tables: int) -> bool {
    match e.item {
        ExportItem::Function { func } => func < n_funcs,
        ExportItem::Table { table } => table < n_tables,
        ExportItem::Other => true,
    }
}

impl Module {
    /// Every id any pool entry names refers to an entry of the named pool, and
    /// structural children of instruction sequences have greater ids.
    pub open spec fn wf(&self) -> bool {
        &&& forall|f: int| 0 <= f < self.funcs@.len() ==> (#[trigger] self.funcs@[f]).wf(
            self.types@.len() as int,
            self.locals@.len() as int,
            self.funcs@.len() as int,
        )
        &&& forall|i: int| 0 <= i < self.imports@.len() ==> import_valid(
            #[trigger] self.imports@[i],
            self.funcs@.len() as int,
            self.tables@.len() as int,
        )
        &&& forall|e: int| 0 <= e < self.exports@.len() ==> export_valid(
            #[trigger] self.exports@[e],
            self.funcs@.len() as int,
            self.tables@.len() as int,
        )
    }
}

/// The type, local and table pools of `m0` are preserved as prefixes in `m1`,
/// and the function pool does not shrink.
pub open spec fn module_extended(m0: Module, m1: Module) -> bool {
    &&& m0.types@.len() <= m1.types@.len()
    &&& forall|i: int| 0 <= i < m0.types@.len() ==> #[trigger] m1.types@[i] == m0.types@[i]
    &&& m0.locals@.len() <= m1.locals@.len()
    &&& forall|i: int| 0 <= i < m0.locals@.len() ==> #[trigger] m1.locals@[i] == m0.locals@[i]
    &&& m0.funcs@.len() <= m1.funcs@.len()
    &&& m0.tables@.len() <= m1.tables@.len()
    &&& forall|i: int| 0 <= i < m0.tables@.len() ==> #[trigger] m1.tables@[i] == m0.tables@[i]
}

/// `module_extended` is reflexive and transitive.
pub proof fn lemma_module_extended_trans(m0: Module, m1: Module, m2: Module)
    requires
        module_extended(m0, m1),
        module_extended(m1, m2),
    ensures
        module_extended(m0, m2),
{
}

/// Checks one instruction's well-formedness at run time.
fn check_instr(i: &Instr, sid: usize, n_seqs: usize, n_locals: usize, n_funcs: usize) -> (r: bool)
    ensures
        r == instr_wf(*i, sid as int, n_seqs as int, n_locals as int, n_funcs as int),
{
    match i {
        Instr::Block { seq } => {
            let child = *seq;
            sid < child && child < n_seqs
        },
        Instr::Loop { seq } => {
            let child = *seq;
            sid < child && child < n_seqs
        },
        Instr::IfElse { consequent, alternative } => {
            let c = *consequent;
            let a = *alternative;
            sid < c && c < n_seqs && sid < a && a < n_seqs
        },
        Instr::Br { block } => *block < n_seqs,
        Instr::BrIf { block } => *block < n_seqs,
        Instr::BrTable { blocks, default } => {
            if *default >= n_seqs {
                return false;
            }
            let n = blocks.len();
            let mut k: usize = 0;
            while k < n
                invariant
                    0 <= k <= n,
                    n == blocks@.len(),
                    ((*i) matches Instr::BrTable { blocks: bs2, default: d2 } && bs2@ == blocks@
                        && d2 < n_seqs),
                    forall|j: int| 0 <= j < k ==> #[trigger] blocks@[j] < n_seqs,
                decreases n - k,
            {
                if blocks[k] >= n_seqs {
                    return false;
                }
                k = k + 1;
            }
            true
        },
        Instr::Call { func } => *func < n_funcs,
        Instr::LocalGet { local } => *local < n_locals,
        Instr::LocalSet { local } => *local < n_locals,
        Instr::LocalTee { local } => *local < n_locals,
        _ => true,
    }
}

/// Checks a body's well-formedness at run time.
fn check_seqs(seqs: &Vec<InstrSeq>, n_locals: usize, n_funcs: usize) -> (r: bool)
    ensures
        r == seqs_wf(seqs@, n_locals as int, n_funcs as int),
{
    let n_seqs = seqs.len();
    let mut s: usize = 0;
    while s < n_seqs
        invariant
            0 <= s <= n_seqs,
            n_seqs == seqs@.len(),
            forall|s2: int, k: int|
                0 <= s2 < s && 0 <= k < seqs@[s2].instrs@.len() ==> instr_wf(
                    #[trigger] seqs@[s2].instrs@[k].instr,
                    s2,
                    seqs@.len() as int,
                    n_locals as int,
                    n_funcs as int,
                ),
        decreases n_seqs - s,
    {
        let m = seqs[s].instrs.len();
        let mut k: usize = 0;
        while k < m
            invariant
                0 <= k <= m,
                0 <= s < n_seqs,
                n_seqs == seqs@.len(),
                m == seqs@[s as int].instrs@.len(),
                forall|j: int|
                    0 <= j < k ==> instr_wf(
                        #[trigger] seqs@[s as int].instrs@[j].instr,
                        s as int,
                        seqs@.len() as int,
                        n_locals as int,
                        n_funcs as int,
                    ),
            decreases m - k,
        {
            if !check_instr(&seqs[s].instrs[k].instr, s, n_seqs, n_locals, n_funcs) {
                return false;
            }
            k = k + 1;
        }
        s = s + 1;
    }
    true
}

impl Module {
    /// Checks well-formedness at run time: every id any pool entry names
    /// refers to an entry of the named pool, and structural children of
    /// instruction sequences have greater ids. An embedder that builds a
    /// model by hand can validate it before processing.
    #[verifier::rlimit(50)]
    pub fn check_wf(&self) -> (r: bool)
        ensures
            r == self.wf(),
    {
        let n_types = self.types.len();
        let n_locals = self.locals.len();
        let n_funcs = self.funcs.len();
        let n_tables = self.tables.len();
        let mut f: usize = 0;
        while f < n_funcs
            invariant
                0 <= f <= n_funcs,
                n_types == self.types@.len(),
                n_locals == self.locals@.len(),
                n_funcs == self.funcs@.len(),
                n_tables == self.tables@.len(),
                forall|g: int|
                    0 <= g < f ==> (#[trigger] self.funcs@[g]).wf(
                        n_types as int,
                        n_locals as int,
                        n_funcs as int,
                    ),
            decreases n_funcs - f,
        {
            match &self.funcs[f].kind {
                FuncKind::Import { ty } => {
                    if *ty >= n_types {
                        return false;
                    }
                },
                FuncKind::Local(lf) => {
                    if lf.ty >= n_types || lf.seqs.len() == 0 {
                        return false;
                    }
                    let n_args = lf.args.len();
                    let mut a: usize = 0;
                    while a < n_args
                        invariant
                            0 <= a <= n_args,
                            0 <= f < n_funcs,
                            n_funcs == self.funcs@.len(),
                            n_args == lf.args@.len(),
                            n_locals == self.locals@.len(),
                            self.funcs@[f as int].kind == FuncKind::Local(*lf),
                            forall|j: int| 0 <= j < a ==> #[trigger] lf.args@[j] < n_locals,
                        decreases n_args - a,
                    {
                        if lf.args[a] >= n_locals {
                            return false;
                        }
                        a = a + 1;
                    }
                    if !check_seqs(&lf.seqs, n_locals, n_funcs) {
                        return false;
                    }
                },
                FuncKind::Deleted => {},
            }
            f = f + 1;
        }
        let n_imports = self.imports.len();
        let mut i: usize = 0;
        while i < n_imports
            invariant
                0 <= i <= n_imports,
                n_imports == self.imports@.len(),
                n_funcs == self.funcs@.len(),
                n_tables == self.tables@.len(),
                forall|j: int|
                    0 <= j < i ==> import_valid(
                        #[trigger] self.imports@[j],
                        n_funcs as int,
                        n_tables as int,
                    ),
            decreases n_imports - i,
        {
            match &self.imports[i].kind {
                ImportKind::Function { func } => {
                    if *func >= n_funcs {
                        return false;
                    }
                },
                ImportKind::Table { table } => {
                    if *table >= n_tables {
                        return false;
                    }
                },
                ImportKind::Other => {},
            }
            i = i + 1;
        }
        let n_exports = self.exports.len();
        let mut e: usize = 0;
        while e < n_exports
            invariant
                0 <= e <= n_exports,
                n_exports == self.exports@.len(),
                n_funcs == self.funcs@.len(),
                n_tables == self.tables@.len(),
                forall|j: int|
                    0 <= j < e ==> export_valid(
                        #[trigger] self.exports@[j],
                        n_funcs as int,
                        n_tables as int,
                    ),
            decreases n_exports - e,
        {
            match &self.exports[e].item {
                ExportItem::Function { func } => {
                    if *func >= n_funcs {
                        return false;
                    }
                },
                ExportItem::Table { table } => {
                    if *table >= n_tables {
                        return false;
                    }
                },
                ExportItem::Other => {},
            }
            e = e + 1;
        }
        true
    }
}

/// Incremental builder for a function body that is well-formed by
/// construction: every pushed instruction is checked against the pool bounds,
/// and a structural child sequence exists — with a greater id — before the
/// instruction naming it is pushed.
#[derive(Debug)]
pub struct BodyBuilder {
    /// The sequences built so far; sequence `0` is the entry sequence.
    pub seqs: Vec<InstrSeq>,
    /// Bound on local ids the body may name.
    pub n_locals: usize,
    /// Bound on function ids the body may name.
    pub n_funcs: usize,
}

impl BodyBuilder {
    /// The built sequences are well-formed for the recorded pool bounds.
    pub open spec fn wf(&self) -> bool {
        seqs_wf(self.seqs@, self.n_locals as int, self.n_funcs as int)
    }

    /// Starts a body with an empty entry sequence of type `entry_ty`.
    pub fn new(entry_ty: Option<ValType>, n_locals: usize, n_funcs: usize) -> (b: BodyBuilder)
        ensures
            b.wf(),
            b.seqs@.len() == 1,
            b.seqs@[0].ty == entry_ty,
            b.seqs@[0].instrs@ == Seq::<LocatedInstr>::empty(),
            b.n_locals == n_locals,
            b.n_funcs == n_funcs,
    {
        let mut seqs: Vec<InstrSeq> = Vec::new();
        seqs.push(InstrSeq { ty: entry_ty, instrs: Vec::new() });
        BodyBuilder { seqs, n_locals, n_funcs }
    }

    /// Allocates a fresh, empty sequence of type `ty` and returns its id.
    pub fn new_seq(&mut self, ty: Option<ValType>) -> (sid: usize)
        requires
            old(self).wf(),
        ensures
            final(self).wf(),
            sid == old(self).seqs@.len(),
            final(self).seqs@.len() == old(self).seqs@.len() + 1,
            forall|s: int| 0 <= s < old(self).seqs@.len() ==> final(self).seqs@[s] == old(self).seqs@[s],
            final(self).seqs@[sid as int].ty == ty,
            final(self).seqs@[sid as int].instrs@ == Seq::<LocatedInstr>::empty(),
            final(self).n_locals == old(self).n_locals,
            final(self).n_funcs == old(self).n_funcs,
    {
        let sid = self.seqs.len();
        self.seqs.push(InstrSeq { ty, instrs: Vec::new() });
        proof {
            assert forall|s: int, k: int|
                0 <= s < self.seqs@.len() && 0 <= k < self.seqs@[s].instrs@.len() implies instr_wf(
                #[trigger] self.seqs@[s].instrs@[k].instr,
                s,
                self.seqs@.len() as int,
                self.n_locals as int,
                self.n_funcs as int,
            ) by {
                assert(s < sid);
                assert(self.seqs@[s] == old(self).seqs@[s]);
                lemma_instr_wf_monotone(
                    self.seqs@[s].instrs@[k].instr,
                    s,
                    sid as int,
                    self.n_locals as int,
                    self.n_funcs as int,
                    self.seqs@.len() as int,
                    self.n_locals as int,
                    self.n_funcs as int,
                );
            }
        }
        sid
    }

    /// Appends `instr` to sequence `sid`, with no recorded source offset.
    pub fn push(&mut self, sid: usize, instr: Instr)
        requires
            old(self).wf(),
            sid < old(self).seqs@.len(),
            instr_wf(instr, sid as int, old(self).seqs@.len() as int, old(self).n_locals as int, old(self).n_funcs as int),
        ensures
            final(self).wf(),
            final(self).seqs@.len() == old(self).seqs@.len(),
            forall|s: int| 0 <= s < old(self).seqs@.len() && s != sid ==> final(self).seqs@[s] == old(self).seqs@[s],
            final(self).seqs@[sid as int].ty == old(self).seqs@[sid as int].ty,
            final(self).seqs@[sid as int].instrs@ == old(self).seqs@[sid as int].instrs@.push(
                LocatedInstr { instr, offset: None },
            ),
            final(self).n_locals == old(self).n_locals,
            final(self).n_funcs == old(self).n_funcs,
    {
        self.seqs[sid].instrs.push(LocatedInstr { instr, offset: None });
    }
}

/// Growing the pools cannot break an instruction's well-formedness.
pub proof fn lemma_instr_wf_monotone(i: Instr, sid: int, n_seqs: int, n_locals: int, n_funcs: int, n_seqs2: int, n_locals2: int, n_funcs2: int)
    requires
        instr_wf(i, sid, n_seqs, n_locals, n_funcs),
        n_seqs <= n_seqs2,
        n_locals <= n_locals2,
        n_funcs <= n_funcs2,
    ensures
        instr_wf(i, sid, n_seqs2, n_locals2, n_funcs2),
{
}

/// Growing the pools cannot break a body's well-formedness.
pub proof fn lemma_seqs_wf_monotone(seqs: Seq<InstrSeq>, n_locals: int, n_funcs: int, n_locals2: int, n_funcs2: int)
    requires
        seqs_wf(seqs, n_locals, n_funcs),
        n_locals <= n_locals2,
        n_funcs <= n_funcs2,
    ensures
        seqs_wf(seqs, n_locals2, n_funcs2),
{
}

/// Growing the pools cannot break a function's well-formedness.
pub proof fn lemma_func_wf_monotone(f: Func, t1: int, l1: int, fn1: int, t2: int, l2: int, fn2: int)
    requires
        f.wf(t1, l1, fn1),
        t1 <= t2,
        l1 <= l2,
        fn1 <= fn2,
    ensures
        f.wf(t2, l2, fn2),
{
    match f.kind {
        FuncKind::Local(lf) => {
            lemma_seqs_wf_monotone(lf.seqs@, l1, fn1, l2, fn2);
        },
        _ => {},
    }
}

/// A module stays well-formed when its pools grow, provided the surviving
/// functions are unchanged or deleted, every appended function is well-formed
/// for the new pools, and every import and export entry is valid for them.
pub proof fn lemma_wf_extend(m0: Module, m1: Module)
    requires
        m0.wf(),
        module_extended(m0, m1),
        forall|f: int|
            0 <= f < m0.funcs@.len() ==> #[trigger] m1.funcs@[f] == m0.funcs@[f] || m1.funcs@[f].kind
                is Deleted,
        forall|f: int|
            m0.funcs@.len() <= f < m1.funcs@.len() ==> (#[trigger] m1.funcs@[f]).wf(
                m1.types@.len() as int,
                m1.locals@.len() as int,
                m1.funcs@.len() as int,
            ),
        forall|i: int| 0 <= i < m1.imports@.len() ==> import_valid(
            #[trigger] m1.imports@[i],
            m1.funcs@.len() as int,
            m1.tables@.len() as int,
        ),
        forall|e: int| 0 <= e < m1.exports@.len() ==> export_valid(
            #[trigger] m1.exports@[e],
            m1.funcs@.len() as int,
            m1.tables@.len() as int,
        ),
    ensures
        m1.wf(),
{
    assert forall|f: int| 0 <= f < m1.funcs@.len() implies (#[trigger] m1.funcs@[f]).wf(
        m1.types@.len() as int,
        m1.locals@.len() as int,
        m1.funcs@.len() as int,
    ) by {
        if f < m0.funcs@.len() {
            if m1.funcs@[f] == m0.funcs@[f] {
                lemma_func_wf_monotone(
                    m0.funcs@[f],
                    m0.types@.len() as int,
                    m0.locals@.len() as int,
                    m0.funcs@.len() as int,
                    m1.types@.len() as int,
                    m1.locals@.len() as int,
                    m1.funcs@.len() as int,
                );
            }
        }
    }
}

} // verus!
