//! Stateful module processing: signature patching and body rewriting.

use vstd::prelude::*;

use crate::processor::functions::{opt_name_eq, ExternrefImports, PatchedFunctions};
use crate::processor::{Error, Location, Processor};
use crate::signature::{Function, FunctionKind};
use crate::str_eq;
use crate::wasm::{
    instr_wf, seqs_wf, Export, ExportItem, Func, FuncKind, FuncType, Import, ImportKind, Instr,
    InstrSeq, LocalFunction, LocatedInstr, Module, TableDecl, ValType,
};

verus! {

/// The import module a catalog entry names, or `None` for an export.
pub open spec fn kind_module(k: FunctionKind) -> Option<Seq<char>> {
    match k {
        FunctionKind::Export => None,
        FunctionKind::Import(m) => Some(m@),
    }
}

/// Whether the optional module name `a` holds the text `b`.
pub open spec fn opt_module_eq(a: Option<String>, b: Option<Seq<char>>) -> bool {
    match (a, b) {
        (Some(x), Some(y)) => x@ == y,
        (None, None) => true,
        _ => false,
    }
}

/// The name of the import module a catalog entry names; `None` for exports.
fn fn_module(fn_kind: &FunctionKind) -> (r: Option<String>)
    ensures
        opt_module_eq(r, kind_module(*fn_kind)),
{
    match fn_kind {
        FunctionKind::Export => None,
        FunctionKind::Import(module) => Some(module.clone()),
    }
}

/// The type element at position `i` of a `(params, results)` pair.
pub open spec fn sig_elem(params: Seq<ValType>, results: Seq<ValType>, i: int) -> ValType {
    if i < params.len() {
        params[i]
    } else {
        results[i - params.len()]
    }
}

/// Whether position `i` is the least marked position holding a non-surrogate
/// type: the position a type error reports.
pub open spec fn least_bad_position(function: Function, params: Seq<ValType>, results: Seq<ValType>, i: int) -> bool {
    &&& 0 <= i < params.len() + results.len()
    &&& function.externrefs.spec_is_set(i)
    &&& sig_elem(params, results, i) != ValType::I32
    &&& forall|j: int|
        0 <= j < i ==> !(function.externrefs.spec_is_set(j) && sig_elem(params, results, j)
            != ValType::I32)
}

/// Computes the patched `(params, results)` of a catalogued function: every
/// marked position, which must hold the integer surrogate type, becomes the
/// reference type. Fails when the arity recorded in the catalog differs from
/// the function type's, or when a marked position holds another type.
#[verifier::rlimit(50)]
pub fn patch_type_inner(types: &Vec<FuncType>, function: &Function, ty: usize) -> (r: Result<(Vec<ValType>, Vec<ValType>), Error>)
    requires
        ty < types@.len(),
        function.externrefs.wf(),
    ensures
        ({
            let p = types@[ty as int].params@;
            let q = types@[ty as int].results@;
            match r {
                Ok(pr) => {
                    &&& p.len() + q.len() == function.externrefs.bit_len
                    &&& pr.0@.len() == p.len()
                    &&& pr.1@.len() == q.len()
                    &&& forall|i: int|
                        0 <= i < p.len() ==> #[trigger] pr.0@[i] == (
                        if function.externrefs.spec_is_set(i) {
                            ValType::Externref
                        } else {
                            p[i]
                        })
                    &&& forall|i: int|
                        0 <= i < p.len() && function.externrefs.spec_is_set(i) ==> #[trigger] p[i]
                            == ValType::I32
                    &&& forall|j: int|
                        0 <= j < q.len() ==> #[trigger] pr.1@[j] == (
                        if function.externrefs.spec_is_set(p.len() + j) {
                            ValType::Externref
                        } else {
                            q[j]
                        })
                    &&& forall|j: int|
                        0 <= j < q.len() && function.externrefs.spec_is_set(p.len() + j)
                            ==> #[trigger] q[j] == ValType::I32
                },
                Err(e) => {
                    &&& (e matches Error::UnexpectedArity { module, name, expected_arity, real_arity } ==> {
                        &&& p.len() + q.len() != function.externrefs.bit_len
                        &&& opt_module_eq(module, kind_module(function.kind))
                        &&& name@ == function.name@
                        &&& expected_arity == function.externrefs.bit_len
                        &&& p.len() + q.len() <= usize::MAX ==> real_arity == p.len() + q.len()
                    })
                    &&& (e matches Error::UnexpectedType { module, name, location, real_type } ==> {
                        &&& p.len() + q.len() == function.externrefs.bit_len
                        &&& opt_module_eq(module, kind_module(function.kind))
                        &&& name@ == function.name@
                        &&& exists|i: int|
                            #[trigger] least_bad_position(*function, p, q, i) && real_type == sig_elem(
                                p,
                                q,
                                i,
                            ) && location == (if i < p.len() {
                                Location::Arg(i as usize)
                            } else {
                                Location::ReturnType((i - p.len()) as usize)
                            })
                    })
                    &&& (e matches Error::UnexpectedArity { .. } || e matches Error::UnexpectedType { .. })
                    &&& (p.len() + q.len() == function.externrefs.bit_len ==> e matches Error::UnexpectedType { .. })
                },
            }
        }),
        r is Ok <==> ({
            let p = types@[ty as int].params@;
            let q = types@[ty as int].results@;
            p.len() + q.len() == function.externrefs.bit_len && forall|i: int|
                0 <= i < p.len() + q.len() && (#[trigger] function.externrefs.spec_is_set(i))
                    ==> sig_elem(p, q, i) == ValType::I32
        }),
{
    let ghost p = types@[ty as int].params@;
    let ghost q = types@[ty as int].results@;
    let n_params = types[ty].params.len();
    let n_results = types[ty].results.len();
    let bit_len = function.externrefs.bit_len();
    if n_params > usize::MAX - n_results || n_params + n_results != bit_len {
        proof {
            assert(p.len() + q.len() != function.externrefs.bit_len);
        }
        return Err(Error::UnexpectedArity {
            module: fn_module(&function.kind),
            name: function.name.clone(),
            expected_arity: bit_len,
            real_arity: if n_params > usize::MAX - n_results {
                usize::MAX
            } else {
                n_params + n_results
            },
        });
    }
    let mut new_params: Vec<ValType> = Vec::new();
    let mut i: usize = 0;
    while i < n_params
        invariant
            0 <= i <= n_params,
            n_params == p.len(),
            n_results == q.len(),
            n_params + n_results == function.externrefs.bit_len,
            p == types@[ty as int].params@,
            q == types@[ty as int].results@,
            ty < types@.len(),
            function.externrefs.wf(),
            new_params@.len() == i,
            forall|k: int|
                0 <= k < i ==> #[trigger] new_params@[k] == (if function.externrefs.spec_is_set(k) {
                    ValType::Externref
                } else {
                    p[k]
                }),
            forall|k: int|
                0 <= k < i && function.externrefs.spec_is_set(k) ==> #[trigger] p[k] == ValType::I32,
        decreases n_params - i,
    {
        let elem = types[ty].params[i];
        if function.externrefs.is_set(i) {
            if !matches!(elem, ValType::I32) {
                proof {
                    assert(least_bad_position(*function, p, q, i as int));
                }
                return Err(Error::UnexpectedType {
                    module: fn_module(&function.kind),
                    name: function.name.clone(),
                    location: Location::Arg(i),
                    real_type: elem,
                });
            }
            new_params.push(ValType::Externref);
        } else {
            new_params.push(elem);
        }
        i = i + 1;
    }
    let mut new_results: Vec<ValType> = Vec::new();
    let mut j: usize = 0;
    while j < n_results
        invariant
            0 <= j <= n_results,
            n_params == p.len(),
            n_results == q.len(),
            n_params + n_results <= usize::MAX,
            n_params + n_results == function.externrefs.bit_len,
            p == types@[ty as int].params@,
            q == types@[ty as int].results@,
            ty < types@.len(),
            function.externrefs.wf(),
            new_results@.len() == j,
            forall|k: int|
                0 <= k < p.len() ==> !(function.externrefs.spec_is_set(k) && sig_elem(p, q, k)
                    != ValType::I32),
            forall|k: int|
                0 <= k < j ==> #[trigger] new_results@[k] == (
                if function.externrefs.spec_is_set(p.len() + k) {
                    ValType::Externref
                } else {
                    q[k]
                }),
            forall|k: int|
                0 <= k < j && function.externrefs.spec_is_set(p.len() + k) ==> #[trigger] q[k]
                    == ValType::I32,
        decreases n_results - j,
    {
        let elem = types[ty].results[j];
        if function.externrefs.is_set(n_params + j) {
            if !matches!(elem, ValType::I32) {
                proof {
                    assert(least_bad_position(*function, p, q, p.len() + j));
                }
                return Err(Error::UnexpectedType {
                    module: fn_module(&function.kind),
                    name: function.name.clone(),
                    location: Location::ReturnType(j),
                    real_type: elem,
                });
            }
            new_results.push(ValType::Externref);
        } else {
            new_results.push(elem);
        }
        j = j + 1;
    }
    Ok((new_params, new_results))
}

/// Appends the patched type of a catalogued function to the type pool and
/// returns its index.
pub fn patch_type(types: &mut Vec<FuncType>, function: &Function, ty: usize) -> (r: Result<usize, Error>)
    requires
        ty < old(types)@.len(),
        function.externrefs.wf(),
    ensures
        match r {
            Ok(new_ty) => {
                &&& final(types)@.len() == old(types)@.len() + 1
                &&& forall|i: int| 0 <= i < old(types)@.len() ==> #[trigger] final(types)@[i] == old(types)@[i]
                &&& new_ty == old(types)@.len()
                &&& ({
                    let p = old(types)@[ty as int].params@;
                    let q = old(types)@[ty as int].results@;
                    let np = final(types)@[new_ty as int].params@;
                    let nq = final(types)@[new_ty as int].results@;
                    &&& p.len() + q.len() == function.externrefs.bit_len
                    &&& np.len() == p.len()
                    &&& nq.len() == q.len()
                    &&& forall|i: int|
                        0 <= i < p.len() ==> #[trigger] np[i] == (
                        if function.externrefs.spec_is_set(i) {
                            ValType::Externref
                        } else {
                            p[i]
                        })
                    &&& forall|j: int|
                        0 <= j < q.len() ==> #[trigger] nq[j] == (
                        if function.externrefs.spec_is_set(p.len() + j) {
                            ValType::Externref
                        } else {
                            q[j]
                        })
                })
            },
            Err(e) => {
                &&& *final(types) == *old(types)
                &&& (e matches Error::UnexpectedArity { .. } || e matches Error::UnexpectedType { .. })
            },
        },
        r is Ok <==> ({
            let p = old(types)@[ty as int].params@;
            let q = old(types)@[ty as int].results@;
            p.len() + q.len() == function.externrefs.bit_len && forall|i: int|
                0 <= i < p.len() + q.len() && (#[trigger] function.externrefs.spec_is_set(i))
                    ==> sig_elem(p, q, i) == ValType::I32
        }),
{
    let (new_params, new_results) = match patch_type_inner(types, function, ty) {
        Ok(pr) => pr,
        Err(e) => {
            return Err(e);
        },
    };
    let new_ty = types.len();
    types.push(FuncType { params: new_params, results: new_results });
    Ok(new_ty)
}

} // verus!

verus! {

/// Whether a call of this instruction leaves a reference on top of the
/// operand stack: a call of a function known to return a reference.
pub open spec fn instr_returns_ref(i: Instr, rr: Seq<bool>) -> bool {
    i matches Instr::Call { func } && func < rr.len() && rr[func as int]
}

/// The "reference on top of the stack" flag after the first `k` instructions
/// of a sequence. A reference produced by a call is either stored by the
/// directly following `local.set` / `local.tee` or consumed at once; any
/// other instruction clears the flag.
pub open spec fn ref_flag_after(instrs: Seq<LocatedInstr>, k: int, rr: Seq<bool>) -> bool
    decreases k,
{
    if k <= 0 {
        false
    } else {
        let fl = ref_flag_after(instrs, k - 1, rr);
        match instrs[k - 1].instr {
            Instr::LocalSet { .. } => false,
            Instr::LocalTee { .. } => fl,
            _ => instr_returns_ref(instrs[k - 1].instr, rr),
        }
    }
}

/// The first `k` instructions of a sequence after reference-call detection,
/// together with the `(new local, old local)` pairs allocated so far. A
/// `local.set` / `local.tee` that stores a freshly produced reference is
/// redirected into a fresh reference-typed local, numbered from `next0`
/// upward in order of allocation.
pub open spec fn detect_upto(instrs: Seq<LocatedInstr>, k: int, rr: Seq<bool>, next0: int) -> (Seq<LocatedInstr>, Seq<(usize, usize)>)
    decreases k,
{
    if k <= 0 {
        (Seq::<LocatedInstr>::empty(), Seq::<(usize, usize)>::empty())
    } else {
        let prev = detect_upto(instrs, k - 1, rr, next0);
        let li = instrs[k - 1];
        let fl = ref_flag_after(instrs, k - 1, rr);
        match li.instr {
            Instr::LocalSet { local } => if fl {
                let nl = (next0 + prev.1.len()) as usize;
                (
                    prev.0.push(LocatedInstr { instr: Instr::LocalSet { local: nl }, offset: li.offset }),
                    prev.1.push((nl, local)),
                )
            } else {
                (prev.0.push(li), prev.1)
            },
            Instr::LocalTee { local } => if fl {
                let nl = (next0 + prev.1.len()) as usize;
                (
                    prev.0.push(LocatedInstr { instr: Instr::LocalTee { local: nl }, offset: li.offset }),
                    prev.1.push((nl, local)),
                )
            } else {
                (prev.0.push(li), prev.1)
            },
            _ => (prev.0.push(li), prev.1),
        }
    }
}

/// The `(new local, old local)` pairs allocated by detection over the first
/// `n` sequences of a body, numbering fresh locals from `next0` upward.
pub open spec fn detect_pairs_upto(seqs: Seq<InstrSeq>, n: int, rr: Seq<bool>, next0: int) -> Seq<(usize, usize)>
    decreases n,
{
    if n <= 0 {
        Seq::empty()
    } else {
        let prev = detect_pairs_upto(seqs, n - 1, rr, next0);
        prev + detect_upto(seqs[n - 1].instrs@, seqs[n - 1].instrs@.len() as int, rr, next0 + prev.len()).1
    }
}

proof fn lemma_detect_len(instrs: Seq<LocatedInstr>, k: int, rr: Seq<bool>, next0: int)
    requires
        0 <= k <= instrs.len(),
    ensures
        detect_upto(instrs, k, rr, next0).0.len() == k,
        detect_upto(instrs, k, rr, next0).1.len() <= k,
    decreases k,
{
    if k > 0 {
        lemma_detect_len(instrs, k - 1, rr, next0);
    }
}

proof fn lemma_detect_bounds(instrs: Seq<LocatedInstr>, k: int, rr: Seq<bool>, next0: int, sid: int, n_seqs: int, n_locals: int, n_funcs: int)
    requires
        0 <= k <= instrs.len(),
        0 <= next0,
        forall|j: int| 0 <= j < instrs.len() ==> instr_wf(#[trigger] instrs[j].instr, sid, n_seqs, n_locals, n_funcs),
        next0 + detect_upto(instrs, k, rr, next0).1.len() <= usize::MAX,
    ensures
        ({
            let d = detect_upto(instrs, k, rr, next0);
            &&& forall|t: int| 0 <= t < d.1.len() ==> (#[trigger] d.1[t]).0 == next0 + t
            &&& forall|t: int| 0 <= t < d.1.len() ==> (#[trigger] d.1[t]).1 < n_locals
            &&& forall|j: int|
                0 <= j < d.0.len() ==> instr_wf(
                    #[trigger] d.0[j].instr,
                    sid,
                    n_seqs,
                    if n_locals > next0 + d.1.len() {
                        n_locals
                    } else {
                        next0 + d.1.len()
                    },
                    n_funcs,
                )
        }),
    decreases k,
{
    if k > 0 {
        lemma_detect_bounds(instrs, k - 1, rr, next0, sid, n_seqs, n_locals, n_funcs);
        lemma_detect_len(instrs, k - 1, rr, next0);
    }
}

/// Detects calls whose reference result is stored into a local, redirecting
/// each such store into a fresh reference-typed local. Returns the
/// `(new local, old local)` pairs, in allocation order.
#[verifier::rlimit(100)]
pub fn detect_ref_calls(lf: &mut LocalFunction, locals: &mut Vec<ValType>, rr: &Vec<bool>) -> (pairs: Vec<(usize, usize)>)
    requires
        seqs_wf(old(lf).seqs@, old(locals)@.len() as int, rr@.len() as int),
    ensures
        final(lf).ty == old(lf).ty,
        final(lf).args == old(lf).args,
        final(lf).seqs@.len() == old(lf).seqs@.len(),
        pairs@ == detect_pairs_upto(old(lf).seqs@, old(lf).seqs@.len() as int, rr@, old(locals)@.len() as int),
        forall|s: int|
            0 <= s < old(lf).seqs@.len() ==> {
                &&& (#[trigger] final(lf).seqs@[s]).ty == old(lf).seqs@[s].ty
                &&& final(lf).seqs@[s].instrs@ == detect_upto(
                    old(lf).seqs@[s].instrs@,
                    old(lf).seqs@[s].instrs@.len() as int,
                    rr@,
                    old(locals)@.len() + detect_pairs_upto(old(lf).seqs@, s, rr@, old(locals)@.len() as int).len() as int,
                ).0
            },
        final(locals)@.len() == old(locals)@.len() + pairs@.len(),
        forall|i: int| 0 <= i < old(locals)@.len() ==> #[trigger] final(locals)@[i] == old(locals)@[i],
        forall|i: int|
            old(locals)@.len() <= i < final(locals)@.len() ==> #[trigger] final(locals)@[i]
                == ValType::Externref,
        forall|t: int|
            0 <= t < pairs@.len() ==> (#[trigger] pairs@[t]).0 == old(locals)@.len() + t
                && pairs@[t].1 < old(locals)@.len(),
{
    let ghost orig = *lf;
    let ghost base = locals@.len() as int;
    let n = lf.seqs.len();
    let mut pairs: Vec<(usize, usize)> = Vec::new();
    let mut s: usize = 0;
    while s < n
        invariant
            0 <= s <= n,
            n == lf.seqs@.len(),
            n == orig.seqs@.len(),
            lf.ty == orig.ty,
            lf.args == orig.args,
            base == old(locals)@.len(),
            seqs_wf(orig.seqs@, base, rr@.len() as int),
            orig == *old(lf),
            forall|j: int| s <= j < n ==> #[trigger] lf.seqs@[j] == orig.seqs@[j],
            pairs@ == detect_pairs_upto(orig.seqs@, s as int, rr@, base),
            forall|j: int|
                0 <= j < s ==> {
                    &&& (#[trigger] lf.seqs@[j]).ty == orig.seqs@[j].ty
                    &&& lf.seqs@[j].instrs@ == detect_upto(
                        orig.seqs@[j].instrs@,
                        orig.seqs@[j].instrs@.len() as int,
                        rr@,
                        base + detect_pairs_upto(orig.seqs@, j, rr@, base).len(),
                    ).0
                },
            locals@.len() == base + pairs@.len(),
            forall|i: int| 0 <= i < base ==> #[trigger] locals@[i] == old(locals)@[i],
            forall|i: int| base <= i < locals@.len() ==> #[trigger] locals@[i] == ValType::Externref,
            forall|t: int|
                0 <= t < pairs@.len() ==> (#[trigger] pairs@[t]).0 == base + t && pairs@[t].1 < base,
        decreases n - s,
    {
        let ghost instrs0 = orig.seqs@[s as int].instrs@;
        let ghost next_s = base + pairs@.len();
        let m = lf.seqs[s].instrs.len();
        let mut fl = false;
        let mut k: usize = 0;
        while k < m
            invariant
                0 <= k <= m,
                0 <= s < n,
                n == lf.seqs@.len(),
                n == orig.seqs@.len(),
                lf.ty == orig.ty,
                lf.args == orig.args,
                base == old(locals)@.len(),
                seqs_wf(orig.seqs@, base, rr@.len() as int),
                orig == *old(lf),
                instrs0 == orig.seqs@[s as int].instrs@,
                m == instrs0.len(),
                next_s == base + detect_pairs_upto(orig.seqs@, s as int, rr@, base).len(),
                forall|j: int| s < j < n ==> #[trigger] lf.seqs@[j] == orig.seqs@[j],
                forall|j: int|
                    0 <= j < s ==> {
                        &&& (#[trigger] lf.seqs@[j]).ty == orig.seqs@[j].ty
                        &&& lf.seqs@[j].instrs@ == detect_upto(
                            orig.seqs@[j].instrs@,
                            orig.seqs@[j].instrs@.len() as int,
                            rr@,
                            base + detect_pairs_upto(orig.seqs@, j, rr@, base).len(),
                        ).0
                    },
                lf.seqs@[s as int].ty == orig.seqs@[s as int].ty,
                lf.seqs@[s as int].instrs@.len() == m,
                forall|j: int| k <= j < m ==> #[trigger] lf.seqs@[s as int].instrs@[j] == instrs0[j],
                lf.seqs@[s as int].instrs@.take(k as int) == detect_upto(instrs0, k as int, rr@, next_s).0,
                pairs@ == detect_pairs_upto(orig.seqs@, s as int, rr@, base) + detect_upto(
                    instrs0,
                    k as int,
                    rr@,
                    next_s,
                ).1,
                fl == ref_flag_after(instrs0, k as int, rr@),
                locals@.len() == base + pairs@.len(),
                forall|i: int| 0 <= i < base ==> #[trigger] locals@[i] == old(locals)@[i],
                forall|i: int| base <= i < locals@.len() ==> #[trigger] locals@[i] == ValType::Externref,
                forall|t: int|
                    0 <= t < pairs@.len() ==> (#[trigger] pairs@[t]).0 == base + t && pairs@[t].1
                        < base,
            decreases m - k,
        {
            proof {
                lemma_detect_len(instrs0, k as int, rr@, next_s);
                assert(lf.seqs@[s as int].instrs@[k as int] == instrs0[k as int]);
            }
            let ghost d_prev = detect_upto(instrs0, k as int, rr@, next_s);
            {
                let li_kind: u8 = match &lf.seqs[s].instrs[k].instr {
                    Instr::LocalSet { .. } => 1u8,
                    Instr::LocalTee { .. } => 2u8,
                    _ => 0u8,
                };
                let stored_local: usize = match &lf.seqs[s].instrs[k].instr {
                    Instr::LocalSet { local } => *local,
                    Instr::LocalTee { local } => *local,
                    _ => 0,
                };
                let is_ref_call: bool = match &lf.seqs[s].instrs[k].instr {
                    Instr::Call { func } => *func < rr.len() && rr[*func],
                    _ => false,
                };
                let offset = lf.seqs[s].instrs[k].offset;
                if li_kind == 1 && fl {
                    let nl = locals.len();
                    proof {
                        assert(nl as int == next_s + d_prev.1.len());
                    }
                    locals.push(ValType::Externref);
                    pairs.push((nl, stored_local));
                    lf.seqs[s].instrs[k] = LocatedInstr { instr: Instr::LocalSet { local: nl }, offset };
                    fl = false;
                } else if li_kind == 2 && fl {
                    let nl = locals.len();
                    proof {
                        assert(nl as int == next_s + d_prev.1.len());
                    }
                    locals.push(ValType::Externref);
                    pairs.push((nl, stored_local));
                    lf.seqs[s].instrs[k] = LocatedInstr { instr: Instr::LocalTee { local: nl }, offset };
                } else {
                    fl = is_ref_call;
                }
            }
            proof {
                assert(lf.seqs@[s as int].instrs@.take(k as int + 1) =~= lf.seqs@[s as int].instrs@.take(
                    k as int,
                ).push(lf.seqs@[s as int].instrs@[k as int]));
            }
            k = k + 1;
        }
        proof {
            assert(lf.seqs@[s as int].instrs@.take(m as int) =~= lf.seqs@[s as int].instrs@);
        }
        s = s + 1;
    }
    pairs
}

} // verus!

verus! {

/// The state of the locals-retyping plan as it is built in program order:
/// which old locals are retyped, the current substitution of each, and the
/// per-sequence lists of substitutions recorded for `local.get` occurrences.
pub struct CounterState {
    /// Whether each local is a retyped old local (one with a reference-typed
    /// counterpart).
    pub retyped: Seq<bool>,
    /// The current substitution of each retyped old local: the reference
    /// local standing in for it, or `None` after a non-reference reassignment.
    pub current: Seq<Option<usize>>,
    /// For each sequence, the recorded substitutions of the retyped
    /// `local.get` occurrences, in textual order.
    pub queues: Seq<Seq<Option<usize>>>,
}

/// An assignment to `local` updates the plan: a retyped old local loses its
/// substitution (the slot now carries an integer), while an assignment to a
/// freshly allocated reference local makes it the substitution of its old
/// local.
pub open spec fn counter_assign(st: CounterState, pairs: Seq<(usize, usize)>, local: usize) -> CounterState {
    if local < st.retyped.len() && st.retyped[local as int] && local < st.current.len() {
        CounterState {
            retyped: st.retyped,
            current: st.current.update(local as int, None),
            queues: st.queues,
        }
    } else {
        match crate::processor::functions::mapping_of(pairs, local) {
            Some(old_local) => if old_local < st.current.len() {
                CounterState {
                    retyped: st.retyped,
                    current: st.current.update(old_local as int, Some(local)),
                    queues: st.queues,
                }
            } else {
                st
            },
            None => st,
        }
    }
}

/// One instruction's effect on the plan state.
pub open spec fn counter_step(st: CounterState, pairs: Seq<(usize, usize)>, i: Instr, sid: int) -> CounterState {
    match i {
        Instr::LocalGet { local } => if local < st.retyped.len() && st.retyped[local as int] && local
            < st.current.len() && 0 <= sid < st.queues.len() {
            CounterState {
                retyped: st.retyped,
                current: st.current,
                queues: st.queues.update(sid, st.queues[sid].push(st.current[local as int])),
            }
        } else {
            st
        },
        Instr::LocalSet { local } => counter_assign(st, pairs, local),
        Instr::LocalTee { local } => counter_assign(st, pairs, local),
        _ => st,
    }
}

/// The plan state after walking the first `k` instructions of instruction
/// list `sid` in program order, descending into structural children where
/// they stand.
pub open spec fn counter_run(bodies: Seq<Seq<LocatedInstr>>, sid: int, k: int, pairs: Seq<(usize, usize)>, st: CounterState) -> CounterState
    decreases bodies.len() - sid, k,
{
    if k <= 0 || sid < 0 || sid >= bodies.len() || k > bodies[sid].len() {
        st
    } else {
        let st1 = counter_run(bodies, sid, k - 1, pairs, st);
        match bodies[sid][k - 1].instr {
            Instr::Block { seq } => if sid < seq < bodies.len() {
                counter_run(bodies, seq as int, bodies[seq as int].len() as int, pairs, st1)
            } else {
                st1
            },
            Instr::Loop { seq } => if sid < seq < bodies.len() {
                counter_run(bodies, seq as int, bodies[seq as int].len() as int, pairs, st1)
            } else {
                st1
            },
            Instr::IfElse { consequent, alternative } => {
                let st2 = if sid < consequent < bodies.len() {
                    counter_run(bodies, consequent as int, bodies[consequent as int].len() as int, pairs, st1)
                } else {
                    st1
                };
                if sid < alternative < bodies.len() {
                    counter_run(bodies, alternative as int, bodies[alternative as int].len() as int, pairs, st2)
                } else {
                    st2
                }
            },
            i => counter_step(st1, pairs, i, sid),
        }
    }
}

proof fn lemma_counter_step_shape(st: CounterState, pairs: Seq<(usize, usize)>, i: Instr, sid: int)
    ensures
        counter_step(st, pairs, i, sid).retyped == st.retyped,
        counter_step(st, pairs, i, sid).current.len() == st.current.len(),
        counter_step(st, pairs, i, sid).queues.len() == st.queues.len(),
{
    match i {
        Instr::LocalSet { local } => {
            assert(counter_assign(st, pairs, local).current.len() == st.current.len());
        },
        Instr::LocalTee { local } => {
            assert(counter_assign(st, pairs, local).current.len() == st.current.len());
        },
        _ => {},
    }
}

proof fn lemma_counter_run_shape(bodies: Seq<Seq<LocatedInstr>>, sid: int, k: int, pairs: Seq<(usize, usize)>, st: CounterState)
    ensures
        counter_run(bodies, sid, k, pairs, st).retyped == st.retyped,
        counter_run(bodies, sid, k, pairs, st).current.len() == st.current.len(),
        counter_run(bodies, sid, k, pairs, st).queues.len() == st.queues.len(),
    decreases bodies.len() - sid, k,
{
    if k <= 0 || sid < 0 || sid >= bodies.len() || k > bodies[sid].len() {
    } else {
        lemma_counter_run_shape(bodies, sid, k - 1, pairs, st);
        let st1 = counter_run(bodies, sid, k - 1, pairs, st);
        match bodies[sid][k - 1].instr {
            Instr::Block { seq } => if sid < seq < bodies.len() {
                lemma_counter_run_shape(bodies, seq as int, bodies[seq as int].len() as int, pairs, st1);
            },
            Instr::Loop { seq } => if sid < seq < bodies.len() {
                lemma_counter_run_shape(bodies, seq as int, bodies[seq as int].len() as int, pairs, st1);
            },
            Instr::IfElse { consequent, alternative } => {
                let st2 = if sid < consequent < bodies.len() {
                    counter_run(bodies, consequent as int, bodies[consequent as int].len() as int, pairs, st1)
                } else {
                    st1
                };
                if sid < consequent < bodies.len() {
                    lemma_counter_run_shape(bodies, consequent as int, bodies[consequent as int].len() as int, pairs, st1);
                }
                if sid < alternative < bodies.len() {
                    lemma_counter_run_shape(bodies, alternative as int, bodies[alternative as int].len() as int, pairs, st2);
                }
            },
            i => {
                lemma_counter_step_shape(st1, pairs, i, sid);
            },
        }
    }
}

/// Builder of the locals-retyping plan: walks a body in program order and
/// records, per sequence, which substitution each retyped `local.get` must
/// observe, honoring reassignment to non-reference values.
pub struct LocalReplacementCounter {
    /// See [`CounterState::retyped`].
    pub retyped: Vec<bool>,
    /// See [`CounterState::current`].
    pub current: Vec<Option<usize>>,
    /// The detector's `(new local, old local)` pairs.
    pub new_to_old: Vec<(usize, usize)>,
    /// See [`CounterState::queues`].
    pub queues: Vec<Vec<Option<usize>>>,
}

impl LocalReplacementCounter {
    /// The mathematical plan state this builder holds.
    pub open spec fn state(&self) -> CounterState {
        CounterState {
            retyped: self.retyped@,
            current: self.current@,
            queues: self.queues@.map_values(|q: Vec<Option<usize>>| q@),
        }
    }

    /// Records the effects of the first `k` instructions of sequence `sid`,
    /// descending into structural children where they stand.
    pub fn run(&mut self, seqs: &Vec<InstrSeq>, sid: usize, k: usize)
        requires
            sid < seqs@.len(),
            k <= seqs@[sid as int].instrs@.len(),
        ensures
            final(self).state() == counter_run(crate::processor::functions::instr_lists(seqs@), sid as int, k as int, old(self).new_to_old@, old(self).state()),
            final(self).new_to_old == old(self).new_to_old,
            final(self).retyped == old(self).retyped,
            final(self).current@.len() == old(self).current@.len(),
            final(self).queues@.len() == old(self).queues@.len(),
        decreases seqs@.len() - sid, k,
    {
        if k == 0 {
            return;
        }
        self.run(seqs, sid, k - 1);
        proof {
            assert(crate::processor::functions::instr_lists(seqs@)[sid as int] == seqs@[sid as int].instrs@);
            lemma_counter_run_shape(crate::processor::functions::instr_lists(seqs@), sid as int, k as int - 1, old(self).new_to_old@, old(self).state());
        }
        let child: Option<(usize, Option<usize>)> = match &seqs[sid].instrs[k - 1].instr {
            Instr::Block { seq } => Some((*seq, None)),
            Instr::Loop { seq } => Some((*seq, None)),
            Instr::IfElse { consequent, alternative } => Some((*consequent, Some(*alternative))),
            _ => None,
        };
        match child {
            Some((c1, c2)) => {
                if sid < c1 && c1 < seqs.len() {
                    let len1 = seqs[c1].instrs.len();
                    self.run(seqs, c1, len1);
                }
                if let Some(c2) = c2 {
                    if sid < c2 && c2 < seqs.len() {
                        let len2 = seqs[c2].instrs.len();
                        self.run(seqs, c2, len2);
                    }
                }
            },
            None => {
                let instr_local: Option<(bool, usize)> = match &seqs[sid].instrs[k - 1].instr {
                    Instr::LocalGet { local } => Some((true, *local)),
                    Instr::LocalSet { local } => Some((false, *local)),
                    Instr::LocalTee { local } => Some((false, *local)),
                    _ => None,
                };
                match instr_local {
                    Some((true, local)) => {
                        if local < self.retyped.len() && self.retyped[local] && local
                            < self.current.len() && sid < self.queues.len() {
                            let entry = self.current[local];
                            self.queues[sid].push(entry);
                            proof {
                                assert(self.state().queues =~~= counter_step(
                                    counter_run(crate::processor::functions::instr_lists(seqs@), sid as int, k as int - 1, old(self).new_to_old@, old(self).state()),
                                    old(self).new_to_old@,
                                    seqs@[sid as int].instrs@[k as int - 1].instr,
                                    sid as int,
                                ).queues);
                            }
                        }
                    },
                    Some((false, local)) => {
                        if local < self.retyped.len() && self.retyped[local] && local
                            < self.current.len() {
                            self.current[local] = None;
                        } else {
                            match crate::processor::functions::lookup_mapping(&self.new_to_old, local) {
                                Some(old_local) => {
                                    if old_local < self.current.len() {
                                        self.current[old_local] = Some(local);
                                    }
                                },
                                None => {},
                            }
                        }
                    },
                    None => {},
                }
            },
        }
        proof {
            assert(self.state() =~~= counter_run(crate::processor::functions::instr_lists(seqs@), sid as int, k as int, old(self).new_to_old@, old(self).state()));
        }
    }
}

} // verus!

verus! {

/// The first `k` instructions of a list with each tracked `local.get`
/// rewritten to its recorded substitution, consuming the sequence's queue in
/// textual order; the second component is the queue cursor after them.
pub open spec fn rewrite_gets_upto(instrs: Seq<LocatedInstr>, k: int, retyped: Seq<bool>, queue: Seq<Option<usize>>, q0: int) -> (Seq<LocatedInstr>, int)
    decreases k,
{
    if k <= 0 {
        (Seq::<LocatedInstr>::empty(), q0)
    } else {
        let prev = rewrite_gets_upto(instrs, k - 1, retyped, queue, q0);
        let li = instrs[k - 1];
        match li.instr {
            Instr::LocalGet { local } => if local < retyped.len() && retyped[local as int] {
                let entry = if 0 <= prev.1 < queue.len() {
                    queue[prev.1]
                } else {
                    None
                };
                let ni = match entry {
                    Some(nl) => LocatedInstr { instr: Instr::LocalGet { local: nl }, offset: li.offset },
                    None => li,
                };
                (prev.0.push(ni), prev.1 + 1)
            } else {
                (prev.0.push(li), prev.1)
            },
            _ => (prev.0.push(li), prev.1),
        }
    }
}

/// A whole instruction list with its tracked `local.get` occurrences
/// rewritten per the plan.
pub open spec fn rewrite_gets(instrs: Seq<LocatedInstr>, retyped: Seq<bool>, queue: Seq<Option<usize>>) -> Seq<LocatedInstr> {
    rewrite_gets_upto(instrs, instrs.len() as int, retyped, queue, 0).0
}

proof fn lemma_rewrite_gets_len(instrs: Seq<LocatedInstr>, k: int, retyped: Seq<bool>, queue: Seq<Option<usize>>, q0: int)
    requires
        0 <= k,
    ensures
        rewrite_gets_upto(instrs, k, retyped, queue, q0).0.len() == k,
        q0 <= rewrite_gets_upto(instrs, k, retyped, queue, q0).1 <= q0 + k,
    decreases k,
{
    if k > 0 {
        lemma_rewrite_gets_len(instrs, k - 1, retyped, queue, q0);
    }
}

proof fn lemma_rewrite_gets_wf(instrs: Seq<LocatedInstr>, k: int, retyped: Seq<bool>, queue: Seq<Option<usize>>, q0: int, sid: int, n_seqs: int, n_locals: int, n_funcs: int)
    requires
        0 <= k <= instrs.len(),
        forall|j: int| 0 <= j < instrs.len() ==> instr_wf(#[trigger] instrs[j].instr, sid, n_seqs, n_locals, n_funcs),
        forall|t: int| 0 <= t < queue.len() ==> ((#[trigger] queue[t]) matches Some(nl) ==> nl < n_locals),
    ensures
        forall|j: int|
            0 <= j < rewrite_gets_upto(instrs, k, retyped, queue, q0).0.len() ==> instr_wf(
                (#[trigger] rewrite_gets_upto(instrs, k, retyped, queue, q0).0[j]).instr,
                sid,
                n_seqs,
                n_locals,
                n_funcs,
            ),
    decreases k,
{
    if k > 0 {
        lemma_rewrite_gets_wf(instrs, k - 1, retyped, queue, q0, sid, n_seqs, n_locals, n_funcs);
        lemma_rewrite_gets_len(instrs, k - 1, retyped, queue, q0);
    }
}

/// Rewrites the tracked `local.get` occurrences of a body per the finished
/// plan: per sequence, occurrences are consumed in their original textual
/// order; occurrences recorded with no substitution stay integer reads.
pub struct LocalReplacer {
    /// See [`CounterState::retyped`].
    pub retyped: Vec<bool>,
    /// See [`CounterState::queues`].
    pub queues: Vec<Vec<Option<usize>>>,
}

impl LocalReplacer {
    /// Takes the finished plan over from the counter.
    pub fn from(counter: LocalReplacementCounter) -> (r: LocalReplacer)
        ensures
            r.retyped == counter.retyped,
            r.queues == counter.queues,
    {
        LocalReplacer { retyped: counter.retyped, queues: counter.queues }
    }

    /// The queue of sequence `sid`, or empty when none was recorded.
    pub open spec fn queue_of(&self, sid: int) -> Seq<Option<usize>> {
        if 0 <= sid < self.queues@.len() {
            self.queues@[sid]@
        } else {
            Seq::<Option<usize>>::empty()
        }
    }

    /// Applies the plan to every sequence of a body, in place.
    #[verifier::rlimit(50)]
    pub fn apply(&self, lf: &mut LocalFunction)
        ensures
            final(lf).ty == old(lf).ty,
            final(lf).args == old(lf).args,
            final(lf).seqs@.len() == old(lf).seqs@.len(),
            forall|s: int|
                0 <= s < old(lf).seqs@.len() ==> {
                    &&& (#[trigger] final(lf).seqs@[s]).ty == old(lf).seqs@[s].ty
                    &&& final(lf).seqs@[s].instrs@ == rewrite_gets(
                        old(lf).seqs@[s].instrs@,
                        self.retyped@,
                        self.queue_of(s),
                    )
                },
    {
        let n = lf.seqs.len();
        let mut s: usize = 0;
        while s < n
            invariant
                0 <= s <= n,
                n == lf.seqs@.len(),
                n == old(lf).seqs@.len(),
                lf.ty == old(lf).ty,
                lf.args == old(lf).args,
                forall|j: int| s <= j < n ==> #[trigger] lf.seqs@[j] == old(lf).seqs@[j],
                forall|j: int|
                    0 <= j < s ==> {
                        &&& (#[trigger] lf.seqs@[j]).ty == old(lf).seqs@[j].ty
                        &&& lf.seqs@[j].instrs@ == rewrite_gets(
                            old(lf).seqs@[j].instrs@,
                            self.retyped@,
                            self.queue_of(j),
                        )
                    },
            decreases n - s,
        {
            let ghost instrs0 = old(lf).seqs@[s as int].instrs@;
            let m = lf.seqs[s].instrs.len();
            let mut cursor: usize = 0;
            let mut k: usize = 0;
            while k < m
                invariant
                    0 <= k <= m,
                    0 <= s < n,
                    n == lf.seqs@.len(),
                    n == old(lf).seqs@.len(),
                    lf.ty == old(lf).ty,
                    lf.args == old(lf).args,
                    instrs0 == old(lf).seqs@[s as int].instrs@,
                    m == instrs0.len(),
                    forall|j: int| s < j < n ==> #[trigger] lf.seqs@[j] == old(lf).seqs@[j],
                    forall|j: int|
                        0 <= j < s ==> {
                            &&& (#[trigger] lf.seqs@[j]).ty == old(lf).seqs@[j].ty
                            &&& lf.seqs@[j].instrs@ == rewrite_gets(
                                old(lf).seqs@[j].instrs@,
                                self.retyped@,
                                self.queue_of(j),
                            )
                        },
                    lf.seqs@[s as int].ty == old(lf).seqs@[s as int].ty,
                    lf.seqs@[s as int].instrs@.len() == m,
                    forall|j: int| k <= j < m ==> #[trigger] lf.seqs@[s as int].instrs@[j] == instrs0[j],
                    lf.seqs@[s as int].instrs@.take(k as int) == rewrite_gets_upto(
                        instrs0,
                        k as int,
                        self.retyped@,
                        self.queue_of(s as int),
                        0,
                    ).0,
                    cursor == rewrite_gets_upto(instrs0, k as int, self.retyped@, self.queue_of(s as int), 0).1,
                decreases m - k,
            {
                proof {
                    lemma_rewrite_gets_len(instrs0, k as int, self.retyped@, self.queue_of(s as int), 0);
                    assert(lf.seqs@[s as int].instrs@[k as int] == instrs0[k as int]);
                }
                let get_local: Option<usize> = match &lf.seqs[s].instrs[k].instr {
                    Instr::LocalGet { local } => Some(*local),
                    _ => None,
                };
                if let Some(local) = get_local {
                    if local < self.retyped.len() && self.retyped[local] {
                        let entry: Option<usize> = if s < self.queues.len() && cursor < self.queues[s].len() {
                            self.queues[s][cursor]
                        } else {
                            None
                        };
                        if let Some(nl) = entry {
                            let offset = lf.seqs[s].instrs[k].offset;
                            lf.seqs[s].instrs[k] = LocatedInstr {
                                instr: Instr::LocalGet { local: nl },
                                offset,
                            };
                        }
                        cursor = cursor + 1;
                    }
                }
                proof {
                    assert(lf.seqs@[s as int].instrs@.take(k as int + 1) =~= lf.seqs@[s as int].instrs@.take(
                        k as int,
                    ).push(lf.seqs@[s as int].instrs@[k as int]));
                }
                k = k + 1;
            }
            proof {
                assert(lf.seqs@[s as int].instrs@.take(m as int) =~= lf.seqs@[s as int].instrs@);
            }
            s = s + 1;
        }
    }
}

} // verus!

verus! {

/// Whether `l` is the old local of one of the detector's pairs.
pub open spec fn in_old_pairs(pairs: Seq<(usize, usize)>, l: int) -> bool
    decreases pairs.len(),
{
    if pairs.len() == 0 {
        false
    } else {
        pairs.last().1 == l || in_old_pairs(pairs.drop_last(), l)
    }
}

/// The tracking marks of the plan: a local is tracked when it is the old
/// local of a detector pair.
pub open spec fn init_retyped(pairs: Seq<(usize, usize)>, n_locals: int) -> Seq<bool> {
    Seq::new(n_locals as nat, |l: int| in_old_pairs(pairs, l))
}

/// The instruction list of sequence `s` after reference-call detection, with
/// fresh locals numbered from `base` upward across the whole body.
pub open spec fn detected_body(seqs: Seq<InstrSeq>, rr: Seq<bool>, base: int, s: int) -> Seq<LocatedInstr> {
    detect_upto(
        seqs[s].instrs@,
        seqs[s].instrs@.len() as int,
        rr,
        base + detect_pairs_upto(seqs, s, rr, base).len() as int,
    ).0
}

/// All instruction lists of a body after reference-call detection.
pub open spec fn detected_bodies(seqs: Seq<InstrSeq>, rr: Seq<bool>, base: int) -> Seq<Seq<LocatedInstr>> {
    Seq::new(seqs.len(), |s: int| detected_body(seqs, rr, base, s))
}

/// The finished locals-retyping plan of a body: the plan state after walking
/// the detected body in program order. `plan_pairs` are all `(new, old)`
/// local pairs — the detector's, plus any replaced parameter locals of a
/// cloned export — and `current0` holds the initial substitutions.
pub open spec fn local_fn_plan(seqs: Seq<InstrSeq>, rr: Seq<bool>, base: int, n_locals_total: int, current0: Seq<Option<usize>>, plan_pairs: Seq<(usize, usize)>) -> CounterState {
    let bodies = detected_bodies(seqs, rr, base);
    let st0 = CounterState {
        retyped: init_retyped(plan_pairs, n_locals_total),
        current: current0,
        queues: Seq::new(seqs.len(), |s: int| Seq::<Option<usize>>::empty()),
    };
    counter_run(bodies, 0, bodies[0].len() as int, plan_pairs, st0)
}

/// The final instruction list of sequence `s` after detection and retyping.
pub open spec fn transformed_instrs(seqs: Seq<InstrSeq>, rr: Seq<bool>, base: int, n_locals_total: int, current0: Seq<Option<usize>>, plan_pairs: Seq<(usize, usize)>, s: int) -> Seq<LocatedInstr> {
    let plan = local_fn_plan(seqs, rr, base, n_locals_total, current0, plan_pairs);
    let queue = if 0 <= s < plan.queues.len() {
        plan.queues[s]
    } else {
        Seq::<Option<usize>>::empty()
    };
    rewrite_gets(detected_body(seqs, rr, base, s), plan.retyped, queue)
}

/// Marks the old locals of the detector pairs as tracked.
fn build_retyped(pairs: &Vec<(usize, usize)>, n_locals: usize) -> (r: Vec<bool>)
    ensures
        r@ == init_retyped(pairs@, n_locals as int),
{
    let mut r: Vec<bool> = vec![false; n_locals];
    let mut t: usize = 0;
    while t < pairs.len()
        invariant
            0 <= t <= pairs@.len(),
            r@.len() == n_locals,
            forall|l: int| 0 <= l < n_locals ==> #[trigger] r@[l] == in_old_pairs(pairs@.take(t as int), l),
        decreases pairs@.len() - t,
    {
        let (_new_l, old_l) = pairs[t];
        if old_l < n_locals {
            r[old_l] = true;
        }
        proof {
            assert(pairs@.take(t as int + 1).drop_last() =~= pairs@.take(t as int));
            assert(pairs@.take(t as int + 1).last() == pairs@[t as int]);
        }
        t = t + 1;
    }
    proof {
        assert(pairs@.take(pairs@.len() as int) =~= pairs@);
        assert(r@ =~= init_retyped(pairs@, n_locals as int));
    }
    r
}

proof fn lemma_counter_run_bounds(bodies: Seq<Seq<LocatedInstr>>, sid: int, k: int, pairs: Seq<(usize, usize)>, st: CounterState, n_locals: int)
    requires
        forall|s: int, j: int|
            0 <= s < bodies.len() && 0 <= j < bodies[s].len() ==> match (#[trigger] bodies[s][j]).instr {
                Instr::LocalSet { local } => local < n_locals,
                Instr::LocalTee { local } => local < n_locals,
                _ => true,
            },
        forall|l: int| 0 <= l < st.current.len() ==> ((#[trigger] st.current[l]) matches Some(nl) ==> nl < n_locals),
        forall|s: int, t: int|
            0 <= s < st.queues.len() && 0 <= t < st.queues[s].len() ==> ((#[trigger] st.queues[s][t]) matches Some(nl) ==> nl < n_locals),
    ensures
        ({
            let r = counter_run(bodies, sid, k, pairs, st);
            &&& forall|l: int| 0 <= l < r.current.len() ==> ((#[trigger] r.current[l]) matches Some(nl) ==> nl < n_locals)
            &&& forall|s: int, t: int|
                0 <= s < r.queues.len() && 0 <= t < r.queues[s].len() ==> ((#[trigger] r.queues[s][t]) matches Some(nl) ==> nl < n_locals)
        }),
    decreases bodies.len() - sid, k,
{
    if k <= 0 || sid < 0 || sid >= bodies.len() || k > bodies[sid].len() {
    } else {
        lemma_counter_run_bounds(bodies, sid, k - 1, pairs, st, n_locals);
        let st1 = counter_run(bodies, sid, k - 1, pairs, st);
        match bodies[sid][k - 1].instr {
            Instr::Block { seq } => if sid < seq < bodies.len() {
                lemma_counter_run_bounds(bodies, seq as int, bodies[seq as int].len() as int, pairs, st1, n_locals);
            },
            Instr::Loop { seq } => if sid < seq < bodies.len() {
                lemma_counter_run_bounds(bodies, seq as int, bodies[seq as int].len() as int, pairs, st1, n_locals);
            },
            Instr::IfElse { consequent, alternative } => {
                let st2 = if sid < consequent < bodies.len() {
                    counter_run(bodies, consequent as int, bodies[consequent as int].len() as int, pairs, st1)
                } else {
                    st1
                };
                if sid < consequent < bodies.len() {
                    lemma_counter_run_bounds(bodies, consequent as int, bodies[consequent as int].len() as int, pairs, st1, n_locals);
                }
                if sid < alternative < bodies.len() {
                    lemma_counter_run_bounds(bodies, alternative as int, bodies[alternative as int].len() as int, pairs, st2, n_locals);
                }
            },
            i => {},
        }
    }
}

/// Builds and applies the locals-retyping plan to an already-detected body.
/// `pairs` are the detector's allocations, `current0` the initial
/// substitutions (reference parameters of a cloned export; empty otherwise),
/// and `orig` the body before detection.
#[verifier::rlimit(100)]
fn apply_locals_plan(lf: &mut LocalFunction, pairs: Vec<(usize, usize)>, current0: Vec<Option<usize>>, n_locals_total: usize, Ghost(orig): Ghost<LocalFunction>, Ghost(rr): Ghost<Seq<bool>>, Ghost(base): Ghost<int>)
    requires
        old(lf).seqs@.len() >= 1,
        old(lf).ty == orig.ty,
        old(lf).args == orig.args,
        old(lf).seqs@.len() == orig.seqs@.len(),
        forall|s: int|
            0 <= s < orig.seqs@.len() ==> (#[trigger] old(lf).seqs@[s]).ty == orig.seqs@[s].ty
                && old(lf).seqs@[s].instrs@ == detected_body(orig.seqs@, rr, base, s),
        current0@.len() == n_locals_total,
    ensures
        final(lf).ty == old(lf).ty,
        final(lf).args == old(lf).args,
        final(lf).seqs@.len() == old(lf).seqs@.len(),
        forall|s: int|
            0 <= s < orig.seqs@.len() ==> {
                &&& (#[trigger] final(lf).seqs@[s]).ty == orig.seqs@[s].ty
                &&& final(lf).seqs@[s].instrs@ == transformed_instrs(
                    orig.seqs@,
                    rr,
                    base,
                    n_locals_total as int,
                    current0@,
                    pairs@,
                    s,
                )
            },
{
    let n = lf.seqs.len();
    let retyped = build_retyped(&pairs, n_locals_total);
    let mut queues: Vec<Vec<Option<usize>>> = Vec::new();
    let mut s: usize = 0;
    while s < n
        invariant
            0 <= s <= n,
            queues@.len() == s,
            forall|j: int| 0 <= j < s ==> (#[trigger] queues@[j])@ == Seq::<Option<usize>>::empty(),
        decreases n - s,
    {
        queues.push(Vec::new());
        s = s + 1;
    }
    let mut counter = LocalReplacementCounter { retyped, current: current0, new_to_old: pairs, queues };
    let ghost st0 = counter.state();
    let entry_len = lf.seqs[0].instrs.len();
    counter.run(&lf.seqs, 0, entry_len);
    proof {
        assert(crate::processor::functions::instr_lists(lf.seqs@) =~~= detected_bodies(orig.seqs@, rr, base));
        assert(st0.retyped == init_retyped(pairs@, n_locals_total as int));
        assert(st0.current == current0@);
        assert forall|j: int| 0 <= j < st0.queues.len() implies #[trigger] st0.queues[j]
            == Seq::<Option<usize>>::empty() by {
            assert(st0.queues[j] == queues@[j]@);
        }
        assert(st0.queues =~~= Seq::new(orig.seqs@.len(), |j: int| Seq::<Option<usize>>::empty()));
        assert(st0 =~~= (CounterState {
            retyped: init_retyped(pairs@, n_locals_total as int),
            current: current0@,
            queues: Seq::new(orig.seqs@.len(), |j: int| Seq::<Option<usize>>::empty()),
        }));
        assert(counter.state() =~~= local_fn_plan(orig.seqs@, rr, base, n_locals_total as int, current0@, pairs@));
    }
    let ghost plan = local_fn_plan(orig.seqs@, rr, base, n_locals_total as int, current0@, pairs@);
    let replacer = LocalReplacer::from(counter);
    replacer.apply(lf);
    proof {
        assert forall|s2: int| 0 <= s2 < orig.seqs@.len() implies (#[trigger] final(lf).seqs@[s2]).instrs@
            == transformed_instrs(orig.seqs@, rr, base, n_locals_total as int, current0@, pairs@, s2) by {
            assert(replacer.queue_of(s2) == (if 0 <= s2 < plan.queues.len() {
                plan.queues[s2]
            } else {
                Seq::<Option<usize>>::empty()
            }));
            assert(replacer.retyped@ == plan.retyped);
        }
    }
}

} // verus!

verus! {

/// A substitution vector with no seeds.
pub open spec fn none_seq(n: int) -> Seq<Option<usize>> {
    Seq::new(n as nat, |l: int| None::<usize>)
}

/// The bytecode offset of the first instruction of a body's entry sequence.
pub open spec fn entry_offset(lf: LocalFunction) -> Option<u32> {
    if lf.seqs@.len() > 0 && lf.seqs@[0].instrs@.len() > 0 {
        lf.seqs@[0].instrs@[0].offset
    } else {
        None
    }
}

proof fn lemma_detect_offsets(instrs: Seq<LocatedInstr>, k: int, rr: Seq<bool>, next0: int)
    requires
        0 <= k <= instrs.len(),
    ensures
        forall|j: int|
            0 <= j < k ==> (#[trigger] detect_upto(instrs, k, rr, next0).0[j]).offset == instrs[j].offset,
        detect_upto(instrs, k, rr, next0).0.len() == k,
    decreases k,
{
    if k > 0 {
        lemma_detect_offsets(instrs, k - 1, rr, next0);
    }
}

/// Rewrites a non-catalogued defined function: detects calls that produce
/// reference results, and — only in a guarded function — retypes the locals
/// that receive them, honoring reassignment. A function with such calls that
/// is not guarded is rejected.
#[verifier::rlimit(100)]
pub fn transform_local_fn(module: &mut Module, rr: &Vec<bool>, can_have_locals: bool, fn_id: usize) -> (r: Result<(), Error>)
    requires
        old(module).wf(),
        fn_id < old(module).funcs@.len(),
        rr@.len() == old(module).funcs@.len(),
    ensures
        final(module).wf(),
        final(module).types == old(module).types,
        final(module).tables == old(module).tables,
        final(module).imports == old(module).imports,
        final(module).exports == old(module).exports,
        final(module).custom_section == old(module).custom_section,
        final(module).funcs@.len() == old(module).funcs@.len(),
        forall|g: int|
            0 <= g < old(module).funcs@.len() && g != fn_id ==> #[trigger] final(module).funcs@[g]
                == old(module).funcs@[g],
        final(module).funcs@[fn_id as int].name == old(module).funcs@[fn_id as int].name,
        old(module).locals@.len() <= final(module).locals@.len(),
        forall|i: int| 0 <= i < old(module).locals@.len() ==> #[trigger] final(module).locals@[i] == old(module).locals@[i],
        forall|i: int|
            old(module).locals@.len() <= i < final(module).locals@.len()
                ==> #[trigger] final(module).locals@[i] == ValType::Externref,
        ({
            match old(module).funcs@[fn_id as int].kind {
                FuncKind::Local(lf) => {
                    let base = old(module).locals@.len() as int;
                    let pairs = detect_pairs_upto(lf.seqs@, lf.seqs@.len() as int, rr@, base);
                    let n_total = base + pairs.len();
                    &&& final(module).locals@.len() == n_total
                    &&& (r is Err <==> pairs.len() > 0 && !can_have_locals)
                    &&& (r matches Err(e) ==> (e matches Error::UnexpectedCall { function_name, code_offset }
                        && opt_name_eq(function_name, old(module).funcs@[fn_id as int].name)
                        && code_offset == entry_offset(lf)))
                    &&& (final(module).funcs@[fn_id as int].kind matches FuncKind::Local(nlf) && {
                        &&& nlf.ty == lf.ty
                        &&& nlf.args == lf.args
                        &&& nlf.seqs@.len() == lf.seqs@.len()
                        &&& forall|s: int|
                            0 <= s < lf.seqs@.len() ==> (#[trigger] nlf.seqs@[s]).ty
                                == lf.seqs@[s].ty
                        &&& (r is Ok && pairs.len() > 0 ==> forall|s: int|
                            0 <= s < lf.seqs@.len() ==> (#[trigger] nlf.seqs@[s]).instrs@
                                == transformed_instrs(lf.seqs@, rr@, base, n_total as int, none_seq(n_total as int), pairs, s))
                        &&& (!(r is Ok && pairs.len() > 0) ==> forall|s: int|
                            0 <= s < lf.seqs@.len() ==> (#[trigger] nlf.seqs@[s]).instrs@
                                == detected_body(lf.seqs@, rr@, base, s))
                    })
                },
                _ => {
                    &&& r is Ok
                    &&& final(module).funcs@[fn_id as int] == old(module).funcs@[fn_id as int]
                    &&& final(module).locals == old(module).locals
                },
            }
        }),
{
    let ghost m0 = *module;
    let mut kind = FuncKind::Deleted;
    core::mem::swap(&mut module.funcs[fn_id].kind, &mut kind);
    let mut lf = match kind {
        FuncKind::Local(lf) => lf,
        other => {
            module.funcs[fn_id].kind = other;
            return Ok(());
        },
    };
    let ghost lf0 = lf;
    let ghost base = module.locals@.len() as int;
    proof {
        assert(m0.funcs@[fn_id as int].wf(
            m0.types@.len() as int,
            m0.locals@.len() as int,
            m0.funcs@.len() as int,
        ));
    }
    let pairs = detect_ref_calls(&mut lf, &mut module.locals, rr);
    let ghost pairs_v = pairs@;
    let ghost n_total = base + pairs_v.len();
    let locals_now = module.locals.len();
    proof {
        assert(locals_now as int == n_total);
        lemma_transformed_fn_wf_detect(m0, *module, lf0, lf, rr@, base, fn_id as int);
    }
    if pairs.len() == 0 || !can_have_locals {
        let failed = pairs.len() > 0;
        let code_offset: Option<u32> = if lf.seqs.len() > 0 && lf.seqs[0].instrs.len() > 0 {
            lf.seqs[0].instrs[0].offset
        } else {
            None
        };
        proof {
            if lf0.seqs@.len() > 0 {
                lemma_detect_offsets(
                    lf0.seqs@[0].instrs@,
                    lf0.seqs@[0].instrs@.len() as int,
                    rr@,
                    base + detect_pairs_upto(lf0.seqs@, 0, rr@, base).len() as int,
                );
            }
        }
        let function_name = crate::processor::functions::clone_opt_name(&module.funcs[fn_id].name);
        module.funcs[fn_id].kind = FuncKind::Local(lf);
        proof {
            lemma_module_wf_after_body(m0, *module, fn_id as int);
        }
        if failed {
            return Err(Error::UnexpectedCall { function_name, code_offset });
        }
        return Ok(());
    }
    let n_locals_total = module.locals.len();
    let current0: Vec<Option<usize>> = vec![None; n_locals_total];
    proof {
        assert(current0@ =~= none_seq(n_total));
    }
    apply_locals_plan(&mut lf, pairs, current0, n_locals_total, Ghost(lf0), Ghost(rr@), Ghost(base));
    proof {
        lemma_transformed_fn_wf_plan(
            m0,
            *module,
            lf0,
            lf,
            rr@,
            base,
            base,
            n_total,
            fn_id as int,
            none_seq(n_total),
            pairs_v,
        );
    }
    module.funcs[fn_id].kind = FuncKind::Local(lf);
    proof {
        lemma_module_wf_after_body(m0, *module, fn_id as int);
    }
    Ok(())
}

/// After detection, the body of the extracted function is well-formed for the
/// extended local pool.
proof fn lemma_transformed_fn_wf_detect(m0: Module, m1: Module, lf0: LocalFunction, lf: LocalFunction, rr: Seq<bool>, base: int, fn_id: int)
    requires
        m0.wf(),
        0 <= fn_id < m0.funcs@.len(),
        m0.funcs@[fn_id].kind == FuncKind::Local(lf0),
        base == m0.locals@.len(),
        lf.ty == lf0.ty,
        lf.args == lf0.args,
        lf.seqs@.len() == lf0.seqs@.len(),
        forall|s: int|
            0 <= s < lf0.seqs@.len() ==> (#[trigger] lf.seqs@[s]).ty == lf0.seqs@[s].ty
                && lf.seqs@[s].instrs@ == detected_body(lf0.seqs@, rr, base, s),
        m1.locals@.len() == base + detect_pairs_upto(lf0.seqs@, lf0.seqs@.len() as int, rr, base).len(),
        m1.locals@.len() <= usize::MAX,
    ensures
        seqs_wf(lf.seqs@, m1.locals@.len() as int, m0.funcs@.len() as int),
    decreases 0int,
{
    assert forall|s: int, k: int|
        0 <= s < lf.seqs@.len() && 0 <= k < lf.seqs@[s].instrs@.len() implies instr_wf(
        #[trigger] lf.seqs@[s].instrs@[k].instr,
        s,
        lf.seqs@.len() as int,
        m1.locals@.len() as int,
        m0.funcs@.len() as int,
    ) by {
        assert(m0.funcs@[fn_id].wf(
            m0.types@.len() as int,
            m0.locals@.len() as int,
            m0.funcs@.len() as int,
        ));
        let next_s = base + detect_pairs_upto(lf0.seqs@, s, rr, base).len() as int;
        lemma_detect_pairs_prefix_bound(lf0.seqs@, s, lf0.seqs@.len() as int, rr, base);
        lemma_detect_bounds(
            lf0.seqs@[s].instrs@,
            lf0.seqs@[s].instrs@.len() as int,
            rr,
            next_s,
            s,
            lf0.seqs@.len() as int,
            base,
            m0.funcs@.len() as int,
        );
        lemma_detect_len(lf0.seqs@[s].instrs@, lf0.seqs@[s].instrs@.len() as int, rr, next_s);
        lemma_instr_wf_extended(
            lf.seqs@[s].instrs@[k].instr,
            s,
            lf.seqs@.len() as int,
            next_s + detect_upto(lf0.seqs@[s].instrs@, lf0.seqs@[s].instrs@.len() as int, rr, next_s).1.len() as int,
            base,
            m1.locals@.len() as int,
            m0.funcs@.len() as int,
        );
    }
}

/// The fresh-local numbering of any sequence stays below the final local
/// count.
proof fn lemma_detect_pairs_prefix_bound(seqs: Seq<InstrSeq>, s: int, n: int, rr: Seq<bool>, base: int)
    requires
        0 <= s < n,
    ensures
        detect_pairs_upto(seqs, s, rr, base).len() + detect_upto(
            seqs[s].instrs@,
            seqs[s].instrs@.len() as int,
            rr,
            base + detect_pairs_upto(seqs, s, rr, base).len() as int,
        ).1.len() <= detect_pairs_upto(seqs, n, rr, base).len(),
    decreases n,
{
    if s + 1 < n {
        lemma_detect_pairs_prefix_bound(seqs, s, n - 1, rr, base);
    }
}

proof fn lemma_instr_wf_extended(i: Instr, sid: int, n_seqs: int, local_bound: int, base: int, n_total: int, n_funcs: int)
    requires
        instr_wf(i, sid, n_seqs, if base > local_bound { base } else { local_bound }, n_funcs),
        base <= n_total,
        local_bound <= n_total,
    ensures
        instr_wf(i, sid, n_seqs, n_total, n_funcs),
{
}

/// After the retyping plan is applied, the body is well-formed for the
/// extended local pool.
proof fn lemma_transformed_fn_wf_plan(m0: Module, m1: Module, lf0: LocalFunction, lf: LocalFunction, rr: Seq<bool>, base: int, detect_base: int, n_total: int, fn_id: int, current0: Seq<Option<usize>>, plan_pairs: Seq<(usize, usize)>)
    requires
        m0.wf(),
        0 <= fn_id < m0.funcs@.len(),
        (m0.funcs@[fn_id].kind matches FuncKind::Local(olf) && olf.seqs == lf0.seqs),
        base == m0.locals@.len(),
        base <= detect_base,
        n_total == detect_base + detect_pairs_upto(lf0.seqs@, lf0.seqs@.len() as int, rr, detect_base).len(),
        n_total <= usize::MAX,
        forall|l: int| 0 <= l < current0.len() ==> ((#[trigger] current0[l]) matches Some(nl) ==> nl < n_total),
        lf.seqs@.len() == lf0.seqs@.len(),
        forall|s: int|
            0 <= s < lf0.seqs@.len() ==> (#[trigger] lf.seqs@[s]).instrs@ == transformed_instrs(
                lf0.seqs@,
                rr,
                detect_base,
                n_total,
                current0,
                plan_pairs,
                s,
            ),
    ensures
        seqs_wf(lf.seqs@, n_total, m0.funcs@.len() as int),
{
    let pairs = plan_pairs;
    let bodies = detected_bodies(lf0.seqs@, rr, detect_base);
    let plan = local_fn_plan(lf0.seqs@, rr, detect_base, n_total, current0, plan_pairs);
    assert(m0.funcs@[fn_id].wf(
        m0.types@.len() as int,
        m0.locals@.len() as int,
        m0.funcs@.len() as int,
    ));
    // detected bodies are wf for the extended pool
    assert forall|s: int, k: int|
        0 <= s < bodies.len() && 0 <= k < bodies[s].len() implies instr_wf(
        (#[trigger] bodies[s][k]).instr,
        s,
        lf0.seqs@.len() as int,
        n_total,
        m0.funcs@.len() as int,
    ) by {
        let next_s = detect_base + detect_pairs_upto(lf0.seqs@, s, rr, detect_base).len() as int;
        lemma_detect_pairs_prefix_bound(lf0.seqs@, s, lf0.seqs@.len() as int, rr, detect_base);
        lemma_detect_bounds(
            lf0.seqs@[s].instrs@,
            lf0.seqs@[s].instrs@.len() as int,
            rr,
            next_s,
            s,
            lf0.seqs@.len() as int,
            base,
            m0.funcs@.len() as int,
        );
        lemma_detect_len(lf0.seqs@[s].instrs@, lf0.seqs@[s].instrs@.len() as int, rr, next_s);
        lemma_instr_wf_extended(
            bodies[s][k].instr,
            s,
            lf0.seqs@.len() as int,
            next_s + detect_upto(lf0.seqs@[s].instrs@, lf0.seqs@[s].instrs@.len() as int, rr, next_s).1.len() as int,
            base,
            n_total,
            m0.funcs@.len() as int,
        );
    }
    // plan queues only name locals below the extended pool
    lemma_counter_run_shape(bodies, 0, bodies[0].len() as int, pairs, CounterState {
        retyped: init_retyped(pairs, n_total),
        current: current0,
        queues: Seq::new(lf0.seqs@.len(), |j: int| Seq::<Option<usize>>::empty()),
    });
    lemma_counter_run_bounds(bodies, 0, bodies[0].len() as int, pairs, CounterState {
        retyped: init_retyped(pairs, n_total),
        current: current0,
        queues: Seq::new(lf0.seqs@.len(), |j: int| Seq::<Option<usize>>::empty()),
    }, n_total);
    assert forall|s: int, k: int|
        0 <= s < lf.seqs@.len() && 0 <= k < lf.seqs@[s].instrs@.len() implies instr_wf(
        #[trigger] lf.seqs@[s].instrs@[k].instr,
        s,
        lf.seqs@.len() as int,
        n_total,
        m0.funcs@.len() as int,
    ) by {
        let queue = if 0 <= s < plan.queues.len() {
            plan.queues[s]
        } else {
            Seq::<Option<usize>>::empty()
        };
        lemma_rewrite_gets_wf(
            bodies[s],
            bodies[s].len() as int,
            plan.retyped,
            queue,
            0,
            s,
            lf.seqs@.len() as int,
            n_total,
            m0.funcs@.len() as int,
        );
        lemma_rewrite_gets_len(bodies[s], bodies[s].len() as int, plan.retyped, queue, 0);
        assert(lf.seqs@[s].instrs@ == rewrite_gets(bodies[s], plan.retyped, queue));
    }
}

/// A module stays well-formed when one defined function's body is replaced by
/// a body that is well-formed for the (possibly extended) pools.
proof fn lemma_module_wf_after_body(m0: Module, m1: Module, fn_id: int)
    requires
        m0.wf(),
        0 <= fn_id < m0.funcs@.len(),
        m1.types == m0.types,
        m1.tables == m0.tables,
        m1.imports == m0.imports,
        m1.exports == m0.exports,
        m1.funcs@.len() == m0.funcs@.len(),
        m0.locals@.len() <= m1.locals@.len(),
        forall|g: int| 0 <= g < m0.funcs@.len() && g != fn_id ==> #[trigger] m1.funcs@[g] == m0.funcs@[g],
        ({
            match m1.funcs@[fn_id].kind {
                FuncKind::Local(nlf) => {
                    &&& nlf.ty < m0.types@.len()
                    &&& nlf.seqs@.len() >= 1
                    &&& forall|a: int| 0 <= a < nlf.args@.len() ==> #[trigger] nlf.args@[a] < m1.locals@.len()
                    &&& seqs_wf(nlf.seqs@, m1.locals@.len() as int, m1.funcs@.len() as int)
                },
                FuncKind::Import { ty } => ty < m0.types@.len(),
                FuncKind::Deleted => true,
            }
        }),
    ensures
        m1.wf(),
{
    assert forall|f: int| 0 <= f < m1.funcs@.len() implies (#[trigger] m1.funcs@[f]).wf(
        m1.types@.len() as int,
        m1.locals@.len() as int,
        m1.funcs@.len() as int,
    ) by {
        if f != fn_id {
            crate::wasm::lemma_func_wf_monotone(
                m0.funcs@[f],
                m0.types@.len() as int,
                m0.locals@.len() as int,
                m0.funcs@.len() as int,
                m1.types@.len() as int,
                m1.locals@.len() as int,
                m1.funcs@.len() as int,
            );
        }
    }
}

} // verus!

verus! {

/// The `(new local, old local)` pairs of the replaced reference parameters of
/// an export, over its first `k` parameters; fresh locals are numbered from
/// `base` upward.
pub open spec fn arg_pairs_upto(args: Seq<usize>, function: Function, k: int, base: int) -> Seq<(usize, usize)>
    decreases k,
{
    if k <= 0 {
        Seq::<(usize, usize)>::empty()
    } else {
        let prev = arg_pairs_upto(args, function, k - 1, base);
        if function.externrefs.spec_is_set(k - 1) {
            prev.push(((base + prev.len()) as usize, args[k - 1]))
        } else {
            prev
        }
    }
}

/// The parameter locals of an export after its marked parameters are replaced
/// by fresh reference-typed locals.
pub open spec fn new_args_upto(args: Seq<usize>, function: Function, k: int, base: int) -> Seq<usize>
    decreases k,
{
    if k <= 0 {
        Seq::<usize>::empty()
    } else {
        let prev = new_args_upto(args, function, k - 1, base);
        if function.externrefs.spec_is_set(k - 1) {
            prev.push((base + arg_pairs_upto(args, function, k - 1, base).len()) as usize)
        } else {
            prev.push(args[k - 1])
        }
    }
}

/// The initial substitutions of a cloned export: each replaced parameter's
/// old local starts substituted by its fresh reference local.
pub open spec fn seeded_current(pairs: Seq<(usize, usize)>, k: int, n: int) -> Seq<Option<usize>>
    decreases k,
{
    if k <= 0 {
        none_seq(n)
    } else {
        let prev = seeded_current(pairs, k - 1, n);
        if pairs[k - 1].1 < n {
            prev.update(pairs[k - 1].1 as int, Some(pairs[k - 1].0))
        } else {
            prev
        }
    }
}

proof fn lemma_arg_pairs_bounds(args: Seq<usize>, function: Function, k: int, base: int, n_locals: int)
    requires
        0 <= k <= args.len(),
        0 <= base,
        base + arg_pairs_upto(args, function, k, base).len() <= usize::MAX,
        forall|a: int| 0 <= a < args.len() ==> #[trigger] args[a] < n_locals,
    ensures
        arg_pairs_upto(args, function, k, base).len() <= k,
        forall|t: int|
            0 <= t < arg_pairs_upto(args, function, k, base).len() ==> (#[trigger] arg_pairs_upto(
                args,
                function,
                k,
                base,
            )[t]).0 == base + t && arg_pairs_upto(args, function, k, base)[t].1 < n_locals,
    decreases k,
{
    if k > 0 {
        lemma_arg_pairs_bounds(args, function, k - 1, base, n_locals);
        let prev = arg_pairs_upto(args, function, k - 1, base);
        let cur = arg_pairs_upto(args, function, k, base);
        assert forall|t: int|
            0 <= t < cur.len() implies (#[trigger] cur[t]).0 == base + t && cur[t].1 < n_locals by {
            if t < prev.len() {
                assert(cur[t] == prev[t]);
            } else {
                assert(cur[t] == ((base + prev.len()) as usize, args[k - 1]));
            }
        }
    }
}

proof fn lemma_seeded_current_bounds(pairs: Seq<(usize, usize)>, k: int, n: int, bound: int)
    requires
        0 <= k <= pairs.len(),
        0 <= n,
        forall|t: int| 0 <= t < pairs.len() ==> (#[trigger] pairs[t]).0 < bound,
    ensures
        seeded_current(pairs, k, n).len() == n,
        forall|l: int|
            0 <= l < n ==> ((#[trigger] seeded_current(pairs, k, n)[l]) matches Some(nl) ==> nl < bound),
    decreases k,
{
    if k > 0 {
        lemma_seeded_current_bounds(pairs, k - 1, n, bound);
        let prev = seeded_current(pairs, k - 1, n);
        let cur = seeded_current(pairs, k, n);
        assert forall|l: int| 0 <= l < n implies ((#[trigger] cur[l]) matches Some(nl) ==> nl
            < bound) by {
            if pairs[k - 1].1 < n && l == pairs[k - 1].1 {
                assert(cur[l] == Some(pairs[k - 1].0));
                assert(pairs[k - 1].0 < bound);
            } else {
                assert(cur[l] == prev[l]);
            }
        }
    } else {
        assert forall|l: int| 0 <= l < n implies ((#[trigger] seeded_current(pairs, k, n)[l]) matches Some(nl) ==> nl < bound) by {
            assert(seeded_current(pairs, k, n)[l] is None);
        }
    }
}

/// Rewrites a catalogued export: patches its type — every marked position
/// becomes a reference — replaces its marked parameter locals by fresh
/// reference-typed locals, and rebuilds its body so that reads of replaced
/// parameters and stored reference results observe the new locals, honoring
/// reassignment.
#[verifier::rlimit(100)]
pub fn transform_export(module: &mut Module, rr: &Vec<bool>, fn_id: usize, function: &Function) -> (r: Result<(), Error>)
    requires
        old(module).wf(),
        fn_id < old(module).funcs@.len(),
        rr@.len() == old(module).funcs@.len(),
        old(module).funcs@[fn_id as int].kind matches FuncKind::Local(_),
        function.externrefs.wf(),
    ensures
        final(module).wf(),
        final(module).tables == old(module).tables,
        final(module).imports == old(module).imports,
        final(module).exports == old(module).exports,
        final(module).custom_section == old(module).custom_section,
        final(module).funcs@.len() == old(module).funcs@.len(),
        forall|g: int|
            0 <= g < old(module).funcs@.len() && g != fn_id ==> #[trigger] final(module).funcs@[g]
                == old(module).funcs@[g],
        forall|i: int| 0 <= i < old(module).types@.len() ==> #[trigger] final(module).types@[i] == old(module).types@[i],
        ({
            let lf = old(module).funcs@[fn_id as int].kind->Local_0;
            let p = old(module).types@[lf.ty as int].params@;
            let q = old(module).types@[lf.ty as int].results@;
            match r {
                Ok(u) => {
                    &&& lf.ty < old(module).types@.len()
                    &&& p.len() + q.len() == function.externrefs.bit_len
                    &&& final(module).types@.len() == old(module).types@.len() + 1
                    &&& (final(module).funcs@[fn_id as int].kind matches FuncKind::Local(nlf) && {
                        let base = old(module).locals@.len() as int;
                        let apairs = arg_pairs_upto(lf.args@, *function, lf.args@.len() as int, base);
                        let base2 = base + apairs.len();
                        let dpairs = detect_pairs_upto(lf.seqs@, lf.seqs@.len() as int, rr@, base2);
                        let n_total = base2 + dpairs.len();
                        &&& nlf.ty == old(module).types@.len()
                        &&& final(module).types@[nlf.ty as int].params@.len() == p.len()
                        &&& forall|i: int|
                            0 <= i < p.len() ==> final(module).types@[nlf.ty as int].params@[i] == (
                            if function.externrefs.spec_is_set(i) {
                                ValType::Externref
                            } else {
                                p[i]
                            })
                        &&& final(module).types@[nlf.ty as int].results@.len() == q.len()
                        &&& forall|j: int|
                            0 <= j < q.len() ==> final(module).types@[nlf.ty as int].results@[j] == (
                            if function.externrefs.spec_is_set(p.len() + j) {
                                ValType::Externref
                            } else {
                                q[j]
                            })
                        &&& nlf.args@ == new_args_upto(lf.args@, *function, lf.args@.len() as int, base)
                        &&& nlf.seqs@.len() == lf.seqs@.len()
                        &&& forall|s: int|
                            0 <= s < lf.seqs@.len() ==> (#[trigger] nlf.seqs@[s]).ty == lf.seqs@[s].ty
                                && nlf.seqs@[s].instrs@ == transformed_instrs(
                                lf.seqs@,
                                rr@,
                                base2,
                                n_total,
                                seeded_current(apairs, apairs.len() as int, n_total),
                                apairs + dpairs,
                                s,
                            )
                        &&& final(module).locals@.len() == n_total
                        &&& forall|i: int| 0 <= i < base ==> #[trigger] final(module).locals@[i] == old(module).locals@[i]
                        &&& forall|i: int|
                            base <= i < n_total ==> #[trigger] final(module).locals@[i] == ValType::Externref
                    })
                },
                Err(e) => {
                    &&& *final(module) == *old(module)
                    &&& (e matches Error::UnexpectedArity { .. } || e matches Error::UnexpectedType { .. })
                    &&& lf.ty < old(module).types@.len() ==> (
                        r is Err <==> !(p.len() + q.len() == function.externrefs.bit_len && forall|i: int|
                            0 <= i < p.len() + q.len() && (#[trigger] function.externrefs.spec_is_set(i))
                                ==> sig_elem(p, q, i) == ValType::I32))
                },
            }
        }),
{
    let ghost m0 = *module;
    let lf_ty: usize = match &module.funcs[fn_id].kind {
        FuncKind::Local(lf) => lf.ty,
        _ => 0,
    };
    proof {
        assert(m0.funcs@[fn_id as int].wf(
            m0.types@.len() as int,
            m0.locals@.len() as int,
            m0.funcs@.len() as int,
        ));
    }
    let (new_params, new_results) = match patch_type_inner(&module.types, function, lf_ty) {
        Ok(pr) => pr,
        Err(e) => {
            return Err(e);
        },
    };
    let new_ty = module.types.len();
    module.types.push(FuncType { params: new_params, results: new_results });

    let mut kind = FuncKind::Deleted;
    core::mem::swap(&mut module.funcs[fn_id].kind, &mut kind);
    let mut lf = match kind {
        FuncKind::Local(lf) => lf,
        _ => {
            proof {
                assert(false);
            }
            unreached()
        },
    };
    let ghost lf0 = lf;
    let ghost m_swapped = *module;
    let ghost base = module.locals@.len() as int;

    // replace marked parameter locals by fresh reference-typed locals
    let n_args = lf.args.len();
    let mut arg_pairs: Vec<(usize, usize)> = Vec::new();
    let mut idx: usize = 0;
    while idx < n_args
        invariant
            0 <= idx <= n_args,
            n_args == lf0.args@.len(),
            function.externrefs.wf(),
            lf.ty == lf0.ty,
            lf.seqs == lf0.seqs,
            lf.args@.len() == n_args,
            base == old(module).locals@.len(),
            arg_pairs@ == arg_pairs_upto(lf0.args@, *function, idx as int, base),
            lf.args@ == new_args_upto(lf0.args@, *function, idx as int, base) + lf0.args@.skip(idx as int),
            module.locals@.len() == base + arg_pairs@.len(),
            forall|i: int| 0 <= i < base ==> #[trigger] module.locals@[i] == old(module).locals@[i],
            forall|i: int|
                base <= i < module.locals@.len() ==> #[trigger] module.locals@[i] == ValType::Externref,
            module.funcs == m_swapped.funcs,
            module.types == m_swapped.types,
            module.tables == m_swapped.tables,
            module.imports == m_swapped.imports,
            module.exports == m_swapped.exports,
            module.custom_section == m_swapped.custom_section,
        decreases n_args - idx,
    {
        proof {
            assert(lf.args@[idx as int] == lf0.args@[idx as int]);
        }
        if function.externrefs.is_set(idx) {
            let new_local = module.locals.len();
            module.locals.push(ValType::Externref);
            let old_local = lf.args[idx];
            arg_pairs.push((new_local, old_local));
            lf.args[idx] = new_local;
        }
        proof {
            assert(lf.args@ =~= new_args_upto(lf0.args@, *function, idx as int + 1, base) + lf0.args@.skip(
                idx as int + 1,
            ));
        }
        idx = idx + 1;
    }
    proof {
        assert(lf.args@ =~= new_args_upto(lf0.args@, *function, n_args as int, base));
    }
    let ghost apairs = arg_pairs@;
    let ghost base2 = base + apairs.len();

    // detect reference-producing calls
    proof {
        crate::wasm::lemma_seqs_wf_monotone(
            lf.seqs@,
            base,
            m0.funcs@.len() as int,
            base2,
            m0.funcs@.len() as int,
        );
    }
    let ghost lf_args = lf;
    let detect_pairs = detect_ref_calls(&mut lf, &mut module.locals, rr);
    let ghost dpairs = detect_pairs@;
    let n_total = module.locals.len();
    let ghost n_total_i = n_total as int;

    // seeded substitutions for the replaced parameters
    let mut current0: Vec<Option<usize>> = vec![None; n_total];
    let n_seed = arg_pairs.len();
    let mut t: usize = 0;
    while t < n_seed
        invariant
            0 <= t <= n_seed,
            n_seed == arg_pairs@.len(),
            current0@.len() == n_total,
            current0@ == seeded_current(arg_pairs@, t as int, n_total as int),
        decreases n_seed - t,
    {
        let (nl, ol) = arg_pairs[t];
        if ol < n_total {
            current0[ol] = Some(nl);
        }
        t = t + 1;
    }
    // combined plan pairs
    let mut plan_pairs = arg_pairs;
    let mut detect_tail = detect_pairs;
    plan_pairs.append(&mut detect_tail);
    proof {
        assert(plan_pairs@ == apairs + dpairs);
        assert(lf_args.seqs@.len() == lf0.seqs@.len());
        assert(lf0.seqs@.len() >= 1);
        assert(lf.seqs@.len() >= 1);
        assert(current0@.len() == n_total);
    }
    apply_locals_plan(&mut lf, plan_pairs, current0, n_total, Ghost(lf_args), Ghost(rr@), Ghost(base2));
    lf.ty = new_ty;
    proof {
        assert(lf_args.seqs == lf0.seqs);
        assert(base2 + dpairs.len() == n_total_i);
        assert(base2 <= n_total_i <= usize::MAX);
        assert(m0.funcs@[fn_id as int].wf(
            m0.types@.len() as int,
            m0.locals@.len() as int,
            m0.funcs@.len() as int,
        ));
        assert forall|a: int| 0 <= a < lf0.args@.len() implies #[trigger] lf0.args@[a] < base by {}
        lemma_arg_pairs_bounds(lf0.args@, *function, lf0.args@.len() as int, base, base);
        assert forall|t: int| 0 <= t < apairs.len() implies (#[trigger] apairs[t]).0 < base2 by {
            assert(apairs[t].0 == base + t);
        }
        lemma_seeded_current_bounds(apairs, apairs.len() as int, n_total_i, base2);
        lemma_transformed_fn_wf_plan(
            m0,
            *module,
            lf0,
            lf,
            rr@,
            base,
            base2,
            n_total_i,
            fn_id as int,
            seeded_current(apairs, apairs.len() as int, n_total_i),
            apairs + dpairs,
        );
    }
    module.funcs[fn_id].kind = FuncKind::Local(lf);
    proof {
        lemma_arg_pairs_bounds(lf0.args@, *function, lf0.args@.len() as int, base, base2);
        assert forall|a: int| 0 <= a < lf.args@.len() implies #[trigger] lf.args@[a] < n_total_i by {
            lemma_new_args_bounds(lf0.args@, *function, lf0.args@.len() as int, base, base2);
        }
        lemma_module_wf_after_body_types(m0, *module, fn_id as int);
    }
    Ok(())
}

proof fn lemma_new_args_bounds(args: Seq<usize>, function: Function, k: int, base: int, bound: int)
    requires
        0 <= k <= args.len(),
        0 <= base,
        base + arg_pairs_upto(args, function, k, base).len() <= bound,
        bound <= usize::MAX,
        forall|a: int| 0 <= a < args.len() ==> #[trigger] args[a] < base,
    ensures
        forall|a: int|
            0 <= a < new_args_upto(args, function, k, base).len() ==> #[trigger] new_args_upto(
                args,
                function,
                k,
                base,
            )[a] < bound,
    decreases k,
{
    if k > 0 {
        lemma_new_args_bounds(args, function, k - 1, base, bound);
        assert(arg_pairs_upto(args, function, k - 1, base).len() <= arg_pairs_upto(args, function, k, base).len());
        lemma_arg_pairs_bounds(args, function, k - 1, base, base);
        let prev = new_args_upto(args, function, k - 1, base);
        let cur = new_args_upto(args, function, k, base);
        assert forall|a: int| 0 <= a < cur.len() implies #[trigger] cur[a] < bound by {
            if a < prev.len() {
                assert(cur[a] == prev[a]);
            }
        }
    }
}

/// Like [`lemma_module_wf_after_body`], additionally allowing the type pool to
/// have grown.
proof fn lemma_module_wf_after_body_types(m0: Module, m1: Module, fn_id: int)
    requires
        m0.wf(),
        0 <= fn_id < m0.funcs@.len(),
        m1.tables == m0.tables,
        m1.imports == m0.imports,
        m1.exports == m0.exports,
        m0.types@.len() <= m1.types@.len(),
        m1.funcs@.len() == m0.funcs@.len(),
        m0.locals@.len() <= m1.locals@.len(),
        forall|g: int| 0 <= g < m0.funcs@.len() && g != fn_id ==> #[trigger] m1.funcs@[g] == m0.funcs@[g],
        ({
            match m1.funcs@[fn_id].kind {
                FuncKind::Local(nlf) => {
                    &&& nlf.ty < m1.types@.len()
                    &&& nlf.seqs@.len() >= 1
                    &&& forall|a: int| 0 <= a < nlf.args@.len() ==> #[trigger] nlf.args@[a] < m1.locals@.len()
                    &&& seqs_wf(nlf.seqs@, m1.locals@.len() as int, m1.funcs@.len() as int)
                },
                FuncKind::Import { ty } => ty < m1.types@.len(),
                FuncKind::Deleted => true,
            }
        }),
    ensures
        m1.wf(),
{
    assert forall|f: int| 0 <= f < m1.funcs@.len() implies (#[trigger] m1.funcs@[f]).wf(
        m1.types@.len() as int,
        m1.locals@.len() as int,
        m1.funcs@.len() as int,
    ) by {
        if f != fn_id {
            crate::wasm::lemma_func_wf_monotone(
                m0.funcs@[f],
                m0.types@.len() as int,
                m0.locals@.len() as int,
                m0.funcs@.len() as int,
                m1.types@.len() as int,
                m1.locals@.len() as int,
                m1.funcs@.len() as int,
            );
        }
    }
}

} // verus!

verus! {

/// Whether `e` exports under `name`.
pub open spec fn export_matches(e: Export, name: Seq<char>) -> bool {
    e.name@ == name
}

/// The index of the first export under `name`, if any.
pub open spec fn find_export(exports: Seq<Export>, name: Seq<char>) -> Option<int>
    decreases exports.len(),
{
    if exports.len() == 0 {
        None
    } else if export_matches(exports[0], name) {
        Some(0)
    } else {
        match find_export(exports.drop_first(), name) {
            Some(i) => Some(i + 1),
            None => None,
        }
    }
}

proof fn lemma_find_export_at(exports: Seq<Export>, name: Seq<char>, i: int)
    requires
        0 <= i < exports.len(),
        export_matches(exports[i], name),
        forall|j: int| 0 <= j < i ==> !export_matches(#[trigger] exports[j], name),
    ensures
        find_export(exports, name) == Some(i),
    decreases exports.len(),
{
    if i > 0 {
        lemma_find_export_at(exports.drop_first(), name, i - 1);
    }
}

proof fn lemma_find_export_none(exports: Seq<Export>, name: Seq<char>)
    requires
        forall|j: int| 0 <= j < exports.len() ==> !export_matches(#[trigger] exports[j], name),
    ensures
        find_export(exports, name) is None,
    decreases exports.len(),
{
    if exports.len() > 0 {
        lemma_find_export_none(exports.drop_first(), name);
    }
}

/// Whether a catalog entry resolves: an export must exist and be a function;
/// an import may be absent, but a present one must be a function.
pub open spec fn entry_resolves(m: Module, function: Function) -> bool {
    match function.kind {
        FunctionKind::Export => match find_export(m.exports@, function.name@) {
            Some(i) => m.exports@[i].item matches ExportItem::Function { .. },
            None => false,
        },
        FunctionKind::Import(mn) => match crate::processor::functions::find_import(
            m.imports@,
            mn@,
            function.name@,
        ) {
            Some(i) => m.imports@[i].kind matches ImportKind::Function { .. },
            None => true,
        },
    }
}

/// The function id a catalog entry resolves to, when it resolves to one.
pub open spec fn spec_function_id(m: Module, function: Function) -> Option<usize> {
    match function.kind {
        FunctionKind::Export => match find_export(m.exports@, function.name@) {
            Some(i) => match m.exports@[i].item {
                ExportItem::Function { func } => Some(func),
                _ => None,
            },
            None => None,
        },
        FunctionKind::Import(mn) => match crate::processor::functions::find_import(
            m.imports@,
            mn@,
            function.name@,
        ) {
            Some(i) => match m.imports@[i].kind {
                ImportKind::Function { func } => Some(func),
                _ => None,
            },
            None => None,
        },
    }
}

/// The ids all catalog entries resolve to.
pub open spec fn spec_ids(m: Module, functions: Seq<Function>) -> Seq<Option<usize>> {
    Seq::new(functions.len(), |e: int| spec_function_id(m, functions[e]))
}

/// No two catalog entries resolve to the same function.
pub open spec fn distinct_resolutions(m: Module, functions: Seq<Function>) -> bool {
    forall|e1: int, e2: int|
        0 <= e1 < e2 < functions.len() ==> !(spec_function_id(m, #[trigger] functions[e1]) is Some
            && spec_function_id(m, functions[e1]) == spec_function_id(m, #[trigger] functions[e2]))
}

/// The number of results of function `fid`'s type, read defensively: zero for
/// a deleted entry or an out-of-range type index.
pub open spec fn func_results_len(m: Module, fid: usize) -> int {
    if fid < m.funcs@.len() {
        match m.funcs@[fid as int].kind {
            FuncKind::Import { ty } => if ty < m.types@.len() {
                m.types@[ty as int].results@.len() as int
            } else {
                0
            },
            FuncKind::Local(lf) => if lf.ty < m.types@.len() {
                m.types@[lf.ty as int].results@.len() as int
            } else {
                0
            },
            FuncKind::Deleted => 0,
        }
    } else {
        0
    }
}

/// Whether entry `e`, resolved to `fid`, declares a reference result: one
/// result, and the last position marked.
pub open spec fn entry_declares_ref_result(m: Module, function: Function, fid: usize) -> bool {
    &&& func_results_len(m, fid) == 1
    &&& function.externrefs.bit_len > 0
    &&& function.externrefs.spec_is_set(function.externrefs.bit_len - 1)
}

/// The initial returns-reference vector: only the synthesized *get* function.
pub open spec fn rr_init(get_ref: Option<usize>, n: int) -> Seq<bool> {
    Seq::new(n as nat, |f: int| get_ref == Some(f as usize))
}

/// The returns-reference vector after the first `k` catalog entries are
/// folded in.
pub open spec fn rr_after(m: Module, functions: Seq<Function>, k: int, rr0: Seq<bool>) -> Seq<bool>
    decreases k,
{
    if k <= 0 {
        rr0
    } else {
        let prev = rr_after(m, functions, k - 1, rr0);
        match spec_function_id(m, functions[k - 1]) {
            Some(fid) => if entry_declares_ref_result(m, functions[k - 1], fid) && fid < prev.len() {
                prev.update(fid as int, true)
            } else {
                prev
            },
            None => prev,
        }
    }
}

/// The returns-reference vector the processing uses.
pub open spec fn spec_returns_ref(m: Module, functions: Seq<Function>, get_ref: Option<usize>) -> Seq<bool> {
    rr_after(m, functions, functions.len() as int, rr_init(get_ref, m.funcs@.len() as int))
}

/// Whether patching a `(params, results)` pair per the entry succeeds: the
/// arity matches and every marked position holds the surrogate type.
pub open spec fn entry_patchable(p: Seq<ValType>, q: Seq<ValType>, function: Function) -> bool {
    p.len() + q.len() == function.externrefs.bit_len && forall|i: int|
        0 <= i < p.len() + q.len() && (#[trigger] function.externrefs.spec_is_set(i)) ==> sig_elem(
            p,
            q,
            i,
        ) == ValType::I32
}

/// Whether the entry's resolved function can be patched against its type in
/// `m`; trivially true where no patching happens (an unused import).
pub open spec fn entry_patchable_in(m: Module, function: Function) -> bool {
    match spec_function_id(m, function) {
        Some(fid) => fid < m.funcs@.len() ==> (match m.funcs@[fid as int].kind {
            FuncKind::Import { ty } => ty < m.types@.len() ==> entry_patchable(
                m.types@[ty as int].params@,
                m.types@[ty as int].results@,
                function,
            ),
            FuncKind::Local(lf) => lf.ty < m.types@.len() ==> entry_patchable(
                m.types@[lf.ty as int].params@,
                m.types@[lf.ty as int].results@,
                function,
            ),
            FuncKind::Deleted => true,
        }),
        None => true,
    }
}

/// Like [`import_fn_patched_for`], for a defined (cloned export) function.
pub open spec fn export_fn_patched_for(m: Module, func: usize, function: Function) -> bool {
    &&& func < m.funcs@.len()
    &&& m.funcs@[func as int].kind is Local
    &&& marked_positions_are_references(m, m.funcs@[func as int].kind->Local_0.ty, function)
}

/// Resolves a catalog entry to a function id. An export is looked up by name
/// and must exist and be a function. An import is looked up by module and
/// name; a catalogued import the module never uses resolves to `None`, which
/// is not an error.
pub fn function_id(function: &Function, module: &Module) -> (r: Result<Option<usize>, Error>)
    ensures
        r is Ok <==> entry_resolves(*module, *function),
        r matches Ok(o) ==> o == spec_function_id(*module, *function),
        match function.kind {
            FunctionKind::Export => match find_export(module.exports@, function.name@) {
                Some(i) => match module.exports@[i].item {
                    ExportItem::Function { func } => r == Ok::<Option<usize>, Error>(Some(func)),
                    _ => r matches Err(e) && e matches Error::UnexpectedExportType(n) && n@
                        == function.name@,
                },
                None => r matches Err(e) && e matches Error::NoExport(n) && n@ == function.name@,
            },
            FunctionKind::Import(_) => {
                let mn = kind_module(function.kind)->0;
                match crate::processor::functions::find_import(module.imports@, mn, function.name@) {
                    Some(i) => match module.imports@[i].kind {
                        ImportKind::Function { func } => r == Ok::<Option<usize>, Error>(Some(func)),
                        _ => r matches Err(e) && (e matches Error::UnexpectedImportType { module: m, name: n }
                            && m@ == mn && n@ == function.name@),
                    },
                    None => r == Ok::<Option<usize>, Error>(None),
                }
            },
        },
        r matches Ok(o) ==> (o matches Some(f) ==> (module.wf() ==> f < module.funcs@.len())),
{
    match &function.kind {
        FunctionKind::Export => {
            let n = module.exports.len();
            let mut i: usize = 0;
            while i < n
                invariant
                    function.kind matches FunctionKind::Export,
                    0 <= i <= n,
                    n == module.exports@.len(),
                    forall|j: int| 0 <= j < i ==> !export_matches(#[trigger] module.exports@[j], function.name@),
                decreases n - i,
            {
                if str_eq(module.exports[i].name.as_str(), function.name.as_str()) {
                    proof {
                        lemma_find_export_at(module.exports@, function.name@, i as int);
                    }
                    match &module.exports[i].item {
                        ExportItem::Function { func } => {
                            return Ok(Some(*func));
                        },
                        _ => {
                            return Err(Error::UnexpectedExportType(function.name.clone()));
                        },
                    }
                }
                i = i + 1;
            }
            proof {
                lemma_find_export_none(module.exports@, function.name@);
            }
            Err(Error::NoExport(function.name.clone()))
        },
        FunctionKind::Import(module_name) => {
            let n = module.imports.len();
            let mut i: usize = 0;
            while i < n
                invariant
                    function.kind matches FunctionKind::Import(m2) && m2@ == module_name@,
                    0 <= i <= n,
                    n == module.imports@.len(),
                    forall|j: int|
                        0 <= j < i ==> !crate::processor::functions::import_matches(
                            #[trigger] module.imports@[j],
                            module_name@,
                            function.name@,
                        ),
                decreases n - i,
            {
                if str_eq(module.imports[i].module.as_str(), module_name.as_str()) && str_eq(
                    module.imports[i].name.as_str(),
                    function.name.as_str(),
                ) {
                    proof {
                        crate::processor::functions::lemma_find_import_at(
                            module.imports@,
                            module_name@,
                            function.name@,
                            i as int,
                        );
                    }
                    match &module.imports[i].kind {
                        ImportKind::Function { func } => {
                            return Ok(Some(*func));
                        },
                        _ => {
                            return Err(Error::UnexpectedImportType {
                                module: module_name.clone(),
                                name: function.name.clone(),
                            });
                        },
                    }
                }
                i = i + 1;
            }
            proof {
                crate::processor::functions::lemma_find_import_none(
                    module.imports@,
                    module_name@,
                    function.name@,
                );
            }
            Ok(None)
        },
    }
}

/// Patches the type of a catalogued imported function in place: the import's
/// type index is redirected to the freshly added patched type.
pub fn transform_import(module: &mut Module, function: &Function, fn_id: usize) -> (r: Result<(), Error>)
    requires
        old(module).wf(),
        fn_id < old(module).funcs@.len(),
        old(module).funcs@[fn_id as int].kind matches FuncKind::Import { .. },
        function.externrefs.wf(),
    ensures
        final(module).wf(),
        final(module).locals == old(module).locals,
        final(module).tables == old(module).tables,
        final(module).imports == old(module).imports,
        final(module).exports == old(module).exports,
        final(module).custom_section == old(module).custom_section,
        final(module).funcs@.len() == old(module).funcs@.len(),
        forall|g: int|
            0 <= g < old(module).funcs@.len() && g != fn_id ==> #[trigger] final(module).funcs@[g]
                == old(module).funcs@[g],
        forall|i: int| 0 <= i < old(module).types@.len() ==> #[trigger] final(module).types@[i] == old(module).types@[i],
        ({
            let ty = old(module).funcs@[fn_id as int].kind->Import_ty;
            let p = old(module).types@[ty as int].params@;
            let q = old(module).types@[ty as int].results@;
            match r {
                Ok(u) => {
                    &&& p.len() + q.len() == function.externrefs.bit_len
                    &&& final(module).types@.len() == old(module).types@.len() + 1
                    &&& (final(module).funcs@[fn_id as int].kind matches FuncKind::Import { ty: nty } && {
                        &&& nty == old(module).types@.len()
                        &&& final(module).types@[nty as int].params@.len() == p.len()
                        &&& forall|i: int|
                            0 <= i < p.len() ==> final(module).types@[nty as int].params@[i] == (
                            if function.externrefs.spec_is_set(i) {
                                ValType::Externref
                            } else {
                                p[i]
                            })
                        &&& final(module).types@[nty as int].results@.len() == q.len()
                        &&& forall|j: int|
                            0 <= j < q.len() ==> final(module).types@[nty as int].results@[j] == (
                            if function.externrefs.spec_is_set(p.len() + j) {
                                ValType::Externref
                            } else {
                                q[j]
                            })
                    })
                    &&& final(module).funcs@[fn_id as int].name == old(module).funcs@[fn_id as int].name
                },
                Err(e) => {
                    &&& *final(module) == *old(module)
                    &&& (e matches Error::UnexpectedArity { .. } || e matches Error::UnexpectedType { .. })
                },
            }
        }),
        r is Ok <==> ({
            let ty = old(module).funcs@[fn_id as int].kind->Import_ty;
            let p = old(module).types@[ty as int].params@;
            let q = old(module).types@[ty as int].results@;
            p.len() + q.len() == function.externrefs.bit_len && forall|i: int|
                0 <= i < p.len() + q.len() && (#[trigger] function.externrefs.spec_is_set(i))
                    ==> sig_elem(p, q, i) == ValType::I32
        }),
{
    let ghost m0 = *module;
    let ty: usize = match &module.funcs[fn_id].kind {
        FuncKind::Import { ty } => *ty,
        _ => 0,
    };
    proof {
        assert(m0.funcs@[fn_id as int].wf(
            m0.types@.len() as int,
            m0.locals@.len() as int,
            m0.funcs@.len() as int,
        ));
    }
    let patched_ty = match patch_type(&mut module.types, function, ty) {
        Ok(t) => t,
        Err(e) => {
            return Err(e);
        },
    };
    module.funcs[fn_id].kind = FuncKind::Import { ty: patched_ty };
    proof {
        assert forall|f: int| 0 <= f < module.funcs@.len() implies (#[trigger] module.funcs@[f]).wf(
            module.types@.len() as int,
            module.locals@.len() as int,
            module.funcs@.len() as int,
        ) by {
            if f != fn_id {
                crate::wasm::lemma_func_wf_monotone(
                    m0.funcs@[f],
                    m0.types@.len() as int,
                    m0.locals@.len() as int,
                    m0.funcs@.len() as int,
                    module.types@.len() as int,
                    module.locals@.len() as int,
                    module.funcs@.len() as int,
                );
            }
        }
    }
    Ok(())
}

} // verus!

verus! {

/// Whether some catalog entry resolves to function `f`.
pub open spec fn catalogued(m: Module, functions: Seq<Function>, f: usize) -> bool {
    exists|e: int| 0 <= e < functions.len() && #[trigger] spec_function_id(m, functions[e]) == Some(f)
}

/// Whether a defined non-catalogued function is fit for processing: it is
/// guarded, or its body stores no reference results at all.
pub open spec fn local_fn_clean(m: Module, functions: Seq<Function>, get_ref: Option<usize>, guarded: Seq<bool>, f: int) -> bool {
    m.funcs@[f].kind matches FuncKind::Local(lf) ==> {
        ||| catalogued(m, functions, f as usize)
        ||| guarded[f]
        ||| detect_pairs_upto(
            lf.seqs@,
            lf.seqs@.len() as int,
            spec_returns_ref(m, functions, get_ref),
            0,
        ).len() == 0
    }
}

/// The condition under which applying the catalog is owed to succeed: every
/// entry resolves, no two entries resolve to the same function, every entry's
/// function can be patched, and every other defined function is fit.
pub open spec fn entries_processable(m: Module, functions: Seq<Function>, get_ref: Option<usize>, guarded: Seq<bool>) -> bool {
    &&& forall|e: int| 0 <= e < functions.len() ==> entry_resolves(m, #[trigger] functions[e])
    &&& distinct_resolutions(m, functions)
    &&& forall|e: int| 0 <= e < functions.len() ==> entry_patchable_in(m, #[trigger] functions[e])
    &&& forall|f: int| 0 <= f < m.funcs@.len() ==> local_fn_clean(m, functions, get_ref, guarded, f)
}

/// Some entry resolving to `f` has its marks realized as references on the
/// final function.
pub open spec fn export_patched_by_some(m0: Module, m: Module, functions: Seq<Function>, f: usize) -> bool {
    exists|e: int|
        0 <= e < functions.len() && #[trigger] spec_function_id(m0, functions[e]) == Some(f)
            && export_fn_patched_for(m, f, functions[e])
}

proof fn lemma_export_patch_carried(ma: Module, mb: Module, f: usize, function: Function)
    requires
        export_fn_patched_for(ma, f, function),
        f < mb.funcs@.len(),
        mb.funcs@[f as int] == ma.funcs@[f as int],
        ma.types@.len() <= mb.types@.len(),
        forall|t: int| 0 <= t < ma.types@.len() ==> #[trigger] mb.types@[t] == ma.types@[t],
    ensures
        export_fn_patched_for(mb, f, function),
{
    let nty = ma.funcs@[f as int].kind->Local_0.ty;
    assert(marked_positions_are_references(ma, nty, function));
    assert(mb.types@[nty as int] == ma.types@[nty as int]);
}

proof fn lemma_detect_count_base(instrs: Seq<LocatedInstr>, k: int, rr: Seq<bool>, b1: int, b2: int)
    ensures
        detect_upto(instrs, k, rr, b1).1.len() == detect_upto(instrs, k, rr, b2).1.len(),
    decreases k,
{
    if k > 0 {
        lemma_detect_count_base(instrs, k - 1, rr, b1, b2);
    }
}

proof fn lemma_detect_pairs_base(seqs: Seq<InstrSeq>, n: int, rr: Seq<bool>, b1: int, b2: int)
    ensures
        detect_pairs_upto(seqs, n, rr, b1).len() == detect_pairs_upto(seqs, n, rr, b2).len(),
    decreases n,
{
    if n > 0 {
        lemma_detect_pairs_base(seqs, n - 1, rr, b1, b2);
        lemma_detect_count_base(
            seqs[n - 1].instrs@,
            seqs[n - 1].instrs@.len() as int,
            rr,
            b1 + detect_pairs_upto(seqs, n - 1, rr, b1).len() as int,
            b2 + detect_pairs_upto(seqs, n - 1, rr, b2).len() as int,
        );
    }
}

/// State shared by the processing steps: the synthesized replacement
/// functions and the placeholder mapping.
#[derive(Debug)]
pub struct ProcessingState {
    /// The synthesized replacements and the placeholder mapping.
    pub patched_fns: PatchedFunctions,
}

/// The function id an import-kind catalog entry resolves to, when the module
/// uses the import and it is a function.
pub open spec fn resolved_import_fn(m: Module, function: Function) -> Option<usize> {
    match kind_module(function.kind) {
        Some(mn) => match crate::processor::functions::find_import(m.imports@, mn, function.name@) {
            Some(i) => match m.imports@[i].kind {
                ImportKind::Function { func } => Some(func),
                _ => None,
            },
            None => None,
        },
        None => None,
    }
}

/// The type index of the imported function `func` of `m`.
pub open spec fn import_ty_of(m: Module, func: usize) -> usize {
    m.funcs@[func as int].kind->Import_ty
}

/// The type of the imported function `func` of `m` has the arity the entry
/// records, and every marked position holds the reference type.
pub open spec fn import_fn_patched_for(m: Module, func: usize, function: Function) -> bool {
    &&& func < m.funcs@.len()
    &&& m.funcs@[func as int].kind is Import
    &&& marked_positions_are_references(m, import_ty_of(m, func), function)
}

/// See [`import_fn_patched_for`]; over the type with index `nty`.
pub open spec fn marked_positions_are_references(m: Module, nty: usize, function: Function) -> bool {
    let p = m.types@[nty as int].params@;
    let q = m.types@[nty as int].results@;
    &&& nty < m.types@.len()
    &&& p.len() + q.len() == function.externrefs.bit_len
    &&& forall|k: int|
        0 <= k < p.len() + q.len() && (#[trigger] function.externrefs.spec_is_set(k)) ==> sig_elem(
            p,
            q,
            k,
        ) == ValType::Externref
}

/// Orchestration-level signature patching for one import-kind catalog entry:
/// once the module is processed, the resolved imported function's type has
/// the arity the entry records, and every marked position holds the
/// reference type.
pub open spec fn import_entry_patched(m0: Module, m: Module, function: Function) -> bool {
    match resolved_import_fn(m0, function) {
        Some(func) => (func < m0.funcs@.len() && (m0.funcs@[func as int].kind matches FuncKind::Import { .. }))
            ==> import_fn_patched_for(m, func, function),
        None => true,
    }
}

proof fn lemma_wf_imports_shrunk(m0: Module, m1: Module)
    requires
        m0.wf(),
        crate::processor::functions::elements_of(m1.imports@, m0.imports@),
        m1.types == m0.types,
        m1.funcs == m0.funcs,
        m1.locals == m0.locals,
        m1.tables == m0.tables,
        m1.exports == m0.exports,
    ensures
        m1.wf(),
{
    assert forall|i: int| 0 <= i < m1.imports@.len() implies crate::wasm::import_valid(
        #[trigger] m1.imports@[i],
        m1.funcs@.len() as int,
        m1.tables@.len() as int,
    ) by {
        assert(m0.imports@.contains(m1.imports@[i]));
        let k = m0.imports@.lemma_contains_to_index(m1.imports@[i]);
        assert(crate::wasm::import_valid(m0.imports@[k], m0.funcs@.len() as int, m0.tables@.len() as int));
    }
}

impl ProcessingState {
    /// Seizes the placeholder imports and synthesizes the reference table and
    /// its replacement functions.
    pub fn new(module: &mut Module, processor: &Processor) -> (r: Result<ProcessingState, Error>)
        requires
            old(module).wf(),
        ensures
            final(module).wf(),
            final(module).custom_section == old(module).custom_section,
            // Success is owed exactly when every placeholder under the
            // reserved pseudo-module is a function import.
            r is Ok <==> ExternrefImports::seized(old(module).imports@) is Some,
            ExternrefImports::seized(old(module).imports@) matches Some(res) ==> (r matches Ok(st)
                && {
                // the found placeholders are removed and every other import
                // is kept; the drop-notification import is appended exactly
                // when configured and the drop placeholder is present
                &&& st.patched_fns.guard_id == res.0.guard
                &&& st.patched_fns.fn_mapping@ == crate::processor::functions::spec_fn_mapping(
                    res.0,
                    old(module).funcs@.len() as int,
                    processor.drop_fn_name is Some,
                )
                &&& st.patched_fns.get_ref_id == (if res.0.get is Some {
                    Some(
                        crate::processor::functions::spec_get_id(
                            res.0,
                            old(module).funcs@.len() as int,
                        ) as usize,
                    )
                } else {
                    None::<usize>
                })
                &&& if processor.drop_fn_name is Some && res.0.drop is Some {
                    final(module).imports@.len() == res.1.len() + 1 && (forall|i: int|
                        0 <= i < res.1.len() ==> #[trigger] final(module).imports@[i] == res.1[i])
                } else {
                    final(module).imports@ == res.1
                }
            }),
            match r {
                Ok(st) => {
                    &&& crate::wasm::module_extended(*old(module), *final(module))
                    &&& final(module).tables@.len() == old(module).tables@.len() + 1
                    &&& final(module).tables@.last() == (TableDecl {
                        initial: 0,
                        maximum: None,
                        element_ty: ValType::Externref,
                    })
                    &&& (processor.table_name matches Some(n) ==> final(module).exports@.len()
                        == old(module).exports@.len() + 1 && final(module).exports@.last() == (Export {
                        name: n,
                        item: ExportItem::Table { table: (old(module).tables@.len() as usize) },
                    }))
                    &&& (processor.table_name is None ==> final(module).exports@ == old(module).exports@)
                    &&& forall|f: usize|
                        #[trigger] crate::processor::functions::mapping_of(st.patched_fns.fn_mapping@, f) matches Some(nf)
                            ==> nf < final(module).funcs@.len()
                    &&& (st.patched_fns.get_ref_id matches Some(g) ==> crate::processor::functions::fn_sig_is(
                        *final(module),
                        g,
                        seq![ValType::I32],
                        seq![ValType::Externref],
                    ))
                },
                Err(e) => e matches Error::UnexpectedImportType { .. },
            },
    {
        let ghost m0 = *module;
        let imports = match ExternrefImports::new(&mut module.imports) {
            Ok(i) => i,
            Err(e) => {
                proof {
                    lemma_wf_imports_shrunk(m0, *module);
                }
                return Err(e);
            },
        };
        proof {
            lemma_wf_imports_shrunk(m0, *module);
            if let Some(f) = imports.insert {
                lemma_placeholder_bound(m0, *module, "insert"@, f);
            }
            if let Some(f) = imports.get {
                lemma_placeholder_bound(m0, *module, "get"@, f);
            }
            if let Some(f) = imports.drop {
                lemma_placeholder_bound(m0, *module, "drop"@, f);
            }
        }
        let ghost m1 = *module;
        let patched_fns = PatchedFunctions::new(module, &imports, processor);
        Ok(ProcessingState { patched_fns })
    }

    /// Replaces placeholder calls throughout the module, removes guard calls
    /// and classifies guarded functions. See
    /// [`PatchedFunctions::replace_calls`] for the exact contract.
    pub fn replace_functions(&self, module: &mut Module) -> (r: Result<Vec<bool>, Error>)
        requires
            old(module).wf(),
            forall|f: usize|
                #[trigger] crate::processor::functions::mapping_of(self.patched_fns.fn_mapping@, f) matches Some(nf)
                    ==> nf < old(module).funcs@.len(),
        ensures
            final(module).wf(),
            final(module).types == old(module).types,
            final(module).locals == old(module).locals,
            final(module).tables == old(module).tables,
            final(module).imports == old(module).imports,
            final(module).exports == old(module).exports,
            final(module).custom_section == old(module).custom_section,
            final(module).funcs@.len() == old(module).funcs@.len(),
            r is Ok <==> (forall|f: int|
                0 <= f < old(module).funcs@.len() ==> !self.patched_fns.fn_has_misplaced_guard(
                    #[trigger] old(module).funcs@[f],
                )),
            match r {
                Ok(guarded) => {
                    &&& guarded@.len() == old(module).funcs@.len()
                    &&& forall|f: int|
                        0 <= f < old(module).funcs@.len() ==> self.patched_fns.fn_rewritten(
                            #[trigger] old(module).funcs@[f],
                            final(module).funcs@[f],
                            guarded@[f],
                        )
                },
                Err(e) => e matches Error::IncorrectGuard { .. },
            },
    {
        match self.patched_fns.replace_calls(module) {
            Ok((_replaced_count, guarded)) => Ok(guarded),
            Err(e) => Err(e),
        }
    }

    /// Applies the catalog: patches catalogued imports in place, clones
    /// catalogued exports with reference-typed signatures, and retypes the
    /// locals of every other defined function that receives reference
    /// results, requiring such functions to be guarded. Succeeds exactly on
    /// well-behaved inputs: see [`entries_processable`].
    #[verifier::rlimit(100)]
    pub fn process_functions(&self, functions: &Vec<Function>, guarded_fns: &Vec<bool>, module: &mut Module) -> (r: Result<(), Error>)
        requires
            old(module).wf(),
            guarded_fns@.len() == old(module).funcs@.len(),
            forall|e: int| 0 <= e < functions@.len() ==> (#[trigger] functions@[e]).externrefs.wf(),
        ensures
            final(module).wf(),
            final(module).tables == old(module).tables,
            final(module).imports == old(module).imports,
            final(module).exports == old(module).exports,
            final(module).custom_section == old(module).custom_section,
            final(module).funcs@.len() == old(module).funcs@.len(),
            old(module).types@.len() <= final(module).types@.len(),
            forall|t: int|
                0 <= t < old(module).types@.len() ==> #[trigger] final(module).types@[t] == old(
                    module,
                ).types@[t],
            // success is owed on well-behaved inputs
            entries_processable(
                *old(module),
                functions@,
                self.patched_fns.get_ref_id,
                guarded_fns@,
            ) ==> r is Ok,
            // on success, every entry resolved and every function is fit
            r is Ok ==> (forall|e: int|
                0 <= e < functions@.len() ==> entry_resolves(*old(module), #[trigger] functions@[e])),
            r is Ok ==> (forall|f: int|
                0 <= f < old(module).funcs@.len() ==> local_fn_clean(
                    *old(module),
                    functions@,
                    self.patched_fns.get_ref_id,
                    guarded_fns@,
                    f,
                )),
            // on success, catalogued imports and exports carry their marks as
            // reference types
            r is Ok ==> (forall|e: int|
                0 <= e < functions@.len() ==> import_entry_patched(
                    *old(module),
                    *final(module),
                    #[trigger] functions@[e],
                )),
            r is Ok ==> (forall|f: usize|
                f < old(module).funcs@.len() && (old(module).funcs@[f as int].kind is Local)
                    && #[trigger] catalogued(*old(module), functions@, f) ==> export_patched_by_some(
                    *old(module),
                    *final(module),
                    functions@,
                    f,
                )),
            match r {
                Ok(u) => true,
                Err(e) => {
                    ||| e matches Error::NoExport(_)
                    ||| e matches Error::UnexpectedExportType(_)
                    ||| e matches Error::UnexpectedImportType { .. }
                    ||| e matches Error::UnexpectedArity { .. }
                    ||| e matches Error::UnexpectedType { .. }
                    ||| e matches Error::UnexpectedCall { .. }
                },
            },
    {
        let ghost m0 = *module;
        let ghost processable = entries_processable(
            m0,
            functions@,
            self.patched_fns.get_ref_id,
            guarded_fns@,
        );
        let n_entries = functions.len();

        // Resolve function ids for exports and imports.
        let mut function_ids: Vec<Option<usize>> = Vec::new();
        let mut i: usize = 0;
        while i < n_entries
            invariant
                m0 == *old(module),
                processable == entries_processable(
                    m0,
                    functions@,
                    self.patched_fns.get_ref_id,
                    guarded_fns@,
                ),
                0 <= i <= n_entries,
                n_entries == functions@.len(),
                *module == m0,
                m0.wf(),
                function_ids@.len() == i,
                forall|j: int|
                    0 <= j < i ==> ((#[trigger] function_ids@[j]) matches Some(f) ==> f
                        < m0.funcs@.len()),
                forall|j: int|
                    0 <= j < i ==> #[trigger] function_ids@[j] == spec_function_id(m0, functions@[j]),
                forall|j: int| 0 <= j < i ==> entry_resolves(m0, #[trigger] functions@[j]),
            decreases n_entries - i,
        {
            match function_id(&functions[i], module) {
                Ok(o) => {
                    function_ids.push(o);
                },
                Err(e) => {
                    proof {
                        assert(!entry_resolves(m0, functions@[i as int]));
                    }
                    return Err(e);
                },
            }
            i = i + 1;
        }

        // Which functions produce a reference result at a call site: the
        // synthesized *get* replacement, and every catalogued function with a
        // single result whose last position is marked.
        let n_funcs = module.funcs.len();
        let ghost rr0 = rr_init(self.patched_fns.get_ref_id, n_funcs as int);
        let mut functions_returning_ref: Vec<bool> = vec![false; n_funcs];
        if let Some(g) = self.patched_fns.get_ref_id() {
            if g < n_funcs {
                functions_returning_ref[g] = true;
            }
        }
        proof {
            assert(functions_returning_ref@ =~= rr0);
        }
        let mut i: usize = 0;
        while i < n_entries
            invariant
                m0 == *old(module),
                0 <= i <= n_entries,
                n_entries == functions@.len(),
                *module == m0,
                m0.wf(),
                n_funcs == m0.funcs@.len(),
                rr0 == rr_init(self.patched_fns.get_ref_id, n_funcs as int),
                function_ids@.len() == n_entries,
                functions_returning_ref@.len() == n_funcs,
                functions_returning_ref@ == rr_after(m0, functions@, i as int, rr0),
                forall|j: int|
                    0 <= j < n_entries ==> ((#[trigger] function_ids@[j]) matches Some(f) ==> f
                        < m0.funcs@.len()),
                forall|j: int|
                    0 <= j < n_entries ==> #[trigger] function_ids@[j] == spec_function_id(m0, functions@[j]),
                forall|j: int| 0 <= j < n_entries ==> entry_resolves(m0, #[trigger] functions@[j]),
                forall|e: int| 0 <= e < functions@.len() ==> (#[trigger] functions@[e]).externrefs.wf(),
            decreases n_entries - i,
        {
            let fid_opt = function_ids[i];
            if let Some(fid) = fid_opt {
                let results_len: usize = match &module.funcs[fid].kind {
                    FuncKind::Import { ty } => if *ty < module.types.len() {
                        module.types[*ty].results.len()
                    } else {
                        0
                    },
                    FuncKind::Local(lf) => if lf.ty < module.types.len() {
                        module.types[lf.ty].results.len()
                    } else {
                        0
                    },
                    FuncKind::Deleted => 0,
                };
                let refs = &functions[i].externrefs;
                let bl = refs.bit_len();
                if results_len == 1 && bl > 0 && refs.is_set(bl - 1) {
                    functions_returning_ref[fid] = true;
                }
            }
            proof {
                assert(functions_returning_ref@ =~= rr_after(m0, functions@, i as int + 1, rr0));
            }
            i = i + 1;
        }
        let ghost rr_v = functions_returning_ref@;
        proof {
            assert(rr_v == spec_returns_ref(m0, functions@, self.patched_fns.get_ref_id));
        }

        // Patch the types of catalogued imports in place.
        let mut i: usize = 0;
        while i < n_entries
            invariant
                m0 == *old(module),
                processable == entries_processable(
                    m0,
                    functions@,
                    self.patched_fns.get_ref_id,
                    guarded_fns@,
                ),
                0 <= i <= n_entries,
                n_entries == functions@.len(),
                m0.wf(),
                module.wf(),
                module.tables == m0.tables,
                module.imports == m0.imports,
                module.exports == m0.exports,
                module.custom_section == m0.custom_section,
                module.funcs@.len() == m0.funcs@.len(),
                module.locals == m0.locals,
                n_funcs == m0.funcs@.len(),
                function_ids@.len() == n_entries,
                functions_returning_ref@ == rr_v,
                forall|j: int|
                    0 <= j < n_entries ==> ((#[trigger] function_ids@[j]) matches Some(f) ==> f
                        < m0.funcs@.len()),
                forall|j: int|
                    0 <= j < n_entries ==> #[trigger] function_ids@[j] == spec_function_id(m0, functions@[j]),
                forall|j: int| 0 <= j < n_entries ==> entry_resolves(m0, #[trigger] functions@[j]),
                forall|e: int| 0 <= e < functions@.len() ==> (#[trigger] functions@[e]).externrefs.wf(),
                m0.types@.len() <= module.types@.len(),
                forall|t: int| 0 <= t < m0.types@.len() ==> #[trigger] module.types@[t] == m0.types@[t],
                forall|g: int|
                    0 <= g < n_funcs ==> #[trigger] module.funcs@[g] == m0.funcs@[g] || (
                    m0.funcs@[g].kind matches FuncKind::Import { .. } && module.funcs@[g].kind
                        matches FuncKind::Import { .. }),
                forall|j: int|
                    0 <= j < i ==> import_entry_patched(m0, *module, #[trigger] functions@[j]),
                processable ==> (forall|j: int|
                    i <= j < n_entries ==> ((#[trigger] function_ids@[j]) matches Some(fid)
                        ==> module.funcs@[fid as int] == m0.funcs@[fid as int])),
            decreases n_entries - i,
        {
            let ghost m_before = *module;
            let fid_opt = function_ids[i];
            if let Some(fid) = fid_opt {
                let is_catalog_import = matches!(&functions[i].kind, FunctionKind::Import(_));
                let is_import_fn = matches!(&module.funcs[fid].kind, FuncKind::Import { .. });
                if is_catalog_import && is_import_fn {
                    match transform_import(module, &functions[i], fid) {
                        Ok(u) => {},
                        Err(e) => {
                            proof {
                                if processable {
                                    assert(module.funcs@[fid as int] == m0.funcs@[fid as int]);
                                    assert(entry_patchable_in(m0, functions@[i as int]));
                                    let ty = m0.funcs@[fid as int].kind->Import_ty;
                                    assert(m0.funcs@[fid as int].wf(
                                        m0.types@.len() as int,
                                        m0.locals@.len() as int,
                                        m0.funcs@.len() as int,
                                    ));
                                    assert(ty < m0.types@.len());
                                    assert(module.types@[ty as int] == m0.types@[ty as int]);
                                    assert(entry_patchable(
                                        module.types@[ty as int].params@,
                                        module.types@[ty as int].results@,
                                        functions@[i as int],
                                    ));
                                    assert(false);
                                }
                            }
                            return Err(e);
                        },
                    }
                }
            }
            proof {
                assert forall|g: int|
                    0 <= g < m_before.funcs@.len() implies #[trigger] module.funcs@[g]
                        == m_before.funcs@[g] || import_fn_repatched(m_before, *module, g) by {}
                assert forall|j: int| 0 <= j < i + 1 implies import_entry_patched(
                    m0,
                    *module,
                    #[trigger] functions@[j],
                ) by {
                    if j < i {
                        lemma_import_patch_preserved(m0, m_before, *module, functions@[j]);
                    }
                }
            }
            i = i + 1;
        }

        // Rewrite defined functions: catalogued exports are cloned with their
        // patched signature; all other defined functions only have their
        // reference-receiving locals retyped, which requires a guard.
        let ghost m2 = *module;
        let mut f: usize = 0;
        while f < n_funcs
            invariant
                m0 == *old(module),
                processable == entries_processable(
                    m0,
                    functions@,
                    self.patched_fns.get_ref_id,
                    guarded_fns@,
                ),
                0 <= f <= n_funcs,
                n_entries == functions@.len(),
                m0.wf(),
                module.wf(),
                module.tables == m0.tables,
                module.imports == m0.imports,
                module.exports == m0.exports,
                module.custom_section == m0.custom_section,
                module.funcs@.len() == m0.funcs@.len(),
                n_funcs == m0.funcs@.len(),
                guarded_fns@.len() == m0.funcs@.len(),
                function_ids@.len() == n_entries,
                functions_returning_ref@ == rr_v,
                rr_v == spec_returns_ref(m0, functions@, self.patched_fns.get_ref_id),
                functions_returning_ref@.len() == n_funcs,
                functions_returning_ref@.len() == module.funcs@.len(),
                forall|e: int| 0 <= e < functions@.len() ==> (#[trigger] functions@[e]).externrefs.wf(),
                forall|j: int|
                    0 <= j < n_entries ==> #[trigger] function_ids@[j] == spec_function_id(m0, functions@[j]),
                forall|j: int| 0 <= j < n_entries ==> entry_resolves(m0, #[trigger] functions@[j]),
                m2.types@.len() <= module.types@.len(),
                forall|t: int| 0 <= t < m2.types@.len() ==> #[trigger] module.types@[t] == m2.types@[t],
                m0.types@.len() <= m2.types@.len(),
                forall|t: int| 0 <= t < m0.types@.len() ==> #[trigger] m2.types@[t] == m0.types@[t],
                forall|g: int|
                    0 <= g < n_funcs && ((m2.funcs@[g].kind) matches FuncKind::Import { .. })
                        ==> #[trigger] module.funcs@[g] == m2.funcs@[g],
                forall|g: int|
                    0 <= g < n_funcs ==> #[trigger] m2.funcs@[g] == m0.funcs@[g] || (
                    m0.funcs@[g].kind matches FuncKind::Import { .. } && m2.funcs@[g].kind
                        matches FuncKind::Import { .. }),
                forall|g: int| f <= g < n_funcs ==> #[trigger] module.funcs@[g] == m2.funcs@[g],
                forall|j: int|
                    0 <= j < n_entries ==> import_entry_patched(m0, m2, #[trigger] functions@[j]),
                // claims for the functions already rewritten
                forall|g: int|
                    0 <= g < f && (m0.funcs@[g].kind is Local) && !catalogued(m0, functions@, g as usize)
                        ==> #[trigger] local_fn_clean(
                        m0,
                        functions@,
                        self.patched_fns.get_ref_id,
                        guarded_fns@,
                        g,
                    ),
                forall|g: usize|
                    g < f && (m0.funcs@[g as int].kind is Local) && #[trigger] catalogued(
                        m0,
                        functions@,
                        g,
                    ) ==> export_patched_by_some(m0, *module, functions@, g),
            decreases n_funcs - f,
        {
            let ghost m_before = *module;
            let is_local = matches!(&module.funcs[f].kind, FuncKind::Local(_));
            proof {
                if !is_local {
                    assert(module.funcs@[f as int] == m2.funcs@[f as int]);
                    assert(!(m0.funcs@[f as int].kind is Local));
                }
            }
            if is_local {
                proof {
                    assert(module.funcs@[f as int] == m2.funcs@[f as int]);
                    assert(m2.funcs@[f as int] == m0.funcs@[f as int]);
                }
                let mut entry: Option<usize> = None;
                let mut i: usize = 0;
                while i < n_entries
                    invariant
                        0 <= i <= n_entries,
                        n_entries == functions@.len(),
                        function_ids@.len() == n_entries,
                        entry matches Some(e) ==> e < n_entries && function_ids@[e as int] == Some(f),
                        entry is None ==> (forall|j: int|
                            0 <= j < i ==> #[trigger] function_ids@[j] != Some(f)),
                    decreases n_entries - i,
                {
                    let fid_opt = function_ids[i];
                    if let Some(fid) = fid_opt {
                        if fid == f {
                            entry = Some(i);
                        }
                    }
                    i = i + 1;
                }
                match entry {
                    Some(e) => {
                        proof {
                            assert(spec_function_id(m0, functions@[e as int]) == Some(f));
                            assert(catalogued(m0, functions@, f));
                        }
                        match transform_export(module, &functions_returning_ref, f, &functions[e]) {
                            Ok(u) => {
                                proof {
                                    assert(export_fn_patched_for(*module, f, functions@[e as int]));
                                }
                            },
                            Err(err) => {
                                proof {
                                    if processable {
                                        assert(entry_patchable_in(m0, functions@[e as int]));
                                        let lf0 = m0.funcs@[f as int].kind->Local_0;
                                        assert(m0.funcs@[f as int].wf(
                                            m0.types@.len() as int,
                                            m0.locals@.len() as int,
                                            m0.funcs@.len() as int,
                                        ));
                                        assert(lf0.ty < m0.types@.len());
                                        assert(module.types@[lf0.ty as int] == m0.types@[lf0.ty as int]);
                                        assert(entry_patchable(
                                            module.types@[lf0.ty as int].params@,
                                            module.types@[lf0.ty as int].results@,
                                            functions@[e as int],
                                        ));
                                        assert(false);
                                    }
                                }
                                return Err(err);
                            },
                        }
                    },
                    None => {
                        proof {
                            if catalogued(m0, functions@, f) {
                                let e = choose|e: int|
                                    0 <= e < functions@.len() && #[trigger] spec_function_id(
                                        m0,
                                        functions@[e],
                                    ) == Some(f);
                                assert(function_ids@[e] == Some(f));
                                assert(false);
                            }
                            assert(!catalogued(m0, functions@, f));
                        }
                        match transform_local_fn(module, &functions_returning_ref, guarded_fns[f], f) {
                            Ok(u) => {
                                proof {
                                    let lf = m0.funcs@[f as int].kind->Local_0;
                                    let base = m_before.locals@.len() as int;
                                    lemma_detect_pairs_base(lf.seqs@, lf.seqs@.len() as int, rr_v, base, 0);
                                    if !guarded_fns@[f as int] {
                                        assert(detect_pairs_upto(lf.seqs@, lf.seqs@.len() as int, rr_v, 0).len() == 0);
                                    }
                                }
                            },
                            Err(err) => {
                                proof {
                                    if processable {
                                        let lf = m0.funcs@[f as int].kind->Local_0;
                                        let base = m_before.locals@.len() as int;
                                        lemma_detect_pairs_base(lf.seqs@, lf.seqs@.len() as int, rr_v, base, 0);
                                        assert(local_fn_clean(
                                            m0,
                                            functions@,
                                            self.patched_fns.get_ref_id,
                                            guarded_fns@,
                                            f as int,
                                        ));
                                        assert(false);
                                    }
                                }
                                return Err(err);
                            },
                        }
                    },
                }
            }
            proof {
                assert forall|g: usize|
                    g < f + 1 && (m0.funcs@[g as int].kind is Local) && #[trigger] catalogued(
                        m0,
                        functions@,
                        g,
                    ) implies export_patched_by_some(m0, *module, functions@, g) by {
                    if g < f {
                        let e = choose|e: int|
                            0 <= e < functions@.len() && #[trigger] spec_function_id(m0, functions@[e])
                                == Some(g) && export_fn_patched_for(m_before, g, functions@[e]);
                        lemma_export_patch_carried(m_before, *module, g, functions@[e]);
                    }
                }
            }
            f = f + 1;
        }
        proof {
            assert forall|e: int| 0 <= e < functions@.len() implies entry_resolves(
                m0,
                #[trigger] functions@[e],
            ) by {}
            assert forall|f2: int|
                0 <= f2 < m0.funcs@.len() implies local_fn_clean(
                m0,
                functions@,
                self.patched_fns.get_ref_id,
                guarded_fns@,
                f2,
            ) by {
                if m0.funcs@[f2].kind is Local && !catalogued(m0, functions@, f2 as usize) {
                    assert(local_fn_clean(
                        m0,
                        functions@,
                        self.patched_fns.get_ref_id,
                        guarded_fns@,
                        f2,
                    ));
                }
            }
        }
        Ok(())
    }
}

/// The later type patch only turns surrogate positions into references; a
/// position that already held a reference still does.
pub open spec fn type_keeps_references(ma: Module, ta: usize, mb: Module, tb: usize) -> bool {
    let pa = ma.types@[ta as int].params@;
    let qa = ma.types@[ta as int].results@;
    let pb = mb.types@[tb as int].params@;
    let qb = mb.types@[tb as int].results@;
    &&& ta < ma.types@.len()
    &&& tb < mb.types@.len()
    &&& pb.len() == pa.len()
    &&& qb.len() == qa.len()
    &&& forall|k: int|
        0 <= k < pa.len() + qa.len() && #[trigger] sig_elem(pa, qa, k) == ValType::Externref
            ==> sig_elem(pb, qb, k) == ValType::Externref
}

/// Function `g` is imported in both modules, and the later type keeps every
/// reference position of the earlier one.
pub open spec fn import_fn_repatched(ma: Module, mb: Module, g: int) -> bool {
    &&& ma.funcs@[g].kind matches FuncKind::Import { ty: ta } && (mb.funcs@[g].kind
        matches FuncKind::Import { ty: tb } && type_keeps_references(ma, ta, mb, tb))
}

/// One more type patch cannot undo an earlier entry's patching: it only turns
/// surrogate positions into references, and pool prefixes are preserved.
proof fn lemma_import_patch_preserved(m0: Module, ma: Module, mb: Module, function: Function)
    requires
        import_entry_patched(m0, ma, function),
        ma.funcs@.len() == mb.funcs@.len(),
        ma.types@.len() <= mb.types@.len(),
        forall|t: int| 0 <= t < ma.types@.len() ==> #[trigger] mb.types@[t] == ma.types@[t],
        forall|g: int|
            0 <= g < ma.funcs@.len() ==> #[trigger] mb.funcs@[g] == ma.funcs@[g]
                || import_fn_repatched(ma, mb, g),
    ensures
        import_entry_patched(m0, mb, function),
{
    if let Some(func) = resolved_import_fn(m0, function) {
        let g = func as int;
        if func < m0.funcs@.len() && (m0.funcs@[g].kind matches FuncKind::Import { .. }) {
            assert(import_fn_patched_for(ma, func, function));
            assert(mb.funcs@[g] == ma.funcs@[g] || import_fn_repatched(ma, mb, g));
            let ta = import_ty_of(ma, func);
            assert(marked_positions_are_references(ma, ta, function));
            if mb.funcs@[g] == ma.funcs@[g] {
                assert(mb.types@[ta as int] == ma.types@[ta as int]);
                assert(marked_positions_are_references(mb, ta, function));
            } else {
                let tb = import_ty_of(mb, func);
                assert(type_keeps_references(ma, ta, mb, tb));
                let pa = ma.types@[ta as int].params@;
                let qa = ma.types@[ta as int].results@;
                let pb = mb.types@[tb as int].params@;
                let qb = mb.types@[tb as int].results@;
                assert forall|k: int|
                    0 <= k < pb.len() + qb.len() && (#[trigger] function.externrefs.spec_is_set(k))
                        implies sig_elem(pb, qb, k) == ValType::Externref by {
                    assert(sig_elem(pa, qa, k) == ValType::Externref);
                }
                assert(marked_positions_are_references(mb, tb, function));
            }
        }
    }
}

/// The rewriting of defined functions leaves imported functions and the
/// types they name untouched, so entry patching carries over.
proof fn lemma_import_patch_carried(m0: Module, ma: Module, mb: Module, function: Function)
    requires
        import_entry_patched(m0, ma, function),
        ma.funcs@.len() == mb.funcs@.len(),
        ma.types@.len() <= mb.types@.len(),
        forall|t: int| 0 <= t < ma.types@.len() ==> #[trigger] mb.types@[t] == ma.types@[t],
        forall|g: int|
            0 <= g < ma.funcs@.len() && ((ma.funcs@[g].kind) matches FuncKind::Import { .. })
                ==> #[trigger] mb.funcs@[g] == ma.funcs@[g],
    ensures
        import_entry_patched(m0, mb, function),
{
    if let Some(func) = resolved_import_fn(m0, function) {
        let g = func as int;
        if func < m0.funcs@.len() && (m0.funcs@[g].kind matches FuncKind::Import { .. }) {
            assert(import_fn_patched_for(ma, func, function));
            let ta = import_ty_of(ma, func);
            assert(mb.funcs@[g] == ma.funcs@[g]);
            assert(mb.types@[ta as int] == ma.types@[ta as int]);
            assert(marked_positions_are_references(mb, ta, function));
        }
    }
}

proof fn lemma_placeholder_bound(m0: Module, m1: Module, name: Seq<char>, f: usize)
    requires
        m0.wf(),
        m1.funcs == m0.funcs,
        ExternrefImports::came_from(m0.imports@, name, f),
    ensures
        f < m1.funcs@.len(),
{
    let k = choose|k: int|
        0 <= k < m0.imports@.len() && crate::processor::functions::import_matches(
            #[trigger] m0.imports@[k],
            crate::processor::functions::PLACEHOLDER_MODULE@,
            name,
        ) && m0.imports@[k].kind == (ImportKind::Function { func: f });
    assert(crate::wasm::import_valid(m0.imports@[k], m0.funcs@.len() as int, m0.tables@.len() as int));
}

} // verus!
