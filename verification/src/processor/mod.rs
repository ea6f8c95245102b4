//! Wasm module processor for reference types.
//!
//! Modules produced by the guest toolchain need to be processed before a host
//! can pass real references through their catalogued functions. The processor
//! performs these steps, in order:
//!
//! - parse the reserved custom section with [`Function`] declarations and
//!   remove it from the module;
//! - replace the placeholder imports under the reserved pseudo-module with
//!   synthesized local functions bound to a new reference table;
//! - remove guard calls and classify guarded functions;
//! - patch the signatures and bodies of catalogued imports and exports so
//!   that they use the reference type where the catalog says so;
//! - retype the locals of guarded functions that receive reference results.
//!
//! The synthesized reference table is initially empty and unconstrained, and
//! is exported under a configurable name so the host can inspect the live
//! references.

use vstd::prelude::*;

pub mod error;
pub mod functions;
pub mod state;

pub use error::{Error, Location};

use crate::signature::{parse_catalog, Function};
use crate::wasm::Module;
use state::ProcessingState;
use vstd::string::StringExecFns;

verus! {

/// Wasm module processor encapsulating processing options.
#[derive(Debug)]
pub struct Processor {
    /// The name the reference table is exported under; `None` keeps the table
    /// internal.
    pub table_name: Option<String>,
    /// The module and name of a host drop-notification import, if one is to be
    /// installed.
    pub drop_fn_name: Option<(String, String)>,
}

impl Default for Processor {
    /// By default the table is exported as `"externrefs"` and no
    /// drop-notification hook is installed.
    fn default() -> (p: Processor)
        ensures
            p.table_name matches Some(n) && n@ == "externrefs"@,
            p.drop_fn_name is None,
    {
        Processor { table_name: Some(String::from_str("externrefs")), drop_fn_name: None }
    }
}

impl Processor {
    /// Sets the name of the exported reference table where references
    /// obtained from the host are placed. With `None` the table is not
    /// exported from the module. By default, the table is exported as
    /// `"externrefs"`.
    pub fn set_ref_table(&mut self, name: Option<String>)
        ensures
            final(self).table_name == name,
            final(self).drop_fn_name == old(self).drop_fn_name,
    {
        self.table_name = name;
    }

    /// Sets a function to notify the host about dropped references. It is
    /// added as an import with signature `(externref) -> ()` and called
    /// immediately before each reference is dropped. By default, no notifier
    /// hook is installed.
    pub fn set_drop_fn(&mut self, module: &str, name: &str)
        ensures
            final(self).drop_fn_name matches Some(d) && d.0@ == module@ && d.1@ == name@,
            final(self).table_name == old(self).table_name,
    {
        self.drop_fn_name = Some((module.to_owned(), name.to_owned()));
    }

    /// Parses the whole custom section into catalog entries; trailing bytes
    /// must exactly match the last entry.
    pub fn parse_section(raw_section: &Vec<u8>) -> (r: Result<Vec<Function>, Error>)
        ensures
            match r {
                Ok(fns) => {
                    &&& parse_catalog(raw_section@, 0) == Some(fns@.map_values(|fv: Function| fv@))
                    &&& forall|e: int| 0 <= e < fns@.len() ==> (#[trigger] fns@[e]).externrefs.wf()
                },
                Err(e) => parse_catalog(raw_section@, 0) is None && e matches Error::Read(_),
            },
    {
        let n = raw_section.len();
        let mut functions: Vec<Function> = Vec::new();
        let mut pos: usize = 0;
        while pos < n
            invariant
                0 <= pos <= n,
                n == raw_section@.len(),
                forall|e: int| 0 <= e < functions@.len() ==> (#[trigger] functions@[e]).externrefs.wf(),
                parse_catalog(raw_section@, 0) == (match parse_catalog(raw_section@, pos as int) {
                    Some(rest) => Some(functions@.map_values(|fv: Function| fv@) + rest),
                    None => None::<Seq<crate::signature::FunctionV>>,
                }),
            decreases n - pos,
        {
            let (next_function, next) = match Function::read_from_section(raw_section.as_slice(), pos) {
                Ok(v) => v,
                Err(e) => {
                    return Err(Error::Read(e));
                },
            };
            proof {
                crate::signature::lemma_parse_function_advances(raw_section@, pos as int);
                let rest_of = parse_catalog(raw_section@, next as int);
                assert(parse_catalog(raw_section@, pos as int) == (match rest_of {
                    Some(rest2) => Some(seq![next_function@] + rest2),
                    None => None::<Seq<crate::signature::FunctionV>>,
                }));
                if let Some(rest2) = rest_of {
                    assert(functions@.map_values(|fv: Function| fv@) + (seq![next_function@] + rest2)
                        =~= functions@.push(next_function).map_values(|fv: Function| fv@) + rest2);
                }
            }
            functions.push(next_function);
            pos = next;
        }
        proof {
            assert(parse_catalog(raw_section@, pos as int) == Some(Seq::<crate::signature::FunctionV>::empty()));
            assert(functions@.map_values(|fv: Function| fv@) + Seq::<crate::signature::FunctionV>::empty()
                =~= functions@.map_values(|fv: Function| fv@));
        }
        Ok(functions)
    }

    /// Processes the module: parses and removes the catalog custom section,
    /// replaces the placeholder imports with functions bound to a fresh
    /// reference table, removes guards, and patches the catalogued
    /// signatures and affected locals.
    ///
    /// A module without the custom section is returned unchanged. On an
    /// error the module may be partially rewritten and must be discarded.
    ///
    /// The contract here covers the whole-module effects — the parse and
    /// placeholder-seizure stages in both directions, the reference table
    /// and its export, and the import pool after processing. The per-stage
    /// guarantees, including when each stage is owed success, are stated on
    /// the steps themselves: [`Processor::parse_section`],
    /// [`state::ProcessingState::new`],
    /// [`state::ProcessingState::replace_functions`] and
    /// [`state::ProcessingState::process_functions`].
    pub fn process(&self, module: &mut Module) -> (r: Result<(), Error>)
        requires
            old(module).wf(),
        ensures
            final(module).wf(),
            old(module).custom_section is None ==> r is Ok && *final(module) == *old(module),
            final(module).custom_section is None,
            old(module).custom_section matches Some(data) ==> (r is Ok ==> parse_catalog(data@, 0) is Some),
            old(module).custom_section matches Some(data) ==> (parse_catalog(data@, 0) is None
                ==> (r matches Err(e) && e matches Error::Read(_))),
            // the placeholder imports seize exactly when each of them is a
            // function import
            old(module).custom_section is Some ==> (r is Ok
                ==> crate::processor::functions::ExternrefImports::seized(old(module).imports@) is Some),
            old(module).custom_section matches Some(data) ==> ((parse_catalog(data@, 0) is Some
                && crate::processor::functions::ExternrefImports::seized(old(module).imports@) is None)
                ==> (r matches Err(e) && e matches Error::UnexpectedImportType { .. })),
            // a read error is owed exactly to a malformed section
            r matches Err(e) ==> (e matches Error::Read(_) ==> (old(module).custom_section
                matches Some(data) && parse_catalog(data@, 0) is None)),
            // when the module is processed, the found placeholder imports are
            // gone, every other import is kept, and the drop-notification
            // import is appended exactly when configured
            (r is Ok && old(module).custom_section is Some)
                ==> (crate::processor::functions::ExternrefImports::seized(old(module).imports@)
                matches Some(res) ==> (
            if self.drop_fn_name is Some && res.0.drop is Some {
                final(module).imports@.len() == res.1.len() + 1 && (forall|i: int|
                    0 <= i < res.1.len() ==> #[trigger] final(module).imports@[i] == res.1[i])
            } else {
                final(module).imports@ == res.1
            })),
            // When the module is processed, the reference table exists and is
            // exported under the configured name, unless the export is disabled.
            (old(module).custom_section is Some && r is Ok) ==> {
                &&& final(module).tables@.len() == old(module).tables@.len() + 1
                &&& final(module).tables@.last() == (crate::wasm::TableDecl {
                    initial: 0,
                    maximum: None,
                    element_ty: crate::wasm::ValType::Externref,
                })
                &&& (self.table_name matches Some(n) ==> final(module).exports@.len() == old(
                    module,
                ).exports@.len() + 1 && final(module).exports@.last() == (crate::wasm::Export {
                    name: n,
                    item: crate::wasm::ExportItem::Table {
                        table: (old(module).tables@.len() as usize),
                    },
                }))
                &&& (self.table_name is None ==> final(module).exports@ == old(module).exports@)
            },
    {
        let mut raw_section: Option<Vec<u8>> = None;
        core::mem::swap(&mut module.custom_section, &mut raw_section);
        let raw_section = match raw_section {
            Some(data) => data,
            None => {
                return Ok(());
            },
        };
        let functions = match Self::parse_section(&raw_section) {
            Ok(fns) => fns,
            Err(e) => {
                return Err(e);
            },
        };
        let state = match ProcessingState::new(module, self) {
            Ok(st) => st,
            Err(e) => {
                return Err(e);
            },
        };
        let guarded_fns = match state.replace_functions(module) {
            Ok(g) => g,
            Err(e) => {
                return Err(e);
            },
        };
        state.process_functions(&functions, &guarded_fns, module)
    }
}

} // verus!
