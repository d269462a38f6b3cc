use vstd::prelude::*;

use crate::source::DocId;

verus! {

/// A module block: its document, the analysis generation that allocated it, and
/// its sequence number within that analysis.
#[derive(Clone, Copy, Debug, PartialEq, Eq, Hash, Structural)]
pub struct ModuleId {
    pub doc: DocId,
    pub gen: u64,
    pub index: usize,
}

/// A function-like block, numbered as modules are.
#[derive(Clone, Copy, Debug, PartialEq, Eq, Hash, Structural)]
pub struct DefFuncId {
    pub doc: DocId,
    pub gen: u64,
    pub index: usize,
}

/// The innermost module and function around a declaration.
#[derive(Clone, Copy, Debug, PartialEq, Eq, Structural)]
pub struct LocalScope {
    pub module_opt: Option<ModuleId>,
    pub deffunc_opt: Option<DefFuncId>,
}

/// Where a declared name is visible.
#[derive(Clone, Copy, Debug, PartialEq, Eq, Structural)]
pub enum Scope {
    Global,
    Local(LocalScope),
}

/// The scope that a declaration asks for.
#[derive(Clone, Copy, Debug, PartialEq, Eq, Structural)]
pub enum DefScope {
    Global,
    Local,
    Param,
}

/// An explicit `global` or `local` modifier.
#[derive(Clone, Copy, Debug, PartialEq, Eq, Structural)]
pub enum Privacy {
    Global,
    Local,
}

/// Resolved name, scope and namespace of one declaration.
pub struct NameScopeNs {
    pub basename: String,
    pub scope: Scope,
    pub ns_opt: Option<ModuleId>,
}

pub open spec fn spec_resolve_scope(def: DefScope, local: LocalScope) -> Scope {
    match def {
        DefScope::Global => Scope::Global,
        DefScope::Local | DefScope::Param => Scope::Local(local),
    }
}

/// A namespace tag only for an implicitly module-scoped declaration: one that is
/// local, not a parameter, and stands inside a module.
pub open spec fn spec_resolve_ns(def: DefScope, local: LocalScope) -> Option<ModuleId> {
    match def {
        DefScope::Local => local.module_opt,
        _ => None,
    }
}

/// Default-local policy: only an explicit `global` makes the declaration global.
pub open spec fn spec_privacy_or_local(privacy_opt: Option<Privacy>) -> DefScope {
    match privacy_opt {
        Some(Privacy::Global) => DefScope::Global,
        _ => DefScope::Local,
    }
}

/// Default-global policy: only an explicit `local` makes the declaration local.
pub open spec fn spec_privacy_or_global(privacy_opt: Option<Privacy>) -> DefScope {
    match privacy_opt {
        Some(Privacy::Local) => DefScope::Local,
        _ => DefScope::Global,
    }
}

pub fn privacy_or_local(privacy_opt: Option<Privacy>) -> (r: DefScope)
    ensures
        r == spec_privacy_or_local(privacy_opt),
{
    match privacy_opt {
        Some(Privacy::Global) => DefScope::Global,
        _ => DefScope::Local,
    }
}

pub fn privacy_or_global(privacy_opt: Option<Privacy>) -> (r: DefScope)
    ensures
        r == spec_privacy_or_global(privacy_opt),
{
    match privacy_opt {
        Some(Privacy::Local) => DefScope::Local,
        _ => DefScope::Global,
    }
}

/// Resolves a declared identifier in its lexical context. The name is kept as
/// written.
pub fn resolve_name_scope_ns_for_def(name: &String, def: DefScope, local: &LocalScope) -> (r:
    NameScopeNs)
    ensures
        r.basename@ == name@,
        r.scope == spec_resolve_scope(def, *local),
        r.ns_opt == spec_resolve_ns(def, *local),
{
    let basename = name.clone();
    match def {
        DefScope::Global => NameScopeNs { basename, scope: Scope::Global, ns_opt: None },
        DefScope::Local => NameScopeNs {
            basename,
            scope: Scope::Local(*local),
            ns_opt: local.module_opt,
        },
        DefScope::Param => NameScopeNs { basename, scope: Scope::Local(*local), ns_opt: None },
    }
}

/// Parameters and fields are always local, and carry no namespace tag as
/// parameters, whatever the context.
pub proof fn lemma_param_always_local(local: LocalScope)
    ensures
        spec_resolve_scope(DefScope::Param, local) == Scope::Local(local),
        spec_resolve_ns(DefScope::Param, local) is None,
        spec_resolve_scope(DefScope::Local, local) == Scope::Local(local),
{
}

} // verus!
