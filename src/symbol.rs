use vstd::prelude::*;

use crate::scope::{ModuleId, Scope};
use crate::source::Loc;
use crate::syntax::PParamTy;

verus! {

/// What a declaration introduces.
#[derive(Clone, Copy, Debug, PartialEq, Eq, Structural)]
pub enum SymbolKind {
    Label,
    Const,
    Macro { ctype: bool },
    Enum,
    DefFunc,
    DefCFunc,
    ModFunc,
    ModCFunc,
    Param(Option<PParamTy>),
    LibFunc,
    ComInterface,
    ComFunc,
    PluginCmd,
    Module,
    Field,
}

/// One parameter of a signature: type tag, name and rendered default value.
pub type SigParam = (Option<PParamTy>, Option<String>, Option<String>);

/// Parameter list of an invocable symbol.
pub struct SignatureData {
    pub name: String,
    pub params: Vec<SigParam>,
}

/// One declaration site, with the sites where it is used.
pub struct Symbol {
    pub kind: SymbolKind,
    pub name: String,
    /// The descriptive comments in front of the declaration.
    pub comments: Vec<String>,
    pub scope: Scope,
    pub ns_opt: Option<ModuleId>,
    pub def_sites: Vec<Loc>,
    pub use_sites: Vec<Loc>,
    pub signature_opt: Option<SignatureData>,
}

/// Registry entry of a module block.
#[derive(Clone, Copy, Debug, PartialEq, Eq, Structural)]
pub struct ModuleData {
    pub keyword_loc: Loc,
    pub content_loc: Loc,
}

/// Registry entry of a function-like block.
#[derive(Clone, Copy, Debug, PartialEq, Eq, Structural)]
pub struct DefFuncData {
    pub content_loc: Loc,
}

pub type SigView = (Option<PParamTy>, Option<Seq<char>>, Option<Seq<char>>);

pub open spec fn opt_view(o: Option<String>) -> Option<Seq<char>> {
    match o {
        Some(s) => Some(s@),
        None => None,
    }
}

pub open spec fn sig_param_view(p: SigParam) -> SigView {
    (p.0, opt_view(p.1), opt_view(p.2))
}

pub open spec fn sig_params_view(v: Seq<SigParam>) -> Seq<SigView> {
    v.map_values(|p: SigParam| sig_param_view(p))
}

pub open spec fn signature_view(o: Option<SignatureData>) -> Option<(Seq<char>, Seq<SigView>)> {
    match o {
        Some(d) => Some((d.name@, sig_params_view(d.params@))),
        None => None,
    }
}

} // verus!
