use vstd::prelude::*;

use crate::scope::Privacy;
use crate::source::{Loc, PToken};

verus! {

/// Type tag of a parameter of a function-like declaration.
#[derive(Clone, Copy, Debug, PartialEq, Eq, Hash, Structural)]
pub enum PParamTy {
    Var,
    Array,
    Modvar,
    Str,
    Double,
    Int,
    Label,
    Local,
    Sptr,
    Wptr,
    Float,
    Comobj,
    Bmscr,
    PRefstr,
    PExinfo,
    Nullptr,
}

pub open spec fn spec_take_arg(ty: PParamTy) -> bool {
    match ty {
        PParamTy::Local | PParamTy::Bmscr | PParamTy::PRefstr | PParamTy::PExinfo
        | PParamTy::Nullptr => false,
        _ => true,
    }
}

impl PParamTy {
    /// Whether a caller passes an argument for a parameter of this type (local
    /// variables and values that the runtime supplies take none).
    pub fn take_arg(self) -> (r: bool)
        ensures
            r == spec_take_arg(self),
    {
        match self {
            PParamTy::Local | PParamTy::Bmscr | PParamTy::PRefstr | PParamTy::PExinfo
            | PParamTy::Nullptr => false,
            _ => true,
        }
    }
}

/// Which of the function-declaring directives a definition uses.
#[derive(Clone, Copy, Debug, PartialEq, Eq, Hash, Structural)]
pub enum PDefFuncKind {
    DefFunc,
    DefCFunc,
    ModInit,
    ModTerm,
    ModFunc,
    ModCFunc,
}

#[derive(Clone, Debug)]
pub struct PParam {
    pub param_ty_opt: Option<(PParamTy, PToken)>,
    pub name_opt: Option<PToken>,
}

#[derive(Clone, Debug)]
pub struct PLabel {
    pub star: PToken,
    pub name_opt: Option<PToken>,
}

/// `#const`, `#enum`, `#usecom`, `#comfunc` and `#cmd`: a modifier and a name.
#[derive(Clone, Debug)]
pub struct PNamedStmt {
    pub hash: PToken,
    pub privacy_opt: Option<(Privacy, PToken)>,
    pub name_opt: Option<PToken>,
}

#[derive(Clone, Debug)]
pub struct PDefineStmt {
    pub hash: PToken,
    pub privacy_opt: Option<(Privacy, PToken)>,
    pub ctype_opt: Option<PToken>,
    pub name_opt: Option<PToken>,
}

#[derive(Debug)]
pub struct PDefFuncStmt {
    pub hash: PToken,
    pub keyword: PToken,
    pub kind: PDefFuncKind,
    pub privacy_opt: Option<(Privacy, PToken)>,
    pub name_opt: Option<PToken>,
    pub onexit_opt: Option<PToken>,
    pub params: Vec<PParam>,
    pub stmts: Vec<PStmt>,
    pub behind: Loc,
}

#[derive(Clone, Debug)]
pub struct PLibFuncStmt {
    pub hash: PToken,
    pub privacy_opt: Option<(Privacy, PToken)>,
    pub name_opt: Option<PToken>,
    pub onexit_opt: Option<PToken>,
    pub params: Vec<PParam>,
}

#[derive(Debug)]
pub struct PModuleStmt {
    pub hash: PToken,
    pub keyword: PToken,
    pub name_opt: Option<PToken>,
    pub fields: Vec<PParam>,
    pub stmts: Vec<PStmt>,
    pub behind: Loc,
}

#[derive(Clone, Debug)]
pub struct PIncludeStmt {
    pub hash: PToken,
    pub file_path_opt: Option<PToken>,
}

/// One statement of the concrete syntax tree. Those without a declarative
/// effect keep only their first token.
#[derive(Debug)]
pub enum PStmt {
    Label(PLabel),
    Assign(PToken),
    Command(PToken),
    Invoke(PToken),
    Const(PNamedStmt),
    Define(PDefineStmt),
    Enum(PNamedStmt),
    DefFunc(PDefFuncStmt),
    UseLib(PToken),
    LibFunc(PLibFuncStmt),
    UseCom(PNamedStmt),
    ComFunc(PNamedStmt),
    RegCmd(PToken),
    Cmd(PNamedStmt),
    Module(PModuleStmt),
    Global(PToken),
    Include(PIncludeStmt),
    UnknownPreProc(PToken),
}

/// The statements of one document.
#[derive(Debug)]
pub struct PRoot {
    pub stmts: Vec<PStmt>,
}

} // verus!
