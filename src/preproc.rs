use vstd::prelude::*;

use crate::comment::{collect_comments, comment_texts, lines_view};
use crate::scope::{
    privacy_or_global, privacy_or_local, resolve_name_scope_ns_for_def, spec_privacy_or_global,
    spec_privacy_or_local, spec_resolve_ns, spec_resolve_scope, DefFuncId, DefScope, LocalScope,
    ModuleId, Privacy, Scope,
};
use crate::source::{spec_unite, string_from_chars, DocId, Loc, PToken, TokenKind};
use crate::symbol::{
    sig_param_view, sig_params_view, signature_view, DefFuncData, ModuleData,
    SigParam, SigView, SignatureData, Symbol, SymbolKind,
};
use crate::syntax::{
    spec_take_arg, PDefFuncKind, PDefFuncStmt, PLibFuncStmt, PParam, PParamTy, PRoot, PStmt,
};

verus! {

/// The text between the quotes; a quote that is missing on one side is not required.
pub open spec fn strip_quotes(s: Seq<char>) -> Seq<char> {
    let l: int = if s.len() > 0 && s[0] == '"' { 1 } else { 0 };
    let r: int = if s.len() > 0 && s.last() == '"' { s.len() - 1 } else { s.len() as int };
    if l <= r { s.subrange(l, r) } else { Seq::empty() }
}

/// Each pair of backslashes, scanned from the left, becomes one `/`.
pub open spec fn collapse_backslashes(s: Seq<char>) -> Seq<char>
    decreases s.len(),
{
    if s.len() == 0 {
        s
    } else if s.len() >= 2 && s[0] == '\\' && s[1] == '\\' {
        seq!['/'] + collapse_backslashes(s.subrange(2, s.len() as int))
    } else {
        seq![s[0]] + collapse_backslashes(s.subrange(1, s.len() as int))
    }
}

pub open spec fn ascii_lower(c: char) -> char {
    if 'A' <= c && c <= 'Z' {
        ((c as u32 + 32) as u8) as char
    } else {
        c
    }
}

/// The form in which an include target is recorded.
pub open spec fn spec_normalize_include(s: Seq<char>) -> Seq<char> {
    collapse_backslashes(strip_quotes(s)).map_values(|c: char| ascii_lower(c))
}

pub fn normalize_include_path(text: &str) -> (r: String)
    ensures
        r@ == spec_normalize_include(text@),
{
    let n = text.unicode_len();
    let l: usize = if n > 0 && text.get_char(0) == '"' { 1 } else { 0 };
    let r: usize = if n > 0 && text.get_char(n - 1) == '"' { n - 1 } else { n };
    let ghost s = if l <= r { text@.subrange(l as int, r as int) } else { Seq::<char>::empty() };
    assert(s == strip_quotes(text@));
    let mut out: Vec<char> = Vec::new();
    let mut i: usize = l;
    let end: usize = if l <= r { r } else { l };
    assert(s =~= text@.subrange(l as int, end as int));
    while i < end
        invariant
            l <= i <= end <= n,
            n == text@.len(),
            s == text@.subrange(l as int, end as int),
            out@.map_values(|c: char| ascii_lower(c)) + collapse_backslashes(
                text@.subrange(i as int, end as int),
            ).map_values(|c: char| ascii_lower(c)) == collapse_backslashes(s).map_values(
                |c: char| ascii_lower(c),
            ),
            forall|j: int| 0 <= j < out@.len() ==> out@[j] == ascii_lower(out@[j]),
        decreases end - i,
    {
        let ghost rest = text@.subrange(i as int, end as int);
        let c = text.get_char(i);
        let lc = if 'A' <= c && c <= 'Z' { ((c as u32 + 32) as u8) as char } else { c };
        assert(lc == ascii_lower(c));
        if c == '\\' && i + 1 < end && text.get_char(i + 1) == '\\' {
            assert(rest.subrange(2, rest.len() as int) =~= text@.subrange(i + 2, end as int));
            assert(collapse_backslashes(rest) == seq!['/'] + collapse_backslashes(
                text@.subrange(i + 2, end as int),
            ));
            out.push('/');
            i += 2;
        } else {
            assert(rest.subrange(1, rest.len() as int) =~= text@.subrange(i + 1, end as int));
            assert(collapse_backslashes(rest) == seq![c] + collapse_backslashes(
                text@.subrange(i + 1, end as int),
            ));
            out.push(lc);
            i += 1;
        }
        assert(out@.map_values(|c: char| ascii_lower(c)) + collapse_backslashes(
            text@.subrange(i as int, end as int),
        ).map_values(|c: char| ascii_lower(c)) =~= collapse_backslashes(s).map_values(
            |c: char| ascii_lower(c),
        ));
    }
    assert(out@ =~= out@.map_values(|c: char| ascii_lower(c)));
    assert(collapse_backslashes(text@.subrange(i as int, end as int)) =~= Seq::<char>::empty());
    assert(out@ =~= collapse_backslashes(s).map_values(|c: char| ascii_lower(c)));
    string_from_chars(&out)
}


/// The signature entries of a parameter list: a parameter whose type takes no
/// argument is left out.
pub open spec fn spec_sig_params(ps: Seq<PParam>) -> Seq<SigView>
    decreases ps.len(),
{
    if ps.len() == 0 {
        Seq::empty()
    } else {
        let rest = spec_sig_params(ps.drop_last());
        let p = ps.last();
        match p.param_ty_opt {
            Some((ty, _)) => if !spec_take_arg(ty) {
                rest
            } else {
                rest.push((Some(ty), token_text_opt(p.name_opt), None))
            },
            None => rest.push((None, token_text_opt(p.name_opt), None)),
        }
    }
}

pub open spec fn token_text_opt(t: Option<PToken>) -> Option<Seq<char>> {
    match t {
        Some(t) => Some(t.body.text@),
        None => None,
    }
}

pub open spec fn thismod() -> Seq<char> {
    seq!['t', 'h', 'i', 's', 'm', 'o', 'd']
}

pub open spec fn spec_lib_func_signature(stmt: PLibFuncStmt) -> Option<(Seq<char>, Seq<SigView>)> {
    match stmt.name_opt {
        Some(name) => Some((name.body.text@, spec_sig_params(stmt.params@))),
        None => None,
    }
}

/// Module methods take the module instance as an implicit first parameter;
/// initialisers and finalisers get no signature.
pub open spec fn spec_deffunc_signature(stmt: PDefFuncStmt) -> Option<(Seq<char>, Seq<SigView>)> {
    match stmt.name_opt {
        Some(name) => match stmt.kind {
            PDefFuncKind::DefFunc | PDefFuncKind::DefCFunc => Some(
                (name.body.text@, spec_sig_params(stmt.params@)),
            ),
            PDefFuncKind::ModFunc | PDefFuncKind::ModCFunc => Some(
                (
                    name.body.text@,
                    seq![(Some(PParamTy::Modvar), Some(thismod()), None::<Seq<char>>)]
                        + spec_sig_params(stmt.params@),
                ),
            ),
            PDefFuncKind::ModInit | PDefFuncKind::ModTerm => None,
        },
        None => None,
    }
}

fn push_sig_params(params: &Vec<PParam>, out: &mut Vec<SigParam>)
    ensures
        sig_params_view(final(out)@) == sig_params_view(old(out)@) + spec_sig_params(params@),
{
    let ghost base = sig_params_view(out@);
    let mut i: usize = 0;
    assert(spec_sig_params(params@.subrange(0, 0)) =~= Seq::<SigView>::empty());
    assert(sig_params_view(out@) =~= base + Seq::<SigView>::empty());
    while i < params.len()
        invariant
            i <= params@.len(),
            sig_params_view(out@) == base + spec_sig_params(params@.subrange(0, i as int)),
        decreases params@.len() - i,
    {
        let param = &params[i];
        assert(params@.subrange(0, i + 1).drop_last() =~= params@.subrange(0, i as int));
        let ty_opt: Option<PParamTy> = match &param.param_ty_opt {
            Some((ty, _)) => Some(*ty),
            None => None,
        };
        let skip = match ty_opt {
            Some(ty) => !ty.take_arg(),
            None => false,
        };
        if !skip {
            let name_opt: Option<String> = match &param.name_opt {
                Some(name) => Some(name.body.text.clone()),
                None => None,
            };
            let ghost prev = out@;
            let entry: SigParam = (ty_opt, name_opt, None);
            out.push(entry);
            assert(sig_param_view(entry) == (ty_opt, token_text_opt(param.name_opt), None::<Seq<char>>));
            assert(sig_params_view(out@) =~= sig_params_view(prev).push(sig_param_view(entry)));
        }
        i += 1;
    }
    assert(params@.subrange(0, params@.len() as int) =~= params@);
}

pub fn new_signature_data_for_lib_func(stmt: &PLibFuncStmt) -> (r: Option<SignatureData>)
    ensures
        signature_view(r) == spec_lib_func_signature(*stmt),
{
    let name = match &stmt.name_opt {
        Some(name) => name.body.text.clone(),
        None => return None,
    };
    let mut params: Vec<SigParam> = Vec::new();
    push_sig_params(&stmt.params, &mut params);
    assert(sig_params_view(Seq::<SigParam>::empty()) + spec_sig_params(stmt.params@) =~= spec_sig_params(stmt.params@));
    Some(SignatureData { name, params })
}

pub fn new_signature_data_for_deffunc(stmt: &PDefFuncStmt) -> (r: Option<SignatureData>)
    ensures
        signature_view(r) == spec_deffunc_signature(*stmt),
{
    let take_modvar = match stmt.kind {
        PDefFuncKind::DefFunc | PDefFuncKind::DefCFunc => false,
        PDefFuncKind::ModFunc | PDefFuncKind::ModCFunc => true,
        PDefFuncKind::ModInit | PDefFuncKind::ModTerm => return None,
    };
    let name = match &stmt.name_opt {
        Some(name) => name.body.text.clone(),
        None => return None,
    };
    let mut params: Vec<SigParam> = Vec::new();
    if take_modvar {
        let this = String::from_str("thismod");
        proof {
            reveal_strlit("thismod");
        }
        assert(this@ =~= thismod());
        params.push((Some(PParamTy::Modvar), Some(this), None));
    }
    let ghost first = sig_params_view(params@);
    push_sig_params(&stmt.params, &mut params);
    if take_modvar {
        assert(first =~= seq![(Some(PParamTy::Modvar), Some(thismod()), None::<Seq<char>>)]);
    } else {
        assert(first + spec_sig_params(stmt.params@) =~= spec_sig_params(stmt.params@));
    }
    Some(SignatureData { name, params })
}


/// Whether `a` begins with all of `b`.
pub open spec fn extends<A>(a: Seq<A>, b: Seq<A>) -> bool {
    b.len() <= a.len() && forall|i: int| 0 <= i < b.len() ==> #[trigger] a[i] == b[i]
}

/// The ids in the scope were allocated by this analysis: this document, this
/// generation, and an index below the number allocated so far.
pub open spec fn local_ok(doc: DocId, gen: u64, nm: int, nf: int, l: LocalScope) -> bool {
    &&& l.module_opt is Some ==> {
        let m = l.module_opt->0;
        m.doc == doc && m.gen == gen && m.index < nm
    }
    &&& l.deffunc_opt is Some ==> {
        let f = l.deffunc_opt->0;
        f.doc == doc && f.gen == gen && f.index < nf
    }
}

/// A well-formed symbol: one definition site, parameters and fields local, and
/// no id from another analysis.
pub open spec fn symbol_ok(doc: DocId, gen: u64, nm: int, nf: int, s: Symbol) -> bool {
    &&& s.def_sites@.len() == 1
    &&& (s.kind is Param || s.kind is Field || s.kind is Label) ==> s.scope is Local
    &&& s.kind is Module ==> s.scope is Global
    &&& s.scope is Local ==> local_ok(doc, gen, nm, nf, s.scope->Local_0)
    &&& s.ns_opt is Some ==> {
        let m = s.ns_opt->0;
        m.doc == doc && m.gen == gen && m.index < nm
    }
}

pub open spec fn token_text_of(t: PToken) -> Seq<char> {
    t.body.text@
}

/// The symbol that a declaration makes, given its leading token, its name token,
/// the scope it asks for, the context and its signature.
pub open spec fn symbol_matches(
    s: Symbol,
    kind: SymbolKind,
    leader: PToken,
    name: PToken,
    def: DefScope,
    local: LocalScope,
    sig: Option<(Seq<char>, Seq<SigView>)>,
) -> bool {
    &&& s.kind == kind
    &&& s.name@ == name.body.text@
    &&& s.scope == spec_resolve_scope(def, local)
    &&& s.ns_opt == spec_resolve_ns(def, local)
    &&& s.def_sites@ == seq![name.body.loc]
    &&& s.use_sites@.len() == 0
    &&& lines_view(s.comments@) == comment_texts(leader.leading@)
    &&& signature_view(s.signature_opt) == sig
}

/// Walk state of the analysis of one document.
pub struct Ctx {
    pub doc: DocId,
    pub gen: u64,
    pub symbols: Vec<Symbol>,
    pub includes: Vec<(String, Loc)>,
    pub scope: LocalScope,
    pub modules: Vec<(ModuleId, ModuleData)>,
    pub deffuncs: Vec<(DefFuncId, DefFuncData)>,
}

pub open spec fn privacy_of(p: Option<(Privacy, PToken)>) -> Option<Privacy> {
    match p {
        Some((q, _)) => Some(q),
        None => None,
    }
}

pub fn add_symbol(
    kind: SymbolKind,
    leader: &PToken,
    name: &PToken,
    def: DefScope,
    local: &LocalScope,
    symbols: &mut Vec<Symbol>,
    signature_opt: Option<SignatureData>,
) -> (r: usize)
    ensures
        r == old(symbols)@.len(),
        final(symbols)@ == old(symbols)@.push(final(symbols)@[r as int]),
        symbol_matches(
            final(symbols)@[r as int],
            kind,
            *leader,
            *name,
            def,
            *local,
            signature_view(signature_opt),
        ),
{
    let resolved = resolve_name_scope_ns_for_def(&name.body.text, def, local);
    let mut def_sites: Vec<Loc> = Vec::new();
    def_sites.push(name.body.loc);
    assert(def_sites@ =~= seq![name.body.loc]);
    let symbol = Symbol {
        kind,
        name: resolved.basename,
        comments: collect_comments(leader),
        scope: resolved.scope,
        ns_opt: resolved.ns_opt,
        def_sites,
        use_sites: Vec::new(),
        signature_opt,
    };
    let r = symbols.len();
    symbols.push(symbol);
    r
}

impl Ctx {
    pub open spec fn wf(&self) -> bool {
        &&& forall|i: int|
            0 <= i < self.modules@.len() ==> (#[trigger] self.modules@[i]).0 == (ModuleId {
                doc: self.doc,
                gen: self.gen,
                index: i as usize,
            })
        &&& forall|i: int|
            0 <= i < self.deffuncs@.len() ==> (#[trigger] self.deffuncs@[i]).0 == (DefFuncId {
                doc: self.doc,
                gen: self.gen,
                index: i as usize,
            })
        &&& local_ok(
            self.doc,
            self.gen,
            self.modules@.len() as int,
            self.deffuncs@.len() as int,
            self.scope,
        )
        &&& forall|i: int|
            0 <= i < self.symbols@.len() ==> symbol_ok(
                self.doc,
                self.gen,
                self.modules@.len() as int,
                self.deffuncs@.len() as int,
                #[trigger] self.symbols@[i],
            )
    }

    /// `new` is `old` after more of the walk: same document, generation and
    /// context, and every list only grew.
    pub open spec fn grown(old: Ctx, new: Ctx) -> bool {
        &&& new.wf()
        &&& new.doc == old.doc
        &&& new.gen == old.gen
        &&& new.scope == old.scope
        &&& extends(new.symbols@, old.symbols@)
        &&& extends(new.includes@, old.includes@)
        &&& extends(new.modules@, old.modules@)
        &&& extends(new.deffuncs@, old.deffuncs@)
    }

    pub fn privacy_scope_or_local(&self, privacy_opt: &Option<(Privacy, PToken)>) -> (r: DefScope)
        ensures
            r == spec_privacy_or_local(privacy_of(*privacy_opt)),
    {
        match privacy_opt {
            Some((p, _)) => privacy_or_local(Some(*p)),
            None => privacy_or_local(None),
        }
    }

    pub fn privacy_scope_or_global(&self, privacy_opt: &Option<(Privacy, PToken)>) -> (r: DefScope)
        ensures
            r == spec_privacy_or_global(privacy_of(*privacy_opt)),
    {
        match privacy_opt {
            Some((p, _)) => privacy_or_global(Some(*p)),
            None => privacy_or_global(None),
        }
    }

    /// Adds the symbol of a declaration in the current context; returns its index.
    pub fn add_symbol(
        &mut self,
        kind: SymbolKind,
        leader: &PToken,
        name: &PToken,
        def: DefScope,
        signature_opt: Option<SignatureData>,
    ) -> (r: usize)
        requires
            old(self).wf(),
            (kind is Param || kind is Field || kind is Label) ==> def != DefScope::Global,
            kind is Module ==> def == DefScope::Global,
        ensures
            final(self).wf(),
            r == old(self).symbols@.len(),
            final(self).symbols@ == old(self).symbols@.push(final(self).symbols@[r as int]),
            symbol_matches(
                final(self).symbols@[r as int],
                kind,
                *leader,
                *name,
                def,
                old(self).scope,
                signature_view(signature_opt),
            ),
            final(self).doc == old(self).doc,
            final(self).gen == old(self).gen,
            final(self).scope == old(self).scope,
            final(self).includes == old(self).includes,
            final(self).modules == old(self).modules,
            final(self).deffuncs == old(self).deffuncs,
    {
        let r = add_symbol(kind, leader, name, def, &self.scope, &mut self.symbols, signature_opt);
        proof {
            let nm = self.modules@.len() as int;
            let nf = self.deffuncs@.len() as int;
            assert forall|i: int| 0 <= i < self.symbols@.len() implies symbol_ok(
                self.doc,
                self.gen,
                nm,
                nf,
                #[trigger] self.symbols@[i],
            ) by {
                if i < r {
                    assert(self.symbols@[i] == old(self).symbols@[i]);
                }
            }
        }
        r
    }
}


pub open spec fn named_decl(
    name_opt: Option<PToken>,
    kind: SymbolKind,
    def: DefScope,
    leader: PToken,
) -> Option<(SymbolKind, DefScope, PToken, PToken)> {
    match name_opt {
        Some(name) => Some((kind, def, leader, name)),
        None => None,
    }
}

pub open spec fn deffunc_symbol_kind(kind: PDefFuncKind) -> SymbolKind {
    match kind {
        PDefFuncKind::DefFunc => SymbolKind::DefFunc,
        PDefFuncKind::DefCFunc => SymbolKind::DefCFunc,
        PDefFuncKind::ModInit | PDefFuncKind::ModTerm | PDefFuncKind::ModFunc => SymbolKind::ModFunc,
        PDefFuncKind::ModCFunc => SymbolKind::ModCFunc,
    }
}

/// The symbol that a statement declares in its own context, first of all its
/// symbols: kind, requested scope, leading token and name token. Labels are local,
/// modules global; constants, macros, enums, library functions, COM interfaces and
/// plugin commands follow the default-local policy; functions and COM functions
/// the default-global one. Exit handlers and nameless declarations make none.
pub open spec fn stmt_decl(stmt: PStmt) -> Option<(SymbolKind, DefScope, PToken, PToken)> {
    match stmt {
        PStmt::Label(l) => named_decl(l.name_opt, SymbolKind::Label, DefScope::Local, l.star),
        PStmt::Const(c) => named_decl(
            c.name_opt,
            SymbolKind::Const,
            spec_privacy_or_local(privacy_of(c.privacy_opt)),
            c.hash,
        ),
        PStmt::Define(d) => named_decl(
            d.name_opt,
            SymbolKind::Macro { ctype: d.ctype_opt is Some },
            spec_privacy_or_local(privacy_of(d.privacy_opt)),
            d.hash,
        ),
        PStmt::Enum(c) => named_decl(
            c.name_opt,
            SymbolKind::Enum,
            spec_privacy_or_local(privacy_of(c.privacy_opt)),
            c.hash,
        ),
        PStmt::DefFunc(f) => if f.onexit_opt is Some {
            None
        } else {
            named_decl(
                f.name_opt,
                deffunc_symbol_kind(f.kind),
                spec_privacy_or_global(privacy_of(f.privacy_opt)),
                f.hash,
            )
        },
        PStmt::LibFunc(f) => if f.onexit_opt is Some {
            None
        } else {
            named_decl(
                f.name_opt,
                SymbolKind::LibFunc,
                spec_privacy_or_local(privacy_of(f.privacy_opt)),
                f.hash,
            )
        },
        PStmt::UseCom(c) => named_decl(
            c.name_opt,
            SymbolKind::ComInterface,
            spec_privacy_or_local(privacy_of(c.privacy_opt)),
            c.hash,
        ),
        PStmt::ComFunc(c) => named_decl(
            c.name_opt,
            SymbolKind::ComFunc,
            spec_privacy_or_global(privacy_of(c.privacy_opt)),
            c.hash,
        ),
        PStmt::Cmd(c) => named_decl(
            c.name_opt,
            SymbolKind::PluginCmd,
            spec_privacy_or_local(privacy_of(c.privacy_opt)),
            c.hash,
        ),
        PStmt::Module(m) => named_decl(m.name_opt, SymbolKind::Module, DefScope::Global, m.hash),
        _ => None,
    }
}

pub open spec fn decl_matches(
    s: Symbol,
    d: (SymbolKind, DefScope, PToken, PToken),
    local: LocalScope,
    sig: Option<(Seq<char>, Seq<SigView>)>,
) -> bool {
    let (kind, def, leader, name) = d;
    symbol_matches(s, kind, leader, name, def, local, sig)
}

pub open spec fn stmt_signature(stmt: PStmt) -> Option<(Seq<char>, Seq<SigView>)> {
    match stmt {
        PStmt::DefFunc(f) => spec_deffunc_signature(f),
        PStmt::LibFunc(f) => spec_lib_func_signature(f),
        _ => None,
    }
}

/// The recorded target of an include directive whose argument is a string
/// literal, with the span from `#` to the end of the argument.
pub open spec fn include_target(stmt: PStmt) -> Option<(Seq<char>, Loc)> {
    match stmt {
        PStmt::Include(i) => match i.file_path_opt {
            Some(fp) => if fp.body.kind == TokenKind::Str {
                Some(
                    (
                        spec_normalize_include(fp.body.text@),
                        spec_unite(
                            i.hash.body.loc,
                            Loc { doc: fp.body.loc.doc, start: fp.body.loc.end, end: fp.body.loc.end },
                        ),
                    ),
                )
            } else {
                None
            },
            None => None,
        },
        _ => None,
    }
}

/// What one statement does to the walk state.
/// Number of parameters (or fields) that have a name.
pub open spec fn named_count(ps: Seq<PParam>) -> int
    decreases ps.len(),
{
    if ps.len() == 0 {
        0
    } else {
        named_count(ps.subrange(0, ps.len() - 1)) + if ps[ps.len() - 1].name_opt is Some {
            1int
        } else {
            0int
        }
    }
}

/// How many symbols, module entries and function entries the walk records for
/// one statement, its parameters or fields, and every statement nested in it.
pub open spec fn stmt_counts(s: PStmt) -> (int, int, int)
    decreases s,
{
    let own: int = if stmt_decl(s) is Some {
        1
    } else {
        0
    };
    match s {
        PStmt::DefFunc(f) => {
            let body = stmts_counts(f.stmts@);
            (own + named_count(f.params@) + body.0, body.1, 1 + body.2)
        },
        PStmt::Module(m) => {
            let body = stmts_counts(m.stmts@);
            (own + named_count(m.fields@) + body.0, 1 + body.1, body.2)
        },
        _ => (own, 0, 0),
    }
}

pub open spec fn stmts_counts(ss: Seq<PStmt>) -> (int, int, int)
    decreases ss,
{
    if ss.len() == 0 {
        (0, 0, 0)
    } else {
        let a = stmts_counts(ss.subrange(0, ss.len() - 1));
        let b = stmt_counts(ss[ss.len() - 1]);
        (a.0 + b.0, a.1 + b.1, a.2 + b.2)
    }
}

/// The walk state grew by exactly the counts `c`.
pub open spec fn grew_by(old: Ctx, new: Ctx, c: (int, int, int)) -> bool {
    &&& new.symbols@.len() == old.symbols@.len() + c.0
    &&& new.modules@.len() == old.modules@.len() + c.1
    &&& new.deffuncs@.len() == old.deffuncs@.len() + c.2
}

pub open spec fn stmt_effect(old: Ctx, new: Ctx, stmt: PStmt) -> bool {
    &&& Ctx::grown(old, new)
    &&& grew_by(old, new, stmt_counts(stmt))
    &&& stmt_decl(stmt) is Some ==> {
        &&& new.symbols@.len() > old.symbols@.len()
        &&& decl_matches(
            new.symbols@[old.symbols@.len() as int],
            stmt_decl(stmt)->0,
            old.scope,
            stmt_signature(stmt),
        )
    }
    &&& !(stmt is DefFunc || stmt is Module) ==> {
        &&& new.symbols@.len() == old.symbols@.len() + (if stmt_decl(stmt) is Some {
            1int
        } else {
            0int
        })
        &&& new.modules == old.modules
        &&& new.deffuncs == old.deffuncs
        &&& include_target(stmt) is Some ==> {
            let t = include_target(stmt)->0;
            &&& new.includes@.len() == old.includes@.len() + 1
            &&& new.includes@.last().0@ == t.0
            &&& new.includes@.last().1 == t.1
        }
        &&& include_target(stmt) is None ==> new.includes == old.includes
    }
    &&& stmt matches PStmt::DefFunc(f) ==> {
        let inner = LocalScope {
            module_opt: old.scope.module_opt,
            deffunc_opt: Some(DefFuncId { doc: old.doc, gen: old.gen, index: old.deffuncs@.len() as usize }),
        };
        &&& new.deffuncs@.len() > old.deffuncs@.len()
        &&& new.deffuncs@[old.deffuncs@.len() as int].1 == (DefFuncData {
            content_loc: spec_unite(f.hash.body.loc, f.behind),
        })
        &&& forall|k: int|
            0 <= k < f.params@.len() && (#[trigger] f.params@[k]).name_opt is Some ==> has_decl(
                new.symbols@,
                old.symbols@.len() as int,
                param_decl(f.params@[k], f.hash),
                inner,
                None,
            )
        &&& stmts_recorded(
            f.stmts@,
            new.symbols@,
            new.includes@,
            old.symbols@.len() as int,
            old.includes@.len() as int,
            inner,
        )
    }
    &&& stmt matches PStmt::Module(m) ==> {
        let inner = LocalScope {
            module_opt: Some(ModuleId { doc: old.doc, gen: old.gen, index: old.modules@.len() as usize }),
            deffunc_opt: None,
        };
        &&& new.modules@.len() > old.modules@.len()
        &&& new.modules@[old.modules@.len() as int].1 == (ModuleData {
            keyword_loc: m.keyword.body.loc,
            content_loc: spec_unite(m.hash.body.loc, m.behind),
        })
        &&& forall|k: int|
            0 <= k < m.fields@.len() && (#[trigger] m.fields@[k]).name_opt is Some ==> has_decl(
                new.symbols@,
                old.symbols@.len() as int,
                field_decl(m.fields@[k]),
                inner,
                None,
            )
        &&& stmts_recorded(
            m.stmts@,
            new.symbols@,
            new.includes@,
            old.symbols@.len() as int,
            old.includes@.len() as int,
            inner,
        )
    }
}


/// Everything the walk records for one statement and, recursively, for what is
/// nested in it: its own symbol and include, its parameters or fields, and the
/// statements of its body in the block's own context. `nm` and `nf` are the
/// numbers of module and function entries allocated before the statement.
pub open spec fn stmt_recorded_deep(
    s: PStmt,
    syms: Seq<Symbol>,
    incs: Seq<(String, Loc)>,
    lo_s: int,
    lo_i: int,
    local: LocalScope,
    doc: DocId,
    gen: u64,
    nm: int,
    nf: int,
) -> bool
    decreases s,
{
    &&& stmt_decl(s) is Some ==> has_decl(syms, lo_s, stmt_decl(s)->0, local, stmt_signature(s))
    &&& include_target(s) is Some ==> has_include(incs, lo_i, include_target(s)->0)
    &&& match s {
        PStmt::DefFunc(f) => {
            let inner = LocalScope {
                module_opt: local.module_opt,
                deffunc_opt: Some(DefFuncId { doc, gen, index: nf as usize }),
            };
            &&& forall|k: int|
                0 <= k < f.params@.len() && (#[trigger] f.params@[k]).name_opt is Some ==> has_decl(
                    syms,
                    lo_s,
                    param_decl(f.params@[k], f.hash),
                    inner,
                    None,
                )
            &&& stmts_recorded_deep(f.stmts@, syms, incs, lo_s, lo_i, inner, doc, gen, nm, nf + 1)
        },
        PStmt::Module(m) => {
            let inner = LocalScope {
                module_opt: Some(ModuleId { doc, gen, index: nm as usize }),
                deffunc_opt: None,
            };
            &&& forall|k: int|
                0 <= k < m.fields@.len() && (#[trigger] m.fields@[k]).name_opt is Some ==> has_decl(
                    syms,
                    lo_s,
                    field_decl(m.fields@[k]),
                    inner,
                    None,
                )
            &&& stmts_recorded_deep(m.stmts@, syms, incs, lo_s, lo_i, inner, doc, gen, nm + 1, nf)
        },
        _ => true,
    }
}

pub open spec fn stmts_recorded_deep(
    ss: Seq<PStmt>,
    syms: Seq<Symbol>,
    incs: Seq<(String, Loc)>,
    lo_s: int,
    lo_i: int,
    local: LocalScope,
    doc: DocId,
    gen: u64,
    nm: int,
    nf: int,
) -> bool
    decreases ss,
{
    if ss.len() == 0 {
        true
    } else {
        let pre = ss.subrange(0, ss.len() - 1);
        &&& stmts_recorded_deep(pre, syms, incs, lo_s, lo_i, local, doc, gen, nm, nf)
        &&& stmt_recorded_deep(
            ss[ss.len() - 1],
            syms,
            incs,
            lo_s,
            lo_i,
            local,
            doc,
            gen,
            nm + stmts_counts(pre).1,
            nf + stmts_counts(pre).2,
        )
    }
}

proof fn lemma_has_decl_mono(
    a: Seq<Symbol>,
    b: Seq<Symbol>,
    lo: int,
    lo2: int,
    d: (SymbolKind, DefScope, PToken, PToken),
    local: LocalScope,
    sig: Option<(Seq<char>, Seq<SigView>)>,
)
    requires
        0 <= lo2 <= lo,
        has_decl(a, lo, d, local, sig),
        extends(b, a),
    ensures
        has_decl(b, lo2, d, local, sig),
{
    let j = choose|j: int| lo <= j < a.len() && #[trigger] decl_matches(a[j], d, local, sig);
    assert(b[j] == a[j]);
    assert(decl_matches(b[j], d, local, sig));
}

proof fn lemma_has_include_mono(a: Seq<(String, Loc)>, b: Seq<(String, Loc)>, lo: int, lo2: int, t: (Seq<char>, Loc))
    requires
        0 <= lo2 <= lo,
        has_include(a, lo, t),
        extends(b, a),
    ensures
        has_include(b, lo2, t),
{
    let j = choose|j: int| lo <= j < a.len() && (#[trigger] a[j]).0@ == t.0 && a[j].1 == t.1;
    assert(b[j] == a[j]);
}

proof fn lemma_deep_mono(
    s: PStmt,
    a: Seq<Symbol>,
    ai: Seq<(String, Loc)>,
    b: Seq<Symbol>,
    bi: Seq<(String, Loc)>,
    lo_s: int,
    lo_i: int,
    lo_s2: int,
    lo_i2: int,
    local: LocalScope,
    doc: DocId,
    gen: u64,
    nm: int,
    nf: int,
)
    requires
        0 <= lo_s2 <= lo_s,
        0 <= lo_i2 <= lo_i,
        extends(b, a),
        extends(bi, ai),
        stmt_recorded_deep(s, a, ai, lo_s, lo_i, local, doc, gen, nm, nf),
    ensures
        stmt_recorded_deep(s, b, bi, lo_s2, lo_i2, local, doc, gen, nm, nf),
    decreases s,
{
    if stmt_decl(s) is Some {
        lemma_has_decl_mono(a, b, lo_s, lo_s2, stmt_decl(s)->0, local, stmt_signature(s));
    }
    if include_target(s) is Some {
        lemma_has_include_mono(ai, bi, lo_i, lo_i2, include_target(s)->0);
    }
    match s {
        PStmt::DefFunc(f) => {
            let inner = LocalScope {
                module_opt: local.module_opt,
                deffunc_opt: Some(DefFuncId { doc, gen, index: nf as usize }),
            };
            assert forall|k: int|
                0 <= k < f.params@.len() && (#[trigger] f.params@[k]).name_opt is Some implies has_decl(
                    b,
                    lo_s2,
                    param_decl(f.params@[k], f.hash),
                    inner,
                    None,
                ) by {
                lemma_has_decl_mono(a, b, lo_s, lo_s2, param_decl(f.params@[k], f.hash), inner, None);
            }
            lemma_deep_list_mono(f.stmts@, a, ai, b, bi, lo_s, lo_i, lo_s2, lo_i2, inner, doc, gen, nm, nf + 1);
        },
        PStmt::Module(m) => {
            let inner = LocalScope {
                module_opt: Some(ModuleId { doc, gen, index: nm as usize }),
                deffunc_opt: None,
            };
            assert forall|k: int|
                0 <= k < m.fields@.len() && (#[trigger] m.fields@[k]).name_opt is Some implies has_decl(
                    b,
                    lo_s2,
                    field_decl(m.fields@[k]),
                    inner,
                    None,
                ) by {
                lemma_has_decl_mono(a, b, lo_s, lo_s2, field_decl(m.fields@[k]), inner, None);
            }
            lemma_deep_list_mono(m.stmts@, a, ai, b, bi, lo_s, lo_i, lo_s2, lo_i2, inner, doc, gen, nm + 1, nf);
        },
        _ => {},
    }
}

proof fn lemma_deep_list_mono(
    ss: Seq<PStmt>,
    a: Seq<Symbol>,
    ai: Seq<(String, Loc)>,
    b: Seq<Symbol>,
    bi: Seq<(String, Loc)>,
    lo_s: int,
    lo_i: int,
    lo_s2: int,
    lo_i2: int,
    local: LocalScope,
    doc: DocId,
    gen: u64,
    nm: int,
    nf: int,
)
    requires
        0 <= lo_s2 <= lo_s,
        0 <= lo_i2 <= lo_i,
        extends(b, a),
        extends(bi, ai),
        stmts_recorded_deep(ss, a, ai, lo_s, lo_i, local, doc, gen, nm, nf),
    ensures
        stmts_recorded_deep(ss, b, bi, lo_s2, lo_i2, local, doc, gen, nm, nf),
    decreases ss,
{
    if ss.len() > 0 {
        let pre = ss.subrange(0, ss.len() - 1);
        lemma_deep_list_mono(pre, a, ai, b, bi, lo_s, lo_i, lo_s2, lo_i2, local, doc, gen, nm, nf);
        lemma_deep_mono(
            ss[ss.len() - 1],
            a,
            ai,
            b,
            bi,
            lo_s,
            lo_i,
            lo_s2,
            lo_i2,
            local,
            doc,
            gen,
            nm + stmts_counts(pre).1,
            nf + stmts_counts(pre).2,
        );
    }
}

/// A named parameter is a local symbol of its function, tagged with its type.
pub open spec fn param_decl(p: PParam, hash: PToken) -> (SymbolKind, DefScope, PToken, PToken) {
    let ty = match p.param_ty_opt {
        Some((t, _)) => Some(t),
        None => None,
    };
    (SymbolKind::Param(ty), DefScope::Param, hash, p.name_opt->0)
}

/// A named field is a local symbol of its module.
pub open spec fn field_decl(p: PParam) -> (SymbolKind, DefScope, PToken, PToken) {
    (SymbolKind::Field, DefScope::Local, p.name_opt->0, p.name_opt->0)
}

proof fn lemma_has_decl_grows(
    a: Seq<Symbol>,
    b: Seq<Symbol>,
    lo: int,
    d: (SymbolKind, DefScope, PToken, PToken),
    local: LocalScope,
    sig: Option<(Seq<char>, Seq<SigView>)>,
)
    requires
        0 <= lo,
        has_decl(a, lo, d, local, sig),
        extends(b, a),
    ensures
        has_decl(b, lo, d, local, sig),
{
    let j = choose|j: int| lo <= j < a.len() && #[trigger] decl_matches(a[j], d, local, sig);
    assert(b[j] == a[j]);
    assert(decl_matches(b[j], d, local, sig));
}


proof fn lemma_grown_trans(a: Ctx, b: Ctx, c: Ctx)
    requires
        Ctx::grown(a, b),
        Ctx::grown(b, c),
    ensures
        Ctx::grown(a, c),
{
}

/// Some symbol at index `lo` or later is the one that declaration `d` makes in
/// context `local`.
pub open spec fn has_decl(
    syms: Seq<Symbol>,
    lo: int,
    d: (SymbolKind, DefScope, PToken, PToken),
    local: LocalScope,
    sig: Option<(Seq<char>, Seq<SigView>)>,
) -> bool {
    exists|j: int| lo <= j < syms.len() && #[trigger] decl_matches(syms[j], d, local, sig)
}

/// Some include recorded at index `lo` or later is `t`.
pub open spec fn has_include(incs: Seq<(String, Loc)>, lo: int, t: (Seq<char>, Loc)) -> bool {
    exists|j: int| lo <= j < incs.len() && (#[trigger] incs[j]).0@ == t.0 && incs[j].1 == t.1
}

/// Each statement of the list has its own symbol and include recorded, resolved
/// in context `local`.
pub open spec fn stmts_recorded(
    stmts: Seq<PStmt>,
    syms: Seq<Symbol>,
    incs: Seq<(String, Loc)>,
    lo_sym: int,
    lo_inc: int,
    local: LocalScope,
) -> bool {
    &&& forall|k: int|
        0 <= k < stmts.len() && (#[trigger] stmt_decl(stmts[k])) is Some ==> has_decl(
            syms,
            lo_sym,
            stmt_decl(stmts[k])->0,
            local,
            stmt_signature(stmts[k]),
        )
    &&& forall|k: int|
        0 <= k < stmts.len() && (#[trigger] include_target(stmts[k])) is Some ==> has_include(
            incs,
            lo_inc,
            include_target(stmts[k])->0,
        )
}

/// Number of statements of the list that declare a symbol of their own.
pub open spec fn decl_count(stmts: Seq<PStmt>) -> int
    decreases stmts.len(),
{
    if stmts.len() == 0 {
        0
    } else {
        decl_count(stmts.drop_last()) + if stmt_decl(stmts.last()) is Some {
            1int
        } else {
            0int
        }
    }
}

/// No statement of the list opens a block.
pub open spec fn all_leaves(stmts: Seq<PStmt>) -> bool {
    forall|k: int| 0 <= k < stmts.len() ==> !((#[trigger] stmts[k]) is DefFunc || stmts[k] is Module)
}

proof fn lemma_recorded_grows(
    stmts: Seq<PStmt>,
    a: Ctx,
    b: Ctx,
    lo_sym: int,
    lo_inc: int,
    local: LocalScope,
)
    requires
        0 <= lo_sym,
        0 <= lo_inc,
        stmts_recorded(stmts, a.symbols@, a.includes@, lo_sym, lo_inc, local),
        extends(b.symbols@, a.symbols@),
        extends(b.includes@, a.includes@),
    ensures
        stmts_recorded(stmts, b.symbols@, b.includes@, lo_sym, lo_inc, local),
{
    assert forall|k: int|
        0 <= k < stmts.len() && (#[trigger] stmt_decl(stmts[k])) is Some implies has_decl(
            b.symbols@,
            lo_sym,
            stmt_decl(stmts[k])->0,
            local,
            stmt_signature(stmts[k]),
        ) by {
        let d = stmt_decl(stmts[k])->0;
        let sig = stmt_signature(stmts[k]);
        let j = choose|j: int|
            lo_sym <= j < a.symbols@.len() && #[trigger] decl_matches(a.symbols@[j], d, local, sig);
        assert(b.symbols@[j] == a.symbols@[j]);
        assert(decl_matches(b.symbols@[j], d, local, sig));
    }
    assert forall|k: int|
        0 <= k < stmts.len() && (#[trigger] include_target(stmts[k])) is Some implies has_include(
            b.includes@,
            lo_inc,
            include_target(stmts[k])->0,
        ) by {
        let t = include_target(stmts[k])->0;
        let j = choose|j: int| lo_inc <= j < a.includes@.len() && (#[trigger] a.includes@[j]).0@ == t.0 && a.includes@[j].1 == t.1;
        assert(b.includes@[j] == a.includes@[j]);
    }
}

proof fn lemma_recorded_weaken(
    stmts: Seq<PStmt>,
    syms: Seq<Symbol>,
    incs: Seq<(String, Loc)>,
    lo_sym: int,
    lo_inc: int,
    lo_sym2: int,
    lo_inc2: int,
    local: LocalScope,
)
    requires
        stmts_recorded(stmts, syms, incs, lo_sym, lo_inc, local),
        lo_sym2 <= lo_sym,
        lo_inc2 <= lo_inc,
    ensures
        stmts_recorded(stmts, syms, incs, lo_sym2, lo_inc2, local),
{
    assert forall|k: int|
        0 <= k < stmts.len() && (#[trigger] stmt_decl(stmts[k])) is Some implies has_decl(
            syms,
            lo_sym2,
            stmt_decl(stmts[k])->0,
            local,
            stmt_signature(stmts[k]),
        ) by {
        let d = stmt_decl(stmts[k])->0;
        let sig = stmt_signature(stmts[k]);
        let j = choose|j: int| lo_sym <= j < syms.len() && #[trigger] decl_matches(syms[j], d, local, sig);
        assert(decl_matches(syms[j], d, local, sig));
    }
    assert forall|k: int|
        0 <= k < stmts.len() && (#[trigger] include_target(stmts[k])) is Some implies has_include(
            incs,
            lo_inc2,
            include_target(stmts[k])->0,
        ) by {
        let t = include_target(stmts[k])->0;
        let j = choose|j: int| lo_inc <= j < incs.len() && (#[trigger] incs[j]).0@ == t.0 && incs[j].1 == t.1;
        assert(incs[j].0@ == t.0);
    }
}

fn on_stmts(stmts: &Vec<PStmt>, ctx: &mut Ctx)
    requires
        old(ctx).wf(),
    ensures
        Ctx::grown(*old(ctx), *final(ctx)),
        stmts_recorded(
            stmts@,
            final(ctx).symbols@,
            final(ctx).includes@,
            old(ctx).symbols@.len() as int,
            old(ctx).includes@.len() as int,
            old(ctx).scope,
        ),
        all_leaves(stmts@) ==> final(ctx).symbols@.len() == old(ctx).symbols@.len() + decl_count(
            stmts@,
        ),
        grew_by(*old(ctx), *final(ctx), stmts_counts(stmts@)),
        stmts_recorded_deep(
            stmts@,
            final(ctx).symbols@,
            final(ctx).includes@,
            old(ctx).symbols@.len() as int,
            old(ctx).includes@.len() as int,
            old(ctx).scope,
            old(ctx).doc,
            old(ctx).gen,
            old(ctx).modules@.len() as int,
            old(ctx).deffuncs@.len() as int,
        ),
    decreases stmts,
{
    let ghost start = *ctx;
    let mut i: usize = 0;
    assert(stmts_counts(stmts@.subrange(0, 0)) == (0int, 0int, 0int));
    while i < stmts.len()
        invariant
            i <= stmts@.len(),
            ctx.wf(),
            Ctx::grown(start, *ctx),
            stmts_recorded(
                stmts@.subrange(0, i as int),
                ctx.symbols@,
                ctx.includes@,
                start.symbols@.len() as int,
                start.includes@.len() as int,
                start.scope,
            ),
            all_leaves(stmts@) ==> ctx.symbols@.len() == start.symbols@.len() + decl_count(
                stmts@.subrange(0, i as int),
            ),
            grew_by(start, *ctx, stmts_counts(stmts@.subrange(0, i as int))),
            stmts_recorded_deep(
                stmts@.subrange(0, i as int),
                ctx.symbols@,
                ctx.includes@,
                start.symbols@.len() as int,
                start.includes@.len() as int,
                start.scope,
                start.doc,
                start.gen,
                start.modules@.len() as int,
                start.deffuncs@.len() as int,
            ),
        decreases stmts@.len() - i,
    {
        let ghost before = *ctx;
        assert(stmts@.subrange(0, i + 1).subrange(0, i as int) =~= stmts@.subrange(0, i as int));
        assert(stmts@.subrange(0, i + 1)[i as int] == stmts@[i as int]);
        assert(stmts@.subrange(0, i + 1).drop_last() =~= stmts@.subrange(0, i as int));
        proof {
            vstd::std_specs::vec::axiom_vec_index_decreases(*stmts, i as int);
        }
        on_stmt(&stmts[i], ctx);
        proof {
            lemma_grown_trans(start, before, *ctx);
            let lo_s = start.symbols@.len() as int;
            let lo_i = start.includes@.len() as int;
            lemma_recorded_grows(stmts@.subrange(0, i as int), before, *ctx, lo_s, lo_i, start.scope);
            lemma_deep_list_mono(
                stmts@.subrange(0, i as int),
                before.symbols@,
                before.includes@,
                ctx.symbols@,
                ctx.includes@,
                lo_s,
                lo_i,
                lo_s,
                lo_i,
                start.scope,
                start.doc,
                start.gen,
                start.modules@.len() as int,
                start.deffuncs@.len() as int,
            );
            lemma_deep_mono(
                stmts@[i as int],
                ctx.symbols@,
                ctx.includes@,
                ctx.symbols@,
                ctx.includes@,
                before.symbols@.len() as int,
                before.includes@.len() as int,
                lo_s,
                lo_i,
                start.scope,
                start.doc,
                start.gen,
                before.modules@.len() as int,
                before.deffuncs@.len() as int,
            );
            let st = stmts@[i as int];
            let pre = stmts@.subrange(0, i as int);
            let next = stmts@.subrange(0, i + 1);
            if stmt_decl(st) is Some {
                let j = before.symbols@.len() as int;
                assert(decl_matches(ctx.symbols@[j], stmt_decl(st)->0, start.scope, stmt_signature(st)));
            }
            if include_target(st) is Some {
                let j = ctx.includes@.len() - 1;
                let t = include_target(st)->0;
                assert(ctx.includes@[j].0@ == t.0 && ctx.includes@[j].1 == t.1);
            }
            assert forall|k: int|
                0 <= k < next.len() && (#[trigger] stmt_decl(next[k])) is Some implies has_decl(
                    ctx.symbols@,
                    lo_s,
                    stmt_decl(next[k])->0,
                    start.scope,
                    stmt_signature(next[k]),
                ) by {
                if k < i {
                    assert(next[k] == pre[k]);
                }
            }
            assert forall|k: int|
                0 <= k < next.len() && (#[trigger] include_target(next[k])) is Some implies has_include(
                    ctx.includes@,
                    lo_i,
                    include_target(next[k])->0,
                ) by {
                if k < i {
                    assert(next[k] == pre[k]);
                }
            }
        }
        i += 1;
    }
    assert(stmts@.subrange(0, stmts@.len() as int) =~= stmts@);
}

fn on_deffunc(stmt: &PDefFuncStmt, ctx: &mut Ctx)
    requires
        old(ctx).wf(),
    ensures
        stmt_effect(*old(ctx), *final(ctx), PStmt::DefFunc(*stmt)),
        stmt_recorded_deep(
            PStmt::DefFunc(*stmt),
            final(ctx).symbols@,
            final(ctx).includes@,
            old(ctx).symbols@.len() as int,
            old(ctx).includes@.len() as int,
            old(ctx).scope,
            old(ctx).doc,
            old(ctx).gen,
            old(ctx).modules@.len() as int,
            old(ctx).deffuncs@.len() as int,
        ),
    decreases stmt,
{
    let ghost c0 = *ctx;
    let ghost whole = PStmt::DefFunc(*stmt);
    let index = ctx.deffuncs.len();
    let deffunc = DefFuncId { doc: ctx.doc, gen: ctx.gen, index };
    ctx.deffuncs.push((deffunc, DefFuncData { content_loc: stmt.hash.body.loc.unite(&stmt.behind) }));
    let ghost c1 = *ctx;
    assert(Ctx::grown(c0, c1));
    let kind = match stmt.kind {
        PDefFuncKind::DefFunc => SymbolKind::DefFunc,
        PDefFuncKind::DefCFunc => SymbolKind::DefCFunc,
        PDefFuncKind::ModInit | PDefFuncKind::ModTerm | PDefFuncKind::ModFunc => SymbolKind::ModFunc,
        PDefFuncKind::ModCFunc => SymbolKind::ModCFunc,
    };
    if let Some(name) = &stmt.name_opt {
        if stmt.onexit_opt.is_none() {
            let scope = ctx.privacy_scope_or_global(&stmt.privacy_opt);
            let signature = new_signature_data_for_deffunc(stmt);
            ctx.add_symbol(kind, &stmt.hash, name, scope, signature);
        }
    }
    let ghost c2 = *ctx;
    assert(Ctx::grown(c0, c2));
    assert(stmt_decl(whole) is Some ==> decl_matches(
        c2.symbols@[c0.symbols@.len() as int],
        stmt_decl(whole)->0,
        c0.scope,
        stmt_signature(whole),
    ));
    let parent = ctx.scope;
    ctx.scope = LocalScope { module_opt: parent.module_opt, deffunc_opt: Some(deffunc) };
    let ghost c3 = *ctx;
    let ghost inner = ctx.scope;
    let mut i: usize = 0;
    while i < stmt.params.len()
        invariant
            i <= stmt.params@.len(),
            ctx.wf(),
            Ctx::grown(c3, *ctx),
            inner == c3.scope,
            c0.symbols@.len() <= c3.symbols@.len(),
            grew_by(c3, *ctx, (named_count(stmt.params@.subrange(0, i as int)), 0, 0)),
            forall|k: int|
                0 <= k < i && (#[trigger] stmt.params@[k]).name_opt is Some ==> has_decl(
                    ctx.symbols@,
                    c0.symbols@.len() as int,
                    param_decl(stmt.params@[k], stmt.hash),
                    inner,
                    None,
                ),
        decreases stmt.params@.len() - i,
    {
        let param = &stmt.params[i];
        assert(stmt.params@.subrange(0, i + 1).subrange(0, i as int) =~= stmt.params@.subrange(0, i as int));
        assert(stmt.params@.subrange(0, i + 1)[i as int] == stmt.params@[i as int]);
        if let Some(name) = &param.name_opt {
            let param_ty: Option<PParamTy> = match &param.param_ty_opt {
                Some((t, _)) => Some(*t),
                None => None,
            };
            let ghost before = *ctx;
            let r = ctx.add_symbol(SymbolKind::Param(param_ty), &stmt.hash, name, DefScope::Param, None);
            assert(Ctx::grown(before, *ctx));
            proof {
                assert(decl_matches(ctx.symbols@[r as int], param_decl(stmt.params@[i as int], stmt.hash), inner, None));
                assert forall|k: int|
                    0 <= k < i + 1 && (#[trigger] stmt.params@[k]).name_opt is Some implies has_decl(
                        ctx.symbols@,
                        c0.symbols@.len() as int,
                        param_decl(stmt.params@[k], stmt.hash),
                        inner,
                        None,
                    ) by {
                    if k < i {
                        lemma_has_decl_grows(before.symbols@, ctx.symbols@, c0.symbols@.len() as int, param_decl(stmt.params@[k], stmt.hash), inner, None);
                    } else {
                        assert(r as int >= c0.symbols@.len());
                        assert(decl_matches(ctx.symbols@[r as int], param_decl(stmt.params@[k], stmt.hash), inner, None));
                    }
                }
            }
        }
        i += 1;
    }
    assert(stmt.params@.subrange(0, stmt.params@.len() as int) =~= stmt.params@);
    let ghost c4 = *ctx;
    on_stmts(&stmt.stmts, ctx);
    proof {
        assert forall|k: int|
            0 <= k < stmt.params@.len() && (#[trigger] stmt.params@[k]).name_opt is Some implies has_decl(
                ctx.symbols@,
                c0.symbols@.len() as int,
                param_decl(stmt.params@[k], stmt.hash),
                inner,
                None,
            ) by {
            lemma_has_decl_grows(c4.symbols@, ctx.symbols@, c0.symbols@.len() as int, param_decl(stmt.params@[k], stmt.hash), inner, None);
        }
        lemma_recorded_weaken(stmt.stmts@, ctx.symbols@, ctx.includes@, c4.symbols@.len() as int, c4.includes@.len() as int, c0.symbols@.len() as int, c0.includes@.len() as int, inner);
        lemma_deep_list_mono(
            stmt.stmts@,
            ctx.symbols@,
            ctx.includes@,
            ctx.symbols@,
            ctx.includes@,
            c4.symbols@.len() as int,
            c4.includes@.len() as int,
            c0.symbols@.len() as int,
            c0.includes@.len() as int,
            inner,
            c4.doc,
            c4.gen,
            c4.modules@.len() as int,
            c4.deffuncs@.len() as int,
        );
    }
    ctx.scope = parent;
    assert(extends(ctx.symbols@, c2.symbols@));
    proof {
        if stmt_decl(whole) is Some {
            let n = c0.symbols@.len() as int;
            assert(ctx.symbols@[n] == c2.symbols@[n]);
            assert(decl_matches(ctx.symbols@[n], stmt_decl(whole)->0, c0.scope, stmt_signature(whole)));
        }
    }
}

fn on_module(stmt: &crate::syntax::PModuleStmt, ctx: &mut Ctx)
    requires
        old(ctx).wf(),
    ensures
        stmt_effect(*old(ctx), *final(ctx), PStmt::Module(*stmt)),
        stmt_recorded_deep(
            PStmt::Module(*stmt),
            final(ctx).symbols@,
            final(ctx).includes@,
            old(ctx).symbols@.len() as int,
            old(ctx).includes@.len() as int,
            old(ctx).scope,
            old(ctx).doc,
            old(ctx).gen,
            old(ctx).modules@.len() as int,
            old(ctx).deffuncs@.len() as int,
        ),
    decreases stmt,
{
    let ghost c0 = *ctx;
    let ghost whole = PStmt::Module(*stmt);
    let index = ctx.modules.len();
    let module = ModuleId { doc: ctx.doc, gen: ctx.gen, index };
    ctx.modules.push(
        (
            module,
            ModuleData {
                keyword_loc: stmt.keyword.body.loc,
                content_loc: stmt.hash.body.loc.unite(&stmt.behind),
            },
        ),
    );
    let parent = ctx.scope;
    ctx.scope = LocalScope { module_opt: Some(module), deffunc_opt: None };
    if let Some(name) = &stmt.name_opt {
        ctx.add_symbol(SymbolKind::Module, &stmt.hash, name, DefScope::Global, None);
    }
    let ghost c2 = *ctx;
    assert(stmt_decl(whole) is Some ==> decl_matches(
        c2.symbols@[c0.symbols@.len() as int],
        stmt_decl(whole)->0,
        c0.scope,
        stmt_signature(whole),
    ));
    let ghost inner = ctx.scope;
    let mut i: usize = 0;
    while i < stmt.fields.len()
        invariant
            i <= stmt.fields@.len(),
            ctx.wf(),
            Ctx::grown(c2, *ctx),
            inner == c2.scope,
            c0.symbols@.len() <= c2.symbols@.len(),
            grew_by(c2, *ctx, (named_count(stmt.fields@.subrange(0, i as int)), 0, 0)),
            forall|k: int|
                0 <= k < i && (#[trigger] stmt.fields@[k]).name_opt is Some ==> has_decl(
                    ctx.symbols@,
                    c0.symbols@.len() as int,
                    field_decl(stmt.fields@[k]),
                    inner,
                    None,
                ),
        decreases stmt.fields@.len() - i,
    {
        let field = &stmt.fields[i];
        assert(stmt.fields@.subrange(0, i + 1).subrange(0, i as int) =~= stmt.fields@.subrange(0, i as int));
        assert(stmt.fields@.subrange(0, i + 1)[i as int] == stmt.fields@[i as int]);
        if let Some(name) = &field.name_opt {
            let ghost before = *ctx;
            let r = ctx.add_symbol(SymbolKind::Field, name, name, DefScope::Local, None);
            assert(Ctx::grown(before, *ctx));
            proof {
                assert(decl_matches(ctx.symbols@[r as int], field_decl(stmt.fields@[i as int]), inner, None));
                assert forall|k: int|
                    0 <= k < i + 1 && (#[trigger] stmt.fields@[k]).name_opt is Some implies has_decl(
                        ctx.symbols@,
                        c0.symbols@.len() as int,
                        field_decl(stmt.fields@[k]),
                        inner,
                        None,
                    ) by {
                    if k < i {
                        lemma_has_decl_grows(before.symbols@, ctx.symbols@, c0.symbols@.len() as int, field_decl(stmt.fields@[k]), inner, None);
                    } else {
                        assert(r as int >= c0.symbols@.len());
                        assert(decl_matches(ctx.symbols@[r as int], field_decl(stmt.fields@[k]), inner, None));
                    }
                }
            }
        }
        i += 1;
    }
    assert(stmt.fields@.subrange(0, stmt.fields@.len() as int) =~= stmt.fields@);
    let ghost c4 = *ctx;
    on_stmts(&stmt.stmts, ctx);
    proof {
        assert forall|k: int|
            0 <= k < stmt.fields@.len() && (#[trigger] stmt.fields@[k]).name_opt is Some implies has_decl(
                ctx.symbols@,
                c0.symbols@.len() as int,
                field_decl(stmt.fields@[k]),
                inner,
                None,
            ) by {
            lemma_has_decl_grows(c4.symbols@, ctx.symbols@, c0.symbols@.len() as int, field_decl(stmt.fields@[k]), inner, None);
        }
        lemma_recorded_weaken(stmt.stmts@, ctx.symbols@, ctx.includes@, c4.symbols@.len() as int, c4.includes@.len() as int, c0.symbols@.len() as int, c0.includes@.len() as int, inner);
        lemma_deep_list_mono(
            stmt.stmts@,
            ctx.symbols@,
            ctx.includes@,
            ctx.symbols@,
            ctx.includes@,
            c4.symbols@.len() as int,
            c4.includes@.len() as int,
            c0.symbols@.len() as int,
            c0.includes@.len() as int,
            inner,
            c4.doc,
            c4.gen,
            c4.modules@.len() as int,
            c4.deffuncs@.len() as int,
        );
    }
    ctx.scope = parent;
    assert(extends(ctx.symbols@, c2.symbols@));
    proof {
        if stmt_decl(whole) is Some {
            let n = c0.symbols@.len() as int;
            assert(ctx.symbols@[n] == c2.symbols@[n]);
            assert(decl_matches(ctx.symbols@[n], stmt_decl(whole)->0, c0.scope, stmt_signature(whole)));
        }
    }
}

fn on_named(
    stmt: &crate::syntax::PNamedStmt,
    kind: SymbolKind,
    default_global: bool,
    ctx: &mut Ctx,
)
    requires
        old(ctx).wf(),
        !(kind is Param || kind is Field || kind is Label || kind is Module),
    ensures
        Ctx::grown(*old(ctx), *final(ctx)),
        final(ctx).modules == old(ctx).modules,
        final(ctx).deffuncs == old(ctx).deffuncs,
        final(ctx).includes == old(ctx).includes,
        stmt.name_opt is None ==> final(ctx).symbols == old(ctx).symbols,
        stmt.name_opt is Some ==> {
            &&& final(ctx).symbols@.len() == old(ctx).symbols@.len() + 1
            &&& symbol_matches(
                final(ctx).symbols@[old(ctx).symbols@.len() as int],
                kind,
                stmt.hash,
                stmt.name_opt->0,
                if default_global {
                    spec_privacy_or_global(privacy_of(stmt.privacy_opt))
                } else {
                    spec_privacy_or_local(privacy_of(stmt.privacy_opt))
                },
                old(ctx).scope,
                None,
            )
        },
{
    if let Some(name) = &stmt.name_opt {
        let scope = if default_global {
            ctx.privacy_scope_or_global(&stmt.privacy_opt)
        } else {
            ctx.privacy_scope_or_local(&stmt.privacy_opt)
        };
        ctx.add_symbol(kind, &stmt.hash, name, scope, None);
    }
}

/// Records the symbols, includes, modules and functions of one statement and of
/// the statements nested in it.
pub fn on_stmt(stmt: &PStmt, ctx: &mut Ctx)
    requires
        old(ctx).wf(),
    ensures
        stmt_effect(*old(ctx), *final(ctx), *stmt),
        stmt_recorded_deep(
            *stmt,
            final(ctx).symbols@,
            final(ctx).includes@,
            old(ctx).symbols@.len() as int,
            old(ctx).includes@.len() as int,
            old(ctx).scope,
            old(ctx).doc,
            old(ctx).gen,
            old(ctx).modules@.len() as int,
            old(ctx).deffuncs@.len() as int,
        ),
    decreases stmt,
{
    match stmt {
        PStmt::Label(l) => {
            if let Some(name) = &l.name_opt {
                ctx.add_symbol(SymbolKind::Label, &l.star, name, DefScope::Local, None);
            }
        },
        PStmt::Assign(_) | PStmt::Command(_) | PStmt::Invoke(_) => {},
        PStmt::Const(c) => on_named(c, SymbolKind::Const, false, ctx),
        PStmt::Define(d) => {
            if let Some(name) = &d.name_opt {
                let scope = ctx.privacy_scope_or_local(&d.privacy_opt);
                let ctype = d.ctype_opt.is_some();
                ctx.add_symbol(SymbolKind::Macro { ctype }, &d.hash, name, scope, None);
            }
        },
        PStmt::Enum(c) => on_named(c, SymbolKind::Enum, false, ctx),
        PStmt::DefFunc(f) => on_deffunc(f, ctx),
        PStmt::UseLib(_) => {},
        PStmt::LibFunc(f) => {
            if let Some(name) = &f.name_opt {
                if f.onexit_opt.is_none() {
                    let scope = ctx.privacy_scope_or_local(&f.privacy_opt);
                    let signature = new_signature_data_for_lib_func(f);
                    ctx.add_symbol(SymbolKind::LibFunc, &f.hash, name, scope, signature);
                }
            }
        },
        PStmt::UseCom(c) => on_named(c, SymbolKind::ComInterface, false, ctx),
        PStmt::ComFunc(c) => on_named(c, SymbolKind::ComFunc, true, ctx),
        PStmt::RegCmd(_) => {},
        PStmt::Cmd(c) => on_named(c, SymbolKind::PluginCmd, false, ctx),
        PStmt::Module(m) => on_module(m, ctx),
        PStmt::Global(_) => {},
        PStmt::Include(i) => {
            if let Some(file_path) = &i.file_path_opt {
                if file_path.body.kind == TokenKind::Str {
                    let text = normalize_include_path(file_path.body.text.as_str());
                    let loc = i.hash.body.loc.unite(&file_path.behind());
                    ctx.includes.push((text, loc));
                }
            }
        },
        PStmt::UnknownPreProc(_) => {},
    }
    proof {
        let lo_s = old(ctx).symbols@.len() as int;
        if stmt_decl(*stmt) is Some && !(*stmt is DefFunc || *stmt is Module) {
            assert(decl_matches(ctx.symbols@[lo_s], stmt_decl(*stmt)->0, old(ctx).scope, stmt_signature(*stmt)));
        }
        if include_target(*stmt) is Some {
            let j = ctx.includes@.len() - 1;
            let t = include_target(*stmt)->0;
            assert(ctx.includes@[j].0@ == t.0 && ctx.includes@[j].1 == t.1);
        }
    }
}


/// What the analysis of one document produces.
pub struct PreprocAnalysisResult {
    pub symbols: Vec<Symbol>,
    pub includes: Vec<(String, Loc)>,
    pub modules: Vec<(ModuleId, ModuleData)>,
    pub deffuncs: Vec<(DefFuncId, DefFuncData)>,
}

impl PreprocAnalysisResult {
    /// Every id was allocated by the analysis of `doc` in generation `gen`, in
    /// order, and every symbol is well formed and refers to those ids only.
    pub open spec fn ok(&self, doc: DocId, gen: u64) -> bool {
        &&& forall|i: int|
            0 <= i < self.modules@.len() ==> (#[trigger] self.modules@[i]).0 == (ModuleId {
                doc,
                gen,
                index: i as usize,
            })
        &&& forall|i: int|
            0 <= i < self.deffuncs@.len() ==> (#[trigger] self.deffuncs@[i]).0 == (DefFuncId {
                doc,
                gen,
                index: i as usize,
            })
        &&& forall|i: int|
            0 <= i < self.symbols@.len() ==> symbol_ok(
                doc,
                gen,
                self.modules@.len() as int,
                self.deffuncs@.len() as int,
                #[trigger] self.symbols@[i],
            )
    }
}

/// Analyses the statements of one document. `gen` tells this analysis apart
/// from earlier ones of the same document: every module and function id it
/// allocates carries it.
pub fn analyze_preproc(doc: DocId, gen: u64, root: &PRoot) -> (r: PreprocAnalysisResult)
    ensures
        r.ok(doc, gen),
        all_leaves(root.stmts@) ==> r.symbols@.len() == decl_count(root.stmts@),
        r.symbols@.len() == stmts_counts(root.stmts@).0,
        r.modules@.len() == stmts_counts(root.stmts@).1,
        r.deffuncs@.len() == stmts_counts(root.stmts@).2,
        stmts_recorded_deep(
            root.stmts@,
            r.symbols@,
            r.includes@,
            0,
            0,
            LocalScope { module_opt: None, deffunc_opt: None },
            doc,
            gen,
            0,
            0,
        ),
        forall|i: int|
            0 <= i < r.symbols@.len() ==> ((#[trigger] r.symbols@[i]).kind is Param
                || r.symbols@[i].kind is Field || r.symbols@[i].kind is Label)
                ==> r.symbols@[i].scope is Local,
        forall|i: int|
            0 <= i < r.symbols@.len() ==> (#[trigger] r.symbols@[i]).kind is Module
                ==> r.symbols@[i].scope is Global,
        stmts_recorded(
            root.stmts@,
            r.symbols@,
            r.includes@,
            0,
            0,
            LocalScope { module_opt: None, deffunc_opt: None },
        ),
{
    let mut ctx = Ctx {
        doc,
        gen,
        symbols: Vec::new(),
        includes: Vec::new(),
        scope: LocalScope { module_opt: None, deffunc_opt: None },
        modules: Vec::new(),
        deffuncs: Vec::new(),
    };
    on_stmts(&root.stmts, &mut ctx);
    let Ctx { symbols, includes, modules, deffuncs, .. } = ctx;
    PreprocAnalysisResult { symbols, includes, modules, deffuncs }
}

/// Two analyses in different generations share no module or function id, and
/// no symbol of the later one refers to an id of the earlier one.
pub proof fn lemma_generations_disjoint(
    a: PreprocAnalysisResult,
    b: PreprocAnalysisResult,
    doc: DocId,
    ga: u64,
    gb: u64,
)
    requires
        a.ok(doc, ga),
        b.ok(doc, gb),
        ga != gb,
    ensures
        forall|i: int, j: int|
            0 <= i < a.modules@.len() && 0 <= j < b.modules@.len() ==> (#[trigger] a.modules@[i]).0
                != (#[trigger] b.modules@[j]).0,
        forall|i: int, j: int|
            0 <= i < a.deffuncs@.len() && 0 <= j < b.deffuncs@.len() ==> (
            #[trigger] a.deffuncs@[i]).0 != (#[trigger] b.deffuncs@[j]).0,
        forall|i: int, j: int|
            0 <= i < a.modules@.len() && 0 <= j < b.symbols@.len() && (
            #[trigger] b.symbols@[j]).scope is Local ==> b.symbols@[j].scope->Local_0.module_opt
                != Some((#[trigger] a.modules@[i]).0),
        forall|i: int, j: int|
            0 <= i < a.deffuncs@.len() && 0 <= j < b.symbols@.len() && (
            #[trigger] b.symbols@[j]).scope is Local ==> b.symbols@[j].scope->Local_0.deffunc_opt
                != Some((#[trigger] a.deffuncs@[i]).0),
{
}

/// The modifier written on a declaration, for the statements that take one.
pub open spec fn stmt_privacy(stmt: PStmt) -> Option<Privacy> {
    match stmt {
        PStmt::Const(c) => privacy_of(c.privacy_opt),
        PStmt::Define(d) => privacy_of(d.privacy_opt),
        PStmt::Enum(c) => privacy_of(c.privacy_opt),
        PStmt::DefFunc(f) => privacy_of(f.privacy_opt),
        PStmt::LibFunc(f) => privacy_of(f.privacy_opt),
        PStmt::UseCom(c) => privacy_of(c.privacy_opt),
        PStmt::ComFunc(c) => privacy_of(c.privacy_opt),
        PStmt::Cmd(c) => privacy_of(c.privacy_opt),
        _ => None,
    }
}

pub open spec fn default_local_stmt(stmt: PStmt) -> bool {
    stmt is Const || stmt is Define || stmt is Enum || stmt is LibFunc || stmt is UseCom
        || stmt is Cmd
}

pub open spec fn default_global_stmt(stmt: PStmt) -> bool {
    stmt is DefFunc || stmt is ComFunc
}

/// The scope in which a statement's own symbol is resolved in context `local`.
pub open spec fn decl_scope(stmt: PStmt, local: LocalScope) -> Scope {
    let (_, def, _, _) = stmt_decl(stmt)->0;
    spec_resolve_scope(def, local)
}

/// Without a modifier, constants, macros, enums, library functions, COM
/// interfaces and plugin commands are local, functions and COM functions global.
pub proof fn lemma_unmodified_declaration_scope(stmt: PStmt, local: LocalScope)
    requires
        stmt_privacy(stmt) is None,
        stmt_decl(stmt) is Some,
    ensures
        default_local_stmt(stmt) ==> decl_scope(stmt, local) == Scope::Local(local),
        default_global_stmt(stmt) ==> decl_scope(stmt, local) == Scope::Global,
{
}

/// A modifier against the default flips the scope: a `global` constant is
/// global, a `local` function is local.
pub proof fn lemma_modifier_flips_scope(stmt: PStmt, local: LocalScope)
    requires
        stmt_decl(stmt) is Some,
    ensures
        default_local_stmt(stmt) && stmt_privacy(stmt) == Some(Privacy::Global) ==> decl_scope(
            stmt,
            local,
        ) == Scope::Global,
        default_global_stmt(stmt) && stmt_privacy(stmt) == Some(Privacy::Local) ==> decl_scope(
            stmt,
            local,
        ) == Scope::Local(local),
{
}

} // verus!
