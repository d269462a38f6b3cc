use vstd::prelude::*;

use crate::comment::{calculate_details, details_desc, details_docs, lines_view};
use crate::scope::Scope;
use crate::source::{string_from_chars, DocId, Loc, Pos};
use crate::symbol::{Symbol, SymbolKind};
use crate::workspace::{
    any_symbol_at, candidates_upto, context_at, defs_in_docs, doc_index, WorkspaceAnalysis,
};

verus! {

/// How an editor shows a completion candidate.
#[derive(Clone, Copy, Debug, PartialEq, Eq, Structural)]
pub enum CompletionKind {
    Function,
    Constant,
    EnumMember,
    Field,
    Interface,
    Module,
    Value,
    Variable,
}

pub struct CompletionItem {
    pub kind: CompletionKind,
    pub label: String,
    pub detail: Option<String>,
    pub documentation: Option<String>,
    pub sort_text: String,
}

pub struct CompletionList {
    pub is_incomplete: bool,
    pub items: Vec<CompletionItem>,
}

pub open spec fn spec_completion_kind(kind: SymbolKind) -> CompletionKind {
    match kind {
        SymbolKind::Label => CompletionKind::Value,
        SymbolKind::Const => CompletionKind::Constant,
        SymbolKind::Macro { ctype } => if ctype {
            CompletionKind::Function
        } else {
            CompletionKind::Constant
        },
        SymbolKind::Enum => CompletionKind::EnumMember,
        SymbolKind::DefFunc | SymbolKind::DefCFunc | SymbolKind::ModFunc | SymbolKind::ModCFunc
        | SymbolKind::LibFunc | SymbolKind::ComFunc | SymbolKind::PluginCmd => CompletionKind::Function,
        SymbolKind::Param(_) => CompletionKind::Variable,
        SymbolKind::ComInterface => CompletionKind::Interface,
        SymbolKind::Module => CompletionKind::Module,
        SymbolKind::Field => CompletionKind::Field,
    }
}

pub fn completion_kind(kind: SymbolKind) -> (r: CompletionKind)
    ensures
        r == spec_completion_kind(kind),
{
    match kind {
        SymbolKind::Label => CompletionKind::Value,
        SymbolKind::Const => CompletionKind::Constant,
        SymbolKind::Macro { ctype } => if ctype {
            CompletionKind::Function
        } else {
            CompletionKind::Constant
        },
        SymbolKind::Enum => CompletionKind::EnumMember,
        SymbolKind::DefFunc | SymbolKind::DefCFunc | SymbolKind::ModFunc | SymbolKind::ModCFunc
        | SymbolKind::LibFunc | SymbolKind::ComFunc | SymbolKind::PluginCmd => CompletionKind::Function,
        SymbolKind::Param(_) => CompletionKind::Variable,
        SymbolKind::ComInterface => CompletionKind::Interface,
        SymbolKind::Module => CompletionKind::Module,
        SymbolKind::Field => CompletionKind::Field,
    }
}

/// Narrow scopes first: local to module and function `a`, to the module only
/// `b`, to neither `c`, to the function only `d`; global symbols `e`, and module
/// names `f` last.
pub open spec fn spec_sort_prefix(scope: Scope, kind: SymbolKind) -> char {
    match scope {
        Scope::Local(l) => if l.module_opt is Some && l.deffunc_opt is Some {
            'a'
        } else if l.module_opt is Some {
            'b'
        } else if l.deffunc_opt is None {
            'c'
        } else {
            'd'
        },
        Scope::Global => if kind is Module {
            'f'
        } else {
            'e'
        },
    }
}

pub fn sort_prefix(scope: Scope, kind: SymbolKind) -> (r: char)
    ensures
        r == spec_sort_prefix(scope, kind),
{
    match scope {
        Scope::Local(l) => match (l.module_opt, l.deffunc_opt) {
            (Some(_), Some(_)) => 'a',
            (Some(_), None) => 'b',
            (None, None) => 'c',
            (None, Some(_)) => 'd',
        },
        Scope::Global => match kind {
            SymbolKind::Module => 'f',
            _ => 'e',
        },
    }
}

pub open spec fn spec_sort_text(s: Symbol) -> Seq<char> {
    seq![spec_sort_prefix(s.scope, s.kind)] + s.name@
}

/// Lexicographic order of character sequences, as strings compare.
pub open spec fn lex_lt(a: Seq<char>, b: Seq<char>) -> bool {
    (exists|k: int|
        0 <= k < a.len() && k < b.len() && a.subrange(0, k) == b.subrange(0, k) && (#[trigger] a[k])
            < b[k]) || (a.len() < b.len() && a == b.subrange(0, a.len() as int))
}

/// How tightly a symbol is scoped, from local to both module and function (0)
/// to module names (5).
pub open spec fn visibility_class(s: Symbol) -> int {
    match s.scope {
        Scope::Local(l) => if l.module_opt is Some && l.deffunc_opt is Some {
            0
        } else if l.module_opt is Some {
            1
        } else if l.deffunc_opt is None {
            2
        } else {
            3
        },
        Scope::Global => if s.kind is Module {
            5
        } else {
            4
        },
    }
}

/// Sort keys list tighter scopes first, whatever the names: local to module and
/// function, then module-local, file-local, function-only local, global, and
/// module names last.
pub proof fn lemma_sort_text_order(s1: Symbol, s2: Symbol)
    requires
        visibility_class(s1) < visibility_class(s2),
    ensures
        lex_lt(spec_sort_text(s1), spec_sort_text(s2)),
{
    let a = spec_sort_text(s1);
    let b = spec_sort_text(s2);
    assert(a[0] == spec_sort_prefix(s1.scope, s1.kind));
    assert(b[0] == spec_sort_prefix(s2.scope, s2.kind));
    assert(a.subrange(0, 0) =~= b.subrange(0, 0));
    assert(a[0] < b[0]);
}

pub open spec fn paragraph_break() -> Seq<char> {
    seq!['\r', '\n', '\r', '\n']
}

/// The lines joined with an empty line between each two.
pub open spec fn spec_join_paragraphs(lines: Seq<Seq<char>>) -> Seq<char>
    decreases lines.len(),
{
    if lines.len() == 0 {
        Seq::empty()
    } else if lines.len() == 1 {
        lines[0]
    } else {
        spec_join_paragraphs(lines.drop_last()) + paragraph_break() + lines.last()
    }
}

pub fn join_paragraphs(lines: &Vec<String>) -> (r: String)
    ensures
        r@ == spec_join_paragraphs(lines_view(lines@)),
{
    let mut out = String::new();
    let sep_chars: Vec<char> = vec!['\r', '\n', '\r', '\n'];
    let sep = string_from_chars(&sep_chars);
    assert(sep@ == paragraph_break());
    let mut i: usize = 0;
    while i < lines.len()
        invariant
            i <= lines@.len(),
            sep@ == paragraph_break(),
            out@ == spec_join_paragraphs(lines_view(lines@.subrange(0, i as int))),
        decreases lines@.len() - i,
    {
        let ghost prev = lines_view(lines@.subrange(0, i as int));
        assert(lines_view(lines@.subrange(0, i + 1)).drop_last() =~= prev);
        assert(lines_view(lines@.subrange(0, i + 1)).last() == lines@[i as int]@);
        if i > 0 {
            out.append(sep.as_str());
        } else {
            assert(lines_view(lines@.subrange(0, 1))[0] == lines@[0]@);
            assert(out@ =~= Seq::<char>::empty());
        }
        out.append(lines[i].as_str());
        i += 1;
    }
    assert(lines@.subrange(0, lines@.len() as int) =~= lines@);
    out
}

pub open spec fn item_matches(item: CompletionItem, s: Symbol) -> bool {
    let c = lines_view(s.comments@);
    &&& item.kind == spec_completion_kind(s.kind)
    &&& item.label@ == s.name@
    &&& (item.detail is Some <==> details_desc(c) is Some)
    &&& item.detail is Some ==> item.detail->0@ == details_desc(c)->0
    &&& (item.documentation is Some <==> details_docs(c).len() > 0)
    &&& item.documentation is Some ==> item.documentation->0@ == spec_join_paragraphs(
        details_docs(c),
    )
    &&& item.sort_text@ == spec_sort_text(s)
}

/// The completion entry of one symbol: its name, the summary and body of its
/// comments, and a sort key that lists narrow scopes first.
pub fn completion_item(symbol: &Symbol) -> (r: CompletionItem)
    ensures
        item_matches(r, *symbol),
{
    let details = calculate_details(&symbol.comments);
    let documentation = if details.docs.len() == 0 {
        None
    } else {
        Some(join_paragraphs(&details.docs))
    };
    let prefix = vec![sort_prefix(symbol.scope, symbol.kind)];
    let sort_text = string_from_chars(&prefix).concat(symbol.name.as_str());
    assert(sort_text@ =~= spec_sort_text(*symbol));
    CompletionItem {
        kind: completion_kind(symbol.kind),
        label: symbol.name.clone(),
        detail: details.desc,
        documentation,
        sort_text,
    }
}

/// A list that tells the editor to ask again.
pub fn incomplete_completion_list() -> (r: CompletionList)
    ensures
        r.is_incomplete,
        r.items@.len() == 0,
{
    CompletionList { is_incomplete: true, items: Vec::new() }
}

/// One entry for each candidate visible at the position, in candidate order.
pub fn completion(wa: &WorkspaceAnalysis, doc: DocId, pos: Pos) -> (r: CompletionList)
    requires
        wa.wf(),
    ensures
        !r.is_incomplete,
        ({
            let c = candidates_upto(wa.docs@, wa.docs@.len() as int, doc, context_at(wa.docs@, doc, pos));
            &&& r.items@.len() == c.len()
            &&& forall|k: int|
                0 <= k < c.len() ==> {
                    let (i, j) = c[k];
                    &&& 0 <= i < wa.docs@.len()
                    &&& 0 <= j < wa.docs@[i].result.symbols@.len()
                    &&& item_matches(#[trigger] r.items@[k], wa.docs@[i].result.symbols@[j])
                }
        }),
{
    let candidates = wa.collect_completion_candidates(doc, pos);
    proof {
        crate::workspace::lemma_candidates_in_range(wa.docs@, wa.docs@.len() as int, doc, context_at(wa.docs@, doc, pos));
    }
    let mut items: Vec<CompletionItem> = Vec::new();
    let mut k: usize = 0;
    while k < candidates.len()
        invariant
            k <= candidates@.len(),
            items@.len() == k,
            crate::workspace::pairs_view(candidates@) == candidates_upto(wa.docs@, wa.docs@.len() as int, doc, context_at(wa.docs@, doc, pos)),
            forall|q: int|
                0 <= q < candidates@.len() ==> {
                    let (i, j) = #[trigger] crate::workspace::pairs_view(candidates@)[q];
                    0 <= i < wa.docs@.len() && 0 <= j < wa.docs@[i].result.symbols@.len()
                },
            forall|q: int|
                0 <= q < k ==> {
                    let (i, j) = crate::workspace::pairs_view(candidates@)[q];
                    item_matches(#[trigger] items@[q], wa.docs@[i].result.symbols@[j])
                },
        decreases candidates@.len() - k,
    {
        let (i, j) = candidates[k];
        assert(i < wa.docs@.len() && j < wa.docs@[i as int].result.symbols@.len()) by {
            assert(crate::workspace::pairs_view(candidates@)[k as int] == (i as int, j as int));
        }
        let item = completion_item(&wa.docs[i].result.symbols[j]);
        items.push(item);
        k += 1;
    }
    CompletionList { is_incomplete: false, items }
}

/// `defs` are the definition sites of symbol `j` of the document's latest
/// analysis, the innermost one at the position.
pub open spec fn located_defs(docs: Seq<crate::workspace::DocAnalysis>, doc: DocId, pos: Pos, j: int, defs: Seq<Loc>) -> bool {
    let i = doc_index(docs, doc)->0;
    let t = docs[i].result.symbols@[j];
    &&& 0 <= j < docs[i].result.symbols@.len()
    &&& crate::workspace::symbol_at(t, doc, pos)
    &&& crate::workspace::innermost_at(docs[i].result.symbols@, j, doc, pos)
    &&& defs == if t.scope is Global {
        defs_in_docs(docs, t)
    } else {
        t.def_sites@
    }
}

/// The definition sites of the symbol under the cursor; none where no symbol is
/// there.
pub fn definitions(wa: &WorkspaceAnalysis, doc: DocId, pos: Pos) -> (r: Vec<Loc>)
    requires
        wa.wf(),
    ensures
        !any_symbol_at(wa.docs@, doc, pos) ==> r@.len() == 0,
        any_symbol_at(wa.docs@, doc, pos) ==> exists|j: int| #[trigger]
            located_defs(wa.docs@, doc, pos, j, r@),
{
    match wa.locate_symbol(doc, pos) {
        Some((i, j)) => {
            let r = wa.collect_symbol_defs(i, j);
            assert(located_defs(wa.docs@, doc, pos, j as int, r@));
            r
        },
        None => Vec::new(),
    }
}

} // verus!
