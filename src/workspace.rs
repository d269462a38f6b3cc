use vstd::prelude::*;

use crate::preproc::{analyze_preproc, lemma_generations_disjoint, PreprocAnalysisResult};
use crate::scope::{DefFuncId, LocalScope, ModuleId, Scope};
use crate::source::{pos_is_le, pos_le, spec_loc_contains, DocId, Loc, Pos};
use crate::symbol::{DefFuncData, ModuleData, Symbol};
use crate::syntax::PRoot;

verus! {

/// The latest analysis of one document.
pub struct DocAnalysis {
    pub doc: DocId,
    pub gen: u64,
    pub result: PreprocAnalysisResult,
}

/// Per-document analyses of the whole corpus.
pub struct WorkspaceAnalysis {
    pub docs: Vec<DocAnalysis>,
    pub next_gen: u64,
}

pub open spec fn symbol_at(s: Symbol, doc: DocId, pos: Pos) -> bool {
    (exists|k: int| 0 <= k < s.def_sites@.len() && spec_loc_contains(#[trigger] s.def_sites@[k], doc, pos))
        || (exists|k: int|
        0 <= k < s.use_sites@.len() && spec_loc_contains(#[trigger] s.use_sites@[k], doc, pos))
}

/// Global symbols of one name and namespace are one logical symbol across the
/// corpus.
pub open spec fn same_global(s: Symbol, t: Symbol) -> bool {
    s.scope is Global && t.scope is Global && s.name@ == t.name@ && s.ns_opt == t.ns_opt
}

pub open spec fn defs_in_symbols(syms: Seq<Symbol>, t: Symbol) -> Seq<Loc>
    decreases syms.len(),
{
    if syms.len() == 0 {
        Seq::empty()
    } else {
        let rest = defs_in_symbols(syms.drop_last(), t);
        if same_global(syms.last(), t) {
            rest + syms.last().def_sites@
        } else {
            rest
        }
    }
}

pub open spec fn defs_in_docs(docs: Seq<DocAnalysis>, t: Symbol) -> Seq<Loc>
    decreases docs.len(),
{
    if docs.len() == 0 {
        Seq::empty()
    } else {
        defs_in_docs(docs.drop_last(), t) + defs_in_symbols(docs.last().result.symbols@, t)
    }
}

/// The innermost module around a position: the last one allocated whose span
/// holds it (a block nested in another is allocated after it).
pub open spec fn module_at(mods: Seq<(ModuleId, ModuleData)>, doc: DocId, pos: Pos) -> Option<ModuleId>
    decreases mods.len(),
{
    if mods.len() == 0 {
        None
    } else if spec_loc_contains(mods.last().1.content_loc, doc, pos) {
        Some(mods.last().0)
    } else {
        module_at(mods.drop_last(), doc, pos)
    }
}

pub open spec fn deffunc_at(fs: Seq<(DefFuncId, DefFuncData)>, doc: DocId, pos: Pos) -> Option<
    DefFuncId,
>
    decreases fs.len(),
{
    if fs.len() == 0 {
        None
    } else if spec_loc_contains(fs.last().1.content_loc, doc, pos) {
        Some(fs.last().0)
    } else {
        deffunc_at(fs.drop_last(), doc, pos)
    }
}

/// Whether a symbol can be named at a place whose innermost module and function
/// are `ctx`: global symbols everywhere; local ones in their own module, and,
/// when they belong to a function, only inside it.
pub open spec fn visible(s: Symbol, ctx: LocalScope) -> bool {
    match s.scope {
        Scope::Global => true,
        Scope::Local(l) => l.module_opt == ctx.module_opt && (l.deffunc_opt is None
            || l.deffunc_opt == ctx.deffunc_opt),
    }
}

/// Candidates among the first `m` symbols of document entry `i`.
pub open spec fn candidates_in(d: DocAnalysis, i: int, m: int, doc: DocId, ctx: LocalScope) -> Seq<(int, int)>
    decreases m,
{
    if m <= 0 {
        Seq::empty()
    } else {
        let rest = candidates_in(d, i, m - 1, doc, ctx);
        let s = d.result.symbols@[m - 1];
        if (d.doc == doc && visible(s, ctx)) || (d.doc != doc && s.scope is Global) {
            rest.push((i, m - 1))
        } else {
            rest
        }
    }
}

/// Candidates among the first `n` document entries: in the document of the
/// position the visible symbols, elsewhere the global ones.
pub open spec fn candidates_upto(docs: Seq<DocAnalysis>, n: int, doc: DocId, ctx: LocalScope) -> Seq<
    (int, int),
>
    decreases n,
{
    if n <= 0 {
        Seq::empty()
    } else {
        candidates_upto(docs, n - 1, doc, ctx) + candidates_in(
            docs[n - 1],
            n - 1,
            docs[n - 1].result.symbols@.len() as int,
            doc,
            ctx,
        )
    }
}

pub open spec fn doc_index(docs: Seq<DocAnalysis>, doc: DocId) -> Option<int> {
    if exists|i: int| 0 <= i < docs.len() && (#[trigger] docs[i]).doc == doc {
        Some(choose|i: int| 0 <= i < docs.len() && (#[trigger] docs[i]).doc == doc)
    } else {
        None
    }
}

/// The innermost module and function around a position, in the latest analysis of
/// its document.
pub open spec fn context_at(docs: Seq<DocAnalysis>, doc: DocId, pos: Pos) -> LocalScope {
    match doc_index(docs, doc) {
        Some(i) => LocalScope {
            module_opt: module_at(docs[i].result.modules@, doc, pos),
            deffunc_opt: deffunc_at(docs[i].result.deffuncs@, doc, pos),
        },
        None => LocalScope { module_opt: None, deffunc_opt: None },
    }
}

pub open spec fn docs_unique(docs: Seq<DocAnalysis>) -> bool {
    forall|i: int, j: int|
        0 <= i < docs.len() && 0 <= j < docs.len() && i != j ==> (#[trigger] docs[i]).doc != (
        #[trigger] docs[j]).doc
}

pub proof fn lemma_doc_index(docs: Seq<DocAnalysis>, doc: DocId, i: int)
    requires
        docs_unique(docs),
        0 <= i < docs.len(),
        docs[i].doc == doc,
    ensures
        doc_index(docs, doc) == Some(i),
{
}

pub proof fn lemma_doc_index_none(docs: Seq<DocAnalysis>, doc: DocId)
    requires
        forall|k: int| 0 <= k < docs.len() ==> (#[trigger] docs[k]).doc != doc,
    ensures
        doc_index(docs, doc) is None,
{
}

impl WorkspaceAnalysis {
    /// Each document has at most one entry, its analysis is well formed in its
    /// generation, and every generation handed out is below `next_gen`.
    pub open spec fn wf(&self) -> bool {
        &&& forall|i: int|
            0 <= i < self.docs@.len() ==> (#[trigger] self.docs@[i]).result.ok(
                self.docs@[i].doc,
                self.docs@[i].gen,
            ) && self.docs@[i].gen < self.next_gen
        &&& docs_unique(self.docs@)
    }

    pub fn new() -> (r: WorkspaceAnalysis)
        ensures
            r.wf(),
            r.docs@.len() == 0,
    {
        WorkspaceAnalysis { docs: Vec::new(), next_gen: 0 }
    }

    pub fn find_doc(&self, doc: DocId) -> (r: Option<usize>)
        requires
            self.wf(),
        ensures
            r == (match doc_index(self.docs@, doc) {
                Some(i) => Some(i as usize),
                None => None,
            }),
            r is Some ==> r->0 < self.docs@.len() && self.docs@[r->0 as int].doc == doc,
            r is None ==> forall|k: int| 0 <= k < self.docs@.len() ==> (#[trigger] self.docs@[k]).doc != doc,
    {
        let mut i: usize = 0;
        while i < self.docs.len()
            invariant
                self.wf(),
                i <= self.docs@.len(),
                forall|k: int| 0 <= k < i ==> (#[trigger] self.docs@[k]).doc != doc,
            decreases self.docs@.len() - i,
        {
            if self.docs[i].doc.id == doc.id {
                assert(self.docs@[i as int].doc == doc);
                proof {
                    lemma_doc_index(self.docs@, doc, i as int);
                }
                return Some(i);
            }
            i += 1;
        }
        proof {
            lemma_doc_index_none(self.docs@, doc);
        }
        None
    }

    /// Replaces the analysis of `doc` wholesale by a fresh one in a new
    /// generation; the other documents keep theirs.
    pub fn update_doc(&mut self, doc: DocId, root: &PRoot)
        requires
            old(self).wf(),
            old(self).next_gen < u64::MAX,
        ensures
            final(self).wf(),
            final(self).next_gen == old(self).next_gen + 1,
            doc_index(final(self).docs@, doc) is Some,
            final(self).docs@[doc_index(final(self).docs@, doc)->0].gen == old(self).next_gen,
            call_ensures(
                analyze_preproc,
                (doc, old(self).next_gen, root),
                final(self).docs@[doc_index(final(self).docs@, doc)->0].result,
            ),
            forall|i: int|
                0 <= i < old(self).docs@.len() ==> (#[trigger] old(self).docs@[i]).doc != doc
                    ==> doc_index(final(self).docs@, old(self).docs@[i].doc) is Some
                    && final(self).docs@[doc_index(final(self).docs@, old(self).docs@[i].doc)->0]
                    == old(self).docs@[i],
    {
        let gen = self.next_gen;
        let result = analyze_preproc(doc, gen, root);
        let found = self.find_doc(doc);
        let ghost old_docs = self.docs@;
        match found {
            Some(i) => {
                self.docs.set(i, DocAnalysis { doc, gen, result });
            },
            None => {
                self.docs.push(DocAnalysis { doc, gen, result });
            },
        }
        self.next_gen = gen + 1;
        proof {
            let k: int = match found {
                Some(i) => i as int,
                None => old_docs.len() as int,
            };
            assert(self.docs@[k].doc == doc);
            assert(docs_unique(self.docs@));
            lemma_doc_index(self.docs@, doc, k);
            assert forall|i: int| 0 <= i < old_docs.len() && (#[trigger] old_docs[i]).doc != doc implies
                doc_index(self.docs@, old_docs[i].doc) is Some && self.docs@[doc_index(
                self.docs@,
                old_docs[i].doc,
            )->0] == old_docs[i] by {
                assert(self.docs@[i] == old_docs[i]);
                lemma_doc_index(self.docs@, old_docs[i].doc, i);
            }
        }
    }

    /// Drops the analysis of `doc`.
    pub fn remove_doc(&mut self, doc: DocId)
        requires
            old(self).wf(),
        ensures
            final(self).wf(),
            final(self).next_gen == old(self).next_gen,
            doc_index(final(self).docs@, doc) is None,
            forall|i: int|
                0 <= i < old(self).docs@.len() ==> (#[trigger] old(self).docs@[i]).doc != doc
                    ==> doc_index(final(self).docs@, old(self).docs@[i].doc) is Some
                    && final(self).docs@[doc_index(final(self).docs@, old(self).docs@[i].doc)->0]
                    == old(self).docs@[i],
    {
        let found = self.find_doc(doc);
        if found.is_none() {
            return;
        }
        if let Some(i) = found {
            let ghost old_docs = self.docs@;
            let _ = self.docs.remove(i);
            proof {
                assert forall|k: int| 0 <= k < self.docs@.len() implies (#[trigger] self.docs@[k]).doc != doc by {
                    if k < i {
                        assert(self.docs@[k] == old_docs[k]);
                    } else {
                        assert(self.docs@[k] == old_docs[k + 1]);
                    }
                }
                lemma_doc_index_none(self.docs@, doc);
                assert forall|j: int| 0 <= j < old_docs.len() && (#[trigger] old_docs[j]).doc != doc implies
                    doc_index(self.docs@, old_docs[j].doc) is Some by {
                    if j < i {
                        assert(self.docs@[j] == old_docs[j]);
                        lemma_doc_index(self.docs@, old_docs[j].doc, j);
                    } else {
                        assert(self.docs@[j - 1] == old_docs[j]);
                        assert(self.docs@[j - 1] == old_docs[j]);
                        lemma_doc_index(self.docs@, old_docs[j].doc, j - 1);
                    }
                }
            }
        }
    }
}


/// Re-analysing a document hands out ids that no earlier analysis of it used:
/// the entry that `update_doc` installs shares no module or function id with the
/// entry it replaced.
pub proof fn lemma_reanalysis_fresh_ids(before: WorkspaceAnalysis, after: WorkspaceAnalysis, doc: DocId)
    requires
        before.wf(),
        after.wf(),
        doc_index(before.docs@, doc) is Some,
        doc_index(after.docs@, doc) is Some,
        after.docs@[doc_index(after.docs@, doc)->0].gen == before.next_gen,
    ensures
        ({
            let a = before.docs@[doc_index(before.docs@, doc)->0].result;
            let b = after.docs@[doc_index(after.docs@, doc)->0].result;
            &&& forall|i: int, j: int|
                0 <= i < a.modules@.len() && 0 <= j < b.modules@.len() ==> (
                #[trigger] a.modules@[i]).0 != (#[trigger] b.modules@[j]).0
            &&& forall|i: int, j: int|
                0 <= i < a.deffuncs@.len() && 0 <= j < b.deffuncs@.len() ==> (
                #[trigger] a.deffuncs@[i]).0 != (#[trigger] b.deffuncs@[j]).0
        }),
{
    let i = doc_index(before.docs@, doc)->0;
    let j = doc_index(after.docs@, doc)->0;
    let da = before.docs@[i];
    let db = after.docs@[j];
    assert(da.result.ok(da.doc, da.gen));
    assert(db.result.ok(db.doc, db.gen));
    lemma_generations_disjoint(da.result, db.result, doc, da.gen, db.gen);
}

/// Whether some symbol of the document's latest analysis has a site that holds
/// the position.
pub open spec fn any_symbol_at(docs: Seq<DocAnalysis>, doc: DocId, pos: Pos) -> bool {
    match doc_index(docs, doc) {
        Some(i) => any_symbol_in(docs[i].result.symbols@, doc, pos),
        None => false,
    }
}

pub open spec fn any_symbol_in(syms: Seq<Symbol>, doc: DocId, pos: Pos) -> bool {
    exists|j: int| 0 <= j < syms.len() && symbol_at(#[trigger] syms[j], doc, pos)
}

/// Some site in `sites` holds the position and starts at `st`.
pub open spec fn site_in(sites: Seq<Loc>, doc: DocId, pos: Pos, st: Pos) -> bool {
    exists|q: int| 0 <= q < sites.len() && spec_loc_contains(#[trigger] sites[q], doc, pos) && sites[q].start == st
}

/// Every site in `sites` that holds the position starts no later than `st`.
pub open spec fn bound_in(sites: Seq<Loc>, doc: DocId, pos: Pos, st: Pos) -> bool {
    forall|q: int| 0 <= q < sites.len() && spec_loc_contains(#[trigger] sites[q], doc, pos) ==> pos_le(sites[q].start, st)
}

pub open spec fn sym_site(s: Symbol, doc: DocId, pos: Pos, st: Pos) -> bool {
    site_in(s.def_sites@, doc, pos, st) || site_in(s.use_sites@, doc, pos, st)
}

pub open spec fn sym_bound(s: Symbol, doc: DocId, pos: Pos, st: Pos) -> bool {
    bound_in(s.def_sites@, doc, pos, st) && bound_in(s.use_sites@, doc, pos, st)
}

/// Symbol `j` has a site at the position that starts no earlier than any site
/// of any symbol at the position.
pub open spec fn innermost_at(syms: Seq<Symbol>, j: int, doc: DocId, pos: Pos) -> bool {
    exists|st: Pos| #[trigger] sym_site(syms[j], doc, pos, st) && forall|k: int|
        0 <= k < syms.len() ==> sym_bound(#[trigger] syms[k], doc, pos, st)
}

/// The latest start among the sites that hold the position.
fn latest_start(sites: &Vec<Loc>, doc: DocId, pos: Pos) -> (r: Option<Pos>)
    ensures
        r is None <==> forall|q: int| 0 <= q < sites@.len() ==> !spec_loc_contains(#[trigger] sites@[q], doc, pos),
        r is Some ==> site_in(sites@, doc, pos, r->0) && bound_in(sites@, doc, pos, r->0),
{
    let mut best: Option<Pos> = None;
    let mut q: usize = 0;
    while q < sites.len()
        invariant
            q <= sites@.len(),
            best is None ==> forall|k: int| 0 <= k < q ==> !spec_loc_contains(#[trigger] sites@[k], doc, pos),
            best is Some ==> site_in(sites@, doc, pos, best->0) && forall|k: int|
                0 <= k < q && spec_loc_contains(#[trigger] sites@[k], doc, pos) ==> pos_le(sites@[k].start, best->0),
        decreases sites@.len() - q,
    {
        let l = sites[q];
        if l.contains(doc, pos) {
            let better = match best {
                None => true,
                Some(b) => !pos_is_le(l.start, b),
            };
            if better {
                assert(spec_loc_contains(sites@[q as int], doc, pos));
                best = Some(l.start);
            }
        }
        q += 1;
    }
    best
}

impl WorkspaceAnalysis {
    /// The innermost symbol of the document's latest analysis at a position: of
    /// the definition and use sites that hold the position, the one that starts
    /// last; the entry index and the symbol index.
    pub fn locate_symbol(&self, doc: DocId, pos: Pos) -> (r: Option<(usize, usize)>)
        requires
            self.wf(),
        ensures
            r is None <==> !any_symbol_at(self.docs@, doc, pos),
            r is Some ==> {
                let (i, j) = r->0;
                &&& doc_index(self.docs@, doc) == Some(i as int)
                &&& j < self.docs@[i as int].result.symbols@.len()
                &&& symbol_at(self.docs@[i as int].result.symbols@[j as int], doc, pos)
                &&& innermost_at(self.docs@[i as int].result.symbols@, j as int, doc, pos)
            },
    {
        let i = match self.find_doc(doc) {
            Some(i) => i,
            None => return None,
        };
        let syms = &self.docs[i].result.symbols;
        let mut best: Option<(usize, Pos)> = None;
        let mut j: usize = 0;
        while j < syms.len()
            invariant
                j <= syms@.len(),
                best is None ==> forall|k: int| 0 <= k < j ==> !symbol_at(#[trigger] syms@[k], doc, pos),
                best is Some ==> {
                    let (bj, bs) = best->0;
                    &&& bj < j
                    &&& sym_site(syms@[bj as int], doc, pos, bs)
                    &&& forall|k: int| 0 <= k < j ==> sym_bound(#[trigger] syms@[k], doc, pos, bs)
                },
            decreases syms@.len() - j,
        {
            let s = &syms[j];
            let here = latest_start(&s.def_sites, doc, pos);
            let there = latest_start(&s.use_sites, doc, pos);
            let local: Option<Pos> = match (here, there) {
                (None, None) => None,
                (Some(a), None) => Some(a),
                (None, Some(b)) => Some(b),
                (Some(a), Some(b)) => if pos_is_le(a, b) { Some(b) } else { Some(a) },
            };
            proof {
                if local is None {
                    assert(!symbol_at(*s, doc, pos));
                } else {
                    assert(sym_site(*s, doc, pos, local->0));
                    assert(sym_bound(*s, doc, pos, local->0));
                }
            }
            match local {
                None => {},
                Some(st) => {
                    let better = match best {
                        None => true,
                        Some((_, bs)) => !pos_is_le(st, bs),
                    };
                    if better {
                        proof {
                            if best is Some {
                                let (_, bs) = best->0;
                                assert forall|k: int| 0 <= k < j implies sym_bound(#[trigger] syms@[k], doc, pos, st) by {
                                    assert(sym_bound(syms@[k], doc, pos, bs));
                                }
                            } else {
                                assert forall|k: int| 0 <= k < j implies sym_bound(#[trigger] syms@[k], doc, pos, st) by {
                                    assert(!symbol_at(syms@[k], doc, pos));
                                }
                            }
                        }
                        best = Some((j, st));
                    }
                },
            }
            j += 1;
        }
        match best {
            None => None,
            Some((bj, bs)) => {
                proof {
                    assert(symbol_at(syms@[bj as int], doc, pos));
                    assert(any_symbol_in(syms@, doc, pos));
                }
                Some((i, bj))
            },
        }
    }

    /// All definition sites of a symbol: for a global symbol those of every global
    /// symbol of the same name and namespace in the corpus, in order of documents
    /// and declarations; for a local one its own.
    pub fn collect_symbol_defs(&self, di: usize, si: usize) -> (r: Vec<Loc>)
        requires
            di < self.docs@.len(),
            si < self.docs@[di as int].result.symbols@.len(),
        ensures
            ({
                let t = self.docs@[di as int].result.symbols@[si as int];
                r@ == if t.scope is Global {
                    defs_in_docs(self.docs@, t)
                } else {
                    t.def_sites@
                }
            }),
    {
        let t = &self.docs[di].result.symbols[si];
        let mut out: Vec<Loc> = Vec::new();
        match t.scope {
            Scope::Local(_) => {
                let mut k: usize = 0;
                while k < t.def_sites.len()
                    invariant
                        k <= t.def_sites@.len(),
                        out@ == t.def_sites@.subrange(0, k as int),
                    decreases t.def_sites@.len() - k,
                {
                    out.push(t.def_sites[k]);
                    assert(out@ =~= t.def_sites@.subrange(0, k + 1));
                    k += 1;
                }
                assert(t.def_sites@.subrange(0, t.def_sites@.len() as int) =~= t.def_sites@);
                return out;
            },
            Scope::Global => {},
        }
        let mut d: usize = 0;
        while d < self.docs.len()
            invariant
                t.scope is Global,
                d <= self.docs@.len(),
                out@ == defs_in_docs(self.docs@.subrange(0, d as int), *t),
            decreases self.docs@.len() - d,
        {
            let syms = &self.docs[d].result.symbols;
            let ghost base = out@;
            let mut j: usize = 0;
            while j < syms.len()
                invariant
                    t.scope is Global,
                    j <= syms@.len(),
                    out@ == base + defs_in_symbols(syms@.subrange(0, j as int), *t),
                decreases syms@.len() - j,
            {
                let s = &syms[j];
                assert(syms@.subrange(0, j + 1).drop_last() =~= syms@.subrange(0, j as int));
                let same_ns = match (s.ns_opt, t.ns_opt) {
                    (None, None) => true,
                    (Some(a), Some(b)) => a.doc.id == b.doc.id && a.gen == b.gen && a.index == b.index,
                    _ => false,
                };
                let same = match s.scope {
                    Scope::Global => s.name == t.name && same_ns,
                    Scope::Local(_) => false,
                };
                assert(same == same_global(*s, *t));
                if same {
                    let ghost mid = out@;
                    let mut k: usize = 0;
                    while k < s.def_sites.len()
                        invariant
                            t.scope is Global,
                            j < syms@.len(),
                            *s == syms@[j as int],
                            same_global(*s, *t),
                            k <= s.def_sites@.len(),
                            out@ == mid + s.def_sites@.subrange(0, k as int),
                        decreases s.def_sites@.len() - k,
                    {
                        out.push(s.def_sites[k]);
                        assert(out@ =~= mid + s.def_sites@.subrange(0, k + 1));
                        k += 1;
                    }
                    assert(s.def_sites@.subrange(0, s.def_sites@.len() as int) =~= s.def_sites@);
                }
                assert(out@ =~= base + defs_in_symbols(syms@.subrange(0, j + 1), *t));
                j += 1;
            }
            assert(syms@.subrange(0, syms@.len() as int) =~= syms@);
            assert(self.docs@.subrange(0, d + 1).drop_last() =~= self.docs@.subrange(0, d as int));
            d += 1;
        }
        assert(self.docs@.subrange(0, self.docs@.len() as int) =~= self.docs@);
        out
    }
}


pub open spec fn pairs_view(v: Seq<(usize, usize)>) -> Seq<(int, int)> {
    v.map_values(|p: (usize, usize)| (p.0 as int, p.1 as int))
}

pub proof fn lemma_candidates_in_range(docs: Seq<DocAnalysis>, n: int, doc: DocId, ctx: LocalScope)
    requires
        0 <= n <= docs.len(),
    ensures
        forall|q: int|
            0 <= q < candidates_upto(docs, n, doc, ctx).len() ==> {
                let (i, j) = #[trigger] candidates_upto(docs, n, doc, ctx)[q];
                0 <= i < docs.len() && 0 <= j < docs[i].result.symbols@.len()
            },
    decreases n,
{
    if n > 0 {
        lemma_candidates_in_range(docs, n - 1, doc, ctx);
        lemma_candidates_in_doc(docs[n - 1], n - 1, docs[n - 1].result.symbols@.len() as int, doc, ctx);
        let a = candidates_upto(docs, n - 1, doc, ctx);
        let b = candidates_in(docs[n - 1], n - 1, docs[n - 1].result.symbols@.len() as int, doc, ctx);
        assert forall|q: int| 0 <= q < (a + b).len() implies {
            let (i, j) = #[trigger] (a + b)[q];
            0 <= i < docs.len() && 0 <= j < docs[i].result.symbols@.len()
        } by {
            if q < a.len() {
                assert((a + b)[q] == a[q]);
            } else {
                assert((a + b)[q] == b[q - a.len()]);
            }
        }
    }
}

proof fn lemma_candidates_in_doc(d: DocAnalysis, i: int, m: int, doc: DocId, ctx: LocalScope)
    requires
        m <= d.result.symbols@.len(),
    ensures
        forall|q: int|
            0 <= q < candidates_in(d, i, m, doc, ctx).len() ==> {
                let (a, b) = #[trigger] candidates_in(d, i, m, doc, ctx)[q];
                a == i && 0 <= b < d.result.symbols@.len()
            },
    decreases m,
{
    if m > 0 {
        lemma_candidates_in_doc(d, i, m - 1, doc, ctx);
        let rest = candidates_in(d, i, m - 1, doc, ctx);
        assert forall|q: int| 0 <= q < candidates_in(d, i, m, doc, ctx).len() implies {
            let (a, b) = #[trigger] candidates_in(d, i, m, doc, ctx)[q];
            a == i && 0 <= b < d.result.symbols@.len()
        } by {
            if q < rest.len() {
                assert(candidates_in(d, i, m, doc, ctx)[q] == rest[q]);
            }
        }
    }
}

fn module_at_exec(mods: &Vec<(ModuleId, ModuleData)>, doc: DocId, pos: Pos) -> (r: Option<ModuleId>)
    ensures
        r == module_at(mods@, doc, pos),
{
    let mut i = mods.len();
    assert(mods@.subrange(0, i as int) =~= mods@);
    while i > 0
        invariant
            i <= mods@.len(),
            module_at(mods@.subrange(0, i as int), doc, pos) == module_at(mods@, doc, pos),
        decreases i,
    {
        let ghost sub = mods@.subrange(0, i as int);
        assert(sub.drop_last() =~= mods@.subrange(0, i - 1));
        if mods[i - 1].1.content_loc.contains(doc, pos) {
            return Some(mods[i - 1].0);
        }
        i -= 1;
    }
    None
}

fn deffunc_at_exec(fs: &Vec<(DefFuncId, DefFuncData)>, doc: DocId, pos: Pos) -> (r: Option<DefFuncId>)
    ensures
        r == deffunc_at(fs@, doc, pos),
{
    let mut i = fs.len();
    assert(fs@.subrange(0, i as int) =~= fs@);
    while i > 0
        invariant
            i <= fs@.len(),
            deffunc_at(fs@.subrange(0, i as int), doc, pos) == deffunc_at(fs@, doc, pos),
        decreases i,
    {
        let ghost sub = fs@.subrange(0, i as int);
        assert(sub.drop_last() =~= fs@.subrange(0, i - 1));
        if fs[i - 1].1.content_loc.contains(doc, pos) {
            return Some(fs[i - 1].0);
        }
        i -= 1;
    }
    None
}

fn same_module_opt(a: Option<ModuleId>, b: Option<ModuleId>) -> (r: bool)
    ensures
        r == (a == b),
{
    match (a, b) {
        (None, None) => true,
        (Some(x), Some(y)) => x.doc.id == y.doc.id && x.gen == y.gen && x.index == y.index,
        _ => false,
    }
}

fn same_deffunc_opt(a: Option<DefFuncId>, b: Option<DefFuncId>) -> (r: bool)
    ensures
        r == (a == b),
{
    match (a, b) {
        (None, None) => true,
        (Some(x), Some(y)) => x.doc.id == y.doc.id && x.gen == y.gen && x.index == y.index,
        _ => false,
    }
}

pub fn is_visible(s: &Symbol, ctx: &LocalScope) -> (r: bool)
    ensures
        r == visible(*s, *ctx),
{
    match s.scope {
        Scope::Global => true,
        Scope::Local(l) => same_module_opt(l.module_opt, ctx.module_opt) && (l.deffunc_opt.is_none()
            || same_deffunc_opt(l.deffunc_opt, ctx.deffunc_opt)),
    }
}

impl WorkspaceAnalysis {
    /// The innermost module and function around a position.
    pub fn lexical_context(&self, doc: DocId, pos: Pos) -> (r: LocalScope)
        requires
            self.wf(),
        ensures
            r == context_at(self.docs@, doc, pos),
    {
        match self.find_doc(doc) {
            Some(i) => LocalScope {
                module_opt: module_at_exec(&self.docs[i].result.modules, doc, pos),
                deffunc_opt: deffunc_at_exec(&self.docs[i].result.deffuncs, doc, pos),
            },
            None => LocalScope { module_opt: None, deffunc_opt: None },
        }
    }

    /// The symbols that completion offers at a position, as (entry, symbol)
    /// indices: in the position's document those visible in its lexical context,
    /// in the other documents the global ones.
    pub fn collect_completion_candidates(&self, doc: DocId, pos: Pos) -> (r: Vec<(usize, usize)>)
        requires
            self.wf(),
        ensures
            pairs_view(r@) == candidates_upto(
                self.docs@,
                self.docs@.len() as int,
                doc,
                context_at(self.docs@, doc, pos),
            ),
    {
        let ctx = self.lexical_context(doc, pos);
        let mut out: Vec<(usize, usize)> = Vec::new();
        let mut d: usize = 0;
        while d < self.docs.len()
            invariant
                d <= self.docs@.len(),
                pairs_view(out@) == candidates_upto(self.docs@, d as int, doc, ctx),
            decreases self.docs@.len() - d,
        {
            let entry = &self.docs[d];
            let here = entry.doc.id == doc.id;
            let ghost base = pairs_view(out@);
            let mut j: usize = 0;
            while j < entry.result.symbols.len()
                invariant
                    d < self.docs@.len(),
                    *entry == self.docs@[d as int],
                    here == (entry.doc == doc),
                    j <= entry.result.symbols@.len(),
                    pairs_view(out@) == base + candidates_in(*entry, d as int, j as int, doc, ctx),
                decreases entry.result.symbols@.len() - j,
            {
                let s = &entry.result.symbols[j];
                let take = if here {
                    is_visible(s, &ctx)
                } else {
                    match s.scope {
                        Scope::Global => true,
                        Scope::Local(_) => false,
                    }
                };
                let ghost prev = out@;
                if take {
                    out.push((d, j));
                    assert(pairs_view(out@) =~= pairs_view(prev).push((d as int, j as int)));
                }
                assert(pairs_view(out@) =~= base + candidates_in(*entry, d as int, j + 1, doc, ctx));
                j += 1;
            }
            d += 1;
        }
        out
    }
}

} // verus!
