use ham_core::assists::{completion, completion_item, definitions, incomplete_completion_list, CompletionKind};
use ham_core::comment::{calculate_details, collect_comments, str_is_ornament_comment, trim_comment_leader};
use ham_core::preproc::{analyze_preproc, normalize_include_path};
use ham_core::scope::{resolve_name_scope_ns_for_def, DefScope, LocalScope, ModuleId, Privacy, Scope};
use ham_core::source::{DocId, Loc, PToken, Pos, TokenData, TokenKind};
use ham_core::symbol::SymbolKind;
use ham_core::syntax::{
    PDefFuncKind, PDefFuncStmt, PDefineStmt, PIncludeStmt, PLabel, PLibFuncStmt, PModuleStmt, PNamedStmt,
    PParam, PParamTy, PRoot, PStmt,
};
use ham_core::workspace::WorkspaceAnalysis;

const DOC: DocId = DocId { id: 3 };

fn loc(row: u32, c1: u32, c2: u32) -> Loc {
    Loc { doc: DOC, start: Pos { row, column: c1 }, end: Pos { row, column: c2 } }
}

fn tok(kind: TokenKind, text: &str, row: u32, col: u32) -> PToken {
    let len = text.chars().count() as u32;
    PToken { leading: vec![], body: TokenData { kind, text: text.to_string(), loc: loc(row, col, col + len) } }
}

fn ident(text: &str, row: u32, col: u32) -> PToken {
    tok(TokenKind::Ident, text, row, col)
}

fn hash(row: u32) -> PToken {
    tok(TokenKind::Other, "#", row, 0)
}

fn strings(v: &[&str]) -> Vec<String> {
    v.iter().map(|s| s.to_string()).collect()
}

fn named(row: u32, privacy: Option<Privacy>, name: &str) -> PNamedStmt {
    PNamedStmt {
        hash: hash(row),
        privacy_opt: privacy.map(|p| (p, ident("global", row, 1))),
        name_opt: Some(ident(name, row, 10)),
    }
}

fn deffunc(row: u32, kind: PDefFuncKind, privacy: Option<Privacy>, name: &str, params: Vec<PParam>, stmts: Vec<PStmt>) -> PDefFuncStmt {
    PDefFuncStmt {
        hash: hash(row),
        keyword: ident("deffunc", row, 1),
        kind,
        privacy_opt: privacy.map(|p| (p, ident("local", row, 9))),
        name_opt: Some(ident(name, row, 15)),
        onexit_opt: None,
        params,
        stmts,
        behind: loc(row + 10, 0, 0),
    }
}

fn param(ty: Option<PParamTy>, name: Option<&str>, row: u32) -> PParam {
    PParam { param_ty_opt: ty.map(|t| (t, ident("int", row, 30))), name_opt: name.map(|n| ident(n, row, 40)) }
}

#[test]
fn details_of_decorative_lines_are_empty() {
    let d = calculate_details(&strings(&["// ------", ";;;;", "", "   ", "/* */"]));
    assert!(d.desc.is_none());
    assert!(d.docs.is_empty());
}

#[test]
fn details_skip_separators_around_summary() {
    let d = calculate_details(&strings(&["----------------", "Computes X.", "", "Returns Y.", "", "Done."]));
    assert_eq!(d.desc.as_deref(), Some("Computes X."));
    assert_eq!(d.docs, strings(&["Returns Y.", "", "Done."]));
}

#[test]
fn details_header_with_words_is_the_summary() {
    let d = calculate_details(&strings(&["---- header ----", "Computes X.", "", "Returns Y."]));
    assert_eq!(d.desc.as_deref(), Some("---- header ----"));
    assert_eq!(d.docs, strings(&["Computes X.", "", "Returns Y."]));
}

#[test]
fn details_strip_markers_and_trailing_space() {
    let d = calculate_details(&strings(&["/// Adds two.", "// ====", "; first line  ", "//second"]));
    assert_eq!(d.desc.as_deref(), Some("Adds two."));
    assert_eq!(d.docs, strings(&["first line", "second"]));
}

#[test]
fn comment_leaders_are_trimmed_in_order() {
    assert_eq!(trim_comment_leader("/// a"), "a");
    assert_eq!(trim_comment_leader("///a"), "a");
    assert_eq!(trim_comment_leader("// a"), "a");
    assert_eq!(trim_comment_leader("//a"), "a");
    assert_eq!(trim_comment_leader("; a"), "a");
    assert_eq!(trim_comment_leader(";a"), "a");
    assert_eq!(trim_comment_leader("a"), "a");
    assert_eq!(trim_comment_leader("/a"), "/a");
}

#[test]
fn ornament_lines_are_recognised() {
    assert!(str_is_ornament_comment("// ----- "));
    assert!(str_is_ornament_comment(""));
    assert!(str_is_ornament_comment("\t;*=*;"));
    assert!(!str_is_ornament_comment("// x"));
    assert!(!str_is_ornament_comment("あ"));
}

#[test]
fn collect_comments_keeps_descriptive_comments() {
    let mut t = ident("foo", 5, 0);
    t.leading = vec![
        TokenData { kind: TokenKind::Comment, text: "// -----".to_string(), loc: loc(1, 0, 8) },
        TokenData { kind: TokenKind::Comment, text: "// Does foo.".to_string(), loc: loc(2, 0, 12) },
        TokenData { kind: TokenKind::Newline, text: "\n".to_string(), loc: loc(2, 12, 13) },
        TokenData { kind: TokenKind::Comment, text: "; more".to_string(), loc: loc(3, 0, 6) },
    ];
    assert_eq!(collect_comments(&t), strings(&["// Does foo.", "; more"]));
}

#[test]
fn resolver_keeps_name_and_tags_module_locals() {
    let m = ModuleId { doc: DOC, gen: 0, index: 0 };
    let local = LocalScope { module_opt: Some(m), deffunc_opt: None };
    let r = resolve_name_scope_ns_for_def(&"Foo".to_string(), DefScope::Local, &local);
    assert_eq!(r.basename, "Foo");
    assert_eq!(r.scope, Scope::Local(local));
    assert_eq!(r.ns_opt, Some(m));
    let g = resolve_name_scope_ns_for_def(&"Foo".to_string(), DefScope::Global, &local);
    assert_eq!(g.scope, Scope::Global);
    assert_eq!(g.ns_opt, None);
    let p = resolve_name_scope_ns_for_def(&"x".to_string(), DefScope::Param, &local);
    assert_eq!(p.scope, Scope::Local(local));
    assert_eq!(p.ns_opt, None);
}

#[test]
fn unmodified_declarations_take_their_default_scope() {
    let root = PRoot {
        stmts: vec![
            PStmt::Const(named(0, None, "K")),
            PStmt::Define(PDefineStmt { hash: hash(1), privacy_opt: None, ctype_opt: None, name_opt: Some(ident("M", 1, 10)) }),
            PStmt::Enum(named(2, None, "E")),
            PStmt::LibFunc(PLibFuncStmt { hash: hash(3), privacy_opt: None, name_opt: Some(ident("lf", 3, 10)), onexit_opt: None, params: vec![] }),
            PStmt::UseCom(named(4, None, "IFace")),
            PStmt::Cmd(named(5, None, "plug")),
            PStmt::DefFunc(deffunc(6, PDefFuncKind::DefFunc, None, "f", vec![], vec![])),
            PStmt::ComFunc(named(20, None, "cf")),
        ],
    };
    let r = analyze_preproc(DOC, 0, &root);
    let scopes: Vec<(String, bool)> = r.symbols.iter().map(|s| (s.name.clone(), s.scope == Scope::Global)).collect();
    assert_eq!(
        scopes,
        vec![
            ("K".to_string(), false),
            ("M".to_string(), false),
            ("E".to_string(), false),
            ("lf".to_string(), false),
            ("IFace".to_string(), false),
            ("plug".to_string(), false),
            ("f".to_string(), true),
            ("cf".to_string(), true),
        ]
    );
    assert_eq!(r.symbols[1].kind, SymbolKind::Macro { ctype: false });
}

#[test]
fn opposite_modifier_flips_scope() {
    let root = PRoot {
        stmts: vec![
            PStmt::Const(named(0, Some(Privacy::Global), "K")),
            PStmt::DefFunc(deffunc(1, PDefFuncKind::DefFunc, Some(Privacy::Local), "f", vec![], vec![])),
        ],
    };
    let r = analyze_preproc(DOC, 0, &root);
    assert_eq!(r.symbols[0].scope, Scope::Global);
    assert_eq!(r.symbols[0].ns_opt, None);
    assert!(matches!(r.symbols[1].scope, Scope::Local(_)));
}

#[test]
fn params_and_fields_are_local() {
    let f = deffunc(
        2,
        PDefFuncKind::ModFunc,
        None,
        "m",
        vec![param(Some(PParamTy::Int), Some("a"), 2), param(Some(PParamTy::Local), Some("tmp"), 2)],
        vec![PStmt::Label(PLabel { star: tok(TokenKind::Other, "*", 3, 0), name_opt: Some(ident("inner", 3, 1)) })],
    );
    let module = PModuleStmt {
        hash: hash(0),
        keyword: ident("module", 0, 1),
        name_opt: Some(ident("Mod", 0, 8)),
        fields: vec![param(None, Some("fld"), 0)],
        stmts: vec![PStmt::DefFunc(f)],
        behind: loc(30, 0, 0),
    };
    let r = analyze_preproc(DOC, 7, &PRoot { stmts: vec![PStmt::Module(module)] });
    let names: Vec<String> = r.symbols.iter().map(|s| s.name.clone()).collect();
    assert_eq!(names, strings(&["Mod", "fld", "m", "a", "tmp", "inner"]));
    assert_eq!(r.symbols[0].scope, Scope::Global);
    assert_eq!(r.symbols[0].kind, SymbolKind::Module);
    let module_id = ModuleId { doc: DOC, gen: 7, index: 0 };
    assert_eq!(r.symbols[1].scope, Scope::Local(LocalScope { module_opt: Some(module_id), deffunc_opt: None }));
    assert_eq!(r.symbols[1].kind, SymbolKind::Field);
    assert_eq!(r.symbols[2].scope, Scope::Global);
    for i in 3..5 {
        assert!(matches!(r.symbols[i].kind, SymbolKind::Param(_)));
        match r.symbols[i].scope {
            Scope::Local(l) => {
                assert_eq!(l.module_opt, Some(module_id));
                assert!(l.deffunc_opt.is_some());
            }
            Scope::Global => panic!("parameter resolved global"),
        }
        assert_eq!(r.symbols[i].ns_opt, None);
    }
    assert!(matches!(r.symbols[5].scope, Scope::Local(l) if l.deffunc_opt.is_some()));
    assert_eq!(r.modules.len(), 1);
    assert_eq!(r.deffuncs.len(), 1);
    assert_eq!(r.modules[0].1.content_loc, Loc { doc: DOC, start: Pos { row: 0, column: 0 }, end: Pos { row: 30, column: 0 } });
    let sig = r.symbols[2].signature_opt.as_ref().expect("module method has a signature");
    assert_eq!(sig.name, "m");
    assert_eq!(sig.params.len(), 2);
    assert_eq!(sig.params[0], (Some(PParamTy::Modvar), Some("thismod".to_string()), None));
    assert_eq!(sig.params[1], (Some(PParamTy::Int), Some("a".to_string()), None));
}

#[test]
fn lib_func_signature_drops_non_argument_params() {
    let lf = PLibFuncStmt {
        hash: hash(0),
        privacy_opt: None,
        name_opt: Some(ident("MessageBox", 0, 6)),
        onexit_opt: None,
        params: vec![param(Some(PParamTy::Int), None, 0), param(Some(PParamTy::PRefstr), None, 0), param(None, Some("x"), 0)],
    };
    let r = analyze_preproc(DOC, 0, &PRoot { stmts: vec![PStmt::LibFunc(lf)] });
    let sig = r.symbols[0].signature_opt.as_ref().unwrap();
    assert_eq!(sig.params, vec![(Some(PParamTy::Int), None, None), (None, Some("x".to_string()), None)]);
}

#[test]
fn exit_handlers_and_nameless_declarations_make_no_symbol() {
    let mut f = deffunc(0, PDefFuncKind::DefFunc, None, "bye", vec![], vec![]);
    f.onexit_opt = Some(ident("onexit", 0, 20));
    let r = analyze_preproc(
        DOC,
        0,
        &PRoot {
            stmts: vec![
                PStmt::DefFunc(f),
                PStmt::Label(PLabel { star: tok(TokenKind::Other, "*", 12, 0), name_opt: None }),
                PStmt::Assign(ident("a", 13, 0)),
            ],
        },
    );
    assert!(r.symbols.is_empty());
    assert_eq!(r.deffuncs.len(), 1);
}

#[test]
fn include_path_is_normalised_with_its_span() {
    let fp = tok(TokenKind::Str, "\"Sub\\\\Lib.hsp\"", 0, 9);
    let stmt = PIncludeStmt { hash: hash(0), file_path_opt: Some(fp) };
    let r = analyze_preproc(DOC, 0, &PRoot { stmts: vec![PStmt::Include(stmt)] });
    assert_eq!(r.includes.len(), 1);
    assert_eq!(r.includes[0].0, "sub/lib.hsp");
    assert_eq!(r.includes[0].1, loc(0, 0, 23));
}

#[test]
fn non_literal_include_is_dropped() {
    let stmt = PIncludeStmt { hash: hash(0), file_path_opt: Some(ident("path", 0, 9)) };
    let r = analyze_preproc(DOC, 0, &PRoot { stmts: vec![PStmt::Include(stmt), PStmt::Include(PIncludeStmt { hash: hash(1), file_path_opt: None })] });
    assert!(r.includes.is_empty());
}

#[test]
fn normalize_include_path_edges() {
    assert_eq!(normalize_include_path("\"A\\\\B\\\\C.AS\""), "a/b/c.as");
    assert_eq!(normalize_include_path("\"x.hsp"), "x.hsp");
    assert_eq!(normalize_include_path("\""), "");
    assert_eq!(normalize_include_path("\"a\\b\""), "a\\b");
}

fn module_tree(name: &str) -> PRoot {
    let f = deffunc(1, PDefFuncKind::DefFunc, None, "f", vec![], vec![]);
    PRoot {
        stmts: vec![PStmt::Module(PModuleStmt {
            hash: hash(0),
            keyword: ident("module", 0, 1),
            name_opt: Some(ident(name, 0, 8)),
            fields: vec![],
            stmts: vec![PStmt::DefFunc(f)],
            behind: loc(20, 0, 0),
        })],
    }
}

#[test]
fn reanalysis_allocates_fresh_ids() {
    let mut wa = WorkspaceAnalysis::new();
    wa.update_doc(DOC, &module_tree("A"));
    let first_module = wa.docs[0].result.modules[0].0;
    let first_func = wa.docs[0].result.deffuncs[0].0;
    wa.update_doc(DOC, &module_tree("AB"));
    assert_eq!(wa.docs.len(), 1);
    assert_ne!(wa.docs[0].result.modules[0].0, first_module);
    assert_ne!(wa.docs[0].result.deffuncs[0].0, first_func);
    assert_eq!(wa.docs[0].result.symbols[0].name, "AB");
}

#[test]
fn sort_prefix_ranks_tighter_scopes_first() {
    let m = Some(ModuleId { doc: DOC, gen: 0, index: 0 });
    let f = Some(ham_core::scope::DefFuncId { doc: DOC, gen: 0, index: 0 });
    let sym = |scope: Scope, kind: SymbolKind| ham_core::symbol::Symbol {
        kind,
        name: "zz".to_string(),
        comments: vec![],
        scope,
        ns_opt: None,
        def_sites: vec![loc(0, 0, 2)],
        use_sites: vec![],
        signature_opt: None,
    };
    let keys: Vec<String> = vec![
        sym(Scope::Local(LocalScope { module_opt: m, deffunc_opt: f }), SymbolKind::Param(None)),
        sym(Scope::Local(LocalScope { module_opt: m, deffunc_opt: None }), SymbolKind::Const),
        sym(Scope::Local(LocalScope { module_opt: None, deffunc_opt: None }), SymbolKind::Label),
        sym(Scope::Local(LocalScope { module_opt: None, deffunc_opt: f }), SymbolKind::Param(None)),
        sym(Scope::Global, SymbolKind::DefFunc),
        sym(Scope::Global, SymbolKind::Module),
    ]
    .iter()
    .map(|s| completion_item(s).sort_text)
    .collect();
    assert_eq!(keys, strings(&["azz", "bzz", "czz", "dzz", "ezz", "fzz"]));
    let mut sorted = keys.clone();
    sorted.sort();
    assert_eq!(sorted, keys);
}

#[test]
fn completion_lists_visible_symbols_with_details() {
    let mut k = named(0, None, "K");
    k.hash.leading = vec![
        TokenData { kind: TokenKind::Comment, text: "// The answer.".to_string(), loc: loc(0, 0, 0) },
        TokenData { kind: TokenKind::Comment, text: "// Always 42.".to_string(), loc: loc(0, 0, 0) },
        TokenData { kind: TokenKind::Comment, text: "// Really.".to_string(), loc: loc(0, 0, 0) },
    ];
    let f = deffunc(2, PDefFuncKind::DefCFunc, None, "g", vec![param(Some(PParamTy::Int), Some("p"), 2)], vec![]);
    let mut wa = WorkspaceAnalysis::new();
    wa.update_doc(DOC, &PRoot { stmts: vec![PStmt::Const(k), PStmt::DefFunc(f)] });
    let other = DocId { id: 9 };
    wa.update_doc(other, &PRoot { stmts: vec![PStmt::Const(named(0, Some(Privacy::Global), "G")), PStmt::Const(named(1, None, "hidden"))] });

    let outside = completion(&wa, DOC, Pos { row: 1, column: 0 });
    assert!(!outside.is_incomplete);
    let labels: Vec<String> = outside.items.iter().map(|i| i.label.clone()).collect();
    assert_eq!(labels, strings(&["K", "g", "G"]));
    assert_eq!(outside.items[0].kind, CompletionKind::Constant);
    assert_eq!(outside.items[0].detail.as_deref(), Some("The answer."));
    assert_eq!(outside.items[0].documentation.as_deref(), Some("Always 42.\r\n\r\nReally."));
    assert_eq!(outside.items[1].kind, CompletionKind::Function);
    assert_eq!(outside.items[1].documentation, None);

    let inside = completion(&wa, DOC, Pos { row: 5, column: 0 });
    let labels: Vec<String> = inside.items.iter().map(|i| i.label.clone()).collect();
    assert_eq!(labels, strings(&["K", "g", "p", "G"]));
    assert_eq!(inside.items[2].sort_text, "dp");

    let list = incomplete_completion_list();
    assert!(list.is_incomplete && list.items.is_empty());
}

#[test]
fn definitions_follow_global_symbols_across_documents() {
    let a = DocId { id: 1 };
    let b = DocId { id: 2 };
    let mut wa = WorkspaceAnalysis::new();
    let decl = |doc: DocId, row: u32| {
        let mut f = deffunc(row, PDefFuncKind::DefFunc, None, "shared", vec![], vec![]);
        if let Some(n) = f.name_opt.as_mut() {
            n.body.loc.doc = doc;
        }
        f
    };
    wa.update_doc(a, &PRoot { stmts: vec![PStmt::DefFunc(decl(a, 0))] });
    wa.update_doc(b, &PRoot { stmts: vec![PStmt::DefFunc(decl(b, 4))] });
    let defs = definitions(&wa, a, Pos { row: 0, column: 17 });
    assert_eq!(defs.len(), 2);
    assert_eq!(defs[0].doc, a);
    assert_eq!(defs[1].doc, b);
    assert_eq!(defs[1].start, Pos { row: 4, column: 15 });
    assert!(definitions(&wa, a, Pos { row: 9, column: 0 }).is_empty());
    assert_eq!(wa.locate_symbol(b, Pos { row: 4, column: 15 }), Some((1, 0)));
    wa.remove_doc(a);
    assert_eq!(wa.find_doc(a), None);
    assert_eq!(definitions(&wa, b, Pos { row: 4, column: 16 }).len(), 1);
}

#[test]
fn nested_blocks_get_one_entry_each() {
    let inner = deffunc(3, PDefFuncKind::ModFunc, None, "m", vec![], vec![PStmt::Label(PLabel { star: tok(TokenKind::Other, "*", 4, 0), name_opt: Some(ident("here", 4, 1)) })]);
    let module = PModuleStmt {
        hash: hash(2),
        keyword: ident("module", 2, 1),
        name_opt: None,
        fields: vec![],
        stmts: vec![PStmt::DefFunc(inner)],
        behind: loc(9, 0, 0),
    };
    let root = PRoot { stmts: vec![PStmt::DefFunc(deffunc(0, PDefFuncKind::DefFunc, None, "f", vec![], vec![])), PStmt::Module(module)] };
    let r = analyze_preproc(DOC, 1, &root);
    assert_eq!(r.modules.len(), 1);
    assert_eq!(r.deffuncs.len(), 2);
    let names: Vec<String> = r.symbols.iter().map(|s| s.name.clone()).collect();
    assert_eq!(names, strings(&["f", "m", "here"]));
    match r.symbols[2].scope {
        Scope::Local(l) => {
            assert_eq!(l.module_opt, Some(r.modules[0].0));
            assert_eq!(l.deffunc_opt, Some(r.deffuncs[1].0));
        }
        Scope::Global => panic!("label resolved global"),
    }
}

#[test]
fn ornament_characters_agree_with_std() {
    for u in 0u32..0x3100 {
        if let Some(c) = char::from_u32(u) {
            let expected = c.is_control() || c.is_whitespace() || c.is_ascii_punctuation();
            assert_eq!(str_is_ornament_comment(&c.to_string()), expected, "U+{:04X}", u);
        }
    }
}
