use macro_scan::collect::global_collect;
use macro_scan::dialect::parse_filename;
use macro_scan::syntax::{
    AssertProp, Decl, Expr, Ident, ImportDecl, ImportSpecifier, Module, ModuleItem, Span, VarDeclarator,
};
use macro_scan::transform::{
    classify_imports, transform_code, MacroTransform, TransformCodeOptions, TransformOutput, TransformRemovals,
};

fn sp(lo: u32, hi: u32) -> Span {
    Span { lo, hi }
}

fn ident(name: &str, ctxt: u32, lo: u32) -> Ident {
    Ident { sym: name.to_string(), ctxt, span: sp(lo, lo + name.len() as u32) }
}

fn call(callee: Expr, args: Vec<Expr>, lo: u32, hi: u32) -> Expr {
    Expr::Call { callee: Box::new(callee), args, span: sp(lo, hi) }
}

fn asserting(kind: &str) -> Option<Vec<AssertProp>> {
    Some(vec![AssertProp::KeyValue { key: Some("type".to_string()), value: Some(kind.to_string()) }])
}

fn import_decl(locals: &[(&str, Option<&str>)], src: &str, asserts: Option<Vec<AssertProp>>, span: Span) -> ModuleItem {
    ModuleItem::Import(ImportDecl {
        specifiers: locals
            .iter()
            .map(|(l, imported)| ImportSpecifier::Named { local: ident(l, 1, span.lo + 8), imported: imported.map(|s| s.to_string()) })
            .collect(),
        src: src.to_string(),
        asserts,
        span,
    })
}

fn run(m: &Module, tag: &str, filter: fn(String, String) -> bool) -> TransformOutput {
    transform_code(
        m,
        TransformCodeOptions {
            absolute_path: "/src/index.ts".to_string(),
            code: String::new(),
            assert_type: tag.to_string(),
            filter,
        },
    )
}

fn never(_: String, _: String) -> bool {
    false
}

fn always(_: String, _: String) -> bool {
    true
}

fn replaces(o: &TransformOutput) -> Vec<(u32, u32, String, String)> {
    o.replaces.iter().map(|r| (r.lo, r.hi, r.import_src.clone(), r.import_name.clone())).collect()
}

fn removals(o: &TransformOutput) -> Vec<(u32, u32)> {
    o.removals.iter().map(|r| (r.lo, r.hi)).collect()
}

/// import {tag, other} from "./m" assert {type: "macro"};   (bytes 0..55)
/// tag(1); f(tag(2, tag(3)));
fn asserted_module() -> Module {
    Module {
        body: vec![
            import_decl(&[("tag", None), ("other", None)], "./m", asserting("macro"), sp(1, 56)),
            ModuleItem::Stmt(vec![call(Expr::Ident(ident("tag", 1, 57)), vec![Expr::Other(vec![])], 57, 63)]),
            ModuleItem::Stmt(vec![call(
                Expr::Ident(ident("f", 1, 65)),
                vec![call(
                    Expr::Ident(ident("tag", 1, 67)),
                    vec![Expr::Other(vec![]), call(Expr::Ident(ident("tag", 1, 74)), vec![Expr::Other(vec![])], 74, 80)],
                    67,
                    81,
                )],
                65,
                82,
            )]),
        ],
    }
}

#[test]
fn asserted_macro_calls_are_all_found_including_nested() {
    let o = run(&asserted_module(), "macro", never);
    assert_eq!(
        replaces(&o),
        vec![
            (56, 62, "./m".to_string(), "tag".to_string()),
            (66, 80, "./m".to_string(), "tag".to_string()),
            (73, 79, "./m".to_string(), "tag".to_string()),
        ]
    );
    assert_eq!(removals(&o), vec![(0, 55)]);
}

#[test]
fn asserted_import_is_removed_once_for_several_macro_specifiers() {
    let m = Module {
        body: vec![
            import_decl(&[("a", None), ("b", None), ("c", Some("d"))], "./m", asserting("macro"), sp(1, 50)),
            ModuleItem::Stmt(vec![call(Expr::Ident(ident("c", 1, 51)), vec![], 51, 54)]),
        ],
    };
    let o = run(&m, "macro", never);
    assert_eq!(removals(&o), vec![(0, 49)]);
    assert_eq!(replaces(&o), vec![(50, 53, "./m".to_string(), "d".to_string())]);
}

#[test]
fn member_callee_never_replaced() {
    // import * as ns from "./m" assert {type:"macro"}; ns.tag();
    let m = Module {
        body: vec![
            ModuleItem::Import(ImportDecl {
                specifiers: vec![ImportSpecifier::Namespace { local: ident("ns", 1, 13) }],
                src: "./m".to_string(),
                asserts: asserting("macro"),
                span: sp(1, 49),
            }),
            ModuleItem::Stmt(vec![call(
                Expr::Member { obj: Box::new(Expr::Ident(ident("ns", 1, 50))), prop: ident("tag", 0, 53), span: sp(50, 56) },
                vec![],
                50,
                58,
            )]),
        ],
    };
    let o = run(&m, "macro", always);
    assert!(o.replaces.is_empty());
    assert_eq!(removals(&o), vec![(0, 48)]);
}

#[test]
fn runs_are_deterministic() {
    let m = asserted_module();
    let a = run(&m, "macro", never);
    let b = run(&m, "macro", never);
    assert_eq!(replaces(&a), replaces(&b));
    assert_eq!(removals(&a), removals(&b));
}

#[test]
fn ranges_lie_within_source() {
    let m = asserted_module();
    let source_len: u32 = 82;
    let o = run(&m, "macro", never);
    for (lo, hi, _, _) in replaces(&o) {
        assert!(lo <= hi && hi <= source_len);
    }
    for (lo, hi) in removals(&o) {
        assert!(lo <= hi && hi <= source_len);
    }
}

#[test]
fn mismatched_assertion_skips_the_predicate() {
    let m = Module {
        body: vec![
            import_decl(&[("tag", None)], "./m", asserting("json"), sp(1, 40)),
            ModuleItem::Stmt(vec![call(Expr::Ident(ident("tag", 1, 41)), vec![], 41, 46)]),
        ],
    };
    let o = run(&m, "macro", always);
    assert!(o.replaces.is_empty());
    assert!(o.removals.is_empty());
}

#[test]
fn predicate_marks_unasserted_imports_without_removal() {
    fn only_css(name: String, src: String) -> bool {
        name == "css" && src == "styled"
    }
    let m = Module {
        body: vec![
            import_decl(&[("css", None), ("keyframes", None)], "styled", None, sp(1, 40)),
            ModuleItem::Stmt(vec![
                call(Expr::Ident(ident("css", 1, 41)), vec![], 41, 46),
                call(Expr::Ident(ident("keyframes", 1, 47)), vec![], 47, 58),
            ]),
        ],
    };
    let o = run(&m, "macro", only_css);
    assert_eq!(replaces(&o), vec![(40, 45, "styled".to_string(), "css".to_string())]);
    assert!(o.removals.is_empty());
}

#[test]
fn default_import_asks_predicate_about_default() {
    fn default_only(name: String, _: String) -> bool {
        name == "default"
    }
    let m = Module {
        body: vec![
            ModuleItem::Import(ImportDecl {
                specifiers: vec![ImportSpecifier::Default { local: ident("gql", 1, 8) }],
                src: "graphql-tag".to_string(),
                asserts: None,
                span: sp(1, 35),
            }),
            ModuleItem::Stmt(vec![call(Expr::Ident(ident("gql", 1, 36)), vec![], 36, 41)]),
        ],
    };
    let o = run(&m, "macro", default_only);
    assert_eq!(replaces(&o), vec![(35, 40, "graphql-tag".to_string(), "default".to_string())]);
}

#[test]
fn shadowed_binding_is_not_a_macro_call() {
    // import {tag} from "./m" assert {type:"macro"}; function g(){ tag() /* inner scope tag#2 */ }
    let m = Module {
        body: vec![
            import_decl(&[("tag", None)], "./m", asserting("macro"), sp(1, 45)),
            ModuleItem::Decl(Decl::Fn {
                ident: ident("g", 1, 55),
                body: vec![call(Expr::Ident(ident("tag", 2, 60)), vec![], 60, 65)],
            }),
            ModuleItem::Decl(Decl::Var(vec![VarDeclarator {
                name: macro_scan::syntax::Pat::Ident(ident("v", 1, 70)),
                init: Some(call(Expr::Ident(ident("tag", 1, 74)), vec![], 74, 79)),
            }])),
        ],
    };
    let o = run(&m, "macro", never);
    assert_eq!(replaces(&o), vec![(73, 78, "./m".to_string(), "tag".to_string())]);
}

#[test]
fn malformed_assertion_entries_count_as_no_assertion() {
    let m = Module {
        body: vec![
            import_decl(
                &[("tag", None)],
                "./m",
                Some(vec![
                    AssertProp::Other,
                    AssertProp::KeyValue { key: None, value: Some("macro".to_string()) },
                    AssertProp::KeyValue { key: Some("type".to_string()), value: None },
                ]),
                sp(1, 40),
            ),
            ModuleItem::Stmt(vec![call(Expr::Ident(ident("tag", 1, 41)), vec![], 41, 46)]),
        ],
    };
    let o = run(&m, "macro", always);
    assert_eq!(replaces(&o), vec![(40, 45, "./m".to_string(), "tag".to_string())]);
    assert!(o.removals.is_empty());
    let p = run(&m, "macro", never);
    assert!(p.replaces.is_empty());
}

#[test]
fn classify_with_given_verdicts() {
    let m = Module {
        body: vec![
            import_decl(&[("a", None)], "x", asserting("macro"), sp(1, 30)),
            import_decl(&[("b", None)], "y", None, sp(31, 50)),
            import_decl(&[("c", None)], "z", None, sp(51, 70)),
            import_decl(&[("d", None)], "x", asserting("macro"), sp(1, 30)),
        ],
    };
    let c = global_collect(&m);
    let (macros, removals) = classify_imports(&c.imports, &"macro".to_string(), &vec![true, false, true, false]);
    let names: Vec<&str> = macros.iter().map(|m| m.id.sym.as_str()).collect();
    assert_eq!(names, vec!["a", "c", "d"]);
    assert_eq!(removals, vec![TransformRemovals { lo: 0, hi: 29 }]);
}

#[test]
fn macro_transform_new_then_visit() {
    let m = asserted_module();
    let c = global_collect(&m);
    let config = TransformCodeOptions {
        absolute_path: "/a.js".to_string(),
        code: String::new(),
        assert_type: "macro".to_string(),
        filter: never,
    };
    let mut t = MacroTransform::new(&c, &config);
    assert_eq!(t.macro_ids.len(), 2);
    assert!(t.replaces.is_empty());
    t.visit_module(&m);
    assert_eq!(t.replaces.len(), 3);
    assert_eq!(t.removals, vec![TransformRemovals { lo: 0, hi: 55 }]);
}

#[test]
fn filename_selects_dialect() {
    assert_eq!(parse_filename("/a/b.ts"), (true, false));
    assert_eq!(parse_filename("/a/b.mts"), (true, false));
    assert_eq!(parse_filename("/a/b.mtsx"), (true, true));
    assert_eq!(parse_filename("/a/b.js"), (false, false));
    assert_eq!(parse_filename("/a/b.mjs"), (false, false));
    assert_eq!(parse_filename("/a/b.cjs"), (false, false));
    assert_eq!(parse_filename("/a/b.jsx"), (false, true));
    assert_eq!(parse_filename("/a/b.mjsx"), (false, true));
    assert_eq!(parse_filename("/a/b.cjsx"), (false, true));
    assert_eq!(parse_filename("/a/b.tsx"), (true, true));
    assert_eq!(parse_filename("/a/b.vue"), (true, true));
    assert_eq!(parse_filename("/a/b.min.js"), (false, false));
}

#[test]
fn filename_without_extension_defaults() {
    assert_eq!(parse_filename("/a/makefile"), (true, true));
    assert_eq!(parse_filename("/a/.js"), (true, true));
    assert_eq!(parse_filename("/a.d/file"), (true, true));
    assert_eq!(parse_filename(""), (true, true));
}
