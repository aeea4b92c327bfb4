use macro_scan::collect::{global_collect, GlobalCollect, Import, ImportKind};
use macro_scan::pattern::{collect_exports_from_pat, collect_from_pat};
use macro_scan::syntax::{
    AssertProp, Decl, DefaultDecl, ExportSpecifier, Id, Ident, ImportDecl, ImportSpecifier, Module,
    ModuleExportName, ModuleItem, NamedExport, ObjectPatProp, Pat, Span, VarDeclarator,
};

fn sp(lo: u32, hi: u32) -> Span {
    Span { lo, hi }
}

fn ident(name: &str, ctxt: u32, lo: u32) -> Ident {
    Ident { sym: name.to_string(), ctxt, span: sp(lo, lo + name.len() as u32) }
}

fn id(name: &str, ctxt: u32) -> Id {
    Id { sym: name.to_string(), ctxt }
}

fn export_alias(c: &GlobalCollect, name: &str, ctxt: u32) -> Option<Option<String>> {
    c.exports.get(&id(name, ctxt)).cloned()
}

fn import_named(local: Ident, imported: Option<&str>, src: &str, span: Span) -> ModuleItem {
    ModuleItem::Import(ImportDecl {
        specifiers: vec![ImportSpecifier::Named { local, imported: imported.map(|s| s.to_string()) }],
        src: src.to_string(),
        asserts: None,
        span,
    })
}

#[test]
fn export_default_function_maps_to_default() {
    // export default function foo(){}
    let m = Module {
        body: vec![ModuleItem::ExportDefaultDecl(DefaultDecl::Fn { ident: Some(ident("foo", 1, 25)), body: vec![] })],
    };
    let c = global_collect(&m);
    assert_eq!(export_alias(&c, "foo", 1), Some(Some("default".to_string())));
    assert_eq!(c.exports.len(), 1);
}

#[test]
fn export_default_anonymous_class_registers_nothing() {
    let m = Module { body: vec![ModuleItem::ExportDefaultDecl(DefaultDecl::Class { ident: None, body: vec![] })] };
    let c = global_collect(&m);
    assert_eq!(c.exports.len(), 0);
}

#[test]
fn export_list_alias_registers_local_under_alias() {
    // const a = 1; export {a as b}
    let m = Module {
        body: vec![
            ModuleItem::Decl(Decl::Var(vec![VarDeclarator { name: Pat::Ident(ident("a", 1, 7)), init: None }])),
            ModuleItem::NamedExport(NamedExport {
                specifiers: vec![ExportSpecifier::Named {
                    orig: ModuleExportName::Ident(ident("a", 1, 22)),
                    exported: Some(ModuleExportName::Ident(ident("b", 0, 27))),
                }],
                src: None,
            }),
        ],
    };
    let c = global_collect(&m);
    assert_eq!(export_alias(&c, "a", 1), Some(Some("b".to_string())));
    assert_eq!(export_alias(&c, "b", 0), None);
    assert_eq!(c.root.get(&id("a", 1)).copied(), Some(sp(7, 8)));
}

#[test]
fn reexport_from_module_registers_nothing_local() {
    // export {x} from "mod"
    let m = Module {
        body: vec![ModuleItem::NamedExport(NamedExport {
            specifiers: vec![ExportSpecifier::Named { orig: ModuleExportName::Ident(ident("x", 0, 9)), exported: None }],
            src: Some("mod".to_string()),
        })],
    };
    let c = global_collect(&m);
    assert_eq!(c.exports.len(), 0);
    assert_eq!(export_alias(&c, "x", 0), None);
}

#[test]
fn export_default_and_namespace_specifiers() {
    let m = Module {
        body: vec![ModuleItem::NamedExport(NamedExport {
            specifiers: vec![
                ExportSpecifier::Default { exported: ident("d", 1, 8) },
                ExportSpecifier::Namespace { name: ModuleExportName::Ident(ident("ns", 1, 20)) },
                ExportSpecifier::Namespace { name: ModuleExportName::Str("str".to_string()) },
            ],
            src: None,
        })],
    };
    let c = global_collect(&m);
    assert_eq!(export_alias(&c, "d", 1), Some(Some("default".to_string())));
    assert_eq!(export_alias(&c, "ns", 1), Some(Some("*".to_string())));
    assert_eq!(c.exports.len(), 2);
}

#[test]
fn first_export_registration_wins() {
    let mut c = global_collect(&Module { body: vec![] });
    assert!(c.add_export(id("a", 1), Some("first".to_string())));
    assert!(!c.add_export(id("a", 1), Some("second".to_string())));
    assert!(c.add_export(id("a", 2), None));
    assert_eq!(export_alias(&c, "a", 1), Some(Some("first".to_string())));
    assert_eq!(export_alias(&c, "a", 2), Some(None));
}

#[test]
fn same_name_in_distinct_scopes_never_collides() {
    // function f(){}  const f = 1 (in another scope), and two imports named x
    let m = Module {
        body: vec![
            ModuleItem::Decl(Decl::Fn { ident: ident("f", 1, 10), body: vec![] }),
            ModuleItem::Decl(Decl::Var(vec![VarDeclarator { name: Pat::Ident(ident("f", 2, 30)), init: None }])),
            import_named(ident("x", 1, 50), None, "./a", sp(41, 70)),
            import_named(ident("x", 2, 80), None, "./b", sp(71, 100)),
            ModuleItem::ExportDecl(Decl::Class { ident: ident("C", 1, 110), body: vec![] }),
            ModuleItem::ExportDecl(Decl::Class { ident: ident("C", 2, 130), body: vec![] }),
        ],
    };
    let c = global_collect(&m);
    assert_eq!(c.root.len(), 2);
    assert_eq!(c.root.get(&id("f", 1)).copied(), Some(sp(10, 11)));
    assert_eq!(c.root.get(&id("f", 2)).copied(), Some(sp(30, 31)));
    assert_eq!(c.imports.len(), 2);
    assert_eq!(c.imports.get(&id("x", 1)).unwrap().source, "./a");
    assert_eq!(c.imports.get(&id("x", 2)).unwrap().source, "./b");
    assert_eq!(c.exports.len(), 2);
}

#[test]
fn every_import_specifier_has_one_entry_and_reverse_lookup() {
    // import def, {a as b, c} from "m"; import * as ns from "n"
    let m = Module {
        body: vec![
            ModuleItem::Import(ImportDecl {
                specifiers: vec![
                    ImportSpecifier::Default { local: ident("def", 1, 8) },
                    ImportSpecifier::Named { local: ident("b", 1, 19), imported: Some("a".to_string()) },
                    ImportSpecifier::Named { local: ident("c", 1, 22), imported: None },
                ],
                src: "m".to_string(),
                asserts: None,
                span: sp(1, 35),
            }),
            ModuleItem::Import(ImportDecl {
                specifiers: vec![ImportSpecifier::Namespace { local: ident("ns", 1, 48) }],
                src: "n".to_string(),
                asserts: None,
                span: sp(36, 58),
            }),
        ],
    };
    let c = global_collect(&m);
    assert_eq!(c.imports.len(), 4);
    let checks = [("def", "default", "m", ImportKind::Default), ("b", "a", "m", ImportKind::Named), ("c", "c", "m", ImportKind::Named), ("ns", "*", "n", ImportKind::All)];
    for (local, specifier, source, kind) in checks {
        let imp = c.imports.get(&id(local, 1)).unwrap();
        assert_eq!(imp.specifier, specifier);
        assert_eq!(imp.source, source);
        assert!(imp.kind == kind);
        assert!(!imp.synthetic);
        let back = c.rev_import(&specifier.to_string(), &source.to_string()).unwrap();
        assert_eq!(back.sym, local);
        assert_eq!(back.ctxt, 1);
    }
    assert!(c.synthetic.is_empty());
    assert!(c.rev_import(&"zzz".to_string(), &"m".to_string()).is_none());
}

#[test]
fn synthetic_import_is_listed_and_reachable_by_reverse_index() {
    let mut c = global_collect(&Module { body: vec![] });
    c.add_import(
        id("_jsx", 7),
        Import {
            source: "react/jsx-runtime".to_string(),
            specifier: "jsx".to_string(),
            kind: ImportKind::Named,
            synthetic: true,
            asserts: None,
            span: sp(1, 1),
        },
    );
    assert_eq!(c.synthetic.len(), 1);
    assert_eq!(c.synthetic[0].0.sym, "_jsx");
    assert_eq!(c.synthetic[0].1.specifier, "jsx");
    let back = c.rev_import(&"jsx".to_string(), &"react/jsx-runtime".to_string()).unwrap();
    assert_eq!((back.sym.as_str(), back.ctxt), ("_jsx", 7));
}

#[test]
fn import_asserts_are_copied_verbatim() {
    let m = Module {
        body: vec![ModuleItem::Import(ImportDecl {
            specifiers: vec![ImportSpecifier::Named { local: ident("tag", 1, 9), imported: None }],
            src: "./m".to_string(),
            asserts: Some(vec![AssertProp::KeyValue { key: Some("type".to_string()), value: Some("macro".to_string()) }]),
            span: sp(1, 45),
        })],
    };
    let c = global_collect(&m);
    let imp = c.imports.get(&id("tag", 1)).unwrap();
    match &imp.asserts {
        Some(props) => match &props[0] {
            AssertProp::KeyValue { key, value } => {
                assert_eq!(key.as_deref(), Some("type"));
                assert_eq!(value.as_deref(), Some("macro"));
            }
            AssertProp::Other => panic!("entry changed shape"),
        },
        None => panic!("asserts dropped"),
    }
    assert_eq!(imp.span, sp(1, 45));
}

#[test]
fn top_level_declarations_become_roots() {
    // function f(){} class K{} enum E{} let [a, , ...r] = x; const {p, q: {s}, ...rest} = y;
    let m = Module {
        body: vec![
            ModuleItem::Decl(Decl::Fn { ident: ident("f", 1, 10), body: vec![] }),
            ModuleItem::Decl(Decl::Class { ident: ident("K", 1, 21), body: vec![] }),
            ModuleItem::Decl(Decl::Enum { ident: ident("E", 1, 30), body: vec![] }),
            ModuleItem::Decl(Decl::Var(vec![VarDeclarator {
                name: Pat::Array(vec![Some(Pat::Ident(ident("a", 1, 40))), None, Some(Pat::Rest(Box::new(Pat::Ident(ident("r", 1, 48)))))]),
                init: None,
            }])),
            ModuleItem::Decl(Decl::Var(vec![VarDeclarator {
                name: Pat::Object(vec![
                    ObjectPatProp::Assign(ident("p", 1, 60)),
                    ObjectPatProp::KeyValue(Pat::Object(vec![ObjectPatProp::Assign(ident("s", 1, 67))])),
                    ObjectPatProp::Rest(Pat::Ident(ident("rest", 1, 74))),
                ]),
                init: None,
            }])),
            ModuleItem::ExportDecl(Decl::Fn { ident: ident("g", 1, 100), body: vec![] }),
            ModuleItem::Decl(Decl::Other(vec![])),
        ],
    };
    let c = global_collect(&m);
    let names: Vec<&str> = c.root.entries.iter().map(|e| e.0.sym.as_str()).collect();
    assert_eq!(names, vec!["f", "K", "E", "a", "r", "p", "s", "rest"]);
    assert_eq!(c.root.get(&id("r", 1)).copied(), Some(sp(48, 49)));
    assert!(c.root.get(&id("g", 1)).is_none());
    assert_eq!(export_alias(&c, "g", 1), Some(None));
}

#[test]
fn exported_variables_register_every_bound_identifier() {
    // export const {a, b: [c, ...d], ...e} = init, f = 2;
    let m = Module {
        body: vec![ModuleItem::ExportDecl(Decl::Var(vec![
            VarDeclarator {
                name: Pat::Object(vec![
                    ObjectPatProp::Assign(ident("a", 1, 15)),
                    ObjectPatProp::KeyValue(Pat::Array(vec![
                        Some(Pat::Ident(ident("c", 1, 22))),
                        Some(Pat::Rest(Box::new(Pat::Ident(ident("d", 1, 28))))),
                    ])),
                    ObjectPatProp::Rest(Pat::Ident(ident("e", 1, 35))),
                ]),
                init: None,
            },
            VarDeclarator { name: Pat::Assign(Box::new(Pat::Ident(ident("f", 1, 45)))), init: None },
        ]))],
    };
    let c = global_collect(&m);
    let names: Vec<&str> = c.exports.entries.iter().map(|e| e.0.sym.as_str()).collect();
    assert_eq!(names, vec!["a", "c", "d", "e", "f"]);
    assert!(c.exports.entries.iter().all(|e| e.1.is_none()));
    assert_eq!(c.root.len(), 0);
}

#[test]
fn pattern_identifier_is_bare() {
    let mut out = Vec::new();
    assert!(collect_from_pat(&Pat::Ident(ident("x", 3, 1)), &mut out));
    assert_eq!(out.len(), 1);
    assert_eq!((out[0].0.sym.as_str(), out[0].0.ctxt, out[0].1), ("x", 3, sp(1, 2)));
}

#[test]
fn pattern_array_skips_holes() {
    let mut out = Vec::new();
    let p = Pat::Array(vec![None, Some(Pat::Ident(ident("a", 1, 5))), None, Some(Pat::Ident(ident("b", 1, 9)))]);
    assert!(!collect_from_pat(&p, &mut out));
    let names: Vec<&str> = out.iter().map(|b| b.0.sym.as_str()).collect();
    assert_eq!(names, vec!["a", "b"]);
}

#[test]
fn pattern_rest_and_default_do_not_expand_nested_shapes() {
    let mut out = Vec::new();
    let nested = Pat::Rest(Box::new(Pat::Array(vec![Some(Pat::Ident(ident("hidden", 1, 5)))])));
    assert!(!collect_from_pat(&nested, &mut out));
    let nested_default = Pat::Assign(Box::new(Pat::Object(vec![ObjectPatProp::Assign(ident("hidden2", 1, 5))])));
    assert!(!collect_from_pat(&nested_default, &mut out));
    assert!(out.is_empty());
    assert!(!collect_from_pat(&Pat::Assign(Box::new(Pat::Ident(ident("x", 1, 1)))), &mut out));
    assert!(!collect_from_pat(&Pat::Rest(Box::new(Pat::Ident(ident("y", 1, 4)))), &mut out));
    let names: Vec<&str> = out.iter().map(|b| b.0.sym.as_str()).collect();
    assert_eq!(names, vec!["x", "y"]);
}

#[test]
fn pattern_object_rules_and_other_shapes() {
    let mut out = Vec::new();
    let p = Pat::Object(vec![
        ObjectPatProp::Assign(ident("k", 1, 2)),
        ObjectPatProp::KeyValue(Pat::Array(vec![Some(Pat::Ident(ident("v", 1, 10)))])),
        ObjectPatProp::Rest(Pat::Ident(ident("r", 1, 20))),
        ObjectPatProp::Rest(Pat::Object(vec![ObjectPatProp::Assign(ident("no", 1, 30))])),
    ]);
    assert!(!collect_from_pat(&p, &mut out));
    let names: Vec<&str> = out.iter().map(|b| b.0.sym.as_str()).collect();
    assert_eq!(names, vec!["k", "v", "r"]);
    let before = out.len();
    assert!(!collect_from_pat(&Pat::Other, &mut out));
    assert_eq!(out.len(), before);
}

#[test]
fn export_mode_walks_nested_rest_and_defaults() {
    let mut out = Vec::new();
    let p = Pat::Rest(Box::new(Pat::Array(vec![Some(Pat::Assign(Box::new(Pat::Ident(ident("deep", 1, 5)))))])));
    collect_exports_from_pat(&p, &mut out);
    assert_eq!(out.len(), 1);
    assert_eq!(out[0].sym, "deep");
}

#[test]
fn later_root_and_import_records_replace_earlier_ones() {
    let m = Module {
        body: vec![
            ModuleItem::Decl(Decl::Fn { ident: ident("f", 1, 10), body: vec![] }),
            ModuleItem::Decl(Decl::Fn { ident: ident("f", 1, 40), body: vec![] }),
            import_named(ident("x", 1, 60), None, "./a", sp(51, 70)),
            import_named(ident("x", 1, 80), Some("y"), "./b", sp(71, 90)),
        ],
    };
    let c = global_collect(&m);
    assert_eq!(c.root.len(), 1);
    assert_eq!(c.root.get(&id("f", 1)).copied(), Some(sp(40, 41)));
    assert_eq!(c.imports.len(), 1);
    let imp = c.imports.get(&id("x", 1)).unwrap();
    assert_eq!((imp.specifier.as_str(), imp.source.as_str()), ("y", "./b"));
    let first = c.rev_import(&"x".to_string(), &"./a".to_string()).unwrap();
    assert_eq!(first.sym, "x");
}

#[test]
fn exported_twice_keeps_first_alias() {
    let m = Module {
        body: vec![
            ModuleItem::ExportDefaultDecl(DefaultDecl::Fn { ident: Some(ident("foo", 1, 25)), body: vec![] }),
            ModuleItem::NamedExport(NamedExport {
                specifiers: vec![ExportSpecifier::Named {
                    orig: ModuleExportName::Ident(ident("foo", 1, 40)),
                    exported: Some(ModuleExportName::Ident(ident("bar", 0, 47))),
                }],
                src: None,
            }),
        ],
    };
    let c = global_collect(&m);
    assert_eq!(export_alias(&c, "foo", 1), Some(Some("default".to_string())));
}
