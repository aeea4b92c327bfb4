use vstd::prelude::*;
use crate::pattern::{
    bindings_view, collect_exports_from_pat, collect_from_pat, ids_view, pat_bindings, pat_exports,
};
use crate::syntax::{
    AssertProp, Decl, DefaultDecl, ExportSpecifier, Id, ImportDecl, ImportSpecifier, Module,
    ModuleExportName, ModuleItem, NamedExport, Span,
};
use crate::table::{
    assoc_insert, assoc_insert_vacant, has_key, lemma_map_vals_insert, map_vals, IdTable, RevTable,
};

verus! {

broadcast use vstd::string::to_string_from_display_ensures_for_str;

#[derive(PartialEq, Eq, Structural, Clone, Copy, Debug)]
pub enum ImportKind {
    Named,
    All,
    Default,
}

/// What an assertion entry says: `None` for an entry of another shape, else
/// its identifier key and its string value where it has them.
pub type AssertView = Option<(Option<Seq<char>>, Option<Seq<char>>)>;

pub open spec fn opt_str_view(o: Option<String>) -> Option<Seq<char>> {
    match o {
        Some(s) => Some(s@),
        None => None,
    }
}

pub open spec fn assert_prop_view(p: AssertProp) -> AssertView {
    match p {
        AssertProp::KeyValue { key, value } => Some((opt_str_view(key), opt_str_view(value))),
        AssertProp::Other => None,
    }
}

pub open spec fn asserts_view(a: Option<Vec<AssertProp>>) -> Option<Seq<AssertView>> {
    match a {
        Some(v) => Some(v@.map_values(|p: AssertProp| assert_prop_view(p))),
        None => None,
    }
}

pub fn copy_opt_str(o: &Option<String>) -> (r: Option<String>)
    ensures
        opt_str_view(r) == opt_str_view(*o),
{
    match o {
        Some(s) => Some(s.clone()),
        None => None,
    }
}

fn copy_asserts(a: &Option<Vec<AssertProp>>) -> (r: Option<Vec<AssertProp>>)
    ensures
        asserts_view(r) == asserts_view(*a),
{
    match a {
        None => None,
        Some(v) => {
            let mut out: Vec<AssertProp> = Vec::new();
            let mut i: usize = 0;
            while i < v.len()
                invariant
                    0 <= i <= v.len(),
                    out@.len() == i,
                    forall|j: int| 0 <= j < i ==> assert_prop_view(#[trigger] out@[j]) == assert_prop_view(v@[j]),
                decreases v.len() - i,
            {
                let p = match &v[i] {
                    AssertProp::KeyValue { key, value } => AssertProp::KeyValue {
                        key: copy_opt_str(key),
                        value: copy_opt_str(value),
                    },
                    AssertProp::Other => AssertProp::Other,
                };
                out.push(p);
                i = i + 1;
            }
            assert(asserts_view(Some(out)) =~~= asserts_view(*a));
            Some(out)
        },
    }
}

/// An import record, keyed in the import table by the local identity.
#[derive(Debug)]
pub struct Import {
    pub source: String,
    /// The imported name: `"default"` for a default import, `"*"` for a
    /// namespace import.
    pub specifier: String,
    pub kind: ImportKind,
    /// Registered by a collaborator rather than found in the source.
    pub synthetic: bool,
    pub asserts: Option<Vec<AssertProp>>,
    /// The span of the whole import declaration.
    pub span: Span,
}

pub type ImportView = (Seq<char>, Seq<char>, ImportKind, bool, Option<Seq<AssertView>>, Span);

impl View for Import {
    type V = ImportView;

    open spec fn view(&self) -> ImportView {
        (self.source@, self.specifier@, self.kind, self.synthetic, asserts_view(self.asserts), self.span)
    }
}

impl Import {
    pub fn duplicate(&self) -> (r: Import)
        ensures
            r@ == self@,
    {
        Import {
            source: self.source.clone(),
            specifier: self.specifier.clone(),
            kind: self.kind,
            synthetic: self.synthetic,
            asserts: copy_asserts(&self.asserts),
            span: self.span,
        }
    }
}

/// One update of the global tables.
pub enum CollectOp {
    Root((Seq<char>, u32), Span),
    Import((Seq<char>, u32), ImportView),
    Export((Seq<char>, u32), Option<Seq<char>>),
}

/// The global tables as mathematical lists, in insertion order.
pub struct CollectView {
    pub imports: Seq<((Seq<char>, u32), ImportView)>,
    pub exports: Seq<((Seq<char>, u32), Option<Seq<char>>)>,
    pub root: Seq<((Seq<char>, u32), Span)>,
    pub rev: Seq<((Seq<char>, Seq<char>), (Seq<char>, u32))>,
    pub synthetic: Seq<((Seq<char>, u32), ImportView)>,
}

pub open spec fn empty_view() -> CollectView {
    CollectView {
        imports: Seq::empty(),
        exports: Seq::empty(),
        root: Seq::empty(),
        rev: Seq::empty(),
        synthetic: Seq::empty(),
    }
}

pub open spec fn apply_op(st: CollectView, op: CollectOp) -> CollectView {
    match op {
        CollectOp::Root(k, sp) => CollectView { root: assoc_insert(st.root, k, sp), ..st },
        CollectOp::Import(k, iv) => CollectView {
            imports: assoc_insert(st.imports, k, iv),
            rev: assoc_insert(st.rev, (iv.1, iv.0), k),
            synthetic: if iv.3 {
                st.synthetic.push((k, iv))
            } else {
                st.synthetic
            },
            ..st
        },
        CollectOp::Export(k, a) => CollectView { exports: assoc_insert_vacant(st.exports, k, a), ..st },
    }
}

pub open spec fn apply_ops(st: CollectView, ops: Seq<CollectOp>) -> CollectView
    decreases ops.len(),
{
    if ops.len() == 0 {
        st
    } else {
        apply_op(apply_ops(st, ops.drop_last()), ops.last())
    }
}

pub open spec fn concat_ops(s: Seq<Seq<CollectOp>>) -> Seq<CollectOp>
    decreases s.len(),
{
    if s.len() == 0 {
        Seq::empty()
    } else {
        concat_ops(s.drop_last()) + s.last()
    }
}

pub proof fn lemma_apply_ops_append(st: CollectView, a: Seq<CollectOp>, b: Seq<CollectOp>)
    ensures
        apply_ops(st, a + b) == apply_ops(apply_ops(st, a), b),
    decreases b.len(),
{
    if b.len() == 0 {
        assert(a + b =~= a);
    } else {
        assert((a + b).drop_last() =~= a + b.drop_last());
        lemma_apply_ops_append(st, a, b.drop_last());
    }
}

proof fn lemma_small(st: CollectView)
    ensures
        apply_ops(st, Seq::empty()) == st,
        forall|op: CollectOp| #[trigger] apply_ops(st, seq![op]) == apply_op(st, op),
{
    assert forall|op: CollectOp| #[trigger] apply_ops(st, seq![op]) == apply_op(st, op) by {
        assert(seq![op].drop_last() =~= Seq::<CollectOp>::empty());
        assert(apply_ops(st, Seq::<CollectOp>::empty()) == st);
        assert(seq![op].last() == op);
    }
}

proof fn lemma_push_step(st: CollectView, ops: Seq<CollectOp>, j: int)
    requires
        0 <= j < ops.len(),
    ensures
        apply_ops(st, ops.take(j + 1)) == apply_op(apply_ops(st, ops.take(j)), ops[j]),
{
    assert(ops.take(j + 1).drop_last() =~= ops.take(j));
}

proof fn lemma_concat_step(st: CollectView, s: Seq<Seq<CollectOp>>, j: int)
    requires
        0 <= j < s.len(),
    ensures
        apply_ops(st, concat_ops(s.take(j + 1))) == apply_ops(apply_ops(st, concat_ops(s.take(j))), s[j]),
{
    assert(s.take(j + 1).drop_last() =~= s.take(j));
    lemma_apply_ops_append(st, concat_ops(s.take(j)), s[j]);
}

pub open spec fn str_default() -> Seq<char> {
    seq!['d', 'e', 'f', 'a', 'u', 'l', 't']
}

pub open spec fn str_star() -> Seq<char> {
    seq!['*']
}

/// The table update of one import specifier of `d`.
pub open spec fn import_spec_op(d: ImportDecl, s: ImportSpecifier) -> CollectOp {
    let av = asserts_view(d.asserts);
    match s {
        ImportSpecifier::Named { local, imported } => CollectOp::Import(
            local.id_view(),
            (
                d.src@,
                match imported {
                    Some(n) => n@,
                    None => local.sym@,
                },
                ImportKind::Named,
                false,
                av,
                d.span,
            ),
        ),
        ImportSpecifier::Default { local } => CollectOp::Import(
            local.id_view(),
            (d.src@, str_default(), ImportKind::Default, false, av, d.span),
        ),
        ImportSpecifier::Namespace { local } => CollectOp::Import(
            local.id_view(),
            (d.src@, str_star(), ImportKind::All, false, av, d.span),
        ),
    }
}

pub open spec fn import_decl_ops(d: ImportDecl) -> Seq<CollectOp> {
    d.specifiers@.map_values(|s: ImportSpecifier| import_spec_op(d, s))
}

pub open spec fn export_spec_ops(s: ExportSpecifier) -> Seq<CollectOp> {
    match s {
        ExportSpecifier::Named { orig, exported } => match orig {
            ModuleExportName::Ident(i) => seq![
                CollectOp::Export(
                    i.id_view(),
                    match exported {
                        Some(ModuleExportName::Ident(e)) => Some(e.sym@),
                        _ => None,
                    },
                ),
            ],
            ModuleExportName::Str(_) => Seq::empty(),
        },
        ExportSpecifier::Default { exported } => seq![CollectOp::Export(exported.id_view(), Some(str_default()))],
        ExportSpecifier::Namespace { name } => match name {
            ModuleExportName::Ident(i) => seq![CollectOp::Export(i.id_view(), Some(str_star()))],
            ModuleExportName::Str(_) => Seq::empty(),
        },
    }
}

/// A re-export from another module binds nothing here.
pub open spec fn named_export_ops(ne: NamedExport) -> Seq<CollectOp> {
    if ne.src is Some {
        Seq::empty()
    } else {
        concat_ops(ne.specifiers@.map_values(|s: ExportSpecifier| export_spec_ops(s)))
    }
}

pub open spec fn root_ops(bs: Seq<((Seq<char>, u32), Span)>) -> Seq<CollectOp> {
    bs.map_values(|b: ((Seq<char>, u32), Span)| CollectOp::Root(b.0, b.1))
}

pub open spec fn export_ops(ids: Seq<(Seq<char>, u32)>) -> Seq<CollectOp> {
    ids.map_values(|k: (Seq<char>, u32)| CollectOp::Export(k, None))
}

/// Root-table updates of a top-level declaration statement.
pub open spec fn decl_root_ops(d: Decl) -> Seq<CollectOp> {
    match d {
        Decl::Fn { ident, .. } => seq![CollectOp::Root(ident.id_view(), ident.span)],
        Decl::Class { ident, .. } => seq![CollectOp::Root(ident.id_view(), ident.span)],
        Decl::Enum { ident, .. } => seq![CollectOp::Root(ident.id_view(), ident.span)],
        Decl::Var(decls) => concat_ops(decls@.map_values(|v: crate::syntax::VarDeclarator| root_ops(pat_bindings(v.name)))),
        Decl::Other(_) => Seq::empty(),
    }
}

/// Export-table updates of `export <declaration>`.
pub open spec fn decl_export_ops(d: Decl) -> Seq<CollectOp> {
    match d {
        Decl::Fn { ident, .. } => seq![CollectOp::Export(ident.id_view(), None)],
        Decl::Class { ident, .. } => seq![CollectOp::Export(ident.id_view(), None)],
        Decl::Enum { ident, .. } => seq![CollectOp::Export(ident.id_view(), None)],
        Decl::Var(decls) => concat_ops(decls@.map_values(|v: crate::syntax::VarDeclarator| export_ops(pat_exports(v.name)))),
        Decl::Other(_) => Seq::empty(),
    }
}

pub open spec fn default_decl_ops(d: DefaultDecl) -> Seq<CollectOp> {
    match d {
        DefaultDecl::Class { ident, .. } => match ident {
            Some(i) => seq![CollectOp::Export(i.id_view(), Some(str_default()))],
            None => Seq::empty(),
        },
        DefaultDecl::Fn { ident, .. } => match ident {
            Some(i) => seq![CollectOp::Export(i.id_view(), Some(str_default()))],
            None => Seq::empty(),
        },
    }
}

pub open spec fn item_ops(it: ModuleItem) -> Seq<CollectOp> {
    match it {
        ModuleItem::Decl(d) => decl_root_ops(d),
        ModuleItem::Stmt(_) => Seq::empty(),
        ModuleItem::Import(d) => import_decl_ops(d),
        ModuleItem::NamedExport(ne) => named_export_ops(ne),
        ModuleItem::ExportDecl(d) => decl_export_ops(d),
        ModuleItem::ExportDefaultDecl(d) => default_decl_ops(d),
        ModuleItem::ExportDefaultExpr(_) => Seq::empty(),
    }
}

pub open spec fn module_ops(m: Module) -> Seq<CollectOp> {
    concat_ops(m.body@.map_values(|it: ModuleItem| item_ops(it)))
}

/// The tables that collecting `m` builds.
pub open spec fn collected(m: Module) -> CollectView {
    apply_ops(empty_view(), module_ops(m))
}

/// The global tables of a module.
pub struct GlobalCollect {
    pub synthetic: Vec<(Id, Import)>,
    pub imports: IdTable<Import>,
    pub exports: IdTable<Option<String>>,
    pub root: IdTable<Span>,
    pub rev_imports: RevTable,
}

impl GlobalCollect {
    pub open spec fn view(&self) -> CollectView {
        CollectView {
            imports: map_vals(self.imports.view(), |i: Import| i@),
            exports: map_vals(self.exports.view(), |o: Option<String>| opt_str_view(o)),
            root: self.root.view(),
            rev: self.rev_imports.view(),
            synthetic: self.synthetic@.map_values(|e: (Id, Import)| (e.0@, e.1@)),
        }
    }

    pub open spec fn wf(&self) -> bool {
        self.imports.wf() && self.exports.wf() && self.root.wf() && self.rev_imports.wf()
    }

    pub fn new() -> (r: GlobalCollect)
        ensures
            r.wf(),
            r.view() == empty_view(),
    {
        let r = GlobalCollect {
            synthetic: Vec::new(),
            imports: IdTable::new(),
            exports: IdTable::new(),
            root: IdTable::new(),
            rev_imports: RevTable::new(),
        };
        assert(r.view().imports =~= Seq::empty());
        assert(r.view().exports =~= Seq::empty());
        assert(r.view().synthetic =~= Seq::empty());
        r
    }

    /// The local identity imported as `specifier` from `source`, if any.
    pub fn rev_import(&self, specifier: &String, source: &String) -> (r: Option<Id>)
        requires
            self.wf(),
        ensures
            r matches Some(id) ==> crate::table::assoc_get(self.view().rev, (specifier@, source@)) == Some(id@),
            r is None ==> crate::table::assoc_get(self.view().rev, (specifier@, source@)) is None,
    {
        self.rev_imports.get(specifier, source)
    }

    /// Registers `import` under `local`, in the reverse index under its
    /// (specifier, source), and in the synthetic list where it is synthetic.
    pub fn add_import(&mut self, local: Id, import: Import)
        requires
            old(self).wf(),
        ensures
            final(self).wf(),
            final(self).view() == apply_op(old(self).view(), CollectOp::Import(local@, import@)),
    {
        let ghost k = local@;
        let ghost iv = import@;
        proof {
            lemma_map_vals_insert(self.imports.view(), k, import, |i: Import| i@);
        }
        if import.synthetic {
            self.synthetic.push((local.copy(), import.duplicate()));
        }
        self.rev_imports.insert(import.specifier.clone(), import.source.clone(), local.copy());
        self.imports.insert(local, import);
        assert(self.view().synthetic =~= apply_op(old(self).view(), CollectOp::Import(k, iv)).synthetic);
    }

    /// Registers `local` as exported under `exported` unless it already is;
    /// tells whether it registered.
    pub fn add_export(&mut self, local: Id, exported: Option<String>) -> (r: bool)
        requires
            old(self).wf(),
        ensures
            final(self).wf(),
            final(self).view() == apply_op(old(self).view(), CollectOp::Export(local@, opt_str_view(exported))),
            r == !has_key(old(self).view().exports, local@),
    {
        proof {
            lemma_map_vals_insert(self.exports.view(), local@, exported, |o: Option<String>| opt_str_view(o));
        }
        self.exports.insert_vacant(local, exported)
    }

    fn add_root(&mut self, local: Id, span: Span)
        requires
            old(self).wf(),
        ensures
            final(self).wf(),
            final(self).view() == apply_op(old(self).view(), CollectOp::Root(local@, span)),
    {
        self.root.insert(local, span);
    }
}

fn string_default() -> (r: String)
    ensures
        r@ == str_default(),
{
    let r = "default".to_string();
    proof {
        reveal_strlit("default");
    }
    r
}

fn string_star() -> (r: String)
    ensures
        r@ == str_star(),
{
    let r = "*".to_string();
    proof {
        reveal_strlit("*");
    }
    r
}

impl GlobalCollect {
    fn visit_import_decl(&mut self, node: &ImportDecl)
        requires
            old(self).wf(),
        ensures
            final(self).wf(),
            final(self).view() == apply_ops(old(self).view(), import_decl_ops(*node)),
    {
        let ghost start = self.view();
        let ghost ops = import_decl_ops(*node);
        let mut k: usize = 0;
        while k < node.specifiers.len()
            invariant
                0 <= k <= node.specifiers.len(),
                ops == import_decl_ops(*node),
                ops.len() == node.specifiers@.len(),
                self.wf(),
                self.view() == apply_ops(start, ops.take(k as int)),
            decreases node.specifiers.len() - k,
        {
            proof {
                lemma_push_step(start, ops, k as int);
            }
            match &node.specifiers[k] {
                ImportSpecifier::Named { local, imported } => {
                    let specifier = match imported {
                        Some(name) => name.clone(),
                        None => local.sym.clone(),
                    };
                    self.add_import(
                        local.to_id(),
                        Import {
                            source: node.src.clone(),
                            specifier,
                            kind: ImportKind::Named,
                            synthetic: false,
                            asserts: copy_asserts(&node.asserts),
                            span: node.span,
                        },
                    );
                },
                ImportSpecifier::Default { local } => {
                    self.add_import(
                        local.to_id(),
                        Import {
                            source: node.src.clone(),
                            specifier: string_default(),
                            kind: ImportKind::Default,
                            synthetic: false,
                            asserts: copy_asserts(&node.asserts),
                            span: node.span,
                        },
                    );
                },
                ImportSpecifier::Namespace { local } => {
                    self.add_import(
                        local.to_id(),
                        Import {
                            source: node.src.clone(),
                            specifier: string_star(),
                            kind: ImportKind::All,
                            synthetic: false,
                            asserts: copy_asserts(&node.asserts),
                            span: node.span,
                        },
                    );
                },
            }
            k = k + 1;
        }
        assert(ops.take(ops.len() as int) =~= ops);
    }

    fn add_export_specifier(&mut self, spec: &ExportSpecifier)
        requires
            old(self).wf(),
        ensures
            final(self).wf(),
            final(self).view() == apply_ops(old(self).view(), export_spec_ops(*spec)),
    {
        let ghost start = self.view();
        proof {
            lemma_small(start);
        }
        match spec {
            ExportSpecifier::Named { orig, exported } => {
                if let ModuleExportName::Ident(ident) = orig {
                    let alias = match exported {
                        Some(ModuleExportName::Ident(e)) => Some(e.sym.clone()),
                        _ => None,
                    };
                    self.add_export(ident.to_id(), alias);
                }
            },
            ExportSpecifier::Default { exported } => {
                self.add_export(exported.to_id(), Some(string_default()));
            },
            ExportSpecifier::Namespace { name } => {
                if let ModuleExportName::Ident(ident) = name {
                    self.add_export(ident.to_id(), Some(string_star()));
                }
            },
        }
    }

    fn visit_named_export(&mut self, node: &NamedExport)
        requires
            old(self).wf(),
        ensures
            final(self).wf(),
            final(self).view() == apply_ops(old(self).view(), named_export_ops(*node)),
    {
        if node.src.is_some() {
            return;
        }
        let ghost start = self.view();
        let ghost groups = node.specifiers@.map_values(|s: ExportSpecifier| export_spec_ops(s));
        let mut k: usize = 0;
        while k < node.specifiers.len()
            invariant
                0 <= k <= node.specifiers.len(),
                groups == node.specifiers@.map_values(|s: ExportSpecifier| export_spec_ops(s)),
                self.wf(),
                self.view() == apply_ops(start, concat_ops(groups.take(k as int))),
            decreases node.specifiers.len() - k,
        {
            proof {
                lemma_concat_step(start, groups, k as int);
            }
            self.add_export_specifier(&node.specifiers[k]);
            k = k + 1;
        }
        assert(groups.take(groups.len() as int) =~= groups);
    }

    fn add_roots_of_pat(&mut self, pat: &crate::syntax::Pat)
        requires
            old(self).wf(),
        ensures
            final(self).wf(),
            final(self).view() == apply_ops(old(self).view(), root_ops(pat_bindings(*pat))),
    {
        let ghost start = self.view();
        let mut found: Vec<(Id, Span)> = Vec::new();
        collect_from_pat(pat, &mut found);
        assert(bindings_view(found@) =~= pat_bindings(*pat));
        let ghost ops = root_ops(pat_bindings(*pat));
        let mut k: usize = 0;
        while k < found.len()
            invariant
                0 <= k <= found.len(),
                ops == root_ops(bindings_view(found@)),
                ops.len() == found@.len(),
                self.wf(),
                self.view() == apply_ops(start, ops.take(k as int)),
            decreases found.len() - k,
        {
            proof {
                lemma_push_step(start, ops, k as int);
            }
            let local = found[k].0.copy();
            self.add_root(local, found[k].1);
            k = k + 1;
        }
        assert(ops.take(ops.len() as int) =~= ops);
    }

    fn add_exports_of_pat(&mut self, pat: &crate::syntax::Pat)
        requires
            old(self).wf(),
        ensures
            final(self).wf(),
            final(self).view() == apply_ops(old(self).view(), export_ops(pat_exports(*pat))),
    {
        let ghost start = self.view();
        let mut found: Vec<Id> = Vec::new();
        collect_exports_from_pat(pat, &mut found);
        assert(ids_view(found@) =~= pat_exports(*pat));
        let ghost ops = export_ops(pat_exports(*pat));
        let mut k: usize = 0;
        while k < found.len()
            invariant
                0 <= k <= found.len(),
                ops == export_ops(ids_view(found@)),
                ops.len() == found@.len(),
                self.wf(),
                self.view() == apply_ops(start, ops.take(k as int)),
            decreases found.len() - k,
        {
            proof {
                lemma_push_step(start, ops, k as int);
            }
            let local = found[k].copy();
            self.add_export(local, None);
            k = k + 1;
        }
        assert(ops.take(ops.len() as int) =~= ops);
    }

    /// Registers the bindings of a top-level declaration statement as roots.
    fn add_root_decl(&mut self, decl: &Decl)
        requires
            old(self).wf(),
        ensures
            final(self).wf(),
            final(self).view() == apply_ops(old(self).view(), decl_root_ops(*decl)),
    {
        let ghost start = self.view();
        proof {
            lemma_small(start);
        }
        match decl {
            Decl::Fn { ident, .. } => self.add_root(ident.to_id(), ident.span),
            Decl::Class { ident, .. } => self.add_root(ident.to_id(), ident.span),
            Decl::Enum { ident, .. } => self.add_root(ident.to_id(), ident.span),
            Decl::Var(decls) => {
                let ghost groups = decls@.map_values(|v: crate::syntax::VarDeclarator| root_ops(pat_bindings(v.name)));
                let mut k: usize = 0;
                while k < decls.len()
                    invariant
                        0 <= k <= decls.len(),
                        groups == decls@.map_values(|v: crate::syntax::VarDeclarator| root_ops(pat_bindings(v.name))),
                        self.wf(),
                        self.view() == apply_ops(start, concat_ops(groups.take(k as int))),
                    decreases decls.len() - k,
                {
                    proof {
                        lemma_concat_step(start, groups, k as int);
                    }
                    self.add_roots_of_pat(&decls[k].name);
                    k = k + 1;
                }
                assert(groups.take(groups.len() as int) =~= groups);
            },
            Decl::Other(_) => {},
        }
    }

    /// Registers what `export <declaration>` exports, under its own name.
    fn visit_export_decl(&mut self, decl: &Decl)
        requires
            old(self).wf(),
        ensures
            final(self).wf(),
            final(self).view() == apply_ops(old(self).view(), decl_export_ops(*decl)),
    {
        let ghost start = self.view();
        proof {
            lemma_small(start);
        }
        match decl {
            Decl::Fn { ident, .. } => {
                self.add_export(ident.to_id(), None);
            },
            Decl::Class { ident, .. } => {
                self.add_export(ident.to_id(), None);
            },
            Decl::Enum { ident, .. } => {
                self.add_export(ident.to_id(), None);
            },
            Decl::Var(decls) => {
                let ghost groups = decls@.map_values(|v: crate::syntax::VarDeclarator| export_ops(pat_exports(v.name)));
                let mut k: usize = 0;
                while k < decls.len()
                    invariant
                        0 <= k <= decls.len(),
                        groups == decls@.map_values(|v: crate::syntax::VarDeclarator| export_ops(pat_exports(v.name))),
                        self.wf(),
                        self.view() == apply_ops(start, concat_ops(groups.take(k as int))),
                    decreases decls.len() - k,
                {
                    proof {
                        lemma_concat_step(start, groups, k as int);
                    }
                    self.add_exports_of_pat(&decls[k].name);
                    k = k + 1;
                }
                assert(groups.take(groups.len() as int) =~= groups);
            },
            Decl::Other(_) => {},
        }
    }

    fn visit_export_default_decl(&mut self, decl: &DefaultDecl)
        requires
            old(self).wf(),
        ensures
            final(self).wf(),
            final(self).view() == apply_ops(old(self).view(), default_decl_ops(*decl)),
    {
        let ghost start = self.view();
        proof {
            lemma_small(start);
        }
        let ident = match decl {
            DefaultDecl::Class { ident, .. } => ident,
            DefaultDecl::Fn { ident, .. } => ident,
        };
        if let Some(i) = ident {
            self.add_export(i.to_id(), Some(string_default()));
        }
    }

    fn visit_module_item(&mut self, item: &ModuleItem)
        requires
            old(self).wf(),
        ensures
            final(self).wf(),
            final(self).view() == apply_ops(old(self).view(), item_ops(*item)),
    {
        match item {
            ModuleItem::Decl(decl) => self.add_root_decl(decl),
            ModuleItem::Import(node) => self.visit_import_decl(node),
            ModuleItem::NamedExport(node) => self.visit_named_export(node),
            ModuleItem::ExportDecl(decl) => self.visit_export_decl(decl),
            ModuleItem::ExportDefaultDecl(decl) => self.visit_export_default_decl(decl),
            ModuleItem::Stmt(_) => {},
            ModuleItem::ExportDefaultExpr(_) => {},
        }
    }
}

/// Builds the import, export and root tables of `module` in one pass.
pub fn global_collect(module: &Module) -> (r: GlobalCollect)
    ensures
        r.wf(),
        r.view() == collected(*module),
{
    let mut collect = GlobalCollect::new();
    let ghost groups = module.body@.map_values(|it: ModuleItem| item_ops(it));
    let mut k: usize = 0;
    while k < module.body.len()
        invariant
            0 <= k <= module.body.len(),
            groups == module.body@.map_values(|it: ModuleItem| item_ops(it)),
            collect.wf(),
            collect.view() == apply_ops(empty_view(), concat_ops(groups.take(k as int))),
        decreases module.body.len() - k,
    {
        proof {
            lemma_concat_step(empty_view(), groups, k as int);
        }
        collect.visit_module_item(&module.body[k]);
        k = k + 1;
    }
    assert(groups.take(groups.len() as int) =~= groups);
    collect
}

} // verus!
