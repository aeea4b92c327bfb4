use vstd::prelude::*;
use crate::collect::{
    apply_op, apply_ops, concat_ops, item_ops, module_ops, CollectOp, import_decl_ops, import_spec_op,
    export_spec_ops, root_ops, export_ops, collected, global_collect, str_default, CollectView, GlobalCollect, Import, ImportKind, ImportView,
    AssertView,
};
use crate::syntax::{AssertProp, Decl, DefaultDecl, Expr, Id, Module, ModuleItem, Span, VarDeclarator};
use crate::table::map_vals;

verus! {

broadcast use {vstd::std_specs::vec::group_vec_axioms, vstd::string::to_string_from_display_ensures_for_str};

/// What the macro scan hands back: calls to replace and import declarations
/// to remove, as 0-based end-exclusive byte ranges.
pub struct TransformOutput {
    pub replaces: Vec<TransformReplaces>,
    pub removals: Vec<TransformRemovals>,
}

/// A macro call: its range and the import it resolves to.
#[derive(Clone, Debug)]
pub struct TransformReplaces {
    pub lo: u32,
    pub hi: u32,
    pub import_src: String,
    pub import_name: String,
}

/// An import declaration to remove.
#[derive(Clone, Copy, PartialEq, Eq, Structural, Debug)]
pub struct TransformRemovals {
    pub lo: u32,
    pub hi: u32,
}

/// The inputs of a run: the file's path and text, the assertion tag that
/// marks macro imports, and a predicate on (imported name, source) that
/// marks macro imports without an assertion.
pub struct TransformCodeOptions<F: Fn(String, String) -> bool> {
    pub absolute_path: String,
    pub code: String,
    pub assert_type: String,
    pub filter: F,
}

/// A replace instruction as numbers and text: (lo, hi, source, specifier).
pub type ReplaceView = (int, int, Seq<char>, Seq<char>);

pub open spec fn replace_view(r: TransformReplaces) -> ReplaceView {
    (r.lo as int, r.hi as int, r.import_src@, r.import_name@)
}

pub open spec fn replaces_view(v: Seq<TransformReplaces>) -> Seq<ReplaceView> {
    v.map_values(|r: TransformReplaces| replace_view(r))
}

/// The 0-based range of a 1-based span.
pub open spec fn removal_of(sp: Span) -> TransformRemovals {
    TransformRemovals { lo: (sp.lo - 1) as u32, hi: (sp.hi - 1) as u32 }
}

pub open spec fn str_type() -> Seq<char> {
    seq!['t', 'y', 'p', 'e']
}

/// The value of the first `type: "<string>"` entry with an identifier key.
pub open spec fn assert_type_of(props: Seq<AssertView>) -> Option<Seq<char>>
    decreases props.len(),
{
    if props.len() == 0 {
        None
    } else {
        match props[0] {
            Some((Some(k), Some(v))) => if k == str_type() {
                Some(v)
            } else {
                assert_type_of(props.drop_first())
            },
            _ => assert_type_of(props.drop_first()),
        }
    }
}

pub open spec fn import_assert_type(iv: ImportView) -> Option<Seq<char>> {
    match iv.4 {
        Some(props) => assert_type_of(props),
        None => None,
    }
}

/// The name the predicate is asked about.
pub open spec fn filter_name(iv: ImportView) -> Seq<char> {
    if iv.2 == ImportKind::Default {
        str_default()
    } else {
        iv.1
    }
}

/// An asserted import is a macro exactly when its tag matches; an import
/// without a `type` assertion is one exactly when the predicate said so.
pub open spec fn is_macro(iv: ImportView, tag: Seq<char>, verdict: bool) -> bool {
    match import_assert_type(iv) {
        Some(t) => t == tag,
        None => verdict,
    }
}

/// A macro binding: (identity, source, specifier).
pub type MacroView = ((Seq<char>, u32), Seq<char>, Seq<char>);

/// The macro bindings among the first `n` imports, in table order.
pub open spec fn macro_list(
    s: Seq<((Seq<char>, u32), ImportView)>,
    tag: Seq<char>,
    verdicts: Seq<bool>,
    n: nat,
) -> Seq<MacroView>
    decreases n,
{
    if n == 0 || n > s.len() {
        Seq::empty()
    } else {
        let prev = macro_list(s, tag, verdicts, (n - 1) as nat);
        let e = s[n - 1];
        if is_macro(e.1, tag, verdicts[n - 1]) {
            prev.push((e.0, e.1.0, e.1.1))
        } else {
            prev
        }
    }
}

/// The spans of the import declarations to remove among the first `n`
/// imports: those with a matching assertion, each span once, in order of
/// first appearance.
pub open spec fn removal_list(s: Seq<((Seq<char>, u32), ImportView)>, tag: Seq<char>, n: nat) -> Seq<Span>
    decreases n,
{
    if n == 0 || n > s.len() {
        Seq::empty()
    } else {
        let prev = removal_list(s, tag, (n - 1) as nat);
        let iv = s[n - 1].1;
        if import_assert_type(iv) == Some(tag) && !prev.contains(iv.5) {
            prev.push(iv.5)
        } else {
            prev
        }
    }
}

/// A binding classified as a macro, with the import it came from.
#[derive(Debug)]
pub struct MacroBinding {
    pub id: Id,
    pub source: String,
    pub specifier: String,
}

pub open spec fn macro_view(m: MacroBinding) -> MacroView {
    (m.id@, m.source@, m.specifier@)
}

pub open spec fn macros_view(v: Seq<MacroBinding>) -> Seq<MacroView> {
    v.map_values(|m: MacroBinding| macro_view(m))
}

/// The import tables' view of `t`.
pub open spec fn imports_of(c: GlobalCollect) -> Seq<((Seq<char>, u32), ImportView)> {
    map_vals(c.imports.view(), |i: Import| i@)
}

fn assertion_type(asserts: &Option<Vec<AssertProp>>) -> (r: Option<&String>)
    ensures
        match r {
            Some(s) => match crate::collect::asserts_view(*asserts) {
                Some(p) => assert_type_of(p) == Some(s@),
                None => false,
            },
            None => match crate::collect::asserts_view(*asserts) {
                Some(p) => assert_type_of(p) is None,
                None => true,
            },
        },
{
    match asserts {
        None => None,
        Some(props) => {
            let ghost all = crate::collect::asserts_view(*asserts)->Some_0;
            let mut i: usize = 0;
            assert(all.skip(0) =~= all);
            while i < props.len()
                invariant
                    0 <= i <= props.len(),
                    all == props@.map_values(|p: AssertProp| crate::collect::assert_prop_view(p)),
                    crate::collect::asserts_view(*asserts) == Some(all),
                    assert_type_of(all) == assert_type_of(all.skip(i as int)),
                decreases props.len() - i,
            {
                assert(all.skip(i as int).drop_first() =~= all.skip(i + 1));
                if let AssertProp::KeyValue { key: Some(k), value: Some(v) } = &props[i] {
                    if is_type_key(k) {
                        assert(all[i as int] == crate::collect::assert_prop_view(props@[i as int]));
                        assert(all.skip(i as int)[0] == Some((Some(k@), Some(v@))));
                        assert(assert_type_of(all.skip(i as int)) == Some(v@));
                        assert(crate::collect::asserts_view(*asserts) == Some(all));
                        assert(assert_type_of(all) == Some(v@));
                        return Some(v);
                    }
                }
                i = i + 1;
            }
            assert(all.skip(i as int) =~= Seq::<AssertView>::empty());
            None
        },
    }
}

fn is_type_key(k: &String) -> (r: bool)
    ensures
        r == (k@ == str_type()),
{
    let t = "type".to_string();
    proof {
        reveal_strlit("type");
    }
    assert(t@ == str_type());
    k.eq(&t)
}

/// Picks the macro bindings and the removals out of the import table, given
/// for each import what the predicate said of it (consulted only for
/// imports without a `type` assertion).
pub fn classify_imports(
    imports: &crate::table::IdTable<Import>,
    assert_type: &String,
    verdicts: &Vec<bool>,
) -> (r: (Vec<MacroBinding>, Vec<TransformRemovals>))
    requires
        verdicts@.len() == imports.view().len(),
        forall|i: int| 0 <= i < imports.view().len() ==> (#[trigger] imports.view()[i]).1.span.lo >= 1
            && imports.view()[i].1.span.lo <= imports.view()[i].1.span.hi,
    ensures
        macros_view(r.0@) == macro_list(
            map_vals(imports.view(), |i: Import| i@),
            assert_type@,
            verdicts@,
            imports.view().len() as nat,
        ),
        r.1@ == removal_list(
            map_vals(imports.view(), |i: Import| i@),
            assert_type@,
            imports.view().len() as nat,
        ).map_values(|sp: Span| removal_of(sp)),
{
    let ghost s = map_vals(imports.view(), |i: Import| i@);
    let mut macros: Vec<MacroBinding> = Vec::new();
    let mut spans: Vec<Span> = Vec::new();
    let mut removals: Vec<TransformRemovals> = Vec::new();
    let mut i: usize = 0;
    while i < imports.entries.len()
        invariant
            0 <= i <= imports.entries.len(),
            s == map_vals(imports.view(), |i: Import| i@),
            s.len() == imports.entries@.len(),
            verdicts@.len() == s.len(),
            forall|j: int| 0 <= j < imports.view().len() ==> (#[trigger] imports.view()[j]).1.span.lo >= 1
                && imports.view()[j].1.span.lo <= imports.view()[j].1.span.hi,
            macros_view(macros@) == macro_list(s, assert_type@, verdicts@, i as nat),
            spans@ == removal_list(s, assert_type@, i as nat),
            removals@ == spans@.map_values(|sp: Span| removal_of(sp)),
        decreases imports.entries.len() - i,
    {
        let entry = &imports.entries[i];
        let import = &entry.1;
        assert(s[i as int].1 == import@);
        assert(imports.view()[i as int].1 == *import);
        let tagged = assertion_type(&import.asserts);
        let macro_here = match tagged {
            Some(t) => *t == *assert_type,
            None => verdicts[i],
        };
        if macro_here {
            macros.push(MacroBinding {
                id: entry.0.copy(),
                source: import.source.clone(),
                specifier: import.specifier.clone(),
            });
        }
        assert(macros_view(macros@) =~= macro_list(s, assert_type@, verdicts@, (i + 1) as nat));
        if let Some(t) = tagged {
            if *t == *assert_type {
                let mut seen = false;
                let mut j: usize = 0;
                while j < spans.len()
                    invariant
                        0 <= j <= spans.len(),
                        seen == exists|q: int| 0 <= q < j && spans@[q] == import.span,
                    decreases spans.len() - j,
                {
                    if spans[j] == import.span {
                        seen = true;
                    }
                    j = j + 1;
                }
                if !seen {
                    spans.push(import.span);
                    removals.push(TransformRemovals { lo: import.span.lo - 1, hi: import.span.hi - 1 });
                }
            }
        }
        assert(removals@ =~= spans@.map_values(|sp: Span| removal_of(sp)));
        i = i + 1;
    }
    (macros, removals)
}

/// Source and specifier of the first macro binding with identity `k`.
pub open spec fn macro_lookup(ms: Seq<MacroView>, k: (Seq<char>, u32)) -> Option<(Seq<char>, Seq<char>)>
    decreases ms.len(),
{
    if ms.len() == 0 {
        None
    } else if ms[0].0 == k {
        Some((ms[0].1, ms[0].2))
    } else {
        macro_lookup(ms.drop_first(), k)
    }
}

/// The replace instruction of a call with callee `callee` and span `span`
/// itself: one where the callee is a bare identifier bound to a macro.
pub open spec fn own_replace(callee: Expr, span: Span, ms: Seq<MacroView>) -> Seq<ReplaceView> {
    match callee {
        Expr::Ident(i) => match macro_lookup(ms, i.id_view()) {
            Some((src, name)) => seq![(span.lo - 1, span.hi - 1, src, name)],
            None => Seq::empty(),
        },
        _ => Seq::empty(),
    }
}

/// The replace instructions of `e` in pre-order: a call's own, then those
/// in its callee, then those in its arguments.
pub open spec fn expr_replaces(e: Expr, ms: Seq<MacroView>) -> Seq<ReplaceView>
    decreases e, 1nat, 0nat,
{
    match e {
        Expr::Ident(_) => Seq::empty(),
        Expr::Call { callee, args, span } => own_replace(*callee, span, ms) + expr_replaces(*callee, ms)
            + children_replaces(e, ms, args.len() as nat),
        Expr::Member { obj, .. } => expr_replaces(*obj, ms),
        Expr::Other(children) => children_replaces(e, ms, children.len() as nat),
    }
}

/// The replace instructions of the first `n` arguments or sub-expressions.
pub open spec fn children_replaces(e: Expr, ms: Seq<MacroView>, n: nat) -> Seq<ReplaceView>
    decreases e, 0nat, n,
{
    match e {
        Expr::Call { args, .. } => if n == 0 || n > args.len() {
            Seq::empty()
        } else {
            children_replaces(e, ms, (n - 1) as nat) + expr_replaces(args[n - 1], ms)
        },
        Expr::Other(children) => if n == 0 || n > children.len() {
            Seq::empty()
        } else {
            children_replaces(e, ms, (n - 1) as nat) + expr_replaces(children[n - 1], ms)
        },
        _ => Seq::empty(),
    }
}

/// Every call span in `e` lies within a source of `limit` bytes.
pub open spec fn expr_within(e: Expr, limit: nat) -> bool
    decreases e, 1nat, 0nat,
{
    match e {
        Expr::Ident(_) => true,
        Expr::Call { callee, args, span } => span.within(limit) && expr_within(*callee, limit)
            && children_within(e, limit, args.len() as nat),
        Expr::Member { obj, .. } => expr_within(*obj, limit),
        Expr::Other(children) => children_within(e, limit, children.len() as nat),
    }
}

pub open spec fn children_within(e: Expr, limit: nat, n: nat) -> bool
    decreases e, 0nat, n,
{
    match e {
        Expr::Call { args, .. } => if n == 0 || n > args.len() {
            true
        } else {
            children_within(e, limit, (n - 1) as nat) && expr_within(args[n - 1], limit)
        },
        Expr::Other(children) => if n == 0 || n > children.len() {
            true
        } else {
            children_within(e, limit, (n - 1) as nat) && expr_within(children[n - 1], limit)
        },
        _ => true,
    }
}

pub open spec fn child_count(e: Expr) -> nat {
    match e {
        Expr::Call { args, .. } => args.len() as nat,
        Expr::Other(children) => children.len() as nat,
        _ => 0,
    }
}

proof fn lemma_children_within_prefix(e: Expr, limit: nat, n: nat, m: nat)
    requires
        children_within(e, limit, n),
        n <= child_count(e),
        m <= n,
    ensures
        children_within(e, limit, m),
    decreases n,
{
    if m < n {
        lemma_children_within_prefix(e, limit, (n - 1) as nat, m);
    }
}

/// The replace instructions of the first `n` expressions of `es`.
pub open spec fn exprs_replaces(es: Seq<Expr>, ms: Seq<MacroView>, n: nat) -> Seq<ReplaceView>
    decreases n,
{
    if n == 0 || n > es.len() {
        Seq::empty()
    } else {
        exprs_replaces(es, ms, (n - 1) as nat) + expr_replaces(es[n - 1], ms)
    }
}

pub open spec fn init_replaces(d: VarDeclarator, ms: Seq<MacroView>) -> Seq<ReplaceView> {
    match d.init {
        Some(e) => expr_replaces(e, ms),
        None => Seq::empty(),
    }
}

pub open spec fn vars_replaces(ds: Seq<VarDeclarator>, ms: Seq<MacroView>, n: nat) -> Seq<ReplaceView>
    decreases n,
{
    if n == 0 || n > ds.len() {
        Seq::empty()
    } else {
        vars_replaces(ds, ms, (n - 1) as nat) + init_replaces(ds[n - 1], ms)
    }
}

pub open spec fn decl_replaces(d: Decl, ms: Seq<MacroView>) -> Seq<ReplaceView> {
    match d {
        Decl::Fn { body, .. } => exprs_replaces(body@, ms, body.len() as nat),
        Decl::Class { body, .. } => exprs_replaces(body@, ms, body.len() as nat),
        Decl::Enum { body, .. } => exprs_replaces(body@, ms, body.len() as nat),
        Decl::Var(ds) => vars_replaces(ds@, ms, ds.len() as nat),
        Decl::Other(body) => exprs_replaces(body@, ms, body.len() as nat),
    }
}

pub open spec fn item_replaces(it: ModuleItem, ms: Seq<MacroView>) -> Seq<ReplaceView> {
    match it {
        ModuleItem::Decl(d) => decl_replaces(d, ms),
        ModuleItem::Stmt(es) => exprs_replaces(es@, ms, es.len() as nat),
        ModuleItem::Import(_) => Seq::empty(),
        ModuleItem::NamedExport(_) => Seq::empty(),
        ModuleItem::ExportDecl(d) => decl_replaces(d, ms),
        ModuleItem::ExportDefaultDecl(d) => match d {
            DefaultDecl::Class { body, .. } => exprs_replaces(body@, ms, body.len() as nat),
            DefaultDecl::Fn { body, .. } => exprs_replaces(body@, ms, body.len() as nat),
        },
        ModuleItem::ExportDefaultExpr(e) => expr_replaces(e, ms),
    }
}

pub open spec fn items_replaces(items: Seq<ModuleItem>, ms: Seq<MacroView>, n: nat) -> Seq<ReplaceView>
    decreases n,
{
    if n == 0 || n > items.len() {
        Seq::empty()
    } else {
        items_replaces(items, ms, (n - 1) as nat) + item_replaces(items[n - 1], ms)
    }
}

/// The replace instructions of a module, in source order.
pub open spec fn module_replaces(m: Module, ms: Seq<MacroView>) -> Seq<ReplaceView> {
    items_replaces(m.body@, ms, m.body.len() as nat)
}

pub open spec fn init_within(d: VarDeclarator, limit: nat) -> bool {
    match d.init {
        Some(e) => expr_within(e, limit),
        None => true,
    }
}

pub open spec fn decl_within(d: Decl, limit: nat) -> bool {
    match d {
        Decl::Fn { body, .. } => forall|i: int| 0 <= i < body.len() ==> expr_within(#[trigger] body@[i], limit),
        Decl::Class { body, .. } => forall|i: int| 0 <= i < body.len() ==> expr_within(#[trigger] body@[i], limit),
        Decl::Enum { body, .. } => forall|i: int| 0 <= i < body.len() ==> expr_within(#[trigger] body@[i], limit),
        Decl::Var(ds) => forall|i: int| 0 <= i < ds.len() ==> init_within(#[trigger] ds@[i], limit),
        Decl::Other(body) => forall|i: int| 0 <= i < body.len() ==> expr_within(#[trigger] body@[i], limit),
    }
}

pub open spec fn item_within(it: ModuleItem, limit: nat) -> bool {
    match it {
        ModuleItem::Decl(d) => decl_within(d, limit),
        ModuleItem::Stmt(es) => forall|i: int| 0 <= i < es.len() ==> expr_within(#[trigger] es@[i], limit),
        ModuleItem::Import(d) => d.span.within(limit),
        ModuleItem::NamedExport(_) => true,
        ModuleItem::ExportDecl(d) => decl_within(d, limit),
        ModuleItem::ExportDefaultDecl(d) => match d {
            DefaultDecl::Class { body, .. } => forall|i: int| 0 <= i < body.len() ==> expr_within(#[trigger] body@[i], limit),
            DefaultDecl::Fn { body, .. } => forall|i: int| 0 <= i < body.len() ==> expr_within(#[trigger] body@[i], limit),
        },
        ModuleItem::ExportDefaultExpr(e) => expr_within(e, limit),
    }
}

/// Every call and import span of `m` lies within a source of `limit` bytes.
pub open spec fn module_within(m: Module, limit: nat) -> bool {
    forall|i: int| 0 <= i < m.body.len() ==> item_within(#[trigger] m.body@[i], limit)
}

/// The largest source whose positions fit the span type.
pub open spec fn max_source() -> nat {
    (u32::MAX - 1) as nat
}

fn lookup_macro(macros: &Vec<MacroBinding>, k: &Id) -> (r: Option<usize>)
    ensures
        match r {
            Some(i) => i < macros@.len() && macro_lookup(macros_view(macros@), k@) == Some(
                (macros@[i as int].source@, macros@[i as int].specifier@),
            ),
            None => macro_lookup(macros_view(macros@), k@) is None,
        },
{
    let ghost all = macros_view(macros@);
    let mut i: usize = 0;
    assert(all.skip(0) =~= all);
    while i < macros.len()
        invariant
            0 <= i <= macros.len(),
            all == macros_view(macros@),
            macro_lookup(all, k@) == macro_lookup(all.skip(i as int), k@),
        decreases macros.len() - i,
    {
        assert(all.skip(i as int).drop_first() =~= all.skip(i + 1));
        assert(all.skip(i as int)[0] == macro_view(macros@[i as int]));
        if macros[i].id.same(k) {
            return Some(i);
        }
        i = i + 1;
    }
    assert(all.skip(i as int) =~= Seq::<MacroView>::empty());
    None
}

fn push_replace(out: &mut Vec<TransformReplaces>, r: TransformReplaces)
    ensures
        replaces_view(final(out)@) == replaces_view(old(out)@).push(replace_view(r)),
{
    out.push(r);
    assert(replaces_view(final(out)@) =~= replaces_view(old(out)@).push(replace_view(r)));
}

/// Appends the replace instructions of `e` to `out`.
pub fn scan_expr(macros: &Vec<MacroBinding>, e: &Expr, out: &mut Vec<TransformReplaces>)
    requires
        expr_within(*e, max_source()),
    ensures
        replaces_view(final(out)@) == replaces_view(old(out)@) + expr_replaces(*e, macros_view(macros@)),
    decreases e,
{
    let ghost ms = macros_view(macros@);
    let ghost start = replaces_view(out@);
    match e {
        Expr::Ident(_) => {
            assert(replaces_view(out@) =~= start + expr_replaces(*e, ms));
        },
        Expr::Call { callee, args, span } => {
            if let Expr::Ident(ident) = &**callee {
                let id = ident.to_id();
                if let Some(i) = lookup_macro(macros, &id) {
                    push_replace(
                        out,
                        TransformReplaces {
                            lo: span.lo - 1,
                            hi: span.hi - 1,
                            import_src: macros[i].source.clone(),
                            import_name: macros[i].specifier.clone(),
                        },
                    );
                }
            }
            assert(replaces_view(out@) =~= start + own_replace(**callee, *span, ms));
            scan_expr(macros, callee, out);
            let ghost mid = replaces_view(out@);
            assert(mid =~= start + own_replace(**callee, *span, ms) + expr_replaces(**callee, ms));
            let mut k: usize = 0;
            while k < args.len()
                invariant
                    0 <= k <= args.len(),
                    *e == (Expr::Call { callee: *callee, args: *args, span: *span }),
                    expr_within(*e, max_source()),
                    ms == macros_view(macros@),
                    replaces_view(out@) == mid + children_replaces(*e, ms, k as nat),
                decreases args.len() - k,
            {
                assert(decreases_to!(*e => args@[k as int]));
                proof {
                    lemma_children_within_prefix(*e, max_source(), args.len() as nat, (k + 1) as nat);
                }
                scan_expr(macros, &args[k], out);
                assert(replaces_view(out@) =~= mid + children_replaces(*e, ms, (k + 1) as nat));
                k = k + 1;
            }
            assert(replaces_view(out@) =~= start + expr_replaces(*e, ms));
        },
        Expr::Member { obj, .. } => {
            scan_expr(macros, obj, out);
        },
        Expr::Other(children) => {
            let mut k: usize = 0;
            assert(replaces_view(out@) =~= start + children_replaces(*e, ms, 0));
            while k < children.len()
                invariant
                    0 <= k <= children.len(),
                    *e == Expr::Other(*children),
                    expr_within(*e, max_source()),
                    ms == macros_view(macros@),
                    replaces_view(out@) == start + children_replaces(*e, ms, k as nat),
                decreases children.len() - k,
            {
                assert(decreases_to!(*e => children@[k as int]));
                proof {
                    lemma_children_within_prefix(*e, max_source(), children.len() as nat, (k + 1) as nat);
                }
                scan_expr(macros, &children[k], out);
                assert(replaces_view(out@) =~= start + children_replaces(*e, ms, (k + 1) as nat));
                k = k + 1;
            }
        },
    }
}

fn scan_exprs(macros: &Vec<MacroBinding>, es: &Vec<Expr>, out: &mut Vec<TransformReplaces>)
    requires
        forall|i: int| 0 <= i < es.len() ==> expr_within(#[trigger] es@[i], max_source()),
    ensures
        replaces_view(final(out)@) == replaces_view(old(out)@) + exprs_replaces(es@, macros_view(macros@), es.len() as nat),
{
    let ghost start = replaces_view(out@);
    let mut k: usize = 0;
    assert(replaces_view(out@) =~= start + exprs_replaces(es@, macros_view(macros@), 0));
    while k < es.len()
        invariant
            0 <= k <= es.len(),
            forall|i: int| 0 <= i < es.len() ==> expr_within(#[trigger] es@[i], max_source()),
            replaces_view(out@) == start + exprs_replaces(es@, macros_view(macros@), k as nat),
        decreases es.len() - k,
    {
        scan_expr(macros, &es[k], out);
        assert(replaces_view(out@) =~= start + exprs_replaces(es@, macros_view(macros@), (k + 1) as nat));
        k = k + 1;
    }
}

fn scan_decl(macros: &Vec<MacroBinding>, d: &Decl, out: &mut Vec<TransformReplaces>)
    requires
        decl_within(*d, max_source()),
    ensures
        replaces_view(final(out)@) == replaces_view(old(out)@) + decl_replaces(*d, macros_view(macros@)),
{
    match d {
        Decl::Fn { body, .. } => scan_exprs(macros, body, out),
        Decl::Class { body, .. } => scan_exprs(macros, body, out),
        Decl::Enum { body, .. } => scan_exprs(macros, body, out),
        Decl::Other(body) => scan_exprs(macros, body, out),
        Decl::Var(ds) => {
            let ghost start = replaces_view(out@);
            let ghost ms = macros_view(macros@);
            let mut k: usize = 0;
            assert(replaces_view(out@) =~= start + vars_replaces(ds@, ms, 0));
            while k < ds.len()
                invariant
                    0 <= k <= ds.len(),
                    ms == macros_view(macros@),
                    forall|i: int| 0 <= i < ds.len() ==> init_within(#[trigger] ds@[i], max_source()),
                    replaces_view(out@) == start + vars_replaces(ds@, ms, k as nat),
                decreases ds.len() - k,
            {
                assert(init_within(ds@[k as int], max_source()));
                if let Some(e) = &ds[k].init {
                    scan_expr(macros, e, out);
                }
                assert(replaces_view(out@) =~= start + vars_replaces(ds@, ms, (k + 1) as nat));
                k = k + 1;
            }
        },
    }
}

fn scan_item(macros: &Vec<MacroBinding>, it: &ModuleItem, out: &mut Vec<TransformReplaces>)
    requires
        item_within(*it, max_source()),
    ensures
        replaces_view(final(out)@) == replaces_view(old(out)@) + item_replaces(*it, macros_view(macros@)),
{
    let ghost start = replaces_view(out@);
    match it {
        ModuleItem::Decl(d) => scan_decl(macros, d, out),
        ModuleItem::ExportDecl(d) => scan_decl(macros, d, out),
        ModuleItem::Stmt(es) => scan_exprs(macros, es, out),
        ModuleItem::ExportDefaultDecl(d) => match d {
            DefaultDecl::Class { body, .. } => scan_exprs(macros, body, out),
            DefaultDecl::Fn { body, .. } => scan_exprs(macros, body, out),
        },
        ModuleItem::ExportDefaultExpr(e) => scan_expr(macros, e, out),
        ModuleItem::Import(_) => {
            assert(replaces_view(out@) =~= start + item_replaces(*it, macros_view(macros@)));
        },
        ModuleItem::NamedExport(_) => {
            assert(replaces_view(out@) =~= start + item_replaces(*it, macros_view(macros@)));
        },
    }
}

/// The second pass: the macro bindings found in the import table, and the
/// instructions found so far.
pub struct MacroTransform {
    pub macro_ids: Vec<MacroBinding>,
    pub replaces: Vec<TransformReplaces>,
    pub removals: Vec<TransformRemovals>,
}

/// Each import's span starts at a real position and does not end before it.
pub open spec fn import_spans_ok(s: Seq<((Seq<char>, u32), ImportView)>) -> bool {
    forall|i: int| 0 <= i < s.len() ==> 1 <= (#[trigger] s[i]).1.5.lo <= s[i].1.5.hi
}

/// `verdicts` is one answer of `filter` for each import without a `type`
/// assertion, asked about (filter name, source).
pub open spec fn verdicts_from<F: Fn(String, String) -> bool>(
    filter: F,
    s: Seq<((Seq<char>, u32), ImportView)>,
    verdicts: Seq<bool>,
) -> bool {
    &&& verdicts.len() == s.len()
    &&& forall|i: int| 0 <= i < s.len() && import_assert_type(#[trigger] s[i].1) is None ==>
        answered(filter, s[i].1, verdicts[i])
}

/// `filter` answered `verdict` when asked about the import `iv`.
pub open spec fn answered<F: Fn(String, String) -> bool>(filter: F, iv: ImportView, verdict: bool) -> bool {
    exists|a: String, b: String| a@ == filter_name(iv) && b@ == iv.0 && filter.ensures((a, b), verdict)
}

fn string_default_name() -> (r: String)
    ensures
        r@ == str_default(),
{
    let r = "default".to_string();
    proof {
        reveal_strlit("default");
    }
    r
}

impl MacroTransform {
    /// Classifies the imports of `global_collector`: asks `config.filter`
    /// about each import without a `type` assertion, and keeps the
    /// bindings that are macros and the import declarations to remove.
    pub fn new<F: Fn(String, String) -> bool>(
        global_collector: &GlobalCollect,
        config: &TransformCodeOptions<F>,
    ) -> (r: MacroTransform)
        requires
            global_collector.wf(),
            import_spans_ok(imports_of(*global_collector)),
            forall|a: String, b: String| config.filter.requires((a, b)),
        ensures
            r.replaces@.len() == 0,
            r.removals@ == removal_list(
                imports_of(*global_collector),
                config.assert_type@,
                imports_of(*global_collector).len() as nat,
            ).map_values(|sp: Span| removal_of(sp)),
            exists|verdicts: Seq<bool>|
                verdicts_from(config.filter, imports_of(*global_collector), verdicts)
                && macros_view(r.macro_ids@) == #[trigger] macro_list(
                    imports_of(*global_collector),
                    config.assert_type@,
                    verdicts,
                    imports_of(*global_collector).len() as nat,
                ),
    {
        let imports = &global_collector.imports;
        let ghost s = imports_of(*global_collector);
        let mut verdicts: Vec<bool> = Vec::new();
        let mut i: usize = 0;
        while i < imports.entries.len()
            invariant
                0 <= i <= imports.entries.len(),
                s == map_vals(imports.view(), |i: Import| i@),
                s.len() == imports.entries@.len(),
                verdicts@.len() == i,
                forall|a: String, b: String| config.filter.requires((a, b)),
                forall|j: int| 0 <= j < i && import_assert_type(#[trigger] s[j].1) is None ==>
                    answered(config.filter, s[j].1, verdicts@[j]),
            decreases imports.entries.len() - i,
        {
            let import = &imports.entries[i].1;
            assert(s[i as int].1 == import@);
            let v = match assertion_type(&import.asserts) {
                Some(_) => false,
                None => {
                    let name = if import.kind == ImportKind::Default {
                        string_default_name()
                    } else {
                        import.specifier.clone()
                    };
                    let source = import.source.clone();
                    let ghost (ga, gb) = (name, source);
                    let v = (config.filter)(name, source);
                    assert(ga@ == filter_name(s[i as int].1) && gb@ == s[i as int].1.0
                        && config.filter.ensures((ga, gb), v));
                    assert(answered(config.filter, s[i as int].1, v));
                    v
                },
            };
            let ghost before = verdicts@;
            verdicts.push(v);
            assert(import_assert_type(s[i as int].1) is None ==> answered(config.filter, s[i as int].1, verdicts@[i as int]));
            assert(forall|j: int| 0 <= j < i ==> verdicts@[j] == before[j]);
            i = i + 1;
        }
        proof {
            assert forall|j: int| 0 <= j < imports.view().len() implies (#[trigger] imports.view()[j]).1.span.lo >= 1
                && imports.view()[j].1.span.lo <= imports.view()[j].1.span.hi by {
                assert(s[j].1 == imports.view()[j].1@);
            }
        }
        let (macro_ids, removals) = classify_imports(imports, &config.assert_type, &verdicts);
        assert(verdicts_from(config.filter, s, verdicts@));
        MacroTransform { macro_ids, replaces: Vec::new(), removals }
    }

    /// Scans `module` for calls to macro bindings and appends their
    /// replace instructions, in source order.
    pub fn visit_module(&mut self, module: &Module)
        requires
            module_within(*module, max_source()),
        ensures
            final(self).macro_ids == old(self).macro_ids,
            final(self).removals == old(self).removals,
            replaces_view(final(self).replaces@) == replaces_view(old(self).replaces@) + module_replaces(
                *module,
                macros_view(old(self).macro_ids@),
            ),
    {
        let ghost start = replaces_view(self.replaces@);
        let ghost ms = macros_view(self.macro_ids@);
        let mut k: usize = 0;
        assert(replaces_view(self.replaces@) =~= start + items_replaces(module.body@, ms, 0));
        while k < module.body.len()
            invariant
                0 <= k <= module.body.len(),
                module_within(*module, max_source()),
                self.macro_ids == old(self).macro_ids,
                self.removals == old(self).removals,
                ms == macros_view(self.macro_ids@),
                replaces_view(self.replaces@) == start + items_replaces(module.body@, ms, k as nat),
            decreases module.body.len() - k,
        {
            scan_item(&self.macro_ids, &module.body[k], &mut self.replaces);
            assert(replaces_view(self.replaces@) =~= start + items_replaces(module.body@, ms, (k + 1) as nat));
            k = k + 1;
        }
    }
}

pub open spec fn op_span_ok(op: CollectOp, limit: nat) -> bool {
    match op {
        CollectOp::Import(_, iv) => iv.5.within(limit),
        _ => true,
    }
}

pub open spec fn ops_span_ok(ops: Seq<CollectOp>, limit: nat) -> bool {
    forall|i: int| 0 <= i < ops.len() ==> op_span_ok(#[trigger] ops[i], limit)
}

/// Every import record's span lies within a source of `limit` bytes.
pub open spec fn import_spans_within(s: Seq<((Seq<char>, u32), ImportView)>, limit: nat) -> bool {
    forall|i: int| 0 <= i < s.len() ==> (#[trigger] s[i]).1.5.within(limit)
}

proof fn lemma_apply_keeps_spans(st: CollectView, ops: Seq<CollectOp>, limit: nat)
    requires
        import_spans_within(st.imports, limit),
        ops_span_ok(ops, limit),
    ensures
        import_spans_within(apply_ops(st, ops).imports, limit),
    decreases ops.len(),
{
    if ops.len() > 0 {
        let prev = apply_ops(st, ops.drop_last());
        assert(ops_span_ok(ops.drop_last(), limit)) by {
            assert forall|i: int| 0 <= i < ops.drop_last().len() implies op_span_ok(#[trigger] ops.drop_last()[i], limit) by {
                assert(ops.drop_last()[i] == ops[i]);
            }
        }
        lemma_apply_keeps_spans(st, ops.drop_last(), limit);
        assert(op_span_ok(ops[ops.len() - 1], limit));
        let next = apply_op(prev, ops.last());
        assert forall|i: int| 0 <= i < next.imports.len() implies (#[trigger] next.imports[i]).1.5.within(limit) by {
            if let CollectOp::Import(k, iv) = ops.last() {
                if !(i < prev.imports.len() && next.imports[i] == prev.imports[i]) {
                    assert(next.imports[i] == (k, iv));
                }
            }
        }
    }
}

proof fn lemma_concat_spans(ss: Seq<Seq<CollectOp>>, limit: nat)
    requires
        forall|j: int| 0 <= j < ss.len() ==> ops_span_ok(#[trigger] ss[j], limit),
    ensures
        ops_span_ok(concat_ops(ss), limit),
    decreases ss.len(),
{
    if ss.len() > 0 {
        lemma_concat_spans(ss.drop_last(), limit);
        let a = concat_ops(ss.drop_last());
        let b = ss.last();
        assert(ops_span_ok(b, limit));
        assert forall|i: int| 0 <= i < (a + b).len() implies op_span_ok(#[trigger] (a + b)[i], limit) by {
            if i >= a.len() {
                assert((a + b)[i] == b[i - a.len()]);
            }
        }
    }
}

proof fn lemma_item_spans(it: ModuleItem, limit: nat)
    requires
        item_within(it, limit),
    ensures
        ops_span_ok(item_ops(it), limit),
{
    match it {
        ModuleItem::Import(d) => {
            assert forall|i: int| 0 <= i < import_decl_ops(d).len() implies op_span_ok(#[trigger] import_decl_ops(d)[i], limit) by {
                assert(import_decl_ops(d)[i] == import_spec_op(d, d.specifiers@[i]));
            }
        },
        ModuleItem::Decl(d) => {
            if let Decl::Var(ds) = d {
                let ss = ds@.map_values(|v: VarDeclarator| root_ops(crate::pattern::pat_bindings(v.name)));
                assert forall|j: int| 0 <= j < ss.len() implies ops_span_ok(#[trigger] ss[j], limit) by {
                    let r = ss[j];
                    assert forall|i: int| 0 <= i < r.len() implies op_span_ok(#[trigger] r[i], limit) by {}
                }
                lemma_concat_spans(ss, limit);
            }
        },
        ModuleItem::ExportDecl(d) => {
            if let Decl::Var(ds) = d {
                let ss = ds@.map_values(|v: VarDeclarator| export_ops(crate::pattern::pat_exports(v.name)));
                assert forall|j: int| 0 <= j < ss.len() implies ops_span_ok(#[trigger] ss[j], limit) by {
                    let r = ss[j];
                    assert forall|i: int| 0 <= i < r.len() implies op_span_ok(#[trigger] r[i], limit) by {}
                }
                lemma_concat_spans(ss, limit);
            }
        },
        ModuleItem::NamedExport(ne) => {
            if ne.src is None {
                let ss = ne.specifiers@.map_values(|x: crate::syntax::ExportSpecifier| export_spec_ops(x));
                assert forall|j: int| 0 <= j < ss.len() implies ops_span_ok(#[trigger] ss[j], limit) by {
                    let r = ss[j];
                    assert forall|i: int| 0 <= i < r.len() implies op_span_ok(#[trigger] r[i], limit) by {}
                }
                lemma_concat_spans(ss, limit);
            }
        },
        _ => {},
    }
}

/// Collecting a module whose spans lie within a source of `limit` bytes
/// gives import records whose spans do too.
pub proof fn lemma_collected_spans(m: Module, limit: nat)
    requires
        module_within(m, limit),
    ensures
        import_spans_within(collected(m).imports, limit),
{
    let ss = m.body@.map_values(|it: ModuleItem| item_ops(it));
    assert forall|j: int| 0 <= j < ss.len() implies ops_span_ok(#[trigger] ss[j], limit) by {
        lemma_item_spans(m.body@[j], limit);
    }
    lemma_concat_spans(ss, limit);
    lemma_apply_keeps_spans(crate::collect::empty_view(), module_ops(m), limit);
}

/// Both passes over a scope-resolved module: collect the global tables,
/// classify the imports, and locate the macro calls.
pub fn transform_code<F: Fn(String, String) -> bool>(module: &Module, config: TransformCodeOptions<F>) -> (r: TransformOutput)
    requires
        module_within(*module, max_source()),
        forall|a: String, b: String| config.filter.requires((a, b)),
    ensures
        r.removals@ == removal_list(
            collected(*module).imports,
            config.assert_type@,
            collected(*module).imports.len() as nat,
        ).map_values(|sp: Span| removal_of(sp)),
        exists|verdicts: Seq<bool>|
            verdicts_from(config.filter, collected(*module).imports, verdicts)
            && replaces_view(r.replaces@) == #[trigger] module_replaces(
                *module,
                macro_list(
                    collected(*module).imports,
                    config.assert_type@,
                    verdicts,
                    collected(*module).imports.len() as nat,
                ),
            ),
{
    let collect = global_collect(module);
    proof {
        lemma_collected_spans(*module, max_source());
    }
    assert(import_spans_ok(collected(*module).imports)) by {
        let s = collected(*module).imports;
        assert forall|i: int| 0 <= i < s.len() implies 1 <= (#[trigger] s[i]).1.5.lo <= s[i].1.5.hi by {
            assert(s[i].1.5.within(max_source()));
        }
    }
    assert(imports_of(collect) == collected(*module).imports);
    let mut macro_transform = MacroTransform::new(&collect, &config);
    let ghost before = macro_transform.replaces@;
    macro_transform.visit_module(module);
    assert(replaces_view(before) =~= Seq::<ReplaceView>::empty());
    TransformOutput { replaces: macro_transform.replaces, removals: macro_transform.removals }
}

} // verus!
