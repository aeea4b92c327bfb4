use vstd::prelude::*;
use crate::collect::{apply_ops, collected, module_ops, CollectOp, CollectView, ImportView};
use crate::syntax::{Expr, Module, Span, VarDeclarator, ModuleItem, Decl, DefaultDecl};
use crate::table::{
    assoc_get, has_key, key_pos, keys_unique, lemma_insert_keeps_key, lemma_insert_keeps_unique,
    lemma_insert_other_key, assoc_insert, assoc_insert_vacant,
};
use crate::transform::{
    child_count, children_replaces, children_within, expr_replaces, expr_within, exprs_replaces,
    import_spans_within, init_replaces, init_within, item_replaces, item_within, items_replaces,
    lemma_collected_spans, module_replaces, module_within, removal_list, removal_of, replaces_view,
    vars_replaces, decl_replaces, decl_within, MacroView, ReplaceView, TransformOutput, macro_list,
    };

verus! {

broadcast use vstd::std_specs::vec::group_vec_axioms;

pub open spec fn tables_unique(st: CollectView) -> bool {
    &&& keys_unique(st.imports)
    &&& keys_unique(st.exports)
    &&& keys_unique(st.root)
    &&& keys_unique(st.rev)
}

pub proof fn lemma_apply_unique(st: CollectView, ops: Seq<CollectOp>)
    requires
        tables_unique(st),
    ensures
        tables_unique(apply_ops(st, ops)),
    decreases ops.len(),
{
    if ops.len() > 0 {
        lemma_apply_unique(st, ops.drop_last());
        let prev = apply_ops(st, ops.drop_last());
        match ops.last() {
            CollectOp::Root(k, sp) => lemma_insert_keeps_unique(prev.root, k, sp),
            CollectOp::Import(k, iv) => {
                lemma_insert_keeps_unique(prev.imports, k, iv);
                lemma_insert_keeps_unique(prev.rev, (iv.1, iv.0), k);
            },
            CollectOp::Export(k, a) => lemma_insert_keeps_unique(prev.exports, k, a),
        }
    }
}

/// The identity an update is about.
pub open spec fn op_key(op: CollectOp) -> (Seq<char>, u32) {
    match op {
        CollectOp::Root(k, _) => k,
        CollectOp::Import(k, _) => k,
        CollectOp::Export(k, _) => k,
    }
}

/// The identity of `op` is a key of the table that `op` updates.
pub open spec fn op_in_table(st: CollectView, op: CollectOp) -> bool {
    match op {
        CollectOp::Root(k, _) => has_key(st.root, k),
        CollectOp::Import(k, _) => has_key(st.imports, k),
        CollectOp::Export(k, _) => has_key(st.exports, k),
    }
}

proof fn lemma_inserted_key<K, V>(s: Seq<(K, V)>, k: K, v: V)
    ensures
        has_key(assoc_insert(s, k, v), k),
        has_key(assoc_insert_vacant(s, k, v), k),
{
    if has_key(s, k) {
        let p = key_pos(s, k);
        assert(assoc_insert(s, k, v)[p].0 == k);
        assert(assoc_insert_vacant(s, k, v)[p].0 == k);
    } else {
        assert(assoc_insert(s, k, v)[s.len() as int].0 == k);
    }
}

proof fn lemma_op_key_present(st: CollectView, ops: Seq<CollectOp>, i: int)
    requires
        0 <= i < ops.len(),
    ensures
        op_in_table(apply_ops(st, ops), ops[i]),
    decreases ops.len(),
{
    let prev = apply_ops(st, ops.drop_last());
    if i == ops.len() - 1 {
        match ops.last() {
            CollectOp::Root(k, sp) => lemma_inserted_key(prev.root, k, sp),
            CollectOp::Import(k, iv) => lemma_inserted_key(prev.imports, k, iv),
            CollectOp::Export(k, a) => lemma_inserted_key(prev.exports, k, a),
        }
    } else {
        lemma_op_key_present(st, ops.drop_last(), i);
        assert(ops.drop_last()[i] == ops[i]);
        match (ops[i], ops.last()) {
            (CollectOp::Root(k, _), CollectOp::Root(k2, sp)) => lemma_insert_keeps_key(prev.root, k, k2, sp),
            (CollectOp::Import(k, _), CollectOp::Import(k2, iv)) => lemma_insert_keeps_key(prev.imports, k, k2, iv),
            (CollectOp::Export(k, _), CollectOp::Export(k2, a)) => lemma_insert_keeps_key(prev.exports, k, k2, a),
            _ => {},
        }
    }
}

/// Bindings with the same name in different scopes never collide: when
/// two table updates of a module name the same text under different scope
/// tags, each identity keeps an entry of its own in its table.
pub proof fn lemma_scopes_kept_apart(m: Module, i: int, j: int)
    requires
        0 <= i < module_ops(m).len(),
        0 <= j < module_ops(m).len(),
        op_key(module_ops(m)[i]).0 == op_key(module_ops(m)[j]).0,
        op_key(module_ops(m)[i]).1 != op_key(module_ops(m)[j]).1,
    ensures
        op_in_table(collected(m), module_ops(m)[i]),
        op_in_table(collected(m), module_ops(m)[j]),
        op_key(module_ops(m)[i]) != op_key(module_ops(m)[j]),
{
    lemma_op_key_present(crate::collect::empty_view(), module_ops(m), i);
    lemma_op_key_present(crate::collect::empty_view(), module_ops(m), j);
}

proof fn lemma_last_import(st: CollectView, ops: Seq<CollectOp>, i: int, k: (Seq<char>, u32), iv: ImportView)
    requires
        tables_unique(st),
        0 <= i < ops.len(),
        ops[i] == CollectOp::Import(k, iv),
        forall|j: int| i < j < ops.len() ==> !((#[trigger] ops[j]) is Import && op_key(ops[j]) == k),
    ensures
        assoc_get(apply_ops(st, ops).imports, k) == Some(iv),
    decreases ops.len(),
{
    let prev = apply_ops(st, ops.drop_last());
    lemma_apply_unique(st, ops.drop_last());
    if i == ops.len() - 1 {
        lemma_insert_keeps_unique(prev.imports, k, iv);
    } else {
        assert forall|j: int| i < j < ops.drop_last().len() implies !((#[trigger] ops.drop_last()[j]) is Import
            && op_key(ops.drop_last()[j]) == k) by {
            assert(ops.drop_last()[j] == ops[j]);
        }
        lemma_last_import(st, ops.drop_last(), i, k, iv);
        assert(ops.last() == ops[ops.len() - 1]);
        if let CollectOp::Import(k2, iv2) = ops.last() {
            lemma_insert_other_key(prev.imports, k, k2, iv2);
        }
    }
}

proof fn lemma_last_rev(st: CollectView, ops: Seq<CollectOp>, i: int, k: (Seq<char>, u32), iv: ImportView)
    requires
        tables_unique(st),
        0 <= i < ops.len(),
        ops[i] == CollectOp::Import(k, iv),
        forall|j: int| i < j < ops.len() ==> !((#[trigger] ops[j]) is Import
            && (ops[j]->Import_1.1, ops[j]->Import_1.0) == (iv.1, iv.0)),
    ensures
        assoc_get(apply_ops(st, ops).rev, (iv.1, iv.0)) == Some(k),
    decreases ops.len(),
{
    let prev = apply_ops(st, ops.drop_last());
    lemma_apply_unique(st, ops.drop_last());
    if i == ops.len() - 1 {
        lemma_insert_keeps_unique(prev.rev, (iv.1, iv.0), k);
    } else {
        assert forall|j: int| i < j < ops.drop_last().len() implies !((#[trigger] ops.drop_last()[j]) is Import
            && (ops.drop_last()[j]->Import_1.1, ops.drop_last()[j]->Import_1.0) == (iv.1, iv.0)) by {
            assert(ops.drop_last()[j] == ops[j]);
        }
        lemma_last_rev(st, ops.drop_last(), i, k, iv);
        assert(ops.last() == ops[ops.len() - 1]);
        if let CollectOp::Import(k2, iv2) = ops.last() {
            lemma_insert_other_key(prev.rev, (iv.1, iv.0), (iv2.1, iv2.0), k2);
        }
    }
}

/// Every import specifier of a module has exactly one entry in the import
/// table. Where no later specifier binds the same local, that entry is its
/// record; where no later specifier imports the same (name, source), the
/// reverse index maps that (name, source) to the same identity.
pub proof fn lemma_import_entry(m: Module, i: int)
    requires
        0 <= i < module_ops(m).len(),
        module_ops(m)[i] is Import,
    ensures
        ({
            let k = op_key(module_ops(m)[i]);
            let iv = module_ops(m)[i]->Import_1;
            let t = collected(m).imports;
            &&& exists|p: int| 0 <= p < t.len() && t[p].0 == k && forall|q: int| 0 <= q < t.len() && t[q].0 == k ==> q == p
            &&& (forall|j: int| i < j < module_ops(m).len() ==> !((#[trigger] module_ops(m)[j]) is Import
                && op_key(module_ops(m)[j]) == k)) ==> assoc_get(t, k) == Some(iv)
            &&& (forall|j: int| i < j < module_ops(m).len() ==> !((#[trigger] module_ops(m)[j]) is Import
                && (module_ops(m)[j]->Import_1.1, module_ops(m)[j]->Import_1.0) == (iv.1, iv.0)))
                ==> assoc_get(collected(m).rev, (iv.1, iv.0)) == Some(k)
        }),
{
    let ops = module_ops(m);
    let st = crate::collect::empty_view();
    let k = op_key(ops[i]);
    let iv = ops[i]->Import_1;
    let t = collected(m).imports;
    lemma_op_key_present(st, ops, i);
    lemma_apply_unique(st, ops);
    let p = key_pos(t, k);
    assert(0 <= p < t.len() && t[p].0 == k && forall|q: int| 0 <= q < t.len() && t[q].0 == k ==> q == p);
    if forall|j: int| i < j < ops.len() ==> !((#[trigger] ops[j]) is Import && op_key(ops[j]) == k) {
        lemma_last_import(st, ops, i, k, iv);
    }
    if forall|j: int| i < j < ops.len() ==> !((#[trigger] ops[j]) is Import
        && (ops[j]->Import_1.1, ops[j]->Import_1.0) == (iv.1, iv.0)) {
        lemma_last_rev(st, ops, i, k, iv);
    }
}

/// A call whose callee is a member expression (`ns.tag()`) is never itself
/// replaced: its scan yields only what its callee's object and its
/// arguments yield.
pub proof fn lemma_member_callee_not_replaced(e: Expr, ms: Seq<MacroView>)
    requires
        e is Call,
        *e->callee is Member,
    ensures
        expr_replaces(e, ms) == expr_replaces(*e->callee->obj, ms) + children_replaces(e, ms, e->args.len() as nat),
{
    if let Expr::Call { callee, span, args } = e {
        let own = crate::transform::own_replace(*callee, span, ms);
        assert(own =~= Seq::<ReplaceView>::empty());
        if let Expr::Member { obj, .. } = *callee {
            assert(expr_replaces(*callee, ms) == expr_replaces(*obj, ms));
            assert(own + expr_replaces(*obj, ms) + children_replaces(e, ms, args.len() as nat)
                =~= expr_replaces(*obj, ms) + children_replaces(e, ms, args.len() as nat));
        }
    }
}

/// The two passes are deterministic: two runs on the same module with the
/// same tag and the same answers of the predicate give the same lists, in
/// the same order.
pub proof fn lemma_runs_agree(
    m: Module,
    tag: Seq<char>,
    verdicts: Seq<bool>,
    r1: TransformOutput,
    r2: TransformOutput,
)
    requires
        r1.removals@ == removal_list(collected(m).imports, tag, collected(m).imports.len() as nat).map_values(
            |sp: Span| removal_of(sp),
        ),
        r2.removals@ == removal_list(collected(m).imports, tag, collected(m).imports.len() as nat).map_values(
            |sp: Span| removal_of(sp),
        ),
        replaces_view(r1.replaces@) == module_replaces(
            m,
            macro_list(collected(m).imports, tag, verdicts, collected(m).imports.len() as nat),
        ),
        replaces_view(r2.replaces@) == module_replaces(
            m,
            macro_list(collected(m).imports, tag, verdicts, collected(m).imports.len() as nat),
        ),
    ensures
        r1.removals@ == r2.removals@,
        replaces_view(r1.replaces@) == replaces_view(r2.replaces@),
{
}

/// Each range in `rs` is a slice of a source of `limit` bytes.
pub open spec fn ranges_within(rs: Seq<ReplaceView>, limit: nat) -> bool {
    forall|i: int| 0 <= i < rs.len() ==> 0 <= (#[trigger] rs[i]).0 <= rs[i].1 <= limit
}

proof fn lemma_ranges_concat(a: Seq<ReplaceView>, b: Seq<ReplaceView>, limit: nat)
    requires
        ranges_within(a, limit),
        ranges_within(b, limit),
    ensures
        ranges_within(a + b, limit),
{
    assert forall|i: int| 0 <= i < (a + b).len() implies 0 <= (#[trigger] (a + b)[i]).0 <= (a + b)[i].1 <= limit by {
        if i >= a.len() {
            assert((a + b)[i] == b[i - a.len()]);
        } else {
            assert((a + b)[i] == a[i]);
        }
    }
}

proof fn lemma_expr_ranges(e: Expr, ms: Seq<MacroView>, limit: nat)
    requires
        expr_within(e, limit),
    ensures
        ranges_within(expr_replaces(e, ms), limit),
    decreases e, 1nat, 0nat,
{
    match e {
        Expr::Ident(_) => {},
        Expr::Call { callee, args, span } => {
            lemma_expr_ranges(*callee, ms, limit);
            lemma_children_ranges(e, ms, limit, args.len() as nat);
            let own = crate::transform::own_replace(*callee, span, ms);
            assert(ranges_within(own, limit));
            lemma_ranges_concat(own, expr_replaces(*callee, ms), limit);
            lemma_ranges_concat(own + expr_replaces(*callee, ms), children_replaces(e, ms, args.len() as nat), limit);
        },
        Expr::Member { obj, .. } => {
            lemma_expr_ranges(*obj, ms, limit);
        },
        Expr::Other(children) => {
            lemma_children_ranges(e, ms, limit, children.len() as nat);
        },
    }
}

proof fn lemma_children_ranges(e: Expr, ms: Seq<MacroView>, limit: nat, n: nat)
    requires
        children_within(e, limit, n),
        n <= child_count(e),
    ensures
        ranges_within(children_replaces(e, ms, n), limit),
    decreases e, 0nat, n,
{
    if n > 0 {
        lemma_children_ranges(e, ms, limit, (n - 1) as nat);
        match e {
            Expr::Call { args, .. } => {
                assert(decreases_to!(e => args@[n - 1]));
                lemma_expr_ranges(args@[n - 1], ms, limit);
                lemma_ranges_concat(children_replaces(e, ms, (n - 1) as nat), expr_replaces(args@[n - 1], ms), limit);
            },
            Expr::Other(children) => {
                assert(decreases_to!(e => children@[n - 1]));
                lemma_expr_ranges(children@[n - 1], ms, limit);
                lemma_ranges_concat(children_replaces(e, ms, (n - 1) as nat), expr_replaces(children@[n - 1], ms), limit);
            },
            _ => {},
        }
    }
}

proof fn lemma_exprs_ranges(es: Seq<Expr>, ms: Seq<MacroView>, limit: nat, n: nat)
    requires
        forall|i: int| 0 <= i < es.len() ==> expr_within(#[trigger] es[i], limit),
    ensures
        ranges_within(exprs_replaces(es, ms, n), limit),
    decreases n,
{
    if n > 0 && n <= es.len() {
        lemma_exprs_ranges(es, ms, limit, (n - 1) as nat);
        lemma_expr_ranges(es[n - 1], ms, limit);
        lemma_ranges_concat(exprs_replaces(es, ms, (n - 1) as nat), expr_replaces(es[n - 1], ms), limit);
    }
}

proof fn lemma_vars_ranges(ds: Seq<VarDeclarator>, ms: Seq<MacroView>, limit: nat, n: nat)
    requires
        forall|i: int| 0 <= i < ds.len() ==> init_within(#[trigger] ds[i], limit),
    ensures
        ranges_within(vars_replaces(ds, ms, n), limit),
    decreases n,
{
    if n > 0 && n <= ds.len() {
        lemma_vars_ranges(ds, ms, limit, (n - 1) as nat);
        assert(init_within(ds[n - 1], limit));
        if let Some(e) = ds[n - 1].init {
            lemma_expr_ranges(e, ms, limit);
        }
        lemma_ranges_concat(vars_replaces(ds, ms, (n - 1) as nat), init_replaces(ds[n - 1], ms), limit);
    }
}

proof fn lemma_decl_ranges(d: Decl, ms: Seq<MacroView>, limit: nat)
    requires
        decl_within(d, limit),
    ensures
        ranges_within(decl_replaces(d, ms), limit),
{
    match d {
        Decl::Fn { body, .. } => lemma_exprs_ranges(body@, ms, limit, body.len() as nat),
        Decl::Class { body, .. } => lemma_exprs_ranges(body@, ms, limit, body.len() as nat),
        Decl::Enum { body, .. } => lemma_exprs_ranges(body@, ms, limit, body.len() as nat),
        Decl::Other(body) => lemma_exprs_ranges(body@, ms, limit, body.len() as nat),
        Decl::Var(ds) => lemma_vars_ranges(ds@, ms, limit, ds.len() as nat),
    }
}

proof fn lemma_item_ranges(it: ModuleItem, ms: Seq<MacroView>, limit: nat)
    requires
        item_within(it, limit),
    ensures
        ranges_within(item_replaces(it, ms), limit),
{
    match it {
        ModuleItem::Decl(d) => lemma_decl_ranges(d, ms, limit),
        ModuleItem::ExportDecl(d) => lemma_decl_ranges(d, ms, limit),
        ModuleItem::Stmt(es) => lemma_exprs_ranges(es@, ms, limit, es.len() as nat),
        ModuleItem::ExportDefaultDecl(d) => match d {
            DefaultDecl::Class { body, .. } => lemma_exprs_ranges(body@, ms, limit, body.len() as nat),
            DefaultDecl::Fn { body, .. } => lemma_exprs_ranges(body@, ms, limit, body.len() as nat),
        },
        ModuleItem::ExportDefaultExpr(e) => lemma_expr_ranges(e, ms, limit),
        _ => {},
    }
}

proof fn lemma_items_ranges(items: Seq<ModuleItem>, ms: Seq<MacroView>, limit: nat, n: nat)
    requires
        forall|i: int| 0 <= i < items.len() ==> item_within(#[trigger] items[i], limit),
    ensures
        ranges_within(items_replaces(items, ms, n), limit),
    decreases n,
{
    if n > 0 && n <= items.len() {
        lemma_items_ranges(items, ms, limit, (n - 1) as nat);
        lemma_item_ranges(items[n - 1], ms, limit);
        lemma_ranges_concat(items_replaces(items, ms, (n - 1) as nat), item_replaces(items[n - 1], ms), limit);
    }
}

proof fn lemma_removal_spans(s: Seq<((Seq<char>, u32), ImportView)>, tag: Seq<char>, n: nat, limit: nat)
    requires
        import_spans_within(s, limit),
    ensures
        forall|i: int| 0 <= i < removal_list(s, tag, n).len() ==> (#[trigger] removal_list(s, tag, n)[i]).within(limit),
        forall|i: int, j: int| 0 <= i < j < removal_list(s, tag, n).len() ==> removal_list(s, tag, n)[i] != removal_list(s, tag, n)[j],
    decreases n,
{
    if n > 0 && n <= s.len() {
        lemma_removal_spans(s, tag, (n - 1) as nat, limit);
        let prev = removal_list(s, tag, (n - 1) as nat);
        let sp = s[n - 1].1.5;
        assert(sp.within(limit));
        let cur = removal_list(s, tag, n);
        if cur != prev {
            assert(cur == prev.push(sp));
            assert(!prev.contains(sp));
            assert forall|i: int| 0 <= i < cur.len() implies (#[trigger] cur[i]).within(limit) by {
                if i < prev.len() {
                    assert(cur[i] == prev[i]);
                }
            }
            assert forall|i: int, j: int| 0 <= i < j < cur.len() implies cur[i] != cur[j] by {
                if j == prev.len() {
                    assert(cur[i] == prev[i]);
                    assert(cur[j] == sp);
                } else {
                    assert(cur[i] == prev[i] && cur[j] == prev[j]);
                }
            }
        }
    }
}

/// Every emitted range is a slice of the source: for a module whose spans
/// lie within a source of `limit` bytes, each replace and each removal
/// range satisfies `0 <= lo <= hi <= limit`, and no import declaration is
/// removed twice. (Replace ranges of nested macro calls do nest, so they
/// are not claimed to be disjoint.)
pub proof fn lemma_ranges_in_source(m: Module, limit: nat, tag: Seq<char>, ms: Seq<MacroView>)
    requires
        module_within(m, limit),
    ensures
        ranges_within(module_replaces(m, ms), limit),
        ({
            let rs = removal_list(collected(m).imports, tag, collected(m).imports.len() as nat);
            &&& forall|i: int| 0 <= i < rs.len() ==> 0 <= (#[trigger] rs[i]).lo - 1 <= rs[i].hi - 1 <= limit
            &&& forall|i: int| 0 <= i < rs.len() ==> removal_of(#[trigger] rs[i]).lo == rs[i].lo - 1
                && removal_of(rs[i]).hi == rs[i].hi - 1
            &&& forall|i: int, j: int| 0 <= i < j < rs.len() ==> rs[i] != rs[j]
        }),
{
    lemma_items_ranges(m.body@, ms, limit, m.body.len() as nat);
    lemma_collected_spans(m, limit);
    let s = collected(m).imports;
    lemma_removal_spans(s, tag, s.len() as nat, limit);
}

} // verus!
