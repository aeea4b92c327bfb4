use vstd::prelude::*;
use crate::syntax::{Id, Ident, ObjectPatProp, Pat, Span};

verus! {

broadcast use vstd::std_specs::vec::group_vec_axioms;

/// A binding found in a pattern: its identity and where it stands.
pub type BindingView = ((Seq<char>, u32), Span);

pub open spec fn binding_of(i: Ident) -> BindingView {
    (i.id_view(), i.span)
}

pub open spec fn bindings_view(v: Seq<(Id, Span)>) -> Seq<BindingView> {
    v.map_values(|b: (Id, Span)| (b.0@, b.1))
}

/// The binding of a pattern that is a bare identifier; nothing otherwise.
pub open spec fn bare_binding(p: Pat) -> Seq<BindingView> {
    match p {
        Pat::Ident(i) => seq![binding_of(i)],
        _ => Seq::empty(),
    }
}

/// What a pattern binds, in source order. Behind a rest or a default only a
/// bare identifier counts; nested shapes there are not expanded.
pub open spec fn pat_bindings(p: Pat) -> Seq<BindingView>
    decreases p, 1nat, 0nat,
{
    match p {
        Pat::Ident(i) => seq![binding_of(i)],
        Pat::Array(elems) => array_bindings(p, elems.len() as nat),
        Pat::Rest(arg) => bare_binding(*arg),
        Pat::Assign(left) => bare_binding(*left),
        Pat::Object(props) => object_bindings(p, props.len() as nat),
        Pat::Other => Seq::empty(),
    }
}

/// What the first `n` elements of an array pattern bind.
pub open spec fn array_bindings(p: Pat, n: nat) -> Seq<BindingView>
    decreases p, 0nat, n,
{
    match p {
        Pat::Array(elems) => if n == 0 || n > elems.len() {
            Seq::empty()
        } else {
            array_bindings(p, (n - 1) as nat) + match elems[n - 1] {
                Some(q) => pat_bindings(q),
                None => Seq::empty(),
            }
        },
        _ => Seq::empty(),
    }
}

/// What the first `n` properties of an object pattern bind.
pub open spec fn object_bindings(p: Pat, n: nat) -> Seq<BindingView>
    decreases p, 0nat, n,
{
    match p {
        Pat::Object(props) => if n == 0 || n > props.len() {
            Seq::empty()
        } else {
            object_bindings(p, (n - 1) as nat) + match props[n - 1] {
                ObjectPatProp::Assign(key) => seq![binding_of(key)],
                ObjectPatProp::KeyValue(value) => pat_bindings(value),
                ObjectPatProp::Rest(arg) => bare_binding(arg),
            }
        },
        _ => Seq::empty(),
    }
}

fn push_binding(identifiers: &mut Vec<(Id, Span)>, i: &Ident)
    ensures
        bindings_view(final(identifiers)@) == bindings_view(old(identifiers)@) + seq![binding_of(*i)],
{
    identifiers.push((i.to_id(), i.span));
    assert(bindings_view(final(identifiers)@) =~= bindings_view(old(identifiers)@) + seq![binding_of(*i)]);
}

fn push_bare(identifiers: &mut Vec<(Id, Span)>, p: &Pat)
    ensures
        bindings_view(final(identifiers)@) == bindings_view(old(identifiers)@) + bare_binding(*p),
{
    if let Pat::Ident(i) = p {
        push_binding(identifiers, i);
    } else {
        assert(bindings_view(final(identifiers)@) =~= bindings_view(old(identifiers)@) + bare_binding(*p));
    }
}

/// Appends what `pat` binds to `identifiers`, in source order, and tells
/// whether `pat` is a bare identifier.
pub fn collect_from_pat(pat: &Pat, identifiers: &mut Vec<(Id, Span)>) -> (r: bool)
    ensures
        bindings_view(final(identifiers)@) == bindings_view(old(identifiers)@) + pat_bindings(*pat),
        r == (pat is Ident),
    decreases pat,
{
    match pat {
        Pat::Ident(i) => {
            push_binding(identifiers, i);
            true
        },
        Pat::Array(elems) => {
            let ghost start = bindings_view(identifiers@);
            let mut k: usize = 0;
            while k < elems.len()
                invariant
                    0 <= k <= elems.len(),
                    *pat == Pat::Array(*elems),
                    bindings_view(identifiers@) == start + array_bindings(*pat, k as nat),
                decreases elems.len() - k,
            {
                let ghost before = bindings_view(identifiers@);
                if let Some(el) = &elems[k] {
                    assert(decreases_to!(*pat => elems@[k as int]));
                    collect_from_pat(el, identifiers);
                } else {
                }
                assert(array_bindings(*pat, (k + 1) as nat) == array_bindings(*pat, k as nat) + match elems@[k as int] {
                    Some(q) => pat_bindings(q),
                    None => Seq::empty(),
                });
                assert(bindings_view(identifiers@) =~= start + array_bindings(*pat, (k + 1) as nat));
                k = k + 1;
            }
            false
        },
        Pat::Rest(arg) => {
            push_bare(identifiers, arg);
            false
        },
        Pat::Assign(left) => {
            push_bare(identifiers, left);
            false
        },
        Pat::Object(props) => {
            let ghost start = bindings_view(identifiers@);
            let mut k: usize = 0;
            while k < props.len()
                invariant
                    0 <= k <= props.len(),
                    *pat == Pat::Object(*props),
                    bindings_view(identifiers@) == start + object_bindings(*pat, k as nat),
                decreases props.len() - k,
            {
                match &props[k] {
                    ObjectPatProp::Assign(key) => {
                        push_binding(identifiers, key);
                    },
                    ObjectPatProp::KeyValue(value) => {
                        assert(decreases_to!(*pat => props@[k as int]));
                        collect_from_pat(value, identifiers);
                    },
                    ObjectPatProp::Rest(arg) => {
                        push_bare(identifiers, arg);
                    },
                }
                assert(bindings_view(identifiers@) =~= start + object_bindings(*pat, (k + 1) as nat));
                k = k + 1;
            }
            false
        },
        Pat::Other => {
            assert(bindings_view(identifiers@) =~= bindings_view(identifiers@) + pat_bindings(*pat));
            false
        },
    }
}

/// The identities that `export <var> <pattern>` exports, in source order:
/// every bare identifier at any depth and every shorthand property key.
pub open spec fn pat_exports(p: Pat) -> Seq<(Seq<char>, u32)>
    decreases p, 1nat, 0nat,
{
    match p {
        Pat::Ident(i) => seq![i.id_view()],
        Pat::Array(elems) => array_exports(p, elems.len() as nat),
        Pat::Rest(arg) => pat_exports(*arg),
        Pat::Assign(left) => pat_exports(*left),
        Pat::Object(props) => object_exports(p, props.len() as nat),
        Pat::Other => Seq::empty(),
    }
}

pub open spec fn array_exports(p: Pat, n: nat) -> Seq<(Seq<char>, u32)>
    decreases p, 0nat, n,
{
    match p {
        Pat::Array(elems) => if n == 0 || n > elems.len() {
            Seq::empty()
        } else {
            array_exports(p, (n - 1) as nat) + match elems[n - 1] {
                Some(q) => pat_exports(q),
                None => Seq::empty(),
            }
        },
        _ => Seq::empty(),
    }
}

pub open spec fn object_exports(p: Pat, n: nat) -> Seq<(Seq<char>, u32)>
    decreases p, 0nat, n,
{
    match p {
        Pat::Object(props) => if n == 0 || n > props.len() {
            Seq::empty()
        } else {
            object_exports(p, (n - 1) as nat) + match props[n - 1] {
                ObjectPatProp::Assign(key) => seq![key.id_view()],
                ObjectPatProp::KeyValue(value) => pat_exports(value),
                ObjectPatProp::Rest(arg) => pat_exports(arg),
            }
        },
        _ => Seq::empty(),
    }
}

pub open spec fn ids_view(v: Seq<Id>) -> Seq<(Seq<char>, u32)> {
    v.map_values(|i: Id| i@)
}

fn push_id(out: &mut Vec<Id>, i: &Ident)
    ensures
        ids_view(final(out)@) == ids_view(old(out)@) + seq![i.id_view()],
{
    out.push(i.to_id());
    assert(ids_view(final(out)@) =~= ids_view(old(out)@) + seq![i.id_view()]);
}

/// Appends to `out` the identities that exporting `pat` registers.
pub fn collect_exports_from_pat(pat: &Pat, out: &mut Vec<Id>)
    ensures
        ids_view(final(out)@) == ids_view(old(out)@) + pat_exports(*pat),
    decreases pat,
{
    match pat {
        Pat::Ident(i) => {
            push_id(out, i);
        },
        Pat::Array(elems) => {
            let ghost start = ids_view(out@);
            let mut k: usize = 0;
            while k < elems.len()
                invariant
                    0 <= k <= elems.len(),
                    *pat == Pat::Array(*elems),
                    ids_view(out@) == start + array_exports(*pat, k as nat),
                decreases elems.len() - k,
            {
                if let Some(el) = &elems[k] {
                    assert(decreases_to!(*pat => elems@[k as int]));
                    collect_exports_from_pat(el, out);
                }
                assert(ids_view(out@) =~= start + array_exports(*pat, (k + 1) as nat));
                k = k + 1;
            }
        },
        Pat::Rest(arg) => {
            collect_exports_from_pat(arg, out);
        },
        Pat::Assign(left) => {
            collect_exports_from_pat(left, out);
        },
        Pat::Object(props) => {
            let ghost start = ids_view(out@);
            let mut k: usize = 0;
            while k < props.len()
                invariant
                    0 <= k <= props.len(),
                    *pat == Pat::Object(*props),
                    ids_view(out@) == start + object_exports(*pat, k as nat),
                decreases props.len() - k,
            {
                assert(decreases_to!(*pat => props@[k as int]));
                match &props[k] {
                    ObjectPatProp::Assign(key) => {
                        push_id(out, key);
                    },
                    ObjectPatProp::KeyValue(value) => {
                        collect_exports_from_pat(value, out);
                    },
                    ObjectPatProp::Rest(arg) => {
                        collect_exports_from_pat(arg, out);
                    },
                }
                assert(ids_view(out@) =~= start + object_exports(*pat, (k + 1) as nat));
                k = k + 1;
            }
        },
        Pat::Other => {
            assert(ids_view(out@) =~= ids_view(out@) + pat_exports(*pat));
        },
    }
}

} // verus!
