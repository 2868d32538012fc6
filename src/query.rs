//! Existence and single-value queries along an identifier path.
use vstd::prelude::*;

use crate::lit_cast::{CastError, FromLit};
use crate::meta::{meta_path, path_is_ident, AttrStyle, Attribute, Lit, Meta};

verus! {

/// The identifiers of a query, as character sequences.
pub open spec fn names(id: Seq<&str>) -> Seq<Seq<char>> {
    id.map_values(|s: &str| s@)
}

/// Whether node `m` holds the identifier path `id`: the first identifier
/// names `m` itself, each further one names a node nested one level deeper,
/// and the last one names a bare path. An empty query holds nowhere.
pub open spec fn meta_contains(m: Meta, id: Seq<Seq<char>>) -> bool
    decreases id.len(),
{
    if id.len() == 0 || !path_is_ident(meta_path(m), id[0]) {
        false
    } else {
        let rest = id.drop_first();
        match m {
            Meta::Path(_) => rest.len() == 0,
            Meta::List(_, Some(items)) => exists|i: int|
                0 <= i < items@.len() && meta_contains(#[trigger] items@[i], rest),
            _ => false,
        }
    }
}

/// Whether some outer attribute of `attrs` holds the identifier path `id`.
pub open spec fn attrs_contain(attrs: Seq<Attribute>, id: Seq<Seq<char>>) -> bool {
    exists|i: int|
        0 <= i < attrs.len() && attrs[i].style == AttrStyle::Outer && meta_contains(
            #[trigger] attrs[i].meta,
            id,
        )
}

/// The literal bound at the identifier path `id` in node `m`: the last
/// identifier names a node `name = literal`; among nested nodes the first in
/// order that has one gives it.
pub open spec fn meta_value(m: Meta, id: Seq<Seq<char>>) -> Option<Lit>
    decreases id.len(), 0nat,
{
    if id.len() == 0 || !path_is_ident(meta_path(m), id[0]) {
        None
    } else {
        let rest = id.drop_first();
        match m {
            Meta::NameValue(_, Some(l)) => if rest.len() == 0 {
                Some(l)
            } else {
                None
            },
            Meta::List(_, Some(items)) => first_value(items@, rest),
            _ => None,
        }
    }
}

/// The first literal that a node of `items`, taken in order, binds at `id`.
pub open spec fn first_value(items: Seq<Meta>, id: Seq<Seq<char>>) -> Option<Lit>
    decreases id.len(), items.len(),
{
    if items.len() == 0 {
        None
    } else {
        match meta_value(items[0], id) {
            Some(l) => Some(l),
            None => first_value(items.drop_first(), id),
        }
    }
}

/// The literal that attribute `a` binds at `id`, if `a` is outer.
pub open spec fn attr_literal(a: Attribute, id: Seq<Seq<char>>) -> Option<Lit> {
    if a.style == AttrStyle::Outer {
        meta_value(a.meta, id)
    } else {
        None
    }
}

/// The first literal that an outer attribute of `attrs`, taken in order,
/// binds at `id`.
pub open spec fn first_literal(attrs: Seq<Attribute>, id: Seq<Seq<char>>) -> Option<Lit>
    decreases attrs.len(),
{
    if attrs.len() == 0 {
        None
    } else {
        match attr_literal(attrs[0], id) {
            Some(l) => Some(l),
            None => first_literal(attrs.drop_first(), id),
        }
    }
}

/// The answer to a value query of type `T` at `id`: the first literal bound
/// there, read as a `T`; nothing where there is no such literal or where it
/// does not read as a `T`.
pub open spec fn attrs_value<T: FromLit>(attrs: Seq<Attribute>, id: Seq<Seq<char>>) -> Option<T> {
    match first_literal(attrs, id) {
        Some(l) => match T::cast_spec(l) {
            Ok(v) => Some(v),
            Err(_) => None,
        },
        None => None,
    }
}

/// Whether some outer attribute holds the identifier path `id`, ending in a
/// bare path: `["a", "b"]` is held by `#[a(b)]`, not by `#[a(b = 1)]`,
/// `#[a(b(c))]` or `#[b]`.
pub fn contains_attribute(attrs: &[Attribute], id: &[&str]) -> (r: bool)
    ensures
        r == attrs_contain(attrs@, names(id@)),
{
    let mut i: usize = 0;
    assert(names(id@).subrange(0, id@.len() as int) =~= names(id@));
    while i < attrs.len()
        invariant
            0 <= i <= attrs@.len(),
            names(id@).subrange(0, id@.len() as int) == names(id@),
            forall|j: int|
                0 <= j < i ==> !(attrs@[j].style == AttrStyle::Outer && meta_contains(
                    #[trigger] attrs@[j].meta,
                    names(id@),
                )),
        decreases attrs@.len() - i,
    {
        let a = &attrs[i];
        if a.style == AttrStyle::Outer && contains_attribute_impl(&a.meta, id, 0) {
            return true;
        }
        i = i + 1;
    }
    false
}

/// Whether `meta` holds the identifiers of `id` from position `k` on.
pub fn contains_attribute_impl(meta: &Meta, id: &[&str], k: usize) -> (r: bool)
    requires
        k <= id@.len(),
    ensures
        r == meta_contains(*meta, names(id@).subrange(k as int, id@.len() as int)),
    decreases id@.len() - k,
{
    let ghost q = names(id@).subrange(k as int, id@.len() as int);
    if k == id.len() || !meta.path().is_ident(id[k]) {
        return false;
    }
    let ghost rest = names(id@).subrange(k + 1, id@.len() as int);
    assert(q.drop_first() =~= rest);
    let next = k + 1;
    match meta {
        Meta::Path(_) => next == id.len(),
        Meta::List(_, Some(items)) => {
            let mut i: usize = 0;
            assert(meta_contains(*meta, q) == exists|j: int|
                0 <= j < items@.len() && meta_contains(#[trigger] items@[j], rest));
            while i < items.len()
                invariant
                    0 <= i <= items@.len(),
                    q == names(id@).subrange(k as int, id@.len() as int),
                    meta_contains(*meta, q) == exists|j: int|
                        0 <= j < items@.len() && meta_contains(#[trigger] items@[j], rest),
                    next == k + 1,
                    next <= id@.len(),
                    rest == names(id@).subrange(next as int, id@.len() as int),
                    forall|j: int| 0 <= j < i ==> !meta_contains(#[trigger] items@[j], rest),
                decreases items@.len() - i,
            {
                if contains_attribute_impl(&items[i], id, next) {
                    assert(meta_contains(items@[i as int], rest));
                    return true;
                }
                i = i + 1;
            }
            false
        },
        _ => false,
    }
}

/// The value of type `T` bound at the identifier path `id`: the first literal
/// that an outer attribute binds there, read as a `T`. `["a", "b"]` finds `1`
/// in `#[a(b = 1)]`. Where that first literal does not read as a `T`, there is
/// no value.
pub fn get_attribute_value<T: FromLit>(attrs: &[Attribute], id: &[&str]) -> (r: Option<T>)
    ensures
        r == attrs_value::<T>(attrs@, names(id@)),
{
    let mut i: usize = 0;
    assert(names(id@).subrange(0, id@.len() as int) =~= names(id@));
    assert(attrs@.subrange(0, attrs@.len() as int) =~= attrs@);
    while i < attrs.len()
        invariant
            0 <= i <= attrs@.len(),
            names(id@).subrange(0, id@.len() as int) == names(id@),
            first_literal(attrs@, names(id@)) == first_literal(
                attrs@.subrange(i as int, attrs@.len() as int),
                names(id@),
            ),
        decreases attrs@.len() - i,
    {
        let ghost tail = attrs@.subrange(i as int, attrs@.len() as int);
        assert(tail.drop_first() =~= attrs@.subrange(i + 1, attrs@.len() as int));
        assert(tail[0] == attrs@[i as int]);
        let a = &attrs[i];
        if a.style == AttrStyle::Outer {
            match get_attribute_value_impl(&a.meta, id, 0) {
                Some(l) => {
                    return match T::from_lit(l) {
                        Ok(v) => Some(v),
                        Err(_) => None,
                    };
                },
                None => {},
            }
        }
        i = i + 1;
    }
    assert(attrs@.subrange(i as int, attrs@.len() as int) =~= Seq::<Attribute>::empty());
    None
}

/// The first literal bound in `meta` at the identifiers of `id` from
/// position `k` on.
pub fn get_attribute_value_impl(meta: &Meta, id: &[&str], k: usize) -> (r: Option<Lit>)
    requires
        k <= id@.len(),
    ensures
        r == meta_value(*meta, names(id@).subrange(k as int, id@.len() as int)),
    decreases id@.len() - k,
{
    let ghost q = names(id@).subrange(k as int, id@.len() as int);
    if k == id.len() || !meta.path().is_ident(id[k]) {
        return None;
    }
    let ghost rest = names(id@).subrange(k + 1, id@.len() as int);
    assert(q.drop_first() =~= rest);
    let next = k + 1;
    match meta {
        Meta::NameValue(_, Some(l)) => if next == id.len() {
            Some(l.clone())
        } else {
            None
        },
        Meta::List(_, Some(items)) => {
            let mut i: usize = 0;
            assert(items@.subrange(0, items@.len() as int) =~= items@);
            assert(meta_value(*meta, q) == first_value(items@, rest));
            while i < items.len()
                invariant
                    0 <= i <= items@.len(),
                    q == names(id@).subrange(k as int, id@.len() as int),
                    meta_value(*meta, q) == first_value(items@, rest),
                    next == k + 1,
                    next <= id@.len(),
                    rest == names(id@).subrange(next as int, id@.len() as int),
                    first_value(items@, rest) == first_value(
                        items@.subrange(i as int, items@.len() as int),
                        rest,
                    ),
                decreases items@.len() - i,
            {
                let ghost tail = items@.subrange(i as int, items@.len() as int);
                assert(tail.drop_first() =~= items@.subrange(i + 1, items@.len() as int));
                assert(tail[0] == items@[i as int]);
                let found = get_attribute_value_impl(&items[i], id, next);
                if found.is_some() {
                    return found;
                }
                i = i + 1;
            }
            assert(items@.subrange(i as int, items@.len() as int) =~= Seq::<Meta>::empty());
            None
        },
        _ => None,
    }
}

/// A query is matched from the top down: wherever it holds in a node, or
/// finds a literal there, its first identifier is that node's own name.
pub proof fn lemma_query_starts_at_node(m: Meta, id: Seq<Seq<char>>)
    requires
        meta_contains(m, id) || meta_value(m, id) is Some,
    ensures
        id.len() > 0,
        path_is_ident(meta_path(m), id[0]),
{
}

/// The literal that a value query reads comes from the first outer
/// attribute, in order, that binds one at the path; none before it does.
pub proof fn lemma_first_literal_in_order(attrs: Seq<Attribute>, id: Seq<Seq<char>>)
    requires
        first_literal(attrs, id) is Some,
    ensures
        exists|i: int|
            0 <= i < attrs.len() && attr_literal(#[trigger] attrs[i], id) == first_literal(
                attrs,
                id,
            ) && forall|j: int| 0 <= j < i ==> attr_literal(#[trigger] attrs[j], id) is None,
    decreases attrs.len(),
{
    if attr_literal(attrs[0], id) is Some {
        assert(attr_literal(attrs[0], id) == first_literal(attrs, id));
    } else {
        let rest = attrs.drop_first();
        lemma_first_literal_in_order(rest, id);
        let i = choose|i: int|
            0 <= i < rest.len() && attr_literal(#[trigger] rest[i], id) == first_literal(rest, id)
                && forall|j: int| 0 <= j < i ==> attr_literal(#[trigger] rest[j], id) is None;
        assert(attrs[i + 1] == rest[i]);
        assert forall|j: int| 0 <= j < i + 1 implies attr_literal(#[trigger] attrs[j], id) is None by {
            if j > 0 {
                assert(attrs[j] == rest[j - 1]);
            }
        }
    }
}

/// A value query finds nothing where no outer attribute binds a literal at
/// the path.
pub proof fn lemma_no_literal_no_value<T: FromLit>(attrs: Seq<Attribute>, id: Seq<Seq<char>>)
    requires
        forall|i: int| 0 <= i < attrs.len() ==> attr_literal(#[trigger] attrs[i], id) is None,
    ensures
        attrs_value::<T>(attrs, id) is None,
{
    lemma_no_literal(attrs, id);
}

proof fn lemma_no_literal(attrs: Seq<Attribute>, id: Seq<Seq<char>>)
    requires
        forall|i: int| 0 <= i < attrs.len() ==> attr_literal(#[trigger] attrs[i], id) is None,
    ensures
        first_literal(attrs, id) is None,
    decreases attrs.len(),
{
    if attrs.len() > 0 {
        let rest = attrs.drop_first();
        assert forall|i: int| 0 <= i < rest.len() implies attr_literal(#[trigger] rest[i], id) is None by {
            assert(rest[i] == attrs[i + 1]);
        }
        lemma_no_literal(rest, id);
        assert(attr_literal(attrs[0], id) is None);
    }
}

/// Where the first literal bound at the path does not read as a `T`, a value
/// query of type `T` finds nothing, whatever later attributes bind.
pub proof fn lemma_mismatch_gives_no_value<T: FromLit>(
    attrs: Seq<Attribute>,
    id: Seq<Seq<char>>,
    l: Lit,
)
    requires
        first_literal(attrs, id) == Some(l),
        T::cast_spec(l) is Err,
    ensures
        attrs_value::<T>(attrs, id) is None,
{
}

} // verus!
