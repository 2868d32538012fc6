//! Flattening attributes into a map from dotted keys to literals.
use vstd::prelude::*;

use crate::meta::{attrs_wf, meta_path, meta_wf, path_text, AttrStyle, Attribute, Lit, Meta, Path};

verus! {

/// The flattened map: each key with the literals collected under it, in the
/// order met. A key with no literals stands for a bare path.
pub type AttrMap = Map<Seq<char>, Seq<Lit>>;

/// The key of a node named `name` under the key `prefix`.
pub open spec fn join_key(prefix: Seq<char>, sep: Seq<char>, name: Seq<char>) -> Seq<char> {
    if prefix.len() == 0 {
        name
    } else {
        prefix + sep + name
    }
}

/// Records a bare path at `key`; a key met before is a conflict (`None`).
pub open spec fn add_marker(m: AttrMap, key: Seq<char>) -> Option<AttrMap> {
    if m.contains_key(key) {
        None
    } else {
        Some(m.insert(key, Seq::empty()))
    }
}

/// Records the literal `l` at `key`; a key first met as a bare path is a
/// conflict (`None`).
pub open spec fn add_value(m: AttrMap, key: Seq<char>, l: Lit) -> Option<AttrMap> {
    if m.contains_key(key) {
        if m[key].len() == 0 {
            None
        } else {
            Some(m.insert(key, m[key].push(l)))
        }
    } else {
        Some(m.insert(key, seq![l]))
    }
}

/// The map after node `meta`, met under the key `prefix`, is added to `acc`.
pub open spec fn collect_meta(acc: Option<AttrMap>, meta: Meta, prefix: Seq<char>, sep: Seq<char>)
    -> Option<AttrMap>
    decreases meta,
{
    match acc {
        None => None,
        Some(m) => {
            let key = join_key(prefix, sep, path_text(meta_path(meta)));
            match meta {
                Meta::Path(_) => add_marker(m, key),
                Meta::NameValue(_, Some(l)) => add_value(m, key, l),
                Meta::List(_, Some(items)) => collect_items(Some(m), items@, key, sep),
                _ => Some(m),
            }
        },
    }
}

/// The map after the nodes `items`, in order, are added to `acc`.
pub open spec fn collect_items(
    acc: Option<AttrMap>,
    items: Seq<Meta>,
    prefix: Seq<char>,
    sep: Seq<char>,
) -> Option<AttrMap>
    decreases items,
{
    if items.len() == 0 {
        acc
    } else {
        collect_items(collect_meta(acc, items[0], prefix, sep), items.drop_first(), prefix, sep)
    }
}

/// The map after the outer attributes of `attrs`, in order, are added to `acc`.
pub open spec fn collect_attrs(acc: Option<AttrMap>, attrs: Seq<Attribute>, sep: Seq<char>)
    -> Option<AttrMap>
    decreases attrs.len(),
{
    if attrs.len() == 0 {
        acc
    } else {
        let next = if attrs[0].style == AttrStyle::Outer {
            collect_meta(acc, attrs[0].meta, Seq::empty(), sep)
        } else {
            acc
        };
        collect_attrs(next, attrs.drop_first(), sep)
    }
}

/// The flattened map of `attrs`, or `None` where a key is met both as a bare
/// path and bound to a literal, or twice as a bare path.
pub open spec fn attribute_map(attrs: Seq<Attribute>, sep: Seq<char>) -> Option<AttrMap> {
    collect_attrs(Some(Map::empty()), attrs, sep)
}

/// No two entries share a key.
pub open spec fn keys_unique(e: Seq<(String, Vec<Lit>)>) -> bool {
    forall|i: int, j: int| 0 <= i < j < e.len() ==> e[i].0@ != e[j].0@
}

/// The map that a list of entries stands for.
pub open spec fn entries_map(e: Seq<(String, Vec<Lit>)>) -> AttrMap
    decreases e.len(),
{
    if e.len() == 0 {
        Map::empty()
    } else {
        entries_map(e.drop_last()).insert(e.last().0@, e.last().1@)
    }
}

proof fn lemma_entries_map_absent(e: Seq<(String, Vec<Lit>)>, key: Seq<char>)
    requires
        forall|j: int| 0 <= j < e.len() ==> e[j].0@ != key,
    ensures
        !entries_map(e).contains_key(key),
    decreases e.len(),
{
    if e.len() > 0 {
        lemma_entries_map_absent(e.drop_last(), key);
    }
}

proof fn lemma_entries_map_at(e: Seq<(String, Vec<Lit>)>, j: int)
    requires
        keys_unique(e),
        0 <= j < e.len(),
    ensures
        entries_map(e).contains_key(e[j].0@),
        entries_map(e)[e[j].0@] == e[j].1@,
    decreases e.len(),
{
    if j < e.len() - 1 {
        lemma_entries_map_at(e.drop_last(), j);
    }
}

proof fn lemma_entries_map_update(e: Seq<(String, Vec<Lit>)>, j: int, entry: (String, Vec<Lit>))
    requires
        keys_unique(e),
        0 <= j < e.len(),
        entry.0@ == e[j].0@,
    ensures
        entries_map(e.update(j, entry)) == entries_map(e).insert(entry.0@, entry.1@),
    decreases e.len(),
{
    let u = e.update(j, entry);
    if j == e.len() - 1 {
        assert(u.drop_last() =~= e.drop_last());
        assert(entries_map(u) =~= entries_map(e).insert(entry.0@, entry.1@));
    } else {
        assert(u.drop_last() =~= e.drop_last().update(j, entry));
        lemma_entries_map_update(e.drop_last(), j, entry);
        assert(entries_map(u) =~= entries_map(e).insert(entry.0@, entry.1@));
    }
}

proof fn lemma_collect_items_none(items: Seq<Meta>, prefix: Seq<char>, sep: Seq<char>)
    ensures
        collect_items(None, items, prefix, sep) == None::<AttrMap>,
    decreases items.len(),
{
    if items.len() > 0 {
        assert(collect_meta(None, items[0], prefix, sep) == None::<AttrMap>);
        lemma_collect_items_none(items.drop_first(), prefix, sep);
    }
}

proof fn lemma_collect_attrs_none(attrs: Seq<Attribute>, sep: Seq<char>)
    ensures
        collect_attrs(None, attrs, sep) == None::<AttrMap>,
    decreases attrs.len(),
{
    if attrs.len() > 0 {
        lemma_collect_attrs_none(attrs.drop_first(), sep);
    }
}

/// The position of the entry with key `key`, if there is one.
fn find_key(map: &Vec<(String, Vec<Lit>)>, key: &String) -> (r: Option<usize>)
    ensures
        match r {
            Some(j) => j < map@.len() && map@[j as int].0@ == key@,
            None => forall|j: int| 0 <= j < map@.len() ==> map@[j].0@ != key@,
        },
{
    let mut j: usize = 0;
    while j < map.len()
        invariant
            j <= map@.len(),
            forall|t: int| 0 <= t < j ==> map@[t].0@ != key@,
        decreases map@.len() - j,
    {
        if map[j].0 == *key {
            return Some(j);
        }
        j = j + 1;
    }
    None
}

/// A key met as a bare path and then bound to a literal is a conflict.
pub proof fn lemma_marker_then_value_conflict(
    m: AttrMap,
    p: Path,
    l: Lit,
    prefix: Seq<char>,
    sep: Seq<char>,
)
    ensures
        collect_items(Some(m), seq![Meta::Path(p), Meta::NameValue(p, Some(l))], prefix, sep)
            is None,
{
    let items = seq![Meta::Path(p), Meta::NameValue(p, Some(l))];
    let key = join_key(prefix, sep, path_text(p));
    let s1 = collect_meta(Some(m), items[0], prefix, sep);
    let s2 = collect_meta(s1, items[1], prefix, sep);
    assert(items.drop_first()[0] == items[1]);
    assert(items.drop_first().drop_first() =~= Seq::<Meta>::empty());
    assert(collect_items(Some(m), items, prefix, sep) == collect_items(s1, items.drop_first(), prefix, sep));
    assert(collect_items(s1, items.drop_first(), prefix, sep) == collect_items(
        s2,
        items.drop_first().drop_first(),
        prefix,
        sep,
    ));
    assert(collect_items(s2, Seq::<Meta>::empty(), prefix, sep) == s2);
    assert(s1 is Some ==> s1->Some_0.contains_key(key));
}

/// A key bound to a literal and then met as a bare path is a conflict.
pub proof fn lemma_value_then_marker_conflict(
    m: AttrMap,
    p: Path,
    l: Lit,
    prefix: Seq<char>,
    sep: Seq<char>,
)
    ensures
        collect_items(Some(m), seq![Meta::NameValue(p, Some(l)), Meta::Path(p)], prefix, sep)
            is None,
{
    let items = seq![Meta::NameValue(p, Some(l)), Meta::Path(p)];
    let key = join_key(prefix, sep, path_text(p));
    let s1 = collect_meta(Some(m), items[0], prefix, sep);
    let s2 = collect_meta(s1, items[1], prefix, sep);
    assert(items.drop_first()[0] == items[1]);
    assert(items.drop_first().drop_first() =~= Seq::<Meta>::empty());
    assert(collect_items(Some(m), items, prefix, sep) == collect_items(s1, items.drop_first(), prefix, sep));
    assert(collect_items(s1, items.drop_first(), prefix, sep) == collect_items(
        s2,
        items.drop_first().drop_first(),
        prefix,
        sep,
    ));
    assert(collect_items(s2, Seq::<Meta>::empty(), prefix, sep) == s2);
    assert(s1 is Some ==> s1->Some_0.contains_key(key));
}

/// Adds node `meta`, met under the key `prefix`, to `map`; false on a conflict.
fn collect_meta_into(
    map: &mut Vec<(String, Vec<Lit>)>,
    meta: &Meta,
    prefix: &str,
    separator: &str,
) -> (ok: bool)
    requires
        keys_unique(old(map)@),
    ensures
        ok == collect_meta(Some(entries_map(old(map)@)), *meta, prefix@, separator@) is Some,
        ok ==> keys_unique(final(map)@) && collect_meta(
            Some(entries_map(old(map)@)),
            *meta,
            prefix@,
            separator@,
        ) == Some(entries_map(final(map)@)),
    decreases meta,
{
    let name = meta.path().text();
    let key: String = if prefix.is_empty() {
        name.clone()
    } else {
        prefix.to_owned().concat(separator).concat(name.as_str())
    };
    assert(key@ == join_key(prefix@, separator@, path_text(meta_path(*meta))));
    let ghost m0 = entries_map(map@);
    match meta {
        Meta::Path(_) => {
            match find_key(map, &key) {
                Some(j) => {
                    proof {
                        lemma_entries_map_at(map@, j as int);
                    }
                    false
                },
                None => {
                    proof {
                        lemma_entries_map_absent(map@, key@);
                    }
                    let ghost before = map@;
                    map.push((key, Vec::new()));
                    assert(map@.drop_last() =~= before);
                    assert(entries_map(map@) =~= m0.insert(key@, Seq::empty()));
                    true
                },
            }
        },
        Meta::NameValue(_, Some(l)) => {
            match find_key(map, &key) {
                Some(j) => {
                    proof {
                        lemma_entries_map_at(map@, j as int);
                    }
                    if map[j].1.len() == 0 {
                        false
                    } else {
                        let ghost before = map@;
                        let mut values = Vec::new();
                        std::mem::swap(&mut values, &mut map[j].1);
                        values.push(l.clone());
                        std::mem::swap(&mut values, &mut map[j].1);
                        proof {
                            assert(map@ =~= before.update(j as int, map@[j as int]));
                            lemma_entries_map_update(before, j as int, map@[j as int]);
                            assert(map@[j as int].1@ =~= m0[key@].push(*l));
                        }
                        true
                    }
                },
                None => {
                    proof {
                        lemma_entries_map_absent(map@, key@);
                    }
                    let ghost before = map@;
                    let mut values = Vec::new();
                    values.push(l.clone());
                    map.push((key, values));
                    assert(map@.drop_last() =~= before);
                    assert(entries_map(map@) =~= m0.insert(key@, seq![*l]));
                    true
                },
            }
        },
        Meta::List(p, Some(items)) => {
            let ghost goal = collect_meta(Some(m0), *meta, prefix@, separator@);
            assert(items@.subrange(0, items@.len() as int) =~= items@);
            let mut i: usize = 0;
            while i < items.len()
                invariant
                    i <= items@.len(),
                    *meta == Meta::List(*p, Some(*items)),
                    goal == collect_meta(Some(entries_map(old(map)@)), *meta, prefix@, separator@),
                    keys_unique(map@),
                    goal == collect_items(
                        Some(entries_map(map@)),
                        items@.subrange(i as int, items@.len() as int),
                        key@,
                        separator@,
                    ),
                decreases items@.len() - i,
            {
                let ghost tail = items@.subrange(i as int, items@.len() as int);
                assert(tail.drop_first() =~= items@.subrange(i + 1, items@.len() as int));
                assert(tail[0] == items@[i as int]);
                proof {
                    broadcast use vstd::std_specs::vec::axiom_vec_index_decreases;

                    assert(decreases_to!(*items => items@[i as int]));
                }
                let ghost m1 = entries_map(map@);
                if !collect_meta_into(map, &items[i], key.as_str(), separator) {
                    proof {
                        assert(collect_meta(Some(m1), tail[0], key@, separator@) == None::<AttrMap>);
                        lemma_collect_items_none(tail.drop_first(), key@, separator@);
                    }
                    return false;
                }
                i = i + 1;
            }
            assert(items@.subrange(i as int, items@.len() as int) =~= Seq::<Meta>::empty());
            true
        },
        _ => true,
    }
}

/// Adds node `meta`, met under the key `prefix` (empty at the top), to `map`:
/// a bare path adds its key with no literals, `name = literal` appends the
/// literal under its key, and a list adds its nested nodes under its own key.
pub fn get_attribute_map_impl(
    map: &mut Vec<(String, Vec<Lit>)>,
    meta: &Meta,
    prefix: &str,
    separator: &str,
)
    requires
        meta_wf(*meta),
        keys_unique(old(map)@),
        collect_meta(Some(entries_map(old(map)@)), *meta, prefix@, separator@) is Some,
    ensures
        keys_unique(final(map)@),
        collect_meta(Some(entries_map(old(map)@)), *meta, prefix@, separator@) == Some(
            entries_map(final(map)@),
        ),
{
    collect_meta_into(map, meta, prefix, separator);
}

/// The flattened map of the outer attributes of `attrs`, keys joined with
/// `separator`; `None` where a key is met both as a bare path and bound to a
/// literal, or twice as a bare path.
pub fn try_get_attribute_map(attrs: &[Attribute], separator: &str) -> (r: Option<
    Vec<(String, Vec<Lit>)>,
>)
    ensures
        match r {
            None => attribute_map(attrs@, separator@) is None,
            Some(e) => keys_unique(e@) && attribute_map(attrs@, separator@) == Some(
                entries_map(e@),
            ),
        },
{
    let mut map: Vec<(String, Vec<Lit>)> = Vec::new();
    let top = String::new();
    assert(attrs@.subrange(0, attrs@.len() as int) =~= attrs@);
    assert(entries_map(map@) =~= Map::empty());
    let mut i: usize = 0;
    while i < attrs.len()
        invariant
            i <= attrs@.len(),
            top@ == Seq::<char>::empty(),
            keys_unique(map@),
            attribute_map(attrs@, separator@) == collect_attrs(
                Some(entries_map(map@)),
                attrs@.subrange(i as int, attrs@.len() as int),
                separator@,
            ),
        decreases attrs@.len() - i,
    {
        let ghost tail = attrs@.subrange(i as int, attrs@.len() as int);
        assert(tail.drop_first() =~= attrs@.subrange(i + 1, attrs@.len() as int));
        assert(tail[0] == attrs@[i as int]);
        let a = &attrs[i];
        if a.style == AttrStyle::Outer {
            let ghost m1 = entries_map(map@);
            if !collect_meta_into(&mut map, &a.meta, top.as_str(), separator) {
                proof {
                    assert(collect_meta(Some(m1), a.meta, Seq::empty(), separator@)
                        == None::<AttrMap>);
                    lemma_collect_attrs_none(tail.drop_first(), separator@);
                }
                return None;
            }
        }
        i = i + 1;
    }
    assert(attrs@.subrange(i as int, attrs@.len() as int) =~= Seq::<Attribute>::empty());
    Some(map)
}

/// The flattened map of the outer attributes of `attrs`, keys joined with
/// `separator`: for `#[a(b = 1, c(d))]` and `"."`, the key `a.b` with `[1]`
/// and the key `a.c.d` with no literals.
pub fn get_attribute_map(attrs: &[Attribute], separator: &str) -> (r: Vec<(String, Vec<Lit>)>)
    requires
        attrs_wf(attrs@),
        attribute_map(attrs@, separator@) is Some,
    ensures
        keys_unique(r@),
        attribute_map(attrs@, separator@) == Some(entries_map(r@)),
{
    match try_get_attribute_map(attrs, separator) {
        Some(map) => map,
        None => Vec::new(),
    }
}

} // verus!
