use std::collections::HashMap;

use attr_query::{
    get_attribute_map, get_attribute_map_impl, try_get_attribute_map, AttrStyle, Attribute, Lit,
    Meta, Path,
};

fn ident(name: &str) -> Path {
    Path::Ident(name.to_string())
}

fn bare(name: &str) -> Meta {
    Meta::Path(ident(name))
}

fn list(name: &str, items: Vec<Meta>) -> Meta {
    Meta::List(ident(name), Some(items))
}

fn name_value(name: &str, lit: Lit) -> Meta {
    Meta::NameValue(ident(name), Some(lit))
}

fn lit_str(s: &str) -> Lit {
    Lit::Str(s.to_string())
}

fn outer(meta: Meta) -> Attribute {
    Attribute { style: AttrStyle::Outer, meta }
}

fn as_map(entries: Vec<(String, Vec<Lit>)>) -> HashMap<String, Vec<Lit>> {
    let n = entries.len();
    let map: HashMap<String, Vec<Lit>> = entries.into_iter().collect();
    assert_eq!(map.len(), n, "a key stands twice");
    map
}

// #[level0(level1 = "hi", level1_1(level2 = "bye"))]
fn level0_hi_bye() -> Meta {
    list(
        "level0",
        vec![
            name_value("level1", lit_str("hi")),
            list("level1_1", vec![name_value("level2", lit_str("bye"))]),
        ],
    )
}

#[test]
fn test_get_attribute_map_impl() {
    // #[level0(level1 = "hi", level1 = "hi", level1_1(level2 = "bye"))]
    let meta = list(
        "level0",
        vec![
            name_value("level1", lit_str("hi")),
            name_value("level1", lit_str("hi")),
            list("level1_1", vec![name_value("level2", lit_str("bye"))]),
        ],
    );

    let mut result = Vec::new();
    get_attribute_map_impl(&mut result, &meta, "", ".");
    assert_eq!(
        as_map(result),
        vec![
            ("level0.level1".to_string(), vec![lit_str("hi"), lit_str("hi")]),
            ("level0.level1_1.level2".to_string(), vec![lit_str("bye")]),
        ]
        .into_iter()
        .collect()
    );
}

#[test]
fn test_get_attribute_map() {
    assert_eq!(
        as_map(get_attribute_map(
            &[
                outer(bare("level9")),
                outer(name_value("level0_0", lit_str("greeting"))),
                outer(list("level0", vec![bare("level8")])),
                outer(level0_hi_bye()),
                outer(level0_hi_bye()),
                outer(list(
                    "gen0",
                    vec![
                        name_value("gen1", lit_str("amoeba")),
                        name_value("gen1_1", lit_str("monad")),
                        list("gen1_2", vec![name_value("gen2", lit_str("monoid"))]),
                    ],
                )),
            ],
            ".",
        )),
        vec![
            ("level0_0".to_string(), vec![lit_str("greeting")]),
            ("level9".to_string(), vec![]),
            ("level0.level8".to_string(), vec![]),
            ("level0.level1".to_string(), vec![lit_str("hi"), lit_str("hi")]),
            ("level0.level1_1.level2".to_string(), vec![lit_str("bye"), lit_str("bye")]),
            ("gen0.gen1".to_string(), vec![lit_str("amoeba")]),
            ("gen0.gen1_1".to_string(), vec![lit_str("monad")]),
            ("gen0.gen1_2.gen2".to_string(), vec![lit_str("monoid")]),
        ]
        .into_iter()
        .collect()
    );
}

#[test]
fn map_of_no_attributes_is_empty() {
    assert_eq!(get_attribute_map(&[], "."), Vec::new());
}

#[test]
fn map_joins_keys_with_the_separator() {
    let attrs = [outer(level0_hi_bye())];
    let map = as_map(get_attribute_map(&attrs, "::"));
    assert_eq!(map.get("level0::level1"), Some(&vec![lit_str("hi")]));
    assert_eq!(map.get("level0::level1_1::level2"), Some(&vec![lit_str("bye")]));
    assert_eq!(map.len(), 2);
}

#[test]
fn map_skips_inner_attributes_and_other_values() {
    let attrs = [
        Attribute { style: AttrStyle::Inner, meta: bare("hidden") },
        outer(Meta::NameValue(ident("computed"), None)),
        outer(Meta::List(ident("unreadable"), None)),
        outer(Meta::Path(Path::Other("a :: b".to_string()))),
    ];
    let map = as_map(get_attribute_map(&attrs, "."));
    assert_eq!(map, vec![("a :: b".to_string(), vec![])].into_iter().collect());
}

#[test]
fn map_refuses_a_marker_then_a_value() {
    let attrs = [outer(bare("a")), outer(name_value("a", lit_str("x")))];
    assert_eq!(try_get_attribute_map(&attrs, "."), None);
}

#[test]
fn map_refuses_a_value_then_a_marker() {
    let attrs = [outer(list("a", vec![name_value("b", lit_str("x")), bare("b")]))];
    assert_eq!(try_get_attribute_map(&attrs, "."), None);
}

#[test]
fn map_refuses_a_marker_twice() {
    let attrs = [outer(bare("a")), outer(bare("a"))];
    assert_eq!(try_get_attribute_map(&attrs, "."), None);
}

#[test]
fn map_keeps_values_in_order() {
    let attrs = [
        outer(name_value("a", Lit::Int("1".to_string()))),
        outer(name_value("a", Lit::Int("2".to_string()))),
    ];
    let map = try_get_attribute_map(&attrs, ".").unwrap();
    assert_eq!(
        map,
        vec![("a".to_string(), vec![Lit::Int("1".to_string()), Lit::Int("2".to_string())])]
    );
}
