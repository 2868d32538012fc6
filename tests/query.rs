use attr_query::{
    contains_attribute, contains_attribute_impl, get_attribute_value, get_attribute_value_impl,
    AttrStyle, Attribute, Lit, Meta, Path,
};

fn ident(name: &str) -> Path {
    Path::Ident(name.to_string())
}

fn bare(name: &str) -> Meta {
    Meta::Path(ident(name))
}

fn list(name: &str, items: Vec<Meta>) -> Meta {
    Meta::List(ident(name), Some(items))
}

fn name_value(name: &str, lit: Lit) -> Meta {
    Meta::NameValue(ident(name), Some(lit))
}

fn lit_str(s: &str) -> Lit {
    Lit::Str(s.to_string())
}

fn outer(meta: Meta) -> Attribute {
    Attribute { style: AttrStyle::Outer, meta }
}

fn inner(meta: Meta) -> Attribute {
    Attribute { style: AttrStyle::Inner, meta }
}

#[test]
fn test_contains_attribute_impl() {
    let attr = outer(bare("level0"));
    assert!(contains_attribute(&[attr], &["level0"]));

    // #[level0(level1, level1_1(level2, level2_1 = "hello", level2_2), level1_2)]
    let attr = outer(list(
        "level0",
        vec![
            bare("level1"),
            list(
                "level1_1",
                vec![bare("level2"), name_value("level2_1", lit_str("hello")), bare("level2_2")],
            ),
            bare("level1_2"),
        ],
    ));
    let attr = [attr];

    assert!(!contains_attribute(&attr, &[]));

    assert!(!contains_attribute(&attr, &["not"]));

    assert!(!contains_attribute(&attr, &["level0"]));

    assert!(contains_attribute(&attr, &["level0", "level1"]));

    assert!(!contains_attribute(&attr, &["level0", "level1_1"]));

    assert!(contains_attribute(&attr, &["level0", "level1_2"]));

    assert!(contains_attribute(&attr, &["level0", "level1_1", "level2"]));

    assert!(contains_attribute(&attr, &["level0", "level1_1", "level2_2"]));

    assert!(!contains_attribute(&attr, &["level0", "level1_1", "level2_1"]));
}

#[test]
fn test_get_attribute_value_impl() {
    // #[level0(level1 = "hi", level1_1(level2 = "bye"))]
    let meta = list(
        "level0",
        vec![
            name_value("level1", lit_str("hi")),
            list("level1_1", vec![name_value("level2", lit_str("bye"))]),
        ],
    );

    assert_eq!(get_attribute_value_impl(&meta, &[], 0), None);

    assert_eq!(get_attribute_value_impl(&meta, &["not"], 0), None);

    assert_eq!(get_attribute_value_impl(&meta, &["level0"], 0), None);

    assert_eq!(get_attribute_value_impl(&meta, &["level0", "level1"], 0), Some(lit_str("hi")));

    assert_eq!(get_attribute_value_impl(&meta, &["level0", "level1_1"], 0), None);

    assert_eq!(
        get_attribute_value_impl(&meta, &["level0", "level1_1", "level2"], 0),
        Some(lit_str("bye"))
    );

    // #[doc = "hi"]
    let meta = name_value("doc", lit_str("hi"));

    assert_eq!(get_attribute_value_impl(&meta, &["doc"], 0), Some(lit_str("hi")));
}

#[test]
fn test_get_attribute_value() {
    let attr = outer(name_value("level0", lit_str("hi")));
    assert_eq!(get_attribute_value(&[attr], &["level0"]), Some(lit_str("hi")));

    // #[level0(level1 = "hi", level1_1(level2 = false))]
    let attr = outer(list(
        "level0",
        vec![
            name_value("level1", lit_str("hi")),
            list("level1_1", vec![name_value("level2", Lit::Bool(false))]),
        ],
    ));
    let attr = [attr];

    assert_eq!(get_attribute_value::<String>(&attr, &[""]), None);

    assert_eq!(get_attribute_value::<String>(&attr, &["not"]), None);

    assert_eq!(get_attribute_value::<String>(&attr, &["level0"]), None);

    assert_eq!(get_attribute_value(&attr, &["level0", "level1"]), Some("hi".to_string()));

    assert_eq!(get_attribute_value::<Lit>(&attr, &["level0", "level1_1"]), None);

    assert_eq!(get_attribute_value(&attr, &["level0", "level1_1", "level2"]), Some(false));
}

#[test]
fn contains_skips_inner_attributes() {
    let attrs = [inner(bare("level0")), outer(bare("other"))];
    assert!(!contains_attribute(&attrs, &["level0"]));
    assert!(contains_attribute(&attrs, &["other"]));
}

#[test]
fn contains_needs_a_plain_identifier() {
    let meta = Meta::Path(Path::Other("a :: b".to_string()));
    assert!(!contains_attribute_impl(&meta, &["a :: b"], 0));
    assert!(!contains_attribute_impl(&meta, &["a"], 0));
}

#[test]
fn contains_ignores_an_unreadable_list() {
    let attrs = [outer(Meta::List(ident("level0"), None))];
    assert!(!contains_attribute(&attrs, &["level0", "level1"]));
    assert!(!contains_attribute(&attrs, &["level0"]));
}

#[test]
fn contains_from_a_later_position() {
    let meta = list("level1", vec![bare("level2")]);
    assert!(contains_attribute_impl(&meta, &["level0", "level1", "level2"], 1));
    assert!(!contains_attribute_impl(&meta, &["level0", "level1", "level2"], 0));
    assert!(!contains_attribute_impl(&meta, &["level1"], 1));
}

#[test]
fn reordered_path_never_matches() {
    let attrs = [outer(list("a", vec![list("b", vec![bare("c")])]))];
    assert!(contains_attribute(&attrs, &["a", "b", "c"]));
    assert!(!contains_attribute(&attrs, &["b", "a", "c"]));
    assert!(!contains_attribute(&attrs, &["a", "c"]));
    assert!(!contains_attribute(&attrs, &["b", "c"]));
    let attrs = [outer(list("a", vec![name_value("b", lit_str("c"))]))];
    assert_eq!(get_attribute_value(&attrs, &["a", "b"]), Some("c".to_string()));
    assert_eq!(get_attribute_value::<String>(&attrs, &["b", "a"]), None);
}

#[test]
fn value_is_the_first_in_order() {
    let meta = list(
        "a",
        vec![name_value("b", lit_str("one")), name_value("b", lit_str("two"))],
    );
    assert_eq!(get_attribute_value_impl(&meta, &["a", "b"], 0), Some(lit_str("one")));

    let attrs = [outer(name_value("a", lit_str("first"))), outer(name_value("a", lit_str("second")))];
    assert_eq!(get_attribute_value(&attrs, &["a"]), Some("first".to_string()));
}

#[test]
fn value_mismatch_gives_nothing() {
    let attrs = [
        outer(name_value("a", lit_str("text"))),
        inner(name_value("a", Lit::Int("7".to_string()))),
        outer(name_value("a", Lit::Int("3".to_string()))),
    ];
    assert_eq!(get_attribute_value::<u64>(&attrs, &["a"]), None);
    assert_eq!(get_attribute_value::<String>(&attrs, &["a"]), Some("text".to_string()));
    assert_eq!(get_attribute_value::<bool>(&attrs, &["a"]), None);
}

#[test]
fn value_skips_inner_attributes() {
    let attrs = [
        inner(name_value("a", lit_str("text"))),
        outer(name_value("a", Lit::Int("3".to_string()))),
    ];
    assert_eq!(get_attribute_value::<u64>(&attrs, &["a"]), Some(3));
}

#[test]
fn value_needs_a_literal() {
    let attrs = [outer(Meta::NameValue(ident("a"), None))];
    assert_eq!(get_attribute_value::<Lit>(&attrs, &["a"]), None);
    let attrs = [outer(bare("a"))];
    assert_eq!(get_attribute_value::<Lit>(&attrs, &["a"]), None);
}
