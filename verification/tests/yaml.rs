use surf_vcr::yaml::Yaml;

fn text(s: &str) -> Yaml {
    Yaml::Str(s.to_string())
}

fn same(a: &Yaml, b: &Yaml) -> bool {
    match (a, b) {
        (Yaml::Null, Yaml::Null) => true,
        (Yaml::Bool(x), Yaml::Bool(y)) => x == y,
        (Yaml::Int(x), Yaml::Int(y)) => x == y,
        (Yaml::Real(x), Yaml::Real(y)) => x == y,
        (Yaml::Str(x), Yaml::Str(y)) => x == y,
        (Yaml::Sequence(x), Yaml::Sequence(y)) => {
            x.len() == y.len() && x.iter().zip(y.iter()).all(|(p, q)| same(p, q))
        }
        (Yaml::Mapping(x), Yaml::Mapping(y)) => {
            x.len() == y.len()
                && x.iter().zip(y.iter()).all(|(p, q)| same(&p.0, &q.0) && same(&p.1, &q.1))
        }
        _ => false,
    }
}

#[test]
fn scalars_are_read_by_their_kind() {
    assert!(same(&Yaml::parse("~").unwrap(), &Yaml::Null));
    assert!(same(&Yaml::parse("true").unwrap(), &Yaml::Bool(true)));
    assert!(same(&Yaml::parse("200").unwrap(), &Yaml::Int(200)));
    assert!(same(&Yaml::parse("-7").unwrap(), &Yaml::Int(-7)));
    assert!(same(&Yaml::parse("hello").unwrap(), &text("hello")));
    assert!(same(&Yaml::parse("\"200\"").unwrap(), &text("200")));
}

#[test]
fn a_number_that_is_no_64_bit_integer_is_kept_by_its_text() {
    assert!(same(&Yaml::parse("1.5").unwrap(), &Yaml::Real("1.5".to_string())));
    assert!(same(
        &Yaml::parse("18446744073709551615").unwrap(),
        &Yaml::Real("18446744073709551615".to_string())
    ));
}

#[test]
fn a_mapping_keeps_the_order_of_its_entries() {
    let tree = Yaml::parse("b: 1\na:\n  - x\n  - y\n").unwrap();
    let expected = Yaml::Mapping(vec![
        (text("b"), Yaml::Int(1)),
        (text("a"), Yaml::Sequence(vec![text("x"), text("y")])),
    ]);
    assert!(same(&tree, &expected));
}

#[test]
fn text_that_is_no_yaml_is_refused() {
    assert!(Yaml::parse("a: [1, 2").is_err());
    assert!(Yaml::parse("").is_err());
    let message = Yaml::parse("a: b: c").unwrap_err();
    assert!(!message.is_empty());
}

#[test]
fn a_tree_is_written_as_a_document() {
    let tree = Yaml::Mapping(vec![
        (text("name"), text("value")),
        (text("count"), Yaml::Int(3)),
        (text("none"), Yaml::Null),
        (text("flag"), Yaml::Bool(false)),
        (text("list"), Yaml::Sequence(vec![Yaml::Int(1), text("two")])),
        (text("empty"), Yaml::Sequence(vec![])),
    ]);
    let written = tree.emit().unwrap();
    assert_eq!(
        written,
        "---\nname: value\ncount: 3\nnone: ~\nflag: false\nlist:\n  - 1\n  - two\nempty: []\n"
    );
}

#[test]
fn strings_that_look_like_something_else_come_back_as_strings() {
    for s in ["200", "true", "~", "", "a: b", "- x", "line\nbreak", "\n---\n", " padded "] {
        let tree = Yaml::Sequence(vec![text(s)]);
        let written = tree.emit().unwrap();
        assert!(same(&Yaml::parse(&written).unwrap(), &tree), "{:?} in {:?}", s, written);
    }
}

#[test]
fn a_written_document_holds_no_separator() {
    let tree = Yaml::Sequence(vec![text("a\n---\nb"), text("---")]);
    let written = tree.emit().unwrap();
    assert!(!written.contains("\n---\n"));
    assert!(written.starts_with("---\n"));
    assert!(written.ends_with('\n'));
}

#[test]
fn scalar_keys_of_every_kind_are_kept_apart_and_in_order() {
    let tree = Yaml::Mapping(vec![
        (text("1"), text("a string")),
        (Yaml::Int(1), text("an integer")),
        (Yaml::Int(-1), text("another")),
        (Yaml::Bool(true), text("a boolean")),
        (text("true"), text("a string again")),
        (Yaml::Null, text("null")),
        (text("~"), text("and a string")),
        (text(""), Yaml::Mapping(vec![(text("b"), Yaml::Int(2)), (text("a"), Yaml::Int(1))])),
    ]);
    let written = tree.emit().unwrap();
    assert!(same(&Yaml::parse(&written).unwrap(), &tree), "{:?}", written);
}
