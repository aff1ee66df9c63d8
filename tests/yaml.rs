use config_yaml::convert::from_yaml_value;
use config_yaml::error::ConfigError;
use config_yaml::node::Node;
use config_yaml::value::{Value, ValueKind};
use config_yaml::yaml::{parse, parse_documents};

fn get<'a>(table: &'a [(String, Value)], key: &str) -> &'a Value {
    let found: Vec<&Value> = table.iter().filter(|e| e.0 == key).map(|e| &e.1).collect();
    assert_eq!(found.len(), 1, "key {} should appear exactly once", key);
    found[0]
}

fn all_from(v: &Value, origin: Option<&str>) -> bool {
    if v.origin.as_deref() != origin {
        return false;
    }
    match &v.kind {
        ValueKind::Table(t) => t.iter().all(|e| all_from(&e.1, origin)),
        ValueKind::Array(a) => a.iter().all(|e| all_from(e, origin)),
        _ => true,
    }
}

fn same(a: &Value, b: &Value) -> bool {
    if a.origin != b.origin {
        return false;
    }
    match (&a.kind, &b.kind) {
        (ValueKind::String(x), ValueKind::String(y)) => x == y,
        (ValueKind::Integer(x), ValueKind::Integer(y)) => x == y,
        (ValueKind::Float(x), ValueKind::Float(y)) => x == y,
        (ValueKind::Boolean(x), ValueKind::Boolean(y)) => x == y,
        (ValueKind::Table(x), ValueKind::Table(y)) => {
            x.len() == y.len() && x.iter().zip(y.iter()).all(|(p, q)| p.0 == q.0 && same(&p.1, &q.1))
        }
        (ValueKind::Array(x), ValueKind::Array(y)) => {
            x.len() == y.len() && x.iter().zip(y.iter()).all(|(p, q)| same(p, q))
        }
        _ => false,
    }
}

#[test]
fn empty_text_gives_empty_table() {
    let r = parse(None, "", None).unwrap();
    assert!(r.is_empty());
}

#[test]
fn empty_text_with_namespace_gives_empty_table() {
    let ns = String::from("a");
    let r = parse(None, "", Some(&ns)).unwrap();
    assert!(r.is_empty());
}

#[test]
fn two_documents_are_refused() {
    let r = parse(None, "a: 1\n---\nb: 2\n", None);
    assert!(matches!(r, Err(ConfigError::MultipleDocuments(2))));
}

#[test]
fn three_documents_are_counted() {
    let r = parse(None, "a: 1\n---\nb: 2\n---\nc: 3\n", None);
    assert!(matches!(r, Err(ConfigError::MultipleDocuments(3))));
}

#[test]
fn syntax_error_is_reported() {
    let r = parse(None, "a: [1, 2\n", None);
    assert!(matches!(r, Err(ConfigError::Syntax(_))));
}

#[test]
fn namespace_selects_sub_mapping() {
    let ns = String::from("a");
    let r = parse(None, "a:\n  b: 1\n", Some(&ns)).unwrap();
    assert_eq!(r.len(), 1);
    assert!(matches!(get(&r, "b").kind, ValueKind::Integer(1)));
}

#[test]
fn absent_namespace_gives_empty_table() {
    let ns = String::from("z");
    let r = parse(None, "a:\n  b: 1\n", Some(&ns)).unwrap();
    assert!(r.is_empty());
}

#[test]
fn namespace_on_scalar_gives_empty_table() {
    let ns = String::from("a");
    let r = parse(None, "a: 5\nb: 6\n", Some(&ns)).unwrap();
    assert!(r.is_empty());
}

#[test]
fn namespace_on_scalar_root_gives_empty_table() {
    let ns = String::from("a");
    let r = parse(None, "42\n", Some(&ns)).unwrap();
    assert!(r.is_empty());
}

#[test]
fn non_string_keys_are_dropped() {
    let r = parse(None, "1: one\nname: x\ntrue: yes\n", None).unwrap();
    assert_eq!(r.len(), 1);
    assert!(matches!(&get(&r, "name").kind, ValueKind::String(s) if s == "x"));
}

#[test]
fn null_under_non_string_key_is_ignored() {
    let r = parse(None, "1: ~\nb: 2\n", None).unwrap();
    assert_eq!(r.len(), 1);
    assert!(matches!(get(&r, "b").kind, ValueKind::Integer(2)));
}

#[test]
fn every_value_carries_the_uri() {
    let uri = String::from("file:///etc/app.yml");
    let r = parse(Some(&uri), "a: 1\nb: [x, {c: true}]\nd: {e: 2.5}\n", None).unwrap();
    assert_eq!(r.len(), 3);
    for (_, v) in r.iter() {
        assert!(all_from(v, Some("file:///etc/app.yml")));
    }
}

#[test]
fn values_without_uri_carry_no_origin() {
    let r = parse(None, "a: [1, 2]\n", None).unwrap();
    assert!(all_from(get(&r, "a"), None));
}

#[test]
fn mixed_document_converts() {
    let r = parse(None, "x: 3.14\ny: true\nz: [1, \"s\", {w: 2}]\n", None).unwrap();
    assert_eq!(r.len(), 3);
    match &get(&r, "x").kind {
        ValueKind::Float(s) => assert_eq!(s.parse::<f64>().unwrap(), 3.14),
        _ => panic!("x should be a float"),
    }
    assert!(matches!(get(&r, "y").kind, ValueKind::Boolean(true)));
    match &get(&r, "z").kind {
        ValueKind::Array(a) => {
            assert_eq!(a.len(), 3);
            assert!(matches!(a[0].kind, ValueKind::Integer(1)));
            assert!(matches!(&a[1].kind, ValueKind::String(s) if s == "s"));
            match &a[2].kind {
                ValueKind::Table(t) => {
                    assert_eq!(t.len(), 1);
                    assert!(matches!(get(t, "w").kind, ValueKind::Integer(2)));
                }
                _ => panic!("z[2] should be a table"),
            }
        }
        _ => panic!("z should be an array"),
    }
}

#[test]
fn array_keeps_its_order() {
    let r = parse(None, "l: [3, 1, 2]\n", None).unwrap();
    match &get(&r, "l").kind {
        ValueKind::Array(a) => {
            let ints: Vec<i64> = a
                .iter()
                .map(|v| match v.kind {
                    ValueKind::Integer(i) => i,
                    _ => panic!("integers expected"),
                })
                .collect();
            assert_eq!(ints, vec![3, 1, 2]);
        }
        _ => panic!("l should be an array"),
    }
}

#[test]
fn parsing_twice_gives_the_same_table() {
    let uri = String::from("a.yml");
    let text = "a: 1\nb: [x, {c: 2.0}]\n";
    let r = parse(Some(&uri), text, None).unwrap();
    let s = parse(Some(&uri), text, None).unwrap();
    assert_eq!(r.len(), s.len());
    for (p, q) in r.iter().zip(s.iter()) {
        assert_eq!(p.0, q.0);
        assert!(same(&p.1, &q.1));
    }
}

#[test]
fn null_value_is_unrepresentable() {
    let r = parse(None, "a: ~\n", None);
    assert!(matches!(r, Err(ConfigError::UnrepresentableNode)));
}

#[test]
fn scalar_root_gives_empty_table() {
    let r = parse(None, "hello\n", None).unwrap();
    assert!(r.is_empty());
}

#[test]
fn array_root_gives_empty_table() {
    let r = parse(None, "- 1\n- 2\n", None).unwrap();
    assert!(r.is_empty());
}

#[test]
fn null_root_is_unrepresentable() {
    let r = parse(None, "~\n", None);
    assert!(matches!(r, Err(ConfigError::UnrepresentableNode)));
}

#[test]
fn documents_pick_the_namespace() {
    let inner = Node::Hash(vec![(Node::String("b".to_string()), Node::Integer(7))]);
    let docs = vec![Node::Hash(vec![
        (Node::Integer(1), Node::Null),
        (Node::String("a".to_string()), inner),
    ])];
    let ns = String::from("a");
    let r = parse_documents(None, &docs, Some(&ns)).unwrap();
    assert_eq!(r.len(), 1);
    assert!(matches!(get(&r, "b").kind, ValueKind::Integer(7)));
}

#[test]
fn no_documents_give_empty_table() {
    let r = parse_documents(None, &Vec::new(), None).unwrap();
    assert!(r.is_empty());
}

#[test]
fn convert_alias_and_bad_value_fail() {
    assert!(matches!(from_yaml_value(None, &Node::Alias(3)), Err(ConfigError::UnrepresentableNode)));
    assert!(matches!(from_yaml_value(None, &Node::BadValue), Err(ConfigError::UnrepresentableNode)));
    let nested = Node::Array(vec![Node::Integer(1), Node::Null]);
    assert!(matches!(from_yaml_value(None, &nested), Err(ConfigError::UnrepresentableNode)));
}

#[test]
fn convert_scalars_keep_variant() {
    let uri = String::from("u");
    let v = from_yaml_value(Some(&uri), &Node::Real("1e3".to_string())).unwrap();
    assert!(matches!(&v.kind, ValueKind::Float(s) if s == "1e3"));
    assert_eq!(v.origin.as_deref(), Some("u"));
    let v = from_yaml_value(None, &Node::String("t".to_string())).unwrap();
    assert!(matches!(&v.kind, ValueKind::String(s) if s == "t"));
    let v = from_yaml_value(None, &Node::Integer(-5)).unwrap();
    assert!(matches!(v.kind, ValueKind::Integer(-5)));
    let v = from_yaml_value(None, &Node::Boolean(false)).unwrap();
    assert!(matches!(v.kind, ValueKind::Boolean(false)));
}

#[test]
fn largest_integer_is_kept() {
    let r = parse(None, "n: 9223372036854775807\nm: -9223372036854775808\n", None).unwrap();
    assert!(matches!(get(&r, "n").kind, ValueKind::Integer(i64::MAX)));
    assert!(matches!(get(&r, "m").kind, ValueKind::Integer(i64::MIN)));
}

#[test]
fn error_messages_describe_the_error() {
    assert_eq!(
        ConfigError::MultipleDocuments(2).message(),
        "More than one YAML document provided"
    );
    assert_eq!(
        ConfigError::UnrepresentableNode.message(),
        "The YAML document holds a null, an alias or an invalid node"
    );
    let syntax = parse(None, "a: [1, 2\n", None).unwrap_err();
    assert_eq!(syntax.message(), "The YAML text does not parse");
}
