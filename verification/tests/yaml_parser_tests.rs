use lightning_explorer::attributes::AttributeMap;
use lightning_explorer::parameter_value::{BasicParameterValue, FloatValue, ParameterValue};
use lightning_explorer::yaml_parser::{
    base_value_to_parameter_value, flatten, flatten_yaml_value, FlattenError, HierarchicalValue,
    MappingEntry, RawNumber,
};

fn float(x: f64) -> ParameterValue {
    ParameterValue::Basic(BasicParameterValue::Float(FloatValue::new(x.to_bits())))
}

fn text(s: &str) -> ParameterValue {
    ParameterValue::Basic(BasicParameterValue::String(s.to_string()))
}

fn whole(i: i64) -> ParameterValue {
    ParameterValue::Basic(BasicParameterValue::Int(i))
}

fn truth(b: bool) -> ParameterValue {
    ParameterValue::Basic(BasicParameterValue::Bool(b))
}

fn convert(value: &serde_yaml::Value) -> HierarchicalValue {
    match value {
        serde_yaml::Value::Null => HierarchicalValue::Null,
        serde_yaml::Value::Bool(b) => HierarchicalValue::Bool(*b),
        serde_yaml::Value::Number(n) => HierarchicalValue::Number(RawNumber {
            as_int: n.as_i64(),
            as_float: n.as_f64().map(|f| FloatValue::new(f.to_bits())),
        }),
        serde_yaml::Value::String(s) => HierarchicalValue::String(s.clone()),
        serde_yaml::Value::Sequence(items) => {
            HierarchicalValue::Sequence(items.iter().map(convert).collect())
        }
        serde_yaml::Value::Mapping(entries) => HierarchicalValue::Mapping(
            entries
                .iter()
                .map(|(k, v)| MappingEntry { key: convert(k), value: convert(v) })
                .collect(),
        ),
        serde_yaml::Value::Tagged(tagged) => {
            HierarchicalValue::Tagged(Box::new(convert(&tagged.value)))
        }
    }
}

fn parse(yaml: &str) -> Result<AttributeMap, FlattenError> {
    let value: serde_yaml::Value = serde_yaml::from_str(yaml).unwrap();
    flatten(&convert(&value))
}

fn keys(map: &AttributeMap) -> Vec<String> {
    (0..map.len()).map(|i| map.key_at(i).clone()).collect()
}

fn string_node(s: &str) -> HierarchicalValue {
    HierarchicalValue::String(s.to_string())
}

fn int_node(i: i64) -> HierarchicalValue {
    HierarchicalValue::Number(RawNumber { as_int: Some(i), as_float: None })
}

fn entry(key: &str, value: HierarchicalValue) -> MappingEntry {
    MappingEntry { key: string_node(key), value }
}

#[test]
fn test_parse_hparams_file() {
    let yaml_content = r#"
seed: 172
call_back_monitor: VAL--acc
csdp: null
feats_size: 1536
random_patch_share: 0.7
trainer:
  num_sanity_val_steps: 0
  accelerator: gpu
  devices:
  - 1
  benchmark: true
  check_val_every_n_epoch: 2
  precision: 32-true
employees:
  - id: 1
    name: John Doe
    department: Engineering
    skills:
      - Python
      - JavaScript
      - Docker
    contact:
      email: john@company.com
      phone: "+1-555-0101"
  
  - id: 2
    name: Jane Smith
    department: Marketing
    skills:
      - SEO
      - Content Writing
      - Analytics
    contact:
      email: jane@company.com
      phone: "+1-555-0102"
"#;

    let result = parse(yaml_content);
    assert!(result.is_ok(), "Failed to parse YAML: {:?}", result.err());
    let hparams = result.unwrap();

    assert_eq!(hparams.get("seed"), Some(&whole(172)));
    assert_eq!(hparams.get("feats_size"), Some(&whole(1536)));
    assert_eq!(hparams.get("random_patch_share"), Some(&float(0.7)));
    assert_eq!(hparams.get("call_back_monitor"), Some(&text("VAL--acc")));

    assert!(!hparams.contains_key("csdp"));

    assert_eq!(hparams.get("trainer-num_sanity_val_steps"), Some(&whole(0)));
    assert_eq!(hparams.get("trainer-accelerator"), Some(&text("gpu")));
    assert_eq!(hparams.get("trainer-benchmark"), Some(&truth(true)));
    assert_eq!(hparams.get("trainer-check_val_every_n_epoch"), Some(&whole(2)));
    assert_eq!(hparams.get("trainer-precision"), Some(&text("32-true")));

    assert_eq!(hparams.get("trainer-devices"), Some(&ParameterValue::List(vec![whole(1)])));

    assert_eq!(hparams.get("employees-0-id"), Some(&whole(1)));
    assert_eq!(hparams.get("employees-0-name"), Some(&text("John Doe")));
    assert_eq!(hparams.get("employees-0-department"), Some(&text("Engineering")));
    assert_eq!(hparams.get("employees-0-contact-email"), Some(&text("john@company.com")));

    assert_eq!(
        hparams.get("employees-0-skills"),
        Some(&ParameterValue::List(vec![text("Python"), text("JavaScript"), text("Docker")]))
    );

    assert_eq!(hparams.get("employees-1-id"), Some(&whole(2)));
    assert_eq!(hparams.get("employees-1-name"), Some(&text("Jane Smith")));
    assert_eq!(
        hparams.get("employees-1-skills"),
        Some(&ParameterValue::List(vec![text("SEO"), text("Content Writing"), text("Analytics")]))
    );

    let mut expected_keys: Vec<String> = [
        "seed",
        "call_back_monitor",
        "feats_size",
        "random_patch_share",
        "trainer-num_sanity_val_steps",
        "trainer-accelerator",
        "trainer-devices",
        "trainer-benchmark",
        "trainer-check_val_every_n_epoch",
        "trainer-precision",
        "employees-0-id",
        "employees-0-name",
        "employees-0-department",
        "employees-0-skills",
        "employees-0-contact-email",
        "employees-0-contact-phone",
        "employees-1-id",
        "employees-1-name",
        "employees-1-department",
        "employees-1-skills",
        "employees-1-contact-email",
        "employees-1-contact-phone",
    ]
    .iter()
    .map(|s| s.to_string())
    .collect();
    expected_keys.sort();

    assert_eq!(keys(&hparams), expected_keys, "Key sets do not match");
}

#[test]
fn flattening_the_same_value_twice_gives_the_same_mapping() {
    let yaml = "b:\n  y: [1, 2]\n  x: 0.5\na: text\nc:\n  - k: 1\n  - k: 2\n";
    let value: serde_yaml::Value = serde_yaml::from_str(yaml).unwrap();
    let tree = convert(&value);
    let first = flatten(&tree).unwrap();
    let second = flatten(&tree).unwrap();
    assert_eq!(first, second);
    assert_eq!(keys(&first), keys(&second));
    assert_eq!(keys(&first), vec!["a", "b-x", "b-y", "c-0-k", "c-1-k"]);
}

#[test]
fn the_order_of_sibling_keys_does_not_count() {
    let one = parse("a: 1\nb:\n  x: 2\n  y: 3\n").unwrap();
    let other = parse("b:\n  y: 3\n  x: 2\na: 1\n").unwrap();
    assert_eq!(one, other);
}

#[test]
fn numbers_are_integers_where_they_can_be() {
    let m = parse("a: 3\nb: 3.0\nc: -7\nd: 1e3\ne: 18446744073709551615\nf: .5\n").unwrap();
    assert_eq!(m.get("a"), Some(&whole(3)));
    assert_eq!(m.get("b"), Some(&float(3.0)));
    assert_eq!(m.get("c"), Some(&whole(-7)));
    assert_eq!(m.get("d"), Some(&float(1000.0)));
    assert_eq!(m.get("e"), Some(&float(18446744073709551615.0)));
    assert_eq!(m.get("f"), Some(&float(0.5)));
}

#[test]
fn a_list_of_leaves_is_one_value_and_any_other_list_is_flattened() {
    let m = parse("plain: [a, 1, true, 2.5]\nmixed: [a, [b], {c: 1}, null]\nempty: []\n").unwrap();
    assert_eq!(
        m.get("plain"),
        Some(&ParameterValue::List(vec![text("a"), whole(1), truth(true), float(2.5)]))
    );
    assert_eq!(m.get("empty"), Some(&ParameterValue::List(vec![])));
    assert!(!m.contains_key("mixed"));
    assert_eq!(m.get("mixed-0"), Some(&text("a")));
    assert_eq!(m.get("mixed-1"), Some(&ParameterValue::List(vec![text("b")])));
    assert_eq!(m.get("mixed-2-c"), Some(&whole(1)));
    assert!(!m.contains_key("mixed-3"));
    assert_eq!(m.len(), 5);
}

#[test]
fn nulls_add_nothing() {
    let m = parse("a: null\nb:\n  c: ~\n  d: 1\n").unwrap();
    assert_eq!(keys(&m), vec!["b-d"]);
    assert!(parse("~").unwrap().is_empty());
}

#[test]
fn a_leaf_at_the_top_stands_under_the_empty_path() {
    let m = parse("42").unwrap();
    assert_eq!(keys(&m), vec![""]);
    assert_eq!(m.get(""), Some(&whole(42)));
    let list = parse("[1, 2]").unwrap();
    assert_eq!(list.get(""), Some(&ParameterValue::List(vec![whole(1), whole(2)])));
}

#[test]
fn items_at_the_top_stand_under_the_separator_and_their_index() {
    let m = parse("- a: 1\n- a: 2\n").unwrap();
    assert_eq!(keys(&m), vec!["-0-a", "-1-a"]);
}

#[test]
fn indices_are_written_in_decimal() {
    let items: Vec<HierarchicalValue> = (0..12)
        .map(|i| HierarchicalValue::Mapping(vec![entry("k", int_node(i))]))
        .collect();
    let tree = HierarchicalValue::Mapping(vec![entry("runs", HierarchicalValue::Sequence(items))]);
    let m = flatten(&tree).unwrap();
    assert_eq!(m.len(), 12);
    assert_eq!(m.get("runs-0-k"), Some(&whole(0)));
    assert_eq!(m.get("runs-10-k"), Some(&whole(10)));
    assert_eq!(m.get("runs-11-k"), Some(&whole(11)));
}

#[test]
fn tags_are_dropped() {
    let m = parse("a: !custom 5\nb: !tag\n  c: text\nd: !t [1, 2]\n").unwrap();
    assert_eq!(m.get("a"), Some(&whole(5)));
    assert_eq!(m.get("b-c"), Some(&text("text")));
    assert_eq!(m.get("d"), Some(&ParameterValue::List(vec![whole(1), whole(2)])));
    // A tagged leaf in a list is no plain leaf: the list is flattened by index.
    let n = parse("e: [1, !t 2]\n").unwrap();
    assert_eq!(keys(&n), vec!["e-0", "e-1"]);
}

#[test]
fn a_later_value_replaces_an_earlier_one_under_the_same_path() {
    let tree = HierarchicalValue::Mapping(vec![
        entry("a-b", int_node(1)),
        entry("a", HierarchicalValue::Mapping(vec![entry("b", int_node(2))])),
    ]);
    let m = flatten(&tree).unwrap();
    assert_eq!(keys(&m), vec!["a-b"]);
    assert_eq!(m.get("a-b"), Some(&whole(2)));
}

#[test]
fn a_key_that_is_no_text_is_an_error() {
    assert_eq!(parse("1: a\n"), Err(FlattenError::NonStringKey));
    assert_eq!(parse("a:\n  true: 1\n"), Err(FlattenError::NonStringKey));
    assert_eq!(parse("ok: 1\n[x, y]: 2\n"), Err(FlattenError::NonStringKey));
    let tagged_key = HierarchicalValue::Mapping(vec![MappingEntry {
        key: HierarchicalValue::Tagged(Box::new(string_node("k"))),
        value: int_node(1),
    }]);
    assert_eq!(keys(&flatten(&tagged_key).unwrap()), vec!["k"]);
}

#[test]
fn a_number_without_a_form_is_an_error() {
    let formless = HierarchicalValue::Number(RawNumber { as_int: None, as_float: None });
    assert_eq!(base_value_to_parameter_value(&formless), Err(FlattenError::UnsupportedNumber));
    let tree = HierarchicalValue::Mapping(vec![entry("n", formless)]);
    assert_eq!(flatten(&tree), Err(FlattenError::UnsupportedNumber));
    let in_list = HierarchicalValue::Sequence(vec![
        int_node(1),
        HierarchicalValue::Number(RawNumber { as_int: None, as_float: None }),
    ]);
    assert_eq!(flatten(&in_list), Err(FlattenError::UnsupportedNumber));
}

#[test]
fn only_leaves_have_an_attribute_value() {
    assert_eq!(base_value_to_parameter_value(&string_node("x")), Ok(text("x")));
    assert_eq!(base_value_to_parameter_value(&int_node(5)), Ok(whole(5)));
    assert_eq!(base_value_to_parameter_value(&HierarchicalValue::Bool(false)), Ok(truth(false)));
    for node in [
        HierarchicalValue::Null,
        HierarchicalValue::Sequence(vec![]),
        HierarchicalValue::Mapping(vec![]),
        HierarchicalValue::Tagged(Box::new(int_node(1))),
    ] {
        assert_eq!(base_value_to_parameter_value(&node), Err(FlattenError::UnexpectedValue));
    }
}

#[test]
fn flattening_into_a_mapping_adds_to_it() {
    let mut output = AttributeMap::new();
    output.insert("kept".to_string(), whole(0));
    let tree = HierarchicalValue::Mapping(vec![entry("x", int_node(1))]);
    flatten_yaml_value(&tree, &mut output, "root".to_string()).unwrap();
    assert_eq!(keys(&output), vec!["kept", "root-x"]);
}

#[test]
fn an_integer_has_precedence_over_its_float_form() {
    let both = HierarchicalValue::Number(RawNumber {
        as_int: Some(2),
        as_float: Some(FloatValue::new(2.0f64.to_bits())),
    });
    assert_eq!(base_value_to_parameter_value(&both), Ok(whole(2)));
}
