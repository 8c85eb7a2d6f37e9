use pcap2csv::catalog::{Config, Field, Tshark};

fn field(key: &str, value: &str) -> Field {
    Field::new(key.to_string(), value.to_string())
}

fn tool() -> Tshark {
    Tshark::new("/usr/bin/tshark".to_string(), vec!["-T".to_string(), "fields".to_string()])
}

#[test]
fn new_config_knows_no_category() {
    let cfg = Config::new(tool());
    assert!(!cfg.has_category("001"));
    assert!(cfg.fields_of("001").is_none());
}

#[test]
fn tool_settings_are_kept() {
    let cfg = Config::new(tool());
    assert_eq!(cfg.tshark().path, "/usr/bin/tshark");
    assert_eq!(cfg.tshark().parameters, vec!["-T".to_string(), "fields".to_string()]);
}

#[test]
fn added_category_is_found_with_its_fields_in_order() {
    let mut cfg = Config::new(tool());
    cfg.add_category(
        "048".to_string(),
        vec![field("SAC", "asterix.048_010_SAC"), field("SIC", "asterix.048_010_SIC"), field("A", "a")],
    );
    assert!(cfg.has_category("048"));
    let fields = cfg.fields_of("048").expect("the category was added");
    assert_eq!(
        fields,
        &vec![field("SAC", "asterix.048_010_SAC"), field("SIC", "asterix.048_010_SIC"), field("A", "a")]
    );
}

#[test]
fn categories_are_told_apart() {
    let mut cfg = Config::new(tool());
    cfg.add_category("001".to_string(), vec![field("FOO", "field.foo")]);
    cfg.add_category("002".to_string(), vec![field("BAR", "field.bar")]);
    assert_eq!(cfg.fields_of("001").unwrap(), &vec![field("FOO", "field.foo")]);
    assert_eq!(cfg.fields_of("002").unwrap(), &vec![field("BAR", "field.bar")]);
    assert!(cfg.fields_of("003").is_none());
    assert!(!cfg.has_category("01"));
}

#[test]
fn adding_a_category_again_replaces_its_fields() {
    let mut cfg = Config::new(tool());
    cfg.add_category("001".to_string(), vec![field("FOO", "field.foo")]);
    cfg.add_category("001".to_string(), vec![field("BAR", "field.bar"), field("BAZ", "field.baz")]);
    assert_eq!(
        cfg.fields_of("001").unwrap(),
        &vec![field("BAR", "field.bar"), field("BAZ", "field.baz")]
    );
}

#[test]
fn category_may_have_no_field() {
    let mut cfg = Config::new(tool());
    cfg.add_category("000".to_string(), Vec::new());
    assert!(cfg.has_category("000"));
    assert!(cfg.fields_of("000").unwrap().is_empty());
}

#[test]
fn adding_a_category_leaves_the_tool_settings_alone() {
    let mut cfg = Config::new(tool());
    cfg.add_category("001".to_string(), vec![field("FOO", "field.foo")]);
    assert_eq!(cfg.tshark(), &tool());
}
