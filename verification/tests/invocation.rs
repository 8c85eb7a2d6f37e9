use pcap2csv::catalog::{Config, Field, Tshark};
use pcap2csv::error::ConvertError;
use pcap2csv::invocation::{build_args, build_headers, category_filter, plan_conversion};

fn field(key: &str, value: &str) -> Field {
    Field::new(key.to_string(), value.to_string())
}

fn texts(list: &[&str]) -> Vec<String> {
    list.iter().map(|s| s.to_string()).collect()
}

fn tool(parameters: &[&str]) -> Tshark {
    Tshark::new("tshark".to_string(), texts(parameters))
}

#[test]
fn headers_are_the_column_names_in_catalog_order() {
    let fields = vec![field("SAC", "a.sac"), field("SIC", "a.sic"), field("ALT", "a.alt")];
    assert_eq!(build_headers(&fields, false), texts(&["SAC", "SIC", "ALT"]));
}

#[test]
fn timestamp_column_comes_first() {
    let fields = vec![field("SAC", "a.sac"), field("SIC", "a.sic")];
    assert_eq!(build_headers(&fields, true), texts(&["TIMESTAMP", "SAC", "SIC"]));
}

#[test]
fn category_without_fields_has_an_empty_header() {
    assert_eq!(build_headers(&Vec::new(), false), Vec::<String>::new());
    assert_eq!(build_headers(&Vec::new(), true), texts(&["TIMESTAMP"]));
}

#[test]
fn filter_names_the_category() {
    assert_eq!(category_filter("048"), "asterix.category==048");
    assert_eq!(category_filter(""), "asterix.category==");
}

#[test]
fn arguments_follow_the_fixed_layout() {
    let fields = vec![field("SAC", "a.sac"), field("SIC", "a.sic")];
    let args = build_args(&tool(&["-T", "fields", "-E", "separator=;"]), "/data/x.pcap", "048", &fields, false);
    assert_eq!(
        args,
        texts(&[
            "-r",
            "/data/x.pcap",
            "-T",
            "fields",
            "-E",
            "separator=;",
            "-Y",
            "asterix.category==048",
            "-e",
            "a.sac",
            "-e",
            "a.sic",
        ])
    );
}

#[test]
fn timestamp_is_extracted_first() {
    let fields = vec![field("SAC", "a.sac")];
    let args = build_args(&tool(&[]), "x.pcap", "001", &fields, true);
    assert_eq!(
        args,
        texts(&["-r", "x.pcap", "-Y", "asterix.category==001", "-e", "frame.time_epoch", "-e", "a.sac"])
    );
}

#[test]
fn arguments_without_columns_end_with_the_filter() {
    let args = build_args(&tool(&["-n"]), "x.pcap", "001", &Vec::new(), false);
    assert_eq!(args, texts(&["-r", "x.pcap", "-n", "-Y", "asterix.category==001"]));
}

#[test]
fn expressions_are_passed_on_verbatim() {
    let fields = vec![field("ODD", " -e \"x y\"; $(z) ")];
    let args = build_args(&tool(&["--weird=  "]), "a b.pcap", "0 1", &fields, false);
    assert_eq!(
        args,
        texts(&["-r", "a b.pcap", "--weird=  ", "-Y", "asterix.category==0 1", "-e", " -e \"x y\"; $(z) "])
    );
}

#[test]
fn nth_extraction_argument_belongs_to_the_nth_header() {
    let fields = vec![field("A", "x.a"), field("B", "x.b"), field("C", "x.c"), field("D", "x.d")];
    let parameters = ["-T", "fields"];
    for timestamp in [false, true] {
        let headers = build_headers(&fields, timestamp);
        let args = build_args(&tool(&parameters), "f.pcap", "062", &fields, timestamp);
        let first = parameters.len() + 4;
        assert_eq!(args.len(), first + 2 * headers.len());
        let lead = if timestamp { 1 } else { 0 };
        for k in 0..headers.len() {
            assert_eq!(args[first + 2 * k], "-e");
            if k < lead {
                assert_eq!(headers[k], "TIMESTAMP");
                assert_eq!(args[first + 2 * k + 1], "frame.time_epoch");
            } else {
                assert_eq!(headers[k], fields[k - lead].key);
                assert_eq!(args[first + 2 * k + 1], fields[k - lead].value);
            }
        }
    }
}

#[test]
fn plan_holds_program_arguments_output_and_header() {
    let mut cfg = Config::new(tool(&["-T", "fields"]));
    cfg.add_category("048".to_string(), vec![field("SAC", "a.sac"), field("SIC", "a.sic")]);
    let plan = plan_conversion(&cfg, "/captures/day1.pcap", "day1.pcap", "048", true).unwrap();
    assert_eq!(plan.program, "tshark");
    assert_eq!(plan.outfile, "day1.csv");
    assert_eq!(plan.headers, texts(&["TIMESTAMP", "SAC", "SIC"]));
    assert_eq!(
        plan.args,
        texts(&[
            "-r",
            "/captures/day1.pcap",
            "-T",
            "fields",
            "-Y",
            "asterix.category==048",
            "-e",
            "frame.time_epoch",
            "-e",
            "a.sac",
            "-e",
            "a.sic",
        ])
    );
}

#[test]
fn output_goes_by_the_base_name_not_by_the_directory() {
    let mut cfg = Config::new(tool(&[]));
    cfg.add_category("001".to_string(), vec![field("FOO", "field.foo")]);
    let here = plan_conversion(&cfg, "in/a/x.pcap", "x.pcap", "001", false).unwrap();
    let there = plan_conversion(&cfg, "in/b/x.pcap", "x.pcap", "001", false).unwrap();
    assert_eq!(here.outfile, "x.csv");
    assert_eq!(there.outfile, "x.csv");
}

#[test]
fn unknown_category_is_reported_with_its_name() {
    let mut cfg = Config::new(tool(&[]));
    cfg.add_category("001".to_string(), vec![field("FOO", "field.foo")]);
    let err = plan_conversion(&cfg, "a.pcap", "a.pcap", "999", false).unwrap_err();
    assert_eq!(err, ConvertError::CategoryNotFound { category: "999".to_string() });
    assert_eq!(err.message(), "CAT 999 não encontrada");
}

#[test]
fn empty_catalog_knows_no_category() {
    let cfg = Config::new(tool(&[]));
    assert!(plan_conversion(&cfg, "a.pcap", "a.pcap", "001", true).is_err());
}

#[test]
fn planning_twice_gives_the_same_plan() {
    let mut cfg = Config::new(tool(&["-T", "fields"]));
    cfg.add_category("048".to_string(), vec![field("SAC", "a.sac")]);
    let first = plan_conversion(&cfg, "a.pcap", "a.pcap", "048", true).unwrap();
    let second = plan_conversion(&cfg, "a.pcap", "a.pcap", "048", true).unwrap();
    assert_eq!(first, second);
}
