use pcap2csv::naming::output_name;
use std::path::Path;

#[test]
fn extension_is_replaced() {
    assert_eq!(output_name("a.pcap"), "a.csv");
    assert_eq!(output_name("b.pcap"), "b.csv");
    assert_eq!(output_name("radar-2024.pcapng"), "radar-2024.csv");
}

#[test]
fn name_without_extension_is_kept_whole() {
    assert_eq!(output_name("capture"), "capture.csv");
}

#[test]
fn only_the_last_extension_goes() {
    assert_eq!(output_name("a.b.c"), "a.b.csv");
    assert_eq!(output_name("site.tar.gz"), "site.tar.csv");
}

#[test]
fn leading_dot_is_no_extension() {
    assert_eq!(output_name(".hidden"), ".hidden.csv");
    assert_eq!(output_name(".hidden.pcap"), ".hidden.csv");
}

#[test]
fn trailing_dot_is_an_empty_extension() {
    assert_eq!(output_name("foo."), "foo.csv");
}

#[test]
fn empty_base_name_gives_the_bare_extension() {
    assert_eq!(output_name(""), ".csv");
}

#[test]
fn characters_outside_ascii_are_kept() {
    assert_eq!(output_name("über.pcap"), "über.csv");
    assert_eq!(output_name("日本.語.pcap"), "日本.語.csv");
}

#[test]
fn same_base_name_gives_the_same_output() {
    assert_eq!(output_name("a.pcap"), output_name("a.pcap"));
    assert_eq!(output_name("a.pcap"), output_name("a.cap"));
}

#[test]
fn stem_agrees_with_the_standard_library() {
    let names = [
        "a.pcap", "b", ".profile", "x.y.z", "end.", "..x", "a..b", "ünï.cödé", "-.-", "_", "a b.c d",
        ".a.b", "...", "1.2.3.4",
    ];
    for name in names {
        let stem = Path::new(name).file_stem().expect("a base name has a stem");
        let expected = format!("{}.csv", stem.to_string_lossy());
        assert_eq!(output_name(name), expected, "for {:?}", name);
    }
}
