use bitshit::paths::{components_exec, extension_exec, file_name_exec, join_str, relative_to_exec};
use bitshit::text::{
    after_last_char_exec, before_first_exec, decimal_exec, find_exec, parse_u64_exec, parse_unsigned_exec,
    replace_exec, rfind_exec, split_any_exec, trim_exec,
};

fn cs(s: &str) -> Vec<char> {
    s.chars().collect()
}

fn st(v: &[char]) -> String {
    v.iter().collect()
}

#[test]
fn decimal_text_round_trips() {
    for n in [0_u64, 7, 10, 1234, u64::MAX] {
        let text = decimal_exec(n);
        assert_eq!(st(&text), n.to_string());
        assert_eq!(parse_u64_exec(&text), Some(n));
    }
}

#[test]
fn number_parsing_follows_from_str() {
    assert_eq!(parse_u64_exec(&cs("+42")), Some(42));
    assert_eq!(parse_u64_exec(&cs("")), None);
    assert_eq!(parse_u64_exec(&cs("-1")), None);
    assert_eq!(parse_u64_exec(&cs("18446744073709551616")), None);
    assert_eq!(parse_unsigned_exec(&cs("65535"), 65535), Some(65535));
    assert_eq!(parse_unsigned_exec(&cs("65536"), 65535), None);
}

#[test]
fn searching_and_splitting() {
    assert_eq!(find_exec(&cs("a-of-b-of-c"), &cs("-of-")), Some(1));
    assert_eq!(rfind_exec(&cs("a-of-b-of-c"), &cs("-of-")), Some(6));
    assert_eq!(find_exec(&cs("abc"), &cs("x")), None);
    let parts: Vec<String> = split_any_exec(&cs("a-b.c--"), &cs("-.")).iter().map(|p| st(p)).collect();
    assert_eq!(parts, vec!["a", "b", "c", "", ""]);
    assert_eq!(st(&before_first_exec(&cs("1.2-beta-2"), &cs("-"))), "1.2");
    assert_eq!(st(&after_last_char_exec(&cs("org/name"), '/')), "name");
    assert_eq!(st(&trim_exec(&cs(" \t x y \n"))), "x y");
    assert_eq!(st(&replace_exec(&cs("a-GGUF-GGUF"), &cs("-GGUF"), &cs(""))), "a");
}

#[test]
fn unix_path_rules() {
    assert_eq!(join_str("/a", "b"), "/a/b");
    assert_eq!(join_str("/a/", "b"), "/a/b");
    assert_eq!(join_str("/a", "/b"), "/b");
    assert_eq!(join_str("", "b"), "b");
    let comps: Vec<String> = components_exec(&cs("/a//b/./c/")).iter().map(|c| st(c)).collect();
    assert_eq!(comps, vec!["/", "a", "b", "c"]);
    assert_eq!(file_name_exec(&cs("a/b.tar.gz")).map(|n| st(&n)), Some("b.tar.gz".to_string()));
    assert_eq!(file_name_exec(&cs("a/..")), None);
    assert_eq!(extension_exec(&cs("a/b.tar.gz")).map(|e| st(&e)), Some("gz".to_string()));
    assert_eq!(extension_exec(&cs("a/.hidden")), None);
    let base = components_exec(&cs("onnx"));
    assert_eq!(st(&relative_to_exec(&cs("onnx/model.onnx_data"), &base)), "model.onnx_data");
}
