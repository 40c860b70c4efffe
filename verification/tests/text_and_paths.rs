use beamng_editor::paths::{
    extension_of, file_name_of, file_stem_of, first_component_of, join_path, parent_of, replace_extension,
    strip_root_of,
};
use beamng_editor::text::{
    contains_ignore_case, dedup_vec, eq_ignore_case, sort_string_vec, str_lt, to_lower, trim_str,
    u64_to_decimal, zero_pad_str,
};
use beamng_editor::theme::truncate_label;

#[test]
fn lowercase_is_ascii_only() {
    assert_eq!(to_lower("MainEngine ÄÖ"), "mainengine ÄÖ");
}

#[test]
fn trim_removes_unicode_whitespace() {
    assert_eq!(trim_str("\u{a0} v8 engine \t\n"), "v8 engine");
}

#[test]
fn case_insensitive_search() {
    assert!(contains_ignore_case("Pickup_V8_Engine", "v8_eng"));
    assert!(!contains_ignore_case("Pickup", "v8"));
    assert!(eq_ignore_case("COMMON", "common"));
}

#[test]
fn string_order_is_str_order() {
    let pairs = [("a", "b"), ("ab", "abc"), ("B", "a"), ("é", "z")];
    for (a, b) in pairs {
        assert_eq!(str_lt(a, b), a < b);
        assert_eq!(str_lt(b, a), b < a);
    }
}

#[test]
fn sorting_and_dedup() {
    let v = vec!["pickup".to_string(), "etk800".to_string(), "pickup".to_string(), "bx".to_string()];
    let sorted = sort_string_vec(v);
    assert_eq!(sorted, vec!["bx", "etk800", "pickup", "pickup"]);
    assert_eq!(dedup_vec(sorted), vec!["bx", "etk800", "pickup"]);
}

#[test]
fn decimal_and_padding() {
    assert_eq!(u64_to_decimal(0), "0");
    assert_eq!(u64_to_decimal(18446744073709551615), "18446744073709551615");
    assert_eq!(zero_pad_str("7", 3), "007");
    assert_eq!(zero_pad_str("1234", 3), "1234");
}

#[test]
fn path_components() {
    assert_eq!(file_name_of("mods/unpacked/my_mod/"), Some("my_mod".to_string()));
    assert_eq!(file_name_of("/"), None);
    assert_eq!(file_stem_of("vehicles/pickup/base.pc"), Some("base".to_string()));
    assert_eq!(extension_of("a/b.tar.gz"), Some("gz".to_string()));
    assert_eq!(extension_of("a/.hidden"), None);
    assert_eq!(parent_of("a/b/c.pc"), Some("a/b".to_string()));
    assert_eq!(parent_of("c.pc"), Some(String::new()));
    assert_eq!(parent_of("/"), None);
    assert_eq!(join_path("a", "b"), "a/b");
    assert_eq!(join_path("a/", "b"), "a/b");
    assert_eq!(join_path("a", "/b"), "/b");
    assert_eq!(first_component_of("my_mod/vehicles/x.pc"), "my_mod");
    assert_eq!(strip_root_of("/m/mods/x/y.pc", "/m/mods"), Some("x/y.pc".to_string()));
    assert_eq!(strip_root_of("/m/modsx/y.pc", "/m/mods"), None);
}

#[test]
fn replacing_an_extension() {
    assert_eq!(replace_extension("b/pickup_v001.pc", "meta.json"), "b/pickup_v001.meta.json");
    assert_eq!(replace_extension("b/noext", "meta.json"), "b/noext.meta.json");
    assert_eq!(replace_extension("b/x.pc/", "meta.json"), "b/x.meta.json");
    assert_eq!(replace_extension("/", "meta.json"), "/");
}

#[test]
fn labels_are_truncated() {
    assert_eq!(truncate_label("short", 10), "short");
    assert_eq!(truncate_label("a long label", 6), "a lo..");
    assert_eq!(truncate_label("abc", 1), "..");
    assert_eq!(truncate_label("ääää", 3), "ä..");
}
