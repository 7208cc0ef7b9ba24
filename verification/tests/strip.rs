use implot_sys_bindgen::names::{captured_names, distinct_names, enum_names, ENUM_HEADER_PATTERN};
use implot_sys_bindgen::region::{clear_enum, clear_region, locate, EnumRegion, RegionError};
use implot_sys_bindgen::strip::{strip_captured_names, strip_enum_names, strip_names, StripError};
use implot_sys_bindgen::text::{find, to_chars};

fn names(list: &[&str]) -> Vec<String> {
    list.iter().map(|name| name.to_string()).collect()
}

#[test]
fn strips_the_axis_enum() {
    let out = strip_enum_names("pub enum ImAxis_ { ImAxis_X1, ImAxis_Y1 };");
    assert_eq!(out, Ok("pub enum ImAxis_ { X1, Y1 };".to_string()));
}

#[test]
fn clear_enum_rewrites_only_the_body() {
    let text = "pub enum ImAxis_ { ImAxis_X1, ImAxis_Y1 };".to_string();
    assert_eq!(clear_enum(&text, "ImAxis_"), "pub enum ImAxis_ { X1, Y1 };");
}

#[test]
fn clear_enum_leaves_text_around_the_body() {
    let text = "// Foo_ before\npub enum Foo_ {\n    Foo_A = 0,\n    Foo_B = 1,\n}\nfn Foo_after();"
        .to_string();
    assert_eq!(
        clear_enum(&text, "Foo_"),
        "// Foo_ before\npub enum Foo_ {\n    A = 0,\n    B = 1,\n}\nfn Foo_after();"
    );
}

#[test]
fn clear_enum_stops_at_the_first_closing_brace() {
    let text = "pub enum A { A1 { A2 } A3 }".to_string();
    assert_eq!(clear_enum(&text, "A"), "pub enum A { 1 { 2 } A3 }");
}

#[test]
fn clear_enum_removes_the_name_inside_other_words() {
    let text = "pub enum Im { Im_X, TrImmed, Immm }".to_string();
    assert_eq!(clear_enum(&text, "Im"), "pub enum Im { _X, Trmed, mm }");
}

#[test]
fn clear_enum_removes_in_one_pass() {
    let text = "pub enum ab { aabb }".to_string();
    assert_eq!(clear_enum(&text, "ab"), "pub enum ab { ab }");
}

#[test]
fn clear_enum_uses_the_first_header() {
    let text = "pub enum A { A_x } pub enum A { A_y }".to_string();
    assert_eq!(clear_enum(&text, "A"), "pub enum A { _x } pub enum A { A_y }");
}

#[test]
fn clear_enum_needs_the_whole_header() {
    let text = "pub enum FooBar { Foo_x } pub enum Foo { Foo_y }".to_string();
    assert_eq!(clear_enum(&text, "Foo"), "pub enum FooBar { Foo_x } pub enum Foo { _y }");
}

#[test]
fn clear_enum_handles_wide_characters() {
    let text = "é pub enum Ñ { Ñ_ä, Ñ_ö } ü".to_string();
    assert_eq!(clear_enum(&text, "Ñ"), "é pub enum Ñ { _ä, _ö } ü");
}

#[test]
fn locate_counts_characters() {
    let text = to_chars("é pub enum Ñ { Ñ_ä }");
    let name = to_chars("Ñ");
    assert_eq!(locate(&text, &name), Ok(EnumRegion { begin: 14, end: 19 }));
}

#[test]
fn locate_reports_a_missing_header() {
    let text = to_chars("pub enum Bar { Bar_x }");
    assert_eq!(locate(&text, &to_chars("Foo")), Err(RegionError::MissingHeader));
    assert_eq!(locate(&to_chars(""), &to_chars("Foo")), Err(RegionError::MissingHeader));
}

#[test]
fn locate_reports_a_missing_brace() {
    let text = to_chars("} pub enum Foo { Foo_x");
    assert_eq!(locate(&text, &to_chars("Foo")), Err(RegionError::MissingBrace));
}

#[test]
fn locate_accepts_an_empty_body() {
    let text = to_chars("pub enum E {}");
    assert_eq!(locate(&text, &to_chars("E")), Ok(EnumRegion { begin: 12, end: 12 }));
}

#[test]
fn clear_region_removes_inside_the_span_only() {
    let text = to_chars("xx[xx]xx");
    let out = clear_region(&text, EnumRegion { begin: 3, end: 5 }, &to_chars("x"));
    assert_eq!(out, to_chars("xx[]xx"));
}

#[test]
fn a_text_without_headers_is_unchanged() {
    let text = "pub struct S { a: u32 }\npub enum{ }\nenum T { T_a }\npub enum  U { }\n";
    assert_eq!(enum_names(text).unwrap(), Vec::<String>::new());
    assert_eq!(strip_enum_names(text), Ok(text.to_string()));
    assert_eq!(strip_enum_names(""), Ok(String::new()));
}

#[test]
fn names_come_in_order_of_first_appearance() {
    let text = "pub enum Zeta { } pub enum Alpha { } pub enum Zeta { } pub enum Mid { }";
    assert_eq!(enum_names(text).unwrap(), names(&["Zeta", "Alpha", "Mid"]));
}

#[test]
fn distinct_names_keeps_first_appearances() {
    let groups = vec![
        Some("b".to_string()),
        None,
        Some("a".to_string()),
        Some("b".to_string()),
        Some("c".to_string()),
        Some("a".to_string()),
    ];
    assert_eq!(distinct_names(&groups), names(&["b", "a", "c"]));
    assert_eq!(distinct_names(&Vec::new()), Vec::<String>::new());
}

#[test]
fn captured_names_reads_the_first_group() {
    let found = captured_names(ENUM_HEADER_PATTERN, "pub enum One {\n} pub enum Two_ {").unwrap();
    assert_eq!(found, names(&["One", "Two_"]));
    let found = captured_names(r"(\d+)-(\d+)", "10-20 30-40 10-50").unwrap();
    assert_eq!(found, names(&["10", "30"]));
    let found = captured_names(r"a(b)?", "ab a ab").unwrap();
    assert_eq!(found, names(&["b"]));
    let found = captured_names(r"ab", "ab ab").unwrap();
    assert_eq!(found, Vec::<String>::new());
}

#[test]
fn a_refused_pattern_is_an_error() {
    assert!(captured_names("pub enum (", "pub enum A { }").is_err());
    assert_eq!(strip_captured_names("pub enum (", "pub enum A { }"), Err(StripError::Pattern));
}

#[test]
fn each_pass_touches_its_own_body_only() {
    // `Bar` stands inside a word of the first body; the pass for `Bar` leaves it there.
    let text = "pub enum Foo { Foo_BarBaz, Foo_Qux } pub enum Bar { Bar_One, BarFoo_Two }";
    assert_eq!(
        strip_enum_names(text),
        Ok("pub enum Foo { _BarBaz, _Qux } pub enum Bar { _One, Foo_Two }".to_string())
    );
    // The same enums the other way round: the order follows the text, not the alphabet.
    let text = "pub enum Zed { Zed_AbcX } pub enum Abc { Abc_Zed }";
    assert_eq!(
        strip_enum_names(text),
        Ok("pub enum Zed { _AbcX } pub enum Abc { _Zed }".to_string())
    );
}

#[test]
fn a_later_pass_sees_what_an_earlier_pass_left() {
    // The body of `A` runs over the header of `B_A`, which the pass for `A` rewrites.
    let text = "pub enum A { pub enum B_A { B_A_x }";
    assert_eq!(
        strip_enum_names(text),
        Err(StripError::MissingHeader("B_A".to_string()))
    );
}

#[test]
fn a_header_deleted_by_an_earlier_pass_is_fatal() {
    let text = "pub enum u { pub enum Foo { Foo_a } }";
    assert_eq!(enum_names(text).unwrap(), names(&["u", "Foo"]));
    assert_eq!(
        strip_enum_names(text),
        Err(StripError::MissingHeader("Foo".to_string()))
    );
}

#[test]
fn a_name_without_header_is_fatal() {
    let text = "pub enum Bar { Bar_a }";
    assert_eq!(
        strip_names(text, &names(&["Foo"])),
        Err(StripError::MissingHeader("Foo".to_string()))
    );
    assert_eq!(
        strip_names(text, &names(&["Bar", "Foo", "Bar"])),
        Err(StripError::MissingHeader("Foo".to_string()))
    );
}

#[test]
fn a_header_without_closing_brace_is_fatal() {
    assert_eq!(
        strip_enum_names("pub enum A { A_x } pub enum B { B_y"),
        Err(StripError::MissingBrace("B".to_string()))
    );
}

#[test]
fn strip_names_follows_the_given_order() {
    let text = "pub enum A { A_B } pub enum B { B_A }";
    assert_eq!(
        strip_names(text, &names(&["B", "A"])),
        Ok("pub enum A { _B } pub enum B { _A }".to_string())
    );
    assert_eq!(strip_names(text, &Vec::new()), Ok(text.to_string()));
}

#[test]
fn a_repeated_name_is_handled_once() {
    let text = "pub enum ab { aabb } pub enum ab { ab }";
    assert_eq!(
        strip_enum_names(text),
        Ok("pub enum ab { ab } pub enum ab { ab }".to_string())
    );
    assert_eq!(
        strip_names(text, &names(&["ab", "ab"])),
        Ok("pub enum ab {  } pub enum ab { ab }".to_string())
    );
}

#[test]
fn a_cleared_body_holds_the_name_no_more() {
    let text = "mod m {\n    pub enum ImPlotFlags_ {\n        ImPlotFlags_None = 0,\n        ImPlotFlags_NoTitle = 1,\n    }\n}\n"
        .to_string();
    let name = to_chars("ImPlotFlags_");
    let out = to_chars(&clear_enum(&text, "ImPlotFlags_"));
    let region = locate(&out, &name).unwrap();
    let body: Vec<char> = out[region.begin..region.end].to_vec();
    assert_eq!(body, to_chars("\n        None = 0,\n        NoTitle = 1,\n    "));
    assert_eq!(find(&body, &name), None);
}

#[test]
fn a_cleared_body_is_found_where_it_was() {
    let text = to_chars("x pub enum ab { aabb, ab_c } y");
    let name = to_chars("ab");
    let before = locate(&text, &name).unwrap();
    let out = clear_region(&text, before, &name);
    let after = locate(&out, &name).unwrap();
    assert_eq!(before, EnumRegion { begin: 15, end: 27 });
    assert_eq!(after, EnumRegion { begin: 15, end: 23 });
    assert_eq!(out, to_chars("x pub enum ab { ab, _c } y"));
}

#[test]
fn a_pass_leaves_an_earlier_body_alone() {
    let text = "pub enum A { A_BB } pub enum B { B_A }".to_string();
    let a = to_chars("A");
    let before = locate(&to_chars(&text), &a).unwrap();
    let out = to_chars(&clear_enum(&text, "B"));
    assert_eq!(locate(&out, &a), Ok(before));
    assert_eq!(out, to_chars("pub enum A { A_BB } pub enum B { _A }"));
}

#[test]
fn flat_enums_are_each_stripped() {
    let text = "pub enum A_ {\n    A_One = 0,\n}\npub enum B_ {\n    B_A_ = 1,\n}\npub enum C_ {\n    C_B_ = 2,\n    C_C_ = 3,\n}\n";
    assert_eq!(
        strip_enum_names(text),
        Ok("pub enum A_ {\n    One = 0,\n}\npub enum B_ {\n    A_ = 1,\n}\npub enum C_ {\n    B_ = 2,\n     = 3,\n}\n".to_string())
    );
}
