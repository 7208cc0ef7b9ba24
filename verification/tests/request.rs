use implot_sys_bindgen::request::{include_arg, GenerationRequest};

#[test]
fn include_arg_puts_the_flag_before_the_directory() {
    assert_eq!(include_arg("/opt/imgui/third-party"), "-I/opt/imgui/third-party");
    assert_eq!(include_arg(""), "-I");
}

#[test]
fn the_request_names_both_headers_in_order() {
    let request = GenerationRequest::new("/a/cimgui.h", "/b/cimplot.h", "/a");
    assert_eq!(request.headers, vec!["/a/cimgui.h", "/b/cimplot.h"]);
    assert_eq!(
        request.clang_args,
        vec!["-DCIMGUI_DEFINE_ENUMS_AND_STRUCTS=1", "-I/a"]
    );
}

#[test]
fn the_request_takes_over_the_imgui_types() {
    let request = GenerationRequest::new("h1", "h2", "dir");
    assert_eq!(
        request.raw_lines,
        vec![
            "pub use imgui_sys::{ImVec2, ImVec4, ImRect, ImVector_float, ImVector_int};",
            "pub use imgui_sys::{ImVector_ImGuiColorMod, ImVector_ImGuiStyleMod};",
            "pub use imgui_sys::{ImVector_ImGuiTable, ImVector_ImGuiTabBar};",
            "pub use imgui_sys::{ImGuiCond, ImTextureID, ImGuiID};",
            "pub use imgui_sys::{ImGuiContext, ImGuiTextBuffer, ImDrawList, ImGuiStorage};",
            "pub use imgui_sys::{ImGuiMouseButton, ImGuiDragDropFlags};",
            "pub use libc::tm;",
            "pub use libc::time_t;",
        ]
    );
}

#[test]
fn the_request_lists_what_is_emitted() {
    let request = GenerationRequest::new("h1", "h2", "dir");
    assert_eq!(
        request.allowed_functions,
        vec!["ImPlot.*", "ImPool.*", "ImVector_ImPlot.*"]
    );
    assert_eq!(
        request.allowed_types,
        vec![
            "ImPlot.*",
            "ImPool.*",
            "Im[U|S][0-9]{1,2}",
            "ImAxis.*",
            "ImVector_ImPlot.*",
            "ImVector_Im[U|S][0-9]{1,2}",
            "ImVector_double",
            "ImVector_bool",
        ]
    );
    assert_eq!(
        request.blocked_functions,
        vec![
            "ImPlot_TagX_Str",
            "ImPlot_TagY_Str",
            "ImPlot_TagXV",
            "ImPlot_TagYV",
            "ImPlot_AnnotationV",
            "ImPlotTagCollection_Append",
            "ImPlotTagCollection_AppendV",
            "ImPlotAnnotationCollection_Append",
            "ImPlotAnnotationCollection_AppendV",
        ]
    );
}

#[test]
fn the_request_sets_the_style_flags() {
    let request = GenerationRequest::new("h1", "h2", "dir");
    assert!(!request.allowlist_recursively);
    assert!(!request.prepend_enum_name);
    assert!(request.non_exhaustive_enums);
}
