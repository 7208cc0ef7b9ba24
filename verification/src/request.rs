//! What the bindings generator is asked for: which headers to read, which
//! declarations to emit, and how to write enums.

use vstd::prelude::*;
use vstd::string::StringExecFns;

verus! {

/// A request to the bindings generator.
#[derive(Debug)]
pub struct GenerationRequest {
    /// The headers to read, in order.
    pub headers: Vec<String>,
    /// The arguments handed to the C compiler front end.
    pub clang_args: Vec<String>,
    /// Lines written into the output as they are.
    pub raw_lines: Vec<String>,
    /// Patterns of the functions to emit.
    pub allowed_functions: Vec<String>,
    /// Patterns of the types to emit.
    pub allowed_types: Vec<String>,
    /// Patterns of functions that are left out even where they are allowed.
    pub blocked_functions: Vec<String>,
    /// Whether what an emitted declaration mentions is emitted too.
    pub allowlist_recursively: bool,
    /// Whether the generator itself puts the enum's name before each variant.
    pub prepend_enum_name: bool,
    /// Whether enums are written as Rust enums that are not exhaustive.
    pub non_exhaustive_enums: bool,
}

/// A `GenerationRequest` with its texts as sequences of characters.
pub struct GenerationRequestView {
    pub headers: Seq<Seq<char>>,
    pub clang_args: Seq<Seq<char>>,
    pub raw_lines: Seq<Seq<char>>,
    pub allowed_functions: Seq<Seq<char>>,
    pub allowed_types: Seq<Seq<char>>,
    pub blocked_functions: Seq<Seq<char>>,
    pub allowlist_recursively: bool,
    pub prepend_enum_name: bool,
    pub non_exhaustive_enums: bool,
}

impl View for GenerationRequest {
    type V = GenerationRequestView;

    open spec fn view(&self) -> GenerationRequestView {
        GenerationRequestView {
            headers: self.headers.deep_view(),
            clang_args: self.clang_args.deep_view(),
            raw_lines: self.raw_lines.deep_view(),
            allowed_functions: self.allowed_functions.deep_view(),
            allowed_types: self.allowed_types.deep_view(),
            blocked_functions: self.blocked_functions.deep_view(),
            allowlist_recursively: self.allowlist_recursively,
            prepend_enum_name: self.prepend_enum_name,
            non_exhaustive_enums: self.non_exhaustive_enums,
        }
    }
}

/// The types that the output takes over from `imgui_sys` and `libc` in place
/// of defining them anew.
pub open spec fn raw_lines() -> Seq<Seq<char>> {
    seq![
        "pub use imgui_sys::{ImVec2, ImVec4, ImRect, ImVector_float, ImVector_int};"@,
        "pub use imgui_sys::{ImVector_ImGuiColorMod, ImVector_ImGuiStyleMod};"@,
        "pub use imgui_sys::{ImVector_ImGuiTable, ImVector_ImGuiTabBar};"@,
        "pub use imgui_sys::{ImGuiCond, ImTextureID, ImGuiID};"@,
        "pub use imgui_sys::{ImGuiContext, ImGuiTextBuffer, ImDrawList, ImGuiStorage};"@,
        "pub use imgui_sys::{ImGuiMouseButton, ImGuiDragDropFlags};"@,
        "pub use libc::tm;"@,
        "pub use libc::time_t;"@,
    ]
}

/// The functions to emit.
pub open spec fn allowed_functions() -> Seq<Seq<char>> {
    seq!["ImPlot.*"@, "ImPool.*"@, "ImVector_ImPlot.*"@]
}

/// The types to emit: those of the plotting library, the scalar typedefs and
/// some vectors.
pub open spec fn allowed_types() -> Seq<Seq<char>> {
    seq![
        "ImPlot.*"@,
        "ImPool.*"@,
        "Im[U|S][0-9]{1,2}"@,
        "ImAxis.*"@,
        "ImVector_ImPlot.*"@,
        "ImVector_Im[U|S][0-9]{1,2}"@,
        "ImVector_double"@,
        "ImVector_bool"@,
    ]
}

/// The functions that take a variable list of arguments, which are left out.
pub open spec fn blocked_functions() -> Seq<Seq<char>> {
    seq![
        "ImPlot_TagX_Str"@,
        "ImPlot_TagY_Str"@,
        "ImPlot_TagXV"@,
        "ImPlot_TagYV"@,
        "ImPlot_AnnotationV"@,
        "ImPlotTagCollection_Append"@,
        "ImPlotTagCollection_AppendV"@,
        "ImPlotAnnotationCollection_Append"@,
        "ImPlotAnnotationCollection_AppendV"@,
    ]
}

/// The request for the two headers, with `include_dir` searched for includes.
pub open spec fn request_for(
    cimgui_header: Seq<char>,
    cimplot_header: Seq<char>,
    include_dir: Seq<char>,
) -> GenerationRequestView {
    GenerationRequestView {
        headers: seq![cimgui_header, cimplot_header],
        clang_args: seq!["-DCIMGUI_DEFINE_ENUMS_AND_STRUCTS=1"@, "-I"@ + include_dir],
        raw_lines: raw_lines(),
        allowed_functions: allowed_functions(),
        allowed_types: allowed_types(),
        blocked_functions: blocked_functions(),
        allowlist_recursively: false,
        prepend_enum_name: false,
        non_exhaustive_enums: true,
    }
}

/// Appends a copy of `text` to `list`.
fn push_text(list: &mut Vec<String>, text: &str)
    ensures
        final(list).deep_view() == old(list).deep_view().push(text@),
{
    list.push(text.to_owned());
    assert(list.deep_view() == old(list).deep_view().push(text@));
}

/// An empty list of texts.
fn no_texts() -> (list: Vec<String>)
    ensures
        list.deep_view() == Seq::<Seq<char>>::empty(),
{
    let list: Vec<String> = Vec::new();
    assert(list.deep_view() == Seq::<Seq<char>>::empty());
    list
}

/// The argument that makes the C compiler front end search `dir` for includes.
pub fn include_arg(dir: &str) -> (arg: String)
    ensures
        arg@ == "-I"@ + dir@,
{
    "-I".to_owned().concat(dir)
}

impl GenerationRequest {
    /// The request for the headers at `cimgui_header` and `cimplot_header`,
    /// with `include_dir` searched for includes.
    pub fn new(cimgui_header: &str, cimplot_header: &str, include_dir: &str) -> (request: Self)
        ensures
            request@ == request_for(cimgui_header@, cimplot_header@, include_dir@),
    {
        let mut headers = no_texts();
        push_text(&mut headers, cimgui_header);
        push_text(&mut headers, cimplot_header);

        let mut clang_args = no_texts();
        push_text(&mut clang_args, "-DCIMGUI_DEFINE_ENUMS_AND_STRUCTS=1");
        let search = include_arg(include_dir);
        push_text(&mut clang_args, search.as_str());

        let mut raw_lines = no_texts();
        push_text(
            &mut raw_lines,
            "pub use imgui_sys::{ImVec2, ImVec4, ImRect, ImVector_float, ImVector_int};",
        );
        push_text(
            &mut raw_lines,
            "pub use imgui_sys::{ImVector_ImGuiColorMod, ImVector_ImGuiStyleMod};",
        );
        push_text(&mut raw_lines, "pub use imgui_sys::{ImVector_ImGuiTable, ImVector_ImGuiTabBar};");
        push_text(&mut raw_lines, "pub use imgui_sys::{ImGuiCond, ImTextureID, ImGuiID};");
        push_text(
            &mut raw_lines,
            "pub use imgui_sys::{ImGuiContext, ImGuiTextBuffer, ImDrawList, ImGuiStorage};",
        );
        push_text(&mut raw_lines, "pub use imgui_sys::{ImGuiMouseButton, ImGuiDragDropFlags};");
        push_text(&mut raw_lines, "pub use libc::tm;");
        push_text(&mut raw_lines, "pub use libc::time_t;");

        let mut allowed_functions = no_texts();
        push_text(&mut allowed_functions, "ImPlot.*");
        push_text(&mut allowed_functions, "ImPool.*");
        push_text(&mut allowed_functions, "ImVector_ImPlot.*");

        let mut allowed_types = no_texts();
        push_text(&mut allowed_types, "ImPlot.*");
        push_text(&mut allowed_types, "ImPool.*");
        push_text(&mut allowed_types, "Im[U|S][0-9]{1,2}");
        push_text(&mut allowed_types, "ImAxis.*");
        push_text(&mut allowed_types, "ImVector_ImPlot.*");
        push_text(&mut allowed_types, "ImVector_Im[U|S][0-9]{1,2}");
        push_text(&mut allowed_types, "ImVector_double");
        push_text(&mut allowed_types, "ImVector_bool");

        let mut blocked_functions = no_texts();
        push_text(&mut blocked_functions, "ImPlot_TagX_Str");
        push_text(&mut blocked_functions, "ImPlot_TagY_Str");
        push_text(&mut blocked_functions, "ImPlot_TagXV");
        push_text(&mut blocked_functions, "ImPlot_TagYV");
        push_text(&mut blocked_functions, "ImPlot_AnnotationV");
        push_text(&mut blocked_functions, "ImPlotTagCollection_Append");
        push_text(&mut blocked_functions, "ImPlotTagCollection_AppendV");
        push_text(&mut blocked_functions, "ImPlotAnnotationCollection_Append");
        push_text(&mut blocked_functions, "ImPlotAnnotationCollection_AppendV");

        assert(headers.deep_view() == seq![cimgui_header@, cimplot_header@]);
        assert(clang_args.deep_view() == seq![
            "-DCIMGUI_DEFINE_ENUMS_AND_STRUCTS=1"@,
            "-I"@ + include_dir@,
        ]);
        assert(raw_lines.deep_view() == self::raw_lines());
        assert(allowed_functions.deep_view() == self::allowed_functions());
        assert(allowed_types.deep_view() == self::allowed_types());
        assert(blocked_functions.deep_view() == self::blocked_functions());
        GenerationRequest {
            headers,
            clang_args,
            raw_lines,
            allowed_functions,
            allowed_types,
            blocked_functions,
            allowlist_recursively: false,
            prepend_enum_name: false,
            non_exhaustive_enums: true,
        }
    }
}

} // verus!
