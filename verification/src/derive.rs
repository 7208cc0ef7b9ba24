//! Putting `#[derive(Clone, Copy, Debug)]` back on structs that lost it.

use vstd::prelude::*;
use crate::text::{
    lemma_replace_absent, lemma_replace_single, occurs, occurs_at, push_range, replace_all,
    replace_chars, to_chars, to_string,
};

verus! {

/// The text that opens the declaration of the struct `name`.
pub open spec fn struct_header(name: Seq<char>) -> Seq<char> {
    "pub struct "@ + name
}

/// The attribute line that is put before a struct's header.
pub open spec fn derive_line() -> Seq<char> {
    "#[derive(Clone, Copy, Debug)]\n"@
}

/// `text` with the attribute line put before every header of the struct `name`.
pub open spec fn with_derive(text: Seq<char>, name: Seq<char>) -> Seq<char> {
    replace_all(text, struct_header(name), derive_line() + struct_header(name))
}

/// `text` with the attribute line put before the headers of the two structs
/// that need it, `ImPlotInputMap` first.
pub open spec fn with_derives(text: Seq<char>) -> Seq<char> {
    with_derive(with_derive(text, "ImPlotInputMap"@), "ImPlotStyle"@)
}

/// Puts the attribute line before every header of the struct `name` in `text`.
fn derive_chars(text: &Vec<char>, name: &str) -> (out: Vec<char>)
    ensures
        out@ == with_derive(text@, name@),
{
    let mut header = to_chars("pub struct ");
    let name_chars = to_chars(name);
    push_range(&mut header, &name_chars, 0, name_chars.len());
    let mut replacement = to_chars("#[derive(Clone, Copy, Debug)]\n");
    push_range(&mut replacement, &header, 0, header.len());
    assert(name_chars@.subrange(0, name_chars@.len() as int) == name_chars@);
    assert(header@.subrange(0, header@.len() as int) == header@);
    replace_chars(text, &header, &replacement)
}

/// Puts the attribute line before every header of the struct `name` in
/// `text`. A text without such a header comes back unchanged.
pub fn inject_derive(text: &str, name: &str) -> (out: String)
    ensures
        out@ == with_derive(text@, name@),
{
    let chars = to_chars(text);
    to_string(&derive_chars(&chars, name))
}

/// Puts the attribute line before the headers of `ImPlotInputMap` and
/// `ImPlotStyle`, in this order.
pub fn inject_derives(text: &str) -> (out: String)
    ensures
        out@ == with_derives(text@),
{
    let chars = to_chars(text);
    let first = derive_chars(&chars, "ImPlotInputMap");
    to_string(&derive_chars(&first, "ImPlotStyle"))
}

/// A text without a header of the struct `name` is left as it is.
pub proof fn lemma_with_derive_absent(text: Seq<char>, name: Seq<char>)
    requires
        !occurs(text, struct_header(name)),
    ensures
        with_derive(text, name) == text,
{
    reveal_strlit("pub struct ");
    lemma_replace_absent(text, struct_header(name), derive_line() + struct_header(name));
}

/// Where the header of the struct `name` stands at one offset only, one
/// attribute line is put right before it and nothing else changes.
pub proof fn lemma_with_derive_single(text: Seq<char>, name: Seq<char>, at: int)
    requires
        occurs_at(text, struct_header(name), at),
        forall|other: int| other != at ==> !occurs_at(text, struct_header(name), other),
    ensures
        with_derive(text, name) == text.take(at) + derive_line() + text.skip(at),
{
    let header = struct_header(name);
    reveal_strlit("pub struct ");
    lemma_replace_single(text, header, derive_line() + header, at);
    assert(header + text.skip(at + header.len()) == text.skip(at)) by {
        assert(text.skip(at).take(header.len() as int) == text.subrange(at, at + header.len()));
        assert(text.skip(at).skip(header.len() as int) == text.skip(at + header.len()));
        assert(text.skip(at) == text.skip(at).take(header.len() as int) + text.skip(at).skip(
            header.len() as int,
        ));
    }
    assert(text.take(at) + (derive_line() + header) + text.skip(at + header.len()) == text.take(at)
        + derive_line() + (header + text.skip(at + header.len())));
}

/// A text with neither of the two headers comes back unchanged.
pub proof fn lemma_with_derives_absent(text: Seq<char>)
    requires
        !occurs(text, struct_header("ImPlotInputMap"@)),
        !occurs(text, struct_header("ImPlotStyle"@)),
    ensures
        with_derives(text) == text,
{
    lemma_with_derive_absent(text, "ImPlotInputMap"@);
    lemma_with_derive_absent(text, "ImPlotStyle"@);
}

/// A text that holds the header of `ImPlotStyle` at one offset only, and no
/// header of `ImPlotInputMap`, gets one attribute line, right before that header.
pub proof fn lemma_with_derives_style_only(text: Seq<char>, at: int)
    requires
        !occurs(text, struct_header("ImPlotInputMap"@)),
        occurs_at(text, struct_header("ImPlotStyle"@), at),
        forall|other: int| other != at ==> !occurs_at(text, struct_header("ImPlotStyle"@), other),
    ensures
        with_derives(text) == text.take(at) + derive_line() + text.skip(at),
{
    lemma_with_derive_absent(text, "ImPlotInputMap"@);
    lemma_with_derive_single(text, "ImPlotStyle"@, at);
}

} // verus!
