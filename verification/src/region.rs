//! Locating the body of an enum declaration and clearing the enum's name from it.
//!
//! The body is found by plain text search: it starts behind the first
//! `pub enum <name> {` and runs up to the next `}`. Braces are not balanced.

use vstd::prelude::*;
use crate::text::{
    find, find_from, first_occurrence, is_next_occurrence, lemma_next_occurrence,
    lemma_next_occurrence_unique, lemma_occurs_at_prefix, lemma_occurs_at_suffix,
    lemma_remove_all_len, lemma_remove_all_subset, next_occurrence, occurs, occurs_at,
    occurs_from, push_range, remove_all, replace_chars, to_chars, to_string,
};

verus! {

/// The text that opens the declaration of the enum `name`.
pub open spec fn enum_header(name: Seq<char>) -> Seq<char> {
    "pub enum "@ + name + " {"@
}

/// The text that ends an enum's body.
pub open spec fn closing_brace() -> Seq<char> {
    seq!['}']
}

/// `text` holds the header of the enum `name`.
pub open spec fn has_header(text: Seq<char>, name: Seq<char>) -> bool {
    occurs(text, enum_header(name))
}

/// The offset just behind the first header of the enum `name`; meaningful
/// when `has_header(text, name)`.
pub open spec fn region_begin(text: Seq<char>, name: Seq<char>) -> int {
    first_occurrence(text, enum_header(name)) + enum_header(name).len()
}

/// `text` holds the header of the enum `name` and a `}` somewhere behind it.
pub open spec fn has_region(text: Seq<char>, name: Seq<char>) -> bool {
    &&& has_header(text, name)
    &&& occurs_from(text, closing_brace(), region_begin(text, name))
}

/// The offset of the first `}` behind the first header of the enum `name`;
/// meaningful when `has_region(text, name)`.
pub open spec fn region_end(text: Seq<char>, name: Seq<char>) -> int {
    next_occurrence(text, closing_brace(), region_begin(text, name))
}

/// The body of the enum `name`: the text between `region_begin` and `region_end`.
pub open spec fn region_text(text: Seq<char>, name: Seq<char>) -> Seq<char> {
    text.subrange(region_begin(text, name), region_end(text, name))
}

/// `text` with every occurrence of `name` taken out of the body of the enum
/// `name`, and nothing else changed; meaningful when `has_region(text, name)`.
pub open spec fn cleared(text: Seq<char>, name: Seq<char>) -> Seq<char> {
    text.take(region_begin(text, name)) + remove_all(region_text(text, name), name) + text.skip(
        region_end(text, name),
    )
}

/// A span of a text, from `begin` up to `end`.
#[derive(Clone, Copy, Debug, PartialEq, Eq)]
pub struct EnumRegion {
    pub begin: usize,
    pub end: usize,
}

impl EnumRegion {
    /// The span lies inside a text of `len` characters.
    pub open spec fn fits(&self, len: nat) -> bool {
        self.begin <= self.end <= len
    }

    /// The span is the body of the enum `name` in `text`.
    pub open spec fn is_region_of(&self, text: Seq<char>, name: Seq<char>) -> bool {
        &&& has_region(text, name)
        &&& self.begin == region_begin(text, name)
        &&& self.end == region_end(text, name)
    }
}

/// Why an enum's body could not be located.
#[derive(Clone, Copy, Debug, PartialEq, Eq)]
pub enum RegionError {
    /// The text holds no header for the name.
    MissingHeader,
    /// No `}` follows the header.
    MissingBrace,
}

/// The header of the enum `name` as characters.
fn header_chars(name: &Vec<char>) -> (header: Vec<char>)
    ensures
        header@ == enum_header(name@),
{
    let mut header = to_chars("pub enum ");
    push_range(&mut header, name, 0, name.len());
    let tail = to_chars(" {");
    push_range(&mut header, &tail, 0, tail.len());
    assert(name@.subrange(0, name@.len() as int) == name@);
    assert(tail@.subrange(0, tail@.len() as int) == tail@);
    header
}

/// Locates the body of the enum `name` in `text`.
pub fn locate(text: &Vec<char>, name: &Vec<char>) -> (found: Result<EnumRegion, RegionError>)
    ensures
        match found {
            Ok(region) => region.is_region_of(text@, name@) && region.fits(text@.len()),
            Err(RegionError::MissingHeader) => !has_header(text@, name@),
            Err(RegionError::MissingBrace) => has_header(text@, name@) && !has_region(
                text@,
                name@,
            ),
        },
{
    let header = header_chars(name);
    let start = match find(text, &header) {
        Some(start) => start,
        None => {
            return Err(RegionError::MissingHeader);
        },
    };
    proof {
        lemma_next_occurrence_unique(text@, header@, 0, start as int);
    }
    assert(start + header@.len() <= text.len());
    let begin: usize = start + header.len();
    let brace: Vec<char> = vec!['}'];
    assert(brace@ == closing_brace());
    match find_from(text, &brace, begin) {
        Some(end) => {
            proof {
                lemma_next_occurrence_unique(text@, brace@, begin as int, end as int);
            }
            Ok(EnumRegion { begin, end })
        },
        None => Err(RegionError::MissingBrace),
    }
}

/// Takes every occurrence of `name` out of the span `region` of `text`.
pub fn clear_region(text: &Vec<char>, region: EnumRegion, name: &Vec<char>) -> (out: Vec<char>)
    requires
        region.fits(text@.len()),
    ensures
        out@ == text@.take(region.begin as int) + remove_all(
            text@.subrange(region.begin as int, region.end as int),
            name@,
        ) + text@.skip(region.end as int),
{
    let mut body: Vec<char> = Vec::new();
    push_range(&mut body, text, region.begin, region.end);
    let nothing: Vec<char> = Vec::new();
    let mut stripped = replace_chars(&body, name, &nothing);
    let mut out: Vec<char> = Vec::new();
    push_range(&mut out, text, 0, region.begin);
    out.append(&mut stripped);
    push_range(&mut out, text, region.end, text.len());
    assert(nothing@ == Seq::<char>::empty());
    assert(text@.subrange(0, region.begin as int) == text@.take(region.begin as int));
    assert(text@.subrange(region.end as int, text@.len() as int) == text@.skip(region.end as int));
    out
}

/// Strips the enum's own name from the body of the enum `name`: every
/// occurrence of `name` between the first `pub enum <name> {` and the next
/// `}` is removed, and the rest of the text is returned as it was.
pub fn clear_enum(bindings_string: &String, name: &str) -> (out: String)
    requires
        has_region(bindings_string@, name@),
    ensures
        out@ == cleared(bindings_string@, name@),
{
    let text = to_chars(bindings_string.as_str());
    let name_chars = to_chars(name);
    match locate(&text, &name_chars) {
        Ok(region) => {
            let out = clear_region(&text, region, &name_chars);
            to_string(&out)
        },
        Err(_) => vstd::pervasive::unreached(),
    }
}

/// Where `has_region` holds, the body lies inside the text and ends at a `}`.
pub proof fn lemma_region_bounds(text: Seq<char>, name: Seq<char>)
    requires
        has_region(text, name),
    ensures
        enum_header(name).len() <= region_begin(text, name) <= region_end(text, name) < text.len(),
        text[region_end(text, name)] == '}',
        is_next_occurrence(text, enum_header(name), 0, first_occurrence(text, enum_header(name))),
        is_next_occurrence(
            text,
            closing_brace(),
            region_begin(text, name),
            region_end(text, name),
        ),
        forall|i: int| region_begin(text, name) <= i < region_end(text, name) ==> text[i] != '}',
{
    let header = enum_header(name);
    let begin = region_begin(text, name);
    let end = region_end(text, name);
    lemma_next_occurrence(text, header, 0);
    lemma_next_occurrence(text, closing_brace(), begin);
    assert(text.subrange(end, end + 1)[0] == '}');
    assert forall|i: int| begin <= i < end implies text[i] != '}' by {
        if text[i] == '}' {
            assert(text.subrange(i, i + 1) == closing_brace());
            assert(occurs_at(text, closing_brace(), i));
        }
    }
}

/// One pass of removal leaves no occurrence of `name` in `body`. It can leave
/// one: taking `ab` out of `aabb` joins the two ends into a new `ab`.
pub open spec fn removes_cleanly(body: Seq<char>, name: Seq<char>) -> bool {
    !occurs(remove_all(body, name), name)
}

/// Clearing leaves everything before the body as it was, and everything from
/// the closing brace on, moved up by what was removed.
pub proof fn lemma_cleared_outside(text: Seq<char>, name: Seq<char>)
    requires
        has_region(text, name),
    ensures
        cleared(text, name).len() == text.len() - region_text(text, name).len() + remove_all(
            region_text(text, name),
            name,
        ).len(),
        cleared(text, name).take(region_begin(text, name)) == text.take(region_begin(text, name)),
        cleared(text, name).skip(
            region_begin(text, name) + remove_all(region_text(text, name), name).len(),
        ) == text.skip(region_end(text, name)),
{
    lemma_region_bounds(text, name);
}

/// After clearing, the enum's body is found where it was, and it is the old
/// body with every occurrence of `name` taken out in one pass.
pub proof fn lemma_cleared_region(text: Seq<char>, name: Seq<char>)
    requires
        has_region(text, name),
    ensures
        has_region(cleared(text, name), name),
        region_begin(cleared(text, name), name) == region_begin(text, name),
        region_text(cleared(text, name), name) == remove_all(region_text(text, name), name),
{
    let header = enum_header(name);
    let begin = region_begin(text, name);
    let end = region_end(text, name);
    let start = begin - header.len();
    let body = remove_all(region_text(text, name), name);
    let out = cleared(text, name);
    lemma_region_bounds(text, name);
    lemma_cleared_outside(text, name);
    assert(is_next_occurrence(out, header, 0, start)) by {
        lemma_occurs_at_prefix(out, text, header, begin, start);
        assert forall|earlier: int| 0 <= earlier < start implies !occurs_at(
            out,
            header,
            earlier,
        ) by {
            lemma_occurs_at_prefix(out, text, header, begin, earlier);
        }
    }
    lemma_next_occurrence_unique(out, header, 0, start);
    let stop = begin + body.len();
    assert(is_next_occurrence(out, closing_brace(), begin, stop)) by {
        assert(out[stop] == text.skip(end)[0]);
        assert(out.subrange(stop, stop + 1) == closing_brace());
        assert forall|earlier: int| begin <= earlier < stop implies !occurs_at(
            out,
            closing_brace(),
            earlier,
        ) by {
            if occurs_at(out, closing_brace(), earlier) {
                assert(out.subrange(earlier, earlier + 1)[0] == '}');
                assert(body[earlier - begin] == '}');
                lemma_remove_all_subset(region_text(text, name), name, '}');
                let i = choose|i: int|
                    0 <= i < region_text(text, name).len() && region_text(text, name)[i] == '}';
                assert(text[begin + i] == '}');
            }
        }
    }
    lemma_next_occurrence_unique(out, closing_brace(), begin, stop);
    assert(out.subrange(begin, stop) == body);
}

/// Where one pass of removal is clean, the cleared body holds no occurrence
/// of the enum's name.
pub proof fn lemma_cleared_region_is_free_of_name(text: Seq<char>, name: Seq<char>)
    requires
        has_region(text, name),
        removes_cleanly(region_text(text, name), name),
    ensures
        has_region(cleared(text, name), name),
        !occurs(region_text(cleared(text, name), name), name),
{
    lemma_cleared_region(text, name);
}

/// Clearing an enum whose header stands behind the body of `other` leaves
/// the body of `other` as it was, whatever that body holds.
pub proof fn lemma_cleared_keeps_earlier_body(text: Seq<char>, name: Seq<char>, other: Seq<char>)
    requires
        has_region(text, name),
        has_region(text, other),
        region_end(text, other) < first_occurrence(text, enum_header(name)),
    ensures
        has_region(cleared(text, name), other),
        region_begin(cleared(text, name), other) == region_begin(text, other),
        region_end(cleared(text, name), other) == region_end(text, other),
        region_text(cleared(text, name), other) == region_text(text, other),
{
    let header = enum_header(other);
    let begin = region_begin(text, other);
    let end = region_end(text, other);
    let start = begin - header.len();
    let kept = region_begin(text, name);
    let out = cleared(text, name);
    lemma_region_bounds(text, name);
    lemma_region_bounds(text, other);
    lemma_cleared_outside(text, name);
    assert(is_next_occurrence(out, header, 0, start)) by {
        lemma_occurs_at_prefix(out, text, header, kept, start);
        assert forall|earlier: int| 0 <= earlier < start implies !occurs_at(
            out,
            header,
            earlier,
        ) by {
            lemma_occurs_at_prefix(out, text, header, kept, earlier);
        }
    }
    lemma_next_occurrence_unique(out, header, 0, start);
    assert(is_next_occurrence(out, closing_brace(), begin, end)) by {
        lemma_occurs_at_prefix(out, text, closing_brace(), kept, end);
        assert forall|earlier: int| begin <= earlier < end implies !occurs_at(
            out,
            closing_brace(),
            earlier,
        ) by {
            lemma_occurs_at_prefix(out, text, closing_brace(), kept, earlier);
        }
    }
    lemma_next_occurrence_unique(out, closing_brace(), begin, end);
    assert(out.subrange(begin, end) == out.take(kept).subrange(begin, end));
    assert(text.subrange(begin, end) == text.take(kept).subrange(begin, end));
}

/// A header is eleven characters longer than its name and ends with `{`;
/// it holds a `}` only where the name does.
pub proof fn lemma_header_shape(name: Seq<char>)
    ensures
        enum_header(name).len() == name.len() + 11,
        enum_header(name).last() == '{',
        !name.contains('}') ==> !enum_header(name).contains('}'),
{
    reveal_strlit("pub enum ");
    reveal_strlit(" {");
    let header = enum_header(name);
    if header.contains('}') {
        let i = choose|i: int| 0 <= i < header.len() && header[i] == '}';
        if 9 <= i < 9 + name.len() {
            assert(name[i - 9] == '}');
        }
    }
}

/// Clearing an enum whose body stands before the header of `other` moves
/// the body of `other` up by what was removed and leaves it as it was,
/// provided no `{` stands in the cleared body and no `}` in `other`.
pub proof fn lemma_cleared_keeps_later_body(text: Seq<char>, name: Seq<char>, other: Seq<char>)
    requires
        has_region(text, name),
        has_region(text, other),
        region_end(text, name) < first_occurrence(text, enum_header(other)),
        !region_text(text, name).contains('{'),
        !other.contains('}'),
    ensures
        has_region(cleared(text, name), other),
        first_occurrence(cleared(text, name), enum_header(other)) == first_occurrence(
            text,
            enum_header(other),
        ) - (text.len() - cleared(text, name).len()),
        region_end(cleared(text, name), other) == region_end(text, other) - (text.len() - cleared(
            text,
            name,
        ).len()),
        region_text(cleared(text, name), other) == region_text(text, other),
        cleared(text, name).len() <= text.len(),
{
    let header = enum_header(other);
    let out = cleared(text, name);
    let begin = region_begin(text, name);
    let end = region_end(text, name);
    let left = remove_all(region_text(text, name), name);
    let stop = begin + left.len();
    let moved = text.len() - out.len();
    let start = first_occurrence(text, header);
    lemma_region_bounds(text, name);
    lemma_region_bounds(text, other);
    lemma_cleared_outside(text, name);
    lemma_remove_all_len(region_text(text, name), name);
    lemma_header_shape(other);
    assert(end == stop + moved);
    assert(out[stop] == text.skip(end)[0]);
    assert(is_next_occurrence(out, header, 0, start - moved)) by {
        lemma_occurs_at_suffix(out, text, header, stop, end, start - end);
        assert forall|earlier: int| 0 <= earlier < start - moved implies !occurs_at(
            out,
            header,
            earlier,
        ) by {
            if occurs_at(out, header, earlier) {
                let last = earlier + header.len() - 1;
                assert(out.subrange(earlier, earlier + header.len())[header.len() - 1] == '{');
                if earlier >= stop {
                    lemma_occurs_at_suffix(out, text, header, stop, end, earlier - stop);
                } else if last < begin {
                    lemma_occurs_at_prefix(out, text, header, begin, earlier);
                } else if last < stop {
                    assert(left[last - begin] == '{');
                    lemma_remove_all_subset(region_text(text, name), name, '{');
                } else {
                    assert(out.subrange(earlier, earlier + header.len())[stop - earlier] == '}');
                }
            }
        }
    }
    lemma_next_occurrence_unique(out, header, 0, start - moved);
    let other_begin = region_begin(text, other);
    let other_end = region_end(text, other);
    assert(is_next_occurrence(out, closing_brace(), other_begin - moved, other_end - moved)) by {
        lemma_occurs_at_suffix(out, text, closing_brace(), stop, end, other_end - end);
        assert forall|earlier: int| other_begin - moved <= earlier < other_end - moved implies !occurs_at(
            out,
            closing_brace(),
            earlier,
        ) by {
            lemma_occurs_at_suffix(out, text, closing_brace(), stop, end, earlier - stop);
        }
    }
    lemma_next_occurrence_unique(out, closing_brace(), other_begin - moved, other_end - moved);
    assert(out.subrange(other_begin - moved, other_end - moved) == out.skip(stop).subrange(
        other_begin - end,
        other_end - end,
    ));
    assert(text.subrange(other_begin, other_end) == text.skip(end).subrange(
        other_begin - end,
        other_end - end,
    ));
}

} // verus!
