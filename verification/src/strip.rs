//! The pass that strips each enum's own name from its variants.
//!
//! The names are taken one after another, each against the text as the
//! passes before it left it. A name whose body cannot be located ends the
//! pass with an error; nothing is skipped.

use vstd::prelude::*;
use crate::names::{
    captured_names, distinct_present, lemma_distinct_present, regex_first_groups,
    ENUM_HEADER_PATTERN,
};
use crate::region::{
    clear_region, cleared, enum_header, has_header, has_region, lemma_cleared_keeps_earlier_body,
    lemma_cleared_keeps_later_body, lemma_cleared_outside, lemma_cleared_region,
    lemma_region_bounds, locate, region_begin, region_end, region_text, removes_cleanly,
    RegionError,
};
use crate::text::{first_occurrence, occurs, remove_all, to_chars, to_string};

verus! {

/// Why the pass stopped.
#[derive(Debug, PartialEq, Eq)]
pub enum StripError {
    /// The header pattern was refused, so no name was collected.
    Pattern,
    /// The text held no header for this name when its turn came.
    MissingHeader(String),
    /// No `}` followed the header of this name.
    MissingBrace(String),
}

/// A `StripError` with its name as a sequence of characters.
pub enum StripFailure {
    Pattern,
    MissingHeader(Seq<char>),
    MissingBrace(Seq<char>),
}

impl View for StripError {
    type V = StripFailure;

    open spec fn view(&self) -> StripFailure {
        match self {
            StripError::Pattern => StripFailure::Pattern,
            StripError::MissingHeader(name) => StripFailure::MissingHeader(name@),
            StripError::MissingBrace(name) => StripFailure::MissingBrace(name@),
        }
    }
}

/// The outcome of a pass with the text and the error's name as sequences of characters.
pub open spec fn outcome(result: Result<String, StripError>) -> Result<Seq<char>, StripFailure> {
    match result {
        Ok(text) => Ok(text@),
        Err(error) => Err(error@),
    }
}

/// The pass over `names` from left to right: each name is cleared from its
/// enum's body in the text that the names before it left, and the first name
/// whose body cannot be located ends the pass.
pub open spec fn strip_names_spec(text: Seq<char>, names: Seq<Seq<char>>) -> Result<
    Seq<char>,
    StripFailure,
>
    decreases names.len(),
{
    if names.len() == 0 {
        Ok(text)
    } else if !has_header(text, names[0]) {
        Err(StripFailure::MissingHeader(names[0]))
    } else if !has_region(text, names[0]) {
        Err(StripFailure::MissingBrace(names[0]))
    } else {
        strip_names_spec(cleared(text, names[0]), names.skip(1))
    }
}

/// The pass over the names that the header scan reports for `text`.
pub open spec fn strip_spec(text: Seq<char>, groups: Option<Seq<Option<Seq<char>>>>) -> Result<
    Seq<char>,
    StripFailure,
> {
    match groups {
        Some(found) => strip_names_spec(text, distinct_present(found)),
        None => Err(StripFailure::Pattern),
    }
}

/// Clears each of `names` in turn from the body of its enum in `text`.
pub fn strip_names(text: &str, names: &Vec<String>) -> (result: Result<String, StripError>)
    ensures
        outcome(result) == strip_names_spec(text@, names.deep_view()),
{
    let mut current = to_chars(text);
    let mut i: usize = 0;
    assert(names.deep_view().skip(0) == names.deep_view());
    while i < names.len()
        invariant
            i <= names.len(),
            strip_names_spec(current@, names.deep_view().skip(i as int)) == strip_names_spec(
                text@,
                names.deep_view(),
            ),
        decreases names.len() - i,
    {
        let ghost rest = names.deep_view().skip(i as int);
        assert(rest[0] == names@[i as int]@);
        assert(rest.skip(1) == names.deep_view().skip(i + 1));
        let name = to_chars(names[i].as_str());
        match locate(&current, &name) {
            Ok(region) => {
                current = clear_region(&current, region, &name);
            },
            Err(RegionError::MissingHeader) => {
                return Err(StripError::MissingHeader(names[i].clone()));
            },
            Err(RegionError::MissingBrace) => {
                return Err(StripError::MissingBrace(names[i].clone()));
            },
        }
        i += 1;
    }
    Ok(to_string(&current))
}

/// Clears from `text` the names that the first group of `pattern` captures
/// in it, each once, in the order in which they first appear.
pub fn strip_captured_names(pattern: &str, text: &str) -> (result: Result<String, StripError>)
    ensures
        outcome(result) == strip_spec(text@, regex_first_groups(pattern@, text@)),
{
    match captured_names(pattern, text) {
        Ok(names) => strip_names(text, &names),
        Err(_) => Err(StripError::Pattern),
    }
}

/// Strips from every enum that `text` declares the enum's own name out of
/// its variants. The headers are found by the `regex` crate; the names are
/// handled each once, in the order in which they first appear.
pub fn strip_enum_names(text: &str) -> (result: Result<String, StripError>)
    ensures
        outcome(result) == strip_spec(text@, regex_first_groups(ENUM_HEADER_PATTERN@, text@)),
{
    strip_captured_names(ENUM_HEADER_PATTERN, text)
}

/// A text in which the header scan captures no name comes back unchanged.
pub proof fn lemma_no_headers_no_change(text: Seq<char>, groups: Seq<Option<Seq<char>>>)
    requires
        forall|i: int| 0 <= i < groups.len() ==> groups[i] is None,
    ensures
        strip_spec(text, Some(groups)) == Ok::<Seq<char>, StripFailure>(text),
{
    let names = distinct_present(groups);
    lemma_distinct_present(groups);
    if names.len() > 0 {
        assert(names.contains(names[0]));
        assert(groups.contains(Some(names[0])));
    }
}

/// A pass over `names` is the pass over the first `n` of them, followed,
/// where that one succeeds, by the pass over the rest on what it returned.
pub proof fn lemma_strip_names_split(text: Seq<char>, names: Seq<Seq<char>>, n: int)
    requires
        0 <= n <= names.len(),
    ensures
        strip_names_spec(text, names) == match strip_names_spec(text, names.take(n)) {
            Ok(mid) => strip_names_spec(mid, names.skip(n)),
            Err(failure) => Err(failure),
        },
    decreases n,
{
    if n == 0 {
        assert(names.take(0) == Seq::<Seq<char>>::empty());
        assert(names.skip(0) == names);
    } else {
        let front = names.take(n);
        assert(front[0] == names[0]);
        assert(front.skip(1) == names.skip(1).take(n - 1));
        assert(names.skip(1).skip(n - 1) == names.skip(n));
        if has_region(text, names[0]) {
            lemma_strip_names_split(cleared(text, names[0]), names.skip(1), n - 1);
        }
    }
}

/// A name whose header is gone when its turn comes ends the pass: the names
/// behind it are not tried, and no text is returned.
pub proof fn lemma_missing_header_is_fatal(
    text: Seq<char>,
    names: Seq<Seq<char>>,
    n: int,
    mid: Seq<char>,
)
    requires
        0 <= n < names.len(),
        strip_names_spec(text, names.take(n)) == Ok::<Seq<char>, StripFailure>(mid),
        !has_header(mid, names[n]),
    ensures
        strip_names_spec(text, names) == Err::<Seq<char>, StripFailure>(
            StripFailure::MissingHeader(names[n]),
        ),
{
    lemma_strip_names_split(text, names, n);
    assert(names.skip(n)[0] == names[n]);
}

/// The enums `names` are declared in `text` one behind the other, in this
/// order: each has a body, the body holds no `{`, the name holds no `}`, and
/// each header stands behind the bodies of the names before it.
pub open spec fn flat_enums(text: Seq<char>, names: Seq<Seq<char>>) -> bool {
    &&& forall|i: int|
        0 <= i < names.len() ==> {
            &&& has_region(text, #[trigger] names[i])
            &&& !names[i].contains('}')
            &&& !region_text(text, names[i]).contains('{')
        }
    &&& forall|i: int, j: int|
        #![trigger names[i], names[j]]
        0 <= i < j < names.len() ==> region_end(text, names[i]) < first_occurrence(
            text,
            enum_header(names[j]),
        )
}

/// Clearing the first of a row of flat enums leaves the others a row of flat
/// enums, with their bodies as they were.
proof fn lemma_flat_enums_step(text: Seq<char>, names: Seq<Seq<char>>)
    requires
        flat_enums(text, names),
        names.len() > 0,
    ensures
        flat_enums(cleared(text, names[0]), names.skip(1)),
        forall|j: int|
            1 <= j < names.len() ==> region_text(cleared(text, names[0]), #[trigger] names[j])
                == region_text(text, names[j]),
        forall|j: int|
            1 <= j < names.len() ==> region_end(cleared(text, names[0]), names[0])
                < first_occurrence(cleared(text, names[0]), enum_header(#[trigger] names[j])),
{
    let first = names[0];
    let rest = names.skip(1);
    let out = cleared(text, first);
    lemma_region_bounds(text, first);
    lemma_cleared_outside(text, first);
    lemma_cleared_region(text, first);
    lemma_region_bounds(out, first);
    assert forall|j: int| 1 <= j < names.len() implies {
        &&& has_region(out, #[trigger] names[j])
        &&& region_text(out, names[j]) == region_text(text, names[j])
        &&& region_end(out, names[j]) == region_end(text, names[j]) - (text.len() - out.len())
        &&& first_occurrence(out, enum_header(names[j])) == first_occurrence(
            text,
            enum_header(names[j]),
        ) - (text.len() - out.len())
        &&& region_end(out, first) < first_occurrence(out, enum_header(names[j]))
    } by {
        assert(names[0] == first);
        lemma_cleared_keeps_later_body(text, first, names[j]);
    }
    assert forall|i: int| 0 <= i < rest.len() implies {
        &&& has_region(out, #[trigger] rest[i])
        &&& !rest[i].contains('}')
        &&& !region_text(out, rest[i]).contains('{')
    } by {
        assert(rest[i] == names[i + 1]);
    }
    assert forall|i: int, j: int|
        #![trigger rest[i], rest[j]]
        0 <= i < j < rest.len() implies region_end(out, rest[i]) < first_occurrence(
        out,
        enum_header(rest[j]),
    ) by {
        assert(rest[i] == names[i + 1]);
        assert(rest[j] == names[j + 1]);
    }
}

/// A pass over flat enums whose headers all stand behind the body of
/// `other` succeeds and leaves that body where and as it was.
proof fn lemma_strip_keeps_earlier_body(text: Seq<char>, names: Seq<Seq<char>>, other: Seq<char>)
    requires
        flat_enums(text, names),
        has_region(text, other),
        forall|j: int|
            0 <= j < names.len() ==> region_end(text, other) < first_occurrence(
                text,
                enum_header(#[trigger] names[j]),
            ),
    ensures
        strip_names_spec(text, names) matches Ok(out) && has_region(out, other) && region_begin(
            out,
            other,
        ) == region_begin(text, other) && region_text(out, other) == region_text(text, other),
    decreases names.len(),
{
    if names.len() > 0 {
        let first = names[0];
        let rest = names.skip(1);
        let out = cleared(text, first);
        lemma_cleared_keeps_earlier_body(text, first, other);
        lemma_flat_enums_step(text, names);
        lemma_cleared_region(text, first);
        lemma_region_bounds(out, first);
        assert forall|j: int| 0 <= j < rest.len() implies region_end(out, other)
            < first_occurrence(out, enum_header(#[trigger] rest[j])) by {
            assert(rest[j] == names[j + 1]);
        }
        lemma_strip_keeps_earlier_body(out, rest, other);
    }
}

/// A pass over flat enums succeeds, and it leaves each body as it was but
/// for the enum's own name, taken out in one pass; where that removal is
/// clean, the body holds the name no more.
pub proof fn lemma_strip_flat_enums(text: Seq<char>, names: Seq<Seq<char>>)
    requires
        flat_enums(text, names),
    ensures
        strip_names_spec(text, names) matches Ok(out) && forall|i: int|
            0 <= i < names.len() ==> {
                &&& has_region(out, #[trigger] names[i])
                &&& region_text(out, names[i]) == remove_all(
                    region_text(text, names[i]),
                    names[i],
                )
                &&& removes_cleanly(region_text(text, names[i]), names[i]) ==> !occurs(
                    region_text(out, names[i]),
                    names[i],
                )
            },
    decreases names.len(),
{
    if names.len() > 0 {
        let first = names[0];
        let rest = names.skip(1);
        let mid = cleared(text, first);
        lemma_flat_enums_step(text, names);
        lemma_cleared_region(text, first);
        lemma_strip_flat_enums(mid, rest);
        assert forall|j: int| 0 <= j < rest.len() implies region_end(mid, first)
            < first_occurrence(mid, enum_header(#[trigger] rest[j])) by {
            assert(rest[j] == names[j + 1]);
        }
        lemma_strip_keeps_earlier_body(mid, rest, first);
        let out = strip_names_spec(mid, rest)->Ok_0;
        assert forall|i: int| 0 <= i < names.len() implies {
            &&& has_region(out, #[trigger] names[i])
            &&& region_text(out, names[i]) == remove_all(region_text(text, names[i]), names[i])
        } by {
            if i > 0 {
                assert(rest[i - 1] == names[i]);
            }
        }
    }
}

} // verus!
