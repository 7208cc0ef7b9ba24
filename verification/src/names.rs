//! Collecting the names of the enums that a text declares.
//!
//! The headers are matched by the `regex` crate; what it reports is taken as
//! it comes, and the names are put in the order of their first appearance.

use vstd::prelude::*;

verus! {

/// The error type of the `regex` crate.
#[verifier::external_type_specification]
#[verifier::external_body]
pub struct ExRegexError(regex::Error);

/// The pattern of an enum header; its one group captures the enum's name.
pub const ENUM_HEADER_PATTERN: &'static str = r"pub enum (\S+) \{";

/// What the `regex` crate reports for `pattern` on `haystack`: `None` where
/// it refuses the pattern, else, for each match from left to right, the text
/// of the first capture group, or `None` where the group took no part.
pub uninterp spec fn regex_first_groups(pattern: Seq<char>, haystack: Seq<char>) -> Option<
    Seq<Option<Seq<char>>>,
>;

/// Compiles `pattern` with `regex::Regex::new` and walks `haystack` with
/// `Regex::captures_iter`, reading group 1 of each match with `Captures::get`.
/// The contract claims only that the outcome is a function of the two texts.
#[verifier::external_body]
fn first_groups(pattern: &str, haystack: &str) -> (found: Result<
    Vec<Option<String>>,
    regex::Error,
>)
    ensures
        match found {
            Ok(groups) => regex_first_groups(pattern@, haystack@) == Some(groups.deep_view()),
            Err(_) => regex_first_groups(pattern@, haystack@) is None,
        },
{
    let re = regex::Regex::new(pattern)?;
    Ok(re.captures_iter(haystack).map(|c| c.get(1).map(|m| m.as_str().to_owned())).collect())
}

/// The names that `groups` holds, each once, in the order of their first appearance.
pub open spec fn distinct_present(groups: Seq<Option<Seq<char>>>) -> Seq<Seq<char>>
    decreases groups.len(),
{
    if groups.len() == 0 {
        Seq::empty()
    } else {
        let earlier = distinct_present(groups.drop_last());
        match groups.last() {
            Some(name) => if earlier.contains(name) {
                earlier
            } else {
                earlier.push(name)
            },
            None => earlier,
        }
    }
}

/// Whether `names` holds `name`.
fn holds_name(names: &Vec<String>, name: &String) -> (held: bool)
    ensures
        held == names.deep_view().contains(name@),
{
    let mut i: usize = 0;
    while i < names.len()
        invariant
            i <= names.len(),
            forall|k: int| 0 <= k < i ==> names.deep_view()[k] != name@,
        decreases names.len() - i,
    {
        if names[i] == *name {
            assert(names.deep_view()[i as int] == name@);
            return true;
        }
        i += 1;
    }
    false
}

/// The names captured in `groups`, each once, in the order of their first appearance.
pub fn distinct_names(groups: &Vec<Option<String>>) -> (names: Vec<String>)
    ensures
        names.deep_view() == distinct_present(groups.deep_view()),
{
    let mut names: Vec<String> = Vec::new();
    let mut i: usize = 0;
    assert(groups.deep_view().take(0) == Seq::<Option<Seq<char>>>::empty());
    assert(names.deep_view() == Seq::<Seq<char>>::empty());
    while i < groups.len()
        invariant
            i <= groups.len(),
            names.deep_view() == distinct_present(groups.deep_view().take(i as int)),
        decreases groups.len() - i,
    {
        let ghost before = names.deep_view();
        let ghost seen = groups.deep_view().take(i + 1);
        assert(seen.drop_last() == groups.deep_view().take(i as int));
        assert(seen.last() == groups@[i as int].deep_view());
        match &groups[i] {
            Some(name) => {
                if !holds_name(&names, name) {
                    names.push(name.clone());
                    assert(names.deep_view() == before.push(name@));
                }
            },
            None => {},
        }
        i += 1;
    }
    assert(groups.deep_view().take(i as int) == groups.deep_view());
    names
}

/// The names that the first group of `pattern` captures in `text`, each
/// once, in the order of their first appearance; `Err` where the `regex`
/// crate refuses the pattern.
pub fn captured_names(pattern: &str, text: &str) -> (found: Result<Vec<String>, regex::Error>)
    ensures
        match found {
            Ok(names) => regex_first_groups(pattern@, text@) matches Some(groups)
                && names.deep_view() == distinct_present(groups),
            Err(_) => regex_first_groups(pattern@, text@) is None,
        },
{
    match first_groups(pattern, text) {
        Ok(groups) => Ok(distinct_names(&groups)),
        Err(refused) => Err(refused),
    }
}

/// The names of the enums whose headers the `regex` crate finds in `text`,
/// each once, in the order of their first appearance.
pub fn enum_names(text: &str) -> (found: Result<Vec<String>, regex::Error>)
    ensures
        match found {
            Ok(names) => regex_first_groups(ENUM_HEADER_PATTERN@, text@) matches Some(groups)
                && names.deep_view() == distinct_present(groups),
            Err(_) => regex_first_groups(ENUM_HEADER_PATTERN@, text@) is None,
        },
{
    captured_names(ENUM_HEADER_PATTERN, text)
}

/// `groups` holds `first` at a place before which, and at which, it does not hold `second`.
pub open spec fn appears_before(
    groups: Seq<Option<Seq<char>>>,
    first: Seq<char>,
    second: Seq<char>,
) -> bool {
    exists|p: int|
        0 <= p < groups.len() && #[trigger] groups[p] == Some(first) && forall|q: int|
            0 <= q <= p ==> #[trigger] groups[q] != Some(second)
}

/// The names of `distinct_present` are those that `groups` holds, none
/// twice, and a name stands before another where it appears first in `groups`.
pub proof fn lemma_distinct_present(groups: Seq<Option<Seq<char>>>)
    ensures
        forall|name: Seq<char>| #[trigger]
            distinct_present(groups).contains(name) <==> groups.contains(Some(name)),
        forall|i: int, j: int|
            0 <= i < j < distinct_present(groups).len() ==> distinct_present(groups)[i]
                != distinct_present(groups)[j],
        forall|i: int, j: int|
            0 <= i < j < distinct_present(groups).len() ==> appears_before(
                groups,
                #[trigger] distinct_present(groups)[i],
                #[trigger] distinct_present(groups)[j],
            ),
    decreases groups.len(),
{
    let names = distinct_present(groups);
    if groups.len() > 0 {
        let front = groups.drop_last();
        let earlier = distinct_present(front);
        lemma_distinct_present(front);
        assert forall|name: Seq<char>| #[trigger]
            names.contains(name) <==> groups.contains(Some(name)) by {
            if names.contains(name) {
                let i = choose|i: int| 0 <= i < names.len() && names[i] == name;
                if i < earlier.len() {
                    assert(earlier.contains(name));
                    let p = choose|p: int| 0 <= p < front.len() && front[p] == Some(name);
                    assert(groups[p] == Some(name));
                } else {
                    assert(groups.last() == Some(name));
                }
            }
            if groups.contains(Some(name)) {
                let p = choose|p: int| 0 <= p < groups.len() && groups[p] == Some(name);
                if p < front.len() {
                    assert(front[p] == Some(name));
                    assert(earlier.contains(name));
                    let i = choose|i: int| 0 <= i < earlier.len() && earlier[i] == name;
                    assert(names[i] == name);
                } else if !earlier.contains(name) {
                    assert(names.last() == name);
                } else {
                    let i = choose|i: int| 0 <= i < earlier.len() && earlier[i] == name;
                    assert(names[i] == name);
                }
            }
        }
        assert forall|i: int, j: int| 0 <= i < j < names.len() implies names[i] != names[j] by {
            if j >= earlier.len() {
                assert(earlier[i] == names[i]);
                assert(earlier.contains(names[i]));
            }
        }
        assert forall|i: int, j: int| 0 <= i < j < names.len() implies appears_before(
            groups,
            #[trigger] names[i],
            #[trigger] names[j],
        ) by {
            assert(earlier[i] == names[i]);
            if j < earlier.len() {
                assert(earlier[j] == names[j]);
                assert(appears_before(front, earlier[i], earlier[j]));
                let p = choose|p: int|
                    0 <= p < front.len() && #[trigger] front[p] == Some(earlier[i]) && forall|
                        q: int,
                    |
                        0 <= q <= p ==> #[trigger] front[q] != Some(earlier[j]);
                assert(groups[p] == Some(names[i]));
                assert forall|q: int| 0 <= q <= p implies #[trigger] groups[q] != Some(
                    names[j],
                ) by {
                    assert(front[q] != Some(earlier[j]));
                }
            } else {
                assert(earlier.contains(names[i]));
                assert(front.contains(Some(names[i])));
                let p = choose|p: int| 0 <= p < front.len() && front[p] == Some(names[i]);
                assert(groups[p] == Some(names[i]));
                assert forall|q: int| 0 <= q <= p implies #[trigger] groups[q] != Some(
                    names[j],
                ) by {
                    if groups[q] == Some(names[j]) {
                        assert(front[q] == Some(names[j]));
                        assert(front.contains(Some(names[j])));
                    }
                }
            }
        }
    }
}

} // verus!
