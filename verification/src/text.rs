//! Searching and rewriting sequences of characters.
//!
//! Every offset counts characters from the start of the sequence.

use vstd::prelude::*;

verus! {

/// `needle` stands in `hay` at offset `at`.
pub open spec fn occurs_at(hay: Seq<char>, needle: Seq<char>, at: int) -> bool {
    &&& 0 <= at
    &&& at + needle.len() <= hay.len()
    &&& hay.subrange(at, at + needle.len()) == needle
}

/// `needle` stands in `hay` at some offset that is at least `from`.
pub open spec fn occurs_from(hay: Seq<char>, needle: Seq<char>, from: int) -> bool {
    exists|at: int| from <= at && occurs_at(hay, needle, at)
}

/// `needle` stands somewhere in `hay`.
pub open spec fn occurs(hay: Seq<char>, needle: Seq<char>) -> bool {
    occurs_from(hay, needle, 0)
}

/// `at` is the least offset from `from` on at which `needle` stands in `hay`.
pub open spec fn is_next_occurrence(hay: Seq<char>, needle: Seq<char>, from: int, at: int) -> bool {
    &&& from <= at
    &&& occurs_at(hay, needle, at)
    &&& forall|earlier: int| from <= earlier < at ==> !occurs_at(hay, needle, earlier)
}

/// The least offset from `from` on at which `needle` stands in `hay`;
/// meaningful when `occurs_from(hay, needle, from)`.
pub open spec fn next_occurrence(hay: Seq<char>, needle: Seq<char>, from: int) -> int {
    choose|at: int| is_next_occurrence(hay, needle, from, at)
}

/// The least offset at which `needle` stands in `hay`; meaningful when
/// `occurs(hay, needle)`.
pub open spec fn first_occurrence(hay: Seq<char>, needle: Seq<char>) -> int {
    next_occurrence(hay, needle, 0)
}

/// `hay` with every occurrence of `from` replaced by `to`, the occurrences
/// taken from left to right without overlap. An empty `from` stands before
/// every character and at the end.
pub open spec fn replace_all(hay: Seq<char>, from: Seq<char>, to: Seq<char>) -> Seq<char>
    decreases hay.len(),
{
    if hay.len() == 0 {
        if from.len() == 0 {
            to
        } else {
            hay
        }
    } else if from.len() == 0 {
        to.push(hay[0]) + replace_all(hay.skip(1), from, to)
    } else if occurs_at(hay, from, 0) {
        to + replace_all(hay.skip(from.len() as int), from, to)
    } else {
        seq![hay[0]] + replace_all(hay.skip(1), from, to)
    }
}

/// `hay` with every occurrence of `needle` taken out, in one pass from left
/// to right.
pub open spec fn remove_all(hay: Seq<char>, needle: Seq<char>) -> Seq<char> {
    replace_all(hay, needle, Seq::empty())
}

/// `String::push` appends one character.
pub assume_specification[ String::push ](s: &mut String, ch: char)
    ensures
        final(s)@ == old(s)@.push(ch),
;

/// The characters of `s`, in order.
pub fn to_chars(s: &str) -> (chars: Vec<char>)
    ensures
        chars@ == s@,
{
    let mut chars: Vec<char> = Vec::new();
    for c in it: s.chars()
        invariant
            chars@ == it.seq().take(it.index() as int),
            it.seq() == s@,
    {
        chars.push(c);
    }
    chars
}

/// The string made of `chars`, in order.
pub fn to_string(chars: &Vec<char>) -> (s: String)
    ensures
        s@ == chars@,
{
    let mut s = String::new();
    let mut i: usize = 0;
    while i < chars.len()
        invariant
            i <= chars.len(),
            s@ == chars@.take(i as int),
        decreases chars.len() - i,
    {
        s.push(chars[i]);
        i += 1;
    }
    s
}

/// Whether `needle` stands in `hay` at offset `at`.
pub fn matches_at(hay: &Vec<char>, needle: &Vec<char>, at: usize) -> (found: bool)
    ensures
        found == occurs_at(hay@, needle@, at as int),
{
    if needle.len() > hay.len() || at > hay.len() - needle.len() {
        return false;
    }
    let mut k: usize = 0;
    while k < needle.len()
        invariant
            k <= needle.len(),
            at + needle.len() <= hay.len(),
            hay@.subrange(at as int, at + k) == needle@.take(k as int),
        decreases needle.len() - k,
    {
        if hay[at + k] != needle[k] {
            assert(hay@.subrange(at as int, at + needle.len())[k as int] != needle@[k as int]);
            return false;
        }
        k += 1;
        assert(hay@.subrange(at as int, at + k) == needle@.take(k as int)) by {
            assert(hay@.subrange(at as int, at + k) == hay@.subrange(at as int, at + k - 1).push(
                hay@[at + k - 1],
            ));
            assert(needle@.take(k as int) == needle@.take(k - 1).push(needle@[k - 1]));
        }
    }
    assert(needle@.take(k as int) == needle@);
    true
}

/// The least offset from `from` on at which `needle` stands in `hay`, if there is one.
pub fn find_from(hay: &Vec<char>, needle: &Vec<char>, from: usize) -> (found: Option<usize>)
    ensures
        match found {
            Some(at) => is_next_occurrence(hay@, needle@, from as int, at as int),
            None => !occurs_from(hay@, needle@, from as int),
        },
{
    if needle.len() > hay.len() || from > hay.len() - needle.len() {
        return None;
    }
    let last: usize = hay.len() - needle.len();
    let mut at: usize = from;
    loop
        invariant
            from <= at <= last,
            last == hay.len() - needle.len(),
            forall|earlier: int| from <= earlier < at ==> !occurs_at(hay@, needle@, earlier),
        decreases last - at,
    {
        if matches_at(hay, needle, at) {
            return Some(at);
        }
        if at == last {
            return None;
        }
        at += 1;
    }
}

/// The least offset at which `needle` stands in `hay`, if there is one.
pub fn find(hay: &Vec<char>, needle: &Vec<char>) -> (found: Option<usize>)
    ensures
        match found {
            Some(at) => is_next_occurrence(hay@, needle@, 0, at as int),
            None => !occurs(hay@, needle@),
        },
{
    find_from(hay, needle, 0)
}

/// Appends the characters of `src` from offset `from` up to `to` to `out`.
pub fn push_range(out: &mut Vec<char>, src: &Vec<char>, from: usize, to: usize)
    requires
        from <= to <= src.len(),
    ensures
        final(out)@ == old(out)@ + src@.subrange(from as int, to as int),
{
    let mut i: usize = from;
    while i < to
        invariant
            from <= i <= to <= src.len(),
            out@ == old(out)@ + src@.subrange(from as int, i as int),
        decreases to - i,
    {
        out.push(src[i]);
        i += 1;
    }
}

/// `hay` with every occurrence of `from` replaced by `to`.
pub fn replace_chars(hay: &Vec<char>, from: &Vec<char>, to: &Vec<char>) -> (out: Vec<char>)
    ensures
        out@ == replace_all(hay@, from@, to@),
{
    let mut out: Vec<char> = Vec::new();
    let mut i: usize = 0;
    assert(hay@.skip(0) == hay@);
    while i < hay.len()
        invariant
            i <= hay.len(),
            out@ + replace_all(hay@.skip(i as int), from@, to@) == replace_all(hay@, from@, to@),
        decreases hay.len() - i,
    {
        let ghost rest = hay@.skip(i as int);
        if from.len() == 0 {
            push_range(&mut out, to, 0, to.len());
            out.push(hay[i]);
            assert(to@.subrange(0, to@.len() as int) == to@);
            assert(rest.skip(1) == hay@.skip(i + 1));
            i += 1;
        } else if matches_at(hay, from, i) {
            assert(occurs_at(rest, from@, 0)) by {
                assert(rest.subrange(0, from@.len() as int) == hay@.subrange(
                    i as int,
                    i + from@.len(),
                ));
            }
            push_range(&mut out, to, 0, to.len());
            assert(to@.subrange(0, to@.len() as int) == to@);
            assert(rest.skip(from@.len() as int) == hay@.skip(i + from@.len()));
            i += from.len();
        } else {
            assert(!occurs_at(rest, from@, 0)) by {
                if i + from@.len() <= hay@.len() {
                    assert(rest.subrange(0, from@.len() as int) == hay@.subrange(
                        i as int,
                        i + from@.len(),
                    ));
                }
            }
            out.push(hay[i]);
            assert(rest.skip(1) == hay@.skip(i + 1));
            i += 1;
        }
    }
    if from.len() == 0 {
        push_range(&mut out, to, 0, to.len());
        assert(to@.subrange(0, to@.len() as int) == to@);
    }
    out
}

/// An occurrence at or before `bound` gives a least occurrence at or before `bound`.
proof fn lemma_least_occurrence(hay: Seq<char>, needle: Seq<char>, from: int, bound: int)
    requires
        from <= bound,
        occurs_at(hay, needle, bound),
    ensures
        exists|at: int| at <= bound && is_next_occurrence(hay, needle, from, at),
    decreases bound - from,
{
    if exists|earlier: int| from <= earlier < bound && occurs_at(hay, needle, earlier) {
        let earlier = choose|earlier: int| from <= earlier < bound && occurs_at(hay, needle, earlier);
        lemma_least_occurrence(hay, needle, from, earlier);
    } else {
        assert(is_next_occurrence(hay, needle, from, bound));
    }
}

/// Where `needle` occurs from `from` on, `next_occurrence` is its least such offset.
pub proof fn lemma_next_occurrence(hay: Seq<char>, needle: Seq<char>, from: int)
    requires
        occurs_from(hay, needle, from),
    ensures
        is_next_occurrence(hay, needle, from, next_occurrence(hay, needle, from)),
{
    let bound = choose|at: int| from <= at && occurs_at(hay, needle, at);
    lemma_least_occurrence(hay, needle, from, bound);
}

/// The least occurrence is the only one: an offset that is one equals `next_occurrence`.
pub proof fn lemma_next_occurrence_unique(hay: Seq<char>, needle: Seq<char>, from: int, at: int)
    requires
        is_next_occurrence(hay, needle, from, at),
    ensures
        occurs_from(hay, needle, from),
        next_occurrence(hay, needle, from) == at,
{
    lemma_next_occurrence(hay, needle, from);
}

/// An occurrence in what is left of `hay` behind its first `n` characters is
/// an occurrence in `hay`, `n` further on.
pub proof fn lemma_occurs_at_skip(hay: Seq<char>, needle: Seq<char>, n: int, at: int)
    requires
        0 <= n <= hay.len(),
        0 <= at,
    ensures
        occurs_at(hay.skip(n), needle, at) == occurs_at(hay, needle, n + at),
{
    if at + needle.len() <= hay.len() - n {
        assert(hay.skip(n).subrange(at, at + needle.len()) == hay.subrange(
            n + at,
            n + at + needle.len(),
        ));
    }
}

/// Two texts that agree on their first `n` characters hold the same
/// occurrences inside those characters.
pub proof fn lemma_occurs_at_prefix(
    a: Seq<char>,
    b: Seq<char>,
    needle: Seq<char>,
    n: int,
    at: int,
)
    requires
        0 <= n <= a.len(),
        n <= b.len(),
        a.take(n) == b.take(n),
        at + needle.len() <= n,
    ensures
        occurs_at(a, needle, at) == occurs_at(b, needle, at),
{
    if 0 <= at {
        assert(a.subrange(at, at + needle.len()) == a.take(n).subrange(at, at + needle.len()));
        assert(b.subrange(at, at + needle.len()) == b.take(n).subrange(at, at + needle.len()));
    }
}

/// Two texts that agree behind some offset each hold the same occurrences
/// behind those offsets.
pub proof fn lemma_occurs_at_suffix(
    a: Seq<char>,
    b: Seq<char>,
    needle: Seq<char>,
    na: int,
    nb: int,
    at: int,
)
    requires
        0 <= na <= a.len(),
        0 <= nb <= b.len(),
        a.skip(na) == b.skip(nb),
        0 <= at,
    ensures
        occurs_at(a, needle, na + at) == occurs_at(b, needle, nb + at),
{
    lemma_occurs_at_skip(a, needle, na, at);
    lemma_occurs_at_skip(b, needle, nb, at);
}

/// Replacing a text that does not occur changes nothing.
pub proof fn lemma_replace_absent(hay: Seq<char>, from: Seq<char>, to: Seq<char>)
    requires
        from.len() > 0,
        !occurs(hay, from),
    ensures
        replace_all(hay, from, to) == hay,
    decreases hay.len(),
{
    if hay.len() > 0 {
        assert(!occurs_at(hay, from, 0));
        assert forall|at: int| 0 <= at implies !occurs_at(hay.skip(1), from, at) by {
            lemma_occurs_at_skip(hay, from, 1, at);
            assert(!occurs_at(hay, from, 1 + at));
        }
        lemma_replace_absent(hay.skip(1), from, to);
        assert(seq![hay[0]] + hay.skip(1) == hay);
    }
}

/// Replacing a text that occurs at one offset only rewrites that one place.
pub proof fn lemma_replace_single(hay: Seq<char>, from: Seq<char>, to: Seq<char>, at: int)
    requires
        from.len() > 0,
        occurs_at(hay, from, at),
        forall|other: int| other != at ==> !occurs_at(hay, from, other),
    ensures
        replace_all(hay, from, to) == hay.take(at) + to + hay.skip(at + from.len()),
    decreases at,
{
    if at == 0 {
        let rest = hay.skip(from.len() as int);
        assert forall|k: int| 0 <= k implies !occurs_at(rest, from, k) by {
            lemma_occurs_at_skip(hay, from, from.len() as int, k);
        }
        lemma_replace_absent(rest, from, to);
        assert(hay.take(0) + to + rest == to + rest);
    } else {
        let rest = hay.skip(1);
        assert(!occurs_at(hay, from, 0));
        lemma_occurs_at_skip(hay, from, 1, at - 1);
        assert forall|other: int| other != at - 1 implies !occurs_at(rest, from, other) by {
            if 0 <= other {
                lemma_occurs_at_skip(hay, from, 1, other);
            }
        }
        lemma_replace_single(rest, from, to, at - 1);
        assert(seq![hay[0]] + (rest.take(at - 1) + to + rest.skip(at - 1 + from.len()))
            == hay.take(at) + to + hay.skip(at + from.len()));
    }
}

/// Removal makes a text no longer.
pub proof fn lemma_remove_all_len(hay: Seq<char>, needle: Seq<char>)
    ensures
        remove_all(hay, needle).len() <= hay.len(),
    decreases hay.len(),
{
    if hay.len() == 0 {
    } else if needle.len() > 0 && occurs_at(hay, needle, 0) {
        lemma_remove_all_len(hay.skip(needle.len() as int), needle);
    } else {
        lemma_remove_all_len(hay.skip(1), needle);
    }
}

/// Removal brings in no character: what is left was there before.
pub proof fn lemma_remove_all_subset(hay: Seq<char>, needle: Seq<char>, c: char)
    requires
        remove_all(hay, needle).contains(c),
    ensures
        hay.contains(c),
    decreases hay.len(),
{
    let left = remove_all(hay, needle);
    if hay.len() == 0 {
    } else if needle.len() > 0 && occurs_at(hay, needle, 0) {
        let n = needle.len() as int;
        assert(left == remove_all(hay.skip(n), needle));
        lemma_remove_all_subset(hay.skip(n), needle, c);
        let j = choose|j: int| 0 <= j < hay.skip(n).len() && hay.skip(n)[j] == c;
        assert(hay[j + n] == c);
    } else {
        let rest = remove_all(hay.skip(1), needle);
        assert(left == seq![hay[0]] + rest);
        let i = choose|i: int| 0 <= i < left.len() && left[i] == c;
        if i == 0 {
            assert(hay[0] == c);
        } else {
            assert(rest[i - 1] == c);
            lemma_remove_all_subset(hay.skip(1), needle, c);
            let j = choose|j: int| 0 <= j < hay.skip(1).len() && hay.skip(1)[j] == c;
            assert(hay[j + 1] == c);
        }
    }
}

} // verus!
