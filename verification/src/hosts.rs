//! The host list: one host per line of input, surrounding white space
//! removed, blank lines dropped.

use vstd::prelude::*;
use vstd::std_specs::iter::IteratorSpec;
use vstd::string::{group_string_axioms, StrSliceExecFns};

verus! {

/// Whether `c` has the Unicode property White_Space, as `char::is_whitespace`
/// reports it.
pub uninterp spec fn is_white_space(c: char) -> bool;

/// Calls `char::is_whitespace`. The answer depends on the character alone;
/// the contract gives it the name [`is_white_space`] and claims nothing else.
#[verifier::external_body]
fn is_whitespace(c: char) -> (white: bool)
    ensures
        white == is_white_space(c),
{
    c.is_whitespace()
}

/// `line` without its leading and trailing white space.
pub open spec fn trimmed(line: Seq<char>) -> Seq<char>
    decreases line.len(),
{
    if line.len() == 0 {
        line
    } else if is_white_space(line.first()) {
        trimmed(line.drop_first())
    } else if is_white_space(line.last()) {
        trimmed(line.drop_last())
    } else {
        line
    }
}

/// The host named on `line`, if it names one.
pub open spec fn token_of(line: Seq<char>) -> Option<Seq<char>> {
    if trimmed(line).len() > 0 {
        Some(trimmed(line))
    } else {
        None
    }
}

/// The hosts named on `lines`, in order.
pub open spec fn host_tokens(lines: Seq<Seq<char>>) -> Seq<Seq<char>> {
    lines.filter_map(|line: Seq<char>| token_of(line))
}

/// The characters of each string of `texts`.
pub open spec fn contents(texts: Seq<String>) -> Seq<Seq<char>> {
    texts.map_values(|text: String| text@)
}

/// Which characters of `line` are white space.
pub open spec fn whiteness(line: Seq<char>) -> Seq<bool> {
    line.map_values(|c: char| is_white_space(c))
}

/// `from` and `to` bound what is left of a line once its white margins are
/// cut off, where `white` says which of its characters are white space:
/// everything before `from` and everything from `to` on is white, and what
/// lies between them begins and ends with a character that is not. A line
/// that is white throughout is cut down to its empty beginning.
pub open spec fn is_core_span(white: Seq<bool>, from: int, to: int) -> bool {
    &&& 0 <= from <= to <= white.len()
    &&& forall|i: int| 0 <= i < from ==> #[trigger] white[i]
    &&& forall|i: int| to <= i < white.len() ==> #[trigger] white[i]
    &&& from < to ==> !white[from] && !white[to - 1]
    &&& from == to ==> from == 0
}

/// A line has one core span only.
pub proof fn lemma_core_span_is_unique(white: Seq<bool>, a: (int, int), b: (int, int))
    requires
        is_core_span(white, a.0, a.1),
        is_core_span(white, b.0, b.1),
    ensures
        a == b,
{
    if a.0 < a.1 && b.0 < b.1 {
        if a.0 < b.0 {
            assert(white[a.0]);
        }
        if b.0 < a.0 {
            assert(white[b.0]);
        }
        if a.1 < b.1 {
            assert(white[b.1 - 1]);
        }
        if b.1 < a.1 {
            assert(white[a.1 - 1]);
        }
    } else if a.0 < a.1 {
        assert(white[a.0]);
    } else if b.0 < b.1 {
        assert(white[b.0]);
    }
}

/// The core span of a line holds the trimmed line.
pub proof fn lemma_trimmed_is_core(line: Seq<char>, from: int, to: int)
    requires
        is_core_span(whiteness(line), from, to),
    ensures
        trimmed(line) == line.subrange(from, to),
{
    let white = whiteness(line);
    assert forall|i: int| 0 <= i < from implies is_white_space(#[trigger] line[i]) by {
        assert(white[i]);
    }
    assert forall|i: int| to <= i < line.len() implies is_white_space(#[trigger] line[i]) by {
        assert(white[i]);
    }
    lemma_trimmed_between_margins(line, from, to);
}

/// If everything before `from` and everything from `to` on is white space,
/// and the part between them neither begins nor ends with white space, that
/// part is what trimming keeps.
proof fn lemma_trimmed_between_margins(line: Seq<char>, from: int, to: int)
    requires
        0 <= from <= to <= line.len(),
        forall|i: int| 0 <= i < from ==> is_white_space(#[trigger] line[i]),
        forall|i: int| to <= i < line.len() ==> is_white_space(#[trigger] line[i]),
        from < to ==> !is_white_space(line[from]) && !is_white_space(line[to - 1]),
    ensures
        trimmed(line) == line.subrange(from, to),
    decreases line.len(),
{
    if line.len() == 0 {
        assert(line.subrange(from, to) =~= line);
    } else if is_white_space(line.first()) {
        let rest = line.drop_first();
        if from == 0 {
            assert(to == 0);
            lemma_trimmed_between_margins(rest, 0, 0);
            assert(rest.subrange(0, 0) =~= line.subrange(0, 0));
        } else {
            lemma_trimmed_between_margins(rest, from - 1, to - 1);
            assert(rest.subrange(from - 1, to - 1) =~= line.subrange(from, to));
        }
    } else if is_white_space(line.last()) {
        assert(from == 0);
        assert(to < line.len());
        let rest = line.drop_last();
        lemma_trimmed_between_margins(rest, from, to);
        assert(rest.subrange(from, to) =~= line.subrange(from, to));
    } else {
        assert(from == 0);
        assert(to == line.len());
        assert(line.subrange(from, to) =~= line);
    }
}

/// Trimming keeps a part of the line that neither begins nor ends with white
/// space, and trimming again changes nothing.
pub proof fn lemma_trimmed_has_no_margin(line: Seq<char>)
    ensures
        trimmed(line).len() <= line.len(),
        trimmed(line).len() > 0 ==> !is_white_space(trimmed(line).first()) && !is_white_space(
            trimmed(line).last(),
        ),
        trimmed(trimmed(line)) == trimmed(line),
    decreases line.len(),
{
    if line.len() == 0 {
    } else if is_white_space(line.first()) {
        lemma_trimmed_has_no_margin(line.drop_first());
    } else if is_white_space(line.last()) {
        lemma_trimmed_has_no_margin(line.drop_last());
    } else {
    }
}

/// Finds the core span of a line from the whiteness of its characters.
pub fn core_span(white: &[bool]) -> (span: (usize, usize))
    ensures
        is_core_span(white@, span.0 as int, span.1 as int),
{
    let mut core: Option<(usize, usize)> = None;
    let mut index: usize = 0;
    while index < white.len()
        invariant
            index <= white.len(),
            match core {
                None => forall|i: int| 0 <= i < index ==> #[trigger] white@[i],
                Some((from, to)) => {
                    &&& from < to <= index
                    &&& !white@[from as int]
                    &&& !white@[to - 1]
                    &&& forall|i: int| 0 <= i < from ==> #[trigger] white@[i]
                    &&& forall|i: int| to <= i < index ==> #[trigger] white@[i]
                },
            },
        decreases white.len() - index,
    {
        if !white[index] {
            core = match core {
                None => Some((index, index + 1)),
                Some((from, _)) => Some((from, index + 1)),
            };
        }
        index += 1;
    }
    match core {
        None => (0, 0),
        Some(span) => span,
    }
}

/// Tells for each character of `line` whether it is white space.
fn whiteness_of(line: &str) -> (white: Vec<bool>)
    ensures
        white@ == whiteness(line@),
{
    broadcast use group_string_axioms;

    let length = line.unicode_len();
    let mut chars = line.chars();
    let mut white: Vec<bool> = Vec::new();
    assert(line@.skip(0) =~= line@);
    while white.len() < length
        invariant
            white.len() <= length,
            length == line@.len(),
            chars.obeys_prophetic_iter_laws(),
            chars.remaining() == line@.skip(white.len() as int),
            white@ == whiteness(line@.take(white.len() as int)),
        decreases length - white.len(),
    {
        let ghost seen = white.len() as int;
        assert(line@.skip(seen).drop_first() =~= line@.skip(seen + 1));
        // The iterator is not exhausted here; were it, the character would count as white.
        let is_white = match chars.next() {
            Some(c) => is_whitespace(c),
            None => true,
        };
        white.push(is_white);
        assert(white@ =~= whiteness(line@.take(seen + 1)));
    }
    assert(line@.take(length as int) =~= line@);
    white
}

/// Removes leading and trailing white space from `line`.
pub fn trim(line: &str) -> (kept: String)
    ensures
        kept@ == trimmed(line@),
{
    let white = whiteness_of(line);
    let (from, to) = core_span(white.as_slice());
    proof {
        lemma_trimmed_is_core(line@, from as int, to as int);
    }
    line.substring_char(from, to).to_owned()
}

/// The host named on `line`: the line without surrounding white space,
/// unless nothing is left of it.
pub fn host_token(line: &str) -> (host: Option<String>)
    ensures
        host is Some <==> trimmed(line@).len() > 0,
        host matches Some(name) ==> name@ == trimmed(line@),
{
    let kept = trim(line);
    if kept.as_str().unicode_len() == 0 {
        None
    } else {
        Some(kept)
    }
}

/// The hosts named on `lines`: every line without its surrounding white
/// space, in order, blank lines left out.
pub fn hosts_from_lines(lines: &[String]) -> (hosts: Vec<String>)
    ensures
        contents(hosts@) == host_tokens(contents(lines@)),
        hosts.len() <= lines.len(),
{
    let mut hosts: Vec<String> = Vec::new();
    let mut i: usize = 0;
    while i < lines.len()
        invariant
            i <= lines.len(),
            hosts.len() <= i,
            contents(hosts@) == host_tokens(contents(lines@.take(i as int))),
        decreases lines.len() - i,
    {
        let ghost before = hosts@;
        let ghost seen = contents(lines@.take(i as int));
        let ghost grown = contents(lines@.take(i + 1));
        proof {
            assert(grown.drop_last() =~= seen);
            assert(grown.last() == lines@[i as int]@);
        }
        match host_token(lines[i].as_str()) {
            Some(name) => {
                hosts.push(name);
                proof {
                    assert(contents(hosts@) =~= contents(before).push(name@));
                    assert(contents(before).push(name@) =~= contents(before) + seq![name@]);
                }
            },
            None => {},
        }
        i += 1;
    }
    proof {
        assert(lines@.take(i as int) =~= lines@);
    }
    hosts
}

} // verus!
