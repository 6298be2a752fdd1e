//! The list of tracking numbers that is kept between runs.

use vstd::prelude::*;
use crate::text::{split_lines, str_eq, strings_view, trimmed_lines};

verus! {

/// The lines that are new: not among the known ones and not a repetition
/// of an earlier line, in the order in which they first stand.
pub open spec fn fresh_lines(lines: Seq<Seq<char>>, known: Seq<Seq<char>>) -> Seq<Seq<char>>
    decreases lines.len(),
{
    if lines.len() == 0 {
        Seq::empty()
    } else if known.contains(lines.last()) || lines.drop_last().contains(lines.last()) {
        fresh_lines(lines.drop_last(), known)
    } else {
        fresh_lines(lines.drop_last(), known).push(lines.last())
    }
}

/// The kept list after a text has been entered: the numbers that were
/// kept, then the new ones among the trimmed, non-empty lines of the text.
pub open spec fn spec_clean_numbers_list(existing: Seq<Seq<char>>, input: Seq<char>) -> Seq<
    Seq<char>,
> {
    existing + fresh_lines(trimmed_lines(input), existing)
}

/// What is known or fresh is what is known or stands among the lines.
proof fn lemma_fresh_lines_members(lines: Seq<Seq<char>>, known: Seq<Seq<char>>, x: Seq<char>)
    ensures
        (known + fresh_lines(lines, known)).contains(x) <==> known.contains(x) || lines.contains(x),
    decreases lines.len(),
{
    let fresh = fresh_lines(lines, known);
    if lines.len() == 0 {
        assert(known + fresh =~= known);
    } else {
        let rest = lines.drop_last();
        let last = lines.last();
        lemma_fresh_lines_members(rest, known, x);
        lemma_fresh_lines_members(rest, known, last);
        let before = known + fresh_lines(rest, known);
        if lines.contains(x) {
            let i = choose|i: int| 0 <= i < lines.len() && lines[i] == x;
            if i < rest.len() {
                assert(rest[i] == x);
            }
        }
        if rest.contains(x) {
            let i = choose|i: int| 0 <= i < rest.len() && rest[i] == x;
            assert(lines[i] == x);
        }
        assert(lines[lines.len() - 1] == last);
        if known.contains(last) || rest.contains(last) {
        } else {
            assert(known + fresh =~= before.push(last));
            if before.contains(x) {
                let i = choose|i: int| 0 <= i < before.len() && before[i] == x;
                assert(before.push(last)[i] == x);
            }
            if before.push(last).contains(x) {
                let i = choose|i: int| 0 <= i < before.push(last).len() && before.push(last)[i] == x;
                if i < before.len() {
                    assert(before[i] == x);
                }
            }
            assert(before.push(last)[before.len() as int] == last);
        }
    }
}

/// Whether a string stands in a list.
pub fn holds(list: &Vec<String>, text: &str) -> (found: bool)
    ensures
        found == strings_view(list@).contains(text@),
{
    let mut i: usize = 0;
    while i < list.len()
        invariant
            i <= list.len(),
            forall|k: int| 0 <= k < i ==> strings_view(list@)[k] != text@,
        decreases list.len() - i,
    {
        if str_eq(list[i].as_str(), text) {
            assert(strings_view(list@)[i as int] == text@);
            return true;
        }
        i += 1;
    }
    false
}

/// Adds to the kept numbers those lines of a text that are new. The kept
/// numbers stay as they are and where they are; a line is added once,
/// where it first stands, and not at all if it is kept already.
pub fn clean_numbers_list(existing: Vec<String>, input: &str) -> (all: Vec<String>)
    ensures
        strings_view(all@) == spec_clean_numbers_list(strings_view(existing@), input@),
{
    let lines = split_lines(input);
    let ghost known = strings_view(existing@);
    let ghost given = strings_view(lines@);
    let ghost raw = lines@;
    let mut all = existing;
    assert(given.take(0) =~= Seq::<Seq<char>>::empty());
    assert(known + Seq::<Seq<char>>::empty() =~= known);
    for line in it: lines
        invariant
            it.seq() == raw,
            given == strings_view(raw),
            strings_view(all@) == known + fresh_lines(given.take(it.index() as int), known),
    {
        let ghost seen = given.take(it.index() as int);
        let ghost next = given.take(it.index() + 1);
        proof {
            assert(next.drop_last() =~= seen);
            assert(next.last() == line@);
            lemma_fresh_lines_members(seen, known, line@);
        }
        if !holds(&all, line.as_str()) {
            let ghost before = strings_view(all@);
            all.push(line);
            assert(strings_view(all@) =~= before.push(next.last()));
            assert(before.push(next.last()) =~= known + fresh_lines(seen, known).push(next.last()));
        }
    }
    assert(given.take(given.len() as int) =~= given);
    all
}

/// The kept numbers come first and unchanged; every line of the text is
/// in the list; and what was added is new and is added once.
pub proof fn lemma_clean_numbers_list(existing: Seq<Seq<char>>, input: Seq<char>)
    ensures
        spec_clean_numbers_list(existing, input).take(existing.len() as int) == existing,
        forall|i: int|
            0 <= i < trimmed_lines(input).len() ==> spec_clean_numbers_list(
                existing,
                input,
            ).contains(#[trigger] trimmed_lines(input)[i]),
        forall|i: int|
            0 <= i < fresh_lines(trimmed_lines(input), existing).len() ==> !existing.contains(
                #[trigger] fresh_lines(trimmed_lines(input), existing)[i],
            ),
        forall|i: int, j: int|
            0 <= i < j < fresh_lines(trimmed_lines(input), existing).len() ==> fresh_lines(
                trimmed_lines(input),
                existing,
            )[i] != fresh_lines(trimmed_lines(input), existing)[j],
{
    let lines = trimmed_lines(input);
    let all = spec_clean_numbers_list(existing, input);
    assert(all.take(existing.len() as int) =~= existing);
    assert forall|i: int| 0 <= i < lines.len() implies all.contains(#[trigger] lines[i]) by {
        lemma_fresh_lines_members(lines, existing, lines[i]);
    }
    lemma_fresh_lines_are_new(lines, existing);
}

proof fn lemma_fresh_lines_are_new(lines: Seq<Seq<char>>, known: Seq<Seq<char>>)
    ensures
        forall|i: int|
            0 <= i < fresh_lines(lines, known).len() ==> !known.contains(
                #[trigger] fresh_lines(lines, known)[i],
            ) && lines.contains(fresh_lines(lines, known)[i]),
        forall|i: int, j: int|
            0 <= i < j < fresh_lines(lines, known).len() ==> fresh_lines(lines, known)[i]
                != fresh_lines(lines, known)[j],
    decreases lines.len(),
{
    if lines.len() > 0 {
        let rest = lines.drop_last();
        let last = lines.last();
        lemma_fresh_lines_are_new(rest, known);
        let fresh = fresh_lines(lines, known);
        let earlier = fresh_lines(rest, known);
        assert(lines[lines.len() - 1] == last);
        assert forall|i: int| 0 <= i < fresh.len() implies !known.contains(#[trigger] fresh[i])
            && lines.contains(fresh[i]) by {
            if i < earlier.len() {
                let k = choose|k: int| 0 <= k < rest.len() && rest[k] == earlier[i];
                assert(lines[k] == earlier[i]);
            }
        }
        assert forall|i: int, j: int| 0 <= i < j < fresh.len() implies fresh[i] != fresh[j] by {
            if j == earlier.len() {
                assert(rest.contains(earlier[i]));
            }
        }
    }
}

} // verus!
