//! The properties of the nodes and memory banks of the compute topology.
use vstd::prelude::*;
use crate::text::{
    chars_of, contains, containsPattern, first_line_with, firstLineWith, parse_number,
    parseNumber, split, splitText, views,
};

verus! {

/// The number that the last word of `line` writes, if it writes one that
/// fits the machine word.
pub open spec fn last_number(line: Seq<char>) -> Option<nat> {
    parse_number(split(line, " "@).last(), usize::MAX as nat)
}

/// Whether a node has units that its properties count under `key`: the
/// first of `lines`, from `from` on, that holds `key` with a number other
/// than 0 tells so. `None` where a line that holds `key` before that one
/// ends in no number.
pub open spec fn counts_units(lines: Seq<Seq<char>>, key: Seq<char>, from: int) -> Option<bool>
    decreases lines.len() - from,
{
    if from < 0 || from >= lines.len() {
        Some(false)
    } else if contains(lines[from], key) {
        match last_number(lines[from]) {
            None => None,
            Some(n) => if n != 0 {
                Some(true)
            } else {
                counts_units(lines, key, from + 1)
            },
        }
    } else {
        counts_units(lines, key, from + 1)
    }
}

/// Whether the properties of a node count units under `key`.
pub open spec fn has_units(properties: Seq<char>, key: Seq<char>) -> Option<bool> {
    counts_units(split(properties, "\n"@), key, 0)
}

/// The number that the properties of a memory bank hold under `key`: the
/// last word of the first line that holds `key`. `None` where that word
/// writes no number, or no line holds `key`.
pub open spec fn bank_value(properties: Seq<char>, key: Seq<char>) -> Option<nat> {
    last_number(first_line_with(split(properties, "\n"@), key, 0))
}

/// Reads the number that the last word of `line` writes.
fn lastNumber(line: &Vec<char>) -> (value: Option<usize>)
    ensures
        match value {
            Some(n) => last_number(line@) == Some(n as nat),
            None => last_number(line@) is None,
        },
{
    let space = chars_of(" ");
    proof {
        reveal_strlit(" ");
    }
    let words = splitText(line, &space);
    let last = words.len() - 1;
    assert(views(words@)[last as int] == words@[last as int]@);
    match parseNumber(&words[last], usize::MAX as u64) {
        Some(n) => Some(n as usize),
        None => None,
    }
}

/// Tells whether the properties of a node count units under `key`, if
/// they can be read.
pub fn countsUnits(properties: &str, key: &str) -> (units: Option<bool>)
    ensures
        units == has_units(properties@, key@),
{
    let text = chars_of(properties);
    let name = chars_of(key);
    let newline = chars_of("\n");
    proof {
        reveal_strlit("\n");
    }
    let lines = splitText(&text, &newline);
    let ghost all = views(lines@);
    let mut i: usize = 0;
    while i < lines.len()
        invariant
            i <= lines.len(),
            all == views(lines@),
            all == split(properties@, "\n"@),
            name@ == key@,
            counts_units(all, key@, 0) == counts_units(all, key@, i as int),
        decreases lines.len() - i,
    {
        assert(all[i as int] == lines@[i as int]@);
        if containsPattern(&lines[i], &name) {
            match lastNumber(&lines[i]) {
                None => {
                    return None;
                },
                Some(n) => {
                    if n != 0 {
                        return Some(true);
                    }
                },
            }
        }
        i += 1;
    }
    Some(false)
}

/// Reads the number that the properties of a memory bank hold under
/// `key`, if they hold one.
pub fn bankValue(properties: &str, key: &str) -> (value: Option<usize>)
    ensures
        match value {
            Some(n) => bank_value(properties@, key@) == Some(n as nat),
            None => bank_value(properties@, key@) is None,
        },
{
    let text = chars_of(properties);
    let name = chars_of(key);
    let newline = chars_of("\n");
    proof {
        reveal_strlit("\n");
    }
    let lines = splitText(&text, &newline);
    let line = firstLineWith(&lines, &name);
    lastNumber(&line)
}

} // verus!
