//! The size of the main memory.
use vstd::prelude::*;
use crate::text::{
    chars_of, contains, containsPattern, last_line_with, parse_number, parseNumber, sameText,
    split, splitText, views,
};
use crate::utils::ByteSize;

verus! {

/// The first of `words`, from `from` on, that is neither empty nor
/// `label`, if there is one.
pub open spec fn first_value(words: Seq<Seq<char>>, label: Seq<char>, from: int) -> Option<
    Seq<char>,
>
    decreases words.len() - from,
{
    if from < 0 || from >= words.len() {
        None
    } else if words[from].len() > 0 && words[from] != label {
        Some(words[from])
    } else {
        first_value(words, label, from + 1)
    }
}

/// The number that a line of the memory table holds behind `label`: 0
/// where it holds nothing but the label, `None` where what it holds first
/// is not a number that fits the machine word.
pub open spec fn labelled_value(line: Seq<char>, label: Seq<char>) -> Option<nat> {
    match first_value(split(line, " "@), label, 0) {
        None => Some(0nat),
        Some(word) => parse_number(word, usize::MAX as nat),
    }
}

/// The number that the line `MemTotal` of the memory table holds: 0 where
/// the table has no such line or the line holds nothing behind its label,
/// `None` where what it holds is not a number that fits the machine word.
pub open spec fn mem_total(content: Seq<char>) -> Option<nat> {
    labelled_value(last_line_with(split(content, "\n"@), "MemTotal"@), "MemTotal:"@)
}

/// The last of `lines` in which `MemAvailable` stands and `MemTotal` does
/// not, or an empty line where there is none.
pub open spec fn last_available_line(lines: Seq<Seq<char>>) -> Seq<char>
    decreases lines.len(),
{
    if lines.len() == 0 {
        Seq::empty()
    } else if !contains(lines.last(), "MemTotal"@) && contains(lines.last(), "MemAvailable"@) {
        lines.last()
    } else {
        last_available_line(lines.drop_last())
    }
}

/// The number that the line `MemAvailable` of the memory table holds, as
/// `mem_total` gives that of the line `MemTotal`.
pub open spec fn mem_available(content: Seq<char>) -> Option<nat> {
    labelled_value(last_available_line(split(content, "\n"@)), "MemAvailable:"@)
}

/// Whether the size of the memory can be read from the memory table.
pub open spec fn ram_size_ok(content: Seq<char>) -> bool {
    mem_total(content) matches Some(total) && total * 1000 <= usize::MAX
}

/// Reads the number that a line of the memory table holds behind
/// `label`.
fn labelledValue(line: &Vec<char>, label: &Vec<char>) -> (value: Option<usize>)
    ensures
        match value {
            Some(n) => labelled_value(line@, label@) == Some(n as nat),
            None => labelled_value(line@, label@) is None,
        },
{
    let space = chars_of(" ");
    proof {
        reveal_strlit(" ");
    }
    let words = splitText(line, &space);
    let ghost listed = views(words@);
    let mut k: usize = 0;
    while k < words.len()
        invariant
            k <= words.len(),
            listed == views(words@),
            listed == split(line@, " "@),
            first_value(listed, label@, 0) == first_value(listed, label@, k as int),
        decreases words.len() - k,
    {
        assert(listed[k as int] == words@[k as int]@);
        if words[k].len() > 0 && !sameText(&words[k], label) {
            return match parseNumber(&words[k], usize::MAX as u64) {
                Some(n) => Some(n as usize),
                None => None,
            };
        }
        k += 1;
    }
    Some(0)
}

/// Reads the numbers that the lines `MemTotal` and `MemAvailable` of the
/// memory table hold.
fn readCounters(content: &str) -> (counters: (Option<usize>, Option<usize>))
    ensures
        match counters.0 {
            Some(n) => mem_total(content@) == Some(n as nat),
            None => mem_total(content@) is None,
        },
        match counters.1 {
            Some(n) => mem_available(content@) == Some(n as nat),
            None => mem_available(content@) is None,
        },
{
    let text = chars_of(content);
    let newline = chars_of("\n");
    let total = chars_of("MemTotal");
    let available = chars_of("MemAvailable");
    proof {
        reveal_strlit("\n");
    }
    let lines = splitText(&text, &newline);
    let ghost all = views(lines@);
    let mut totalLine: Vec<char> = Vec::new();
    let mut availableLine: Vec<char> = Vec::new();
    let mut i: usize = 0;
    while i < lines.len()
        invariant
            i <= lines.len(),
            all == views(lines@),
            total@ == "MemTotal"@,
            available@ == "MemAvailable"@,
            totalLine@ == last_line_with(all.take(i as int), "MemTotal"@),
            availableLine@ == last_available_line(all.take(i as int)),
        decreases lines.len() - i,
    {
        proof {
            assert(all[i as int] == lines@[i as int]@);
            assert(all.take(i + 1).drop_last() =~= all.take(i as int));
            assert(all.take(i + 1).last() == all[i as int]);
        }
        if containsPattern(&lines[i], &total) {
            totalLine = lines[i].clone();
        } else if containsPattern(&lines[i], &available) {
            availableLine = lines[i].clone();
        }
        i += 1;
    }
    proof {
        assert(all.take(i as int) =~= all);
    }
    let totalLabel = chars_of("MemTotal:");
    let availableLabel = chars_of("MemAvailable:");
    (labelledValue(&totalLine, &totalLabel), labelledValue(&availableLine, &availableLabel))
}

/// The total and the available memory, in thousands of bytes, from the
/// content of the memory table of the kernel; `None` where one of the two
/// cannot be read.
pub fn memoryCounters(content: &str) -> (counters: Option<(usize, usize)>)
    ensures
        counters is Some <==> mem_total(content@) is Some && mem_available(content@) is Some,
        counters matches Some((total, available)) ==> mem_total(content@) == Some(total as nat)
            && mem_available(content@) == Some(available as nat),
{
    match readCounters(content) {
        (Some(total), Some(available)) => Some((total, available)),
        _ => None,
    }
}

/// Reads the number that the line `MemTotal` of the memory table holds.
fn memTotal(content: &str) -> (total: Option<usize>)
    ensures
        match total {
            Some(n) => mem_total(content@) == Some(n as nat),
            None => mem_total(content@) is None,
        },
{
    readCounters(content).0
}

/// Tells whether the size of the memory can be read from the memory
/// table.
pub fn ramSizeOk(content: &str) -> (ok: bool)
    ensures
        ok == ram_size_ok(content@),
{
    match memTotal(content) {
        Some(total) => total <= usize::MAX / 1000,
        None => false,
    }
}

/// The size of the main memory, from the content of the memory table of
/// the kernel, which holds it in thousands of bytes.
pub fn ramSize(content: &str) -> (size: ByteSize)
    requires
        ram_size_ok(content@),
    ensures
        mem_total(content@) matches Some(total) && size.bytes() == total * 1000,
{
    let total = memTotal(content).unwrap();
    ByteSize::fromBytes(total * 1000)
}

} // verus!
