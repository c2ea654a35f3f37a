//! The clock sources of the kernel and the counters of processor time.
use vstd::prelude::*;
use crate::text::{
    chars_of, contains, containsPattern, first_line_with, firstLineWith, parse_number,
    parseNumber, split, splitText, string_of, string_views, stringsOf, trim, trimText,
    unmarked_words, unmarkedWords, views,
};

verus! {

/// Contains currently active clock source and the available ones
#[derive(Debug, Clone)]
pub struct ClockSource {
    pub current: String,
    pub available: Vec<String>,
}

/// The clock sources of the kernel, from the content of the file that
/// names the current one and of the file that lists the available ones
/// with spaces between them.
pub fn clockSource(current: &str, available: &str) -> (sources: ClockSource)
    ensures
        sources.current@ == current@,
        string_views(sources.available@) == split(available@, " "@),
{
    let listed = chars_of(available);
    let space = chars_of(" ");
    proof {
        reveal_strlit(" ");
    }
    let names = splitText(&listed, &space);
    ClockSource { current: current.to_owned(), available: stringsOf(&names) }
}

/// The words of a line of the table of processor time that write its
/// counters: those that are not empty and do not name the processor.
pub open spec fn counter_words(line: Seq<char>) -> Seq<Seq<char>> {
    unmarked_words(split(line, " "@), "cpu"@)
}

/// Whether a line of the table of processor time is the line of a
/// processor.
pub open spec fn is_processor_line(line: Seq<char>) -> bool {
    contains(line, "cpu"@)
}

/// Whether each counter of a line is a number that fits the machine word.
pub open spec fn counters_ok(line: Seq<char>) -> bool {
    forall|i: int|
        0 <= i < counter_words(line).len() ==> parse_number(
            #[trigger] counter_words(line)[i],
            usize::MAX as nat,
        ) is Some
}

/// The counters of a line of a processor.
pub open spec fn counters_of(line: Seq<char>) -> Seq<usize> {
    Seq::new(
        counter_words(line).len(),
        |i: int| parse_number(counter_words(line)[i], usize::MAX as nat).unwrap() as usize,
    )
}

/// Whether each counter of each line of a processor among `lines` is a
/// number.
pub open spec fn stat_lines_ok(lines: Seq<Seq<char>>) -> bool {
    forall|i: int|
        0 <= i < lines.len() && is_processor_line(#[trigger] lines[i]) ==> counters_ok(lines[i])
}

/// Whether the table of processor time can be decoded.
pub open spec fn stats_ok(content: Seq<char>) -> bool {
    stat_lines_ok(split(content, "\n"@))
}

/// The counters of the lines of processors among `lines`, line by line.
pub open spec fn stats_of_lines(lines: Seq<Seq<char>>) -> Seq<Seq<usize>>
    decreases lines.len(),
{
    if lines.len() == 0 {
        Seq::empty()
    } else {
        let before = stats_of_lines(lines.drop_last());
        if is_processor_line(lines.last()) {
            before.push(counters_of(lines.last()))
        } else {
            before
        }
    }
}

/// The views of a table of counters.
pub open spec fn table_views(table: Seq<Vec<usize>>) -> Seq<Seq<usize>> {
    Seq::new(table.len(), |i: int| table[i]@)
}

/// Reads the counters of a line of a processor, if all of them are
/// numbers.
fn countersOf(line: &Vec<char>) -> (counters: Option<Vec<usize>>)
    ensures
        counters is Some <==> counters_ok(line@),
        counters matches Some(v) ==> v@ == counters_of(line@),
{
    let space = chars_of(" ");
    let name = chars_of("cpu");
    proof {
        reveal_strlit(" ");
    }
    let chunks = splitText(line, &space);
    let words = unmarkedWords(&chunks, &name);
    let ghost all = views(words@);
    let mut counters: Vec<usize> = Vec::new();
    let mut i: usize = 0;
    while i < words.len()
        invariant
            i <= words.len(),
            all == views(words@),
            all == counter_words(line@),
            counters@.len() == i,
            forall|k: int|
                0 <= k < i ==> parse_number(#[trigger] all[k], usize::MAX as nat) == Some(
                    counters@[k] as nat,
                ),
        decreases words.len() - i,
    {
        assert(all[i as int] == words@[i as int]@);
        match parseNumber(&words[i], usize::MAX as u64) {
            None => {
                return None;
            },
            Some(n) => {
                counters.push(n as usize);
            },
        }
        i += 1;
    }
    proof {
        assert(counters@ =~= counters_of(line@));
    }
    Some(counters)
}

/// Tells whether the table of processor time can be decoded.
pub fn statsOk(content: &str) -> (ok: bool)
    ensures
        ok == stats_ok(content@),
{
    let text = chars_of(content);
    let newline = chars_of("\n");
    let name = chars_of("cpu");
    proof {
        reveal_strlit("\n");
    }
    let lines = splitText(&text, &newline);
    let ghost all = views(lines@);
    let mut i: usize = 0;
    while i < lines.len()
        invariant
            i <= lines.len(),
            all == views(lines@),
            all == split(content@, "\n"@),
            name@ == "cpu"@,
            stat_lines_ok(all.take(i as int)),
        decreases lines.len() - i,
    {
        assert(all[i as int] == lines@[i as int]@);
        if containsPattern(&lines[i], &name) {
            if countersOf(&lines[i]).is_none() {
                assert(is_processor_line(all[i as int]) && !counters_ok(all[i as int]));
                return false;
            }
        }
        i += 1;
        assert forall|k: int| 0 <= k < i && is_processor_line(#[trigger] all.take(i as int)[k])
            implies counters_ok(all.take(i as int)[k]) by {
            if k < i - 1 {
                assert(all.take(i - 1)[k] == all[k]);
            }
        }
    }
    assert(all.take(i as int) =~= all);
    true
}

/// The counters of processor time, from the content of the table that the
/// kernel keeps of them: one list for each line of a processor.
pub fn getStats(content: &str) -> (stats: Vec<Vec<usize>>)
    requires
        stats_ok(content@),
    ensures
        table_views(stats@) == stats_of_lines(split(content@, "\n"@)),
{
    let text = chars_of(content);
    let newline = chars_of("\n");
    let name = chars_of("cpu");
    proof {
        reveal_strlit("\n");
    }
    let lines = splitText(&text, &newline);
    let ghost all = views(lines@);
    let mut stats: Vec<Vec<usize>> = Vec::new();
    let mut i: usize = 0;
    while i < lines.len()
        invariant
            i <= lines.len(),
            all == views(lines@),
            stat_lines_ok(all),
            name@ == "cpu"@,
            table_views(stats@) == stats_of_lines(all.take(i as int)),
        decreases lines.len() - i,
    {
        let ghost before = stats@;
        proof {
            assert(all[i as int] == lines@[i as int]@);
            assert(all.take(i + 1).drop_last() =~= all.take(i as int));
            assert(all.take(i + 1).last() == all[i as int]);
        }
        if containsPattern(&lines[i], &name) {
            let counters = countersOf(&lines[i]).unwrap();
            stats.push(counters);
            proof {
                assert(table_views(stats@) =~= table_views(before).push(counters@));
            }
        }
        i += 1;
    }
    proof {
        assert(all.take(i as int) =~= all);
    }
    stats
}

/// The name of the model of the processor that the processor table
/// holds: what stands behind the last colon of its first line `model
/// name`, without the white space around it. Empty where the table has no
/// such line.
pub open spec fn model_name(cpuinfo: Seq<char>) -> Seq<char> {
    trim(split(first_line_with(split(cpuinfo, "\n"@), "model name"@, 0), ":"@).last())
}

/// The name of the model of the processor, from the content of the
/// processor table of the kernel.
pub fn modelName(cpuinfo: &str) -> (name: String)
    ensures
        name@ == model_name(cpuinfo@),
{
    let text = chars_of(cpuinfo);
    let newline = chars_of("\n");
    let key = chars_of("model name");
    let colon = chars_of(":");
    proof {
        reveal_strlit("\n");
        reveal_strlit(":");
    }
    let lines = splitText(&text, &newline);
    let line = firstLineWith(&lines, &key);
    let pieces = splitText(&line, &colon);
    let last = pieces.len() - 1;
    assert(views(pieces@)[last as int] == pieces@[last as int]@);
    let name = trimText(&pieces[last]);
    string_of(&name)
}

/// The number of threads that the processor table lists: the number of
/// times that `processor` stands in it, counted from the left without
/// overlap.
pub open spec fn thread_count(cpuinfo: Seq<char>) -> nat {
    (split(cpuinfo, "processor"@).len() - 1) as nat
}

/// The number of threads, from the content of the processor table of the
/// kernel.
pub fn threadCount(cpuinfo: &str) -> (count: usize)
    ensures
        count == thread_count(cpuinfo@),
{
    let text = chars_of(cpuinfo);
    let key = chars_of("processor");
    proof {
        reveal_strlit("processor");
    }
    let pieces = splitText(&text, &key);
    assert(views(pieces@).len() == pieces@.len());
    pieces.len() - 1
}

/// `highest`, or the number that `text` writes where it writes a higher
/// one.
pub open spec fn raised_by(highest: usize, text: Seq<char>) -> usize {
    match parse_number(text, usize::MAX as nat) {
        Some(n) => if n > highest {
            n as usize
        } else {
            highest
        },
        None => highest,
    }
}

/// The higher of `highest` and the number that `text` writes, if it
/// writes one.
pub fn raised(highest: usize, text: &str) -> (higher: usize)
    ensures
        higher == raised_by(highest, text@),
{
    let chars = chars_of(text);
    match parseNumber(&chars, usize::MAX as u64) {
        Some(n) => if n as usize > highest {
            n as usize
        } else {
            highest
        },
        None => highest,
    }
}

/// Whether `word` is one of `known`.
pub open spec fn is_known(known: Seq<Seq<char>>, word: Seq<char>) -> bool {
    exists|i: int| 0 <= i < known.len() && #[trigger] known[i] == word
}

/// `known` with those of `words` behind it that it lacks, each once, in
/// their order.
pub open spec fn with_new(known: Seq<Seq<char>>, words: Seq<Seq<char>>) -> Seq<Seq<char>>
    decreases words.len(),
{
    if words.len() == 0 {
        known
    } else {
        let before = with_new(known, words.drop_last());
        if is_known(before, words.last()) {
            before
        } else {
            before.push(words.last())
        }
    }
}

/// Tells whether `word` is one of `known`.
fn isKnown(known: &Vec<String>, word: &String) -> (found: bool)
    ensures
        found == is_known(string_views(known@), word@),
{
    let mut i: usize = 0;
    while i < known.len()
        invariant
            i <= known.len(),
            forall|k: int| 0 <= k < i ==> string_views(known@)[k] != word@,
        decreases known.len() - i,
    {
        assert(string_views(known@)[i as int] == known@[i as int]@);
        if known[i] == *word {
            assert(string_views(known@)[i as int] == word@);
            return true;
        }
        i += 1;
    }
    false
}

/// Adds to `governors` those that `listed` names, with spaces between
/// them, and that `governors` lacks.
pub fn addGovernors(governors: &mut Vec<String>, listed: &str)
    ensures
        string_views(final(governors)@) == with_new(
            string_views(old(governors)@),
            split(listed@, " "@),
        ),
{
    let text = chars_of(listed);
    let space = chars_of(" ");
    proof {
        reveal_strlit(" ");
    }
    let words = splitText(&text, &space);
    let ghost all = views(words@);
    let mut i: usize = 0;
    while i < words.len()
        invariant
            i <= words.len(),
            all == views(words@),
            string_views(governors@) == with_new(string_views(old(governors)@), all.take(i as int)),
        decreases words.len() - i,
    {
        let ghost before = governors@;
        proof {
            assert(all[i as int] == words@[i as int]@);
            assert(all.take(i + 1).drop_last() =~= all.take(i as int));
            assert(all.take(i + 1).last() == all[i as int]);
        }
        let word = string_of(&words[i]);
        if !isKnown(governors, &word) {
            governors.push(word);
            proof {
                assert(string_views(governors@) =~= string_views(before).push(word@));
            }
        }
        i += 1;
    }
    proof {
        assert(all.take(i as int) =~= all);
    }
}

/// The sum of `counters`.
pub open spec fn sum_of(counters: Seq<usize>) -> nat
    decreases counters.len(),
{
    if counters.len() == 0 {
        0
    } else {
        sum_of(counters.drop_last()) + counters.last() as nat
    }
}

/// The time that a processor has spent between two readings of its
/// counters, in all and in each of its first seven kinds.
#[derive(Debug, Clone, Copy, PartialEq, Eq, Structural)]
pub struct TimeSpent {
    pub total: usize,
    pub user: usize,
    pub nice: usize,
    pub system: usize,
    pub idle: usize,
    pub iowait: usize,
    pub interrupt: usize,
    pub softInterrupt: usize,
}

/// Whether two readings of the counters of a processor can be compared:
/// each holds seven counters or more, the sum of each fits the machine
/// word, and neither the sum nor one of the first seven counters has gone
/// down from the first reading to the second.
pub open spec fn comparable(before: Seq<usize>, after: Seq<usize>) -> bool {
    &&& before.len() >= 7
    &&& after.len() >= 7
    &&& sum_of(before) <= sum_of(after) <= usize::MAX
    &&& forall|k: int| 0 <= k < 7 ==> before[k] <= after[k]
}

/// The time spent between the readings `before` and `after`.
pub open spec fn time_spent(before: Seq<usize>, after: Seq<usize>) -> TimeSpent {
    TimeSpent {
        total: (sum_of(after) - sum_of(before)) as usize,
        user: (after[0] - before[0]) as usize,
        nice: (after[1] - before[1]) as usize,
        system: (after[2] - before[2]) as usize,
        idle: (after[3] - before[3]) as usize,
        iowait: (after[4] - before[4]) as usize,
        interrupt: (after[5] - before[5]) as usize,
        softInterrupt: (after[6] - before[6]) as usize,
    }
}

/// The sum of some of the counters is at most the sum of all of them.
pub proof fn lemma_sum_grows(counters: Seq<usize>, fewer: int)
    requires
        0 <= fewer <= counters.len(),
    ensures
        sum_of(counters.take(fewer)) <= sum_of(counters),
    decreases counters.len(),
{
    if fewer == counters.len() {
        assert(counters.take(fewer) =~= counters);
    } else {
        lemma_sum_grows(counters.drop_last(), fewer);
        assert(counters.drop_last().take(fewer) =~= counters.take(fewer));
    }
}

/// Adds up `counters`, if their sum fits the machine word.
fn sumOf(counters: &Vec<usize>) -> (sum: Option<usize>)
    ensures
        match sum {
            Some(n) => n == sum_of(counters@),
            None => sum_of(counters@) > usize::MAX,
        },
{
    let mut sum: usize = 0;
    let mut i: usize = 0;
    while i < counters.len()
        invariant
            i <= counters.len(),
            sum == sum_of(counters@.take(i as int)),
        decreases counters.len() - i,
    {
        proof {
            assert(counters@.take(i + 1).drop_last() =~= counters@.take(i as int));
            assert(counters@.take(i + 1).last() == counters@[i as int]);
            lemma_sum_grows(counters@, i + 1);
        }
        if counters[i] > usize::MAX - sum {
            return None;
        }
        sum += counters[i];
        i += 1;
    }
    proof {
        assert(counters@.take(i as int) =~= counters@);
    }
    Some(sum)
}

/// The time that a processor has spent between the readings `before` and
/// `after` of its counters, if the two can be compared.
pub fn timeSpent(before: &Vec<usize>, after: &Vec<usize>) -> (spent: Option<TimeSpent>)
    ensures
        spent is Some <==> comparable(before@, after@),
        spent matches Some(t) ==> t == time_spent(before@, after@),
{
    if before.len() < 7 || after.len() < 7 {
        return None;
    }
    let (first, second) = match (sumOf(before), sumOf(after)) {
        (Some(first), Some(second)) => (first, second),
        (None, _) => {
            return None;
        },
        (_, None) => {
            return None;
        },
    };
    if first > second {
        return None;
    }
    let mut k: usize = 0;
    while k < 7
        invariant
            k <= 7,
            before@.len() >= 7,
            after@.len() >= 7,
            forall|j: int| 0 <= j < k ==> before@[j] <= after@[j],
        decreases 7 - k,
    {
        if before[k] > after[k] {
            return None;
        }
        k += 1;
    }
    Some(
        TimeSpent {
            total: second - first,
            user: after[0] - before[0],
            nice: after[1] - before[1],
            system: after[2] - before[2],
            idle: after[3] - before[3],
            iowait: after[4] - before[4],
            interrupt: after[5] - before[5],
            softInterrupt: after[6] - before[6],
        },
    )
}

/// What a line of the processor table holds behind its last colon,
/// without the white space around it.
pub open spec fn line_value(line: Seq<char>) -> Seq<char> {
    trim(split(trim(line), ":"@).last())
}

/// What the processor table tells of the frequency of a processor: its
/// number, and what each of its lines `cpu MHz` holds, in their order.
#[derive(Debug, Clone)]
pub struct FrequencyReading {
    pub processorID: String,
    pub mhz: Vec<String>,
}

/// What a `FrequencyReading` holds, as sequences of characters.
pub struct FrequencyReadingView {
    pub processorID: Seq<char>,
    pub mhz: Seq<Seq<char>>,
}

impl View for FrequencyReading {
    type V = FrequencyReadingView;

    open spec fn view(&self) -> FrequencyReadingView {
        FrequencyReadingView { processorID: self.processorID@, mhz: string_views(self.mhz@) }
    }
}

/// The views of a list of readings.
pub open spec fn reading_views(readings: Seq<FrequencyReading>) -> Seq<FrequencyReadingView> {
    Seq::new(readings.len(), |i: int| readings[i]@)
}

/// What `lines` tell of the frequency of a processor: a line `processor`
/// holds its number, a later one replacing an earlier one, and each other
/// line `cpu MHz` holds a frequency.
pub open spec fn reading_of_lines(lines: Seq<Seq<char>>) -> FrequencyReadingView
    decreases lines.len(),
{
    if lines.len() == 0 {
        FrequencyReadingView { processorID: Seq::empty(), mhz: Seq::empty() }
    } else {
        let before = reading_of_lines(lines.drop_last());
        let line = lines.last();
        if contains(line, "processor"@) {
            FrequencyReadingView { processorID: line_value(line), ..before }
        } else if contains(line, "cpu MHz"@) {
            FrequencyReadingView { mhz: before.mhz.push(line_value(line)), ..before }
        } else {
            before
        }
    }
}

/// What each of `chunks` that is not empty tells of the frequency of a
/// processor.
pub open spec fn readings_of_chunks(chunks: Seq<Seq<char>>) -> Seq<FrequencyReadingView>
    decreases chunks.len(),
{
    if chunks.len() == 0 {
        Seq::empty()
    } else {
        let before = readings_of_chunks(chunks.drop_last());
        if chunks.last().len() > 0 {
            before.push(reading_of_lines(split(chunks.last(), "\n"@)))
        } else {
            before
        }
    }
}

/// Reads what a line of the processor table holds behind its last colon.
fn lineValue(line: &Vec<char>) -> (value: String)
    ensures
        value@ == line_value(line@),
{
    let colon = chars_of(":");
    proof {
        reveal_strlit(":");
    }
    let inner = trimText(line);
    let pieces = splitText(&inner, &colon);
    let last = pieces.len() - 1;
    assert(views(pieces@)[last as int] == pieces@[last as int]@);
    let value = trimText(&pieces[last]);
    string_of(&value)
}

/// Reads what a part of the processor table tells of the frequency of a
/// processor.
fn readingOf(chunk: &Vec<char>) -> (reading: FrequencyReading)
    ensures
        reading@ == reading_of_lines(split(chunk@, "\n"@)),
{
    let newline = chars_of("\n");
    let number = chars_of("processor");
    let frequency = chars_of("cpu MHz");
    proof {
        reveal_strlit("\n");
    }
    let lines = splitText(chunk, &newline);
    let ghost all = views(lines@);
    let mut reading = FrequencyReading { processorID: String::new(), mhz: Vec::new() };
    let mut i: usize = 0;
    proof {
        assert(string_views(reading.mhz@) =~= Seq::<Seq<char>>::empty());
    }
    while i < lines.len()
        invariant
            i <= lines.len(),
            all == views(lines@),
            number@ == "processor"@,
            frequency@ == "cpu MHz"@,
            reading@ == reading_of_lines(all.take(i as int)),
        decreases lines.len() - i,
    {
        let ghost before = reading.mhz@;
        proof {
            assert(all[i as int] == lines@[i as int]@);
            assert(all.take(i + 1).drop_last() =~= all.take(i as int));
            assert(all.take(i + 1).last() == all[i as int]);
        }
        if containsPattern(&lines[i], &number) {
            reading.processorID = lineValue(&lines[i]);
        } else if containsPattern(&lines[i], &frequency) {
            let value = lineValue(&lines[i]);
            reading.mhz.push(value);
            proof {
                assert(string_views(reading.mhz@) =~= string_views(before).push(value@));
            }
        }
        i += 1;
    }
    proof {
        assert(all.take(i as int) =~= all);
    }
    reading
}

/// What the processor table of the kernel tells of the frequency of each
/// processor: its parts are parted by empty lines, and each part that is
/// not empty describes one processor.
pub fn frequencyReadings(cpuinfo: &str) -> (readings: Vec<FrequencyReading>)
    ensures
        reading_views(readings@) == readings_of_chunks(split(cpuinfo@, "\n\n"@)),
{
    let text = chars_of(cpuinfo);
    let gap = chars_of("\n\n");
    proof {
        reveal_strlit("\n\n");
    }
    let chunks = splitText(&text, &gap);
    let ghost all = views(chunks@);
    let mut readings: Vec<FrequencyReading> = Vec::new();
    let mut i: usize = 0;
    while i < chunks.len()
        invariant
            i <= chunks.len(),
            all == views(chunks@),
            reading_views(readings@) == readings_of_chunks(all.take(i as int)),
        decreases chunks.len() - i,
    {
        let ghost before = readings@;
        proof {
            assert(all[i as int] == chunks@[i as int]@);
            assert(all.take(i + 1).drop_last() =~= all.take(i as int));
            assert(all.take(i + 1).last() == all[i as int]);
        }
        if chunks[i].len() > 0 {
            let reading = readingOf(&chunks[i]);
            readings.push(reading);
            proof {
                assert(reading_views(readings@) =~= reading_views(before).push(reading@));
            }
        }
        i += 1;
    }
    proof {
        assert(all.take(i as int) =~= all);
    }
    readings
}

} // verus!
