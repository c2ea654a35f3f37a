//! Text as sequences of characters: searching, splitting, trimming and
//! joining, with the numbers that kernel files write in decimal and in
//! hexadecimal.
use vstd::prelude::*;

verus! {

/// `String::push`: the character is appended to the end of the string.
pub assume_specification[ String::push ](s: &mut String, c: char)
    ensures
        final(s)@ == old(s)@.push(c),
;

/// The characters of `s`, in order.
pub fn chars_of(s: &str) -> (v: Vec<char>)
    ensures
        v@ == s@,
{
    let mut v: Vec<char> = Vec::new();
    for c in it: s.chars()
        invariant
            v@ == it.seq().take(it.index()),
    {
        v.push(c);
    }
    v
}

/// The string made of the characters of `v`, in order.
pub fn string_of(v: &Vec<char>) -> (s: String)
    ensures
        s@ == v@,
{
    let mut s = String::new();
    let mut i: usize = 0;
    while i < v.len()
        invariant
            i <= v.len(),
            s@ == v@.take(i as int),
        decreases v.len() - i,
    {
        s.push(v[i]);
        i += 1;
    }
    s
}

/// The views of a list of character vectors.
pub open spec fn views(parts: Seq<Vec<char>>) -> Seq<Seq<char>> {
    Seq::new(parts.len(), |i: int| parts[i]@)
}

/// Whether `pattern` stands in `text` at position `at`.
pub open spec fn occurs_at(text: Seq<char>, pattern: Seq<char>, at: int) -> bool {
    &&& 0 <= at
    &&& at + pattern.len() <= text.len()
    &&& text.subrange(at, at + pattern.len()) == pattern
}

/// Whether `pattern` stands somewhere in `text`.
pub open spec fn contains(text: Seq<char>, pattern: Seq<char>) -> bool {
    exists|at: int| occurs_at(text, pattern, at)
}

/// The first position at or after `from` where `pattern` stands in `text`,
/// or -1 where there is none.
pub open spec fn first_occurrence(text: Seq<char>, pattern: Seq<char>, from: int) -> int
    decreases text.len() + 1 - from,
{
    if from < 0 || from + pattern.len() > text.len() {
        -1
    } else if occurs_at(text, pattern, from) {
        from
    } else {
        first_occurrence(text, pattern, from + 1)
    }
}

/// `first_occurrence` finds an occurrence with none between `from` and it,
/// or there is none at or after `from`.
pub proof fn lemma_first_occurrence(text: Seq<char>, pattern: Seq<char>, from: int)
    requires
        0 <= from,
    ensures
        ({
            let at = first_occurrence(text, pattern, from);
            &&& at == -1 || from <= at
            &&& at >= 0 ==> occurs_at(text, pattern, at)
            &&& forall|j: int|
                from <= j && (j < at || at == -1) ==> !occurs_at(text, pattern, j)
        }),
    decreases text.len() + 1 - from,
{
    if from + pattern.len() > text.len() {
    } else if occurs_at(text, pattern, from) {
    } else {
        lemma_first_occurrence(text, pattern, from + 1);
    }
}

/// A text contains a pattern exactly when the pattern has a first occurrence.
pub proof fn lemma_contains_first(text: Seq<char>, pattern: Seq<char>)
    ensures
        contains(text, pattern) <==> first_occurrence(text, pattern, 0) >= 0,
{
    lemma_first_occurrence(text, pattern, 0);
}

/// The pieces of `text` between the successive occurrences of `pattern`,
/// taken from the left; a text without the pattern is one piece.
pub open spec fn split(text: Seq<char>, pattern: Seq<char>) -> Seq<Seq<char>>
    recommends
        pattern.len() > 0,
    decreases text.len(),
{
    let at = first_occurrence(text, pattern, 0);
    if pattern.len() == 0 || at < 0 || at + pattern.len() > text.len() {
        seq![text]
    } else {
        seq![text.take(at)] + split(text.skip(at + pattern.len()), pattern)
    }
}

/// Whether `pattern` stands in `text` at position `at`.
pub fn occursAt(text: &Vec<char>, pattern: &Vec<char>, at: usize) -> (found: bool)
    ensures
        found == occurs_at(text@, pattern@, at as int),
{
    if pattern.len() > text.len() || at > text.len() - pattern.len() {
        return false;
    }
    let mut k: usize = 0;
    while k < pattern.len()
        invariant
            k <= pattern.len(),
            at + pattern.len() <= text.len(),
            forall|j: int| 0 <= j < k ==> text@[at + j] == pattern@[j],
        decreases pattern.len() - k,
    {
        if text[at + k] != pattern[k] {
            proof {
                let piece = text@.subrange(at as int, at + pattern.len());
                assert(piece[k as int] == text@[at + k]);
            }
            return false;
        }
        k += 1;
    }
    proof {
        assert(text@.subrange(at as int, at + pattern.len()) =~= pattern@);
    }
    true
}

/// The first position at or after `from` where `pattern` stands in `text`.
pub fn firstOccurrence(text: &Vec<char>, pattern: &Vec<char>, from: usize) -> (at: Option<usize>)
    ensures
        match at {
            Some(at) => at == first_occurrence(text@, pattern@, from as int),
            None => first_occurrence(text@, pattern@, from as int) == -1,
        },
{
    if pattern.len() > text.len() || from > text.len() - pattern.len() {
        return None;
    }
    let last: usize = text.len() - pattern.len();
    let mut i: usize = from;
    while i < last
        invariant
            from <= i <= last,
            last + pattern.len() == text.len(),
            first_occurrence(text@, pattern@, from as int) == first_occurrence(
                text@,
                pattern@,
                i as int,
            ),
        decreases last - i,
    {
        if occursAt(text, pattern, i) {
            return Some(i);
        }
        i += 1;
    }
    if occursAt(text, pattern, i) {
        Some(i)
    } else {
        assert(first_occurrence(text@, pattern@, i + 1) == -1);
        None
    }
}

/// Whether `pattern` stands somewhere in `text`.
pub fn containsPattern(text: &Vec<char>, pattern: &Vec<char>) -> (found: bool)
    ensures
        found == contains(text@, pattern@),
{
    proof {
        lemma_contains_first(text@, pattern@);
    }
    firstOccurrence(text, pattern, 0).is_some()
}

/// An occurrence in a text without its first `start` characters is an
/// occurrence `start` places further in the whole text.
pub proof fn lemma_occurs_at_skip(text: Seq<char>, pattern: Seq<char>, start: int, at: int)
    requires
        0 <= start <= text.len(),
        0 <= at,
    ensures
        occurs_at(text.skip(start), pattern, at) == occurs_at(text, pattern, start + at),
{
    if at + pattern.len() <= text.len() - start {
        assert(text.skip(start).subrange(at, at + pattern.len()) =~= text.subrange(
            start + at,
            start + at + pattern.len(),
        ));
    }
}

/// Searching a text without its first `start` characters finds what
/// searching the whole text from `start` finds.
pub proof fn lemma_first_occurrence_skip(
    text: Seq<char>,
    pattern: Seq<char>,
    start: int,
    from: int,
)
    requires
        0 <= start <= text.len(),
        0 <= from,
    ensures
        ({
            let whole = first_occurrence(text, pattern, start + from);
            let rest = first_occurrence(text.skip(start), pattern, from);
            if whole < 0 {
                rest == -1
            } else {
                rest == whole - start
            }
        }),
    decreases text.len() + 1 - start - from,
{
    lemma_occurs_at_skip(text, pattern, start, from);
    if from + pattern.len() > text.len() - start {
    } else if occurs_at(text, pattern, start + from) {
    } else {
        lemma_first_occurrence_skip(text, pattern, start, from + 1);
    }
}

/// A copy of the characters of `text` from `from` up to `to`.
pub fn copyRange(text: &Vec<char>, from: usize, to: usize) -> (piece: Vec<char>)
    requires
        from <= to <= text.len(),
    ensures
        piece@ == text@.subrange(from as int, to as int),
{
    let mut piece: Vec<char> = Vec::new();
    let mut i: usize = from;
    while i < to
        invariant
            from <= i <= to <= text.len(),
            piece@ == text@.subrange(from as int, i as int),
        decreases to - i,
    {
        piece.push(text[i]);
        i += 1;
        assert(piece@ =~= text@.subrange(from as int, i as int));
    }
    piece
}

/// Splits `text` at each occurrence of `pattern`, from the left.
pub fn splitText(text: &Vec<char>, pattern: &Vec<char>) -> (parts: Vec<Vec<char>>)
    requires
        pattern@.len() > 0,
    ensures
        views(parts@) == split(text@, pattern@),
        parts@.len() >= 1,
{
    let mut parts: Vec<Vec<char>> = Vec::new();
    let mut start: usize = 0;
    proof {
        assert(text@.skip(0) =~= text@);
        assert(views(parts@) + split(text@, pattern@) =~= split(text@, pattern@));
    }
    loop
        invariant
            start <= text.len(),
            pattern@.len() > 0,
            split(text@, pattern@) == views(parts@) + split(text@.skip(start as int), pattern@),
        decreases text.len() - start,
    {
        let ghost rest = text@.skip(start as int);
        let ghost before = parts@;
        proof {
            lemma_first_occurrence_skip(text@, pattern@, start as int, 0);
            lemma_first_occurrence(text@, pattern@, start as int);
        }
        match firstOccurrence(text, pattern, start) {
            None => {
                let piece = copyRange(text, start, text.len());
                parts.push(piece);
                proof {
                    assert(rest =~= text@.subrange(start as int, text@.len() as int));
                    assert(views(parts@) =~= views(before) + seq![rest]);
                }
                return parts;
            },
            Some(at) => {
                let piece = copyRange(text, start, at);
                parts.push(piece);
                proof {
                    let next = at + pattern@.len();
                    assert(rest.take(at - start) =~= text@.subrange(start as int, at as int));
                    assert(rest.skip(next - start) =~= text@.skip(next));
                    assert(views(parts@) =~= views(before) + seq![rest.take(at - start)]);
                    assert(split(rest, pattern@) == seq![rest.take(at - start)] + split(
                        rest.skip(next - start),
                        pattern@,
                    ));
                    assert(views(before) + (seq![rest.take(at - start)] + split(
                        text@.skip(next),
                        pattern@,
                    )) =~= views(parts@) + split(text@.skip(next), pattern@));
                }
                start = at + pattern.len();
            },
        }
    }
}

/// The parts written one after another with `separator` between them.
pub open spec fn join(parts: Seq<Seq<char>>, separator: Seq<char>) -> Seq<char>
    decreases parts.len(),
{
    if parts.len() == 0 {
        Seq::empty()
    } else if parts.len() == 1 {
        parts[0]
    } else {
        join(parts.drop_last(), separator) + separator + parts.last()
    }
}

/// Appends the characters of `piece` to `out`.
pub fn appendChars(out: &mut Vec<char>, piece: &Vec<char>)
    ensures
        final(out)@ == old(out)@ + piece@,
{
    let mut i: usize = 0;
    while i < piece.len()
        invariant
            i <= piece.len(),
            out@ == old(out)@ + piece@.take(i as int),
        decreases piece.len() - i,
    {
        out.push(piece[i]);
        i += 1;
        assert(out@ =~= old(out)@ + piece@.take(i as int));
    }
    assert(piece@.take(piece@.len() as int) =~= piece@);
}

/// Writes the parts one after another with `separator` between them.
pub fn joinText(parts: &Vec<Vec<char>>, separator: &Vec<char>) -> (out: Vec<char>)
    ensures
        out@ == join(views(parts@), separator@),
{
    let mut out: Vec<char> = Vec::new();
    let mut i: usize = 0;
    while i < parts.len()
        invariant
            i <= parts.len(),
            out@ == join(views(parts@).take(i as int), separator@),
        decreases parts.len() - i,
    {
        let ghost before = views(parts@).take(i as int);
        let ghost after = views(parts@).take(i + 1);
        proof {
            assert(after.drop_last() =~= before);
            assert(after.last() == parts@[i as int]@);
        }
        if i > 0 {
            appendChars(&mut out, separator);
        }
        appendChars(&mut out, &parts[i]);
        proof {
            if i == 0 {
                assert(out@ =~= parts@[0]@);
            }
        }
        i += 1;
    }
    proof {
        assert(views(parts@).take(parts@.len() as int) =~= views(parts@));
    }
    out
}

/// `text` with `with` in place of each occurrence of `pattern`.
pub open spec fn replace(text: Seq<char>, pattern: Seq<char>, with: Seq<char>) -> Seq<char>
    recommends
        pattern.len() > 0,
{
    join(split(text, pattern), with)
}

/// Puts `with` in place of each occurrence of `pattern` in `text`.
pub fn replaceText(text: &Vec<char>, pattern: &Vec<char>, with: &Vec<char>) -> (out: Vec<char>)
    requires
        pattern@.len() > 0,
    ensures
        out@ == replace(text@, pattern@, with@),
{
    let parts = splitText(text, pattern);
    joinText(&parts, with)
}

/// Whether `c` is white space: a character with the Unicode property
/// White_Space.
pub open spec fn is_whitespace(c: char) -> bool {
    let code = c as u32;
    ||| 0x09 <= code <= 0x0D
    ||| code == 0x20
    ||| code == 0x85
    ||| code == 0xA0
    ||| code == 0x1680
    ||| 0x2000 <= code <= 0x200A
    ||| code == 0x2028
    ||| code == 0x2029
    ||| code == 0x202F
    ||| code == 0x205F
    ||| code == 0x3000
}

/// Whether `c` is white space.
pub fn isWhitespace(c: char) -> (white: bool)
    ensures
        white == is_whitespace(c),
{
    let code: u32 = c as u32;
    (0x09 <= code && code <= 0x0D) || code == 0x20 || code == 0x85 || code == 0xA0 || code
        == 0x1680 || (0x2000 <= code && code <= 0x200A) || code == 0x2028 || code == 0x2029
        || code == 0x202F || code == 0x205F || code == 0x3000
}

/// `text` without the white space at its start.
pub open spec fn trim_start(text: Seq<char>) -> Seq<char>
    decreases text.len(),
{
    if text.len() > 0 && is_whitespace(text[0]) {
        trim_start(text.drop_first())
    } else {
        text
    }
}

/// `text` without the white space at its end.
pub open spec fn trim_end(text: Seq<char>) -> Seq<char>
    decreases text.len(),
{
    if text.len() > 0 && is_whitespace(text.last()) {
        trim_end(text.drop_last())
    } else {
        text
    }
}

/// `text` without the white space at its start and at its end.
pub open spec fn trim(text: Seq<char>) -> Seq<char> {
    trim_end(trim_start(text))
}

/// Removes the white space at the start and at the end of `text`.
pub fn trimText(text: &Vec<char>) -> (out: Vec<char>)
    ensures
        out@ == trim(text@),
{
    let mut from: usize = 0;
    proof {
        assert(text@.skip(0) =~= text@);
    }
    while from < text.len() && isWhitespace(text[from])
        invariant
            from <= text.len(),
            trim_start(text@) == trim_start(text@.skip(from as int)),
        decreases text.len() - from,
    {
        proof {
            assert(text@.skip(from as int).drop_first() =~= text@.skip(from + 1));
        }
        from += 1;
    }
    let mut to: usize = text.len();
    proof {
        assert(text@.skip(from as int) =~= text@.subrange(from as int, to as int));
    }
    while to > from && isWhitespace(text[to - 1])
        invariant
            from <= to <= text.len(),
            trim_start(text@) == text@.skip(from as int),
            trim(text@) == trim_end(text@.subrange(from as int, to as int)),
        decreases to - from,
    {
        proof {
            assert(text@.subrange(from as int, to as int).drop_last() =~= text@.subrange(
                from as int,
                to - 1,
            ));
        }
        to -= 1;
    }
    copyRange(text, from, to)
}

/// The character that writes the digit `d`.
pub open spec fn digit_char(d: nat) -> char
    recommends
        d < 10,
{
    (48 + d) as u8 as char
}

/// The decimal notation of `n`, without leading zeros.
pub open spec fn decimal(n: nat) -> Seq<char>
    decreases n,
{
    if n < 10 {
        seq![digit_char(n)]
    } else {
        decimal(n / 10).push(digit_char(n % 10))
    }
}

/// Writes `n` in decimal notation.
pub fn decimalText(n: u64) -> (out: Vec<char>)
    ensures
        out@ == decimal(n as nat),
    decreases n,
{
    if n < 10 {
        let mut out: Vec<char> = Vec::new();
        out.push((48u8 + n as u8) as char);
        assert(out@ =~= seq![digit_char(n as nat)]);
        out
    } else {
        let mut out = decimalText(n / 10);
        out.push((48u8 + (n % 10) as u8) as char);
        out
    }
}

/// Whether `c` is one of the ten decimal digits.
pub open spec fn is_digit(c: char) -> bool {
    0x30 <= c as u32 <= 0x39
}

/// The number that the digit `c` writes; 0 for any other character.
pub open spec fn digit_of(c: char) -> nat {
    if is_digit(c) {
        (c as u32 - 0x30) as nat
    } else {
        0
    }
}

/// Whether `text` holds decimal digits only.
pub open spec fn all_digits(text: Seq<char>) -> bool {
    forall|i: int| 0 <= i < text.len() ==> is_digit(#[trigger] text[i])
}

/// The number that the digits of `text` write in decimal notation.
pub open spec fn digits_value(text: Seq<char>) -> nat
    decreases text.len(),
{
    if text.len() == 0 {
        0
    } else {
        digits_value(text.drop_last()) * 10 + digit_of(text.last())
    }
}

/// The digits of a number in text: `text` without a plus sign in front.
pub open spec fn unsigned_digits(text: Seq<char>) -> Seq<char> {
    if text.len() > 0 && text[0] == '+' {
        text.drop_first()
    } else {
        text
    }
}

/// The number that `text` writes, where it is one that is at most `max`: an
/// optional plus sign, then one decimal digit or more.
pub open spec fn parse_number(text: Seq<char>, max: nat) -> Option<nat> {
    let digits = unsigned_digits(text);
    if digits.len() > 0 && all_digits(digits) && digits_value(digits) <= max {
        Some(digits_value(digits))
    } else {
        None
    }
}

/// A prefix of a text writes no greater number than the text.
pub proof fn lemma_digits_value_prefix(text: Seq<char>, len: int)
    requires
        0 <= len <= text.len(),
    ensures
        digits_value(text.take(len)) <= digits_value(text),
    decreases text.len(),
{
    if len == text.len() {
        assert(text.take(len) =~= text);
    } else {
        lemma_digits_value_prefix(text.drop_last(), len);
        assert(text.drop_last().take(len) =~= text.take(len));
    }
}

/// Reads the number that `text` writes, if it is one that is at most `max`.
pub fn parseNumber(text: &Vec<char>, max: u64) -> (value: Option<u64>)
    ensures
        match value {
            Some(n) => parse_number(text@, max as nat) == Some(n as nat),
            None => parse_number(text@, max as nat) is None,
        },
{
    let start: usize = if text.len() > 0 && text[0] == '+' {
        1
    } else {
        0
    };
    let ghost digits = unsigned_digits(text@);
    proof {
        assert(digits =~= text@.skip(start as int));
    }
    if start == text.len() {
        return None;
    }
    let mut acc: u64 = 0;
    let mut i: usize = start;
    while i < text.len()
        invariant
            start <= i <= text.len(),
            digits == text@.skip(start as int),
            digits == unsigned_digits(text@),
            all_digits(digits.take(i - start)),
            acc == digits_value(digits.take(i - start)),
            acc <= max,
        decreases text.len() - i,
    {
        let code: u32 = text[i] as u32;
        if code < 0x30 || code > 0x39 {
            assert(!is_digit(digits[i - start]));
            return None;
        }
        let d: u64 = (code - 0x30) as u64;
        proof {
            let longer = digits.take(i - start + 1);
            assert(longer.drop_last() =~= digits.take(i - start));
            assert(longer.last() == text@[i as int]);
            lemma_digits_value_prefix(digits, i - start + 1);
        }
        if d > max || acc > (max - d) / 10 {
            return None;
        }
        acc = acc * 10 + d;
        i += 1;
    }
    proof {
        assert(digits.take(i - start) =~= digits);
    }
    Some(acc)
}

/// Whether `c` is a hexadecimal digit, in either case.
pub open spec fn is_hex_digit(c: char) -> bool {
    let code = c as u32;
    ||| 0x30 <= code <= 0x39
    ||| 0x41 <= code <= 0x46
    ||| 0x61 <= code <= 0x66
}

/// The number that the hexadecimal digit `c` writes; 0 for any other
/// character.
pub open spec fn hex_digit_of(c: char) -> nat {
    let code = c as u32;
    if 0x30 <= code <= 0x39 {
        (code - 0x30) as nat
    } else if 0x41 <= code <= 0x46 {
        (code - 0x41 + 10) as nat
    } else if 0x61 <= code <= 0x66 {
        (code - 0x61 + 10) as nat
    } else {
        0
    }
}

/// Whether `text` holds hexadecimal digits only.
pub open spec fn all_hex_digits(text: Seq<char>) -> bool {
    forall|i: int| 0 <= i < text.len() ==> is_hex_digit(#[trigger] text[i])
}

/// The number that the hexadecimal digit `c` writes, if it is one.
pub fn hexDigit(c: char) -> (digit: Option<u8>)
    ensures
        digit is Some <==> is_hex_digit(c),
        digit matches Some(d) ==> d == hex_digit_of(c) && d < 16,
{
    let code: u32 = c as u32;
    if 0x30 <= code && code <= 0x39 {
        Some((code - 0x30) as u8)
    } else if 0x41 <= code && code <= 0x46 {
        Some((code - 0x41 + 10) as u8)
    } else if 0x61 <= code && code <= 0x66 {
        Some((code - 0x61 + 10) as u8)
    } else {
        None
    }
}

/// Tells whether `text` holds hexadecimal digits only.
pub fn allHexDigits(text: &Vec<char>) -> (ok: bool)
    ensures
        ok == all_hex_digits(text@),
{
    let mut i: usize = 0;
    while i < text.len()
        invariant
            i <= text.len(),
            all_hex_digits(text@.take(i as int)),
        decreases text.len() - i,
    {
        if hexDigit(text[i]).is_none() {
            return false;
        }
        i += 1;
        assert forall|k: int| 0 <= k < i implies is_hex_digit(#[trigger] text@.take(i as int)[k]) by {
            if k < i - 1 {
                assert(text@.take(i - 1)[k] == text@[k]);
            }
        }
    }
    assert(text@.take(i as int) =~= text@);
    true
}

/// Whether `c` stands nowhere in `text`.
pub open spec fn lacks(text: Seq<char>, c: char) -> bool {
    forall|j: int| 0 <= j < text.len() ==> text[j] != c
}

/// Whether `c` stands in none of `parts`.
pub open spec fn all_lack(parts: Seq<Seq<char>>, c: char) -> bool {
    forall|i: int| 0 <= i < parts.len() ==> lacks(#[trigger] parts[i], c)
}

/// A text in which `c` stands nowhere is one piece when split at `c`.
pub proof fn lemma_split_without(text: Seq<char>, c: char)
    requires
        lacks(text, c),
    ensures
        split(text, seq![c]) == seq![text],
{
    lemma_first_occurrence(text, seq![c], 0);
    let at = first_occurrence(text, seq![c], 0);
    if at >= 0 {
        assert(text.subrange(at, at + 1)[0] == c);
    }
}

/// Splitting at `c` cuts off what stands before the first `c`.
pub proof fn lemma_split_first(head: Seq<char>, c: char, tail: Seq<char>)
    requires
        lacks(head, c),
    ensures
        split(head + seq![c] + tail, seq![c]) == seq![head] + split(tail, seq![c]),
{
    let text = head + seq![c] + tail;
    let h = head.len() as int;
    lemma_first_occurrence(text, seq![c], 0);
    let at = first_occurrence(text, seq![c], 0);
    assert(text.subrange(h, h + 1) =~= seq![c]);
    assert(occurs_at(text, seq![c], h));
    if 0 <= at < h {
        assert(text.subrange(at, at + 1)[0] == c);
        assert(text[at] == head[at]);
    }
    assert(at == h);
    assert(text.take(h) =~= head);
    assert(text.skip(h + 1) =~= tail);
}

/// Two parts or more are joined as the first one, the separator, and the
/// others joined.
pub proof fn lemma_join_first(parts: Seq<Seq<char>>, separator: Seq<char>)
    requires
        parts.len() >= 2,
    ensures
        join(parts, separator) == parts[0] + separator + join(parts.drop_first(), separator),
    decreases parts.len(),
{
    let rest = parts.drop_first();
    if parts.len() == 2 {
        assert(parts.drop_last() =~= seq![parts[0]]);
        assert(rest =~= seq![parts[1]]);
        assert(join(parts.drop_last(), separator) == parts[0]);
        assert(join(rest, separator) == parts[1]);
    } else {
        lemma_join_first(parts.drop_last(), separator);
        assert(parts.drop_last().drop_first() =~= rest.drop_last());
        assert(rest.last() == parts.last());
        assert(parts.drop_last()[0] == parts[0]);
        assert(join(parts, separator) =~= parts[0] + separator + (join(
            rest.drop_last(),
            separator,
        ) + separator + rest.last()));
    }
}

/// Parts in which `c` stands nowhere are got back by splitting at `c` what
/// joining them with `c` gives.
pub proof fn lemma_split_join(parts: Seq<Seq<char>>, c: char)
    requires
        parts.len() >= 1,
        all_lack(parts, c),
    ensures
        split(join(parts, seq![c]), seq![c]) == parts,
    decreases parts.len(),
{
    if parts.len() == 1 {
        lemma_split_without(parts[0], c);
        assert(seq![parts[0]] =~= parts);
    } else {
        let rest = parts.drop_first();
        lemma_join_first(parts, seq![c]);
        assert forall|i: int| 0 <= i < rest.len() implies lacks(#[trigger] rest[i], c) by {
            assert(rest[i] == parts[i + 1]);
        }
        lemma_split_join(rest, c);
        lemma_split_first(parts[0], c, join(rest, seq![c]));
        assert(seq![parts[0]] + rest =~= parts);
    }
}

/// The decimal notation of a number holds digits only, at least one, and
/// writes that number.
pub proof fn lemma_decimal(n: nat)
    ensures
        decimal(n).len() >= 1,
        all_digits(decimal(n)),
        digits_value(decimal(n)) == n,
    decreases n,
{
    if n < 10 {
        let text = decimal(n);
        assert(text.drop_last().len() == 0);
        assert(digits_value(text.drop_last()) == 0);
        assert(is_digit(digit_char(n)) && digit_of(digit_char(n)) == n);
    } else {
        lemma_decimal(n / 10);
        let shorter = decimal(n / 10);
        let text = decimal(n);
        let d = n % 10;
        assert(is_digit(digit_char(d)) && digit_of(digit_char(d)) == d);
        assert(text.drop_last() =~= shorter);
        assert(text.last() == digit_char(d));
        assert forall|i: int| 0 <= i < text.len() implies is_digit(#[trigger] text[i]) by {
            if i < shorter.len() {
                assert(text[i] == shorter[i]);
            }
        }
    }
}

/// Reading the decimal notation of a number gives the number.
pub proof fn lemma_parse_decimal(n: nat, max: nat)
    requires
        n <= max,
    ensures
        parse_number(decimal(n), max) == Some(n),
{
    lemma_decimal(n);
    assert(is_digit(decimal(n)[0]));
}

/// The views of a list of strings.
pub open spec fn string_views(strings: Seq<String>) -> Seq<Seq<char>> {
    Seq::new(strings.len(), |i: int| strings[i]@)
}

/// The strings made of the characters of each of `parts`.
pub fn stringsOf(parts: &Vec<Vec<char>>) -> (strings: Vec<String>)
    ensures
        string_views(strings@) == views(parts@),
{
    let mut strings: Vec<String> = Vec::new();
    let mut i: usize = 0;
    while i < parts.len()
        invariant
            i <= parts.len(),
            string_views(strings@) == views(parts@).take(i as int),
        decreases parts.len() - i,
    {
        let ghost before = strings@;
        let s = string_of(&parts[i]);
        strings.push(s);
        proof {
            assert(string_views(strings@) =~= string_views(before).push(parts@[i as int]@));
            assert(views(parts@).take(i + 1) =~= views(parts@).take(i as int).push(
                parts@[i as int]@,
            ));
        }
        i += 1;
    }
    proof {
        assert(views(parts@).take(i as int) =~= views(parts@));
    }
    strings
}

/// A copy of `text` without the white space around it.
pub fn trimmed(text: &str) -> (out: String)
    ensures
        out@ == trim(text@),
{
    let chars = chars_of(text);
    let inner = trimText(&chars);
    string_of(&inner)
}

/// Tells whether two texts hold the same characters.
pub fn sameText(a: &Vec<char>, b: &Vec<char>) -> (same: bool)
    ensures
        same == (a@ == b@),
{
    if a.len() != b.len() {
        return false;
    }
    let mut i: usize = 0;
    while i < a.len()
        invariant
            i <= a.len(),
            a@.len() == b@.len(),
            forall|k: int| 0 <= k < i ==> a@[k] == b@[k],
        decreases a.len() - i,
    {
        if a[i] != b[i] {
            return false;
        }
        i += 1;
    }
    assert(a@ =~= b@);
    true
}

/// What stands in a text without its first `start` characters stands in
/// the whole text.
pub proof fn lemma_contains_skip(text: Seq<char>, pattern: Seq<char>, start: int)
    requires
        0 <= start <= text.len(),
        contains(text.skip(start), pattern),
    ensures
        contains(text, pattern),
{
    let at = choose|at: int| occurs_at(text.skip(start), pattern, at);
    lemma_occurs_at_skip(text, pattern, start, at);
}

/// What stands in the first `len` characters of a text stands in the whole
/// text.
pub proof fn lemma_contains_take(text: Seq<char>, pattern: Seq<char>, len: int)
    requires
        0 <= len <= text.len(),
        contains(text.take(len), pattern),
    ensures
        contains(text, pattern),
{
    let at = choose|at: int| occurs_at(text.take(len), pattern, at);
    assert(text.take(len).subrange(at, at + pattern.len()) =~= text.subrange(
        at,
        at + pattern.len(),
    ));
    assert(occurs_at(text, pattern, at));
}

/// What stands in a piece of a split text stands in the text.
pub proof fn lemma_contains_piece(
    text: Seq<char>,
    separator: Seq<char>,
    i: int,
    pattern: Seq<char>,
)
    requires
        0 <= i < split(text, separator).len(),
        contains(split(text, separator)[i], pattern),
    ensures
        contains(text, pattern),
    decreases text.len(),
{
    let at = first_occurrence(text, separator, 0);
    if separator.len() == 0 || at < 0 || at + separator.len() > text.len() {
    } else if i == 0 {
        lemma_contains_take(text, pattern, at);
    } else {
        let rest = text.skip(at + separator.len());
        assert(split(text, separator)[i] == split(rest, separator)[i - 1]);
        lemma_contains_piece(rest, separator, i - 1, pattern);
        lemma_contains_skip(text, pattern, at + separator.len());
    }
}

/// The words among `words` that are not empty and in which `mark` does
/// not stand, in their order.
pub open spec fn unmarked_words(words: Seq<Seq<char>>, mark: Seq<char>) -> Seq<Seq<char>>
    decreases words.len(),
{
    if words.len() == 0 {
        Seq::empty()
    } else {
        let before = unmarked_words(words.drop_last(), mark);
        if words.last().len() > 0 && !contains(words.last(), mark) {
            before.push(words.last())
        } else {
            before
        }
    }
}

/// Picks the words that are not empty and in which `mark` does not stand.
pub fn unmarkedWords(words: &Vec<Vec<char>>, mark: &Vec<char>) -> (kept: Vec<Vec<char>>)
    ensures
        views(kept@) == unmarked_words(views(words@), mark@),
{
    let ghost all = views(words@);
    let mut kept: Vec<Vec<char>> = Vec::new();
    let mut i: usize = 0;
    while i < words.len()
        invariant
            i <= words.len(),
            all == views(words@),
            views(kept@) == unmarked_words(all.take(i as int), mark@),
        decreases words.len() - i,
    {
        let ghost before = kept@;
        proof {
            assert(all[i as int] == words@[i as int]@);
            assert(all.take(i + 1).drop_last() =~= all.take(i as int));
            assert(all.take(i + 1).last() == all[i as int]);
        }
        if words[i].len() > 0 && !containsPattern(&words[i], mark) {
            let word = copyRange(&words[i], 0, words[i].len());
            proof {
                assert(word@ =~= words@[i as int]@);
            }
            kept.push(word);
            proof {
                assert(views(kept@) =~= views(before).push(words@[i as int]@));
            }
        }
        i += 1;
    }
    proof {
        assert(all.take(i as int) =~= all);
    }
    kept
}

/// The place of the first of `lines`, from `from` on, in which `pattern`
/// stands, or -1 where it stands in none.
pub open spec fn first_line_index(lines: Seq<Seq<char>>, pattern: Seq<char>, from: int) -> int
    decreases lines.len() - from,
{
    if from < 0 || from >= lines.len() {
        -1
    } else if contains(lines[from], pattern) {
        from
    } else {
        first_line_index(lines, pattern, from + 1)
    }
}

/// The first of `lines`, from `from` on, in which `pattern` stands, or an
/// empty line where it stands in none.
pub open spec fn first_line_with(lines: Seq<Seq<char>>, pattern: Seq<char>, from: int) -> Seq<
    char,
> {
    let at = first_line_index(lines, pattern, from);
    if at < 0 {
        Seq::empty()
    } else {
        lines[at]
    }
}

/// The last of `lines` in which `pattern` stands, or an empty line where
/// it stands in none.
pub open spec fn last_line_with(lines: Seq<Seq<char>>, pattern: Seq<char>) -> Seq<char>
    decreases lines.len(),
{
    if lines.len() == 0 {
        Seq::empty()
    } else if contains(lines.last(), pattern) {
        lines.last()
    } else {
        last_line_with(lines.drop_last(), pattern)
    }
}

/// Finds the place of the first of `lines` in which `pattern` stands.
pub fn firstLineIndex(lines: &Vec<Vec<char>>, pattern: &Vec<char>) -> (at: Option<usize>)
    ensures
        match at {
            Some(i) => i < lines@.len() && i == first_line_index(views(lines@), pattern@, 0),
            None => first_line_index(views(lines@), pattern@, 0) == -1,
        },
{
    let ghost all = views(lines@);
    let mut i: usize = 0;
    while i < lines.len()
        invariant
            i <= lines.len(),
            all == views(lines@),
            first_line_index(all, pattern@, 0) == first_line_index(all, pattern@, i as int),
        decreases lines.len() - i,
    {
        assert(all[i as int] == lines@[i as int]@);
        if containsPattern(&lines[i], pattern) {
            return Some(i);
        }
        i += 1;
    }
    None
}

/// Finds the first of `lines` in which `pattern` stands.
pub fn firstLineWith(lines: &Vec<Vec<char>>, pattern: &Vec<char>) -> (line: Vec<char>)
    ensures
        line@ == first_line_with(views(lines@), pattern@, 0),
{
    match firstLineIndex(lines, pattern) {
        Some(i) => {
            let line = copyRange(&lines[i], 0, lines[i].len());
            assert(line@ =~= lines@[i as int]@);
            assert(views(lines@)[i as int] == lines@[i as int]@);
            line
        },
        None => {
            let none: Vec<char> = Vec::new();
            assert(none@ =~= Seq::<char>::empty());
            none
        },
    }
}

} // verus!
