//! The input devices that the kernel lists in its table of bus inputs.
use vstd::prelude::*;
use crate::text::{
    all_hex_digits, chars_of, contains, containsPattern, hex_digit_of, hexDigit, replace,
    replaceText, split, splitText, string_of, string_views, stringsOf, trim, trimText, views,
};

verus! {

/// Contains the information regarding a bus input
#[derive(Debug)]
pub struct BusInput {
    pub bus: u16,
    pub vendor: u16,
    pub product: u16,
    pub version: u16,
    pub name: String,
    pub physicalPath: String,
    pub sysfsPath: String,
    pub uniqueIdentifier: String,
    pub handles: Vec<String>,
    pub properties: usize,
    pub events: usize,
    pub keys: Vec<String>,
    pub miscellaneousEvents: usize,
    pub led: usize,
}

/// What a `BusInput` holds, its texts as sequences of characters.
pub struct BusInputView {
    pub bus: u16,
    pub vendor: u16,
    pub product: u16,
    pub version: u16,
    pub name: Seq<char>,
    pub physicalPath: Seq<char>,
    pub sysfsPath: Seq<char>,
    pub uniqueIdentifier: Seq<char>,
    pub handles: Seq<Seq<char>>,
    pub properties: usize,
    pub events: usize,
    pub keys: Seq<Seq<char>>,
    pub miscellaneousEvents: usize,
    pub led: usize,
}

impl View for BusInput {
    type V = BusInputView;

    open spec fn view(&self) -> BusInputView {
        BusInputView {
            bus: self.bus,
            vendor: self.vendor,
            product: self.product,
            version: self.version,
            name: self.name@,
            physicalPath: self.physicalPath@,
            sysfsPath: self.sysfsPath@,
            uniqueIdentifier: self.uniqueIdentifier@,
            handles: string_views(self.handles@),
            properties: self.properties,
            events: self.events,
            keys: string_views(self.keys@),
            miscellaneousEvents: self.miscellaneousEvents,
            led: self.led,
        }
    }
}

/// A bus input of which nothing is known.
pub open spec fn blank_input() -> BusInputView {
    BusInputView {
        bus: 0,
        vendor: 0,
        product: 0,
        version: 0,
        name: Seq::empty(),
        physicalPath: Seq::empty(),
        sysfsPath: Seq::empty(),
        uniqueIdentifier: Seq::empty(),
        handles: Seq::empty(),
        properties: 0,
        events: 0,
        keys: Seq::empty(),
        miscellaneousEvents: 0,
        led: 0,
    }
}

impl BusInput {
    pub fn new() -> (input: BusInput)
        ensures
            input@ == blank_input(),
    {
        let input = BusInput {
            bus: 0,
            vendor: 0,
            product: 0,
            version: 0,
            name: String::new(),
            physicalPath: String::new(),
            sysfsPath: String::new(),
            uniqueIdentifier: String::new(),
            handles: Vec::<String>::new(),
            properties: 0,
            led: 0,
            miscellaneousEvents: 0,
            events: 0,
            keys: Vec::<String>::new(),
        };
        assert(string_views(input.handles@) =~= Seq::<Seq<char>>::empty());
        assert(string_views(input.keys@) =~= Seq::<Seq<char>>::empty());
        input
    }
}

/// The number that the digits of `text` write in hexadecimal notation.
pub open spec fn hex_value(text: Seq<char>) -> nat
    decreases text.len(),
{
    if text.len() == 0 {
        0
    } else {
        hex_value(text.drop_last()) * 16 + hex_digit_of(text.last())
    }
}

/// Whether `text` is a field of the table of bus inputs that holds a
/// number: at most seven hexadecimal digits.
pub open spec fn is_short_hex(text: Seq<char>) -> bool {
    text.len() <= 7 && all_hex_digits(text)
}

/// The number that a field of the table of bus inputs stands for: each
/// digit weighs a power of 16 that is its distance to the end of the text,
/// the last digit's being one. That is 16 times the number that the text
/// writes.
pub open spec fn weighted_hex(text: Seq<char>) -> nat {
    16 * hex_value(text)
}

/// The greatest number that `len` hexadecimal digits write, and one more.
pub open spec fn hex_limit(len: nat) -> nat
    decreases len,
{
    if len == 0 {
        1
    } else {
        16 * hex_limit((len - 1) as nat)
    }
}

/// The limits of the numbers of up to seven digits.
pub proof fn lemma_hex_limits()
    ensures
        hex_limit(0) == 1,
        hex_limit(1) == 0x10,
        hex_limit(2) == 0x100,
        hex_limit(3) == 0x1000,
        hex_limit(4) == 0x1_0000,
        hex_limit(5) == 0x10_0000,
        hex_limit(6) == 0x100_0000,
        hex_limit(7) == 0x1000_0000,
{
    reveal_with_fuel(hex_limit, 9);
}

/// The number that a field of the table of bus inputs stands for.
pub fn hexToUsize(hexadecimal: String) -> (value: usize)
    requires
        is_short_hex(hexadecimal@),
    ensures
        value == weighted_hex(hexadecimal@),
{
    let text = chars_of(hexadecimal.as_str());
    weightedHex(&text)
}

/// The number that a field of the table of bus inputs stands for.
pub fn weightedHex(text: &Vec<char>) -> (value: usize)
    requires
        is_short_hex(text@),
    ensures
        value == weighted_hex(text@),
{
    let mut acc: usize = 0;
    let mut i: usize = 0;
    while i < text.len()
        invariant
            i <= text.len(),
            is_short_hex(text@),
            acc == hex_value(text@.take(i as int)),
            acc < hex_limit(i as nat),
        decreases text.len() - i,
    {
        proof {
            lemma_hex_limits();
            assert(text@.take(i + 1).drop_last() =~= text@.take(i as int));
            assert(text@.take(i + 1).last() == text@[i as int]);
            assert(crate::text::is_hex_digit(text@[i as int]));
            assert(hex_limit((i + 1) as nat) == 16 * hex_limit(i as nat));
            assert(i == 0 || i == 1 || i == 2 || i == 3 || i == 4 || i == 5 || i == 6);
        }
        let digit: usize = match hexDigit(text[i]) {
            Some(d) => d as usize,
            None => 0,
        };
        acc = acc * 16 + digit;
        i += 1;
    }
    proof {
        lemma_hex_limits();
        assert(text@.take(i as int) =~= text@);
        assert(i == 0 || i == 1 || i == 2 || i == 3 || i == 4 || i == 5 || i == 6 || i == 7);
    }
    acc * 16
}

/// Tells whether `text` is a field that holds a number.
pub fn isShortHex(text: &str) -> (ok: bool)
    ensures
        ok == is_short_hex(text@),
{
    let chars = chars_of(text);
    chars.len() <= 7 && crate::text::allHexDigits(&chars)
}

/// The low 16 bits of `n`.
pub open spec fn low16(n: nat) -> u16 {
    (n % 0x1_0000) as u16
}

/// `text` without each occurrence of `label`.
pub open spec fn without(text: Seq<char>, label: Seq<char>) -> Seq<char> {
    replace(text, label, ""@)
}

/// Whether a word of the line of identifiers holds a number where it
/// names one of the four identifiers.
pub open spec fn block_ok(block: Seq<char>) -> bool {
    if contains(block, "Bus="@) {
        is_short_hex(without(block, "Bus="@))
    } else if contains(block, "Vendor="@) {
        is_short_hex(without(block, "Vendor="@))
    } else if contains(block, "Version="@) {
        is_short_hex(without(block, "Version="@))
    } else if contains(block, "Product="@) {
        is_short_hex(without(block, "Product="@))
    } else {
        true
    }
}

/// The input `input` with the identifier that a word of the line of
/// identifiers names, if it names one.
pub open spec fn with_block(input: BusInputView, block: Seq<char>) -> BusInputView {
    if contains(block, "Bus="@) {
        BusInputView { bus: low16(weighted_hex(without(block, "Bus="@))), ..input }
    } else if contains(block, "Vendor="@) {
        BusInputView { vendor: low16(weighted_hex(without(block, "Vendor="@))), ..input }
    } else if contains(block, "Version="@) {
        BusInputView { version: low16(weighted_hex(without(block, "Version="@))), ..input }
    } else if contains(block, "Product="@) {
        BusInputView { product: low16(weighted_hex(without(block, "Product="@))), ..input }
    } else {
        input
    }
}

/// Whether each of `blocks` holds a number where it names an identifier.
pub open spec fn blocks_ok(blocks: Seq<Seq<char>>) -> bool {
    forall|i: int| 0 <= i < blocks.len() ==> block_ok(#[trigger] blocks[i])
}

/// The input `input` with the identifiers that `blocks` name, a later one
/// replacing an earlier one.
pub open spec fn with_blocks(input: BusInputView, blocks: Seq<Seq<char>>) -> BusInputView
    decreases blocks.len(),
{
    if blocks.len() == 0 {
        input
    } else {
        with_block(with_blocks(input, blocks.drop_last()), blocks.last())
    }
}

/// The words among `words` that are not empty, in their order.
pub open spec fn filled_words(words: Seq<Seq<char>>) -> Seq<Seq<char>>
    decreases words.len(),
{
    if words.len() == 0 {
        Seq::empty()
    } else if words.last().len() > 0 {
        filled_words(words.drop_last()).push(words.last())
    } else {
        filled_words(words.drop_last())
    }
}

/// Whether a line of the description of an input holds numbers where
/// numbers are expected.
pub open spec fn line_ok(line: Seq<char>) -> bool {
    if contains(line, "I: "@) {
        blocks_ok(split(trim(line), " "@))
    } else if contains(line, "N: Name="@) {
        true
    } else if contains(line, "P: Phys="@) {
        true
    } else if contains(line, "S: Sysfs="@) {
        true
    } else if contains(line, "U: Uniq="@) {
        true
    } else if contains(line, "H: Handlers="@) {
        true
    } else if contains(line, "B: PROP="@) {
        is_short_hex(without(line, "B: PROP="@))
    } else if contains(line, "B: EV="@) {
        is_short_hex(without(line, "B: EV="@))
    } else if contains(line, "B: KEY="@) {
        true
    } else if contains(line, "B: MSC="@) {
        is_short_hex(without(line, "B: MSC="@))
    } else if contains(line, "B: LED="@) {
        is_short_hex(without(line, "B: LED="@))
    } else {
        true
    }
}

/// The input `input` with what a line of its description tells of it.
pub open spec fn with_line(input: BusInputView, line: Seq<char>) -> BusInputView {
    if contains(line, "I: "@) {
        with_blocks(input, split(trim(line), " "@))
    } else if contains(line, "N: Name="@) {
        BusInputView { name: without(without(line, "N: Name="@), "\""@), ..input }
    } else if contains(line, "P: Phys="@) {
        BusInputView { physicalPath: without(line, "P: Phys="@), ..input }
    } else if contains(line, "S: Sysfs="@) {
        BusInputView { sysfsPath: replace(line, "S: Sysfs="@, "/sys"@), ..input }
    } else if contains(line, "U: Uniq="@) {
        BusInputView { uniqueIdentifier: without(line, "U: Uniq="@), ..input }
    } else if contains(line, "H: Handlers="@) {
        BusInputView {
            handles: filled_words(split(without(line, "H: Handlers="@), " "@)),
            ..input
        }
    } else if contains(line, "B: PROP="@) {
        BusInputView { properties: weighted_hex(without(line, "B: PROP="@)) as usize, ..input }
    } else if contains(line, "B: EV="@) {
        BusInputView { events: weighted_hex(without(line, "B: EV="@)) as usize, ..input }
    } else if contains(line, "B: KEY="@) {
        BusInputView { keys: split(without(line, "B: KEY="@), " "@), ..input }
    } else if contains(line, "B: MSC="@) {
        BusInputView {
            miscellaneousEvents: weighted_hex(without(line, "B: MSC="@)) as usize,
            ..input
        }
    } else if contains(line, "B: LED="@) {
        BusInputView { led: weighted_hex(without(line, "B: LED="@)) as usize, ..input }
    } else {
        input
    }
}

/// Whether each of `lines` holds numbers where numbers are expected.
pub open spec fn lines_ok(lines: Seq<Seq<char>>) -> bool {
    forall|i: int| 0 <= i < lines.len() ==> line_ok(#[trigger] lines[i])
}

/// The input `input` with what `lines` tell of it, a later line replacing
/// what an earlier one told.
pub open spec fn with_lines(input: BusInputView, lines: Seq<Seq<char>>) -> BusInputView
    decreases lines.len(),
{
    if lines.len() == 0 {
        input
    } else {
        with_line(with_lines(input, lines.drop_last()), lines.last())
    }
}

/// Whether a part of the table of bus inputs describes an input: it holds
/// more than white space.
pub open spec fn is_description(chunk: Seq<char>) -> bool {
    trim(chunk).len() > 0
}

/// The lines of a description.
pub open spec fn description_lines(chunk: Seq<char>) -> Seq<Seq<char>> {
    split(trim(chunk), "\n"@)
}

/// Whether each description among `chunks` holds numbers where numbers
/// are expected.
pub open spec fn chunks_ok(chunks: Seq<Seq<char>>) -> bool {
    forall|i: int|
        0 <= i < chunks.len() && is_description(#[trigger] chunks[i]) ==> lines_ok(
            description_lines(chunks[i]),
        )
}

/// Whether the table of bus inputs can be decoded.
pub open spec fn bus_text_ok(content: Seq<char>) -> bool {
    chunks_ok(split(content, "\n\n"@))
}

/// The inputs that the descriptions among `chunks` describe.
pub open spec fn inputs_of_chunks(chunks: Seq<Seq<char>>) -> Seq<BusInputView>
    decreases chunks.len(),
{
    if chunks.len() == 0 {
        Seq::empty()
    } else {
        let before = inputs_of_chunks(chunks.drop_last());
        if is_description(chunks.last()) {
            before.push(with_lines(blank_input(), description_lines(chunks.last())))
        } else {
            before
        }
    }
}

/// The inputs that the table of bus inputs describes: its descriptions
/// are parted by empty lines.
pub open spec fn inputs_of(content: Seq<char>) -> Seq<BusInputView> {
    inputs_of_chunks(split(content, "\n\n"@))
}

/// The views of a list of inputs.
pub open spec fn input_views(inputs: Seq<BusInput>) -> Seq<BusInputView> {
    Seq::new(inputs.len(), |i: int| inputs[i]@)
}

/// Reads the number that `text` holds once `label` is taken out of it, if
/// what is left is a number.
fn numberBehind(text: &Vec<char>, label: &Vec<char>) -> (value: Option<usize>)
    requires
        label@.len() > 0,
    ensures
        value is Some <==> is_short_hex(replace(text@, label@, ""@)),
        value matches Some(n) ==> n == weighted_hex(replace(text@, label@, ""@)),
{
    let nothing = chars_of("");
    let field = replaceText(text, label, &nothing);
    if field.len() <= 7 && crate::text::allHexDigits(&field) {
        Some(weightedHex(&field))
    } else {
        None
    }
}

/// The low 16 bits of `n`.
fn lowBits(n: usize) -> (low: u16)
    ensures
        low == low16(n as nat),
{
    (n % 0x1_0000) as u16
}

/// Notes in `input` the identifier that a word of the line of identifiers
/// names. Gives `false`, and leaves `input` as it is, where the word holds
/// no number behind the name.
fn applyBlock(input: &mut BusInput, block: &Vec<char>) -> (ok: bool)
    ensures
        ok == block_ok(block@),
        ok ==> final(input)@ == with_block(old(input)@, block@),
        !ok ==> *final(input) == *old(input),
{
    let bus = chars_of("Bus=");
    let vendor = chars_of("Vendor=");
    let version = chars_of("Version=");
    let product = chars_of("Product=");
    proof {
        reveal_strlit("Bus=");
        reveal_strlit("Vendor=");
        reveal_strlit("Version=");
        reveal_strlit("Product=");
    }
    if containsPattern(block, &bus) {
        match numberBehind(block, &bus) {
            Some(n) => {
                input.bus = lowBits(n);
                true
            },
            None => false,
        }
    } else if containsPattern(block, &vendor) {
        match numberBehind(block, &vendor) {
            Some(n) => {
                input.vendor = lowBits(n);
                true
            },
            None => false,
        }
    } else if containsPattern(block, &version) {
        match numberBehind(block, &version) {
            Some(n) => {
                input.version = lowBits(n);
                true
            },
            None => false,
        }
    } else if containsPattern(block, &product) {
        match numberBehind(block, &product) {
            Some(n) => {
                input.product = lowBits(n);
                true
            },
            None => false,
        }
    } else {
        true
    }
}

/// Picks the words that are not empty.
fn filledWords(words: &Vec<Vec<char>>) -> (kept: Vec<String>)
    ensures
        string_views(kept@) == filled_words(views(words@)),
{
    let ghost all = views(words@);
    let mut kept: Vec<String> = Vec::new();
    let mut i: usize = 0;
    while i < words.len()
        invariant
            i <= words.len(),
            all == views(words@),
            string_views(kept@) == filled_words(all.take(i as int)),
        decreases words.len() - i,
    {
        let ghost before = kept@;
        proof {
            assert(all[i as int] == words@[i as int]@);
            assert(all.take(i + 1).drop_last() =~= all.take(i as int));
            assert(all.take(i + 1).last() == all[i as int]);
        }
        if words[i].len() > 0 {
            kept.push(string_of(&words[i]));
            proof {
                assert(string_views(kept@) =~= string_views(before).push(words@[i as int]@));
            }
        }
        i += 1;
    }
    proof {
        assert(all.take(i as int) =~= all);
    }
    kept
}

/// Notes in `input` the identifiers that the words of the line of
/// identifiers name. Gives `false` where one of them holds no number
/// behind the name.
fn applyBlocks(input: &mut BusInput, line: &Vec<char>) -> (ok: bool)
    ensures
        ok == blocks_ok(split(trim(line@), " "@)),
        ok ==> final(input)@ == with_blocks(old(input)@, split(trim(line@), " "@)),
{
    let space = chars_of(" ");
    proof {
        reveal_strlit(" ");
    }
    let inner = trimText(line);
    let blocks = splitText(&inner, &space);
    let ghost all = views(blocks@);
    let mut i: usize = 0;
    while i < blocks.len()
        invariant
            i <= blocks.len(),
            all == views(blocks@),
            all == split(trim(line@), " "@),
            blocks_ok(all.take(i as int)),
            input@ == with_blocks(old(input)@, all.take(i as int)),
        decreases blocks.len() - i,
    {
        proof {
            assert(all[i as int] == blocks@[i as int]@);
            assert(all.take(i + 1).drop_last() =~= all.take(i as int));
            assert(all.take(i + 1).last() == all[i as int]);
        }
        if !applyBlock(input, &blocks[i]) {
            return false;
        }
        i += 1;
        assert forall|k: int| 0 <= k < i implies block_ok(#[trigger] all.take(i as int)[k]) by {
            if k < i - 1 {
                assert(all.take(i - 1)[k] == all[k]);
            }
        }
    }
    proof {
        assert(all.take(i as int) =~= all);
    }
    true
}

/// Notes in `input` what a line of its description tells of it. Gives
/// `false` where the line holds no number where one is expected.
fn applyLine(input: &mut BusInput, line: &Vec<char>) -> (ok: bool)
    ensures
        ok == line_ok(line@),
        ok ==> final(input)@ == with_line(old(input)@, line@),
{
    let nothing = chars_of("");
    let space = chars_of(" ");
    let identifiers = chars_of("I: ");
    let name = chars_of("N: Name=");
    let quote = chars_of("\"");
    let phys = chars_of("P: Phys=");
    let sysfs = chars_of("S: Sysfs=");
    let root = chars_of("/sys");
    let uniq = chars_of("U: Uniq=");
    let handlers = chars_of("H: Handlers=");
    let prop = chars_of("B: PROP=");
    let ev = chars_of("B: EV=");
    let key = chars_of("B: KEY=");
    let msc = chars_of("B: MSC=");
    let led = chars_of("B: LED=");
    proof {
        reveal_strlit(" ");
        reveal_strlit("N: Name=");
        reveal_strlit("\"");
        reveal_strlit("P: Phys=");
        reveal_strlit("S: Sysfs=");
        reveal_strlit("U: Uniq=");
        reveal_strlit("H: Handlers=");
        reveal_strlit("B: PROP=");
        reveal_strlit("B: EV=");
        reveal_strlit("B: KEY=");
        reveal_strlit("B: MSC=");
        reveal_strlit("B: LED=");
    }
    if containsPattern(line, &identifiers) {
        applyBlocks(input, line)
    } else if containsPattern(line, &name) {
        let bare = replaceText(line, &name, &nothing);
        let plain = replaceText(&bare, &quote, &nothing);
        input.name = string_of(&plain);
        true
    } else if containsPattern(line, &phys) {
        let path = replaceText(line, &phys, &nothing);
        input.physicalPath = string_of(&path);
        true
    } else if containsPattern(line, &sysfs) {
        let path = replaceText(line, &sysfs, &root);
        input.sysfsPath = string_of(&path);
        true
    } else if containsPattern(line, &uniq) {
        let id = replaceText(line, &uniq, &nothing);
        input.uniqueIdentifier = string_of(&id);
        true
    } else if containsPattern(line, &handlers) {
        let bare = replaceText(line, &handlers, &nothing);
        let words = splitText(&bare, &space);
        input.handles = filledWords(&words);
        true
    } else if containsPattern(line, &prop) {
        match numberBehind(line, &prop) {
            Some(n) => {
                input.properties = n;
                true
            },
            None => false,
        }
    } else if containsPattern(line, &ev) {
        match numberBehind(line, &ev) {
            Some(n) => {
                input.events = n;
                true
            },
            None => false,
        }
    } else if containsPattern(line, &key) {
        let bare = replaceText(line, &key, &nothing);
        let words = splitText(&bare, &space);
        input.keys = stringsOf(&words);
        true
    } else if containsPattern(line, &msc) {
        match numberBehind(line, &msc) {
            Some(n) => {
                input.miscellaneousEvents = n;
                true
            },
            None => false,
        }
    } else if containsPattern(line, &led) {
        match numberBehind(line, &led) {
            Some(n) => {
                input.led = n;
                true
            },
            None => false,
        }
    } else {
        true
    }
}

/// Decodes a description of an input, if it holds numbers where numbers
/// are expected.
fn inputOf(chunk: &Vec<char>) -> (input: Option<BusInput>)
    ensures
        input is Some <==> lines_ok(description_lines(chunk@)),
        input matches Some(b) ==> b@ == with_lines(blank_input(), description_lines(chunk@)),
{
    let newline = chars_of("\n");
    proof {
        reveal_strlit("\n");
    }
    let inner = trimText(chunk);
    let lines = splitText(&inner, &newline);
    let ghost all = views(lines@);
    let mut input = BusInput::new();
    let mut i: usize = 0;
    while i < lines.len()
        invariant
            i <= lines.len(),
            all == views(lines@),
            all == description_lines(chunk@),
            lines_ok(all.take(i as int)),
            input@ == with_lines(blank_input(), all.take(i as int)),
        decreases lines.len() - i,
    {
        proof {
            assert(all[i as int] == lines@[i as int]@);
            assert(all.take(i + 1).drop_last() =~= all.take(i as int));
            assert(all.take(i + 1).last() == all[i as int]);
        }
        if !applyLine(&mut input, &lines[i]) {
            return None;
        }
        i += 1;
        assert forall|k: int| 0 <= k < i implies line_ok(#[trigger] all.take(i as int)[k]) by {
            if k < i - 1 {
                assert(all.take(i - 1)[k] == all[k]);
            }
        }
    }
    proof {
        assert(all.take(i as int) =~= all);
    }
    Some(input)
}

/// Tells whether the table of bus inputs can be decoded.
pub fn busTextOk(content: &str) -> (ok: bool)
    ensures
        ok == bus_text_ok(content@),
{
    let text = chars_of(content);
    let gap = chars_of("\n\n");
    proof {
        reveal_strlit("\n\n");
    }
    let chunks = splitText(&text, &gap);
    let ghost all = views(chunks@);
    let mut i: usize = 0;
    while i < chunks.len()
        invariant
            i <= chunks.len(),
            all == views(chunks@),
            all == split(content@, "\n\n"@),
            chunks_ok(all.take(i as int)),
        decreases chunks.len() - i,
    {
        assert(all[i as int] == chunks@[i as int]@);
        let inner = trimText(&chunks[i]);
        if inner.len() > 0 {
            if inputOf(&chunks[i]).is_none() {
                assert(is_description(all[i as int]) && !lines_ok(
                    description_lines(all[i as int]),
                ));
                return false;
            }
        }
        i += 1;
        assert forall|k: int| 0 <= k < i && is_description(#[trigger] all.take(i as int)[k])
            implies lines_ok(description_lines(all.take(i as int)[k])) by {
            if k < i - 1 {
                assert(all.take(i - 1)[k] == all[k]);
            }
        }
    }
    assert(all.take(i as int) =~= all);
    true
}

/// The input devices that the table of bus inputs of the kernel
/// describes, in its order.
pub fn busInput(content: &str) -> (inputs: Vec<BusInput>)
    requires
        bus_text_ok(content@),
    ensures
        input_views(inputs@) == inputs_of(content@),
{
    let text = chars_of(content);
    let gap = chars_of("\n\n");
    proof {
        reveal_strlit("\n\n");
    }
    let chunks = splitText(&text, &gap);
    let ghost all = views(chunks@);
    let mut inputs: Vec<BusInput> = Vec::new();
    let mut i: usize = 0;
    while i < chunks.len()
        invariant
            i <= chunks.len(),
            all == views(chunks@),
            chunks_ok(all),
            input_views(inputs@) == inputs_of_chunks(all.take(i as int)),
        decreases chunks.len() - i,
    {
        let ghost before = inputs@;
        proof {
            assert(all[i as int] == chunks@[i as int]@);
            assert(all.take(i + 1).drop_last() =~= all.take(i as int));
            assert(all.take(i + 1).last() == all[i as int]);
        }
        let inner = trimText(&chunks[i]);
        if inner.len() > 0 {
            let input = inputOf(&chunks[i]).unwrap();
            inputs.push(input);
            proof {
                assert(input_views(inputs@) =~= input_views(before).push(input@));
            }
        }
        i += 1;
    }
    proof {
        assert(all.take(i as int) =~= all);
    }
    inputs
}

} // verus!
