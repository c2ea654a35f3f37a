//! The IPv4 addresses of this host: netmasks from prefix lengths, the
//! addresses that the forwarding trie resolves, and the local address that
//! each routing device is bound to.
use vstd::prelude::*;
use vstd::arithmetic::power2::{lemma2_to64, pow2};
use crate::network::{address_of, addressText, is_hex_bytes, joined_decimals};
use crate::text::{
    allHexDigits, chars_of, contains, containsPattern, copyRange, decimal, decimalText, joinText,
    parse_number, parseNumber, replace, replaceText, split, splitText, string_of, trim, trimText,
    views,
};

verus! {

/// The number that `bits` write in binary, the first bit being the most
/// significant one.
pub open spec fn bits_value(bits: Seq<u8>) -> nat
    decreases bits.len(),
{
    if bits.len() == 0 {
        0
    } else {
        bits[0] as nat * pow2((bits.len() - 1) as nat) + bits_value(bits.drop_first())
    }
}

/// Whether each element of `bits` is 0 or 1.
pub open spec fn all_bits(bits: Seq<u8>) -> bool {
    forall|i: int| 0 <= i < bits.len() ==> #[trigger] bits[i] <= 1
}

/// Packs the last eight bits of `bits` into a byte, the first of them
/// being the most significant one, and leaves `bits` in reverse order.
pub fn bitsToByte(bits: &mut Vec<u8>) -> (byte: u8)
    requires
        old(bits)@.len() >= 8,
        all_bits(old(bits)@.skip(old(bits)@.len() - 8)),
    ensures
        final(bits)@ == old(bits)@.reverse(),
        byte == bits_value(old(bits)@.skip(old(bits)@.len() - 8)),
{
    let len: usize = bits.len();
    let ghost given = bits@;
    let mut low: usize = 0;
    while low < len / 2
        invariant
            len == given.len(),
            bits@.len() == len,
            low <= len / 2,
            forall|i: int| 0 <= i < low ==> bits@[i] == given[len - 1 - i],
            forall|i: int| len - low <= i < len ==> bits@[i] == given[len - 1 - i],
            forall|i: int| low <= i < len - low ==> bits@[i] == given[i],
        decreases len - low,
    {
        let high: usize = len - 1 - low;
        let first = bits[low];
        let second = bits[high];
        bits.set(low, second);
        bits.set(high, first);
        low += 1;
    }
    proof {
        assert(bits@ =~= given.reverse());
        lemma2_to64();
    }
    let mut byte: u8 = 0;
    let mut weight: u16 = 1;
    let mut i: usize = 0;
    while i < 8
        invariant
            i <= 8,
            len == given.len(),
            len >= 8,
            all_bits(given.skip(len - 8)),
            bits@ == given.reverse(),
            weight == pow2(i as nat),
            byte == bits_value(given.subrange(len - i, len as int)),
            byte < weight,
        decreases 8 - i,
    {
        proof {
            lemma2_to64();
            assert(bits@[i as int] == given[len - 1 - i]);
            assert(given.subrange(len - i - 1, len as int).drop_first() =~= given.subrange(
                len - i,
                len as int,
            ));
            vstd::arithmetic::power2::lemma_pow2_unfold((i + 1) as nat);
            let longer = given.subrange(len - i - 1, len as int);
            assert(longer[0] == given[len - 1 - i]);
            assert(given.skip(len - 8)[7 - i] == given[len - 1 - i]);
            assert(given[len - 1 - i] <= 1);
            assert(bits_value(longer) == longer[0] as nat * pow2(i as nat) + bits_value(
                longer.drop_first(),
            ));
            let bit = longer[0] as nat;
            let place = pow2(i as nat);
            assert(bit == 0 || bit == 1);
            assert(bit * place == if bit == 1 {
                place
            } else {
                0
            }) by (nonlinear_arith)
                requires
                    bit == 0 || bit == 1,
            ;
        }
        if bits[i] == 1 {
            byte = byte + weight as u8;
        }
        weight = weight * 2;
        i += 1;
    }
    proof {
        assert(given.subrange(len - 8, len as int) =~= given.skip(len - 8));
    }
    byte
}

/// The 32 bits of the mask of a network whose prefix holds `cidr` bits: as
/// many ones as the prefix is long, then zeros.
pub open spec fn mask_bits(cidr: u8) -> Seq<u8> {
    Seq::new(
        32,
        |i: int|
            if i < cidr {
                1u8
            } else {
                0u8
            },
    )
}

/// The four bytes of the mask of a network whose prefix holds `cidr` bits.
pub open spec fn netmask_octets(cidr: u8) -> Seq<u8> {
    Seq::new(4, |k: int| bits_value(mask_bits(cidr).subrange(8 * k, 8 * k + 8)) as u8)
}

/// Four bytes or more in decimal notation with dots between them.
pub open spec fn dotted(octets: Seq<u8>) -> Seq<char> {
    joined_decimals(octets, "."@)
}

/// The mask of a network whose prefix holds `cidr` bits, in dotted
/// notation.
pub open spec fn netmask_of(cidr: u8) -> Seq<char> {
    dotted(netmask_octets(cidr))
}

/// Writes `octets` in decimal notation with dots between them.
pub fn dottedText(octets: &Vec<u8>) -> (out: Vec<char>)
    ensures
        out@ == dotted(octets@),
{
    let dot = chars_of(".");
    let ghost wanted = Seq::new(octets@.len(), |i: int| decimal(octets@[i] as nat));
    let mut parts: Vec<Vec<char>> = Vec::new();
    let mut i: usize = 0;
    while i < octets.len()
        invariant
            i <= octets.len(),
            wanted == Seq::new(octets@.len(), |i: int| decimal(octets@[i] as nat)),
            views(parts@) == wanted.take(i as int),
        decreases octets.len() - i,
    {
        let ghost before = parts@;
        parts.push(decimalText(octets[i] as u64));
        proof {
            assert(views(parts@) =~= views(before).push(decimal(octets@[i as int] as nat)));
            assert(wanted.take(i + 1) =~= wanted.take(i as int).push(
                decimal(octets@[i as int] as nat),
            ));
        }
        i += 1;
    }
    proof {
        assert(wanted.take(i as int) =~= wanted);
    }
    joinText(&parts, &dot)
}

/// The bytes of the mask of a network whose prefix holds `cidr` bits.
pub fn netmaskOctets(cidr: u8) -> (mask: Vec<u8>)
    ensures
        mask@ == netmask_octets(cidr),
{
    let mut bits: Vec<u8> = Vec::new();
    let mut i: u8 = 0;
    while i < 32
        invariant
            i <= 32,
            bits@ == mask_bits(cidr).take(i as int),
        decreases 32 - i,
    {
        if i < cidr {
            bits.push(1);
        } else {
            bits.push(0);
        }
        i += 1;
        assert(bits@ =~= mask_bits(cidr).take(i as int));
    }
    assert(bits@ =~= mask_bits(cidr));
    let mut mask: Vec<u8> = Vec::new();
    let mut at: usize = 0;
    while at < 32
        invariant
            at <= 32,
            at % 8 == 0,
            bits@ == mask_bits(cidr),
            mask@ == netmask_octets(cidr).take(at as int / 8),
        decreases 32 - at,
    {
        let mut chunk: Vec<u8> = Vec::new();
        let mut k: usize = 0;
        while k < 8
            invariant
                k <= 8,
                at + 8 <= 32,
                bits@ == mask_bits(cidr),
                chunk@ == bits@.subrange(at as int, at + k),
            decreases 8 - k,
        {
            chunk.push(bits[at + k]);
            k += 1;
            assert(chunk@ =~= bits@.subrange(at as int, at + k));
        }
        let ghost packed = chunk@;
        proof {
            assert(packed.skip(0) =~= packed);
            assert(packed == mask_bits(cidr).subrange(8 * (at as int / 8), 8 * (at as int / 8) + 8));
        }
        let byte = bitsToByte(&mut chunk);
        mask.push(byte);
        at += 8;
        proof {
            assert(mask@ =~= netmask_octets(cidr).take(at as int / 8));
        }
    }
    proof {
        assert(netmask_octets(cidr).take(4) =~= netmask_octets(cidr));
    }
    mask
}

/// The mask of a network whose prefix holds `cidr` bits, in dotted
/// notation.
pub fn netmaskFromCidr(cidr: u8) -> (mask: String)
    ensures
        mask@ == netmask_of(cidr),
{
    let octets = netmaskOctets(cidr);
    let out = dottedText(&octets);
    string_of(&out)
}

/// Bits of which the first `ones` are 1 and the others 0 write the
/// number `2^len - 2^(len - ones)`.
pub proof fn lemma_leading_ones(bits: Seq<u8>, ones: nat)
    requires
        ones <= bits.len(),
        forall|j: int| 0 <= j < ones ==> bits[j] == 1,
        forall|j: int| ones <= j < bits.len() ==> bits[j] == 0,
    ensures
        bits_value(bits) + pow2((bits.len() - ones) as nat) == pow2(bits.len()),
    decreases bits.len(),
{
    if bits.len() > 0 {
        let rest = bits.drop_first();
        let n = bits.len();
        vstd::arithmetic::power2::lemma_pow2_unfold(n);
        if ones == 0 {
            lemma_leading_ones(rest, 0);
            assert(bits[0] as nat * pow2((n - 1) as nat) == 0);
        } else {
            assert forall|j: int| 0 <= j < ones - 1 implies rest[j] == 1 by {
                assert(rest[j] == bits[j + 1]);
            }
            assert forall|j: int| ones - 1 <= j < rest.len() implies rest[j] == 0 by {
                assert(rest[j] == bits[j + 1]);
            }
            lemma_leading_ones(rest, (ones - 1) as nat);
            assert(bits[0] as nat * pow2((n - 1) as nat) == pow2((n - 1) as nat));
        }
    }
}

/// The number of bits of the prefix that fall into the byte at `place` of
/// the mask.
pub open spec fn ones_in_octet(cidr: u8, place: int) -> nat {
    if cidr <= 8 * place {
        0
    } else if cidr >= 8 * place + 8 {
        8
    } else {
        (cidr - 8 * place) as nat
    }
}

/// Each byte of a mask is `256 - 2^(8 - n)`, where `n` is the number of
/// bits of the prefix that fall into it: 0, 128, 192, 224, 240, 248, 252,
/// 254 or 255.
pub proof fn lemma_netmask_octet(cidr: u8, place: int)
    requires
        0 <= place < 4,
    ensures
        netmask_octets(cidr)[place] + pow2((8 - ones_in_octet(cidr, place)) as nat) == 256,
{
    let bits = mask_bits(cidr).subrange(8 * place, 8 * place + 8);
    let ones = ones_in_octet(cidr, place);
    lemma_leading_ones(bits, ones);
    lemma2_to64();
    vstd::arithmetic::power2::lemma_pow2_pos((8 - ones) as nat);
}

/// Whether `text` writes bytes in decimal notation with dots between them.
pub open spec fn is_octets(text: Seq<char>) -> bool {
    let parts = split(text, "."@);
    forall|i: int| 0 <= i < parts.len() ==> parse_number(#[trigger] parts[i], 255) is Some
}

/// The bytes that `text` writes in decimal notation with dots between them.
pub open spec fn octets_of(text: Seq<char>) -> Seq<u8> {
    let parts = split(text, "."@);
    Seq::new(parts.len(), |i: int| parse_number(parts[i], 255).unwrap() as u8)
}

/// Whether `text` writes an IPv4 address or mask: four bytes or more in
/// dotted notation.
pub open spec fn is_dotted_quad(text: Seq<char>) -> bool {
    is_octets(text) && octets_of(text).len() >= 4
}

/// Reads the bytes that `text` writes in dotted notation, if it does.
pub fn octetsOf(text: &Vec<char>) -> (octets: Option<Vec<u8>>)
    ensures
        octets is Some <==> is_octets(text@),
        octets matches Some(v) ==> v@ == octets_of(text@),
{
    let dot = chars_of(".");
    proof {
        reveal_strlit(".");
    }
    let parts = splitText(text, &dot);
    let ghost all = views(parts@);
    let mut octets: Vec<u8> = Vec::new();
    let mut i: usize = 0;
    while i < parts.len()
        invariant
            i <= parts.len(),
            all == views(parts@),
            all == split(text@, "."@),
            octets@.len() == i,
            forall|k: int| 0 <= k < i ==> parse_number(#[trigger] all[k], 255) == Some(
                octets@[k] as nat,
            ),
        decreases parts.len() - i,
    {
        assert(all[i as int] == parts@[i as int]@);
        match parseNumber(&parts[i], 255) {
            None => {
                return None;
            },
            Some(n) => {
                octets.push(n as u8);
            },
        }
        i += 1;
    }
    proof {
        assert(octets@ =~= octets_of(text@));
    }
    Some(octets)
}

/// Tells whether `text` writes bytes in dotted notation.
pub fn isOctets(text: &str) -> (ok: bool)
    ensures
        ok == is_octets(text@),
{
    let chars = chars_of(text);
    octetsOf(&chars).is_some()
}

/// Tells whether `text` writes an IPv4 address or mask.
pub fn isDottedQuad(text: &str) -> (ok: bool)
    ensures
        ok == is_dotted_quad(text@),
{
    let chars = chars_of(text);
    match octetsOf(&chars) {
        Some(octets) => octets.len() >= 4,
        None => false,
    }
}

/// Reads the bytes of an address in dotted notation.
pub fn makeu8Vec(ip: &String) -> (octets: Vec<u8>)
    requires
        is_octets(ip@),
    ensures
        octets@ == octets_of(ip@),
{
    let chars = chars_of(ip.as_str());
    octetsOf(&chars).unwrap()
}

/// Bytes written in dotted notation are read back from it unchanged.
pub proof fn lemma_dotted_round_trip(octets: Seq<u8>)
    requires
        octets.len() >= 1,
    ensures
        is_octets(dotted(octets)),
        octets_of(dotted(octets)) == octets,
{
    reveal_strlit(".");
    assert("."@ =~= seq!['.']);
    let parts = Seq::new(octets.len(), |i: int| decimal(octets[i] as nat));
    assert forall|i: int| 0 <= i < parts.len() implies crate::text::lacks(
        #[trigger] parts[i],
        '.',
    ) by {
        crate::text::lemma_decimal(octets[i] as nat);
    }
    crate::text::lemma_split_join(parts, '.');
    assert forall|i: int| 0 <= i < parts.len() implies parse_number(#[trigger] parts[i], 255)
        == Some(octets[i] as nat) by {
        crate::text::lemma_parse_decimal(octets[i] as nat, 255);
    }
    assert(octets_of(dotted(octets)) =~= octets);
}

/// The first four bytes of `ip`, each masked by the byte of `mask` at its
/// place.
pub open spec fn masked_octets(ip: Seq<u8>, mask: Seq<u8>) -> Seq<u8> {
    Seq::new(4, |i: int| ip[i] & mask[i])
}

/// The network that the address `ip` belongs to under `mask`, in dotted
/// notation.
pub open spec fn base_network(ip: Seq<char>, mask: Seq<char>) -> Seq<char> {
    dotted(masked_octets(octets_of(ip), octets_of(mask)))
}

/// Masks the first four bytes of `ip` by those of `mask`.
fn maskedOctets(ip: &Vec<u8>, mask: &Vec<u8>) -> (masked: Vec<u8>)
    requires
        ip@.len() >= 4,
        mask@.len() >= 4,
    ensures
        masked@ == masked_octets(ip@, mask@),
{
    let mut masked: Vec<u8> = Vec::new();
    masked.push(ip[0] & mask[0]);
    masked.push(ip[1] & mask[1]);
    masked.push(ip[2] & mask[2]);
    masked.push(ip[3] & mask[3]);
    assert(masked@ =~= masked_octets(ip@, mask@));
    masked
}

/// The network that the address `ip` belongs to under `mask`.
pub fn ipToBaseNetwork(ip: &String, mask: &String) -> (network: String)
    requires
        is_dotted_quad(ip@),
        is_dotted_quad(mask@),
    ensures
        network@ == base_network(ip@, mask@),
{
    let ipVec = makeu8Vec(ip);
    let maskVec = makeu8Vec(mask);
    let masked = maskedOctets(&ipVec, &maskVec);
    let out = dottedText(&masked);
    string_of(&out)
}

/// The mask under which `broadcast` is the broadcast address of the
/// network of `ip`, byte by byte, for their first four bytes.
pub open spec fn mask_between(ip: Seq<u8>, broadcast: Seq<u8>) -> Seq<u8> {
    Seq::new(4, |i: int| !ip[i] | (ip[i] & !broadcast[i]))
}

/// The mask of a network, from one of its addresses and its broadcast
/// address.
pub fn makeNetmask(ip: &String, broadcast: &String) -> (mask: String)
    requires
        is_dotted_quad(ip@),
        is_dotted_quad(broadcast@),
    ensures
        mask@ == dotted(mask_between(octets_of(ip@), octets_of(broadcast@))),
{
    let splittedIp = makeu8Vec(ip);
    let splittedBrd = makeu8Vec(broadcast);
    let mut mask: Vec<u8> = Vec::new();
    let mut i: usize = 0;
    while i < 4
        invariant
            i <= 4,
            splittedIp@.len() >= 4,
            splittedBrd@.len() >= 4,
            mask@ == mask_between(splittedIp@, splittedBrd@).take(i as int),
        decreases 4 - i,
    {
        let ipByte = splittedIp[i];
        let brdByte = splittedBrd[i];
        mask.push(!ipByte | (ipByte & !brdByte));
        i += 1;
        assert(mask@ =~= mask_between(splittedIp@, splittedBrd@).take(i as int));
    }
    assert(mask@ =~= mask_between(splittedIp@, splittedBrd@));
    let out = dottedText(&mask);
    string_of(&out)
}

/// Holds information related to an IP address
#[derive(Debug)]
pub struct IPv4 {
    pub address: String,
    pub interface: String,
    pub broadcast: String,
    pub netmask: String,
    pub cidr: String,
}

/// What an `IPv4` holds, as sequences of characters.
pub struct IPv4View {
    pub address: Seq<char>,
    pub interface: Seq<char>,
    pub broadcast: Seq<char>,
    pub netmask: Seq<char>,
    pub cidr: Seq<char>,
}

impl View for IPv4 {
    type V = IPv4View;

    open spec fn view(&self) -> IPv4View {
        IPv4View {
            address: self.address@,
            interface: self.interface@,
            broadcast: self.broadcast@,
            netmask: self.netmask@,
            cidr: self.cidr@,
        }
    }
}

impl IPv4 {
    /// The address and the length of its prefix, with a slash between them.
    pub fn to_string(&self) -> (text: String)
        ensures
            text@ == self.address@ + "/"@ + self.cidr@,
    {
        let mut out = chars_of(self.address.as_str());
        let slash = chars_of("/");
        let cidr = chars_of(self.cidr.as_str());
        crate::text::appendChars(&mut out, &slash);
        crate::text::appendChars(&mut out, &cidr);
        string_of(&out)
    }
}

/// An address of this host, with the broadcast address, the mask and the
/// prefix length of the network it lies in.
#[derive(Debug)]
pub struct ResolvedAddress {
    pub address: String,
    pub broadcast: String,
    pub netmask: String,
    pub cidr: String,
}

/// What a `ResolvedAddress` holds, as sequences of characters.
pub struct ResolvedView {
    pub address: Seq<char>,
    pub broadcast: Seq<char>,
    pub netmask: Seq<char>,
    pub cidr: Seq<char>,
}

impl View for ResolvedAddress {
    type V = ResolvedView;

    open spec fn view(&self) -> ResolvedView {
        ResolvedView {
            address: self.address@,
            broadcast: self.broadcast@,
            netmask: self.netmask@,
            cidr: self.cidr@,
        }
    }
}

/// The views of a list of resolved addresses.
pub open spec fn resolved_views(found: Seq<ResolvedAddress>) -> Seq<ResolvedView> {
    Seq::new(found.len(), |i: int| found[i]@)
}

/// Whether a line of the forwarding trie announces a local subnet.
pub open spec fn is_marker(line: Seq<char>) -> bool {
    contains(line, "link UNICAST"@)
}

/// A line of the forwarding trie without its leaf marks.
pub open spec fn unbranched(line: Seq<char>) -> Seq<char> {
    replace(line, "|--"@, ""@)
}

/// Whether `c` is an ASCII character.
pub open spec fn is_ascii_char(c: char) -> bool {
    (c as u32) < 0x80
}

/// Whether a line that announces a subnet holds a prefix length: after its
/// indentation come three ASCII characters or more, of which the trie
/// writes the first as a slash.
pub open spec fn has_prefix_field(line: Seq<char>) -> bool {
    let text = trim(line);
    text.len() >= 3 && is_ascii_char(text[0]) && is_ascii_char(text[1]) && is_ascii_char(text[2])
}

/// The prefix length that a line which announces a subnet holds, as text:
/// the two characters after the first one.
pub open spec fn prefix_field(line: Seq<char>) -> Seq<char> {
    trim(line).subrange(1, 3)
}

/// The number of lines from `from` on that come before the next line
/// which names a local host, or before the end.
pub open spec fn lines_before_local(lines: Seq<Seq<char>>, from: int) -> nat
    decreases lines.len() - from,
{
    if from < 0 || from >= lines.len() || contains(lines[from], "host LOCAL"@) {
        0
    } else {
        1 + lines_before_local(lines, from + 1)
    }
}

/// The addresses that the lines of a forwarding trie from `index` on
/// resolve to, or `None` where a line has not the shape that is expected.
///
/// A line that announces a local subnet holds the prefix length. Where the
/// line below it is a branch, the announcement is passed over with it;
/// where it is another announcement, the scan goes on from that one.
/// Otherwise the line below holds the address; the line after the next one
/// that names a local host holds the broadcast address, and the scan goes
/// on behind it.
///
/// The shape is not the expected one where an announcement holds no prefix
/// length or is the last line, where no line follows the one that names a
/// local host, where the prefix length is no number below 256, or where the
/// address is not written as four bytes or more with dots between them.
pub open spec fn scan_trie(lines: Seq<Seq<char>>, index: int) -> Option<Seq<ResolvedView>>
    decreases lines.len() - index,
{
    if index < 0 || index >= lines.len() {
        Some(Seq::empty())
    } else if !is_marker(lines[index]) {
        scan_trie(lines, index + 1)
    } else if !has_prefix_field(lines[index]) || index + 1 >= lines.len() {
        None
    } else {
        let below = unbranched(lines[index + 1]);
        if contains(below, "+"@) {
            scan_trie(lines, index + 2)
        } else if contains(below, "link UNICAST"@) {
            scan_trie(lines, index + 1)
        } else {
            let last = index + 1 + lines_before_local(lines, index + 1) + 1;
            let prefix = parse_number(prefix_field(lines[index]), 255);
            if last >= lines.len() || prefix is None || !is_dotted_quad(trim(below)) {
                None
            } else {
                match scan_trie(lines, last + 1) {
                    None => None,
                    Some(rest) => Some(
                        seq![
                            ResolvedView {
                                address: trim(below),
                                broadcast: trim(unbranched(lines[last])),
                                netmask: netmask_of(prefix.unwrap() as u8),
                                cidr: prefix_field(lines[index]),
                            },
                        ] + rest,
                    ),
                }
            }
        }
    }
}

/// What a scan gives that has found `found` and goes on to find `rest`.
pub open spec fn found_then(found: Seq<ResolvedView>, rest: Option<Seq<ResolvedView>>) -> Option<
    Seq<ResolvedView>,
> {
    match rest {
        None => None,
        Some(more) => Some(found + more),
    }
}

/// The addresses that a forwarding trie resolves to, or `None` where a
/// line has not the shape that is expected.
pub open spec fn resolved_of(fibTrie: Seq<char>) -> Option<Seq<ResolvedView>> {
    scan_trie(split(fibTrie, "\n"@), 0)
}

/// Scans the lines of a forwarding trie for the addresses of this host.
fn scanTrie(lines: &Vec<Vec<char>>) -> (found: Option<Vec<ResolvedAddress>>)
    ensures
        match found {
            Some(v) => scan_trie(views(lines@), 0) == Some(resolved_views(v@)),
            None => scan_trie(views(lines@), 0) is None,
        },
{
    let marker = chars_of("link UNICAST");
    let branch = chars_of("|--");
    let nothing = chars_of("");
    let plus = chars_of("+");
    let local = chars_of("host LOCAL");
    proof {
        reveal_strlit("|--");
    }
    let ghost all = views(lines@);
    let mut found: Vec<ResolvedAddress> = Vec::new();
    let mut index: usize = 0;
    proof {
        let whole = scan_trie(all, 0);
        if whole is Some {
            assert(resolved_views(found@) + whole.unwrap() =~= whole.unwrap());
        }
    }
    while index < lines.len()
        invariant
            all == views(lines@),
            marker@ == "link UNICAST"@,
            branch@ == "|--"@,
            branch@.len() > 0,
            nothing@ == ""@,
            plus@ == "+"@,
            local@ == "host LOCAL"@,
            scan_trie(all, 0) == found_then(resolved_views(found@), scan_trie(all, index as int)),
        decreases lines.len() - index,
    {
        assert(all[index as int] == lines@[index as int]@);
        if !containsPattern(&lines[index], &marker) {
            index += 1;
        } else {
            let trimmed = trimText(&lines[index]);
            if trimmed.len() < 3 || trimmed[0] as u32 >= 0x80 || trimmed[1] as u32 >= 0x80
                || trimmed[2] as u32 >= 0x80 || index + 1 >= lines.len() {
                return None;
            }
            assert(all[index + 1] == lines@[index + 1]@);
            let prefix = copyRange(&trimmed, 1, 3);
            let below = replaceText(&lines[index + 1], &branch, &nothing);
            if containsPattern(&below, &plus) {
                index += 2;
            } else if containsPattern(&below, &marker) {
                index += 1;
            } else {
                let address = trimText(&below);
                let mut next: usize = index + 1;
                while next < lines.len() && !containsPattern(&lines[next], &local)
                    invariant
                        index + 1 <= next <= lines.len(),
                        all == views(lines@),
                        local@ == "host LOCAL"@,
                        lines_before_local(all, index + 1) == next - (index + 1)
                            + lines_before_local(all, next as int),
                    decreases lines.len() - next,
                {
                    assert(all[next as int] == lines@[next as int]@);
                    next += 1;
                }
                proof {
                    if next < lines.len() {
                        assert(all[next as int] == lines@[next as int]@);
                    }
                }
                if next >= lines.len() || next + 1 >= lines.len() {
                    return None;
                }
                let last: usize = next + 1;
                assert(all[last as int] == lines@[last as int]@);
                let cidr = match parseNumber(&prefix, 255) {
                    None => {
                        return None;
                    },
                    Some(n) => n as u8,
                };
                match octetsOf(&address) {
                    None => {
                        return None;
                    },
                    Some(octets) => {
                        if octets.len() < 4 {
                            return None;
                        }
                    },
                }
                let marked = replaceText(&lines[last], &branch, &nothing);
                let broadcast = trimText(&marked);
                let octets = netmaskOctets(cidr);
                let netmask = dottedText(&octets);
                let ghost before = found@;
                let entry = ResolvedAddress {
                    address: string_of(&address),
                    broadcast: string_of(&broadcast),
                    netmask: string_of(&netmask),
                    cidr: string_of(&prefix),
                };
                found.push(entry);
                proof {
                    let rest = scan_trie(all, last + 1);
                    assert(resolved_views(found@) =~= resolved_views(before).push(entry@));
                    if rest is Some {
                        assert(resolved_views(before) + (seq![entry@] + rest.unwrap())
                            =~= resolved_views(found@) + rest.unwrap());
                    }
                }
                index = last + 1;
            }
        }
    }
    proof {
        assert(resolved_views(found@) + Seq::<ResolvedView>::empty() =~= resolved_views(found@));
    }
    Some(found)
}

/// Tells whether a forwarding trie has the shape that is expected.
pub fn trieTextOk(fibTrie: &str) -> (ok: bool)
    ensures
        ok == resolved_of(fibTrie@) is Some,
{
    let text = chars_of(fibTrie);
    let newline = chars_of("\n");
    proof {
        reveal_strlit("\n");
    }
    let lines = splitText(&text, &newline);
    scanTrie(&lines).is_some()
}

/// The addresses of this host that a forwarding trie holds, each with the
/// broadcast address, the mask and the prefix length of its subnet, in the
/// order of the trie.
pub fn resolvedAddresses(fibTrie: &str) -> (found: Vec<ResolvedAddress>)
    requires
        resolved_of(fibTrie@) is Some,
    ensures
        resolved_of(fibTrie@) == Some(resolved_views(found@)),
{
    let text = chars_of(fibTrie);
    let newline = chars_of("\n");
    proof {
        reveal_strlit("\n");
    }
    let lines = splitText(&text, &newline);
    scanTrie(&lines).unwrap()
}

/// Every address that a scan of the forwarding trie gives is written as an
/// IPv4 address, and so is its mask.
pub proof fn lemma_scan_trie_dotted(lines: Seq<Seq<char>>, index: int)
    ensures
        scan_trie(lines, index) matches Some(found) ==> all_dotted(found),
    decreases lines.len() - index,
{
    if index < 0 || index >= lines.len() {
    } else if !is_marker(lines[index]) {
        lemma_scan_trie_dotted(lines, index + 1);
    } else if !has_prefix_field(lines[index]) || index + 1 >= lines.len() {
    } else {
        let below = unbranched(lines[index + 1]);
        if contains(below, "+"@) {
            lemma_scan_trie_dotted(lines, index + 2);
        } else if contains(below, "link UNICAST"@) {
            lemma_scan_trie_dotted(lines, index + 1);
        } else {
            let last = index + 1 + lines_before_local(lines, index + 1) + 1;
            let prefix = parse_number(prefix_field(lines[index]), 255);
            if last >= lines.len() || prefix is None || !is_dotted_quad(trim(below)) {
            } else {
                lemma_scan_trie_dotted(lines, last + 1);
                lemma_dotted_round_trip(netmask_octets(prefix.unwrap() as u8));
                match scan_trie(lines, last + 1) {
                    None => {},
                    Some(rest) => {
                        let found = scan_trie(lines, index).unwrap();
                        assert forall|i: int| 0 <= i < found.len() implies is_dotted_quad(
                            (#[trigger] found[i]).address,
                        ) && is_dotted_quad(found[i].netmask) by {
                            if i > 0 {
                                assert(found[i] == rest[i - 1]);
                            }
                        }
                    },
                }
            }
        }
    }
}

/// Whether a line of the routing table names a device with a network:
/// it is not empty and not the heading.
pub open spec fn is_device_line(line: Seq<char>) -> bool {
    line.len() > 0 && !contains(line, "Gateway"@)
}

/// The fields of a line of the routing table.
pub open spec fn device_fields(line: Seq<char>) -> Seq<Seq<char>> {
    split(line, "\t"@)
}

/// Whether a line that names a device holds the network after it, in
/// hexadecimal.
pub open spec fn device_line_ok(line: Seq<char>) -> bool {
    let fields = device_fields(line);
    fields.len() >= 2 && is_hex_bytes(trim(fields[1]))
}

/// The device that a line of the routing table names.
pub open spec fn device_of(line: Seq<char>) -> Seq<char> {
    trim(device_fields(line)[0])
}

/// The network that a line of the routing table leads to, in dotted
/// notation.
pub open spec fn network_of(line: Seq<char>) -> Seq<char> {
    address_of(trim(device_fields(line)[1]), "."@)
}

/// Whether every line among `lines` that names a device holds its network.
pub open spec fn device_lines_ok(lines: Seq<Seq<char>>) -> bool {
    forall|i: int|
        0 <= i < lines.len() && is_device_line(#[trigger] lines[i]) ==> device_line_ok(lines[i])
}

/// Whether a routing table can be decoded.
pub open spec fn route_table_ok(routeFile: Seq<char>) -> bool {
    device_lines_ok(split(routeFile, "\n"@))
}

/// The place among `addresses`, from `from` on, of the first one that lies
/// in `network`, or -1 where none does.
pub open spec fn first_in_network(
    addresses: Seq<ResolvedView>,
    network: Seq<char>,
    from: int,
) -> int
    decreases addresses.len() - from,
{
    if from < 0 || from >= addresses.len() {
        -1
    } else if base_network(addresses[from].address, addresses[from].netmask) == network {
        from
    } else {
        first_in_network(addresses, network, from + 1)
    }
}

/// Whether one of `bound` holds `address`.
pub open spec fn is_bound(bound: Seq<IPv4View>, address: Seq<char>) -> bool {
    exists|i: int| 0 <= i < bound.len() && #[trigger] bound[i].address == address
}

/// The binding of the device of `line` to `found`.
pub open spec fn binding_of(line: Seq<char>, found: ResolvedView) -> IPv4View {
    IPv4View {
        address: found.address,
        interface: device_of(line),
        broadcast: found.broadcast,
        netmask: found.netmask,
        cidr: found.cidr,
    }
}

/// The bindings that the lines of a routing table give, one after another.
///
/// The device of a line is bound to the first address that lies in the
/// network of the line, unless that address is bound already: then the
/// line gives no binding, as does a line with no address in its network.
pub open spec fn bound_of(lines: Seq<Seq<char>>, addresses: Seq<ResolvedView>) -> Seq<IPv4View>
    decreases lines.len(),
{
    if lines.len() == 0 {
        Seq::empty()
    } else {
        let before = bound_of(lines.drop_last(), addresses);
        let line = lines.last();
        let at = first_in_network(addresses, network_of(line), 0);
        if is_device_line(line) && at >= 0 && !is_bound(before, addresses[at].address) {
            before.push(binding_of(line, addresses[at]))
        } else {
            before
        }
    }
}

/// Whether each of `addresses` is written as an IPv4 address, with a mask
/// written as one.
pub open spec fn all_dotted(addresses: Seq<ResolvedView>) -> bool {
    forall|i: int|
        0 <= i < addresses.len() ==> is_dotted_quad((#[trigger] addresses[i]).address)
            && is_dotted_quad(addresses[i].netmask)
}

/// The views of a list of bindings.
pub open spec fn ipv4_views(bound: Seq<IPv4>) -> Seq<IPv4View> {
    Seq::new(bound.len(), |i: int| bound[i]@)
}

/// Finds the first of `addresses` that lies in `network`.
fn firstInNetwork(addresses: &Vec<ResolvedAddress>, network: &String) -> (at: Option<usize>)
    requires
        all_dotted(resolved_views(addresses@)),
    ensures
        match at {
            Some(i) => i < addresses@.len() && i == first_in_network(
                resolved_views(addresses@),
                network@,
                0,
            ),
            None => first_in_network(resolved_views(addresses@), network@, 0) == -1,
        },
{
    let ghost all = resolved_views(addresses@);
    let mut i: usize = 0;
    while i < addresses.len()
        invariant
            i <= addresses.len(),
            all == resolved_views(addresses@),
            all_dotted(all),
            first_in_network(all, network@, 0) == first_in_network(all, network@, i as int),
        decreases addresses.len() - i,
    {
        assert(all[i as int] == addresses@[i as int]@);
        let base = ipToBaseNetwork(&addresses[i].address, &addresses[i].netmask);
        if base == *network {
            return Some(i);
        }
        i += 1;
    }
    None
}

/// Tells whether one of `bound` holds `address`.
fn isBound(bound: &Vec<IPv4>, address: &String) -> (used: bool)
    ensures
        used == is_bound(ipv4_views(bound@), address@),
{
    let mut i: usize = 0;
    while i < bound.len()
        invariant
            i <= bound.len(),
            forall|k: int| 0 <= k < i ==> ipv4_views(bound@)[k].address != address@,
        decreases bound.len() - i,
    {
        assert(ipv4_views(bound@)[i as int] == bound@[i as int]@);
        if bound[i].address == *address {
            assert(ipv4_views(bound@)[i as int].address == address@);
            return true;
        }
        i += 1;
    }
    false
}

/// Tells whether a routing table can be decoded.
pub fn routeTableOk(routeFile: &str) -> (ok: bool)
    ensures
        ok == route_table_ok(routeFile@),
{
    let text = chars_of(routeFile);
    let newline = chars_of("\n");
    let heading = chars_of("Gateway");
    let tab = chars_of("\t");
    proof {
        reveal_strlit("\n");
        reveal_strlit("\t");
    }
    let lines = splitText(&text, &newline);
    let ghost all = views(lines@);
    let mut i: usize = 0;
    while i < lines.len()
        invariant
            i <= lines.len(),
            all == views(lines@),
            all == split(routeFile@, "\n"@),
            heading@ == "Gateway"@,
            tab@ == "\t"@,
            tab@.len() > 0,
            device_lines_ok(all.take(i as int)),
        decreases lines.len() - i,
    {
        assert(all[i as int] == lines@[i as int]@);
        if lines[i].len() > 0 && !containsPattern(&lines[i], &heading) {
            let fields = splitText(&lines[i], &tab);
            assert(views(fields@).len() == fields@.len());
            if fields.len() < 2 {
                assert(is_device_line(all[i as int]) && !device_line_ok(all[i as int]));
                return false;
            }
            assert(views(fields@)[1] == fields@[1]@);
            let network = trimText(&fields[1]);
            if network.len() % 2 != 0 || !allHexDigits(&network) {
                assert(is_device_line(all[i as int]) && !device_line_ok(all[i as int]));
                return false;
            }
        }
        i += 1;
        assert forall|k: int| 0 <= k < i && is_device_line(#[trigger] all.take(i as int)[k])
            implies device_line_ok(all.take(i as int)[k]) by {
            if k < i - 1 {
                assert(all.take(i - 1)[k] == all[k]);
            }
        }
    }
    assert(all.take(i as int) =~= all);
    true
}

/// Binds each device of the routing table `routeFile` to the address of
/// this host that lies in its network, as the forwarding trie `fibTrie`
/// resolves them. No address is bound twice.
pub fn getIPv4(routeFile: String, fibTrie: String) -> (bound: Vec<IPv4>)
    requires
        route_table_ok(routeFile@),
        resolved_of(fibTrie@) is Some,
    ensures
        ipv4_views(bound@) == bound_of(split(routeFile@, "\n"@), resolved_of(fibTrie@).unwrap()),
{
    let addresses = resolvedAddresses(fibTrie.as_str());
    let ghost resolved = resolved_views(addresses@);
    proof {
        lemma_scan_trie_dotted(split(fibTrie@, "\n"@), 0);
    }
    let text = chars_of(routeFile.as_str());
    let newline = chars_of("\n");
    let heading = chars_of("Gateway");
    let tab = chars_of("\t");
    let dot = chars_of(".");
    proof {
        reveal_strlit("\n");
        reveal_strlit("\t");
    }
    let lines = splitText(&text, &newline);
    let ghost all = views(lines@);
    let mut bound: Vec<IPv4> = Vec::new();
    let mut i: usize = 0;
    while i < lines.len()
        invariant
            i <= lines.len(),
            all == views(lines@),
            device_lines_ok(all),
            heading@ == "Gateway"@,
            tab@ == "\t"@,
            tab@.len() > 0,
            dot@ == "."@,
            resolved == resolved_views(addresses@),
            all_dotted(resolved),
            ipv4_views(bound@) == bound_of(all.take(i as int), resolved),
        decreases lines.len() - i,
    {
        let ghost before = bound@;
        proof {
            assert(all[i as int] == lines@[i as int]@);
            assert(all.take(i + 1).drop_last() =~= all.take(i as int));
            assert(all.take(i + 1).last() == all[i as int]);
        }
        if lines[i].len() > 0 && !containsPattern(&lines[i], &heading) {
            let fields = splitText(&lines[i], &tab);
            assert(views(fields@).len() == fields@.len());
            assert(views(fields@)[0] == fields@[0]@);
            assert(views(fields@)[1] == fields@[1]@);
            let device = trimText(&fields[0]);
            let field = trimText(&fields[1]);
            let decoded = addressText(&field, &dot);
            let network = string_of(&decoded);
            match firstInNetwork(&addresses, &network) {
                None => {},
                Some(at) => {
                    assert(resolved[at as int] == addresses@[at as int]@);
                    let found = &addresses[at];
                    if !isBound(&bound, &found.address) {
                        let entry = IPv4 {
                            address: found.address.clone(),
                            interface: string_of(&device),
                            broadcast: found.broadcast.clone(),
                            netmask: found.netmask.clone(),
                            cidr: found.cidr.clone(),
                        };
                        bound.push(entry);
                        proof {
                            assert(ipv4_views(bound@) =~= ipv4_views(before).push(entry@));
                        }
                    }
                },
            }
        }
        i += 1;
    }
    proof {
        assert(all.take(i as int) =~= all);
    }
    bound
}

/// What is bound after some lines of the routing table is still bound
/// after more of them.
pub proof fn lemma_bound_stays(
    lines: Seq<Seq<char>>,
    addresses: Seq<ResolvedView>,
    fewer: int,
    more: int,
    address: Seq<char>,
)
    requires
        0 <= fewer <= more <= lines.len(),
        is_bound(bound_of(lines.take(fewer), addresses), address),
    ensures
        is_bound(bound_of(lines.take(more), addresses), address),
    decreases more - fewer,
{
    if fewer < more {
        lemma_bound_stays(lines, addresses, fewer, more - 1, address);
        let before = bound_of(lines.take(more - 1), addresses);
        let after = bound_of(lines.take(more), addresses);
        assert(lines.take(more).drop_last() =~= lines.take(more - 1));
        let i = choose|i: int| 0 <= i < before.len() && #[trigger] before[i].address == address;
        assert(after[i].address == address);
    }
}

/// No address is bound to two devices.
pub proof fn lemma_bound_once(lines: Seq<Seq<char>>, addresses: Seq<ResolvedView>)
    ensures
        forall|i: int, j: int|
            0 <= i < j < bound_of(lines, addresses).len() ==> (#[trigger] bound_of(
                lines,
                addresses,
            )[i]).address != (#[trigger] bound_of(lines, addresses)[j]).address,
    decreases lines.len(),
{
    if lines.len() > 0 {
        lemma_bound_once(lines.drop_last(), addresses);
        let before = bound_of(lines.drop_last(), addresses);
        let after = bound_of(lines, addresses);
        assert forall|i: int, j: int| 0 <= i < j < after.len() implies (#[trigger] after[i]).address
            != (#[trigger] after[j]).address by {
            if j < before.len() {
                assert(after[i] == before[i] && after[j] == before[j]);
            } else {
                assert(after[i] == before[i]);
            }
        }
    }
}

/// Of two lines of the routing table that lead to the same network, the
/// second one gives no binding.
pub proof fn lemma_second_route_unbound(
    lines: Seq<Seq<char>>,
    addresses: Seq<ResolvedView>,
    first: int,
    second: int,
)
    requires
        0 <= first < second < lines.len(),
        is_device_line(lines[first]),
        network_of(lines[first]) == network_of(lines[second]),
    ensures
        bound_of(lines.take(second + 1), addresses) == bound_of(lines.take(second), addresses),
{
    let at = first_in_network(addresses, network_of(lines[second]), 0);
    assert(lines.take(second + 1).drop_last() =~= lines.take(second));
    assert(lines.take(second + 1).last() == lines[second]);
    if at >= 0 {
        let address = addresses[at].address;
        let before = bound_of(lines.take(first), addresses);
        let after = bound_of(lines.take(first + 1), addresses);
        assert(lines.take(first + 1).drop_last() =~= lines.take(first));
        assert(lines.take(first + 1).last() == lines[first]);
        if is_bound(before, address) {
            let i = choose|i: int| 0 <= i < before.len() && #[trigger] before[i].address == address;
            assert(after[i].address == address);
        } else {
            assert(after[before.len() as int].address == address);
        }
        assert(is_bound(after, address));
        lemma_bound_stays(lines, addresses, first + 1, second, address);
    }
}

} // verus!
