//! Decoding of the socket tables under `/proc/net`: endpoints and
//! connection states, the traffic of the interfaces, and their kinds.
use vstd::prelude::*;
use crate::text::{
    all_hex_digits, allHexDigits, chars_of, contains, containsPattern, decimal, decimalText,
    hex_digit_of, hexDigit, join, joinText, parse_number, parseNumber, sameText, split,
    splitText, string_of, string_views, trim, trimText, trimmed, unmarked_words, unmarkedWords,
    views,
};

pub use crate::subnet::{getIPv4, IPv4};

verus! {

/// Different route types
#[derive(Debug, Clone, Copy, PartialEq, Eq, Structural)]
pub enum RouteType {
    TCP,
    TCP6,
    UDP,
    UDP6,
}

/// The state of a connection
#[derive(Debug, Clone, Copy, PartialEq, Eq, Structural)]
pub enum RouteStatus {
    ESTABLISHED,
    SYN_SENT,
    SYN_RECEIVED,
    FIN_WAIT1,
    FIN_WAIT2,
    TIME_WAIT,
    CLOSED,
    CLOSE_WAIT,
    LAST_ACKNOWLEDGMENT,
    LISTENING,
    CLOSING,
    NEW_SYN_RECEIVED,
}

/// The state that a code of a TCP socket table stands for: `01` to `09`,
/// `0A` and `0B` name the eleven states of a connection in their order, and
/// every other text the remaining one.
pub open spec fn status_of_code(code: Seq<char>) -> RouteStatus {
    if code.len() == 2 && code[0] == '0' {
        let c = code[1];
        if c == '1' {
            RouteStatus::ESTABLISHED
        } else if c == '2' {
            RouteStatus::SYN_SENT
        } else if c == '3' {
            RouteStatus::SYN_RECEIVED
        } else if c == '4' {
            RouteStatus::FIN_WAIT1
        } else if c == '5' {
            RouteStatus::FIN_WAIT2
        } else if c == '6' {
            RouteStatus::TIME_WAIT
        } else if c == '7' {
            RouteStatus::CLOSED
        } else if c == '8' {
            RouteStatus::CLOSE_WAIT
        } else if c == '9' {
            RouteStatus::LAST_ACKNOWLEDGMENT
        } else if c == 'A' {
            RouteStatus::LISTENING
        } else if c == 'B' {
            RouteStatus::CLOSING
        } else {
            RouteStatus::NEW_SYN_RECEIVED
        }
    } else {
        RouteStatus::NEW_SYN_RECEIVED
    }
}

/// The state that the characters of a code stand for.
pub fn statusOfCode(code: &Vec<char>) -> (status: RouteStatus)
    ensures
        status == status_of_code(code@),
{
    if code.len() != 2 || code[0] != '0' {
        return RouteStatus::NEW_SYN_RECEIVED;
    }
    let c = code[1];
    if c == '1' {
        RouteStatus::ESTABLISHED
    } else if c == '2' {
        RouteStatus::SYN_SENT
    } else if c == '3' {
        RouteStatus::SYN_RECEIVED
    } else if c == '4' {
        RouteStatus::FIN_WAIT1
    } else if c == '5' {
        RouteStatus::FIN_WAIT2
    } else if c == '6' {
        RouteStatus::TIME_WAIT
    } else if c == '7' {
        RouteStatus::CLOSED
    } else if c == '8' {
        RouteStatus::CLOSE_WAIT
    } else if c == '9' {
        RouteStatus::LAST_ACKNOWLEDGMENT
    } else if c == 'A' {
        RouteStatus::LISTENING
    } else if c == 'B' {
        RouteStatus::CLOSING
    } else {
        RouteStatus::NEW_SYN_RECEIVED
    }
}

impl RouteStatus {
    /// The state that a code of a TCP socket table stands for.
    pub fn fromTcpCode(code: &str) -> (status: RouteStatus)
        ensures
            status == status_of_code(code@),
    {
        let chars = chars_of(code);
        statusOfCode(&chars)
    }

    /// The name of the state, in lower case.
    pub open spec fn name(self) -> Seq<char> {
        match self {
            RouteStatus::ESTABLISHED => "established"@,
            RouteStatus::SYN_SENT => "syn sent"@,
            RouteStatus::SYN_RECEIVED => "syn received"@,
            RouteStatus::FIN_WAIT1 => "fin wait 1"@,
            RouteStatus::FIN_WAIT2 => "fin wait 2"@,
            RouteStatus::TIME_WAIT => "time wait"@,
            RouteStatus::CLOSED => "closed"@,
            RouteStatus::CLOSE_WAIT => "close wait"@,
            RouteStatus::LAST_ACKNOWLEDGMENT => "last acknowledgment"@,
            RouteStatus::LISTENING => "listening"@,
            RouteStatus::CLOSING => "closing"@,
            RouteStatus::NEW_SYN_RECEIVED => "new syn received"@,
        }
    }

    pub fn toString(&self) -> (name: String)
        ensures
            name@ == self.name(),
    {
        match self {
            RouteStatus::ESTABLISHED => "established".to_owned(),
            RouteStatus::SYN_SENT => "syn sent".to_owned(),
            RouteStatus::SYN_RECEIVED => "syn received".to_owned(),
            RouteStatus::FIN_WAIT1 => "fin wait 1".to_owned(),
            RouteStatus::FIN_WAIT2 => "fin wait 2".to_owned(),
            RouteStatus::TIME_WAIT => "time wait".to_owned(),
            RouteStatus::CLOSED => "closed".to_owned(),
            RouteStatus::CLOSE_WAIT => "close wait".to_owned(),
            RouteStatus::LAST_ACKNOWLEDGMENT => "last acknowledgment".to_owned(),
            RouteStatus::LISTENING => "listening".to_owned(),
            RouteStatus::CLOSING => "closing".to_owned(),
            RouteStatus::NEW_SYN_RECEIVED => "new syn received".to_owned(),
        }
    }
}

/// Every code but the eleven known ones stands for the remaining state.
pub proof fn lemma_unknown_code(code: Seq<char>)
    requires
        code != seq!['0', '1'],
        code != seq!['0', '2'],
        code != seq!['0', '3'],
        code != seq!['0', '4'],
        code != seq!['0', '5'],
        code != seq!['0', '6'],
        code != seq!['0', '7'],
        code != seq!['0', '8'],
        code != seq!['0', '9'],
        code != seq!['0', 'A'],
        code != seq!['0', 'B'],
    ensures
        status_of_code(code) == RouteStatus::NEW_SYN_RECEIVED,
{
    if code.len() == 2 && code[0] == '0' {
        let c = code[1];
        assert(code =~= seq!['0', c]);
    }
}

/// Whether `text` writes bytes in hexadecimal: two digits for each.
pub open spec fn is_hex_bytes(text: Seq<char>) -> bool {
    text.len() % 2 == 0 && all_hex_digits(text)
}

/// The byte that the two hexadecimal digits at `at` of `text` write.
pub open spec fn hex_pair(text: Seq<char>, at: int) -> u8 {
    (hex_digit_of(text[at]) * 16 + hex_digit_of(text[at + 1])) as u8
}

/// The bytes that `text` writes in hexadecimal, in the order of the text.
pub open spec fn hex_bytes(text: Seq<char>) -> Seq<u8> {
    Seq::new(text.len() / 2, |k: int| hex_pair(text, 2 * k))
}

/// The decimal notations of `bytes`, joined by `separator`.
pub open spec fn joined_decimals(bytes: Seq<u8>, separator: Seq<char>) -> Seq<char> {
    join(Seq::new(bytes.len(), |i: int| decimal(bytes[i] as nat)), separator)
}

/// The address that a field of a socket table writes: the kernel writes the
/// bytes of an address last byte first, so they are read in reverse.
pub open spec fn address_of(field: Seq<char>, separator: Seq<char>) -> Seq<char> {
    joined_decimals(hex_bytes(field).reverse(), separator)
}

/// Whether `field` writes a port: four hexadecimal digits.
pub open spec fn is_port_field(field: Seq<char>) -> bool {
    field.len() == 4 && all_hex_digits(field)
}

/// The port that a field of a socket table writes: its first two digits
/// are the low byte, its last two the high byte.
pub open spec fn port_of(field: Seq<char>) -> u16 {
    (hex_pair(field, 2) * 256 + hex_pair(field, 0)) as u16
}

/// Reads the byte that the two hexadecimal digits at `at` of `text` write.
fn hexPair(text: &Vec<char>, at: usize) -> (byte: u8)
    requires
        at + 2 <= text.len(),
        all_hex_digits(text@),
    ensures
        byte == hex_pair(text@, at as int),
{
    assert(crate::text::is_hex_digit(text@[at as int]));
    assert(crate::text::is_hex_digit(text@[at + 1]));
    let high = hexDigit(text[at]);
    let low = hexDigit(text[at + 1]);
    match (high, low) {
        (Some(h), Some(l)) => h * 16 + l,
        _ => 0,
    }
}

/// Writes in decimal the bytes that `field` writes in hexadecimal, last
/// byte first, joined by `separator`.
pub fn addressText(field: &Vec<char>, separator: &Vec<char>) -> (address: Vec<char>)
    requires
        is_hex_bytes(field@),
    ensures
        address@ == address_of(field@, separator@),
{
    let count: usize = field.len() / 2;
    let ghost bytes = hex_bytes(field@).reverse();
    let ghost wanted = Seq::new(bytes.len(), |i: int| decimal(bytes[i] as nat));
    let mut chunks: Vec<Vec<char>> = Vec::new();
    let mut left: usize = count;
    while left > 0
        invariant
            left <= count,
            count == field@.len() / 2,
            field@.len() <= usize::MAX,
            is_hex_bytes(field@),
            bytes == hex_bytes(field@).reverse(),
            wanted == Seq::new(bytes.len(), |i: int| decimal(bytes[i] as nat)),
            views(chunks@) == wanted.take(count - left),
        decreases left,
    {
        let ghost before = chunks@;
        left -= 1;
        let byte = hexPair(field, 2 * left);
        chunks.push(decimalText(byte as u64));
        proof {
            assert(bytes[count - left - 1] == hex_bytes(field@)[left as int]);
            assert(views(chunks@) =~= views(before).push(decimal(byte as nat)));
            assert(wanted.take(count - left) =~= wanted.take(count - left - 1).push(
                decimal(byte as nat),
            ));
        }
    }
    proof {
        assert(wanted.take(count as int) =~= wanted);
    }
    joinText(&chunks, separator)
}

/// Decodes an address of a socket table.
pub fn bytesToAddress(address: String, separator: &str) -> (decoded: String)
    requires
        is_hex_bytes(address@),
    ensures
        decoded@ == address_of(address@, separator@),
{
    let field = chars_of(address.as_str());
    let sep = chars_of(separator);
    let out = addressText(&field, &sep);
    string_of(&out)
}

/// Tells whether `text` writes bytes in hexadecimal.
pub fn isHexBytes(text: &str) -> (ok: bool)
    ensures
        ok == is_hex_bytes(text@),
{
    let chars = chars_of(text);
    chars.len() % 2 == 0 && allHexDigits(&chars)
}

/// Reads the port that the four hexadecimal digits of `field` write.
pub fn portNumber(field: &Vec<char>) -> (port: u16)
    requires
        is_port_field(field@),
    ensures
        port == port_of(field@),
{
    let low: u16 = hexPair(field, 0) as u16;
    let high: u16 = hexPair(field, 2) as u16;
    high * 256 + low
}

/// Decodes a port of a socket table.
pub fn bytesToPort(port: String) -> (decoded: u16)
    requires
        is_port_field(port@),
    ensures
        decoded == port_of(port@),
        decoded == hex_pair(port@, 2) * 256 + hex_pair(port@, 0),
{
    let field = chars_of(port.as_str());
    portNumber(&field)
}

/// Tells whether `text` writes a port.
pub fn isPortField(text: &str) -> (ok: bool)
    ensures
        ok == is_port_field(text@),
{
    let chars = chars_of(text);
    chars.len() == 4 && allHexDigits(&chars)
}

/// The upper-case hexadecimal digit that writes `d`.
pub open spec fn hex_char(d: nat) -> char
    recommends
        d < 16,
{
    if d < 10 {
        (0x30 + d) as u8 as char
    } else {
        (0x41 + d - 10) as u8 as char
    }
}

/// `bytes` written in hexadecimal, two upper-case digits for each, in
/// their order.
pub open spec fn hex_text(bytes: Seq<u8>) -> Seq<char> {
    Seq::new(
        2 * bytes.len(),
        |i: int|
            if i % 2 == 0 {
                hex_char((bytes[i / 2] / 16) as nat)
            } else {
                hex_char((bytes[i / 2] % 16) as nat)
            },
    )
}

/// Bytes written in hexadecimal are read back from it unchanged.
pub proof fn lemma_hex_text_round_trip(bytes: Seq<u8>)
    ensures
        is_hex_bytes(hex_text(bytes)),
        hex_bytes(hex_text(bytes)) == bytes,
{
    let text = hex_text(bytes);
    assert forall|d: nat| d < 16 implies crate::text::is_hex_digit(#[trigger] hex_char(d))
        && hex_digit_of(hex_char(d)) == d by {}
    assert forall|i: int| 0 <= i < text.len() implies crate::text::is_hex_digit(
        #[trigger] text[i],
    ) by {
        let b = bytes[i / 2];
        assert(crate::text::is_hex_digit(hex_char((b / 16) as nat)));
        assert(crate::text::is_hex_digit(hex_char((b % 16) as nat)));
    }
    assert forall|k: int| 0 <= k < bytes.len() implies #[trigger] hex_bytes(text)[k]
        == bytes[k] by {
        let b = bytes[k];
        assert(text[2 * k] == hex_char((b / 16) as nat));
        assert(text[2 * k + 1] == hex_char((b % 16) as nat));
        assert(hex_digit_of(hex_char((b / 16) as nat)) == b / 16);
        assert(hex_digit_of(hex_char((b % 16) as nat)) == b % 16);
    }
    assert(hex_bytes(text) =~= bytes);
}

/// Decoding an address gives back the bytes that were encoded: where the
/// bytes of an address are written in hexadecimal last byte first, as the
/// kernel writes them, the address is decoded to the decimal notations of
/// its bytes in their order.
pub proof fn lemma_address_round_trip(octets: Seq<u8>, separator: Seq<char>)
    ensures
        is_hex_bytes(hex_text(octets.reverse())),
        address_of(hex_text(octets.reverse()), separator) == joined_decimals(octets, separator),
{
    lemma_hex_text_round_trip(octets.reverse());
    assert(octets.reverse().reverse() =~= octets);
}

/// Represents a network route and its type, containing local address+port, remote address+port and connection status
#[derive(Debug, Clone)]
pub struct NetworkRoute {
    pub routeType: RouteType,
    pub localAddress: String,
    pub localPort: u16,
    pub remoteAddress: String,
    pub remotePort: u16,
    pub routeStatus: RouteStatus,
}

/// What a `NetworkRoute` holds, its addresses as sequences of characters.
pub struct RouteView {
    pub routeType: RouteType,
    pub localAddress: Seq<char>,
    pub localPort: u16,
    pub remoteAddress: Seq<char>,
    pub remotePort: u16,
    pub routeStatus: RouteStatus,
}

impl View for NetworkRoute {
    type V = RouteView;

    open spec fn view(&self) -> RouteView {
        RouteView {
            routeType: self.routeType,
            localAddress: self.localAddress@,
            localPort: self.localPort,
            remoteAddress: self.remoteAddress@,
            remotePort: self.remotePort,
            routeStatus: self.routeStatus,
        }
    }
}

/// The views of a list of routes.
pub open spec fn route_views(routes: Seq<NetworkRoute>) -> Seq<RouteView> {
    Seq::new(routes.len(), |i: int| routes[i]@)
}

/// Whether `field` writes an endpoint: an address in hexadecimal, a colon
/// and a port.
pub open spec fn is_endpoint(field: Seq<char>) -> bool {
    let parts = split(field, ":"@);
    parts.len() >= 2 && is_hex_bytes(parts[0]) && is_port_field(parts[1])
}

/// The address of an endpoint.
pub open spec fn endpoint_address(field: Seq<char>, separator: Seq<char>) -> Seq<char> {
    address_of(split(field, ":"@)[0], separator)
}

/// The port of an endpoint.
pub open spec fn endpoint_port(field: Seq<char>) -> u16 {
    port_of(split(field, ":"@)[1])
}

/// The state of a socket of a table of kind `routeType` whose state field
/// is `code`: the tables of UDP sockets keep no state, and all their
/// sockets count as listening.
pub open spec fn status_for(routeType: RouteType, code: Seq<char>) -> RouteStatus {
    if routeType == RouteType::TCP || routeType == RouteType::TCP6 {
        status_of_code(trim(code))
    } else {
        RouteStatus::LISTENING
    }
}

/// Whether a line of a socket table describes a socket: it holds a colon.
/// The heading of a table and its blank lines do not.
pub open spec fn is_route_line(line: Seq<char>) -> bool {
    contains(line, ":"@)
}

/// The fields of a line of a socket table.
pub open spec fn route_fields(line: Seq<char>) -> Seq<Seq<char>> {
    split(trim(line), " "@)
}

/// Whether a line that describes a socket has the fields of one: after its
/// number come the local endpoint, the remote endpoint and the state.
pub open spec fn route_line_ok(line: Seq<char>) -> bool {
    let fields = route_fields(line);
    fields.len() >= 4 && is_endpoint(fields[1]) && is_endpoint(fields[2])
}

/// The route that a line of a socket table describes.
pub open spec fn route_of_line(
    line: Seq<char>,
    separator: Seq<char>,
    routeType: RouteType,
) -> RouteView {
    let fields = route_fields(line);
    RouteView {
        routeType: routeType,
        localAddress: endpoint_address(fields[1], separator),
        localPort: endpoint_port(fields[1]),
        remoteAddress: endpoint_address(fields[2], separator),
        remotePort: endpoint_port(fields[2]),
        routeStatus: status_for(routeType, fields[3]),
    }
}

/// Whether every line among `lines` that describes a socket has the
/// fields of one.
pub open spec fn route_lines_ok(lines: Seq<Seq<char>>) -> bool {
    forall|i: int|
        0 <= i < lines.len() && is_route_line(#[trigger] lines[i]) ==> route_line_ok(lines[i])
}

/// Whether a socket table can be decoded.
pub open spec fn routes_text_ok(file: Seq<char>) -> bool {
    route_lines_ok(split(file, "\n"@))
}

/// The routes that `lines` describe, in their order.
pub open spec fn routes_of_lines(
    lines: Seq<Seq<char>>,
    separator: Seq<char>,
    routeType: RouteType,
) -> Seq<RouteView>
    decreases lines.len(),
{
    if lines.len() == 0 {
        Seq::empty()
    } else {
        let before = routes_of_lines(lines.drop_last(), separator, routeType);
        if is_route_line(lines.last()) {
            before.push(route_of_line(lines.last(), separator, routeType))
        } else {
            before
        }
    }
}

/// The routes that a socket table describes.
pub open spec fn routes_of(
    file: Seq<char>,
    separator: Seq<char>,
    routeType: RouteType,
) -> Seq<RouteView> {
    routes_of_lines(split(file, "\n"@), separator, routeType)
}

/// Decodes an endpoint, if `field` writes one.
fn endpointOf(field: &Vec<char>, separator: &Vec<char>) -> (endpoint: Option<(String, u16)>)
    ensures
        endpoint is Some <==> is_endpoint(field@),
        endpoint matches Some((address, port)) ==> address@ == endpoint_address(
            field@,
            separator@,
        ) && port == endpoint_port(field@),
{
    let colon = chars_of(":");
    proof {
        reveal_strlit(":");
    }
    let parts = splitText(field, &colon);
    assert(views(parts@).len() == parts@.len());
    if parts.len() < 2 {
        return None;
    }
    assert(views(parts@)[0] == parts@[0]@);
    assert(views(parts@)[1] == parts@[1]@);
    let address = &parts[0];
    let port = &parts[1];
    if address.len() % 2 != 0 || !allHexDigits(address) {
        return None;
    }
    if port.len() != 4 || !allHexDigits(port) {
        return None;
    }
    let decoded = addressText(address, separator);
    Some((string_of(&decoded), portNumber(port)))
}

/// Decodes a line that describes a socket, if it has the fields of one.
fn routeOfLine(line: &Vec<char>, separator: &Vec<char>, routeType: RouteType) -> (route: Option<
    NetworkRoute,
>)
    ensures
        route is Some <==> route_line_ok(line@),
        route matches Some(r) ==> r@ == route_of_line(line@, separator@, routeType),
{
    let space = chars_of(" ");
    proof {
        reveal_strlit(" ");
    }
    let trimmed = trimText(line);
    let fields = splitText(&trimmed, &space);
    assert(views(fields@).len() == fields@.len());
    if fields.len() < 4 {
        return None;
    }
    assert(views(fields@)[1] == fields@[1]@);
    assert(views(fields@)[2] == fields@[2]@);
    assert(views(fields@)[3] == fields@[3]@);
    let local = endpointOf(&fields[1], separator);
    let remote = endpointOf(&fields[2], separator);
    match (local, remote) {
        (Some((localAddress, localPort)), Some((remoteAddress, remotePort))) => {
            let status = match routeType {
                RouteType::TCP | RouteType::TCP6 => {
                    let code = trimText(&fields[3]);
                    statusOfCode(&code)
                },
                _ => RouteStatus::LISTENING,
            };
            Some(
                NetworkRoute {
                    routeType: routeType,
                    localAddress: localAddress,
                    localPort: localPort,
                    remoteAddress: remoteAddress,
                    remotePort: remotePort,
                    routeStatus: status,
                },
            )
        },
        _ => None,
    }
}

/// Tells whether a socket table can be decoded.
pub fn routesTextOk(file: &str) -> (ok: bool)
    ensures
        ok == routes_text_ok(file@),
{
    let text = chars_of(file);
    let newline = chars_of("\n");
    let colon = chars_of(":");
    let separator = chars_of(".");
    proof {
        reveal_strlit("\n");
    }
    let lines = splitText(&text, &newline);
    let ghost all = views(lines@);
    let mut i: usize = 0;
    while i < lines.len()
        invariant
            i <= lines.len(),
            all == views(lines@),
            all == split(file@, "\n"@),
            colon@ == ":"@,
            route_lines_ok(all.take(i as int)),
        decreases lines.len() - i,
    {
        assert(all[i as int] == lines@[i as int]@);
        if containsPattern(&lines[i], &colon) {
            if routeOfLine(&lines[i], &separator, RouteType::TCP).is_none() {
                assert(is_route_line(all[i as int]) && !route_line_ok(all[i as int]));
                return false;
            }
        }
        i += 1;
        assert forall|k: int| 0 <= k < i && is_route_line(#[trigger] all.take(i as int)[k])
            implies route_line_ok(all.take(i as int)[k]) by {
            if k < i - 1 {
                assert(all.take(i - 1)[k] == all[k]);
            }
        }
    }
    assert(all.take(i as int) =~= all);
    true
}

/// Decodes a socket table of kind `routeType`: one route for each line
/// that describes a socket, in the order of the lines.
pub fn getRoutes(file: String, separator: &str, routeType: RouteType) -> (routes: Vec<
    NetworkRoute,
>)
    requires
        routes_text_ok(file@),
    ensures
        route_views(routes@) == routes_of(file@, separator@, routeType),
{
    let text = chars_of(file.as_str());
    let newline = chars_of("\n");
    let colon = chars_of(":");
    let sep = chars_of(separator);
    proof {
        reveal_strlit("\n");
    }
    let lines = splitText(&text, &newline);
    let ghost all = views(lines@);
    let mut routes: Vec<NetworkRoute> = Vec::new();
    let mut i: usize = 0;
    while i < lines.len()
        invariant
            i <= lines.len(),
            all == views(lines@),
            colon@ == ":"@,
            route_lines_ok(all),
            route_views(routes@) == routes_of_lines(all.take(i as int), sep@, routeType),
        decreases lines.len() - i,
    {
        let ghost before = routes@;
        proof {
            assert(all[i as int] == lines@[i as int]@);
            assert(all.take(i + 1).drop_last() =~= all.take(i as int));
            assert(all.take(i + 1).last() == all[i as int]);
        }
        if containsPattern(&lines[i], &colon) {
            let route = routeOfLine(&lines[i], &sep, routeType);
            routes.push(route.unwrap());
            proof {
                assert(route_views(routes@) =~= route_views(before).push(route.unwrap()@));
            }
        }
        i += 1;
    }
    proof {
        assert(all.take(i as int) =~= all);
    }
    routes
}

/// Decodes the four socket tables of the kernel, in this order: TCP and
/// UDP over IPv4, whose addresses are written with dots, then TCP and UDP
/// over IPv6, whose addresses are written with colons.
pub fn networkRoutes(tcp: String, udp: String, tcp6: String, udp6: String) -> (routes: Vec<
    NetworkRoute,
>)
    requires
        routes_text_ok(tcp@),
        routes_text_ok(udp@),
        routes_text_ok(tcp6@),
        routes_text_ok(udp6@),
    ensures
        route_views(routes@) == routes_of(tcp@, "."@, RouteType::TCP) + routes_of(
            udp@,
            "."@,
            RouteType::UDP,
        ) + routes_of(tcp6@, ":"@, RouteType::TCP6) + routes_of(udp6@, ":"@, RouteType::UDP6),
{
    let mut routes: Vec<NetworkRoute> = Vec::new();
    let mut first = getRoutes(tcp, ".", RouteType::TCP);
    let mut second = getRoutes(udp, ".", RouteType::UDP);
    let mut third = getRoutes(tcp6, ":", RouteType::TCP6);
    let mut fourth = getRoutes(udp6, ":", RouteType::UDP6);
    let ghost a = first@;
    let ghost b = second@;
    let ghost c = third@;
    let ghost d = fourth@;
    routes.append(&mut first);
    routes.append(&mut second);
    routes.append(&mut third);
    routes.append(&mut fourth);
    proof {
        assert(routes@ =~= a + b + c + d);
        assert(route_views(a + b + c + d) =~= route_views(a) + route_views(b) + route_views(c)
            + route_views(d));
    }
    routes
}

/// Lines of which none describes a socket give no route.
pub proof fn lemma_routes_of_other_lines(
    lines: Seq<Seq<char>>,
    separator: Seq<char>,
    routeType: RouteType,
)
    requires
        forall|i: int| 0 <= i < lines.len() ==> !is_route_line(#[trigger] lines[i]),
    ensures
        routes_of_lines(lines, separator, routeType) == Seq::<RouteView>::empty(),
    decreases lines.len(),
{
    if lines.len() > 0 {
        let shorter = lines.drop_last();
        assert forall|i: int| 0 <= i < shorter.len() implies !is_route_line(
            #[trigger] shorter[i],
        ) by {
            assert(shorter[i] == lines[i]);
        }
        lemma_routes_of_other_lines(shorter, separator, routeType);
        assert(!is_route_line(lines[lines.len() - 1]));
    }
}

/// A socket table that holds no colon, such as an empty one or one that
/// holds its heading alone, can be decoded and gives no route.
pub proof fn lemma_table_without_sockets(
    file: Seq<char>,
    separator: Seq<char>,
    routeType: RouteType,
)
    requires
        !contains(file, ":"@),
    ensures
        routes_text_ok(file),
        routes_of(file, separator, routeType) == Seq::<RouteView>::empty(),
{
    let lines = split(file, "\n"@);
    assert forall|i: int| 0 <= i < lines.len() implies !is_route_line(#[trigger] lines[i]) by {
        if is_route_line(lines[i]) {
            crate::text::lemma_contains_piece(file, "\n"@, i, ":"@);
        }
    }
    lemma_routes_of_other_lines(lines, separator, routeType);
}

/// An empty socket table can be decoded and gives no route.
pub proof fn lemma_empty_table(separator: Seq<char>, routeType: RouteType)
    ensures
        routes_text_ok(Seq::<char>::empty()),
        routes_of(Seq::<char>::empty(), separator, routeType) == Seq::<RouteView>::empty(),
{
    reveal_strlit(":");
    let file = Seq::<char>::empty();
    assert forall|at: int| !crate::text::occurs_at(file, ":"@, at) by {}
    lemma_table_without_sockets(file, separator, routeType);
}

/// Whether a line of the table of interface traffic is the line of an
/// interface: it holds a colon.
pub open spec fn is_interface_line(line: Seq<char>) -> bool {
    contains(line, ":"@)
}

/// The words of a line of an interface that write its counters: those that
/// are not empty and hold no colon.
pub open spec fn traffic_words(line: Seq<char>) -> Seq<Seq<char>> {
    unmarked_words(split(line, " "@), ":"@)
}

/// The number that a counter writes; 0 where it writes none that fits the
/// machine word.
pub open spec fn counter_of(word: Seq<char>) -> nat {
    match parse_number(word, usize::MAX as nat) {
        Some(n) => n,
        None => 0,
    }
}

/// The bytes that the interface of `line` has received: its first counter.
pub open spec fn received_of(line: Seq<char>) -> nat {
    counter_of(traffic_words(line)[0])
}

/// The bytes that the interface of `line` has sent: its ninth counter.
pub open spec fn sent_of(line: Seq<char>) -> nat {
    counter_of(traffic_words(line)[8])
}

/// The bytes that the interfaces of `lines` have received, all together.
pub open spec fn total_received(lines: Seq<Seq<char>>) -> nat
    decreases lines.len(),
{
    if lines.len() == 0 {
        0
    } else if is_interface_line(lines.last()) {
        total_received(lines.drop_last()) + received_of(lines.last())
    } else {
        total_received(lines.drop_last())
    }
}

/// The bytes that the interfaces of `lines` have sent, all together.
pub open spec fn total_sent(lines: Seq<Seq<char>>) -> nat
    decreases lines.len(),
{
    if lines.len() == 0 {
        0
    } else if is_interface_line(lines.last()) {
        total_sent(lines.drop_last()) + sent_of(lines.last())
    } else {
        total_sent(lines.drop_last())
    }
}

/// Whether each line of an interface among `lines` holds nine counters.
pub open spec fn traffic_lines_ok(lines: Seq<Seq<char>>) -> bool {
    forall|i: int|
        0 <= i < lines.len() && is_interface_line(#[trigger] lines[i]) ==> traffic_words(
            lines[i],
        ).len() >= 9
}

/// Whether the traffic of all interfaces can be read from the table of
/// interface traffic: each line of an interface holds nine counters, and
/// both totals fit the machine word.
pub open spec fn traffic_ok(stats: Seq<char>) -> bool {
    let lines = split(stats, "\n"@);
    &&& traffic_lines_ok(lines)
    &&& total_received(lines) <= usize::MAX
    &&& total_sent(lines) <= usize::MAX
}

/// The totals of some lines are at most the totals of all of them.
pub proof fn lemma_totals_grow(lines: Seq<Seq<char>>, fewer: int)
    requires
        0 <= fewer <= lines.len(),
    ensures
        total_received(lines.take(fewer)) <= total_received(lines),
        total_sent(lines.take(fewer)) <= total_sent(lines),
    decreases lines.len(),
{
    if fewer == lines.len() {
        assert(lines.take(fewer) =~= lines);
    } else {
        lemma_totals_grow(lines.drop_last(), fewer);
        assert(lines.drop_last().take(fewer) =~= lines.take(fewer));
    }
}

/// Reads the number that a counter writes.
fn counterOf(word: &Vec<char>) -> (n: usize)
    ensures
        n == counter_of(word@),
{
    match parseNumber(word, usize::MAX as u64) {
        Some(n) => n as usize,
        None => 0,
    }
}

/// Adds up the traffic of all interfaces, if it can be read.
fn totalTraffic(stats: &str) -> (totals: Option<(usize, usize)>)
    ensures
        totals is Some <==> traffic_ok(stats@),
        totals matches Some((down, up)) ==> down == total_received(split(stats@, "\n"@)) && up
            == total_sent(split(stats@, "\n"@)),
{
    let text = chars_of(stats);
    let newline = chars_of("\n");
    let space = chars_of(" ");
    let colon = chars_of(":");
    proof {
        reveal_strlit("\n");
        reveal_strlit(" ");
    }
    let lines = splitText(&text, &newline);
    let ghost all = views(lines@);
    let mut down: usize = 0;
    let mut up: usize = 0;
    let mut i: usize = 0;
    while i < lines.len()
        invariant
            i <= lines.len(),
            all == views(lines@),
            all == split(stats@, "\n"@),
            colon@ == ":"@,
            space@ == " "@,
            space@.len() > 0,
            traffic_lines_ok(all.take(i as int)),
            down == total_received(all.take(i as int)),
            up == total_sent(all.take(i as int)),
        decreases lines.len() - i,
    {
        proof {
            assert(all[i as int] == lines@[i as int]@);
            assert(all.take(i + 1).drop_last() =~= all.take(i as int));
            assert(all.take(i + 1).last() == all[i as int]);
            lemma_totals_grow(all, i + 1);
        }
        if containsPattern(&lines[i], &colon) {
            let chunks = splitText(&lines[i], &space);
            let words = unmarkedWords(&chunks, &colon);
            assert(views(words@).len() == words@.len());
            if words.len() < 9 {
                assert(is_interface_line(all[i as int]) && traffic_words(all[i as int]).len() < 9);
                return None;
            }
            assert(views(words@)[0] == words@[0]@);
            assert(views(words@)[8] == words@[8]@);
            let received = counterOf(&words[0]);
            let sent = counterOf(&words[8]);
            if received > usize::MAX - down || sent > usize::MAX - up {
                return None;
            }
            down += received;
            up += sent;
        }
        i += 1;
        assert forall|k: int| 0 <= k < i && is_interface_line(#[trigger] all.take(i as int)[k])
            implies traffic_words(all.take(i as int)[k]).len() >= 9 by {
            if k < i - 1 {
                assert(all.take(i - 1)[k] == all[k]);
            }
        }
    }
    assert(all.take(i as int) =~= all);
    Some((down, up))
}

/// Tells whether the traffic of all interfaces can be read from the table
/// of interface traffic.
pub fn trafficOk(stats: &str) -> (ok: bool)
    ensures
        ok == traffic_ok(stats@),
{
    totalTraffic(stats).is_some()
}

/// The bytes that all interfaces together have received and sent, from
/// the content of the table of interface traffic of the kernel.
pub fn getRate(stats: &str) -> (totals: (usize, usize))
    requires
        traffic_ok(stats@),
    ensures
        totals.0 == total_received(split(stats@, "\n"@)),
        totals.1 == total_sent(split(stats@, "\n"@)),
{
    totalTraffic(stats).unwrap()
}

/// The kind of a network interface
#[derive(Debug, Clone, Copy, PartialEq, Eq, Structural)]
pub enum InterfaceType {
    Physical,
    Virtual,
}

/// Contains information about network interfaces
#[derive(Debug, Clone)]
pub struct NetworkInterface {
    pub name: String,
    pub macAddress: String,
    pub interfaceType: InterfaceType,
}

/// Whether a directory of an interface shows it to be a physical one: it
/// holds an entry `phydev` or `phy80211`.
pub open spec fn is_physical(entries: Seq<Seq<char>>) -> bool {
    exists|i: int|
        0 <= i < entries.len() && (#[trigger] entries[i] == "phydev"@ || entries[i]
            == "phy80211"@)
}

/// The kind of an interface whose directory holds `entries`.
pub open spec fn interface_type(entries: Seq<Seq<char>>) -> InterfaceType {
    if is_physical(entries) {
        InterfaceType::Physical
    } else {
        InterfaceType::Virtual
    }
}

/// The description of the interface `name`, from the content of the file
/// that holds its hardware address and the names of the entries of its
/// directory.
pub fn networkInterface(name: String, address: &str, entries: &Vec<String>) -> (interface:
    NetworkInterface)
    ensures
        interface.name == name,
        interface.macAddress@ == trim(address@),
        interface.interfaceType == interface_type(string_views(entries@)),
{
    let wired = chars_of("phydev");
    let wireless = chars_of("phy80211");
    let ghost all = string_views(entries@);
    let mut kind = InterfaceType::Virtual;
    let mut i: usize = 0;
    while i < entries.len() && kind == InterfaceType::Virtual
        invariant
            i <= entries.len(),
            all == string_views(entries@),
            wired@ == "phydev"@,
            wireless@ == "phy80211"@,
            kind == interface_type(all.take(i as int)),
        decreases entries.len() - i,
    {
        assert(all[i as int] == entries@[i as int]@);
        let entry = chars_of(entries[i].as_str());
        let ghost shorter = all.take(i as int);
        let ghost longer = all.take(i + 1);
        if sameText(&entry, &wired) || sameText(&entry, &wireless) {
            kind = InterfaceType::Physical;
            assert(longer[i as int] == all[i as int]);
        } else {
            assert forall|k: int| 0 <= k < longer.len() implies !(#[trigger] longer[k]
                == "phydev"@ || longer[k] == "phy80211"@) by {
                if k < i {
                    assert(shorter[k] == longer[k]);
                }
            }
        }
        i += 1;
    }
    proof {
        if kind == InterfaceType::Physical {
            let shorter = all.take(i as int);
            let k = choose|k: int|
                0 <= k < shorter.len() && (#[trigger] shorter[k] == "phydev"@ || shorter[k]
                    == "phy80211"@);
            assert(all[k] == shorter[k]);
        } else {
            assert(all.take(i as int) =~= all);
        }
    }
    NetworkInterface { name: name, macAddress: trimmed(address), interfaceType: kind }
}

} // verus!
