use sysutil::network::{
    bytesToAddress, bytesToPort, getRoutes, isHexBytes, isPortField, networkRoutes,
    routesTextOk, RouteStatus, RouteType,
};
use sysutil::subnet::{
    bitsToByte, getIPv4, ipToBaseNetwork, isDottedQuad, makeNetmask, makeu8Vec, netmaskFromCidr,
    resolvedAddresses, routeTableOk, trieTextOk, IPv4,
};

const TCP: &str = "  sl  local_address rem_address   st tx_queue rx_queue tr tm->when retrnsmt   uid  timeout inode
   0: 0100007F:0277 00000000:0000 0A 00000000:00000000 00:00000000 00000000     0        0 23456 1 0000000000000000 100 0 0 10 0
   1: 0101A8C0:5000 0202A8C0:D431 01 00000000:00000000 00:00000000 00000000  1000        0 34567 1 0000000000000000 20 4 30 10 -1
   2: 0101A8C0:01BB 0302A8C0:1F90 06 00000000:00000000 00:00000000 00000000     0        0 0 3 0000000000000000";

const UDP: &str = "  sl  local_address rem_address   st tx_queue rx_queue tr tm->when retrnsmt   uid  timeout inode ref pointer drops
  10: 00000000:0035 00000000:0000 07 00000000:00000000 00:00000000 00000000     0        0 1234 2 0000000000000000 0";

const TCP6: &str = "  sl  local_address                         remote_address                        st tx_queue rx_queue tr tm->when retrnsmt   uid  timeout inode
   0: 00000000000000000000000001000000:1F90 00000000000000000000000000000000:0000 0A 00000000:00000000 00:00000000 00000000     0        0 5555 1 0000000000000000 100 0 0 10 0";

const UDP6: &str = "  sl  local_address                         remote_address                        st tx_queue rx_queue tr tm->when retrnsmt   uid  timeout inode ref pointer drops";

const FIB_TRIE: &str = "Main:
  +-- 0.0.0.0/0 3 0 5
     |-- 0.0.0.0
        /0 universe UNICAST
     +-- 127.0.0.0/8 2 0 2
        +-- 127.0.0.0/31 1 0 0
           |-- 127.0.0.0
              /8 host LOCAL
           |-- 127.0.0.1
              /32 host LOCAL
        |-- 127.255.255.255
           /32 link BROADCAST
     +-- 192.168.1.0/24 2 0 2
        +-- 192.168.1.0/28 2 0 2
           |-- 192.168.1.0
              /24 link UNICAST
           |-- 192.168.1.5
              /32 host LOCAL
        |-- 192.168.1.255
           /32 link BROADCAST
Local:
  +-- 0.0.0.0/0 3 0 5
     |-- 0.0.0.0
        /0 universe UNICAST";

const ROUTE: &str = "Iface\tDestination\tGateway \tFlags\tRefCnt\tUse\tMetric\tMask\t\tMTU\tWindow\tIRTT
eth0\t00000000\t0101A8C0\t0003\t0\t0\t100\t00000000\t0\t0\t0
eth0\t0001A8C0\t00000000\t0001\t0\t0\t100\t00FFFFFF\t0\t0\t0";

#[test]
fn address_is_read_in_reverse() {
    assert_eq!(bytesToAddress("0101A8C0".to_string(), "."), "192.168.1.1");
    assert_eq!(bytesToAddress("0100007F".to_string(), "."), "127.0.0.1");
    assert_eq!(bytesToAddress("00000000".to_string(), "."), "0.0.0.0");
    assert_eq!(bytesToAddress("ffffffff".to_string(), "."), "255.255.255.255");
    assert_eq!(bytesToAddress("0a0B".to_string(), "--"), "11--10");
    assert_eq!(bytesToAddress("7F".to_string(), "."), "127");
    assert_eq!(bytesToAddress("".to_string(), "."), "");
}

#[test]
fn address_of_sixteen_bytes() {
    assert_eq!(
        bytesToAddress("00000000000000000000000001000000".to_string(), ":"),
        "0:0:0:1:0:0:0:0:0:0:0:0:0:0:0:0"
    );
    assert_eq!(
        bytesToAddress("000102030405060708090A0B0C0D0E0F".to_string(), ":"),
        "15:14:13:12:11:10:9:8:7:6:5:4:3:2:1:0"
    );
}

#[test]
fn address_round_trip() {
    let octets = [192u8, 168, 1, 1];
    let mut field = String::new();
    for octet in octets.iter().rev() {
        field.push_str(&format!("{:02X}", octet));
    }
    assert_eq!(field, "0101A8C0");
    assert_eq!(bytesToAddress(field, "."), "192.168.1.1");
}

#[test]
fn hex_bytes_are_recognised() {
    assert!(isHexBytes("0101A8C0"));
    assert!(isHexBytes(""));
    assert!(isHexBytes("abCDef09"));
    assert!(!isHexBytes("0101A8C"));
    assert!(!isHexBytes("0101A8CG"));
    assert!(!isHexBytes("+1"));
    assert!(!isHexBytes("-1"));
    assert!(!isHexBytes("0x"));
}

#[test]
fn port_is_byte_swapped() {
    assert_eq!(bytesToPort("5000".to_string()), 80);
    assert_eq!(bytesToPort("0000".to_string()), 0);
    assert_eq!(bytesToPort("FFFF".to_string()), 65535);
    assert_eq!(bytesToPort("0277".to_string()), 0x7702);
    assert_eq!(bytesToPort("bb01".to_string()), 0x01BB);
    assert_eq!(bytesToPort("0100".to_string()), 1);
    assert_eq!(bytesToPort("0001".to_string()), 256);
}

#[test]
fn port_fields_are_recognised() {
    assert!(isPortField("5000"));
    assert!(isPortField("abcd"));
    assert!(!isPortField("500"));
    assert!(!isPortField("50000"));
    assert!(!isPortField("50 0"));
    assert!(!isPortField(""));
}

#[test]
fn tcp_codes() {
    assert_eq!(RouteStatus::fromTcpCode("01"), RouteStatus::ESTABLISHED);
    assert_eq!(RouteStatus::fromTcpCode("02"), RouteStatus::SYN_SENT);
    assert_eq!(RouteStatus::fromTcpCode("03"), RouteStatus::SYN_RECEIVED);
    assert_eq!(RouteStatus::fromTcpCode("04"), RouteStatus::FIN_WAIT1);
    assert_eq!(RouteStatus::fromTcpCode("05"), RouteStatus::FIN_WAIT2);
    assert_eq!(RouteStatus::fromTcpCode("06"), RouteStatus::TIME_WAIT);
    assert_eq!(RouteStatus::fromTcpCode("07"), RouteStatus::CLOSED);
    assert_eq!(RouteStatus::fromTcpCode("08"), RouteStatus::CLOSE_WAIT);
    assert_eq!(RouteStatus::fromTcpCode("09"), RouteStatus::LAST_ACKNOWLEDGMENT);
    assert_eq!(RouteStatus::fromTcpCode("0A"), RouteStatus::LISTENING);
    assert_eq!(RouteStatus::fromTcpCode("0B"), RouteStatus::CLOSING);
}

#[test]
fn unknown_tcp_codes() {
    for code in ["0C", "00", "10", "FF", "0a", "0b", "1A", "", "0", "0A ", "001", "A0"] {
        assert_eq!(RouteStatus::fromTcpCode(code), RouteStatus::NEW_SYN_RECEIVED);
    }
}

#[test]
fn status_names() {
    assert_eq!(RouteStatus::ESTABLISHED.toString(), "established");
    assert_eq!(RouteStatus::SYN_SENT.toString(), "syn sent");
    assert_eq!(RouteStatus::SYN_RECEIVED.toString(), "syn received");
    assert_eq!(RouteStatus::FIN_WAIT1.toString(), "fin wait 1");
    assert_eq!(RouteStatus::FIN_WAIT2.toString(), "fin wait 2");
    assert_eq!(RouteStatus::TIME_WAIT.toString(), "time wait");
    assert_eq!(RouteStatus::CLOSED.toString(), "closed");
    assert_eq!(RouteStatus::CLOSE_WAIT.toString(), "close wait");
    assert_eq!(RouteStatus::LAST_ACKNOWLEDGMENT.toString(), "last acknowledgment");
    assert_eq!(RouteStatus::LISTENING.toString(), "listening");
    assert_eq!(RouteStatus::CLOSING.toString(), "closing");
    assert_eq!(RouteStatus::NEW_SYN_RECEIVED.toString(), "new syn received");
}

#[test]
fn netmask_from_prefix_length() {
    assert_eq!(netmaskFromCidr(24), "255.255.255.0");
    assert_eq!(netmaskFromCidr(0), "0.0.0.0");
    assert_eq!(netmaskFromCidr(32), "255.255.255.255");
    assert_eq!(netmaskFromCidr(8), "255.0.0.0");
    assert_eq!(netmaskFromCidr(16), "255.255.0.0");
    assert_eq!(netmaskFromCidr(1), "128.0.0.0");
    assert_eq!(netmaskFromCidr(9), "255.128.0.0");
    assert_eq!(netmaskFromCidr(20), "255.255.240.0");
    assert_eq!(netmaskFromCidr(28), "255.255.255.240");
    assert_eq!(netmaskFromCidr(31), "255.255.255.254");
    assert_eq!(netmaskFromCidr(33), "255.255.255.255");
    assert_eq!(netmaskFromCidr(255), "255.255.255.255");
}

#[test]
fn netmask_is_the_top_bits() {
    for cidr in 0..=32u32 {
        let mask: u32 = if cidr == 0 { 0 } else { u32::MAX << (32 - cidr) };
        let expected = format!(
            "{}.{}.{}.{}",
            mask >> 24,
            (mask >> 16) & 0xFF,
            (mask >> 8) & 0xFF,
            mask & 0xFF
        );
        assert_eq!(netmaskFromCidr(cidr as u8), expected);
    }
}

#[test]
fn bits_pack_most_significant_first() {
    let mut bits = vec![1, 0, 0, 0, 0, 0, 0, 0];
    assert_eq!(bitsToByte(&mut bits), 128);
    assert_eq!(bits, vec![0, 0, 0, 0, 0, 0, 0, 1]);
    let mut bits = vec![1, 1, 1, 1, 0, 0, 0, 0];
    assert_eq!(bitsToByte(&mut bits), 240);
    let mut bits = vec![0, 0, 0, 0, 0, 1, 0, 1];
    assert_eq!(bitsToByte(&mut bits), 5);
    let mut bits = vec![1; 8];
    assert_eq!(bitsToByte(&mut bits), 255);
    let mut bits = vec![0; 8];
    assert_eq!(bitsToByte(&mut bits), 0);
    let mut bits = vec![1, 1, 0, 0, 0, 0, 0, 0, 1, 1];
    assert_eq!(bitsToByte(&mut bits), 3);
    assert_eq!(bits, vec![1, 1, 0, 0, 0, 0, 0, 0, 1, 1]);
    let mut bits = vec![1, 0, 0, 0, 0, 0, 0, 0, 0, 1, 0];
    assert_eq!(bitsToByte(&mut bits), 2);
    assert_eq!(bits, vec![0, 1, 0, 0, 0, 0, 0, 0, 0, 0, 1]);
}

#[test]
fn octets_of_an_address() {
    assert_eq!(makeu8Vec(&"192.168.1.5".to_string()), vec![192, 168, 1, 5]);
    assert_eq!(makeu8Vec(&"0.0.0.0".to_string()), vec![0, 0, 0, 0]);
    assert_eq!(makeu8Vec(&"255".to_string()), vec![255]);
    assert_eq!(makeu8Vec(&"+1.002.3.4.5".to_string()), vec![1, 2, 3, 4, 5]);
}

#[test]
fn dotted_quads_are_recognised() {
    assert!(isDottedQuad("192.168.1.5"));
    assert!(isDottedQuad("1.2.3.4.5"));
    assert!(isDottedQuad("+1.2.3.4"));
    assert!(isDottedQuad("001.2.3.4"));
    assert!(!isDottedQuad("192.168.1"));
    assert!(!isDottedQuad("192.168.1.256"));
    assert!(!isDottedQuad("192.168.1."));
    assert!(!isDottedQuad("192.168..1"));
    assert!(!isDottedQuad("-1.2.3.4"));
    assert!(!isDottedQuad("1.2.3.4 "));
    assert!(!isDottedQuad("a.b.c.d"));
    assert!(!isDottedQuad("+.2.3.4"));
    assert!(!isDottedQuad(""));
}

#[test]
fn base_network_masks_each_byte() {
    assert_eq!(
        ipToBaseNetwork(&"192.168.1.5".to_string(), &"255.255.255.0".to_string()),
        "192.168.1.0"
    );
    assert_eq!(
        ipToBaseNetwork(&"10.77.200.9".to_string(), &"255.255.240.0".to_string()),
        "10.77.192.0"
    );
    assert_eq!(
        ipToBaseNetwork(&"127.0.0.1".to_string(), &"255.0.0.0".to_string()),
        "127.0.0.0"
    );
    assert_eq!(ipToBaseNetwork(&"1.2.3.4".to_string(), &"0.0.0.0".to_string()), "0.0.0.0");
    assert_eq!(
        ipToBaseNetwork(&"1.2.3.4.9".to_string(), &"255.255.255.255.0".to_string()),
        "1.2.3.4"
    );
}

#[test]
fn netmask_between_address_and_broadcast() {
    assert_eq!(
        makeNetmask(&"192.168.1.5".to_string(), &"192.168.1.255".to_string()),
        "63.87.254.250"
    );
    assert_eq!(makeNetmask(&"0.0.0.0".to_string(), &"0.0.0.0".to_string()), "255.255.255.255");
    assert_eq!(
        makeNetmask(&"255.255.255.255".to_string(), &"255.255.255.255".to_string()),
        "0.0.0.0"
    );
}

#[test]
fn ipv4_is_written_with_its_prefix() {
    let ip = IPv4 {
        address: "192.168.1.5".to_string(),
        interface: "eth0".to_string(),
        broadcast: "192.168.1.255".to_string(),
        netmask: "255.255.255.0".to_string(),
        cidr: "24".to_string(),
    };
    assert_eq!(ip.to_string(), "192.168.1.5/24");
}

#[test]
fn routes_of_a_tcp_table() {
    assert!(routesTextOk(TCP));
    let routes = getRoutes(TCP.to_string(), ".", RouteType::TCP);
    assert_eq!(routes.len(), 3);
    assert_eq!(routes[0].routeType, RouteType::TCP);
    assert_eq!(routes[0].localAddress, "127.0.0.1");
    assert_eq!(routes[0].localPort, 0x7702);
    assert_eq!(routes[0].remoteAddress, "0.0.0.0");
    assert_eq!(routes[0].remotePort, 0);
    assert_eq!(routes[0].routeStatus, RouteStatus::LISTENING);
    assert_eq!(routes[1].localAddress, "192.168.1.1");
    assert_eq!(routes[1].localPort, 80);
    assert_eq!(routes[1].remoteAddress, "192.168.2.2");
    assert_eq!(routes[1].remotePort, 0x31D4);
    assert_eq!(routes[1].routeStatus, RouteStatus::ESTABLISHED);
    assert_eq!(routes[2].localPort, 0xBB01);
    assert_eq!(routes[2].remoteAddress, "192.168.2.3");
    assert_eq!(routes[2].remotePort, 0x901F);
    assert_eq!(routes[2].routeStatus, RouteStatus::TIME_WAIT);
}

#[test]
fn routes_of_a_udp_table_are_listening() {
    let routes = getRoutes(UDP.to_string(), ".", RouteType::UDP);
    assert_eq!(routes.len(), 1);
    assert_eq!(routes[0].routeType, RouteType::UDP);
    assert_eq!(routes[0].localAddress, "0.0.0.0");
    assert_eq!(routes[0].localPort, 0x3500);
    assert_eq!(routes[0].routeStatus, RouteStatus::LISTENING);
    let as_tcp = getRoutes(UDP.to_string(), ".", RouteType::TCP);
    assert_eq!(as_tcp[0].routeStatus, RouteStatus::CLOSED);
    let as_udp6 = getRoutes(UDP.to_string(), ":", RouteType::UDP6);
    assert_eq!(as_udp6[0].routeStatus, RouteStatus::LISTENING);
    assert_eq!(as_udp6[0].localAddress, "0:0:0:0");
}

#[test]
fn routes_of_an_empty_table() {
    assert!(routesTextOk(""));
    assert!(getRoutes(String::new(), ".", RouteType::TCP).is_empty());
    assert!(getRoutes("\n\n".to_string(), ".", RouteType::UDP).is_empty());
}

#[test]
fn routes_of_a_heading_alone() {
    assert!(routesTextOk(UDP6));
    assert!(getRoutes(UDP6.to_string(), ":", RouteType::UDP6).is_empty());
    let heading = TCP.lines().next().unwrap().to_string();
    assert!(getRoutes(heading, ".", RouteType::TCP).is_empty());
}

#[test]
fn malformed_tables_are_told_apart() {
    assert!(!routesTextOk("   0: 0100007F:0277 00000000:0000"));
    assert!(!routesTextOk("   0: 0100007F:027 00000000:0000 0A"));
    assert!(!routesTextOk("   0: 0100007F 00000000:0000 0A"));
    assert!(!routesTextOk("   0: 0100007G:0277 00000000:0000 0A"));
    assert!(!routesTextOk("   0: 0100007:0277 00000000:0000 0A"));
    assert!(!routesTextOk("   0:  0100007F:0277 00000000:0000 0A"));
    assert!(!routesTextOk(":"));
    assert!(routesTextOk("   0: 0100007F:0277 00000000:0000 0A"));
    assert!(routesTextOk("0: 7F:0277:9 :0000:: zz"));
    assert!(routesTextOk("no colon here"));
}

#[test]
fn all_four_tables_in_order() {
    let routes =
        networkRoutes(TCP.to_string(), UDP.to_string(), TCP6.to_string(), UDP6.to_string());
    assert_eq!(routes.len(), 5);
    assert_eq!(routes[0].routeType, RouteType::TCP);
    assert_eq!(routes[1].routeType, RouteType::TCP);
    assert_eq!(routes[2].routeType, RouteType::TCP);
    assert_eq!(routes[3].routeType, RouteType::UDP);
    assert_eq!(routes[3].localAddress, "0.0.0.0");
    assert_eq!(routes[3].routeStatus, RouteStatus::LISTENING);
    assert_eq!(routes[4].routeType, RouteType::TCP6);
    assert_eq!(routes[4].localAddress, "0:0:0:1:0:0:0:0:0:0:0:0:0:0:0:0");
    assert_eq!(routes[4].localPort, 0x901F);
    assert_eq!(routes[4].routeStatus, RouteStatus::LISTENING);
}

#[test]
fn addresses_of_a_trie() {
    assert!(trieTextOk(FIB_TRIE));
    let found = resolvedAddresses(FIB_TRIE);
    assert_eq!(found.len(), 1);
    assert_eq!(found[0].address, "192.168.1.5");
    assert_eq!(found[0].broadcast, "192.168.1.255");
    assert_eq!(found[0].netmask, "255.255.255.0");
    assert_eq!(found[0].cidr, "24");
}

#[test]
fn addresses_of_an_empty_trie() {
    assert!(trieTextOk(""));
    assert!(resolvedAddresses("").is_empty());
    assert!(resolvedAddresses("Main:\n  +-- 0.0.0.0/0 3 0 5").is_empty());
}

#[test]
fn irregular_tries_are_told_apart() {
    assert!(!trieTextOk("/24 link UNICAST"));
    assert!(!trieTextOk("/24 link UNICAST\n|-- 192.168.1.5"));
    assert!(!trieTextOk("/24 link UNICAST\n|-- 192.168.1.5\n/32 host LOCAL"));
    assert!(trieTextOk("/24 link UNICAST\n|-- 192.168.1.5\n/32 host LOCAL\n|-- 192.168.1.255"));
    assert!(!trieTextOk("/2x link UNICAST\n|-- 192.168.1.5\n/32 host LOCAL\n|-- 192.168.1.255"));
    assert!(!trieTextOk("/8 link UNICAST\n|-- 10.0.0.5\n/32 host LOCAL\n|-- 10.255.255.255"));
    assert!(!trieTextOk("/24 link UNICAST\n|-- 192.168.1\n/32 host LOCAL\n|-- 192.168.1.255"));
    assert!(!trieTextOk("/\u{e9}4 link UNICAST\n|-- 1.2.3.4\n/32 host LOCAL\n|-- 1.2.3.255"));
    assert!(trieTextOk("/24 link UNICAST\n+-- 192.168.1.0/28 2 0 2"));
    assert!(trieTextOk("x link UNICAST\n+-- 192.168.1.0/28 2 0 2"));
    assert!(!trieTextOk("x link UNICAST\n|-- 192.168.1.0\n/32 host LOCAL\n|-- 1.2.3.4"));
    assert!(!trieTextOk("/24 link UNICAST\n /16 link UNICAST"));
}

#[test]
fn bindings_of_the_devices() {
    assert!(routeTableOk(ROUTE));
    let bound = getIPv4(ROUTE.to_string(), FIB_TRIE.to_string());
    assert_eq!(bound.len(), 1);
    assert_eq!(bound[0].interface, "eth0");
    assert_eq!(bound[0].address, "192.168.1.5");
    assert_eq!(bound[0].broadcast, "192.168.1.255");
    assert_eq!(bound[0].netmask, "255.255.255.0");
    assert_eq!(bound[0].cidr, "24");
    assert_eq!(bound[0].to_string(), "192.168.1.5/24");
}

#[test]
fn an_address_is_bound_once() {
    let route = "Iface\tDestination\tGateway\neth0\t0001A8C0\t00000000\nwlan0\t0001A8C0\t00000000";
    let bound = getIPv4(route.to_string(), FIB_TRIE.to_string());
    assert_eq!(bound.len(), 1);
    assert_eq!(bound[0].interface, "eth0");
    assert_eq!(bound[0].address, "192.168.1.5");
}

#[test]
fn a_second_address_of_a_network_stays_free() {
    let trie = "/24 link UNICAST\n|-- 192.168.1.5\n/32 host LOCAL\n|-- 192.168.1.255\n\
                /24 link UNICAST\n|-- 192.168.1.6\n/32 host LOCAL\n|-- 192.168.1.255\n\
                /16 link UNICAST\n|-- 10.1.2.3\n/32 host LOCAL\n|-- 10.1.255.255";
    let found = resolvedAddresses(trie);
    assert_eq!(found.len(), 3);
    assert_eq!(found[1].address, "192.168.1.6");
    assert_eq!(found[2].netmask, "255.255.0.0");
    assert_eq!(found[2].cidr, "16");
    let route = "eth0\t0001A8C0\t0\nwlan0\t0001A8C0\t0\ntun0\t0000010A\t0\nlo\t0000007F\t0";
    let bound = getIPv4(route.to_string(), trie.to_string());
    assert_eq!(bound.len(), 2);
    assert_eq!(bound[0].interface, "eth0");
    assert_eq!(bound[0].address, "192.168.1.5");
    assert_eq!(bound[1].interface, "tun0");
    assert_eq!(bound[1].address, "10.1.2.3");
    assert_eq!(bound[1].broadcast, "10.1.255.255");
}

#[test]
fn bindings_of_an_empty_table() {
    assert!(routeTableOk(""));
    assert!(getIPv4(String::new(), FIB_TRIE.to_string()).is_empty());
    assert!(getIPv4(ROUTE.to_string(), String::new()).is_empty());
    assert!(getIPv4("Iface\tDestination\tGateway".to_string(), FIB_TRIE.to_string()).is_empty());
}

#[test]
fn malformed_route_tables_are_told_apart() {
    assert!(!routeTableOk("eth0"));
    assert!(!routeTableOk("eth0\t0001A8C"));
    assert!(!routeTableOk("eth0\t0001A8CX\t0"));
    assert!(routeTableOk("eth0\t 0001A8C0 \t0"));
    assert!(routeTableOk("eth0 Gateway"));
    assert!(routeTableOk("\n\n"));
}
