use sysutil::bus::{busInput, busTextOk, hexToUsize, BusInput};
use sysutil::cpu::{getStats, statsOk};
use sysutil::network::{getRate, networkInterface, trafficOk, InterfaceType};
use sysutil::ram::{memoryCounters, ramSize, ramSizeOk};
use sysutil::topology::{bankValue, countsUnits};

const DEVICES: &str = "I: Bus=0019 Vendor=0000 Product=0001 Version=0000
N: Name=\"Power Button\"
P: Phys=PNP0C0C/button/input0
S: Sysfs=/devices/LNXSYSTM:00/LNXSYBUS:00/PNP0C0C:00/input/input0
U: Uniq=
H: Handlers=kbd event0 
B: PROP=0
B: EV=3
B: KEY=10000000000000 0

I: Bus=0003 Vendor=046d Product=c52b Version=0111
N: Name=\"Logitech USB Receiver\"
P: Phys=usb-0000:00:14.0-2/input0
S: Sysfs=/devices/pci0000:00/0000:00:14.0/usb1/1-2/1-2:1.0/0003:046D:C52B.0001/input/input5
U: Uniq=ab12
H: Handlers=sysrq kbd leds event5 
B: PROP=0
B: EV=120013
B: KEY=1000000000007 ff9f207ac14057ff febeffdfffefffff fffffffffffffffe
B: MSC=10
B: LED=1f";

#[test]
fn hex_fields_weigh_the_last_digit_sixteen() {
    assert_eq!(hexToUsize("0019".to_string()), 400);
    assert_eq!(hexToUsize("1".to_string()), 16);
    assert_eq!(hexToUsize("f".to_string()), 240);
    assert_eq!(hexToUsize("F".to_string()), 240);
    assert_eq!(hexToUsize("10".to_string()), 256);
    assert_eq!(hexToUsize("".to_string()), 0);
    assert_eq!(hexToUsize("0".to_string()), 0);
    assert_eq!(hexToUsize("fffffff".to_string()), 0xFFFF_FFF0);
    assert_eq!(hexToUsize("120013".to_string()), 0x1200130);
}

#[test]
fn new_bus_input_is_blank() {
    let input = BusInput::new();
    assert_eq!(input.bus, 0);
    assert_eq!(input.vendor, 0);
    assert_eq!(input.product, 0);
    assert_eq!(input.version, 0);
    assert_eq!(input.name, "");
    assert_eq!(input.physicalPath, "");
    assert_eq!(input.sysfsPath, "");
    assert_eq!(input.uniqueIdentifier, "");
    assert!(input.handles.is_empty());
    assert_eq!(input.properties, 0);
    assert_eq!(input.events, 0);
    assert!(input.keys.is_empty());
    assert_eq!(input.miscellaneousEvents, 0);
    assert_eq!(input.led, 0);
}

#[test]
fn bus_inputs_of_a_table() {
    assert!(busTextOk(DEVICES));
    let inputs = busInput(DEVICES);
    assert_eq!(inputs.len(), 2);
    let button = &inputs[0];
    assert_eq!(button.bus, 0x190);
    assert_eq!(button.vendor, 0);
    assert_eq!(button.product, 0x10);
    assert_eq!(button.version, 0);
    assert_eq!(button.name, "Power Button");
    assert_eq!(button.physicalPath, "PNP0C0C/button/input0");
    assert_eq!(
        button.sysfsPath,
        "/sys/devices/LNXSYSTM:00/LNXSYBUS:00/PNP0C0C:00/input/input0"
    );
    assert_eq!(button.uniqueIdentifier, "");
    assert_eq!(button.handles, vec!["kbd", "event0"]);
    assert_eq!(button.properties, 0);
    assert_eq!(button.events, 0x30);
    assert_eq!(button.keys, vec!["10000000000000", "0"]);
    assert_eq!(button.miscellaneousEvents, 0);
    assert_eq!(button.led, 0);
    let receiver = &inputs[1];
    assert_eq!(receiver.bus, 0x30);
    assert_eq!(receiver.vendor, 0x46d0);
    assert_eq!(receiver.product, 0x52b0);
    assert_eq!(receiver.version, 0x1110);
    assert_eq!(receiver.name, "Logitech USB Receiver");
    assert_eq!(receiver.uniqueIdentifier, "ab12");
    assert_eq!(receiver.handles, vec!["sysrq", "kbd", "leds", "event5"]);
    assert_eq!(receiver.events, 0x1200130);
    assert_eq!(receiver.keys.len(), 4);
    assert_eq!(receiver.keys[3], "fffffffffffffffe");
    assert_eq!(receiver.miscellaneousEvents, 0x100);
    assert_eq!(receiver.led, 0x1f0);
}

#[test]
fn bus_inputs_of_an_empty_table() {
    assert!(busTextOk(""));
    assert!(busInput("").is_empty());
    assert!(busInput(" \n\n\t\n\n").is_empty());
}

#[test]
fn bus_input_with_unknown_lines() {
    let inputs = busInput("X: what\nN: Name=\"a\"b\"\n\n\n\nN: Name=c");
    assert_eq!(inputs.len(), 2);
    assert_eq!(inputs[0].name, "ab");
    assert_eq!(inputs[1].name, "c");
    let later = busInput("N: Name=a\nN: Name=b\nB: LED=1\nB: LED=2");
    assert_eq!(later[0].name, "b");
    assert_eq!(later[0].led, 32);
}

#[test]
fn bus_tables_that_hold_no_number() {
    assert!(!busTextOk("B: EV=12g"));
    assert!(!busTextOk("B: EV=12345678"));
    assert!(busTextOk("B: EV=1234567"));
    assert!(!busTextOk("B: PROP= 0"));
    assert!(!busTextOk("I: Bus=00x9"));
    assert!(!busTextOk("N: Name=ok\n\nI: Bus=0019 Vendor=zz"));
    assert!(busTextOk("I: Bus=0019 Other=zz"));
    assert!(busTextOk("B: KEY=zz zz"));
    assert!(!busTextOk("B: MSC=-1"));
    assert!(!busTextOk("B: LED=0x1"));
}

#[test]
fn ram_size_of_a_memory_table() {
    let table = "MemTotal:       16303428 kB\nMemFree:         1234567 kB\nMemAvailable:    7654321 kB";
    assert!(ramSizeOk(table));
    assert_eq!(ramSize(table).B(), 16303428000);
    assert_eq!(ramSize("").B(), 0);
    assert_eq!(ramSize("MemFree: 12 kB").B(), 0);
    assert_eq!(ramSize("MemTotal:").B(), 0);
    assert_eq!(ramSize("MemTotal: 1 kB\nMemTotal: 2 kB").B(), 2000);
}

#[test]
fn ram_sizes_that_cannot_be_read() {
    assert!(!ramSizeOk("MemTotal: many kB"));
    assert!(!ramSizeOk("HighMemTotal 7"));
    assert!(!ramSizeOk("MemTotal:16303428 kB"));
    assert!(!ramSizeOk("MemTotal: 99999999999999999999999999 kB"));
    assert!(!ramSizeOk("MemTotal: 18446744073709551615 kB"));
    assert!(ramSizeOk("MemTotal: 18446744073709551 kB"));
    assert!(!ramSizeOk("MemTotal: 18446744073709552 kB"));
}

#[test]
fn processor_time_counters() {
    let table = "cpu  10 20 30 40 50 60 70 0 0 0\ncpu0 1 2 3 4 5 6 7 0 0 0\nintr 12345 0 9\nctxt 99\ncpu1 9 8 7";
    assert!(statsOk(table));
    let stats = getStats(table);
    assert_eq!(stats.len(), 3);
    assert_eq!(stats[0], vec![10, 20, 30, 40, 50, 60, 70, 0, 0, 0]);
    assert_eq!(stats[1], vec![1, 2, 3, 4, 5, 6, 7, 0, 0, 0]);
    assert_eq!(stats[2], vec![9, 8, 7]);
    assert!(getStats("").is_empty());
    assert_eq!(getStats("cpu"), vec![Vec::<usize>::new()]);
    assert!(!statsOk("cpu 1 x 3"));
    assert!(!statsOk("cpu 1\t2"));
    assert!(statsOk("intr 1 x 3"));
}

#[test]
fn interface_traffic_totals() {
    let table = "Inter-|   Receive                                                |  Transmit
 face |bytes    packets errs drop fifo frame compressed multicast|bytes    packets errs drop fifo colls carrier compressed
    lo: 1000 10 0 0 0 0 0 0 2000 10 0 0 0 0 0 0
  eth0: 500 5 0 0 0 0 0 0 700 7 0 0 0 0 0 0";
    assert!(trafficOk(table));
    assert_eq!(getRate(table), (1500, 2700));
    assert_eq!(getRate(""), (0, 0));
    assert_eq!(getRate("x: a 1 2 3 4 5 6 7 b"), (0, 0));
    assert_eq!(getRate("x: 3 1 2 3 4 5 6 7 9 1"), (3, 9));
    assert_eq!(getRate("x:3 1 2 3 4 5 6 7 9 1"), (1, 1));
    assert!(!trafficOk("x: 1 2 3 4 5 6 7 8"));
    assert!(!trafficOk("x: 18446744073709551615 2 3 4 5 6 7 8 9\ny: 1 2 3 4 5 6 7 8 9"));
    assert!(trafficOk("x: 18446744073709551615 2 3 4 5 6 7 8 9\ny: 0 2 3 4 5 6 7 8 9"));
}

#[test]
fn interface_kinds() {
    let entries = vec!["address".to_string(), "phydev".to_string(), "mtu".to_string()];
    let wired = networkInterface("eth0".to_string(), "aa:bb:cc:dd:ee:ff\n", &entries);
    assert_eq!(wired.name, "eth0");
    assert_eq!(wired.macAddress, "aa:bb:cc:dd:ee:ff");
    assert_eq!(wired.interfaceType, InterfaceType::Physical);
    let wireless = networkInterface("wlan0".to_string(), "", &vec!["phy80211".to_string()]);
    assert_eq!(wireless.interfaceType, InterfaceType::Physical);
    let other = vec!["phydevice".to_string(), "phy".to_string()];
    let tunnel = networkInterface("tun0".to_string(), " 00 ", &other);
    assert_eq!(tunnel.interfaceType, InterfaceType::Virtual);
    assert_eq!(tunnel.macAddress, "00");
    let none = networkInterface("lo".to_string(), "0", &Vec::new());
    assert_eq!(none.interfaceType, InterfaceType::Virtual);
}

#[test]
fn memory_counters_of_a_table() {
    let table = "MemTotal:       16303428 kB\nMemFree:         1234567 kB\nMemAvailable:    7654321 kB";
    assert_eq!(memoryCounters(table), Some((16303428, 7654321)));
    assert_eq!(memoryCounters(""), Some((0, 0)));
    assert_eq!(memoryCounters("MemAvailable: 5"), Some((0, 5)));
    assert_eq!(memoryCounters("MemAvailable: 5\nMemAvailable: 6\nMemTotal: 9"), Some((9, 6)));
    assert_eq!(memoryCounters("MemTotal: 9 MemAvailable: 5"), Some((9, 0)));
    assert_eq!(memoryCounters("MemTotal: x\nMemAvailable: 5"), None);
    assert_eq!(memoryCounters("MemTotal: 1\nMemAvailable: y"), None);
}

#[test]
fn units_of_a_topology_node() {
    let cpu = "cpu_cores_count 16\nsimd_count 0\nmem_banks_count 1";
    assert_eq!(countsUnits(cpu, "cpu_cores_count"), Some(true));
    assert_eq!(countsUnits(cpu, "simd_count"), Some(false));
    assert_eq!(countsUnits(cpu, "wave_front_size"), Some(false));
    assert_eq!(countsUnits("", "simd_count"), Some(false));
    assert_eq!(countsUnits("simd_count 0\nsimd_count 4\nsimd_count x", "simd_count"), Some(true));
    assert_eq!(countsUnits("simd_count x\nsimd_count 4", "simd_count"), None);
    assert_eq!(countsUnits("simd_count 4 ", "simd_count"), None);
    assert_eq!(countsUnits("simd_count", "simd_count"), None);
}

#[test]
fn values_of_a_memory_bank() {
    let bank = "heap_type 1\nsize_in_bytes 17163091968\nflags 0\nwidth 128\nmem_clk_max 1250";
    assert_eq!(bankValue(bank, "mem_clk_max"), Some(1250));
    assert_eq!(bankValue(bank, "width"), Some(128));
    assert_eq!(bankValue(bank, "size"), Some(17163091968));
    assert_eq!(bankValue(bank, "depth"), None);
    assert_eq!(bankValue("", "width"), None);
    assert_eq!(bankValue("width 1\nwidth 2", "width"), Some(1));
    assert_eq!(bankValue("width one\nwidth 2", "width"), None);
}
