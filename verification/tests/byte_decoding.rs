use sysutil::gpu::{gpuMetrics, metricsTableLongEnough};
use sysutil::utils::{bytesToU16, bytesToU32, bytesToU64, ByteSize, ByteUnit};

#[test]
fn u16_is_little_endian() {
    assert_eq!(bytesToU16(vec![0x34, 0x12]), 0x1234);
    assert_eq!(bytesToU16(vec![0x34, 0x12]), 4660);
    assert_eq!(bytesToU16(vec![0xFF, 0xFF]), 65535);
    assert_eq!(bytesToU16(vec![0x00, 0x00]), 0);
    assert_eq!(bytesToU16(vec![0x01, 0x00]), 1);
    assert_eq!(bytesToU16(vec![0x00, 0x01]), 256);
}

#[test]
fn u16_reads_every_pair() {
    for hi in 0..=255u16 {
        for lo in 0..=255u16 {
            assert_eq!(bytesToU16(vec![lo as u8, hi as u8]), hi * 256 + lo);
        }
    }
}

#[test]
fn u16_ignores_what_follows() {
    assert_eq!(bytesToU16(vec![0x34, 0x12, 0xAA, 0xBB]), 0x1234);
}

#[test]
fn u32_is_little_endian() {
    assert_eq!(bytesToU32(vec![0x78, 0x56, 0x34, 0x12]), 0x12345678);
    assert_eq!(bytesToU32(vec![0xFF, 0xFF, 0xFF, 0xFF]), u32::MAX);
    assert_eq!(bytesToU32(vec![0, 0, 0, 0x80]), 0x8000_0000);
    assert_eq!(bytesToU32(vec![1, 0, 0, 0, 9]), 1);
}

#[test]
fn u64_is_little_endian() {
    assert_eq!(
        bytesToU64(vec![0xEF, 0xCD, 0xAB, 0x89, 0x67, 0x45, 0x23, 0x01]),
        0x0123_4567_89AB_CDEF
    );
    assert_eq!(bytesToU64(vec![0xFF; 8]), u64::MAX);
    assert_eq!(bytesToU64(vec![0; 8]), 0);
    assert_eq!(bytesToU64(vec![0, 0, 0, 0, 0, 0, 0, 1]), 1 << 56);
}

#[test]
fn byte_size_units() {
    let size = ByteSize::fromBytes(1024);
    assert_eq!(size.B(), 1024);
    assert_eq!(size.b(), 8192);
    assert_eq!(ByteSize::fromBytes(0).b(), 0);
}

#[test]
fn byte_unit_symbols() {
    assert_eq!(ByteUnit::B.toString(), "B");
    assert_eq!(ByteUnit::KB.toString(), "KB");
    assert_eq!(ByteUnit::MB.toString(), "MB");
    assert_eq!(ByteUnit::GB.toString(), "GB");
    assert_eq!(ByteUnit::KiB.toString(), "KiB");
    assert_eq!(ByteUnit::MiB.toString(), "MiB");
    assert_eq!(ByteUnit::GiB.toString(), "GiB");
}

/// An 80-byte table whose payload holds, at each even offset `o`, the
/// 16-bit value `1000 + o`.
fn sentinel_table(format: u8, content: u8) -> Vec<u8> {
    let mut table = vec![0u8; 80];
    table[2] = format;
    table[3] = content;
    let mut offset = 0usize;
    while offset + 2 <= 76 {
        let value = 1000 + offset as u16;
        table[4 + offset] = (value & 0xFF) as u8;
        table[4 + offset + 1] = (value >> 8) as u8;
        offset += 2;
    }
    table
}

#[test]
fn metrics_of_an_absent_source() {
    assert!(gpuMetrics(None).is_none());
}

#[test]
fn metrics_of_an_unknown_format() {
    for format in 0..=255u8 {
        if format != 1 {
            assert!(gpuMetrics(Some(sentinel_table(format, 0))).is_none());
            assert!(gpuMetrics(Some(sentinel_table(format, 3))).is_none());
            assert!(gpuMetrics(Some(vec![0, 0, format, 0])).is_none());
        }
    }
}

#[test]
fn metrics_current_layout() {
    let m = gpuMetrics(Some(sentinel_table(1, 1))).unwrap();
    assert_eq!(m.temperatureEdge, 1000);
    assert_eq!(m.temperatureHotspot, 1002);
    assert_eq!(m.temperatureMem, 1004);
    assert_eq!(m.temperatureVrgfx, 1006);
    assert_eq!(m.temperatureVrsoc, 1008);
    assert_eq!(m.temperatureVrmem, 1010);
    assert_eq!(m.averageSocketPower, 1018);
    assert_eq!(m.averageGfxclkFrequency, 1036);
    assert_eq!(m.averageSockclkFrequency, 1038);
    assert_eq!(m.averageUclkFrequency, 1040);
    assert_eq!(m.currentGfxclk, 1050);
    assert_eq!(m.currentSockclk, 1052);
    assert_eq!(m.currentUclk, 1054);
    assert_eq!(m.currentVclk0, 1056);
    assert_eq!(m.currentDclk0, 1058);
    assert_eq!(m.currentVclk1, 1060);
    assert_eq!(m.currentDclk1, 1062);
    assert_eq!(m.throttleStatus, (1066u32 << 16) | 1064);
    assert_eq!(m.currentFanSpeed, 1068);
    assert_eq!(m.pcieLinkWidth, 1070);
    assert_eq!(m.pcieLinkSpeed, 1072);
}

#[test]
fn metrics_legacy_layout() {
    let m = gpuMetrics(Some(sentinel_table(1, 0))).unwrap();
    assert_eq!(m.temperatureEdge, 1008);
    assert_eq!(m.temperatureHotspot, 1010);
    assert_eq!(m.temperatureMem, 1012);
    assert_eq!(m.temperatureVrgfx, 1014);
    assert_eq!(m.temperatureVrsoc, 1016);
    assert_eq!(m.temperatureVrmem, 1018);
    assert_eq!(m.averageSocketPower, 1026);
    assert_eq!(m.averageGfxclkFrequency, 1036);
    assert_eq!(m.averageSockclkFrequency, 1038);
    assert_eq!(m.averageUclkFrequency, 1040);
    assert_eq!(m.currentGfxclk, 1050);
    assert_eq!(m.currentDclk1, 1062);
    assert_eq!(m.throttleStatus, (1066u32 << 16) | 1064);
    assert_eq!(m.currentFanSpeed, 1068);
    assert_eq!(m.pcieLinkWidth, 1070);
    assert_eq!(m.pcieLinkSpeed, 1072);
}

#[test]
fn metrics_any_later_revision_is_current() {
    let one = gpuMetrics(Some(sentinel_table(1, 1))).unwrap();
    for content in 2..=255u8 {
        assert_eq!(gpuMetrics(Some(sentinel_table(1, content))).unwrap(), one);
    }
}

#[test]
fn metrics_shortest_table() {
    let mut table = sentinel_table(1, 2);
    table.truncate(78);
    assert!(metricsTableLongEnough(&table));
    let m = gpuMetrics(Some(table.clone())).unwrap();
    assert_eq!(m.pcieLinkSpeed, 1072);
    table.truncate(77);
    assert!(!metricsTableLongEnough(&table));
    assert!(!metricsTableLongEnough(&vec![0, 0, 7]));
    assert!(metricsTableLongEnough(&vec![0, 0, 7, 0]));
}
