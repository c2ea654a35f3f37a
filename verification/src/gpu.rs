//! Decoding of the binary metrics table that the amdgpu driver exposes.
use vstd::prelude::*;
use crate::text::{chars_of, parse_number, parseNumber};
use crate::utils::{le_value_at, lemma_le_value_step, ByteSize};

verus! {

/// Encloses gpu metrics parameters
#[derive(Debug, Clone, Copy, PartialEq, Eq, Structural)]
pub struct GpuMetrics {
    pub temperatureEdge: u16,
    pub temperatureHotspot: u16,
    pub temperatureMem: u16,
    pub temperatureVrgfx: u16,
    pub temperatureVrsoc: u16,
    pub temperatureVrmem: u16,
    pub averageSocketPower: u16,
    pub averageGfxclkFrequency: u16,
    pub averageSockclkFrequency: u16,
    pub averageUclkFrequency: u16,
    pub currentGfxclk: u16,
    pub currentSockclk: u16,
    pub currentUclk: u16,
    pub currentVclk0: u16,
    pub currentDclk0: u16,
    pub currentVclk1: u16,
    pub currentDclk1: u16,
    pub throttleStatus: u32,
    pub currentFanSpeed: u16,
    pub pcieLinkWidth: u16,
    pub pcieLinkSpeed: u16,
}

/// Length of the header that precedes the payload.
pub const HEADER_LEN: usize = 4;

/// Number of payload bytes that a record is decoded from.
pub const PAYLOAD_LEN: usize = 74;

/// The only format tag whose layout is known.
pub const SUPPORTED_FORMAT: u8 = 1;

/// The format tag of a table: its third byte.
pub open spec fn format_tag(table: Seq<u8>) -> u8
    recommends
        table.len() >= HEADER_LEN,
{
    table[2]
}

/// The content revision of a table: its fourth byte.
pub open spec fn content_tag(table: Seq<u8>) -> u8
    recommends
        table.len() >= HEADER_LEN,
{
    table[3]
}

/// Where the block of temperatures and socket power starts in the payload.
/// Revision 0 holds eight more bytes in front of it than the later ones.
pub open spec fn sensor_base(content: u8) -> int {
    if content == 0 {
        8
    } else {
        0
    }
}

/// The 16-bit little-endian field at `offset` of `payload`.
pub open spec fn field16(payload: Seq<u8>, offset: int) -> u16 {
    le_value_at(payload, offset, 2) as u16
}

/// The 32-bit little-endian field at `offset` of `payload`.
pub open spec fn field32(payload: Seq<u8>, offset: int) -> u32 {
    le_value_at(payload, offset, 4) as u32
}

/// The record that a payload of revision `content` holds.
pub open spec fn metrics_of(payload: Seq<u8>, content: u8) -> GpuMetrics {
    let base = sensor_base(content);
    GpuMetrics {
        temperatureEdge: field16(payload, base),
        temperatureHotspot: field16(payload, base + 2),
        temperatureMem: field16(payload, base + 4),
        temperatureVrgfx: field16(payload, base + 6),
        temperatureVrsoc: field16(payload, base + 8),
        temperatureVrmem: field16(payload, base + 10),
        averageSocketPower: field16(payload, base + 18),
        averageGfxclkFrequency: field16(payload, 36),
        averageSockclkFrequency: field16(payload, 38),
        averageUclkFrequency: field16(payload, 40),
        currentGfxclk: field16(payload, 50),
        currentSockclk: field16(payload, 52),
        currentUclk: field16(payload, 54),
        currentVclk0: field16(payload, 56),
        currentDclk0: field16(payload, 58),
        currentVclk1: field16(payload, 60),
        currentDclk1: field16(payload, 62),
        throttleStatus: field32(payload, 64),
        currentFanSpeed: field16(payload, 68),
        pcieLinkWidth: field16(payload, 70),
        pcieLinkSpeed: field16(payload, 72),
    }
}

/// What a metrics source decodes to: nothing when the source is absent or
/// its format is not the supported one, else the record of its payload.
pub open spec fn decoded(source: Option<Seq<u8>>) -> Option<GpuMetrics> {
    match source {
        None => None,
        Some(table) => if format_tag(table) != SUPPORTED_FORMAT {
            None
        } else {
            Some(metrics_of(table.skip(HEADER_LEN as int), content_tag(table)))
        },
    }
}

/// Whether a table is long enough to be decoded: it holds its header and,
/// if its format is the supported one, the whole payload.
pub open spec fn long_enough(table: Seq<u8>) -> bool {
    &&& table.len() >= HEADER_LEN
    &&& format_tag(table) == SUPPORTED_FORMAT ==> table.len() >= HEADER_LEN + PAYLOAD_LEN
}

/// Tells whether `gpuMetrics` accepts `table`.
pub fn metricsTableLongEnough(table: &Vec<u8>) -> (ok: bool)
    ensures
        ok == long_enough(table@),
{
    table.len() >= HEADER_LEN && (table[2] != SUPPORTED_FORMAT || table.len() >= HEADER_LEN
        + PAYLOAD_LEN)
}

/// Reads the 16-bit field at `offset` of the payload of `table`.
fn payloadU16(table: &Vec<u8>, offset: usize) -> (value: u16)
    requires
        offset + 2 <= PAYLOAD_LEN,
        table@.len() >= HEADER_LEN + PAYLOAD_LEN,
    ensures
        value == field16(table@.skip(HEADER_LEN as int), offset as int),
{
    let ghost payload = table@.skip(HEADER_LEN as int);
    proof {
        lemma_le_value_step(payload, offset as int, offset + 2);
        lemma_le_value_step(payload, offset + 1, offset + 2);
    }
    let low: u16 = table[HEADER_LEN + offset] as u16;
    let high: u16 = table[HEADER_LEN + offset + 1] as u16;
    high * 256 + low
}

/// Reads the 32-bit field at `offset` of the payload of `table`.
fn payloadU32(table: &Vec<u8>, offset: usize) -> (value: u32)
    requires
        offset + 4 <= PAYLOAD_LEN,
        table@.len() >= HEADER_LEN + PAYLOAD_LEN,
    ensures
        value == field32(table@.skip(HEADER_LEN as int), offset as int),
{
    let ghost payload = table@.skip(HEADER_LEN as int);
    proof {
        lemma_le_value_step(payload, offset as int, offset + 4);
        lemma_le_value_step(payload, offset + 1, offset + 4);
        lemma_le_value_step(payload, offset + 2, offset + 4);
        lemma_le_value_step(payload, offset + 3, offset + 4);
    }
    let b0: u32 = table[HEADER_LEN + offset] as u32;
    let b1: u32 = table[HEADER_LEN + offset + 1] as u32;
    let b2: u32 = table[HEADER_LEN + offset + 2] as u32;
    let b3: u32 = table[HEADER_LEN + offset + 3] as u32;
    b3 * 0x100_0000 + b2 * 0x1_0000 + b1 * 0x100 + b0
}

/// Decodes the metrics table of the amdgpu driver. `source` is the content
/// of the table, or `None` where the device has none.
pub fn gpuMetrics(source: Option<Vec<u8>>) -> (metrics: Option<GpuMetrics>)
    requires
        source matches Some(table) ==> long_enough(table@),
    ensures
        metrics == decoded(
            match source {
                Some(table) => Some(table@),
                None => None,
            },
        ),
        source is None ==> metrics is None,
        source matches Some(table) ==> (metrics is Some <==> format_tag(table@)
            == SUPPORTED_FORMAT),
{
    let table = match source {
        None => {
            return None;
        },
        Some(table) => table,
    };
    let format = table[2];
    let content = table[3];
    if format != SUPPORTED_FORMAT {
        return None;
    }
    let base: usize = if content == 0 {
        8
    } else {
        0
    };
    Some(
        GpuMetrics {
            temperatureEdge: payloadU16(&table, base),
            temperatureHotspot: payloadU16(&table, base + 2),
            temperatureMem: payloadU16(&table, base + 4),
            temperatureVrgfx: payloadU16(&table, base + 6),
            temperatureVrsoc: payloadU16(&table, base + 8),
            temperatureVrmem: payloadU16(&table, base + 10),
            averageSocketPower: payloadU16(&table, base + 18),
            averageGfxclkFrequency: payloadU16(&table, 36),
            averageSockclkFrequency: payloadU16(&table, 38),
            averageUclkFrequency: payloadU16(&table, 40),
            currentGfxclk: payloadU16(&table, 50),
            currentSockclk: payloadU16(&table, 52),
            currentUclk: payloadU16(&table, 54),
            currentVclk0: payloadU16(&table, 56),
            currentDclk0: payloadU16(&table, 58),
            currentVclk1: payloadU16(&table, 60),
            currentDclk1: payloadU16(&table, 62),
            throttleStatus: payloadU32(&table, 64),
            currentFanSpeed: payloadU16(&table, 68),
            pcieLinkWidth: payloadU16(&table, 70),
            pcieLinkSpeed: payloadU16(&table, 72),
        },
    )
}

/// The size of the memory of the GPU, from the content of the file that
/// holds it in bytes; `None` where the content is not a number.
pub fn vramSize(content: &str) -> (size: Option<ByteSize>)
    ensures
        match size {
            Some(s) => parse_number(content@, usize::MAX as nat) == Some(s.bytes()),
            None => parse_number(content@, usize::MAX as nat) is None,
        },
{
    let text = chars_of(content);
    match parseNumber(&text, usize::MAX as u64) {
        Some(n) => Some(ByteSize::fromBytes(n as usize)),
        None => None,
    }
}

/// The layout of the sensor block of a metrics table: a table of revision
/// 0 holds the temperatures from offset 8 and the socket power at offset
/// 26, a later one holds the temperatures from offset 0 and the socket
/// power at offset 18. What follows the block stands at the same place in
/// both.
pub proof fn lemma_sensor_layout(payload: Seq<u8>, content: u8, other: u8)
    ensures
        content == 0 ==> {
            let m = metrics_of(payload, content);
            &&& m.temperatureEdge == field16(payload, 8)
            &&& m.temperatureHotspot == field16(payload, 10)
            &&& m.temperatureMem == field16(payload, 12)
            &&& m.temperatureVrgfx == field16(payload, 14)
            &&& m.temperatureVrsoc == field16(payload, 16)
            &&& m.temperatureVrmem == field16(payload, 18)
            &&& m.averageSocketPower == field16(payload, 26)
        },
        content != 0 ==> {
            let m = metrics_of(payload, content);
            &&& m.temperatureEdge == field16(payload, 0)
            &&& m.temperatureHotspot == field16(payload, 2)
            &&& m.temperatureMem == field16(payload, 4)
            &&& m.temperatureVrgfx == field16(payload, 6)
            &&& m.temperatureVrsoc == field16(payload, 8)
            &&& m.temperatureVrmem == field16(payload, 10)
            &&& m.averageSocketPower == field16(payload, 18)
        },
        content != 0 && other != 0 ==> metrics_of(payload, content)
            == metrics_of(payload, other),
        ({
            let m = metrics_of(payload, content);
            let n = metrics_of(payload, other);
            &&& m.averageGfxclkFrequency == n.averageGfxclkFrequency
            &&& m.averageSockclkFrequency == n.averageSockclkFrequency
            &&& m.averageUclkFrequency == n.averageUclkFrequency
            &&& m.currentGfxclk == n.currentGfxclk
            &&& m.currentSockclk == n.currentSockclk
            &&& m.currentUclk == n.currentUclk
            &&& m.currentVclk0 == n.currentVclk0
            &&& m.currentDclk0 == n.currentDclk0
            &&& m.currentVclk1 == n.currentVclk1
            &&& m.currentDclk1 == n.currentDclk1
            &&& m.throttleStatus == n.throttleStatus
            &&& m.currentFanSpeed == n.currentFanSpeed
            &&& m.pcieLinkWidth == n.pcieLinkWidth
            &&& m.pcieLinkSpeed == n.pcieLinkSpeed
        }),
{
}

} // verus!
