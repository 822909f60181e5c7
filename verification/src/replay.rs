//! Little-endian framing of the legacy binary replay log: integer fields,
//! the file header, and records written and read back. The floating-point
//! channels of a record travel as the 64-bit patterns of their values.
use vstd::prelude::*;

verus! {

/// The magic bytes that open a legacy replay file.
pub const MAGIC: [u8; 8] = [82, 84, 83, 82, 80, 76, 48, 51];

/// The legacy replay format version.
pub const VERSION: u16 = 3;

/// Number of `f64` fields in every legacy record.
pub const FIXED_F64_COUNT: usize = 44;

/// The `n` little-endian bytes of `v` (taken modulo 256^n).
pub open spec fn le_bytes(v: nat, n: nat) -> Seq<u8>
    decreases n,
{
    if n == 0 {
        Seq::empty()
    } else {
        seq![(v % 256) as u8] + le_bytes(v / 256, (n - 1) as nat)
    }
}

/// The number that little-endian bytes denote.
pub open spec fn le_value(b: Seq<u8>) -> nat
    decreases b.len(),
{
    if b.len() == 0 {
        0
    } else {
        b[0] as nat + 256 * le_value(b.drop_first())
    }
}

/// 256 to the power `n`.
pub open spec fn pow256(n: nat) -> nat
    decreases n,
{
    if n == 0 {
        1
    } else {
        256 * pow256((n - 1) as nat)
    }
}

/// Reading back what was written gives the value, for every value that fits.
pub proof fn lemma_le_roundtrip(v: nat, n: nat)
    requires
        v < pow256(n),
    ensures
        le_bytes(v, n).len() == n,
        le_value(le_bytes(v, n)) == v,
    decreases n,
{
    if n > 0 {
        assert(v / 256 < pow256((n - 1) as nat)) by (nonlinear_arith)
            requires
                v < 256 * pow256((n - 1) as nat),
        ;
        lemma_le_roundtrip(v / 256, (n - 1) as nat);
        let b = le_bytes(v, n);
        assert(b.drop_first() =~= le_bytes(v / 256, (n - 1) as nat));
    }
}

fn push_le(out: &mut Vec<u8>, v: u64, n: usize)
    requires
        n <= 8,
    ensures
        final(out)@ == old(out)@ + le_bytes(v as nat, n as nat),
{
    let mut rest: u64 = v;
    let mut i: usize = 0;
    while i < n
        invariant
            i <= n,
            old(out)@ + le_bytes(v as nat, n as nat) == out@ + le_bytes(rest as nat, (n - i) as nat),
        decreases n - i,
    {
        let ghost before = out@;
        out.push((rest % 256) as u8);
        proof {
            assert(le_bytes(rest as nat, (n - i) as nat) == seq![(rest % 256) as u8] + le_bytes(
                (rest / 256) as nat,
                (n - i - 1) as nat,
            ));
            assert(out@ + le_bytes((rest / 256) as nat, (n - i - 1) as nat) =~= before + le_bytes(
                rest as nat,
                (n - i) as nat,
            ));
        }
        rest = rest / 256;
        i = i + 1;
    }
    assert(out@ + le_bytes(rest as nat, 0) =~= out@);
}

/// Appends the two little-endian bytes of `value`.
pub fn write_u16(out: &mut Vec<u8>, value: u16)
    ensures
        final(out)@ == old(out)@ + le_bytes(value as nat, 2),
{
    push_le(out, value as u64, 2);
}

/// Appends the four little-endian bytes of `value`.
pub fn write_u32(out: &mut Vec<u8>, value: u32)
    ensures
        final(out)@ == old(out)@ + le_bytes(value as nat, 4),
{
    push_le(out, value as u64, 4);
}

/// Appends the eight little-endian bytes of `value`.
pub fn write_u64(out: &mut Vec<u8>, value: u64)
    ensures
        final(out)@ == old(out)@ + le_bytes(value as nat, 8),
{
    push_le(out, value, 8);
}

fn read_le(input: &[u8], at: usize, n: usize) -> (r: u64)
    requires
        n <= 8,
        at + n <= input@.len(),
    ensures
        r == le_value(input@.subrange(at as int, at + n)),
{
    let mut v: u64 = 0;
    let mut i: usize = n;
    while i > 0
        invariant
            i <= n <= 8,
            at + n <= input@.len(),
            v == le_value(input@.subrange(at + i, at + n)),
            v < pow256((n - i) as nat),
        decreases i,
    {
        let ghost tail = input@.subrange(at + i, at + n);
        i = i - 1;
        let ghost cur = input@.subrange(at + i, at + n);
        assert(cur.drop_first() =~= tail);
        assert(pow256((n - i) as nat) == 256 * pow256((n - i - 1) as nat));
        assert(pow256((n - i - 1) as nat) <= pow256(7)) by {
            lemma_pow256_mono((n - i - 1) as nat, 7);
        }
        assert(pow256(7) == 72057594037927936) by {
            reveal_with_fuel(pow256, 8);
        }
        assert(at + i < input.len());
        let b = input[at + i];
        assert(b as nat + 256 * (v as nat) < 256 * pow256((n - i - 1) as nat)) by (nonlinear_arith)
            requires
                v < pow256((n - i - 1) as nat),
                b < 256,
        ;
        v = (b as u64) + 256 * v;
    }
    v
}

proof fn lemma_pow256_mono(a: nat, b: nat)
    requires
        a <= b,
    ensures
        pow256(a) <= pow256(b),
    decreases b,
{
    if a < b {
        lemma_pow256_mono(a, (b - 1) as nat);
    }
}

/// The `u16` stored little-endian at `at`, or `None` when the input ends
/// before it.
pub fn read_u16(input: &[u8], at: usize) -> (r: Option<u16>)
    ensures
        at as int + 2 <= input@.len() ==> r == Some(le_value(input@.subrange(at as int, at + 2)) as u16),
        at as int + 2 > input@.len() ==> r is None,
{
    if at > input.len() || input.len() - at < 2 {
        return None;
    }
    let v = read_le(input, at, 2);
    Some(v as u16)
}

/// The `u32` stored little-endian at `at`, or `None` when the input ends
/// before it.
pub fn read_u32(input: &[u8], at: usize) -> (r: Option<u32>)
    ensures
        at as int + 4 <= input@.len() ==> r == Some(le_value(input@.subrange(at as int, at + 4)) as u32),
        at as int + 4 > input@.len() ==> r is None,
{
    if at > input.len() || input.len() - at < 4 {
        return None;
    }
    let v = read_le(input, at, 4);
    Some(v as u32)
}

/// The `u64` stored little-endian at `at`, or `None` when the input ends
/// before it.
pub fn read_u64(input: &[u8], at: usize) -> (r: Option<u64>)
    ensures
        at as int + 8 <= input@.len() ==> r == Some(le_value(input@.subrange(at as int, at + 8)) as u64),
        at as int + 8 > input@.len() ==> r is None,
{
    if at > input.len() || input.len() - at < 8 {
        return None;
    }
    let v = read_le(input, at, 8);
    Some(v)
}

/// A value written after any bytes is read back at that position.
pub proof fn lemma_write_then_read(prefix: Seq<u8>, v: nat, n: nat)
    requires
        v < pow256(n),
    ensures
        (prefix + le_bytes(v, n)).subrange(prefix.len() as int, prefix.len() + n as int) == le_bytes(v, n),
        le_value((prefix + le_bytes(v, n)).subrange(prefix.len() as int, prefix.len() + n as int)) == v,
{
    lemma_le_roundtrip(v, n);
    assert((prefix + le_bytes(v, n)).subrange(prefix.len() as int, prefix.len() + n as int) =~= le_bytes(v, n));
}

/// A `u16` written after any bytes is read back unchanged at that position.
pub proof fn lemma_u16_roundtrip(prefix: Seq<u8>, v: u16)
    ensures
        le_value((prefix + le_bytes(v as nat, 2)).subrange(prefix.len() as int, prefix.len() + 2 as int)) as u16 == v,
{
    assert(pow256(2) == 65536) by {
        reveal_with_fuel(pow256, 3);
    }
    lemma_write_then_read(prefix, v as nat, 2);
}

/// A `u32` written after any bytes is read back unchanged at that position.
pub proof fn lemma_u32_roundtrip(prefix: Seq<u8>, v: u32)
    ensures
        le_value((prefix + le_bytes(v as nat, 4)).subrange(prefix.len() as int, prefix.len() + 4 as int)) as u32 == v,
{
    assert(pow256(4) == 0x1_0000_0000) by {
        reveal_with_fuel(pow256, 5);
    }
    lemma_write_then_read(prefix, v as nat, 4);
}

/// A `u64` written after any bytes is read back unchanged at that position.
pub proof fn lemma_u64_roundtrip(prefix: Seq<u8>, v: u64)
    ensures
        le_value((prefix + le_bytes(v as nat, 8)).subrange(prefix.len() as int, prefix.len() + 8 as int)) as u64 == v,
{
    assert(pow256(8) == 0x1_0000_0000_0000_0000) by {
        reveal_with_fuel(pow256, 9);
    }
    lemma_write_then_read(prefix, v as nat, 8);
}

/// The legacy header for `sensor_count` sensors: the magic bytes, the
/// version, the sensor count (kept to 16 bits) and the number of `f64`
/// fields per record.
pub open spec fn header_bytes(sensor_count: nat) -> Seq<u8> {
    MAGIC@ + le_bytes(VERSION as nat, 2) + le_bytes(sensor_count % 65536, 2) + le_bytes(
        FIXED_F64_COUNT as nat,
        4,
    )
}

/// Appends the legacy replay header.
pub fn write_header(out: &mut Vec<u8>, sensor_count: usize)
    ensures
        final(out)@ == old(out)@ + header_bytes(sensor_count as nat),
{
    let mut i: usize = 0;
    while i < 8
        invariant
            i <= 8,
            out@ == old(out)@ + MAGIC@.take(i as int),
        decreases 8 - i,
    {
        out.push(MAGIC[i]);
        i = i + 1;
        assert(out@ =~= old(out)@ + MAGIC@.take(i as int));
    }
    assert(MAGIC@.take(8) =~= MAGIC@);
    write_u16(out, VERSION);
    write_u16(out, (sensor_count % 65536) as u16);
    write_u32(out, FIXED_F64_COUNT as u32);
    assert(out@ =~= old(out)@ + header_bytes(sensor_count as nat));
}

/// The integer tail of a legacy record: the line-visible flag as one byte,
/// then one little-endian `u32` per sensor, zero for sensors without a
/// reading.
pub open spec fn record_tail(line_visible: bool, adc: Seq<u32>, sensor_count: nat) -> Seq<u8>
    decreases sensor_count,
{
    if sensor_count == 0 {
        seq![if line_visible { 1u8 } else { 0u8 }]
    } else {
        let i = sensor_count - 1;
        record_tail(line_visible, adc, i as nat) + le_bytes(
            if i < adc.len() { adc[i] as nat } else { 0 },
            4,
        )
    }
}

/// Appends the integer tail of a legacy record.
pub fn write_record_tail(out: &mut Vec<u8>, line_visible: bool, adc: &Vec<u32>, sensor_count: usize)
    ensures
        final(out)@ == old(out)@ + record_tail(line_visible, adc@, sensor_count as nat),
{
    out.push(if line_visible { 1u8 } else { 0u8 });
    let mut i: usize = 0;
    while i < sensor_count
        invariant
            i <= sensor_count,
            out@ == old(out)@ + record_tail(line_visible, adc@, i as nat),
        decreases sensor_count - i,
    {
        let v: u32 = if i < adc.len() { adc[i] } else { 0 };
        write_u32(out, v);
        i = i + 1;
        assert(out@ =~= old(out)@ + record_tail(line_visible, adc@, i as nat));
    }
}

/// One decoded legacy record: its time, the bit patterns of its
/// floating-point channels in format order, the line flag and one reading
/// per sensor.
#[derive(Debug, Clone, PartialEq)]
pub struct ReplayRow {
    pub t_us: u64,
    pub channels: Vec<u64>,
    pub line_visible: bool,
    pub adc: Vec<u32>,
}

/// Why a record could not be read.
#[derive(Debug, Clone, Copy, PartialEq, Eq, Structural)]
pub enum ReplayError {
    /// The input ends inside a record.
    Truncated,
}

/// The bytes of the floating-point channels, eight little-endian bytes each.
pub open spec fn channels_bytes(ch: Seq<u64>) -> Seq<u8>
    decreases ch.len(),
{
    if ch.len() == 0 {
        Seq::empty()
    } else {
        channels_bytes(ch.drop_last()) + le_bytes(ch.last() as nat, 8)
    }
}

/// A whole legacy record: the time, the channels, then the integer tail.
pub open spec fn record_bytes(t_us: u64, ch: Seq<u64>, line_visible: bool, adc: Seq<u32>, sensor_count: nat) -> Seq<u8> {
    le_bytes(t_us as nat, 8) + channels_bytes(ch) + record_tail(line_visible, adc, sensor_count)
}

/// The length of a legacy record for `sensor_count` sensors.
pub open spec fn record_len(sensor_count: nat) -> nat {
    8 + 8 * 44 + 1 + 4 * sensor_count
}

/// The number stored little-endian in the `n` bytes at `at`.
pub open spec fn field_at(input: Seq<u8>, at: int, n: int) -> nat {
    le_value(input.subrange(at, at + n))
}

/// The channels of the record that starts at `at`.
pub open spec fn decoded_channels(input: Seq<u8>, at: int) -> Seq<u64> {
    Seq::new(44, |i: int| field_at(input, at + 8 + 8 * i, 8) as u64)
}

/// The sensor readings of the record that starts at `at`.
pub open spec fn decoded_adc(input: Seq<u8>, at: int, sensor_count: nat) -> Seq<u32> {
    Seq::new(sensor_count, |j: int| field_at(input, at + 361 + 4 * j, 4) as u32)
}

/// The record that starts at `at`, as time, channels, line flag and readings.
pub open spec fn decoded_record(input: Seq<u8>, at: int, sensor_count: nat) -> (u64, Seq<u64>, bool, Seq<u32>) {
    (
        field_at(input, at, 8) as u64,
        decoded_channels(input, at),
        input[at + 360] != 0,
        decoded_adc(input, at, sensor_count),
    )
}

/// Appends a whole legacy record: the time, the 44 channel bit patterns,
/// the line flag and one reading per sensor (zero where `adc` has none).
pub fn write_record(out: &mut Vec<u8>, t_us: u64, channels: &Vec<u64>, line_visible: bool, adc: &Vec<u32>, sensor_count: usize)
    requires
        channels@.len() == FIXED_F64_COUNT,
    ensures
        final(out)@ == old(out)@ + record_bytes(t_us, channels@, line_visible, adc@, sensor_count as nat),
{
    write_u64(out, t_us);
    let mut i: usize = 0;
    while i < channels.len()
        invariant
            i <= channels.len(),
            out@ == old(out)@ + le_bytes(t_us as nat, 8) + channels_bytes(channels@.take(i as int)),
        decreases channels.len() - i,
    {
        proof {
            assert(channels@.take(i + 1).drop_last() =~= channels@.take(i as int));
        }
        write_u64(out, channels[i]);
        i = i + 1;
        assert(out@ =~= old(out)@ + le_bytes(t_us as nat, 8) + channels_bytes(channels@.take(i as int)));
    }
    assert(channels@.take(channels.len() as int) =~= channels@);
    write_record_tail(out, line_visible, adc, sensor_count);
    assert(out@ =~= old(out)@ + record_bytes(t_us, channels@, line_visible, adc@, sensor_count as nat));
}

/// Reads the legacy record that starts at `at`, for `sensor_count`
/// sensors. Fewer than eight bytes left mean the log has ended (`None`);
/// a record cut short after its time is an error. On success, the row and
/// the offset just past the record are returned.
pub fn read_record(input: &[u8], at: usize, sensor_count: usize) -> (r: Result<Option<(ReplayRow, usize)>, ReplayError>)
    ensures
        at as int + 8 > input@.len() ==> r == Ok::<Option<(ReplayRow, usize)>, ReplayError>(None),
        at as int + 8 <= input@.len() < at + record_len(sensor_count as nat) ==> r == Err::<Option<(ReplayRow, usize)>, ReplayError>(ReplayError::Truncated),
        at + record_len(sensor_count as nat) <= input@.len() ==> (r matches Ok(Some((row, next))) && {
            &&& next == at + record_len(sensor_count as nat)
            &&& (row.t_us, row.channels@, row.line_visible, row.adc@) == decoded_record(input@, at as int, sensor_count as nat)
        }),
{
    if at > input.len() || input.len() - at < 8 {
        return Ok(None);
    }
    let left = input.len() - at;
    if left < 361 || (left - 361) / 4 < sensor_count {
        return Err(ReplayError::Truncated);
    }
    assert(at + 361 + 4 * sensor_count <= input@.len());
    let t_us = read_le(input, at, 8);
    let mut channels: Vec<u64> = Vec::new();
    let mut i: usize = 0;
    while i < 44
        invariant
            i <= 44,
            at + 361 <= input@.len(),
            input@.len() <= usize::MAX,
            channels@ == decoded_channels(input@, at as int).take(i as int),
        decreases 44 - i,
    {
        let v = read_le(input, at + 8 + 8 * i, 8);
        channels.push(v);
        i = i + 1;
        assert(channels@ =~= decoded_channels(input@, at as int).take(i as int));
    }
    assert(decoded_channels(input@, at as int).take(44) =~= decoded_channels(input@, at as int));
    let line_visible = input[at + 360] != 0;
    let mut adc: Vec<u32> = Vec::new();
    let mut j: usize = 0;
    while j < sensor_count
        invariant
            j <= sensor_count,
            at + 361 + 4 * sensor_count <= input@.len(),
            input@.len() <= usize::MAX,
            adc@ == decoded_adc(input@, at as int, sensor_count as nat).take(j as int),
        decreases sensor_count - j,
    {
        let v = read_le(input, at + 361 + 4 * j, 4);
        proof {
            assert(v < pow256(4)) by {
                lemma_le_value_bound(input@.subrange(at + 361 + 4 * j, at + 361 + 4 * j + 4));
            }
            assert(pow256(4) == 0x1_0000_0000) by {
                reveal_with_fuel(pow256, 5);
            }
        }
        adc.push(v as u32);
        j = j + 1;
        assert(adc@ =~= decoded_adc(input@, at as int, sensor_count as nat).take(j as int));
    }
    assert(decoded_adc(input@, at as int, sensor_count as nat).take(sensor_count as int) =~= decoded_adc(input@, at as int, sensor_count as nat));
    let next = at + 361 + 4 * sensor_count;
    Ok(Some((ReplayRow { t_us, channels, line_visible, adc }, next)))
}

proof fn lemma_le_value_bound(b: Seq<u8>)
    ensures
        le_value(b) < pow256(b.len()),
    decreases b.len(),
{
    if b.len() > 0 {
        lemma_le_value_bound(b.drop_first());
        assert(b[0] as nat + 256 * le_value(b.drop_first()) < 256 * pow256((b.len() - 1) as nat)) by (nonlinear_arith)
            requires
                le_value(b.drop_first()) < pow256((b.len() - 1) as nat),
                b[0] < 256,
        ;
    }
}

proof fn lemma_channels_layout(ch: Seq<u64>)
    ensures
        channels_bytes(ch).len() == 8 * ch.len(),
        forall|i: int| 0 <= i < ch.len() ==> channels_bytes(ch).subrange(8 * i, 8 * i + 8) == le_bytes(#[trigger] ch[i] as nat, 8),
    decreases ch.len(),
{
    if ch.len() > 0 {
        let rest = ch.drop_last();
        lemma_channels_layout(rest);
        lemma_le_len(ch.last() as nat, 8);
        let b = channels_bytes(ch);
        assert forall|i: int| 0 <= i < ch.len() implies b.subrange(8 * i, 8 * i + 8) == le_bytes(#[trigger] ch[i] as nat, 8) by {
            if i < rest.len() {
                assert(rest[i] == ch[i]);
                assert(b.subrange(8 * i, 8 * i + 8) =~= channels_bytes(rest).subrange(8 * i, 8 * i + 8));
            } else {
                assert(b.subrange(8 * i, 8 * i + 8) =~= le_bytes(ch.last() as nat, 8));
            }
        }
    }
}

proof fn lemma_le_len(v: nat, n: nat)
    ensures
        le_bytes(v, n).len() == n,
    decreases n,
{
    if n > 0 {
        lemma_le_len(v / 256, (n - 1) as nat);
    }
}

/// The reading written for sensor `j`: its entry of `adc`, or zero.
pub open spec fn reading_or_zero(adc: Seq<u32>, j: int) -> u32 {
    if j < adc.len() {
        adc[j]
    } else {
        0
    }
}

proof fn lemma_tail_layout(line_visible: bool, adc: Seq<u32>, n: nat)
    ensures
        record_tail(line_visible, adc, n).len() == 1 + 4 * n,
        record_tail(line_visible, adc, n)[0] == (if line_visible { 1u8 } else { 0u8 }),
        forall|j: int| 0 <= j < n ==> record_tail(line_visible, adc, n).subrange(1 + 4 * j, 5 + 4 * j)
            == le_bytes(#[trigger] reading_or_zero(adc, j) as nat, 4),
    decreases n,
{
    if n > 0 {
        let m = (n - 1) as nat;
        lemma_tail_layout(line_visible, adc, m);
        lemma_le_len(reading_or_zero(adc, m as int) as nat, 4);
        let b = record_tail(line_visible, adc, n);
        let a = record_tail(line_visible, adc, m);
        assert forall|j: int| 0 <= j < n implies b.subrange(1 + 4 * j, 5 + 4 * j) == le_bytes(
            #[trigger] reading_or_zero(adc, j) as nat,
            4,
        ) by {
            if j < m {
                assert(b.subrange(1 + 4 * j, 5 + 4 * j) =~= a.subrange(1 + 4 * j, 5 + 4 * j));
            } else {
                assert(b.subrange(1 + 4 * j, 5 + 4 * j) =~= le_bytes(reading_or_zero(adc, m as int) as nat, 4));
            }
        }
    }
}

/// A record written after any bytes, and followed by any bytes, is read
/// back whole at its position: the same time, channels and line flag, and
/// for each sensor the reading written for it (zero where none was given).
pub proof fn lemma_record_roundtrip(
    prefix: Seq<u8>,
    t_us: u64,
    ch: Seq<u64>,
    line_visible: bool,
    adc: Seq<u32>,
    sensor_count: nat,
    suffix: Seq<u8>,
)
    requires
        ch.len() == FIXED_F64_COUNT,
    ensures
        ({
            let input = prefix + record_bytes(t_us, ch, line_visible, adc, sensor_count) + suffix;
            &&& prefix.len() + record_len(sensor_count) <= input.len()
            &&& decoded_record(input, prefix.len() as int, sensor_count) == (
                t_us,
                ch,
                line_visible,
                Seq::new(sensor_count, |j: int| reading_or_zero(adc, j)),
            )
        }),
{
    let rb = record_bytes(t_us, ch, line_visible, adc, sensor_count);
    let input = prefix + rb + suffix;
    let p = prefix.len() as int;
    let head = le_bytes(t_us as nat, 8);
    let body = channels_bytes(ch);
    let tail = record_tail(line_visible, adc, sensor_count);
    lemma_le_len(t_us as nat, 8);
    lemma_channels_layout(ch);
    lemma_tail_layout(line_visible, adc, sensor_count);
    assert(pow256(8) == 0x1_0000_0000_0000_0000) by {
        reveal_with_fuel(pow256, 9);
    }
    assert(pow256(4) == 0x1_0000_0000) by {
        reveal_with_fuel(pow256, 5);
    }
    assert(rb.len() == record_len(sensor_count));
    assert(input.subrange(p, p + 8) =~= head);
    lemma_le_roundtrip(t_us as nat, 8);
    let dc = decoded_channels(input, p);
    assert forall|i: int| 0 <= i < 44 implies dc[i] == ch[i] by {
        assert(input.subrange(p + 8 + 8 * i, p + 8 + 8 * i + 8) =~= body.subrange(8 * i, 8 * i + 8));
        lemma_le_roundtrip(ch[i] as nat, 8);
    }
    assert(dc =~= ch);
    assert(input[p + 360] == tail[0]);
    let da = decoded_adc(input, p, sensor_count);
    let want = Seq::new(sensor_count, |j: int| reading_or_zero(adc, j));
    assert forall|j: int| 0 <= j < sensor_count implies da[j] == want[j] by {
        assert(input.subrange(p + 361 + 4 * j, p + 361 + 4 * j + 4) =~= tail.subrange(1 + 4 * j, 5 + 4 * j));
        lemma_le_roundtrip(reading_or_zero(adc, j) as nat, 4);
    }
    assert(da =~= want);
}

} // verus!
