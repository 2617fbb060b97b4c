//! The host poller: processor, memory, disks and network as last sampled,
//! and the texts in which byte counts and the uptime are shown.

use crate::binary32;
use crate::clock::{due, is_due};
use crate::probe::{
    disk_list, disk_rows, host_counters, network_rows, network_table, read_disks, read_host,
    read_networks, read_sensors, sensor_list, sensor_rows, DiskReading, DiskRow, HostCounters,
    HostReading, NetworkReading, NetworkRow, SensorReading, SensorRow,
};
use crate::sysfs::{read_chars, same_chars, Directory};
use crate::text::{
    after_prefix, all_digits, chars_of, contains, decimal_u64, has_prefix, has_substring, lines,
    only_digits, parse_u64, split_lines, starts_with, string_of, trim, trimmed, views,
};
use crate::rounding::{
    lemma_shown_tenths_bounds, lemma_shown_tenths_monotone, shown_tenths, tenths_shown,
};
use crate::units::{ratio, ratio_ppm, used_amount, used_of, PPM};
use sysinfo::{Components, Disks, Networks, System};
use vstd::prelude::*;
use vstd::string::*;

verus! {

/// The character that writes the digit `d`.
pub open spec fn digit_char(d: int) -> char {
    (48 + d) as char
}

/// `n` in decimal digits, without leading zeros.
pub open spec fn decimal_text(n: nat) -> Seq<char>
    decreases n,
{
    if n < 10 {
        seq![digit_char(n as int)]
    } else {
        decimal_text(n / 10).push(digit_char((n % 10) as int))
    }
}

/// `n` in decimal digits, with a zero in front where it has one digit only.
pub open spec fn two_digits(n: nat) -> Seq<char> {
    if n < 10 {
        seq!['0'] + decimal_text(n)
    } else {
        decimal_text(n)
    }
}

/// An uptime of `seconds` as hours, minutes and seconds, each of two digits
/// at least, with colons between. The hours are not cut at a day, nor at two
/// digits.
pub open spec fn uptime_text(seconds: u64) -> Seq<char> {
    two_digits((seconds / 3600) as nat) + seq![':'] + two_digits(((seconds % 3600) / 60) as nat)
        + seq![':'] + two_digits((seconds % 60) as nat)
}

/// The character that writes the digit `d`.
pub(crate) fn digit(d: u8) -> (c: char)
    requires
        d < 10,
    ensures
        c == digit_char(d as int),
{
    (48 + d) as char
}

/// Appends `n` in decimal digits to `out`.
pub fn push_decimal(out: &mut Vec<char>, n: u128)
    ensures
        final(out)@ == old(out)@ + decimal_text(n as nat),
    decreases n,
{
    if n < 10 {
        out.push(digit(n as u8));
        assert(out@ =~= old(out)@ + decimal_text(n as nat));
    } else {
        push_decimal(out, n / 10);
        out.push(digit((n % 10) as u8));
        assert(out@ =~= old(out)@ + decimal_text(n as nat));
    }
}

/// Appends `n` to `out`, in two digits at least.
pub fn push_two_digits(out: &mut Vec<char>, n: u64)
    ensures
        final(out)@ == old(out)@ + two_digits(n as nat),
{
    if n < 10 {
        out.push('0');
    }
    push_decimal(out, n as u128);
    assert(out@ =~= old(out)@ + two_digits(n as nat));
}

/// The uptime `seconds` as `HH:MM:SS`.
pub fn format_uptime(seconds: u64) -> (r: String)
    ensures
        r@ == uptime_text(seconds),
{
    let mut out: Vec<char> = Vec::new();
    push_two_digits(&mut out, seconds / 3600);
    out.push(':');
    push_two_digits(&mut out, (seconds % 3600) / 60);
    out.push(':');
    push_two_digits(&mut out, seconds % 60);
    assert(out@ =~= uptime_text(seconds));
    string_of(out.as_slice())
}

/// A thousand bytes.
pub const KB: u64 = 1_000;

/// A million bytes.
pub const MB: u64 = 1_000_000;

/// A thousand million bytes.
pub const GB: u64 = 1_000_000_000;

/// A million million bytes.
pub const TB: u64 = 1_000_000_000_000;

/// A number of tenths with one decimal place.
pub open spec fn tenths_text(t: nat) -> Seq<char> {
    decimal_text(t / 10) + seq!['.'] + seq![digit_char((t % 10) as int)]
}

/// A count of bytes as it is shown: in the largest of the decimal units TB,
/// GB, MB and KB that it reaches, with one decimal place; below a thousand
/// as a whole number of bytes.
pub open spec fn bytes_text(bytes: u64) -> Seq<char> {
    if bytes >= TB {
        tenths_text(shown_tenths(bytes as nat, TB as nat)) + " TB"@
    } else if bytes >= GB {
        tenths_text(shown_tenths(bytes as nat, GB as nat)) + " GB"@
    } else if bytes >= MB {
        tenths_text(shown_tenths(bytes as nat, MB as nat)) + " MB"@
    } else if bytes >= KB {
        tenths_text(shown_tenths(bytes as nat, KB as nat)) + " KB"@
    } else {
        decimal_text(bytes as nat) + " B"@
    }
}

/// The count of bytes that the text of `bytes` says: the tenths it shows
/// times a tenth of its unit, and `bytes` itself below a thousand.
pub open spec fn shown_bytes(bytes: u64) -> nat {
    if bytes >= TB {
        shown_tenths(bytes as nat, TB as nat) * (TB / 10) as nat
    } else if bytes >= GB {
        shown_tenths(bytes as nat, GB as nat) * (GB / 10) as nat
    } else if bytes >= MB {
        shown_tenths(bytes as nat, MB as nat) * (MB / 10) as nat
    } else if bytes >= KB {
        shown_tenths(bytes as nat, KB as nat) * (KB / 10) as nat
    } else {
        bytes as nat
    }
}

/// What is shown of `bytes` in a unit that it reaches and does not exceed a
/// thousandfold lies between that unit and a thousand of it.
proof fn lemma_shown_within_unit(bytes: u64, u: u64)
    requires
        u == KB || u == MB || u == GB || u == TB,
        u <= bytes,
    ensures
        shown_tenths(bytes as nat, u as nat) * (u / 10) as nat >= u,
        bytes < 1000 * u ==> shown_tenths(bytes as nat, u as nat) * (u / 10) as nat <= 1000 * u,
{
    lemma_shown_tenths_bounds(bytes as nat, u as nat);
    let t = shown_tenths(bytes as nat, u as nat);
    let tenth = (u / 10) as nat;
    assert(t * tenth >= 10 * tenth) by (nonlinear_arith)
        requires
            t >= 10,
    ;
    if bytes < 1000 * u {
        assert(t * tenth <= 10_000 * tenth) by (nonlinear_arith)
            requires
                t <= 10_000,
        ;
    }
}

/// More bytes are never shown as fewer: what the text of a count says does
/// not go down as the count goes up, within one unit and from one unit to
/// the next.
pub proof fn lemma_format_bytes_monotone(a: u64, b: u64)
    requires
        a <= b,
    ensures
        shown_bytes(a) <= shown_bytes(b),
{
    let ua: u64 = if a >= TB {
        TB
    } else if a >= GB {
        GB
    } else if a >= MB {
        MB
    } else {
        KB
    };
    let ub: u64 = if b >= TB {
        TB
    } else if b >= GB {
        GB
    } else if b >= MB {
        MB
    } else {
        KB
    };
    if b < KB {
    } else if a < KB {
        lemma_shown_within_unit(b, ub);
    } else if ua == ub {
        lemma_shown_tenths_monotone(a as nat, b as nat, ua as nat);
        let ta = shown_tenths(a as nat, ua as nat);
        let tb = shown_tenths(b as nat, ua as nat);
        let tenth = (ua / 10) as nat;
        assert(ta * tenth <= tb * tenth) by (nonlinear_arith)
            requires
                ta <= tb,
        ;
    } else {
        lemma_shown_within_unit(a, ua);
        lemma_shown_within_unit(b, ub);
    }
}

/// Appends the characters of `s` to `out`.
pub fn push_text(out: &mut Vec<char>, s: &str)
    ensures
        final(out)@ == old(out)@ + s@,
{
    let mut chars = chars_of(s);
    out.append(&mut chars);
}

/// Appends `t` tenths to `out`, with one decimal place.
pub fn push_tenths(out: &mut Vec<char>, t: u128)
    ensures
        final(out)@ == old(out)@ + tenths_text(t as nat),
{
    push_decimal(out, t / 10);
    out.push('.');
    out.push(digit((t % 10) as u8));
    assert(out@ =~= old(out)@ + tenths_text(t as nat));
}

/// A count of bytes as it is shown.
pub fn format_bytes(bytes: u64) -> (r: String)
    ensures
        r@ == bytes_text(bytes),
{
    let mut out: Vec<char> = Vec::new();
    if bytes >= TB {
        push_tenths(&mut out, tenths_shown(bytes, TB));
        push_text(&mut out, " TB");
    } else if bytes >= GB {
        push_tenths(&mut out, tenths_shown(bytes, GB));
        push_text(&mut out, " GB");
    } else if bytes >= MB {
        push_tenths(&mut out, tenths_shown(bytes, MB));
        push_text(&mut out, " MB");
    } else if bytes >= KB {
        push_tenths(&mut out, tenths_shown(bytes, KB));
        push_text(&mut out, " KB");
    } else {
        push_decimal(&mut out, bytes as u128);
        push_text(&mut out, " B");
    }
    assert(out@ =~= bytes_text(bytes));
    string_of(out.as_slice())
}

/// The least time between two samples, in milliseconds. The bytes that an
/// interface moved between two samples are taken to have moved in this time.
pub const REFRESH_INTERVAL_MS: u64 = 1500;

/// The rate that fills a gauge: 125 million bytes per second.
pub const MAX_RATE: u64 = 125_000_000;

/// The share of `MAX_RATE` that `rate` is, in parts per million, and no more
/// than a whole.
pub open spec fn rate_ppm(rate: u64) -> u64 {
    if rate >= MAX_RATE {
        PPM
    } else {
        (rate * PPM / (MAX_RATE as int)) as u64
    }
}

/// The share of a gauge that a rate of `rate` bytes per second fills, in
/// parts per million.
pub fn rate_fraction(rate: u64) -> (r: u64)
    ensures
        r == rate_ppm(rate),
        r <= PPM,
        rate == 0 ==> r == 0,
        rate >= MAX_RATE ==> r == PPM,
{
    if rate >= MAX_RATE {
        PPM
    } else {
        ((rate as u128) * 1_000_000 / 125_000_000) as u64
    }
}

/// A rate of `rate` bytes per second as it is shown.
pub fn format_rate(rate: u64) -> (r: String)
    ensures
        r@ == bytes_text(rate) + "/s"@,
{
    let mut out = format_bytes(rate);
    out.append("/s");
    out
}

/// The bytes per second that `bytes` in one interval come to, rounded down.
pub open spec fn rate_of(bytes: u64) -> u64 {
    (bytes * 1000 / (REFRESH_INTERVAL_MS as int)) as u64
}

/// Computes `rate_of`.
pub fn window_rate(bytes: u64) -> (r: u64)
    ensures
        r == rate_of(bytes),
{
    ((bytes as u128) * 1000 / 1500) as u64
}

/// One disk as it is shown: where it is mounted, what is used of it and its
/// size in bytes, and the used share in parts per million.
pub struct DiskData {
    pub mount: String,
    pub used: u64,
    pub total: u64,
    pub fraction_ppm: u64,
}

/// A `DiskData` with its text as a sequence of characters.
pub struct DiskState {
    pub mount: Seq<char>,
    pub used: u64,
    pub total: u64,
    pub fraction_ppm: u64,
}

impl View for DiskData {
    type V = DiskState;

    open spec fn view(&self) -> DiskState {
        DiskState {
            mount: self.mount@,
            used: self.used,
            total: self.total,
            fraction_ppm: self.fraction_ppm,
        }
    }
}

/// The views of the elements of `v`.
pub open spec fn disk_states(v: Seq<DiskData>) -> Seq<DiskState> {
    Seq::new(v.len(), |i: int| v[i]@)
}

/// What is used of a disk: its size less what is free, and nothing where
/// more is free than its size.
pub open spec fn used_space(row: DiskRow) -> u64 {
    used_amount(row.total, row.available)
}

/// The disk `row` as it is shown.
pub open spec fn shown_disk(row: DiskRow) -> DiskState {
    DiskState {
        mount: row.mount,
        used: used_space(row),
        total: row.total,
        fraction_ppm: ratio_ppm(used_space(row), row.total),
    }
}

/// The disks that are shown of `rows`: those with a size, in their order.
pub open spec fn shown_disks(rows: Seq<DiskRow>) -> Seq<DiskState>
    decreases rows.len(),
{
    if rows.len() == 0 {
        Seq::empty()
    } else {
        let head = shown_disks(rows.drop_last());
        if rows.last().total > 0 {
            head.push(shown_disk(rows.last()))
        } else {
            head
        }
    }
}

/// The disks that are shown of `readings`.
pub fn disk_info_of(readings: &Vec<DiskReading>) -> (out: Vec<DiskData>)
    ensures
        disk_states(out@) == shown_disks(disk_rows(readings@)),
        forall|i: int| 0 <= i < out@.len() ==> (#[trigger] out@[i]).fraction_ppm <= PPM,
{
    let ghost all = disk_rows(readings@);
    let n: usize = readings.len();
    let mut out: Vec<DiskData> = Vec::new();
    let mut i: usize = 0;
    assert(all.take(0) =~= Seq::<DiskRow>::empty());
    while i < n
        invariant
            i <= n,
            n == readings@.len(),
            all == disk_rows(readings@),
            disk_states(out@) == shown_disks(all.take(i as int)),
            forall|j: int| 0 <= j < out@.len() ==> (#[trigger] out@[j]).fraction_ppm <= PPM,
        decreases n - i,
    {
        let r = &readings[i];
        let ghost before = disk_states(out@);
        assert(all.take(i + 1).drop_last() =~= all.take(i as int));
        assert(all.take(i + 1).last() == r@);
        if r.total > 0 {
            let used: u64 = used_of(r.total, r.available);
            out.push(
                DiskData {
                    mount: r.mount.clone(),
                    used,
                    total: r.total,
                    fraction_ppm: ratio(used, r.total),
                },
            );
            assert(disk_states(out@) =~= before.push(shown_disk(r@)));
        }
        i += 1;
    }
    assert(all.take(n as int) =~= all);
    out
}

/// One network interface as it is shown: its name, the bytes it received and
/// sent in all, and the rates of both in bytes per second. (It is not named
/// after `sysinfo::NetworkData`, which holds the counters it is made from
/// and is declared in this crate too.)
pub struct InterfaceData {
    pub name: String,
    pub rx_bytes: u64,
    pub tx_bytes: u64,
    pub rx_rate: u64,
    pub tx_rate: u64,
}

/// A `InterfaceData` with its text as a sequence of characters.
pub struct InterfaceState {
    pub name: Seq<char>,
    pub rx_bytes: u64,
    pub tx_bytes: u64,
    pub rx_rate: u64,
    pub tx_rate: u64,
}

impl View for InterfaceData {
    type V = InterfaceState;

    open spec fn view(&self) -> InterfaceState {
        InterfaceState {
            name: self.name@,
            rx_bytes: self.rx_bytes,
            tx_bytes: self.tx_bytes,
            rx_rate: self.rx_rate,
            tx_rate: self.tx_rate,
        }
    }
}

/// The views of the elements of `v`.
pub open spec fn network_states(v: Seq<InterfaceData>) -> Seq<InterfaceState> {
    Seq::new(v.len(), |i: int| v[i]@)
}

/// The interface `row` as it is shown.
pub open spec fn shown_network(row: NetworkRow) -> InterfaceState {
    InterfaceState {
        name: row.name,
        rx_bytes: row.total_received,
        tx_bytes: row.total_transmitted,
        rx_rate: rate_of(row.received),
        tx_rate: rate_of(row.transmitted),
    }
}

/// The interfaces `rows` as they are shown, in their order.
pub open spec fn shown_networks(rows: Seq<NetworkRow>) -> Seq<InterfaceState> {
    Seq::new(rows.len(), |i: int| shown_network(rows[i]))
}

/// The interfaces `readings` as they are shown.
pub fn network_info_of(readings: &Vec<NetworkReading>) -> (out: Vec<InterfaceData>)
    ensures
        network_states(out@) == shown_networks(network_rows(readings@)),
{
    let n: usize = readings.len();
    let mut out: Vec<InterfaceData> = Vec::new();
    let mut i: usize = 0;
    while i < n
        invariant
            i <= n,
            n == readings@.len(),
            out@.len() == i,
            forall|j: int| 0 <= j < i ==> (#[trigger] out@[j])@ == shown_network(readings@[j]@),
        decreases n - i,
    {
        let r = &readings[i];
        out.push(
            InterfaceData {
                name: r.name.clone(),
                rx_bytes: r.total_received,
                tx_bytes: r.total_transmitted,
                rx_rate: window_rate(r.received),
                tx_rate: window_rate(r.transmitted),
            },
        );
        i += 1;
    }
    assert(network_states(out@) =~= shown_networks(network_rows(readings@)));
    out
}

/// The index of the first sensor at or after `from` whose label holds
/// `pattern`.
pub open spec fn first_labelled(sensors: Seq<SensorRow>, pattern: Seq<char>, from: int) -> Option<
    int,
>
    decreases sensors.len() - from,
{
    if from < 0 || from >= sensors.len() {
        None
    } else if contains(sensors[from].label, pattern) {
        Some(from)
    } else {
        first_labelled(sensors, pattern, from + 1)
    }
}

/// What the first sensor whose label holds `pattern` reads, if there is such
/// a sensor and it reads anything.
pub open spec fn labelled_reading(sensors: Seq<SensorRow>, pattern: Seq<char>) -> Option<u32> {
    match first_labelled(sensors, pattern, 0) {
        Some(i) => sensors[i].temperature,
        None => None,
    }
}

/// The first reading that a sensor at or after `from` gives.
pub open spec fn first_reading(sensors: Seq<SensorRow>, from: int) -> Option<u32>
    decreases sensors.len() - from,
{
    if from < 0 || from >= sensors.len() {
        None
    } else if sensors[from].temperature.is_some() {
        sensors[from].temperature
    } else {
        first_reading(sensors, from + 1)
    }
}

/// `first`, or `second` where `first` is nothing.
pub open spec fn or_else(first: Option<u32>, second: Option<u32>) -> Option<u32> {
    if first.is_some() {
        first
    } else {
        second
    }
}

/// The temperature of the processor among `sensors`: that of the sensor
/// labelled `Tctl`, else `Tdie`, else `Package id 0`, else `CPU Temperature`,
/// else `CPU`; else the first reading of any sensor; else zero.
pub open spec fn cpu_temperature(sensors: Seq<SensorRow>) -> u32 {
    let found = or_else(
        labelled_reading(sensors, "Tctl"@),
        or_else(
            labelled_reading(sensors, "Tdie"@),
            or_else(
                labelled_reading(sensors, "Package id 0"@),
                or_else(
                    labelled_reading(sensors, "CPU Temperature"@),
                    or_else(labelled_reading(sensors, "CPU"@), first_reading(sensors, 0)),
                ),
            ),
        ),
    );
    match found {
        Some(t) => t,
        None => 0,
    }
}

/// Computes `labelled_reading`.
pub fn reading_labelled(sensors: &Vec<SensorReading>, pattern: &str) -> (r: Option<u32>)
    ensures
        r == labelled_reading(sensor_rows(sensors@), pattern@),
{
    let needle = chars_of(pattern);
    let n: usize = sensors.len();
    let ghost rows = sensor_rows(sensors@);
    let mut i: usize = 0;
    while i < n
        invariant
            i <= n,
            n == sensors@.len(),
            rows == sensor_rows(sensors@),
            needle@ == pattern@,
            first_labelled(rows, pattern@, 0) == first_labelled(rows, pattern@, i as int),
        decreases n - i,
    {
        assert(rows[i as int] == sensors@[i as int]@);
        let label = chars_of(sensors[i].label.as_str());
        if has_substring(label.as_slice(), needle.as_slice()) {
            return sensors[i].temperature;
        }
        i += 1;
    }
    None
}

/// Computes `first_reading` from the start.
pub fn any_reading(sensors: &Vec<SensorReading>) -> (r: Option<u32>)
    ensures
        r == first_reading(sensor_rows(sensors@), 0),
{
    let n: usize = sensors.len();
    let ghost rows = sensor_rows(sensors@);
    let mut i: usize = 0;
    while i < n
        invariant
            i <= n,
            n == sensors@.len(),
            rows == sensor_rows(sensors@),
            first_reading(rows, 0) == first_reading(rows, i as int),
        decreases n - i,
    {
        assert(rows[i as int] == sensors@[i as int]@);
        if sensors[i].temperature.is_some() {
            return sensors[i].temperature;
        }
        i += 1;
    }
    None
}

/// The temperature of the processor among `sensors`.
pub fn find_cpu_temp(sensors: &Vec<SensorReading>) -> (r: u32)
    ensures
        r == cpu_temperature(sensor_rows(sensors@)),
{
    if let Some(t) = reading_labelled(sensors, "Tctl") {
        return t;
    }
    if let Some(t) = reading_labelled(sensors, "Tdie") {
        return t;
    }
    if let Some(t) = reading_labelled(sensors, "Package id 0") {
        return t;
    }
    if let Some(t) = reading_labelled(sensors, "CPU Temperature") {
        return t;
    }
    if let Some(t) = reading_labelled(sensors, "CPU") {
        return t;
    }
    match any_reading(sensors) {
        Some(t) => t,
        None => 0,
    }
}

/// The characters of a text that may be missing.
pub open spec fn text_of(content: Option<&str>) -> Option<Seq<char>> {
    match content {
        Some(c) => Some(c@),
        None => None,
    }
}

/// The greatest frequency in kilohertz that the content of the frequency
/// file gives; zero where there is no file or no number in it.
pub open spec fn max_freq_khz(content: Option<Seq<char>>) -> u64 {
    match content {
        Some(c) => match decimal_u64(trimmed(c)) {
            Some(v) => v,
            None => 0,
        },
        None => 0,
    }
}

/// The greatest frequency of the processor in kilohertz.
pub fn read_max_freq_khz(content: Option<&str>) -> (r: u64)
    ensures
        r == max_freq_khz(text_of(content)),
{
    match content {
        Some(c) => {
            let chars = chars_of(c);
            match parse_u64(trim(chars.as_slice())) {
                Some(v) => v,
                None => 0,
            }
        },
        None => 0,
    }
}

/// The index of the first line at or after `from` that begins with `prefix`.
pub open spec fn first_with_prefix(all: Seq<Seq<char>>, prefix: Seq<char>, from: int) -> Option<
    int,
>
    decreases all.len() - from,
{
    if from < 0 || from >= all.len() {
        None
    } else if starts_with(all[from], prefix) {
        Some(from)
    } else {
        first_with_prefix(all, prefix, from + 1)
    }
}

/// The virtualization that a line of processor flags shows.
pub open spec fn virtualization_of_flags(flags: Seq<char>) -> Seq<char> {
    if contains(flags, "svm"@) {
        "AMD-V"@
    } else if contains(flags, "vmx"@) {
        "Intel VT-x"@
    } else {
        "None"@
    }
}

/// The virtualization that the processor can do, by the first line of flags
/// in the description `content` of the processors; `None` where there is no
/// such line.
pub open spec fn virtualization_text(content: Option<Seq<char>>) -> Seq<char> {
    match content {
        Some(c) => match first_with_prefix(lines(c), "flags"@, 0) {
            Some(i) => virtualization_of_flags(lines(c)[i]),
            None => "None"@,
        },
        None => "None"@,
    }
}

/// The virtualization that the processor can do: `AMD-V`, `Intel VT-x`, or
/// `None`. This is what the processor is able to do, not whether a
/// hypervisor runs.
pub fn detect_virtualization(content: Option<&str>) -> (r: String)
    ensures
        r@ == virtualization_text(text_of(content)),
{
    let c = match content {
        Some(c) => c,
        None => {
            return String::from_str("None");
        },
    };
    let chars = chars_of(c);
    let all = split_lines(chars.as_slice());
    let prefix = chars_of("flags");
    let n: usize = all.len();
    let mut i: usize = 0;
    while i < n
        invariant
            i <= n,
            n == all@.len(),
            content == Some(c),
            views(all@) == lines(c@),
            prefix@ == "flags"@,
            first_with_prefix(lines(c@), "flags"@, 0) == first_with_prefix(
                lines(c@),
                "flags"@,
                i as int,
            ),
        decreases n - i,
    {
        assert(views(all@)[i as int] == all@[i as int]@);
        let line = all[i].as_slice();
        if has_prefix(line, prefix.as_slice()) {
            if has_substring(line, chars_of("svm").as_slice()) {
                return String::from_str("AMD-V");
            } else if has_substring(line, chars_of("vmx").as_slice()) {
                return String::from_str("Intel VT-x");
            } else {
                return String::from_str("None");
            }
        }
        i += 1;
    }
    String::from_str("None")
}

/// Whether `name` is `cpu` followed by decimal digits only.
pub open spec fn is_cpu_name(name: Seq<char>) -> bool {
    starts_with(name, "cpu"@) && all_digits(name.skip("cpu"@.len() as int))
}

/// The package that the processor directory `d` names, if it is one and
/// names any.
pub open spec fn package_id(d: Directory) -> Option<Seq<char>> {
    if is_cpu_name(d.name@) {
        d.attribute("topology/physical_package_id"@)
    } else {
        None
    }
}

/// The packages that the directories `cpus` name.
pub open spec fn package_ids(cpus: Seq<Directory>) -> Set<Seq<char>> {
    Set::new(|id: Seq<char>| exists|i: int| 0 <= i < cpus.len() && package_id(cpus[i]) == Some(id))
}

/// The number of processor sockets that the directories `cpus` show: the
/// number of packages they name, and one where they name none.
pub open spec fn socket_count(cpus: Seq<Directory>) -> nat {
    if package_ids(cpus).len() == 0 {
        1
    } else {
        package_ids(cpus).len()
    }
}

/// Decides `is_cpu_name`.
pub fn cpu_name(name: &[char]) -> (r: bool)
    ensures
        r == is_cpu_name(name@),
{
    let prefix = chars_of("cpu");
    match after_prefix(name, prefix.as_slice()) {
        Some(rest) => only_digits(rest),
        None => false,
    }
}

/// Whether `id` is among `seen`.
fn is_member(seen: &Vec<Vec<char>>, id: &[char]) -> (r: bool)
    ensures
        r == views(seen@).contains(id@),
{
    let n: usize = seen.len();
    let mut i: usize = 0;
    while i < n
        invariant
            i <= n,
            n == seen@.len(),
            forall|j: int| 0 <= j < i ==> views(seen@)[j] != id@,
        decreases n - i,
    {
        assert(views(seen@)[i as int] == seen@[i as int]@);
        if same_chars(seen[i].as_slice(), id) {
            return true;
        }
        i += 1;
    }
    false
}

/// The packages named by the first `n + 1` directories are those named by
/// the first `n` and the one that directory `n` names.
proof fn lemma_package_ids_step(cpus: Seq<Directory>, n: int)
    requires
        0 <= n < cpus.len(),
    ensures
        package_ids(cpus.take(n + 1)) == match package_id(cpus[n]) {
            Some(id) => package_ids(cpus.take(n)).insert(id),
            None => package_ids(cpus.take(n)),
        },
{
    let more = cpus.take(n + 1);
    let fewer = cpus.take(n);
    let expected = match package_id(cpus[n]) {
        Some(id) => package_ids(fewer).insert(id),
        None => package_ids(fewer),
    };
    assert forall|x: Seq<char>| package_ids(more).contains(x) implies expected.contains(x) by {
        let i = choose|i: int| 0 <= i < more.len() && package_id(more[i]) == Some(x);
        if i < n {
            assert(fewer[i] == more[i]);
            assert(0 <= i < fewer.len() && package_id(fewer[i]) == Some(x));
        }
    }
    assert forall|x: Seq<char>| expected.contains(x) implies package_ids(more).contains(x) by {
        if package_id(cpus[n]) == Some(x) {
            assert(0 <= n < more.len() && package_id(more[n]) == Some(x));
        } else {
            let i = choose|i: int| 0 <= i < fewer.len() && package_id(fewer[i]) == Some(x);
            assert(more[i] == fewer[i]);
            assert(0 <= i < more.len() && package_id(more[i]) == Some(x));
        }
    }
    assert(package_ids(more) =~= expected);
}

/// The number of processor sockets: the number of different packages that
/// the processor directories name, and never less than one. The packages
/// met so far are kept in a vector that holds none twice.
pub fn count_sockets(cpus: &Vec<Directory>) -> (r: usize)
    ensures
        r == socket_count(cpus@),
        r >= 1,
{
    let n: usize = cpus.len();
    let mut seen: Vec<Vec<char>> = Vec::new();
    let mut i: usize = 0;
    assert(package_ids(cpus@.take(0)) =~= Set::<Seq<char>>::empty());
    assert(views(seen@).to_set() =~= Set::<Seq<char>>::empty());
    while i < n
        invariant
            i <= n,
            n == cpus@.len(),
            seen@.len() <= i,
            views(seen@).no_duplicates(),
            views(seen@).to_set() == package_ids(cpus@.take(i as int)),
        decreases n - i,
    {
        proof {
            lemma_package_ids_step(cpus@, i as int);
        }
        let ghost before = views(seen@);
        let name = chars_of(cpus[i].name.as_str());
        if cpu_name(name.as_slice()) {
            match read_chars(&cpus[i], "topology/physical_package_id") {
                Some(id) => {
                    if !is_member(&seen, id.as_slice()) {
                        let ghost x = id@;
                        seen.push(id);
                        assert(views(seen@) =~= before.push(x));
                        assert(before.push(x).to_set() =~= before.to_set().insert(x)) by {
                            assert forall|y: Seq<char>|
                                before.push(x).to_set().contains(y) == before.to_set().insert(
                                    x,
                                ).contains(y) by {
                                if before.push(x).contains(y) {
                                    let j = choose|j: int|
                                        0 <= j < before.push(x).len() && before.push(x)[j] == y;
                                    if j < before.len() {
                                        assert(before[j] == y);
                                    }
                                }
                                if before.contains(y) {
                                    let j = choose|j: int| 0 <= j < before.len() && before[j] == y;
                                    assert(before.push(x)[j] == y);
                                }
                                if y == x {
                                    assert(before.push(x)[before.len() as int] == y);
                                }
                            }
                        }
                    } else {
                        assert(before.to_set().insert(id@) =~= before.to_set());
                    }
                },
                None => {},
            }
        }
        i += 1;
    }
    assert(cpus@.take(n as int) =~= cpus@);
    proof {
        views(seen@).unique_seq_to_set();
    }
    if seen.len() == 0 {
        1
    } else {
        seen.len()
    }
}

/// The names of the files that are read of a processor directory.
pub fn cpu_file_names() -> (names: Vec<&'static str>)
    ensures
        names@.len() == 1,
        names@[0]@ == "topology/physical_package_id"@,
{
    vec!["topology/physical_package_id"]
}

/// What is read once of the processor, from files and from the operating
/// system: the content of the file with the greatest frequency, the
/// processor directories, the description of the processors, the number of
/// physical cores, and the architecture. What could not be read is `None`.
pub struct HostFiles {
    pub max_freq: Option<String>,
    pub cpus: Vec<Directory>,
    pub cpuinfo: Option<String>,
    pub physical_cores: Option<usize>,
    pub architecture: String,
}

/// The state of the host as last sampled.
///
/// The processor's temperature and the highest one so far are the bits of
/// single-precision numbers, in degrees Celsius. What describes the
/// processor itself is read once, when the state is made.
pub struct SystemInfo {
    pub host: HostReading,
    pub disks: Vec<DiskReading>,
    pub networks: Vec<NetworkReading>,
    pub cpu_temp: u32,
    pub cpu_temp_max: u32,
    pub cpu_max_freq_khz: u64,
    pub cpu_logical_cores: usize,
    pub cpu_physical_cores: usize,
    pub cpu_sockets: usize,
    pub cpu_virtualization: String,
    pub cpu_architecture: String,
    pub last_refresh: u64,
}

/// A `SystemInfo` with texts and vectors as sequences.
pub struct HostState {
    pub host: HostCounters,
    pub disks: Seq<DiskRow>,
    pub networks: Seq<NetworkRow>,
    pub cpu_temp: u32,
    pub cpu_temp_max: u32,
    pub cpu_max_freq_khz: u64,
    pub cpu_logical_cores: usize,
    pub cpu_physical_cores: usize,
    pub cpu_sockets: usize,
    pub cpu_virtualization: Seq<char>,
    pub cpu_architecture: Seq<char>,
    pub last_refresh: u64,
}

impl View for SystemInfo {
    type V = HostState;

    open spec fn view(&self) -> HostState {
        HostState {
            host: self.host@,
            disks: disk_rows(self.disks@),
            networks: network_rows(self.networks@),
            cpu_temp: self.cpu_temp,
            cpu_temp_max: self.cpu_temp_max,
            cpu_max_freq_khz: self.cpu_max_freq_khz,
            cpu_logical_cores: self.cpu_logical_cores,
            cpu_physical_cores: self.cpu_physical_cores,
            cpu_sockets: self.cpu_sockets,
            cpu_virtualization: self.cpu_virtualization@,
            cpu_architecture: self.cpu_architecture@,
            last_refresh: self.last_refresh,
        }
    }
}

/// The characters of a text that may be missing.
pub open spec fn chars_in(content: Option<String>) -> Option<Seq<char>> {
    match content {
        Some(c) => Some(c@),
        None => None,
    }
}

/// The state that a first sample at `now` makes.
pub open spec fn first_sample(
    now: u64,
    host: HostCounters,
    disks: Seq<DiskRow>,
    networks: Seq<NetworkRow>,
    sensors: Seq<SensorRow>,
    files: HostFiles,
) -> HostState {
    HostState {
        host,
        disks,
        networks,
        cpu_temp: cpu_temperature(sensors),
        cpu_temp_max: cpu_temperature(sensors),
        cpu_max_freq_khz: max_freq_khz(chars_in(files.max_freq)),
        cpu_logical_cores: host.cpu_per_core.len() as usize,
        cpu_physical_cores: match files.physical_cores {
            Some(n) => n,
            None => 0,
        },
        cpu_sockets: socket_count(files.cpus@) as usize,
        cpu_virtualization: virtualization_text(chars_in(files.cpuinfo)),
        cpu_architecture: files.architecture@,
        last_refresh: now,
    }
}

/// The state after a sample at `now`: all counters are replaced as one, the
/// highest temperature rises where the new one is higher, and what describes
/// the processor stays.
pub open spec fn sampled(
    before: HostState,
    now: u64,
    host: HostCounters,
    disks: Seq<DiskRow>,
    networks: Seq<NetworkRow>,
    sensors: Seq<SensorRow>,
) -> HostState {
    HostState {
        host,
        disks,
        networks,
        cpu_temp: cpu_temperature(sensors),
        cpu_temp_max: binary32::running_max(before.cpu_temp_max, cpu_temperature(sensors)),
        last_refresh: now,
        ..before
    }
}

/// The state after a tick at `now`: sampled where a sample is due, else
/// `before`.
pub open spec fn ticked(
    before: HostState,
    now: u64,
    host: HostCounters,
    disks: Seq<DiskRow>,
    networks: Seq<NetworkRow>,
    sensors: Seq<SensorRow>,
) -> HostState {
    if is_due(before.last_refresh, now, REFRESH_INTERVAL_MS) {
        sampled(before, now, host, disks, networks, sensors)
    } else {
        before
    }
}

/// A tick that comes less than an interval after the last sample changes
/// nothing, whatever the host shows by then: polling faster than the
/// interval gives the same snapshot again.
pub proof fn lemma_tick_within_interval(
    state: HostState,
    later: u64,
    host: HostCounters,
    disks: Seq<DiskRow>,
    networks: Seq<NetworkRow>,
    sensors: Seq<SensorRow>,
)
    requires
        later - state.last_refresh < REFRESH_INTERVAL_MS,
    ensures
        ticked(state, later, host, disks, networks, sensors) == state,
{
}

/// Neither the highest temperature nor the time of the last sample ever goes
/// down, whatever a tick finds.
pub proof fn lemma_tick_monotone(
    before: HostState,
    now: u64,
    host: HostCounters,
    disks: Seq<DiskRow>,
    networks: Seq<NetworkRow>,
    sensors: Seq<SensorRow>,
)
    ensures
        !binary32::lt(
            ticked(before, now, host, disks, networks, sensors).cpu_temp_max,
            before.cpu_temp_max,
        ),
        ticked(before, now, host, disks, networks, sensors).last_refresh >= before.last_refresh,
{
}

/// The text in `content`, where there is one.
fn as_text(content: &Option<String>) -> (r: Option<&str>)
    ensures
        text_of(r) == chars_in(*content),
{
    match content {
        Some(s) => Some(s.as_str()),
        None => None,
    }
}

impl SystemInfo {
    /// The state that a first sample at `now_ms` makes. The caller has
    /// refreshed `system`, `networks`, `disks` and `components` before.
    pub fn new(
        now_ms: u64,
        system: &System,
        networks: &Networks,
        disks: &Disks,
        components: &Components,
        files: &HostFiles,
    ) -> (info: SystemInfo)
        ensures
            info@ == first_sample(
                now_ms,
                host_counters(*system),
                disk_list(*disks),
                info@.networks,
                sensor_list(*components),
                *files,
            ),
            info@.networks.to_multiset() == network_table(*networks),
    {
        let host = read_host(system);
        let sensors = read_sensors(components);
        let cpu_temp = find_cpu_temp(&sensors);
        let cpu_logical_cores = host.cpu_per_core.len();
        SystemInfo {
            host,
            disks: read_disks(disks),
            networks: read_networks(networks),
            cpu_temp,
            cpu_temp_max: cpu_temp,
            cpu_max_freq_khz: read_max_freq_khz(as_text(&files.max_freq)),
            cpu_logical_cores,
            cpu_physical_cores: match files.physical_cores {
                Some(n) => n,
                None => 0,
            },
            cpu_sockets: count_sockets(&files.cpus),
            cpu_virtualization: detect_virtualization(as_text(&files.cpuinfo)),
            cpu_architecture: files.architecture.clone(),
            last_refresh: now_ms,
        }
    }

    /// Whether a sample is due at `now_ms`.
    pub fn due(&self, now_ms: u64) -> (r: bool)
        ensures
            r == is_due(self.last_refresh, now_ms, REFRESH_INTERVAL_MS),
    {
        due(self.last_refresh, now_ms, REFRESH_INTERVAL_MS)
    }

    /// Samples the host where the interval has passed since the last sample,
    /// and says whether it did. Otherwise the state stays as it is. The
    /// caller has refreshed `system`, `networks`, `disks` and `components`
    /// where a sample is due.
    pub fn refresh_if_needed(
        &mut self,
        now_ms: u64,
        system: &System,
        networks: &Networks,
        disks: &Disks,
        components: &Components,
    ) -> (r: bool)
        ensures
            r == is_due(old(self).last_refresh, now_ms, REFRESH_INTERVAL_MS),
            final(self)@ == ticked(
                old(self)@,
                now_ms,
                host_counters(*system),
                disk_list(*disks),
                final(self)@.networks,
                sensor_list(*components),
            ),
            r ==> final(self)@.networks.to_multiset() == network_table(*networks),
            final(self).last_refresh >= old(self).last_refresh,
    {
        if self.due(now_ms) {
            self.host = read_host(system);
            self.networks = read_networks(networks);
            self.disks = read_disks(disks);
            let sensors = read_sensors(components);
            let temp = find_cpu_temp(&sensors);
            self.cpu_temp = temp;
            self.cpu_temp_max = binary32::max_so_far(self.cpu_temp_max, temp);
            self.last_refresh = now_ms;
            true
        } else {
            false
        }
    }

    /// The processor's use as a whole, in percent, as the bits of a
    /// single-precision number.
    pub fn cpu_total(&self) -> (r: u32)
        ensures
            r == self@.host.cpu_total,
    {
        self.host.cpu_total
    }

    /// The use of each core, in percent, each as the bits of a
    /// single-precision number.
    pub fn cpu_per_core(&self) -> (r: Vec<u32>)
        ensures
            r@ == self@.host.cpu_per_core,
    {
        self.host.cpu_per_core.clone()
    }

    /// The memory in use, in bytes: its size less what is available, and
    /// nothing where more is said to be available than there is.
    pub fn memory_used(&self) -> (r: u64)
        ensures
            r == used_amount(self@.host.memory_total, self@.host.memory_available),
            r <= self@.host.memory_total,
    {
        used_of(self.host.memory_total, self.host.memory_available)
    }

    /// The size of the memory, in bytes.
    pub fn memory_total(&self) -> (r: u64)
        ensures
            r == self@.host.memory_total,
    {
        self.host.memory_total
    }

    /// The share of the memory that is in use, in parts per million; zero
    /// where the host reports no memory.
    pub fn memory_fraction(&self) -> (r: u64)
        ensures
            r == ratio_ppm(
                used_amount(self@.host.memory_total, self@.host.memory_available),
                self@.host.memory_total,
            ),
            r <= PPM,
    {
        ratio(self.memory_used(), self.host.memory_total)
    }

    /// The share of the swap space that is in use, in parts per million;
    /// zero where the host has none.
    pub fn swap_fraction(&self) -> (r: u64)
        ensures
            r == ratio_ppm(
                used_amount(self@.host.swap_total, self@.host.swap_free),
                self@.host.swap_total,
            ),
            r <= PPM,
    {
        ratio(self.swap_used(), self.host.swap_total)
    }

    /// The swap space in use, in bytes: its size less what is free, and
    /// nothing where more is said to be free than there is.
    pub fn swap_used(&self) -> (r: u64)
        ensures
            r == used_amount(self@.host.swap_total, self@.host.swap_free),
            r <= self@.host.swap_total,
    {
        used_of(self.host.swap_total, self.host.swap_free)
    }

    /// The size of the swap space, in bytes.
    pub fn swap_total(&self) -> (r: u64)
        ensures
            r == self@.host.swap_total,
    {
        self.host.swap_total
    }

    /// The disks that have a size, each with its used share.
    pub fn disk_info(&self) -> (r: Vec<DiskData>)
        ensures
            disk_states(r@) == shown_disks(self@.disks),
    {
        disk_info_of(&self.disks)
    }

    /// The network interfaces, each with its rates over the last interval.
    pub fn network_info(&self) -> (r: Vec<InterfaceData>)
        ensures
            network_states(r@) == shown_networks(self@.networks),
    {
        network_info_of(&self.networks)
    }
}

} // verus!
