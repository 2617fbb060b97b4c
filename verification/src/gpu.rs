//! The graphics poller: what the first graphics card's directories say of it,
//! normalised and refreshed at most once per interval.

use crate::clock::{due, is_due};
use crate::sysfs::{
    number_or_zero, read_at, read_chars, read_number, read_u64, same_chars, Directory,
};
use crate::units::{cut_to_u32, low_u32};
use crate::text::{
    after_prefix, all_digits, chars_of, contains, decimal_u32, find,
    first_occurrence, has_char, has_substring, last_token, last_word,
    lemma_lex_le_transitive, lemma_lex_lt_asymmetric, lemma_lex_lt_total, lex_lt, lines,
    lowercase, lowered, only_digits, parse_u32, precedes, split_lines, starts_with, string_of,
    strip_prefix, trim, trimmed, views,
};
use vstd::prelude::*;
use vstd::string::*;

verus! {

/// What one line of a clock-level file says, given in lower case: nothing
/// (`None`) where it names no `mhz`, else the number written in the last word
/// before the first `mhz`, if that word is a number of 32 bits.
pub open spec fn clock_in_lowered(lower: Seq<char>) -> Option<Option<u32>> {
    match first_occurrence(lower, "mhz"@) {
        None => None,
        Some(pos) => Some(
            match last_token(lower.take(pos)) {
                Some(word) => decimal_u32(word),
                None => None,
            },
        ),
    }
}

/// What one line of a clock-level file says of the active level: nothing
/// where it is not marked with an asterisk.
pub open spec fn clock_in_line(line: Seq<char>) -> Option<Option<u32>> {
    if line.contains('*') {
        clock_in_lowered(lowercase(line))
    } else {
        None
    }
}

/// The active clock that the lines from index `from` on give: that of the
/// first line which says anything.
pub open spec fn active_clock_from(all: Seq<Seq<char>>, from: int) -> Option<u32>
    decreases all.len() - from,
{
    if from < 0 || from >= all.len() {
        None
    } else {
        match clock_in_line(all[from]) {
            Some(r) => r,
            None => active_clock_from(all, from + 1),
        }
    }
}

/// The active clock in megahertz that the content of a clock-level file gives.
pub open spec fn active_clock(content: Seq<char>) -> Option<u32> {
    active_clock_from(lines(content), 0)
}

/// Reads the clock of one line that is already in lower case.
pub fn clock_from_lowered(lower: &[char]) -> (r: Option<Option<u32>>)
    ensures
        r == clock_in_lowered(lower@),
{
    let unit = chars_of("mhz");
    match find(lower, unit.as_slice()) {
        None => None,
        Some(pos) => {
            assert(lower@.take(pos as int) =~= lower@.subrange(0, pos as int));
            match last_word(&lower[0..pos]) {
                Some(word) => Some(parse_u32(word)),
                None => Some(None),
            }
        },
    }
}

/// The active clock in megahertz: the number before `MHz`, in any case of
/// letters, on the first line that holds an asterisk and that unit.
pub fn parse_active_clock_mhz(content: &str) -> (r: Option<u32>)
    ensures
        r == active_clock(content@),
{
    let chars = chars_of(content);
    let all = split_lines(chars.as_slice());
    let n: usize = all.len();
    let mut i: usize = 0;
    while i < n
        invariant
            i <= n,
            n == all@.len(),
            views(all@) == lines(content@),
            active_clock(content@) == active_clock_from(lines(content@), i as int),
        decreases n - i,
    {
        assert(views(all@)[i as int] == all@[i as int]@);
        let line = all[i].as_slice();
        if has_char(line, '*') {
            let lower = lowered(line);
            match clock_from_lowered(lower.as_slice()) {
                Some(r) => {
                    return r;
                },
                None => {},
            }
        }
        i += 1;
    }
    None
}

/// The generation of a link that runs at `speed`, a text such as `8.0 GT/s`.
pub open spec fn pcie_generation(speed: Seq<char>) -> Seq<char> {
    if contains(speed, "2.5"@) {
        "1.0"@
    } else if contains(speed, "5.0"@) {
        "2.0"@
    } else if contains(speed, "8.0"@) {
        "3.0"@
    } else if contains(speed, "16.0"@) {
        "4.0"@
    } else if contains(speed, "32.0"@) {
        "5.0"@
    } else {
        "?"@
    }
}

/// The description of a link of speed `speed` and `width` lanes; `N/A` where
/// either is empty.
pub open spec fn pcie_link_text(speed: Seq<char>, width: Seq<char>) -> Seq<char> {
    if speed.len() > 0 && width.len() > 0 {
        "PCIe "@ + pcie_generation(speed) + " x"@ + width
    } else {
        "N/A"@
    }
}

/// The name of the vendor whose identifier, trimmed and in lower case, is
/// `id`: the identifier itself where it is not a known one.
pub open spec fn vendor_name(id: Seq<char>) -> Seq<char> {
    if id == "0x1002"@ {
        "Advanced Micro Devices, Inc. [AMD/ATI]"@
    } else if id == "0x10de"@ {
        "NVIDIA Corporation"@
    } else if id == "0x8086"@ {
        "Intel Corporation"@
    } else {
        id
    }
}

/// What follows `key` on the last of the first `n` lines that begin with it,
/// or `default` where none does.
pub open spec fn last_value(
    all: Seq<Seq<char>>,
    n: int,
    key: Seq<char>,
    default: Seq<char>,
) -> Seq<char>
    decreases n,
{
    if n <= 0 || n > all.len() {
        default
    } else {
        match strip_prefix(all[n - 1], key) {
            Some(v) => v,
            None => last_value(all, n - 1, key, default),
        }
    }
}

/// The driver that the event file `content` names, or `Unknown`.
pub open spec fn uevent_driver(content: Option<Seq<char>>) -> Seq<char> {
    match content {
        Some(c) => last_value(lines(c), lines(c).len() as int, "DRIVER="@, "Unknown"@),
        None => "Unknown"@,
    }
}

/// The bus slot that the event file `content` names, or `N/A`.
pub open spec fn uevent_slot(content: Option<Seq<char>>) -> Seq<char> {
    match content {
        Some(c) => last_value(lines(c), lines(c).len() as int, "PCI_SLOT_NAME="@, "N/A"@),
        None => "N/A"@,
    }
}

/// The generation of a link that runs at `speed`.
pub fn pcie_gen_from_speed(speed: &str) -> (r: &'static str)
    ensures
        r@ == pcie_generation(speed@),
{
    let s = chars_of(speed);
    if has_substring(s.as_slice(), chars_of("2.5").as_slice()) {
        "1.0"
    } else if has_substring(s.as_slice(), chars_of("5.0").as_slice()) {
        "2.0"
    } else if has_substring(s.as_slice(), chars_of("8.0").as_slice()) {
        "3.0"
    } else if has_substring(s.as_slice(), chars_of("16.0").as_slice()) {
        "4.0"
    } else if has_substring(s.as_slice(), chars_of("32.0").as_slice()) {
        "5.0"
    } else {
        "?"
    }
}

/// The description of a link: `PCIe`, the generation and the number of lanes.
pub fn pcie_link(speed: &str, width: &str) -> (r: String)
    ensures
        r@ == pcie_link_text(speed@, width@),
{
    if !speed.is_empty() && !width.is_empty() {
        let mut out = String::from_str("PCIe ");
        out.append(pcie_gen_from_speed(speed));
        out.append(" x");
        out.append(width);
        out
    } else {
        String::from_str("N/A")
    }
}

/// The name of the vendor whose identifier, trimmed and in lower case, is
/// `id`.
pub fn vendor_name_of(id: &[char]) -> (r: String)
    ensures
        r@ == vendor_name(id@),
{
    if same_chars(id, chars_of("0x1002").as_slice()) {
        String::from_str("Advanced Micro Devices, Inc. [AMD/ATI]")
    } else if same_chars(id, chars_of("0x10de").as_slice()) {
        String::from_str("NVIDIA Corporation")
    } else if same_chars(id, chars_of("0x8086").as_slice()) {
        String::from_str("Intel Corporation")
    } else {
        string_of(id)
    }
}

/// The name of the vendor with the identifier `vendor`, which is trimmed and
/// put in lower case first.
pub fn vendor_to_name(vendor: &str) -> (r: String)
    ensures
        r@ == vendor_name(lowercase(trimmed(vendor@))),
{
    let chars = chars_of(vendor);
    let id = lowered(trim(chars.as_slice()));
    vendor_name_of(id.as_slice())
}

/// What follows `key` on the last of `all` lines that begin with it.
fn value_after(all: &Vec<Vec<char>>, key: &str, default: &str) -> (r: String)
    ensures
        r@ == last_value(views(all@), all@.len() as int, key@, default@),
{
    let k = chars_of(key);
    let mut i: usize = all.len();
    while i > 0
        invariant
            i <= all@.len(),
            k@ == key@,
            last_value(views(all@), all@.len() as int, key@, default@) == last_value(
                views(all@),
                i as int,
                key@,
                default@,
            ),
        decreases i,
    {
        assert(views(all@)[i - 1] == all@[i - 1]@);
        match after_prefix(all[i - 1].as_slice(), k.as_slice()) {
            Some(v) => {
                return string_of(v);
            },
            None => {},
        }
        i -= 1;
    }
    String::from_str(default)
}

/// The driver and the bus slot that the event file of `device` names:
/// `Unknown` and `N/A` where it names none.
pub fn parse_uevent(device: &Directory) -> (r: (String, String))
    ensures
        r.0@ == uevent_driver(device.attribute("uevent"@)),
        r.1@ == uevent_slot(device.attribute("uevent"@)),
{
    match read_chars(device, "uevent") {
        Some(content) => {
            let all = split_lines(content.as_slice());
            (value_after(&all, "DRIVER=", "Unknown"), value_after(&all, "PCI_SLOT_NAME=", "N/A"))
        },
        None => (String::from_str("Unknown"), String::from_str("N/A")),
    }
}

/// The least time between two refreshes, in milliseconds.
pub const REFRESH_INTERVAL_MS: u64 = 1500;

/// The directory of a graphics device and its hardware-monitor directories,
/// these in the order in which they were listed.
pub struct GpuDevice {
    pub files: Directory,
    pub hwmon: Vec<Directory>,
}

/// One entry of the directory of graphics cards: its name and, where it has
/// one, its device.
pub struct CardEntry {
    pub name: String,
    pub device: Option<GpuDevice>,
}

/// Whether `name` is `card` followed by one decimal digit or more.
pub open spec fn is_card_name(name: Seq<char>) -> bool {
    &&& starts_with(name, "card"@)
    &&& name.len() > "card"@.len()
    &&& all_digits(name.skip("card"@.len() as int))
}

/// Whether `entry` can be the card that is shown: it is named as a card and
/// has a device.
pub open spec fn qualifies(entry: CardEntry) -> bool {
    is_card_name(entry.name@) && entry.device.is_some()
}

/// The card to show among the first `n` of `cards`: of those that qualify,
/// the one whose name comes first in lexicographic order, and of two with
/// one name the earlier.
pub open spec fn primary_among(cards: Seq<CardEntry>, n: int) -> Option<int>
    decreases n,
{
    if n <= 0 || n > cards.len() {
        None
    } else {
        let last = n - 1;
        match primary_among(cards, last) {
            None => if qualifies(cards[last]) {
                Some(last)
            } else {
                None
            },
            Some(i) => if qualifies(cards[last]) && lex_lt(cards[last].name@, cards[i].name@) {
                Some(last)
            } else {
                Some(i)
            },
        }
    }
}

/// The card to show among `cards`.
pub open spec fn primary_card(cards: Seq<CardEntry>) -> Option<int> {
    primary_among(cards, cards.len() as int)
}

/// The card that `primary_among` names is one of those it was chosen from,
/// and it qualifies.
pub proof fn lemma_primary_among_qualifies(cards: Seq<CardEntry>, n: int)
    requires
        0 <= n <= cards.len(),
    ensures
        match primary_among(cards, n) {
            Some(i) => 0 <= i < n && qualifies(cards[i]),
            None => forall|j: int| 0 <= j < n ==> !qualifies(#[trigger] cards[j]),
        },
    decreases n,
{
    if n > 0 {
        lemma_primary_among_qualifies(cards, n - 1);
    }
}

/// The card that is shown is the first by name of those that qualify: no
/// other that qualifies has a name that comes before its name, and one with
/// the same name stands later in the list.
pub proof fn lemma_primary_is_first_by_name(cards: Seq<CardEntry>, n: int)
    requires
        0 <= n <= cards.len(),
    ensures
        match primary_among(cards, n) {
            Some(i) => forall|j: int|
                0 <= j < n && qualifies(#[trigger] cards[j]) ==> !lex_lt(
                    cards[j].name@,
                    cards[i].name@,
                ) && (lex_lt(cards[i].name@, cards[j].name@) || i <= j),
            None => true,
        },
    decreases n,
{
    if n > 0 {
        let last = n - 1;
        lemma_primary_is_first_by_name(cards, last);
        lemma_primary_among_qualifies(cards, last);
        match primary_among(cards, last) {
            Some(i0) => {
                let x = cards[last].name@;
                let y = cards[i0].name@;
                lemma_lex_lt_asymmetric(x, y, 0);
                lemma_lex_lt_asymmetric(x, x, 0);
                if qualifies(cards[last]) && lex_lt(x, y) {
                    assert(primary_among(cards, n) == Some(last));
                    assert forall|j: int| 0 <= j < n && qualifies(#[trigger] cards[j]) implies !lex_lt(
                        cards[j].name@,
                        x,
                    ) && (lex_lt(x, cards[j].name@) || last <= j) by {
                        if j < last {
                            let z = cards[j].name@;
                            assert(!lex_lt(z, y));
                            lemma_lex_le_transitive(x, y, z, 0);
                            if !lex_lt(x, z) {
                                lemma_lex_lt_total(x, z, 0);
                                assert(x.skip(0) =~= x);
                                assert(z.skip(0) =~= z);
                            }
                        }
                    }
                } else {
                    assert(primary_among(cards, n) == Some(i0));
                    assert forall|j: int| 0 <= j < n && qualifies(#[trigger] cards[j]) implies !lex_lt(
                        cards[j].name@,
                        y,
                    ) && (lex_lt(y, cards[j].name@) || i0 <= j) by {}
                }
            },
            None => {
                lemma_lex_lt_asymmetric(cards[last].name@, cards[last].name@, 0);
            },
        }
    }
}

/// Decides `is_card_name`.
pub fn card_name(name: &[char]) -> (r: bool)
    ensures
        r == is_card_name(name@),
{
    let prefix = chars_of("card");
    match after_prefix(name, prefix.as_slice()) {
        Some(rest) => rest.len() > 0 && only_digits(rest),
        None => false,
    }
}

/// The index of the card to show: the first, by name, that is named `card`
/// and a number and has a device.
pub fn find_gpu_device(cards: &Vec<CardEntry>) -> (r: Option<usize>)
    ensures
        match r {
            Some(i) => primary_card(cards@) == Some(i as int) && i < cards@.len()
                && cards@[i as int].device.is_some(),
            None => primary_card(cards@).is_none(),
        },
{
    let n: usize = cards.len();
    let mut best: Option<usize> = None;
    let mut best_name: Vec<char> = Vec::new();
    let mut k: usize = 0;
    while k < n
        invariant
            k <= n,
            n == cards@.len(),
            match best {
                Some(i) => primary_among(cards@, k as int) == Some(i as int) && i < k
                    && best_name@ == cards@[i as int].name@ && cards@[i as int].device.is_some(),
                None => primary_among(cards@, k as int).is_none(),
            },
        decreases n - k,
    {
        let name = chars_of(cards[k].name.as_str());
        if card_name(name.as_slice()) && cards[k].device.is_some() {
            let better = match best {
                Some(_) => precedes(name.as_slice(), best_name.as_slice()),
                None => true,
            };
            if better {
                best = Some(k);
                best_name = name;
            }
        }
        k += 1;
    }
    best
}

/// The hardware-monitor directory that is used: the first that was listed.
pub fn find_hwmon(device: &GpuDevice) -> (r: Option<&Directory>)
    ensures
        match r {
            Some(d) => device.hwmon@.len() > 0 && *d == device.hwmon@[0],
            None => device.hwmon@.len() == 0,
        },
{
    if device.hwmon.len() > 0 {
        Some(&device.hwmon[0])
    } else {
        None
    }
}

/// The state of the graphics card as last read.
///
/// Memory is in bytes, clocks in megahertz, power in microwatts,
/// temperatures in thousandths of a degree Celsius, times in milliseconds.
/// A clock or a power cap that could not be read is `None`, which is not
/// zero. Where no card is found only `available` changes.
pub struct GpuInfo {
    pub available: bool,
    pub gpu_usage: u32,
    pub vram_used: u64,
    pub vram_total: u64,
    pub gpu_freq_mhz: Option<u32>,
    pub mem_freq_mhz: Option<u32>,
    pub power_uw: u64,
    pub power_cap_uw: Option<u64>,
    pub temp_millicelsius: u64,
    pub temp_max_millicelsius: u64,
    pub manufacturer: String,
    pub pci_slot: String,
    pub driver: String,
    pub pcie_link: String,
    pub last_refresh: u64,
}

/// A `GpuInfo` with each text as a sequence of characters.
pub struct GpuState {
    pub available: bool,
    pub gpu_usage: u32,
    pub vram_used: u64,
    pub vram_total: u64,
    pub gpu_freq_mhz: Option<u32>,
    pub mem_freq_mhz: Option<u32>,
    pub power_uw: u64,
    pub power_cap_uw: Option<u64>,
    pub temp_millicelsius: u64,
    pub temp_max_millicelsius: u64,
    pub manufacturer: Seq<char>,
    pub pci_slot: Seq<char>,
    pub driver: Seq<char>,
    pub pcie_link: Seq<char>,
    pub last_refresh: u64,
}

impl View for GpuInfo {
    type V = GpuState;

    open spec fn view(&self) -> GpuState {
        GpuState {
            available: self.available,
            gpu_usage: self.gpu_usage,
            vram_used: self.vram_used,
            vram_total: self.vram_total,
            gpu_freq_mhz: self.gpu_freq_mhz,
            mem_freq_mhz: self.mem_freq_mhz,
            power_uw: self.power_uw,
            power_cap_uw: self.power_cap_uw,
            temp_millicelsius: self.temp_millicelsius,
            temp_max_millicelsius: self.temp_max_millicelsius,
            manufacturer: self.manufacturer@,
            pci_slot: self.pci_slot@,
            driver: self.driver@,
            pcie_link: self.pcie_link@,
            last_refresh: self.last_refresh,
        }
    }
}

/// The text of the attribute `name` of `d`, or the empty text.
pub open spec fn text_or_empty(d: Directory, name: Seq<char>) -> Seq<char> {
    match d.attribute(name) {
        Some(t) => t,
        None => Seq::empty(),
    }
}

/// The active clock that the attribute `name` of `d` gives.
pub open spec fn clock_attribute(d: Directory, name: Seq<char>) -> Option<u32> {
    match d.attribute(name) {
        Some(t) => active_clock(t),
        None => None,
    }
}

/// The vendor that `d` names, or `Unknown`.
pub open spec fn manufacturer_of(d: Directory) -> Seq<char> {
    match d.attribute("vendor"@) {
        Some(t) => vendor_name(lowercase(trimmed(t))),
        None => "Unknown"@,
    }
}

/// The greater of a highest temperature so far and a new reading.
pub open spec fn running_max(highest: u64, reading: u64) -> u64 {
    if reading > highest {
        reading
    } else {
        highest
    }
}

/// The sensor part of `before` after reading the monitor `monitor`.
pub open spec fn with_sensors(before: GpuState, monitor: Directory) -> GpuState {
    let temp = number_or_zero(monitor, "temp1_input"@);
    GpuState {
        temp_millicelsius: temp,
        temp_max_millicelsius: running_max(before.temp_max_millicelsius, temp),
        power_uw: number_or_zero(monitor, "power1_average"@),
        power_cap_uw: monitor.number("power1_cap"@),
        ..before
    }
}

/// The state after a refresh at `now` that finds the entries `cards`.
pub open spec fn refreshed(before: GpuState, now: u64, cards: Seq<CardEntry>) -> GpuState {
    match primary_card(cards) {
        None => GpuState { available: false, last_refresh: now, ..before },
        Some(i) => {
            let device = cards[i].device->0;
            let d = device.files;
            let sensed = if device.hwmon@.len() > 0 {
                with_sensors(before, device.hwmon@[0])
            } else {
                before
            };
            GpuState {
                available: true,
                gpu_usage: low_u32(number_or_zero(d, "gpu_busy_percent"@)),
                vram_used: number_or_zero(d, "mem_info_vram_used"@),
                vram_total: number_or_zero(d, "mem_info_vram_total"@),
                gpu_freq_mhz: clock_attribute(d, "pp_dpm_sclk"@),
                mem_freq_mhz: clock_attribute(d, "pp_dpm_mclk"@),
                manufacturer: manufacturer_of(d),
                pci_slot: uevent_slot(d.attribute("uevent"@)),
                driver: uevent_driver(d.attribute("uevent"@)),
                pcie_link: pcie_link_text(
                    text_or_empty(d, "current_link_speed"@),
                    text_or_empty(d, "current_link_width"@),
                ),
                last_refresh: now,
                ..sensed
            }
        },
    }
}

/// The state after a tick at `now`: refreshed where a refresh is due, else
/// `before`.
pub open spec fn ticked(before: GpuState, now: u64, cards: Seq<CardEntry>) -> GpuState {
    if is_due(before.last_refresh, now, REFRESH_INTERVAL_MS) {
        refreshed(before, now, cards)
    } else {
        before
    }
}

/// The state before anything was read.
pub open spec fn initial() -> GpuState {
    GpuState {
        available: false,
        gpu_usage: 0,
        vram_used: 0,
        vram_total: 0,
        gpu_freq_mhz: None,
        mem_freq_mhz: None,
        power_uw: 0,
        power_cap_uw: None,
        temp_millicelsius: 0,
        temp_max_millicelsius: 0,
        manufacturer: "Unknown"@,
        pci_slot: "N/A"@,
        driver: "Unknown"@,
        pcie_link: "N/A"@,
        last_refresh: 0,
    }
}

/// A tick that comes less than an interval after the last refresh changes
/// nothing, whatever it finds: polling faster than the interval gives the
/// same snapshot again.
pub proof fn lemma_tick_within_interval(
    before: GpuState,
    now: u64,
    cards: Seq<CardEntry>,
    later: u64,
    found_later: Seq<CardEntry>,
)
    requires
        later - ticked(before, now, cards).last_refresh < REFRESH_INTERVAL_MS,
    ensures
        ticked(ticked(before, now, cards), later, found_later) == ticked(before, now, cards),
{
}

/// Neither the highest temperature nor the time of the last refresh ever
/// goes down, whatever a tick finds.
pub proof fn lemma_tick_monotone(before: GpuState, now: u64, cards: Seq<CardEntry>)
    ensures
        ticked(before, now, cards).temp_max_millicelsius >= before.temp_max_millicelsius,
        ticked(before, now, cards).last_refresh >= before.last_refresh,
{
}

/// After a refresh that read a monitor the highest temperature is at least
/// the one just read.
pub proof fn lemma_max_covers_reading(before: GpuState, monitor: Directory)
    ensures
        with_sensors(before, monitor).temp_max_millicelsius >= with_sensors(
            before,
            monitor,
        ).temp_millicelsius,
{
}

/// The text of the attribute `name` of `d`, or the empty text.
fn text_attribute(d: &Directory, name: &str) -> (r: String)
    ensures
        r@ == text_or_empty(*d, name@),
{
    match read_at(d, name) {
        Some(t) => t,
        None => String::new(),
    }
}

/// The active clock that the attribute `name` of `d` gives.
fn clock_of(d: &Directory, name: &str) -> (r: Option<u32>)
    ensures
        r == clock_attribute(*d, name@),
{
    match read_at(d, name) {
        Some(t) => parse_active_clock_mhz(t.as_str()),
        None => None,
    }
}

/// The names of the files that are read of a graphics device.
pub fn device_file_names() -> (names: Vec<&'static str>)
    ensures
        names@.len() == 9,
        names@[0]@ == "gpu_busy_percent"@,
        names@[1]@ == "mem_info_vram_used"@,
        names@[2]@ == "mem_info_vram_total"@,
        names@[3]@ == "pp_dpm_sclk"@,
        names@[4]@ == "pp_dpm_mclk"@,
        names@[5]@ == "current_link_speed"@,
        names@[6]@ == "current_link_width"@,
        names@[7]@ == "vendor"@,
        names@[8]@ == "uevent"@,
{
    vec![
        "gpu_busy_percent",
        "mem_info_vram_used",
        "mem_info_vram_total",
        "pp_dpm_sclk",
        "pp_dpm_mclk",
        "current_link_speed",
        "current_link_width",
        "vendor",
        "uevent",
    ]
}

/// The names of the files that are read of a hardware monitor.
pub fn monitor_file_names() -> (names: Vec<&'static str>)
    ensures
        names@.len() == 3,
        names@[0]@ == "temp1_input"@,
        names@[1]@ == "power1_average"@,
        names@[2]@ == "power1_cap"@,
{
    vec!["temp1_input", "power1_average", "power1_cap"]
}

impl GpuInfo {
    /// The state after a first refresh at `now_ms`.
    pub fn new(now_ms: u64, cards: &Vec<CardEntry>) -> (info: GpuInfo)
        ensures
            info@ == refreshed(initial(), now_ms, cards@),
    {
        let mut info = GpuInfo {
            available: false,
            gpu_usage: 0,
            vram_used: 0,
            vram_total: 0,
            gpu_freq_mhz: None,
            mem_freq_mhz: None,
            power_uw: 0,
            power_cap_uw: None,
            temp_millicelsius: 0,
            temp_max_millicelsius: 0,
            manufacturer: String::from_str("Unknown"),
            pci_slot: String::from_str("N/A"),
            driver: String::from_str("Unknown"),
            pcie_link: String::from_str("N/A"),
            last_refresh: 0,
        };
        assert(info@ == initial());
        info.refresh(now_ms, cards);
        info
    }

    /// Whether a refresh is due at `now_ms`.
    pub fn due(&self, now_ms: u64) -> (r: bool)
        ensures
            r == is_due(self.last_refresh, now_ms, REFRESH_INTERVAL_MS),
    {
        due(self.last_refresh, now_ms, REFRESH_INTERVAL_MS)
    }

    /// Refreshes the state from `cards` where the interval has passed since
    /// the last refresh, and leaves it as it is otherwise.
    pub fn refresh_if_needed(&mut self, now_ms: u64, cards: &Vec<CardEntry>)
        ensures
            final(self)@ == ticked(old(self)@, now_ms, cards@),
            final(self).last_refresh >= old(self).last_refresh,
            final(self).temp_max_millicelsius >= old(self).temp_max_millicelsius,
    {
        if self.due(now_ms) {
            self.refresh(now_ms, cards);
        }
    }

    /// Reads the card to show among `cards`.
    pub fn refresh(&mut self, now_ms: u64, cards: &Vec<CardEntry>)
        ensures
            final(self)@ == refreshed(old(self)@, now_ms, cards@),
    {
        self.last_refresh = now_ms;
        let found = find_gpu_device(cards);
        let device: &GpuDevice = match found {
            Some(i) => match &cards[i].device {
                Some(device) => device,
                None => {
                    return ;
                },
            },
            None => {
                self.available = false;
                return ;
            },
        };
        let d = &device.files;
        self.available = true;
        self.gpu_usage = cut_to_u32(read_number(d, "gpu_busy_percent"));
        self.vram_used = read_number(d, "mem_info_vram_used");
        self.vram_total = read_number(d, "mem_info_vram_total");
        self.gpu_freq_mhz = clock_of(d, "pp_dpm_sclk");
        self.mem_freq_mhz = clock_of(d, "pp_dpm_mclk");
        match find_hwmon(device) {
            Some(monitor) => {
                let temp: u64 = read_number(monitor, "temp1_input");
                self.temp_millicelsius = temp;
                if temp > self.temp_max_millicelsius {
                    self.temp_max_millicelsius = temp;
                }
                self.power_uw = read_number(monitor, "power1_average");
                self.power_cap_uw = read_u64(monitor, "power1_cap");
            },
            None => {},
        }
        let speed = text_attribute(d, "current_link_speed");
        let width = text_attribute(d, "current_link_width");
        self.pcie_link = pcie_link(speed.as_str(), width.as_str());
        self.manufacturer = match read_at(d, "vendor") {
            Some(v) => vendor_to_name(v.as_str()),
            None => String::from_str("Unknown"),
        };
        let (driver, pci_slot) = parse_uevent(d);
        self.driver = driver;
        self.pci_slot = pci_slot;
    }
}

} // verus!
