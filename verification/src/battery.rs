//! The battery poller: what the power-supply directories say of the first
//! battery, normalised and refreshed at most once per interval.

use crate::clock::{due, is_due};
use crate::sysfs::{number_or_zero, read_at, read_number, read_u64, Directory};
use crate::units::{cut_to_u32, low_u32, saturated, scale, scaled_product, PPM};
use vstd::arithmetic::div_mod::lemma_div_multiples_vanish_quotient;
use vstd::prelude::*;
use vstd::string::*;

verus! {

/// The least time between two refreshes, in milliseconds.
pub const REFRESH_INTERVAL_MS: u64 = 5000;

/// The state of the battery as last read.
///
/// Energies are in microwatt-hours, power in microwatts, the health in parts
/// per million of the design energy, times in milliseconds. Where no battery is found only
/// `available` changes: the other fields keep what was read last.
pub struct BatteryInfo {
    pub device: String,
    pub capacity: u32,
    pub status: String,
    pub health_ppm: u64,
    pub energy_full_design_uwh: u64,
    pub power_now_uw: u64,
    pub cycle_count: u32,
    pub technology: String,
    pub manufacturer: String,
    pub model_name: String,
    pub available: bool,
    pub last_refresh: u64,
}

/// A `BatteryInfo` with each text as a sequence of characters.
pub struct BatteryState {
    pub device: Seq<char>,
    pub capacity: u32,
    pub status: Seq<char>,
    pub health_ppm: u64,
    pub energy_full_design_uwh: u64,
    pub power_now_uw: u64,
    pub cycle_count: u32,
    pub technology: Seq<char>,
    pub manufacturer: Seq<char>,
    pub model_name: Seq<char>,
    pub available: bool,
    pub last_refresh: u64,
}

impl View for BatteryInfo {
    type V = BatteryState;

    open spec fn view(&self) -> BatteryState {
        BatteryState {
            device: self.device@,
            capacity: self.capacity,
            status: self.status@,
            health_ppm: self.health_ppm,
            energy_full_design_uwh: self.energy_full_design_uwh,
            power_now_uw: self.power_now_uw,
            cycle_count: self.cycle_count,
            technology: self.technology@,
            manufacturer: self.manufacturer@,
            model_name: self.model_name@,
            available: self.available,
            last_refresh: self.last_refresh,
        }
    }
}

/// Whether `d` is the directory of a battery: its `type` says `Battery`.
pub open spec fn is_battery(d: Directory) -> bool {
    d.attribute("type"@) == Some("Battery"@)
}

/// The index of the first battery among `supplies` at or after `from`.
pub open spec fn first_battery_from(supplies: Seq<Directory>, from: int) -> Option<int>
    decreases supplies.len() - from,
{
    if from < 0 || from >= supplies.len() {
        None
    } else if is_battery(supplies[from]) {
        Some(from)
    } else {
        first_battery_from(supplies, from + 1)
    }
}

/// The index of the first battery among `supplies`.
pub open spec fn first_battery(supplies: Seq<Directory>) -> Option<int> {
    first_battery_from(supplies, 0)
}

/// The text of the attribute `name` of `d`, or `Unknown`.
pub open spec fn text_or_unknown(d: Directory, name: Seq<char>) -> Seq<char> {
    match d.attribute(name) {
        Some(t) => t,
        None => "Unknown"@,
    }
}

/// Where an energy or a power is taken from: a value read in micro-units; a
/// charge or current in micro-units that is yet to be multiplied by the
/// voltage; or nothing.
#[derive(Clone, Copy, PartialEq, Eq, Structural, Debug)]
pub enum Measure {
    Direct(u64),
    Derived(u64),
    Missing,
}

/// Where an energy or power of `d` is taken from: the attribute `direct`
/// where it holds a number, else the attribute `amount`, else nothing.
pub open spec fn measure_of(d: Directory, direct: Seq<char>, amount: Seq<char>) -> Measure {
    match d.number(direct) {
        Some(v) => Measure::Direct(v),
        None => match d.number(amount) {
            Some(c) => Measure::Derived(c),
            None => Measure::Missing,
        },
    }
}

/// The exact value of `m` at a voltage of `microvolts`, in millionths of a
/// micro-unit: a value read as it is, a charge or current times the
/// voltage.
pub open spec fn exact(m: Measure, microvolts: u64) -> int {
    match m {
        Measure::Direct(v) => v * 1_000_000,
        Measure::Derived(c) => c * microvolts,
        Measure::Missing => 0,
    }
}

/// The value of `m` at a voltage of `microvolts` as it is shown: the exact
/// value in whole micro-units, rounded down.
pub open spec fn shown(m: Measure, microvolts: u64) -> u64 {
    saturated(exact(m, microvolts) / 1_000_000)
}

/// The health that follows from a full energy and a design energy, in parts
/// per million: the exact full energy over the exact design energy, where
/// the design energy is known and positive, however small; else `before`.
pub open spec fn health_ppm(before: u64, full: Measure, design: Measure, microvolts: u64) -> u64 {
    if exact(design, microvolts) > 0 {
        saturated(exact(full, microvolts) * PPM / exact(design, microvolts))
    } else {
        before
    }
}

/// The state after a refresh at `now` that finds the directories `supplies`.
pub open spec fn refreshed(before: BatteryState, now: u64, supplies: Seq<Directory>) -> BatteryState {
    match first_battery(supplies) {
        None => BatteryState { available: false, last_refresh: now, ..before },
        Some(i) => {
            let d = supplies[i];
            let volts = number_or_zero(d, "voltage_now"@);
            let design = measure_of(d, "energy_full_design"@, "charge_full_design"@);
            BatteryState {
                device: d.name@,
                capacity: low_u32(number_or_zero(d, "capacity"@)),
                status: text_or_unknown(d, "status"@),
                health_ppm: health_ppm(
                    before.health_ppm,
                    measure_of(d, "energy_full"@, "charge_full"@),
                    design,
                    volts,
                ),
                energy_full_design_uwh: shown(design, volts),
                power_now_uw: shown(measure_of(d, "power_now"@, "current_now"@), volts),
                cycle_count: low_u32(number_or_zero(d, "cycle_count"@)),
                technology: text_or_unknown(d, "technology"@),
                manufacturer: text_or_unknown(d, "manufacturer"@),
                model_name: text_or_unknown(d, "model_name"@),
                available: true,
                last_refresh: now,
            }
        },
    }
}

/// The state after a tick at `now`: refreshed where a refresh is due, else
/// `before`.
pub open spec fn ticked(before: BatteryState, now: u64, supplies: Seq<Directory>) -> BatteryState {
    if is_due(before.last_refresh, now, REFRESH_INTERVAL_MS) {
        refreshed(before, now, supplies)
    } else {
        before
    }
}

/// A tick that comes less than an interval after the last refresh changes
/// nothing, whatever it finds: polling faster than the interval gives the
/// same snapshot again.
pub proof fn lemma_tick_within_interval(
    before: BatteryState,
    now: u64,
    supplies: Seq<Directory>,
    later: u64,
    found_later: Seq<Directory>,
)
    requires
        later - ticked(before, now, supplies).last_refresh < REFRESH_INTERVAL_MS,
    ensures
        ticked(ticked(before, now, supplies), later, found_later) == ticked(before, now, supplies),
{
}

/// The time of the last refresh never goes back.
pub proof fn lemma_tick_advances(before: BatteryState, now: u64, supplies: Seq<Directory>)
    ensures
        ticked(before, now, supplies).last_refresh >= before.last_refresh,
{
}

/// The state before anything was read.
pub open spec fn initial() -> BatteryState {
    BatteryState {
        device: Seq::empty(),
        capacity: 0,
        status: "Unknown"@,
        health_ppm: 0,
        energy_full_design_uwh: 0,
        power_now_uw: 0,
        cycle_count: 0,
        technology: "Unknown"@,
        manufacturer: "Unknown"@,
        model_name: "Unknown"@,
        available: false,
        last_refresh: 0,
    }
}

/// The index of the first directory among `supplies` that is a battery's.
pub fn find_battery(supplies: &Vec<Directory>) -> (r: Option<usize>)
    ensures
        match r {
            Some(i) => first_battery(supplies@) == Some(i as int) && i < supplies@.len(),
            None => first_battery(supplies@).is_none(),
        },
{
    let n: usize = supplies.len();
    let mut i: usize = 0;
    while i < n
        invariant
            i <= n,
            n == supplies@.len(),
            first_battery(supplies@) == first_battery_from(supplies@, i as int),
        decreases n - i,
    {
        let kind = read_at(&supplies[i], "type");
        match kind {
            Some(k) => {
                if k == String::from_str("Battery") {
                    return Some(i);
                }
            },
            None => {},
        }
        i += 1;
    }
    None
}

/// Where an energy or power of `d` is taken from.
pub fn measure(d: &Directory, direct: &str, amount: &str) -> (m: Measure)
    ensures
        m == measure_of(*d, direct@, amount@),
{
    match read_u64(d, direct) {
        Some(v) => Measure::Direct(v),
        None => match read_u64(d, amount) {
            Some(c) => Measure::Derived(c),
            None => Measure::Missing,
        },
    }
}

/// The value of `m` at a voltage of `microvolts` in whole micro-units.
pub fn value_of(m: Measure, microvolts: u64) -> (r: u64)
    ensures
        r == shown(m, microvolts),
{
    match m {
        Measure::Direct(v) => {
            assert((v * 1_000_000) / 1_000_000 == v) by (nonlinear_arith);
            v
        },
        Measure::Derived(c) => scale(c, microvolts),
        Measure::Missing => 0,
    }
}

/// The exact value of `m` at a voltage of `microvolts`.
fn exact_of(m: Measure, microvolts: u64) -> (r: u128)
    ensures
        r == exact(m, microvolts),
{
    match m {
        Measure::Direct(v) => (v as u128) * 1_000_000,
        Measure::Derived(c) => {
            assert(c * microvolts <= 0xFFFF_FFFF_FFFF_FFFF * 0xFFFF_FFFF_FFFF_FFFF)
                by (nonlinear_arith)
                requires
                    c <= 0xFFFF_FFFF_FFFF_FFFF,
                    microvolts <= 0xFFFF_FFFF_FFFF_FFFF,
            ;
            (c as u128) * (microvolts as u128)
        },
        Measure::Missing => 0,
    }
}

/// `n`, or the greatest number of 64 bits where `n` is greater.
fn saturate(n: u128) -> (r: u64)
    ensures
        r == saturated(n as int),
{
    if n > 0xFFFF_FFFF_FFFF_FFFF {
        0xFFFF_FFFF_FFFF_FFFF
    } else {
        n as u64
    }
}

/// The text of the attribute `name` of `d`, or `Unknown`.
fn text_attribute(d: &Directory, name: &str) -> (r: String)
    ensures
        r@ == text_or_unknown(*d, name@),
{
    match read_at(d, name) {
        Some(t) => t,
        None => String::from_str("Unknown"),
    }
}

/// The health that follows from the full energy `full` and the design
/// energy `design` at a voltage of `microvolts`, or `before` where the
/// design energy is not known or is nothing.
pub fn health_of(before: u64, full: Measure, design: Measure, microvolts: u64) -> (r: u64)
    ensures
        r == health_ppm(before, full, design, microvolts),
{
    let ghost f = exact(full, microvolts);
    assert(f >= 0) by (nonlinear_arith)
        requires
            f == exact(full, microvolts),
    ;
    match design {
        Measure::Missing => before,
        Measure::Direct(dv) => {
            if dv == 0 {
                before
            } else {
                // a millionfold of both cancels
                proof {
                    lemma_div_multiples_vanish_quotient(1_000_000, f, dv as int);
                    assert(f * 1_000_000 == 1_000_000 * f) by (nonlinear_arith);
                    assert(dv * 1_000_000 == 1_000_000 * (dv as int)) by (nonlinear_arith);
                }
                saturate(exact_of(full, microvolts) / (dv as u128))
            }
        },
        Measure::Derived(dc) => {
            if dc == 0 || microvolts == 0 {
                assert(dc * microvolts == 0) by (nonlinear_arith)
                    requires
                        dc == 0 || microvolts == 0,
                ;
                before
            } else {
                assert(dc * microvolts > 0) by (nonlinear_arith)
                    requires
                        dc > 0,
                        microvolts > 0,
                ;
                assert(dc * microvolts <= 0xFFFF_FFFF_FFFF_FFFF * 0xFFFF_FFFF_FFFF_FFFF)
                    by (nonlinear_arith)
                    requires
                        dc <= 0xFFFF_FFFF_FFFF_FFFF,
                        microvolts <= 0xFFFF_FFFF_FFFF_FFFF,
                ;
                match full {
                    Measure::Missing => {
                        assert(0int * 1_000_000 / (dc * microvolts) == 0) by (nonlinear_arith)
                            requires
                                dc * microvolts > 0,
                        ;
                        0
                    },
                    Measure::Direct(fv) => {
                        assert((fv * 1_000_000) * 1_000_000 == fv * 1_000_000_000_000)
                            by (nonlinear_arith);
                        let whole: u128 = (dc as u128) * (microvolts as u128);
                        saturate((fv as u128) * 1_000_000_000_000 / whole)
                    },
                    Measure::Derived(fc) => {
                        // the voltage of both cancels
                        proof {
                            lemma_div_multiples_vanish_quotient(
                                microvolts as int,
                                fc * 1_000_000,
                                dc as int,
                            );
                            assert((fc * microvolts) * 1_000_000 == microvolts * (fc * 1_000_000))
                                by (nonlinear_arith);
                            assert(dc * microvolts == microvolts * dc) by (nonlinear_arith);
                        }
                        saturate((fc as u128) * 1_000_000 / (dc as u128))
                    },
                }
            }
        },
    }
}

/// The names of the files that are read of a power supply.
pub fn file_names() -> (names: Vec<&'static str>)
    ensures
        names@.len() == 14,
        names@[0]@ == "type"@,
        names@[1]@ == "capacity"@,
        names@[2]@ == "status"@,
        names@[3]@ == "technology"@,
        names@[4]@ == "manufacturer"@,
        names@[5]@ == "model_name"@,
        names@[6]@ == "cycle_count"@,
        names@[7]@ == "voltage_now"@,
        names@[8]@ == "energy_full"@,
        names@[9]@ == "energy_full_design"@,
        names@[10]@ == "charge_full"@,
        names@[11]@ == "charge_full_design"@,
        names@[12]@ == "power_now"@,
        names@[13]@ == "current_now"@,
{
    vec![
        "type",
        "capacity",
        "status",
        "technology",
        "manufacturer",
        "model_name",
        "cycle_count",
        "voltage_now",
        "energy_full",
        "energy_full_design",
        "charge_full",
        "charge_full_design",
        "power_now",
        "current_now",
    ]
}

impl BatteryInfo {
    /// The state after a first refresh at `now_ms`.
    pub fn new(now_ms: u64, supplies: &Vec<Directory>) -> (info: BatteryInfo)
        ensures
            info@ == refreshed(initial(), now_ms, supplies@),
    {
        let mut info = BatteryInfo {
            device: String::new(),
            capacity: 0,
            status: String::from_str("Unknown"),
            health_ppm: 0,
            energy_full_design_uwh: 0,
            power_now_uw: 0,
            cycle_count: 0,
            technology: String::from_str("Unknown"),
            manufacturer: String::from_str("Unknown"),
            model_name: String::from_str("Unknown"),
            available: false,
            last_refresh: 0,
        };
        assert(info@ == initial());
        info.refresh(now_ms, supplies);
        info
    }

    /// Whether a refresh is due at `now_ms`.
    pub fn due(&self, now_ms: u64) -> (r: bool)
        ensures
            r == is_due(self.last_refresh, now_ms, REFRESH_INTERVAL_MS),
    {
        due(self.last_refresh, now_ms, REFRESH_INTERVAL_MS)
    }

    /// Refreshes the state from `supplies` where the interval has passed
    /// since the last refresh, and leaves it as it is otherwise.
    pub fn refresh_if_needed(&mut self, now_ms: u64, supplies: &Vec<Directory>)
        ensures
            final(self)@ == ticked(old(self)@, now_ms, supplies@),
            final(self).last_refresh >= old(self).last_refresh,
    {
        if self.due(now_ms) {
            self.refresh(now_ms, supplies);
        }
    }

    /// Reads the first battery among `supplies`.
    pub fn refresh(&mut self, now_ms: u64, supplies: &Vec<Directory>)
        ensures
            final(self)@ == refreshed(old(self)@, now_ms, supplies@),
    {
        self.last_refresh = now_ms;
        let found = find_battery(supplies);
        let i: usize = match found {
            Some(i) => i,
            None => {
                self.available = false;
                return ;
            },
        };
        let d = &supplies[i];
        self.available = true;
        self.device = d.name.clone();
        self.capacity = cut_to_u32(read_number(d, "capacity"));
        self.status = text_attribute(d, "status");
        self.technology = text_attribute(d, "technology");
        self.manufacturer = text_attribute(d, "manufacturer");
        self.model_name = text_attribute(d, "model_name");
        self.cycle_count = cut_to_u32(read_number(d, "cycle_count"));
        let voltage_now: u64 = read_number(d, "voltage_now");
        let energy_full = measure(d, "energy_full", "charge_full");
        let energy_full_design = measure(d, "energy_full_design", "charge_full_design");
        self.energy_full_design_uwh = value_of(energy_full_design, voltage_now);
        self.health_ppm = health_of(self.health_ppm, energy_full, energy_full_design, voltage_now);
        self.power_now_uw = value_of(measure(d, "power_now", "current_now"), voltage_now);
    }
}

} // verus!
