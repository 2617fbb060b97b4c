//! What is read off the statistics that the `sysinfo` crate keeps: its values
//! are opaque here, and each function below hands out what one of them holds
//! as plain values. Nothing here asks the operating system for anything: the
//! caller refreshes the values before it hands them in.

use sysinfo::{Components, Disks, Networks, System, Users};
use vstd::multiset::Multiset;
use vstd::prelude::*;

verus! {

/// The statistics of the host, `sysinfo::System`. Nothing is known here of what
/// it holds.
#[verifier::external_type_specification]
#[verifier::external_body]
pub struct ExSystem(sysinfo::System);

/// The list of users, `sysinfo::Users`. Nothing is known here of what
/// it holds.
#[verifier::external_type_specification]
#[verifier::external_body]
pub struct ExUsers(sysinfo::Users);

/// The list of disks, `sysinfo::Disks`. Nothing is known here of what
/// it holds.
#[verifier::external_type_specification]
#[verifier::external_body]
pub struct ExDisks(sysinfo::Disks);

/// The map of network interfaces, `sysinfo::Networks`. Nothing is known here of what
/// it holds.
#[verifier::external_type_specification]
#[verifier::external_body]
pub struct ExNetworks(sysinfo::Networks);

/// The list of temperature sensors, `sysinfo::Components`. Nothing is known here of what
/// it holds.
#[verifier::external_type_specification]
#[verifier::external_body]
pub struct ExComponents(sysinfo::Components);

/// One user of `Users`, `sysinfo::User`. No function here takes or returns
/// one: it is declared because `Users` dereferences to a slice of them, and
/// Verus takes the declaration of `Users` only with it.
#[verifier::external_type_specification]
#[verifier::external_body]
pub struct ExUser(sysinfo::User);

/// One disk of `Disks`, `sysinfo::Disk`. No function here takes or returns
/// one: it is declared because `Disks` dereferences to a slice of them, and
/// Verus takes the declaration of `Disks` only with it.
#[verifier::external_type_specification]
#[verifier::external_body]
pub struct ExDisk(sysinfo::Disk);

/// One interface of `Networks`, `sysinfo::NetworkData`. No function here
/// takes or returns one: it is declared because `Networks` dereferences to a
/// map of them, and Verus takes the declaration of `Networks` only with it.
#[verifier::external_type_specification]
#[verifier::external_body]
pub struct ExNetworkData(sysinfo::NetworkData);

/// One sensor of `Components`, `sysinfo::Component`. No function here takes
/// or returns one: it is declared because `Components` dereferences to a
/// slice of them, and Verus takes the declaration of `Components` only with
/// it.
#[verifier::external_type_specification]
#[verifier::external_body]
pub struct ExComponent(sysinfo::Component);

/// One process as the table holds it. `user` is the name of the user that
/// owns it, where the process names a user and the list of users knows that
/// one; `cpu_usage` holds the bits of a single-precision number.
pub struct RawProcess {
    pub pid: u32,
    pub parent: Option<u32>,
    pub name: String,
    pub user: Option<String>,
    pub cpu_usage: u32,
    pub memory: u64,
}

/// A `RawProcess` with each text as a sequence of characters.
pub struct RawRow {
    pub pid: u32,
    pub parent: Option<u32>,
    pub name: Seq<char>,
    pub user: Option<Seq<char>>,
    pub cpu_usage: u32,
    pub memory: u64,
}

impl View for RawProcess {
    type V = RawRow;

    open spec fn view(&self) -> RawRow {
        RawRow {
            pid: self.pid,
            parent: self.parent,
            name: self.name@,
            user: match self.user {
                Some(u) => Some(u@),
                None => None,
            },
            cpu_usage: self.cpu_usage,
            memory: self.memory,
        }
    }
}

/// The views of the elements of `v`.
pub open spec fn raw_rows(v: Seq<RawProcess>) -> Seq<RawRow> {
    Seq::new(v.len(), |i: int| v[i]@)
}

/// Whether no two of `rows` have one process number.
pub open spec fn distinct_pids(rows: Seq<RawRow>) -> bool {
    forall|i: int, j: int| 0 <= i < j < rows.len() ==> rows[i].pid != rows[j].pid
}

/// The processes that `system` holds, each with its user's name from `users`.
pub uninterp spec fn process_table(system: System, users: Users) -> Multiset<RawRow>;

/// The processes of `system`, in the order in which its map hands them out:
/// `System::processes`, and of each process `Process::parent`, `name`,
/// `user_id`, `cpu_usage` and `memory`, with `Pid::as_u32` for the numbers
/// and `Users::get_user_by_id` and `User::name` for the user. Each only
/// returns what `system` and `users` hold. The contract says that these are
/// the processes of the table, each once, and that no two have one number:
/// the numbers are the keys of one map, and the cast of `Pid::as_u32` keeps
/// different numbers apart. Of their order it says nothing.
#[verifier::external_body]
pub(crate) fn process_entries(system: &System, users: &Users) -> (out: Vec<RawProcess>)
    ensures
        raw_rows(out@).to_multiset() == process_table(*system, *users),
        distinct_pids(raw_rows(out@)),
{
    system.processes().iter().map(|(pid, p)| RawProcess {
        pid: pid.as_u32(),
        parent: p.parent().map(|q| q.as_u32()),
        name: p.name().to_string_lossy().to_string(),
        user: p.user_id().and_then(|id| users.get_user_by_id(id)).map(|u| u.name().to_string()),
        cpu_usage: p.cpu_usage().to_bits(),
        memory: p.memory(),
    }).collect()
}

/// The counters of the host: the processor's use as a whole and of each
/// core, each as the bits of a single-precision number in percent; the size
/// of the memory and what is available of it, the size of the swap space
/// and what is free of it, in bytes.
pub struct HostReading {
    pub cpu_total: u32,
    pub cpu_per_core: Vec<u32>,
    pub memory_total: u64,
    pub memory_available: u64,
    pub swap_total: u64,
    pub swap_free: u64,
}

/// A `HostReading` with its vector as a sequence.
pub struct HostCounters {
    pub cpu_total: u32,
    pub cpu_per_core: Seq<u32>,
    pub memory_total: u64,
    pub memory_available: u64,
    pub swap_total: u64,
    pub swap_free: u64,
}

impl View for HostReading {
    type V = HostCounters;

    open spec fn view(&self) -> HostCounters {
        HostCounters {
            cpu_total: self.cpu_total,
            cpu_per_core: self.cpu_per_core@,
            memory_total: self.memory_total,
            memory_available: self.memory_available,
            swap_total: self.swap_total,
            swap_free: self.swap_free,
        }
    }
}

/// The counters that `system` holds.
pub uninterp spec fn host_counters(system: System) -> HostCounters;

/// The counters of `system` as it was last refreshed:
/// `System::global_cpu_usage`, `System::cpus` with `Cpu::cpu_usage` of each,
/// `total_memory`, `available_memory`, `total_swap` and `free_swap`. Each
/// only returns a value that `system` holds; none computes anything.
#[verifier::external_body]
pub(crate) fn read_host(system: &System) -> (out: HostReading)
    ensures
        out@ == host_counters(*system),
{
    HostReading {
        cpu_total: system.global_cpu_usage().to_bits(),
        cpu_per_core: system.cpus().iter().map(|c| c.cpu_usage().to_bits()).collect(),
        memory_total: system.total_memory(),
        memory_available: system.available_memory(),
        swap_total: system.total_swap(),
        swap_free: system.free_swap(),
    }
}

/// One disk: where it is mounted, its size and what is free of it, in bytes.
pub struct DiskReading {
    pub mount: String,
    pub total: u64,
    pub available: u64,
}

/// A `DiskReading` with its text as a sequence of characters.
pub struct DiskRow {
    pub mount: Seq<char>,
    pub total: u64,
    pub available: u64,
}

impl View for DiskReading {
    type V = DiskRow;

    open spec fn view(&self) -> DiskRow {
        DiskRow { mount: self.mount@, total: self.total, available: self.available }
    }
}

/// The views of the elements of `v`.
pub open spec fn disk_rows(v: Seq<DiskReading>) -> Seq<DiskRow> {
    Seq::new(v.len(), |i: int| v[i]@)
}

/// The disks that `disks` lists, in its order.
pub uninterp spec fn disk_list(disks: Disks) -> Seq<DiskRow>;

/// The disks of `disks`, in the order of `Disks::list`, each with
/// `Disk::mount_point`, `total_space` and `available_space`.
#[verifier::external_body]
pub(crate) fn read_disks(disks: &Disks) -> (out: Vec<DiskReading>)
    ensures
        disk_rows(out@) == disk_list(*disks),
{
    disks.list().iter().map(|d| DiskReading {
        mount: d.mount_point().to_string_lossy().to_string(),
        total: d.total_space(),
        available: d.available_space(),
    }).collect()
}

/// One network interface: the bytes it received and sent between the last
/// two refreshes, and in all.
pub struct NetworkReading {
    pub name: String,
    pub received: u64,
    pub transmitted: u64,
    pub total_received: u64,
    pub total_transmitted: u64,
}

/// A `NetworkReading` with its text as a sequence of characters.
pub struct NetworkRow {
    pub name: Seq<char>,
    pub received: u64,
    pub transmitted: u64,
    pub total_received: u64,
    pub total_transmitted: u64,
}

impl View for NetworkReading {
    type V = NetworkRow;

    open spec fn view(&self) -> NetworkRow {
        NetworkRow {
            name: self.name@,
            received: self.received,
            transmitted: self.transmitted,
            total_received: self.total_received,
            total_transmitted: self.total_transmitted,
        }
    }
}

/// The views of the elements of `v`.
pub open spec fn network_rows(v: Seq<NetworkReading>) -> Seq<NetworkRow> {
    Seq::new(v.len(), |i: int| v[i]@)
}

/// The interfaces that `networks` holds.
pub uninterp spec fn network_table(networks: Networks) -> Multiset<NetworkRow>;

/// The interfaces of `networks`, in the order in which its map hands them
/// out: `Networks::list`, and of each `NetworkData::received`, `transmitted`,
/// `total_received` and `total_transmitted`. The contract says only that
/// these are the interfaces of the map, each once.
#[verifier::external_body]
pub(crate) fn read_networks(networks: &Networks) -> (out: Vec<NetworkReading>)
    ensures
        network_rows(out@).to_multiset() == network_table(*networks),
{
    networks.list().iter().map(|(name, data)| NetworkReading {
        name: name.clone(),
        received: data.received(),
        transmitted: data.transmitted(),
        total_received: data.total_received(),
        total_transmitted: data.total_transmitted(),
    }).collect()
}

/// One temperature sensor: its label and, where it gave one, its reading in
/// degrees Celsius as the bits of a single-precision number.
pub struct SensorReading {
    pub label: String,
    pub temperature: Option<u32>,
}

/// A `SensorReading` with its text as a sequence of characters.
pub struct SensorRow {
    pub label: Seq<char>,
    pub temperature: Option<u32>,
}

impl View for SensorReading {
    type V = SensorRow;

    open spec fn view(&self) -> SensorRow {
        SensorRow { label: self.label@, temperature: self.temperature }
    }
}

/// The views of the elements of `v`.
pub open spec fn sensor_rows(v: Seq<SensorReading>) -> Seq<SensorRow> {
    Seq::new(v.len(), |i: int| v[i]@)
}

/// The sensors that `components` lists, in its order.
pub uninterp spec fn sensor_list(components: Components) -> Seq<SensorRow>;

/// The sensors of `components`, in the order of `Components::list`, each
/// with `Component::label` and `Component::temperature`.
#[verifier::external_body]
pub(crate) fn read_sensors(components: &Components) -> (out: Vec<SensorReading>)
    ensures
        sensor_rows(out@) == sensor_list(*components),
{
    components.list().iter().map(|c| SensorReading {
        label: c.label().to_string(),
        temperature: c.temperature().map(|t| t.to_bits()),
    }).collect()
}

} // verus!
