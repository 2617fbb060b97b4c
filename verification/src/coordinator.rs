//! The coordinator: it owns one poller of each kind, the choices made for
//! the process list and the page that is shown, and at every tick lets each
//! poller decide for itself whether its interval has passed.

use crate::battery;
use crate::battery::BatteryInfo;
use crate::gpu;
use crate::gpu::{CardEntry, GpuInfo};
use crate::info;
use crate::info::SystemInfo;
use crate::page;
use crate::probe::{disk_list, host_counters, network_table, sensor_list};
use crate::process::ProcessView;
use crate::sysfs::Directory;
use sysinfo::{Components, Disks, Networks, System};
use vstd::prelude::*;

verus! {

/// What is to be read before a tick: of each poller, whether its interval
/// has passed.
#[derive(Clone, Copy, PartialEq, Eq, Structural, Debug)]
pub struct Plan {
    pub host: bool,
    pub battery: bool,
    pub gpu: bool,
}

/// The pollers, the process view and the page that is shown.
pub struct Coordinator {
    pub host: SystemInfo,
    pub battery: BatteryInfo,
    pub gpu: GpuInfo,
    pub processes: ProcessView,
    pub current_view: page::View,
}

impl Coordinator {
    /// The coordinator of the pollers `host`, `battery` and `gpu`, with
    /// nothing chosen yet for the process list and the first page shown.
    pub fn new(host: SystemInfo, battery: BatteryInfo, gpu: GpuInfo) -> (core: Coordinator)
        ensures
            core.host == host,
            core.battery == battery,
            core.gpu == gpu,
            core.processes@ == crate::process::ViewState::initial(),
            core.current_view == page::View::Dashboard,
    {
        Coordinator {
            host,
            battery,
            gpu,
            processes: ProcessView::default(),
            current_view: page::View::Dashboard,
        }
    }

    /// The page that is shown.
    pub fn view(&self) -> (r: page::View)
        ensures
            r == self.current_view,
    {
        self.current_view
    }

    /// Shows the page `view`. Nothing else changes: no poller reads anything
    /// and the choices for the process list stay.
    pub fn set_view(&mut self, view: page::View)
        ensures
            final(self).current_view == view,
            final(self).host == old(self).host,
            final(self).battery == old(self).battery,
            final(self).gpu == old(self).gpu,
            final(self).processes == old(self).processes,
    {
        self.current_view = view;
    }

    /// What is to be read before a tick at `now_ms`. What is not due need
    /// not be read: the tick does not look at it.
    pub fn plan(&self, now_ms: u64) -> (plan: Plan)
        ensures
            plan.host == crate::clock::is_due(
                self.host.last_refresh,
                now_ms,
                info::REFRESH_INTERVAL_MS,
            ),
            plan.battery == crate::clock::is_due(
                self.battery.last_refresh,
                now_ms,
                battery::REFRESH_INTERVAL_MS,
            ),
            plan.gpu == crate::clock::is_due(
                self.gpu.last_refresh,
                now_ms,
                gpu::REFRESH_INTERVAL_MS,
            ),
    {
        Plan {
            host: self.host.due(now_ms),
            battery: self.battery.due(now_ms),
            gpu: self.gpu.due(now_ms),
        }
    }

    /// One tick at `now_ms`: each poller refreshes where its own interval has
    /// passed and stays as it is otherwise, whatever the others do. The
    /// process view and the page that is shown are not touched.
    pub fn tick(
        &mut self,
        now_ms: u64,
        system: &System,
        networks: &Networks,
        disks: &Disks,
        components: &Components,
        supplies: &Vec<Directory>,
        cards: &Vec<CardEntry>,
    )
        ensures
            final(self).host@ == info::ticked(
                old(self).host@,
                now_ms,
                host_counters(*system),
                disk_list(*disks),
                final(self).host@.networks,
                sensor_list(*components),
            ),
            crate::clock::is_due(old(self).host.last_refresh, now_ms, info::REFRESH_INTERVAL_MS)
                ==> final(self).host@.networks.to_multiset() == network_table(*networks),
            final(self).battery@ == battery::ticked(old(self).battery@, now_ms, supplies@),
            final(self).gpu@ == gpu::ticked(old(self).gpu@, now_ms, cards@),
            final(self).processes == old(self).processes,
            final(self).current_view == old(self).current_view,
    {
        self.host.refresh_if_needed(now_ms, system, networks, disks, components);
        self.battery.refresh_if_needed(now_ms, supplies);
        self.gpu.refresh_if_needed(now_ms, cards);
    }
}

} // verus!
