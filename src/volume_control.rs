//! The device directory: the last device list read from the audio server,
//! its active device, and the decisions of cycling, muting and volume steps.

use vstd::prelude::*;

use vstd::arithmetic::div_mod::{lemma_mod_self_0, lemma_small_mod};

use crate::command::{
    move_stream_command, move_stream_view, set_default_command, set_default_view,
    toggle_mute_command, toggle_mute_view, volume_step_command, volume_step_view, Command,
};
use crate::device::{devices_of, parse_devices, parse_sink_inputs, streams_of, views, Interface,
    InterfaceView};
use crate::error::CoreError;

verus! {

/// `i` is the position of the first active device of `ds`.
pub open spec fn is_first_active(ds: Seq<InterfaceView>, i: int) -> bool {
    0 <= i < ds.len() && ds[i].active && forall|j: int| 0 <= j < i ==> !ds[j].active
}

pub open spec fn has_active(ds: Seq<InterfaceView>) -> bool {
    exists|i: int| 0 <= i < ds.len() && ds[i].active
}

/// The position of the first active device, or 0 where none is active.
pub open spec fn active_position(ds: Seq<InterfaceView>) -> int {
    if has_active(ds) {
        choose|i: int| is_first_active(ds, i)
    } else {
        0
    }
}

/// The first active device, if any.
pub open spec fn first_active(ds: Seq<InterfaceView>) -> Option<InterfaceView> {
    if has_active(ds) {
        Some(ds[active_position(ds)])
    } else {
        None
    }
}

/// The position that cycling moves the default output to.
pub open spec fn next_position(ds: Seq<InterfaceView>) -> int {
    (active_position(ds) + 1) % (ds.len() as int)
}

pub open spec fn option_view(d: Option<Interface>) -> Option<InterfaceView> {
    match d {
        Some(x) => Some(x@),
        None => None,
    }
}

/// The position of the first active device, where there is one.
fn find_active(interfaces: &Vec<Interface>) -> (r: Option<usize>)
    ensures
        match r {
            Some(i) => is_first_active(views(interfaces@), i as int) && active_position(
                views(interfaces@),
            ) == i,
            None => !has_active(views(interfaces@)),
        },
{
    let ghost ds = views(interfaces@);
    let mut i: usize = 0;
    while i < interfaces.len()
        invariant
            ds == views(interfaces@),
            i <= interfaces.len(),
            forall|j: int| 0 <= j < i ==> !ds[j].active,
        decreases interfaces.len() - i,
    {
        if interfaces[i].active {
            proof {
                assert(is_first_active(ds, i as int));
                let c = choose|c: int| is_first_active(ds, c);
                if c < i {
                    assert(!ds[c].active);
                } else if c > i {
                    assert(!ds[i as int].active);
                }
            }
            return Some(i);
        }
        i = i + 1;
    }
    None
}

/// With no device marked active, cycling counts from the first device and so
/// moves to the second.
pub proof fn lemma_no_active_starts_at_first(ds: Seq<InterfaceView>)
    requires
        !has_active(ds),
        ds.len() >= 2,
    ensures
        active_position(ds) == 0,
        next_position(ds) == 1,
{
    lemma_small_mod(1, ds.len());
}

/// Cycling moves to the device after the first active one, and from the last
/// device back to the first.
pub proof fn lemma_cycle_follows_active(ds: Seq<InterfaceView>, i: int)
    requires
        is_first_active(ds, i),
        ds.len() >= 2,
    ensures
        i + 1 < ds.len() ==> next_position(ds) == i + 1,
        i + 1 == ds.len() ==> next_position(ds) == 0,
{
    let c = choose|c: int| is_first_active(ds, c);
    assert(is_first_active(ds, c));
    if c < i {
        assert(!ds[c].active);
    } else if c > i {
        assert(!ds[i].active);
    }
    if i + 1 < ds.len() {
        lemma_small_mod((i + 1) as nat, ds.len());
    } else {
        lemma_mod_self_0(ds.len() as int);
    }
}

/// Refreshing twice from the same dump gives the same device list.
/// What a refresh from the dump `listing` does: where the dump is read, it
/// succeeds and the directory holds its devices and their first active one;
/// where it is not, it fails and the directory is left as it was.
pub open spec fn refresh_outcome(before: VolumeControl, listing: Seq<char>, ok: bool, after: VolumeControl) -> bool {
    match devices_of(listing) {
        Some(ds) => ok && after.wf() && after.devices() == ds,
        None => !ok && after == before,
    }
}

/// Refreshing twice from the same dump gives the same outcome both times:
/// both succeed or both fail, and the device list and the active device are
/// the same after the second refresh as after the first.
pub proof fn lemma_refresh_idempotent(
    listing: Seq<char>,
    start: VolumeControl,
    first_ok: bool,
    first: VolumeControl,
    second_ok: bool,
    second: VolumeControl,
)
    requires
        refresh_outcome(start, listing, first_ok, first),
        refresh_outcome(first, listing, second_ok, second),
    ensures
        first_ok == second_ok,
        second.devices() == first.devices(),
        second.active_view() == first.active_view(),
{
}

/// A copy of the first active device of `interfaces`, if any.
pub fn get_active_interface(interfaces: &Vec<Interface>) -> (r: Option<Interface>)
    ensures
        option_view(r) == first_active(views(interfaces@)),
{
    match find_active(interfaces) {
        Some(i) => Some(interfaces[i].duplicate()),
        None => None,
    }
}

/// Where cycling goes: the position of the next device and its identifier.
#[derive(Debug)]
pub struct CyclePlan {
    /// The position of the new default output in the device list.
    pub position: usize,
    /// The server's identifier of the new default output.
    pub target: i32,
    /// The command that makes it the default output.
    pub set_default: Command,
}

/// The device list read last and its active device.
pub struct VolumeControl {
    pub interfaces: Vec<Interface>,
    pub active_interface: Option<Interface>,
}

impl VolumeControl {
    /// The devices, in the order the server listed them.
    pub open spec fn devices(&self) -> Seq<InterfaceView> {
        views(self.interfaces@)
    }

    /// The active device as a value.
    pub open spec fn active_view(&self) -> Option<InterfaceView> {
        option_view(self.active_interface)
    }

    /// The active device is the first device marked active.
    pub open spec fn wf(&self) -> bool {
        self.active_view() == first_active(self.devices())
    }

    /// The directory of the devices that the device dump `listing` describes.
    pub fn new(listing: &str) -> (r: Result<VolumeControl, CoreError>)
        ensures
            match r {
                Ok(vc) => vc.wf() && devices_of(listing@) == Some(vc.devices()),
                Err(e) => devices_of(listing@) is None && e is Parse,
            },
    {
        match parse_devices(listing) {
            Ok(interfaces) => {
                let active_interface = get_active_interface(&interfaces);
                Ok(VolumeControl { interfaces, active_interface })
            },
            Err(e) => Err(e),
        }
    }

    /// Replaces the device list by the one that `listing` describes and
    /// recomputes the active device; on a parse failure nothing changes.
    pub fn get_available_interfaces(&mut self, listing: &str) -> (r: Result<(), CoreError>)
        ensures
            refresh_outcome(*old(self), listing@, r is Ok, *final(self)),
            match r {
                Ok(()) => final(self).wf() && devices_of(listing@) == Some(final(self).devices()),
                Err(e) => devices_of(listing@) is None && e is Parse && *final(self) == *old(
                    self,
                ),
            },
    {
        match parse_devices(listing) {
            Ok(interfaces) => {
                self.active_interface = get_active_interface(&interfaces);
                self.interfaces = interfaces;
                Ok(())
            },
            Err(e) => Err(e),
        }
    }

    /// A copy of the active device, `active_interface`, which after a
    /// refresh is the first device marked active.
    pub fn active(&self) -> (r: Option<Interface>)
        ensures
            option_view(r) == self.active_view(),
            self.wf() ==> option_view(r) == first_active(self.devices()),
    {
        match &self.active_interface {
            Some(d) => Some(d.duplicate()),
            None => None,
        }
    }

    /// The devices of the last refresh.
    pub fn interfaces(&self) -> (r: &Vec<Interface>)
        ensures
            views(r@) == self.devices(),
    {
        &self.interfaces
    }

    /// The mixer command that changes the master volume by `amount` percent:
    /// its magnitude, with `+` where `amount` is not negative and `-` where it is.
    pub fn change_volume(&self, amount: i32) -> (r: Command)
        ensures
            r@ == volume_step_view(amount as int),
    {
        volume_step_command(amount)
    }

    /// Refreshes the directory from `listing`, then gives the command that
    /// toggles the mute switch of the active device; none where no device is
    /// active.
    pub fn toggle_mute(&mut self, listing: &str) -> (r: Result<Option<Command>, CoreError>)
        ensures
            match r {
                Ok(c) => {
                    &&& final(self).wf()
                    &&& devices_of(listing@) == Some(final(self).devices())
                    &&& match first_active(final(self).devices()) {
                        Some(d) => c is Some && c->0@ == toggle_mute_view(d.index),
                        None => c is None,
                    }
                },
                Err(e) => devices_of(listing@) is None && e is Parse && *final(self) == *old(
                    self,
                ),
            },
    {
        match self.get_available_interfaces(listing) {
            Ok(()) => {},
            Err(e) => {
                return Err(e);
            },
        }
        match &self.active_interface {
            Some(d) => Ok(Some(toggle_mute_command(d.index))),
            None => Ok(None),
        }
    }

    /// Refreshes the directory from `listing` and picks the next device in
    /// rotation: the one after the first active device, or after the first
    /// device where none is active, wrapping around at the end.
    pub fn cycle_through_interfaces(&mut self, listing: &str) -> (r: Result<CyclePlan, CoreError>)
        ensures
            match devices_of(listing@) {
                None => r is Err && r->Err_0 is Parse && *final(self) == *old(self),
                Some(ds) => {
                    &&& final(self).wf()
                    &&& final(self).devices() == ds
                    &&& ds.len() < 2 ==> r is Err && r->Err_0 is InsufficientDevices
                    &&& ds.len() >= 2 ==> {
                        &&& r is Ok
                        &&& r->Ok_0.position == next_position(ds)
                        &&& r->Ok_0.target == ds[next_position(ds)].index
                        &&& r->Ok_0.set_default@ == set_default_view(ds[next_position(ds)].index)
                    }
                },
            },
    {
        match self.get_available_interfaces(listing) {
            Ok(()) => {},
            Err(e) => {
                return Err(e);
            },
        }
        let n = self.interfaces.len();
        if n <= 1 {
            return Err(CoreError::InsufficientDevices);
        }
        let current = match find_active(&self.interfaces) {
            Some(i) => i,
            None => 0,
        };
        let position = (current + 1) % n;
        let target = self.interfaces[position].index;
        Ok(CyclePlan { position, target, set_default: set_default_command(target) })
    }

    /// The commands that move each stream of the stream dump `sink_inputs`
    /// onto the device `target`, in the order of the dump.
    pub fn move_streams(&self, sink_inputs: &str, target: i32) -> (r: Result<Vec<Command>, CoreError>)
        ensures
            match streams_of(sink_inputs@) {
                None => r is Err && r->Err_0 is Parse,
                Some(ids) => r is Ok && r->Ok_0@.len() == ids.len() && forall|k: int|
                    0 <= k < ids.len() ==> (#[trigger] r->Ok_0@[k])@ == move_stream_view(
                        ids[k],
                        target,
                    ),
            },
    {
        let ids = match parse_sink_inputs(sink_inputs) {
            Ok(ids) => ids,
            Err(e) => {
                return Err(e);
            },
        };
        let mut out: Vec<Command> = Vec::new();
        let mut k: usize = 0;
        while k < ids.len()
            invariant
                k <= ids.len(),
                out@.len() == k,
                forall|m: int| 0 <= m < k ==> (#[trigger] out@[m])@ == move_stream_view(ids@[m], target),
            decreases ids.len() - k,
        {
            out.push(move_stream_command(ids[k], target));
            k = k + 1;
        }
        Ok(out)
    }
}

} // verus!
