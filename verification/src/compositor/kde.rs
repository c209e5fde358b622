//! KDE/Plasma `kde_output_management_v2`: the per-session state that the
//! Wayland event stream maintains, and the decisions taken on it.
//!
//! Devices and modes are kept in insertion-ordered maps keyed by their
//! protocol ids, as KWin announces them. Protocol objects themselves stay
//! with the caller, found again by those ids.

use vstd::prelude::*;
use indexmap::IndexMap;
use crate::compositor::{EnableModel, EnableOutput, HeadModel, HeadState, ModeInfo, OutputPlan, PlanModel,
    Transform, contains_name, enable_names, enable_views, head_views, plan_wf, string_views};
use crate::text::owned;

verus! {

#[verifier::external_type_specification]
#[verifier::external_body]
#[verifier::reject_recursive_types(K)]
#[verifier::reject_recursive_types(V)]
#[verifier::reject_recursive_types(S)]
pub struct ExIndexMap<K, V, S>(IndexMap<K, V, S>);

/// One output device as KWin describes it.
#[derive(Clone, Debug)]
pub struct KdeDevice {
    /// Registry name, for devices announced as registry globals.
    pub registry_name: Option<u32>,
    /// Whether a protocol object is bound for the device.
    pub bound: bool,
    pub name: Option<String>,
    pub enabled: bool,
    pub current_mode: Option<u32>,
    pub position: Option<(i32, i32)>,
    /// Bit pattern of the `f64` scale, snapped to 1/120.
    pub scale_bits: Option<u64>,
    pub transform: Option<Transform>,
    /// The initial event burst is complete.
    pub done_seen: bool,
}

/// One mode of a device.
#[derive(Clone, Copy, Debug)]
pub struct KdeModeEntry {
    /// Protocol id of the device the mode belongs to.
    pub parent: u32,
    /// Whether a protocol object is bound for the mode.
    pub bound: bool,
    pub info: ModeInfo,
}

/// The entries of the device map, in order.
pub uninterp spec fn device_entries(m: IndexMap<u32, KdeDevice>) -> Seq<(u32, KdeDevice)>;

/// The entries of the mode map, in order.
pub uninterp spec fn mode_entries(m: IndexMap<u32, KdeModeEntry>) -> Seq<(u32, KdeModeEntry)>;

/// Position of the entry for `k`, if any.
pub open spec fn key_index<V>(es: Seq<(u32, V)>, k: u32) -> Option<int>
    decreases es.len(),
{
    if es.len() == 0 {
        None
    } else {
        match key_index(es.drop_last(), k) {
            Some(i) => Some(i),
            None => if es.last().0 == k { Some(es.len() - 1) } else { None },
        }
    }
}

proof fn lemma_key_index<V>(es: Seq<(u32, V)>, k: u32)
    ensures
        key_index(es, k) matches Some(i) ==> 0 <= i < es.len() && es[i].0 == k
            && forall|j: int| 0 <= j < i ==> es[j].0 != k,
        key_index(es, k) is None ==> forall|j: int| 0 <= j < es.len() ==> es[j].0 != k,
    decreases es.len(),
{
    if es.len() > 0 {
        lemma_key_index(es.drop_last(), k);
        assert forall|j: int| 0 <= j < es.len() - 1 implies es[j] == es.drop_last()[j] by {}
    }
}

proof fn lemma_key_index_first<V>(es: Seq<(u32, V)>, k: u32, i: int)
    requires
        0 <= i < es.len(),
        es[i].0 == k,
        forall|j: int| 0 <= j < i ==> es[j].0 != k,
    ensures
        key_index(es, k) == Some(i),
    decreases es.len(),
{
    lemma_key_index(es, k);
    match key_index(es, k) {
        Some(m) => {
            if m < i {
                assert(es[m].0 != k);
            } else if m > i {
                assert(es[i].0 != k);
            }
        },
        None => {
            assert(es[i].0 != k);
        },
    }
}

proof fn lemma_insert_twice<V>(es: Seq<(u32, V)>, k: u32, a: V, b: V)
    ensures
        inserted(inserted(es, k, a), k, b) == inserted(es, k, b),
{
    lemma_key_index(es, k);
    match key_index(es, k) {
        Some(i) => {
            let e1 = es.update(i, (k, a));
            assert forall|j: int| 0 <= j < i implies e1[j].0 != k by {}
            lemma_key_index_first(e1, k, i);
            assert(e1.update(i, (k, b)) =~= es.update(i, (k, b)));
        },
        None => {
            let e1 = es.push((k, a));
            assert forall|j: int| 0 <= j < es.len() implies e1[j].0 != k by { assert(e1[j] == es[j]); }
            lemma_key_index_first(e1, k, es.len() as int);
            assert(e1.update(es.len() as int, (k, b)) =~= es.push((k, b)));
        },
    }
}

/// `es` after `insert(k, v)`: an existing key keeps its place with the new
/// value, a new key goes last.
pub open spec fn inserted<V>(es: Seq<(u32, V)>, k: u32, v: V) -> Seq<(u32, V)> {
    match key_index(es, k) {
        Some(i) => es.update(i, (k, v)),
        None => es.push((k, v)),
    }
}

/// `es` after `shift_remove(k)`: the entry goes, the others keep their order.
pub open spec fn shift_removed<V>(es: Seq<(u32, V)>, k: u32) -> Seq<(u32, V)> {
    match key_index(es, k) {
        Some(i) => es.remove(i),
        None => es,
    }
}

/// `IndexMap::new`: an empty map.
#[verifier::external_body]
fn new_device_map() -> (m: IndexMap<u32, KdeDevice>)
    ensures
        device_entries(m) == Seq::<(u32, KdeDevice)>::empty(),
{
    IndexMap::new()
}

/// `IndexMap::new`: an empty map.
#[verifier::external_body]
fn new_mode_map() -> (m: IndexMap<u32, KdeModeEntry>)
    ensures
        mode_entries(m) == Seq::<(u32, KdeModeEntry)>::empty(),
{
    IndexMap::new()
}

/// `IndexMap::insert`: replaces the value of an existing key in place and
/// returns the old one; otherwise appends the pair and returns `None`.
#[verifier::external_body]
fn insert_device(m: &mut IndexMap<u32, KdeDevice>, k: u32, v: KdeDevice) -> (r: Option<KdeDevice>)
    ensures
        device_entries(*final(m)) == inserted(device_entries(*old(m)), k, v),
        r == (match key_index(device_entries(*old(m)), k) {
            Some(i) => Some(device_entries(*old(m))[i].1),
            None => None,
        }),
{
    m.insert(k, v)
}

/// `IndexMap::insert`: replaces the value of an existing key in place and
/// returns the old one; otherwise appends the pair and returns `None`.
#[verifier::external_body]
fn insert_mode(m: &mut IndexMap<u32, KdeModeEntry>, k: u32, v: KdeModeEntry) -> (r: Option<KdeModeEntry>)
    ensures
        mode_entries(*final(m)) == inserted(mode_entries(*old(m)), k, v),
        r == (match key_index(mode_entries(*old(m)), k) {
            Some(i) => Some(mode_entries(*old(m))[i].1),
            None => None,
        }),
{
    m.insert(k, v)
}

/// `IndexMap::shift_remove`: removes the pair for `k`, keeping the order of
/// the others, and returns its value.
#[verifier::external_body]
fn shift_remove_device(m: &mut IndexMap<u32, KdeDevice>, k: u32) -> (r: Option<KdeDevice>)
    ensures
        device_entries(*final(m)) == shift_removed(device_entries(*old(m)), k),
        r == (match key_index(device_entries(*old(m)), k) {
            Some(i) => Some(device_entries(*old(m))[i].1),
            None => None,
        }),
{
    m.shift_remove(&k)
}

/// `IndexMap::shift_remove`: removes the pair for `k`, keeping the order of
/// the others, and returns its value.
#[verifier::external_body]
fn shift_remove_mode(m: &mut IndexMap<u32, KdeModeEntry>, k: u32) -> (r: Option<KdeModeEntry>)
    ensures
        mode_entries(*final(m)) == shift_removed(mode_entries(*old(m)), k),
        r == (match key_index(mode_entries(*old(m)), k) {
            Some(i) => Some(mode_entries(*old(m))[i].1),
            None => None,
        }),
{
    m.shift_remove(&k)
}

/// Whether a mode survives the removal of device `device`.
fn mode_outlives(e: &KdeModeEntry, device: u32) -> (r: bool)
    ensures
        r == (e.parent != device),
{
    e.parent != device
}

/// `IndexMap::retain` with [`mode_outlives`]: keeps, in order, the modes
/// that do not belong to `device`.
#[verifier::external_body]
fn retain_modes_outliving(m: &mut IndexMap<u32, KdeModeEntry>, device: u32)
    ensures
        mode_entries(*final(m)) == mode_entries(*old(m)).filter(|e: (u32, KdeModeEntry)| e.1.parent != device),
{
    m.retain(|_, e| mode_outlives(e, device))
}

/// `IndexMap::len`.
#[verifier::external_body]
fn device_count(m: &IndexMap<u32, KdeDevice>) -> (r: usize)
    ensures
        r == device_entries(*m).len(),
{
    m.len()
}

/// `IndexMap::len`.
#[verifier::external_body]
fn mode_count(m: &IndexMap<u32, KdeModeEntry>) -> (r: usize)
    ensures
        r == mode_entries(*m).len(),
{
    m.len()
}

/// `IndexMap::get_index`: the pair at position `i`, if there is one.
#[verifier::external_body]
fn device_at(m: &IndexMap<u32, KdeDevice>, i: usize) -> (r: Option<(&u32, &KdeDevice)>)
    ensures
        r == (if i < device_entries(*m).len() { Some((&device_entries(*m)[i as int].0, &device_entries(*m)[i as int].1)) } else { None }),
{
    m.get_index(i)
}

/// `IndexMap::get_index`: the pair at position `i`, if there is one.
#[verifier::external_body]
fn mode_at(m: &IndexMap<u32, KdeModeEntry>, i: usize) -> (r: Option<(&u32, &KdeModeEntry)>)
    ensures
        r == (if i < mode_entries(*m).len() { Some((&mode_entries(*m)[i as int].0, &mode_entries(*m)[i as int].1)) } else { None }),
{
    m.get_index(i)
}

/// `IndexMap::get`: the value of `k`, if present.
#[verifier::external_body]
fn get_mode(m: &IndexMap<u32, KdeModeEntry>, k: u32) -> (r: Option<&KdeModeEntry>)
    ensures
        match key_index(mode_entries(*m), k) {
            Some(i) => r matches Some(v) && *v == mode_entries(*m)[i].1,
            None => r is None,
        },
{
    m.get(&k)
}

/// `IndexMap::get`: the value of `k`, if present.
#[verifier::external_body]
fn get_device(m: &IndexMap<u32, KdeDevice>, k: u32) -> (r: Option<&KdeDevice>)
    ensures
        match key_index(device_entries(*m), k) {
            Some(i) => r matches Some(v) && *v == device_entries(*m)[i].1,
            None => r is None,
        },
{
    m.get(&k)
}

/// Outcome slot for a single apply round-trip.
#[derive(Clone, Debug)]
pub enum ApplyResult {
    Pending,
    Applied,
    Failed { reason: Option<String> },
}

/// An event KWin sends about an output device.
pub enum DeviceEvent {
    Name(String),
    Enabled(i32),
    /// The current mode, by protocol id.
    CurrentMode(u32),
    Geometry { x: i32, y: i32, transform: i32 },
    /// The scale as the bit pattern of the `f64` factor snapped to 1/120.
    Scale(u64),
    /// A mode of the device, by protocol id, with its bound object.
    Mode(u32),
    Done,
}

/// An event KWin sends about a mode.
pub enum ModeEvent {
    Size { width: i32, height: i32 },
    Refresh(i32),
    Removed,
}

/// An event KWin sends about a submitted configuration.
pub enum ConfigEvent {
    FailureReason(String),
    Applied,
    Failed,
}

/// A registry global the session binds.
pub enum Global {
    /// `kde_output_management_v2`.
    Manager,
    /// `kde_output_device_registry_v2` (Plasma 6.7+).
    DeviceRegistry,
    /// `kde_output_device_v2` (Plasma 6.6 and older), with the protocol id
    /// of the bound device.
    Device(u32),
}

/// Per-session bookkeeping, updated as the Wayland event stream arrives.
pub struct KdeState {
    manager_registry_name: Option<u32>,
    manager_alive: bool,
    device_registry_name: Option<u32>,
    devices: IndexMap<u32, KdeDevice>,
    modes: IndexMap<u32, KdeModeEntry>,
    apply_result: ApplyResult,
    pending_failure_reason: Option<String>,
}

/// The parts of a [`KdeState`] besides its device and mode maps.
pub struct SessionModel {
    pub manager_registry_name: Option<u32>,
    pub manager_alive: bool,
    pub device_registry_name: Option<u32>,
    pub apply_result: ApplyResult,
    pub pending_failure_reason: Option<String>,
}

/// A device with nothing known about it yet.
pub open spec fn fresh_device() -> KdeDevice {
    KdeDevice {
        registry_name: None,
        bound: false,
        name: None,
        enabled: false,
        current_mode: None,
        position: None,
        scale_bits: None,
        transform: None,
        done_seen: false,
    }
}

fn new_device() -> (d: KdeDevice)
    ensures
        d == fresh_device(),
{
    KdeDevice {
        registry_name: None,
        bound: false,
        name: None,
        enabled: false,
        current_mode: None,
        position: None,
        scale_bits: None,
        transform: None,
        done_seen: false,
    }
}

/// The device stored under `id`, or a fresh one.
pub open spec fn device_or_fresh(es: Seq<(u32, KdeDevice)>, id: u32) -> KdeDevice {
    match key_index(es, id) {
        Some(i) => es[i].1,
        None => fresh_device(),
    }
}

/// The effect of a device event on the device it concerns.
pub open spec fn device_after(d: KdeDevice, ev: DeviceEvent) -> KdeDevice {
    match ev {
        DeviceEvent::Name(n) => KdeDevice { name: Some(n), ..d },
        DeviceEvent::Enabled(e) => KdeDevice { enabled: e != 0, ..d },
        DeviceEvent::CurrentMode(m) => KdeDevice { current_mode: Some(m), ..d },
        DeviceEvent::Geometry { x, y, transform } => KdeDevice {
            position: Some((x, y)),
            transform: match crate::compositor::transform_from_wire(transform) { Ok(t) => Some(t), Err(_) => None },
            ..d
        },
        DeviceEvent::Scale(bits) => KdeDevice { scale_bits: Some(bits), ..d },
        DeviceEvent::Mode(m) => if d.current_mode is None { KdeDevice { current_mode: Some(m), ..d } } else { d },
        DeviceEvent::Done => KdeDevice { done_seen: true, ..d },
    }
}

/// The first remaining mode of `parent`, by protocol id.
pub open spec fn first_mode_of(es: Seq<(u32, KdeModeEntry)>, parent: u32) -> Option<u32>
    decreases es.len(),
{
    if es.len() == 0 {
        None
    } else {
        match first_mode_of(es.drop_last(), parent) {
            Some(m) => Some(m),
            None => if es.last().1.parent == parent { Some(es.last().0) } else { None },
        }
    }
}

impl KdeState {
    /// The session flags and the pending apply outcome.
    pub closed spec fn session(&self) -> SessionModel {
        SessionModel {
            manager_registry_name: self.manager_registry_name,
            manager_alive: self.manager_alive,
            device_registry_name: self.device_registry_name,
            apply_result: self.apply_result,
            pending_failure_reason: self.pending_failure_reason,
        }
    }

    /// The devices, in announcement order.
    pub closed spec fn spec_devices(&self) -> Seq<(u32, KdeDevice)> {
        device_entries(self.devices)
    }

    /// The modes, in announcement order.
    pub closed spec fn spec_modes(&self) -> Seq<(u32, KdeModeEntry)> {
        mode_entries(self.modes)
    }

    /// A session before any event.
    pub fn new() -> (s: KdeState)
        ensures
            s.spec_devices().len() == 0,
            s.spec_modes().len() == 0,
            s.session().manager_registry_name is None,
            !s.session().manager_alive,
            s.session().device_registry_name is None,
            s.session().apply_result is Pending,
            s.session().pending_failure_reason is None,
    {
        KdeState {
            manager_registry_name: None,
            manager_alive: false,
            device_registry_name: None,
            devices: new_device_map(),
            modes: new_mode_map(),
            apply_result: ApplyResult::Pending,
            pending_failure_reason: None,
        }
    }
}

/// The mode stored under `id`, or a fresh one of `parent`.
pub open spec fn mode_or_fresh(es: Seq<(u32, KdeModeEntry)>, id: u32, parent: u32) -> KdeModeEntry {
    match key_index(es, id) {
        Some(i) => es[i].1,
        None => KdeModeEntry { parent, bound: false, info: ModeInfo { width: 0, height: 0, refresh_mhz: 0 } },
    }
}

/// The effect of a size or refresh event on the mode it concerns.
pub open spec fn mode_after(m: KdeModeEntry, ev: ModeEvent) -> KdeModeEntry {
    match ev {
        ModeEvent::Size { width, height } => KdeModeEntry { info: ModeInfo { width, height, ..m.info }, ..m },
        ModeEvent::Refresh(r) => KdeModeEntry { info: ModeInfo { refresh_mhz: r, ..m.info }, ..m },
        ModeEvent::Removed => m,
    }
}

/// Position of the first device announced under registry name `name`.
pub open spec fn device_with_registry_name(es: Seq<(u32, KdeDevice)>, name: u32) -> Option<int>
    decreases es.len(),
{
    if es.len() == 0 {
        None
    } else {
        match device_with_registry_name(es.drop_last(), name) {
            Some(i) => Some(i),
            None => if es.last().1.registry_name == Some(name) { Some(es.len() - 1) } else { None },
        }
    }
}

/// `es` without the modes of `parent`, in order.
pub open spec fn without_parent(es: Seq<(u32, KdeModeEntry)>, parent: u32) -> Seq<(u32, KdeModeEntry)> {
    es.filter(|e: (u32, KdeModeEntry)| e.1.parent != parent)
}

/// What a registry removal took away.
pub enum Removed {
    /// The output-management global: the compositor went away.
    Manager,
    /// The device registry global.
    DeviceRegistry,
    /// The device with this protocol id, and its modes.
    Device(u32),
    /// Nothing this session tracks.
    Nothing,
}

fn transform_of(v: i32) -> (r: Option<Transform>)
    ensures
        r == (match crate::compositor::transform_from_wire(v) { Ok(t) => Some(t), Err(_) => None }),
{
    match Transform::try_from(v) {
        Ok(t) => Some(t),
        Err(_) => None,
    }
}

impl KdeState {
    /// Take the device under `id` out for an update, leaving a placeholder
    /// in its place (or last, for a new one).
    fn take_device(&mut self, id: u32) -> (d: KdeDevice)
        ensures
            d == device_or_fresh(old(self).spec_devices(), id),
            final(self).spec_devices() == inserted(old(self).spec_devices(), id, fresh_device()),
            final(self).spec_modes() == old(self).spec_modes(),
            final(self).session() == old(self).session(),
    {
        match insert_device(&mut self.devices, id, new_device()) {
            Some(d) => d,
            None => new_device(),
        }
    }

    fn put_device(&mut self, id: u32, d: KdeDevice)
        ensures
            final(self).spec_devices() == inserted(old(self).spec_devices(), id, d),
            final(self).spec_modes() == old(self).spec_modes(),
            final(self).session() == old(self).session(),
    {
        let _ = insert_device(&mut self.devices, id, d);
    }

    fn take_mode(&mut self, id: u32, parent: u32) -> (m: KdeModeEntry)
        ensures
            m == mode_or_fresh(old(self).spec_modes(), id, parent),
            final(self).spec_modes() == inserted(old(self).spec_modes(), id, mode_or_fresh(old(self).spec_modes(), id, parent)),
            final(self).spec_devices() == old(self).spec_devices(),
            final(self).session() == old(self).session(),
    {
        let fresh = KdeModeEntry { parent, bound: false, info: ModeInfo { width: 0, height: 0, refresh_mhz: 0 } };
        match insert_mode(&mut self.modes, id, fresh) {
            Some(m) => {
                let _ = insert_mode(&mut self.modes, id, m);
                proof { lemma_insert_twice(old(self).spec_modes(), id, fresh, m); }
                m
            },
            None => fresh,
        }
    }

    fn put_mode(&mut self, id: u32, m: KdeModeEntry)
        ensures
            final(self).spec_modes() == inserted(old(self).spec_modes(), id, m),
            final(self).spec_devices() == old(self).spec_devices(),
            final(self).session() == old(self).session(),
    {
        let _ = insert_mode(&mut self.modes, id, m);
    }

    /// Record an event about device `id`. The device is created on its
    /// first event; a mode event also records the mode as the device's,
    /// and makes it current when the device has no current mode yet.
    pub fn on_device_event(&mut self, id: u32, ev: DeviceEvent)
        ensures
            final(self).session() == old(self).session(),
            final(self).spec_devices() == inserted(old(self).spec_devices(), id,
                device_after(device_or_fresh(old(self).spec_devices(), id), ev)),
            final(self).spec_modes() == (match ev {
                DeviceEvent::Mode(m) => inserted(old(self).spec_modes(), m,
                    KdeModeEntry { parent: id, bound: true, ..mode_or_fresh(old(self).spec_modes(), m, id) }),
                _ => old(self).spec_modes(),
            }),
    {
        let ghost ev_view = ev;
        let d = self.take_device(id);
        let d2 = match ev {
            DeviceEvent::Name(n) => KdeDevice { name: Some(n), ..d },
            DeviceEvent::Enabled(e) => KdeDevice { enabled: e != 0, ..d },
            DeviceEvent::CurrentMode(m) => KdeDevice { current_mode: Some(m), ..d },
            DeviceEvent::Geometry { x, y, transform } => KdeDevice { position: Some((x, y)), transform: transform_of(transform), ..d },
            DeviceEvent::Scale(bits) => KdeDevice { scale_bits: Some(bits), ..d },
            DeviceEvent::Mode(m) => {
                let e = self.take_mode(m, id);
                self.put_mode(m, KdeModeEntry { parent: id, bound: true, ..e });
                proof {
                    lemma_insert_twice(old(self).spec_modes(), m, mode_or_fresh(old(self).spec_modes(), m, id),
                        KdeModeEntry { parent: id, bound: true, ..e });
                }
                if d.current_mode.is_none() { KdeDevice { current_mode: Some(m), ..d } } else { d }
            },
            DeviceEvent::Done => KdeDevice { done_seen: true, ..d },
        };
        assert(d2 == device_after(device_or_fresh(old(self).spec_devices(), id), ev_view));
        self.put_device(id, d2);
        proof { lemma_insert_twice(old(self).spec_devices(), id, fresh_device(), d2); }
    }

    /// Record an event about mode `id`. Size and refresh fill in the mode
    /// (creating it, unowned, on its first event); removal drops it and,
    /// when it was its device's current mode, makes the device's first
    /// remaining mode current.
    pub fn on_mode_event(&mut self, id: u32, ev: ModeEvent)
        ensures
            final(self).session() == old(self).session(),
            match ev {
                ModeEvent::Removed => {
                    let modes = shift_removed(old(self).spec_modes(), id);
                    &&& final(self).spec_modes() == modes
                    &&& final(self).spec_devices() == (match key_index(old(self).spec_modes(), id) {
                        Some(mi) => {
                            let pid = old(self).spec_modes()[mi].1.parent;
                            match key_index(old(self).spec_devices(), pid) {
                                Some(di) => if old(self).spec_devices()[di].1.current_mode == Some(id) {
                                    inserted(old(self).spec_devices(), pid,
                                        KdeDevice { current_mode: first_mode_of(modes, pid), ..old(self).spec_devices()[di].1 })
                                } else {
                                    old(self).spec_devices()
                                },
                                None => old(self).spec_devices(),
                            }
                        },
                        None => old(self).spec_devices(),
                    })
                },
                _ => {
                    &&& final(self).spec_devices() == old(self).spec_devices()
                    &&& final(self).spec_modes() == inserted(old(self).spec_modes(), id,
                        mode_after(mode_or_fresh(old(self).spec_modes(), id, 0), ev))
                },
            },
    {
        let ghost ev_view = ev;
        match ev {
            ModeEvent::Removed => {
                let parent = match get_mode(&self.modes, id) {
                    Some(e) => Some(e.parent),
                    None => None,
                };
                let _ = shift_remove_mode(&mut self.modes, id);
                match parent {
                    Some(pid) => {
                        let current = match get_device(&self.devices, pid) {
                            Some(dev) => dev.current_mode,
                            None => None,
                        };
                        let exists = get_device(&self.devices, pid).is_some();
                        if exists && current == Some(id) {
                            let next = self.first_mode_of_exec(pid);
                            let d = self.take_device(pid);
                            self.put_device(pid, KdeDevice { current_mode: next, ..d });
                            proof {
                                lemma_insert_twice(old(self).spec_devices(), pid, fresh_device(), KdeDevice { current_mode: next, ..d });
                            }
                        }
                    },
                    None => {},
                }
            },
            ModeEvent::Size { width, height } => {
                let m = self.take_mode(id, 0);
                self.put_mode(id, KdeModeEntry { info: ModeInfo { width, height, ..m.info }, ..m });
                proof { lemma_insert_twice(old(self).spec_modes(), id, m, mode_after(m, ev_view)); }
            },
            ModeEvent::Refresh(r) => {
                let m = self.take_mode(id, 0);
                self.put_mode(id, KdeModeEntry { info: ModeInfo { refresh_mhz: r, ..m.info }, ..m });
                proof { lemma_insert_twice(old(self).spec_modes(), id, m, mode_after(m, ev_view)); }
            },
        }
    }

    fn first_mode_of_exec(&self, parent: u32) -> (r: Option<u32>)
        ensures
            r == first_mode_of(self.spec_modes(), parent),
    {
        let n = mode_count(&self.modes);
        let ghost es = self.spec_modes();
        let mut i: usize = 0;
        while i < n
            invariant
                n == es.len(),
                es == self.spec_modes(),
                i <= n,
                first_mode_of(es.take(i as int), parent) is None,
            decreases n - i,
        {
            proof {
                assert(es.take(i as int + 1).drop_last() =~= es.take(i as int));
                assert(es.take(i as int + 1).last() == es[i as int]);
            }
            match mode_at(&self.modes, i) {
                Some((k, e)) => {
                    if e.parent == parent {
                        proof { lemma_first_mode_of_prefix(es, parent, i as int + 1); }
                        return Some(*k);
                    }
                },
                None => {},
            }
            i = i + 1;
        }
        assert(es.take(i as int) =~= es);
        None
    }

    /// Record an event about a submitted configuration.
    pub fn on_config_event(&mut self, ev: ConfigEvent)
        ensures
            final(self).spec_devices() == old(self).spec_devices(),
            final(self).spec_modes() == old(self).spec_modes(),
            final(self).session().manager_registry_name == old(self).session().manager_registry_name,
            final(self).session().manager_alive == old(self).session().manager_alive,
            final(self).session().device_registry_name == old(self).session().device_registry_name,
            match ev {
                ConfigEvent::FailureReason(r) => final(self).session().pending_failure_reason == Some(r)
                    && final(self).session().apply_result == old(self).session().apply_result,
                ConfigEvent::Applied => final(self).session().apply_result is Applied
                    && final(self).session().pending_failure_reason == old(self).session().pending_failure_reason,
                ConfigEvent::Failed => final(self).session().apply_result
                    == (ApplyResult::Failed { reason: old(self).session().pending_failure_reason })
                    && final(self).session().pending_failure_reason is None,
            },
    {
        match ev {
            ConfigEvent::FailureReason(r) => { self.pending_failure_reason = Some(r); },
            ConfigEvent::Applied => { self.apply_result = ApplyResult::Applied; },
            ConfigEvent::Failed => {
                let reason = self.pending_failure_reason.take();
                self.apply_result = ApplyResult::Failed { reason };
            },
        }
    }

    /// Record a registry global the session bound under registry name `name`.
    pub fn on_global(&mut self, g: Global, name: u32)
        ensures
            match g {
                Global::Manager => final(self).session() == (SessionModel { manager_registry_name: Some(name), ..old(self).session() })
                    && final(self).spec_devices() == old(self).spec_devices(),
                Global::DeviceRegistry => final(self).session() == (SessionModel { device_registry_name: Some(name), ..old(self).session() })
                    && final(self).spec_devices() == old(self).spec_devices(),
                Global::Device(id) => final(self).session() == old(self).session()
                    && final(self).spec_devices() == inserted(old(self).spec_devices(), id,
                        KdeDevice { registry_name: Some(name), bound: true, ..device_or_fresh(old(self).spec_devices(), id) }),
            },
            final(self).spec_modes() == old(self).spec_modes(),
    {
        match g {
            Global::Manager => { self.manager_registry_name = Some(name); },
            Global::DeviceRegistry => { self.device_registry_name = Some(name); },
            Global::Device(id) => {
                let d = self.take_device(id);
                let d2 = KdeDevice { registry_name: Some(name), bound: true, ..d };
                self.put_device(id, d2);
                proof { lemma_insert_twice(old(self).spec_devices(), id, fresh_device(), d2); }
            },
        }
    }

    /// Record a device the device registry announced, bound under
    /// protocol id `id`.
    pub fn on_registry_output(&mut self, id: u32)
        ensures
            final(self).session() == old(self).session(),
            final(self).spec_modes() == old(self).spec_modes(),
            final(self).spec_devices() == inserted(old(self).spec_devices(), id,
                KdeDevice { bound: true, ..device_or_fresh(old(self).spec_devices(), id) }),
    {
        let d = self.take_device(id);
        let d2 = KdeDevice { bound: true, ..d };
        self.put_device(id, d2);
        proof { lemma_insert_twice(old(self).spec_devices(), id, fresh_device(), d2); }
    }

    /// Record the removal of registry global `name`: the manager going
    /// away marks the compositor gone; a device going away takes its modes
    /// with it.
    pub fn on_global_remove(&mut self, name: u32) -> (r: Removed)
        ensures
            if old(self).session().manager_registry_name == Some(name) {
                &&& r is Manager
                &&& final(self).session() == (SessionModel { manager_alive: false, manager_registry_name: None, ..old(self).session() })
                &&& final(self).spec_devices() == old(self).spec_devices()
                &&& final(self).spec_modes() == old(self).spec_modes()
            } else if old(self).session().device_registry_name == Some(name) {
                &&& r is DeviceRegistry
                &&& final(self).session() == (SessionModel { device_registry_name: None, ..old(self).session() })
                &&& final(self).spec_devices() == old(self).spec_devices()
                &&& final(self).spec_modes() == old(self).spec_modes()
            } else {
                &&& final(self).session() == old(self).session()
                &&& match device_with_registry_name(old(self).spec_devices(), name) {
                    Some(i) => {
                        let id = old(self).spec_devices()[i].0;
                        &&& r == Removed::Device(id)
                        &&& final(self).spec_devices() == shift_removed(old(self).spec_devices(), id)
                        &&& final(self).spec_modes() == without_parent(old(self).spec_modes(), id)
                    },
                    None => {
                        &&& r is Nothing
                        &&& final(self).spec_devices() == old(self).spec_devices()
                        &&& final(self).spec_modes() == old(self).spec_modes()
                    },
                }
            },
    {
        if self.manager_registry_name == Some(name) {
            self.manager_alive = false;
            self.manager_registry_name = None;
            return Removed::Manager;
        }
        if self.device_registry_name == Some(name) {
            self.device_registry_name = None;
            return Removed::DeviceRegistry;
        }
        let n = device_count(&self.devices);
        let ghost es = self.spec_devices();
        let mut i: usize = 0;
        while i < n
            invariant
                n == es.len(),
                es == self.spec_devices(),
                es == old(self).spec_devices(),
                self.spec_modes() == old(self).spec_modes(),
                self.session() == old(self).session(),
                old(self).session().manager_registry_name != Some(name),
                old(self).session().device_registry_name != Some(name),
                i <= n,
                device_with_registry_name(es.take(i as int), name) is None,
            decreases n - i,
        {
            proof {
                assert(es.take(i as int + 1).drop_last() =~= es.take(i as int));
                assert(es.take(i as int + 1).last() == es[i as int]);
            }
            let found = match device_at(&self.devices, i) {
                Some((k, d)) => if d.registry_name == Some(name) { Some(*k) } else { None },
                None => None,
            };
            match found {
                Some(id) => {
                    proof { lemma_registry_prefix(es, name, i as int + 1); }
                    let _ = shift_remove_device(&mut self.devices, id);
                    retain_modes_outliving(&mut self.modes, id);
                    return Removed::Device(id);
                },
                None => {},
            }
            i = i + 1;
        }
        assert(es.take(i as int) =~= es);
        Removed::Nothing
    }

    /// The manager has been claimed and is alive.
    pub fn mark_manager_alive(&mut self)
        ensures
            final(self).session() == (SessionModel { manager_alive: true, ..old(self).session() }),
            final(self).spec_devices() == old(self).spec_devices(),
            final(self).spec_modes() == old(self).spec_modes(),
    {
        self.manager_alive = true;
    }

    /// Whether the manager is still alive.
    pub fn manager_alive(&self) -> (r: bool)
        ensures
            r == self.session().manager_alive,
    {
        self.manager_alive
    }

    /// Whether a device registry is bound.
    pub fn has_device_registry(&self) -> (r: bool)
        ensures
            r == (self.session().device_registry_name is Some),
    {
        self.device_registry_name.is_some()
    }

    /// Whether any device is known.
    pub fn has_devices(&self) -> (r: bool)
        ensures
            r == (self.spec_devices().len() > 0),
    {
        device_count(&self.devices) > 0
    }

    /// Reset the result slot before an apply.
    pub fn begin_apply(&mut self)
        ensures
            final(self).session() == (SessionModel { apply_result: ApplyResult::Pending, pending_failure_reason: None, ..old(self).session() }),
            final(self).spec_devices() == old(self).spec_devices(),
            final(self).spec_modes() == old(self).spec_modes(),
    {
        self.apply_result = ApplyResult::Pending;
        self.pending_failure_reason = None;
    }

    /// The apply outcome, once KWin has answered: `None` while pending;
    /// otherwise the outcome, leaving the slot pending again.
    pub fn take_apply_result(&mut self) -> (r: Option<ApplyResult>)
        ensures
            old(self).session().apply_result is Pending ==> r is None && final(self).session() == old(self).session(),
            !(old(self).session().apply_result is Pending) ==> r == Some(old(self).session().apply_result)
                && final(self).session() == (SessionModel { apply_result: ApplyResult::Pending, ..old(self).session() }),
            final(self).spec_devices() == old(self).spec_devices(),
            final(self).spec_modes() == old(self).spec_modes(),
    {
        match self.apply_result {
            ApplyResult::Pending => None,
            _ => {
                let mut r = ApplyResult::Pending;
                std::mem::swap(&mut r, &mut self.apply_result);
                Some(r)
            },
        }
    }
}

proof fn lemma_first_mode_of_prefix(es: Seq<(u32, KdeModeEntry)>, parent: u32, j: int)
    requires
        0 <= j <= es.len(),
        first_mode_of(es.take(j), parent) is Some,
    ensures
        first_mode_of(es, parent) == first_mode_of(es.take(j), parent),
    decreases es.len() - j,
{
    if j < es.len() {
        assert(es.take(j + 1).drop_last() =~= es.take(j));
        lemma_first_mode_of_prefix(es, parent, j + 1);
    } else {
        assert(es.take(j) =~= es);
    }
}

proof fn lemma_registry_prefix(es: Seq<(u32, KdeDevice)>, name: u32, j: int)
    requires
        0 <= j <= es.len(),
        device_with_registry_name(es.take(j), name) is Some,
    ensures
        device_with_registry_name(es, name) == device_with_registry_name(es.take(j), name),
    decreases es.len() - j,
{
    if j < es.len() {
        assert(es.take(j + 1).drop_last() =~= es.take(j));
        lemma_registry_prefix(es, name, j + 1);
    } else {
        assert(es.take(j) =~= es);
    }
}

/// The outcome of an apply: success, or the compositor's failure with its
/// reason. `None` while still pending.
pub fn apply_outcome(r: ApplyResult) -> (o: Option<Result<(), crate::error::Error>>)
    ensures
        match r {
            ApplyResult::Pending => o is None,
            ApplyResult::Applied => o matches Some(Ok(())),
            ApplyResult::Failed { reason } => o matches Some(Err(crate::error::Error::Compositor(
                crate::compositor::CompositorError::ApplyFailed { reason: x }))) && x == reason,
        },
{
    match r {
        ApplyResult::Pending => None,
        ApplyResult::Applied => Some(Ok(())),
        ApplyResult::Failed { reason } => Some(Err(crate::error::Error::Compositor(
            crate::compositor::CompositorError::ApplyFailed { reason }))),
    }
}

// ---------------------------------------------------------------------------
// Reading the session
// ---------------------------------------------------------------------------

/// The public view of a device, with its current mode resolved through
/// the mode table.
pub open spec fn head_of(d: KdeDevice, modes: Seq<(u32, KdeModeEntry)>) -> HeadModel {
    HeadModel {
        name: match d.name { Some(n) => n@, None => Seq::empty() },
        enabled: d.enabled,
        mode: match d.current_mode {
            Some(id) => match key_index(modes, id) {
                Some(i) => Some(modes[i].1.info),
                None => None,
            },
            None => None,
        },
        position: d.position,
        scale_bits: d.scale_bits,
        transform: d.transform,
    }
}

/// The devices that have a name and have finished their initial burst,
/// in order, as heads.
pub open spec fn live_heads_of(devs: Seq<(u32, KdeDevice)>, modes: Seq<(u32, KdeModeEntry)>) -> Seq<HeadModel>
    decreases devs.len(),
{
    if devs.len() == 0 {
        Seq::empty()
    } else {
        let rest = live_heads_of(devs.drop_last(), modes);
        let d = devs.last().1;
        if d.name is Some && d.done_seen { rest.push(head_of(d, modes)) } else { rest }
    }
}

/// Position of the first device from `i` on named `name`.
pub open spec fn device_named_from(devs: Seq<(u32, KdeDevice)>, name: Seq<char>, i: int) -> Option<int>
    decreases devs.len() - i,
{
    if i < 0 || i >= devs.len() {
        None
    } else if devs[i].1.name matches Some(n) && n@ == name {
        Some(i)
    } else {
        device_named_from(devs, name, i + 1)
    }
}

/// The protocol id of the first device named `name`, if it is bound.
pub open spec fn bound_device_id(devs: Seq<(u32, KdeDevice)>, name: Seq<char>) -> Option<u32> {
    match device_named_from(devs, name, 0) {
        Some(i) => if devs[i].1.bound { Some(devs[i].0) } else { None },
        None => None,
    }
}

pub open spec fn kde_mode_matches(e: KdeModeEntry, dev: u32, want: ModeInfo) -> bool {
    e.parent == dev && e.info.width == want.width && e.info.height == want.height
}

/// Position of the first mode from `i` on of device `dev` that matches
/// `want` exactly.
pub open spec fn exact_kde_mode_from(modes: Seq<(u32, KdeModeEntry)>, dev: u32, want: ModeInfo, i: int) -> Option<int>
    decreases modes.len() - i,
{
    if i < 0 || i >= modes.len() {
        None
    } else if kde_mode_matches(modes[i].1, dev, want) && modes[i].1.info.refresh_mhz == want.refresh_mhz {
        Some(i)
    } else {
        exact_kde_mode_from(modes, dev, want, i + 1)
    }
}

pub open spec fn kde_distance(e: KdeModeEntry, want: ModeInfo) -> int {
    let d = e.info.refresh_mhz - want.refresh_mhz;
    if d < 0 { -d } else { d }
}

/// Scanning from `i` with the best so far `best`: position of the first
/// mode of `dev` of the wanted size whose refresh is closest to it.
pub open spec fn closest_kde_mode_from(modes: Seq<(u32, KdeModeEntry)>, dev: u32, want: ModeInfo, i: int, best: Option<int>) -> Option<int>
    decreases modes.len() - i,
{
    if i < 0 || i >= modes.len() {
        best
    } else {
        let next = if kde_mode_matches(modes[i].1, dev, want) {
            match best {
                Some(b) => if kde_distance(modes[i].1, want) < kde_distance(modes[b].1, want) { Some(i) } else { Some(b) },
                None => Some(i),
            }
        } else {
            best
        };
        closest_kde_mode_from(modes, dev, want, i + 1, next)
    }
}

/// The bound mode of the first device named `name` that best matches
/// `want`: the exact match, else the same size at the closest refresh.
pub open spec fn find_mode_spec(devs: Seq<(u32, KdeDevice)>, modes: Seq<(u32, KdeModeEntry)>, name: Seq<char>, want: ModeInfo) -> Option<u32> {
    match device_named_from(devs, name, 0) {
        None => None,
        Some(di) => {
            let dev = devs[di].0;
            let pick = match exact_kde_mode_from(modes, dev, want, 0) {
                Some(k) => Some(k),
                None => closest_kde_mode_from(modes, dev, want, 0, None),
            };
            match pick {
                Some(k) => if modes[k].1.bound { Some(modes[k].0) } else { None },
                None => None,
            }
        },
    }
}

/// How far a refresh rate is from the wanted one, in millihertz.
pub open spec fn refresh_gap(r: i32, want: i32) -> int {
    if r >= want { r - want } else { want - r }
}

/// Mode `k` is a mode of device `dev` of the wanted size whose refresh is
/// at least as near the wanted refresh as that of any other such mode.
pub open spec fn nearest_mode(modes: Seq<(u32, KdeModeEntry)>, dev: u32, want: ModeInfo, k: int) -> bool {
    &&& 0 <= k < modes.len()
    &&& modes[k].1.parent == dev
    &&& modes[k].1.info.width == want.width && modes[k].1.info.height == want.height
    &&& forall|j: int| 0 <= j < modes.len() && (#[trigger] modes[j]).1.parent == dev
        && modes[j].1.info.width == want.width && modes[j].1.info.height == want.height
        ==> refresh_gap(modes[k].1.info.refresh_mhz, want.refresh_mhz)
            <= refresh_gap(modes[j].1.info.refresh_mhz, want.refresh_mhz)
}

proof fn lemma_closest_is_nearest(modes: Seq<(u32, KdeModeEntry)>, dev: u32, want: ModeInfo, i: int, best: Option<int>)
    requires
        0 <= i <= modes.len(),
        best matches Some(b) ==> 0 <= b < i && kde_mode_matches(modes[b].1, dev, want)
            && forall|j: int| 0 <= j < i && #[trigger] kde_mode_matches(modes[j].1, dev, want)
                ==> kde_distance(modes[b].1, want) <= kde_distance(modes[j].1, want),
        best is None ==> forall|j: int| 0 <= j < i ==> !#[trigger] kde_mode_matches(modes[j].1, dev, want),
    ensures
        closest_kde_mode_from(modes, dev, want, i, best) matches Some(k) ==> 0 <= k < modes.len()
            && kde_mode_matches(modes[k].1, dev, want)
            && forall|j: int| 0 <= j < modes.len() && #[trigger] kde_mode_matches(modes[j].1, dev, want)
                ==> kde_distance(modes[k].1, want) <= kde_distance(modes[j].1, want),
        closest_kde_mode_from(modes, dev, want, i, best) is None
            ==> forall|j: int| 0 <= j < modes.len() ==> !#[trigger] kde_mode_matches(modes[j].1, dev, want),
    decreases modes.len() - i,
{
    if i < modes.len() {
        let next = if kde_mode_matches(modes[i].1, dev, want) {
            match best {
                Some(b) => if kde_distance(modes[i].1, want) < kde_distance(modes[b].1, want) { Some(i) } else { Some(b) },
                None => Some(i),
            }
        } else {
            best
        };
        lemma_closest_is_nearest(modes, dev, want, i + 1, next);
    }
}

proof fn lemma_exact_found(modes: Seq<(u32, KdeModeEntry)>, dev: u32, want: ModeInfo, i: int)
    requires
        0 <= i <= modes.len(),
    ensures
        exact_kde_mode_from(modes, dev, want, i) matches Some(k) ==> i <= k < modes.len()
            && kde_mode_matches(modes[k].1, dev, want) && modes[k].1.info.refresh_mhz == want.refresh_mhz,
        exact_kde_mode_from(modes, dev, want, i) is None ==> forall|j: int| i <= j < modes.len()
            && #[trigger] kde_mode_matches(modes[j].1, dev, want) ==> modes[j].1.info.refresh_mhz != want.refresh_mhz,
    decreases modes.len() - i,
{
    if i < modes.len() {
        lemma_exact_found(modes, dev, want, i + 1);
    }
}

proof fn lemma_first_named(devs: Seq<(u32, KdeDevice)>, name: Seq<char>, i: int)
    requires
        0 <= i <= devs.len(),
    ensures
        device_named_from(devs, name, i) matches Some(d) ==> i <= d < devs.len()
            && (devs[d].1.name matches Some(n) && n@ == name)
            && forall|e: int| i <= e < d ==> !(#[trigger] devs[e].1.name matches Some(n) && n@ == name),
    decreases devs.len() - i,
{
    if i < devs.len() {
        lemma_first_named(devs, name, i + 1);
    }
}

/// The mode chosen for an output is a bound mode of the first device of
/// that name, of the wanted size, and nearest the wanted refresh: an exact
/// match when the device has one, and otherwise no mode of that size on
/// the device comes strictly closer to the wanted refresh.
pub proof fn lemma_find_mode_picks_nearest(devs: Seq<(u32, KdeDevice)>, modes: Seq<(u32, KdeModeEntry)>,
    name: Seq<char>, want: ModeInfo)
    ensures
        find_mode_spec(devs, modes, name, want) matches Some(id) ==> exists|di: int, k: int| {
            &&& 0 <= di < devs.len()
            &&& (devs[di].1.name matches Some(n) && n@ == name)
            &&& forall|e: int| 0 <= e < di ==> !(#[trigger] devs[e].1.name matches Some(n) && n@ == name)
            &&& #[trigger] nearest_mode(modes, devs[di].0, want, k)
            &&& modes[k].0 == id
            &&& modes[k].1.bound
            &&& (exists|j: int| 0 <= j < modes.len() && (#[trigger] modes[j]).1.parent == devs[di].0
                    && modes[j].1.info == want)
                ==> modes[k].1.info.refresh_mhz == want.refresh_mhz
        },
{
    lemma_first_named(devs, name, 0);
    match device_named_from(devs, name, 0) {
        None => {},
        Some(di) => {
            let dev = devs[di].0;
            lemma_exact_found(modes, dev, want, 0);
            lemma_closest_is_nearest(modes, dev, want, 0, None);
            let pick = match exact_kde_mode_from(modes, dev, want, 0) {
                Some(k) => Some(k),
                None => closest_kde_mode_from(modes, dev, want, 0, None),
            };
            match pick {
                Some(k) => {
                    if modes[k].1.bound {
                        assert forall|j: int| 0 <= j < modes.len() && (#[trigger] modes[j]).1.parent == dev
                            && modes[j].1.info.width == want.width && modes[j].1.info.height == want.height
                            implies refresh_gap(modes[k].1.info.refresh_mhz, want.refresh_mhz)
                                <= refresh_gap(modes[j].1.info.refresh_mhz, want.refresh_mhz) by {
                            assert(kde_mode_matches(modes[j].1, dev, want));
                        }
                        if exists|j: int| 0 <= j < modes.len() && (#[trigger] modes[j]).1.parent == dev
                            && modes[j].1.info == want {
                            let j = choose|j: int| 0 <= j < modes.len() && (#[trigger] modes[j]).1.parent == dev
                                && modes[j].1.info == want;
                            assert(kde_mode_matches(modes[j].1, dev, want));
                        }
                        assert(nearest_mode(modes, dev, want, k));
                    }
                },
                None => {},
            }
        },
    }
}

impl KdeState {
    fn head(&self, d: &KdeDevice) -> (h: HeadState)
        ensures
            h@ == head_of(*d, self.spec_modes()),
    {
        let mode = match d.current_mode {
            Some(id) => match get_mode(&self.modes, id) {
                Some(e) => Some(e.info),
                None => None,
            },
            None => None,
        };
        let name = match &d.name {
            Some(n) => n.clone(),
            None => String::new(),
        };
        HeadState {
            name,
            enabled: d.enabled,
            mode,
            position: d.position,
            scale_bits: d.scale_bits,
            transform: d.transform,
        }
    }

    /// Every device that has finished its initial event burst, as a head.
    pub fn live_heads(&self) -> (r: Vec<HeadState>)
        ensures
            head_views(r@) == live_heads_of(self.spec_devices(), self.spec_modes()),
    {
        let n = device_count(&self.devices);
        let ghost es = self.spec_devices();
        let mut r: Vec<HeadState> = Vec::new();
        let mut i: usize = 0;
        while i < n
            invariant
                n == es.len(),
                es == self.spec_devices(),
                i <= n,
                head_views(r@) == live_heads_of(es.take(i as int), self.spec_modes()),
            decreases n - i,
        {
            proof {
                assert(es.take(i as int + 1).drop_last() =~= es.take(i as int));
                assert(es.take(i as int + 1).last() == es[i as int]);
            }
            match device_at(&self.devices, i) {
                Some((_, d)) => {
                    if d.name.is_some() && d.done_seen {
                        let ghost before = head_views(r@);
                        let h = self.head(d);
                        r.push(h);
                        assert(head_views(r@) =~= before.push(head_of(es[i as int].1, self.spec_modes())));
                    }
                },
                None => {},
            }
            i = i + 1;
        }
        assert(es.take(i as int) =~= es);
        r
    }

    /// The protocol id of the device named `name`, if it is bound.
    pub fn device_by_name(&self, name: &str) -> (r: Option<u32>)
        ensures
            r == bound_device_id(self.spec_devices(), name@),
    {
        let n = device_count(&self.devices);
        let ghost es = self.spec_devices();
        let key = owned(name);
        let mut i: usize = 0;
        while i < n
            invariant
                n == es.len(),
                es == self.spec_devices(),
                key@ == name@,
                i <= n,
                device_named_from(es, name@, 0) == device_named_from(es, name@, i as int),
            decreases n - i,
        {
            match device_at(&self.devices, i) {
                Some((k, d)) => {
                    let hit = match &d.name {
                        Some(x) => *x == key,
                        None => false,
                    };
                    if hit {
                        return if d.bound { Some(*k) } else { None };
                    }
                },
                None => {},
            }
            i = i + 1;
        }
        None
    }

    /// The bound mode of the device named `device_name` that best matches
    /// `want`: the exact match, else the same size at the closest refresh.
    pub fn find_mode(&self, device_name: &str, want: ModeInfo) -> (r: Option<u32>)
        ensures
            r == find_mode_spec(self.spec_devices(), self.spec_modes(), device_name@, want),
    {
        let n = device_count(&self.devices);
        let ghost es = self.spec_devices();
        let key = owned(device_name);
        let mut i: usize = 0;
        let mut dev: Option<u32> = None;
        while i < n
            invariant_except_break
                dev is None,
            invariant
                n == es.len(),
                es == self.spec_devices(),
                key@ == device_name@,
                i <= n,
                device_named_from(es, device_name@, 0) == device_named_from(es, device_name@, i as int),
            ensures
                match dev {
                    Some(d) => device_named_from(es, device_name@, 0) matches Some(di) && es[di].0 == d,
                    None => device_named_from(es, device_name@, 0) is None,
                },
            decreases n - i,
        {
            match device_at(&self.devices, i) {
                Some((k, d)) => {
                    let hit = match &d.name {
                        Some(x) => *x == key,
                        None => false,
                    };
                    if hit {
                        dev = Some(*k);
                        break;
                    }
                },
                None => {},
            }
            i = i + 1;
        }
        let dev = match dev {
            Some(d) => d,
            None => { return None; },
        };
        let m = mode_count(&self.modes);
        let ghost ms = self.spec_modes();
        let mut j: usize = 0;
        while j < m
            invariant
                m == ms.len(),
                ms == self.spec_modes(),
                es == self.spec_devices(),
                device_named_from(es, device_name@, 0) matches Some(di) && es[di].0 == dev,
                j <= m,
                exact_kde_mode_from(ms, dev, want, 0) == exact_kde_mode_from(ms, dev, want, j as int),
            decreases m - j,
        {
            match mode_at(&self.modes, j) {
                Some((k, e)) => {
                    if e.parent == dev && e.info.width == want.width && e.info.height == want.height
                        && e.info.refresh_mhz == want.refresh_mhz {
                        return if e.bound { Some(*k) } else { None };
                    }
                },
                None => {},
            }
            j = j + 1;
        }
        let mut best: Option<usize> = None;
        let mut best_dist: i64 = 0;
        let mut j: usize = 0;
        while j < m
            invariant
                m == ms.len(),
                ms == self.spec_modes(),
                es == self.spec_devices(),
                device_named_from(es, device_name@, 0) matches Some(di) && es[di].0 == dev,
                exact_kde_mode_from(ms, dev, want, 0) is None,
                j <= m,
                best matches Some(b) ==> b < j && best_dist == kde_distance(ms[b as int].1, want),
                closest_kde_mode_from(ms, dev, want, 0, None) == closest_kde_mode_from(ms, dev, want, j as int,
                    match best { Some(b) => Some(b as int), None => None }),
            decreases m - j,
        {
            match mode_at(&self.modes, j) {
                Some((_, e)) => {
                    if e.parent == dev && e.info.width == want.width && e.info.height == want.height {
                        let d = (e.info.refresh_mhz as i64) - (want.refresh_mhz as i64);
                        let d = if d < 0 { -d } else { d };
                        match best {
                            Some(_) => {
                                if d < best_dist {
                                    best = Some(j);
                                    best_dist = d;
                                }
                            },
                            None => {
                                best = Some(j);
                                best_dist = d;
                            },
                        }
                    }
                },
                None => {},
            }
            j = j + 1;
        }
        match best {
            Some(b) => match mode_at(&self.modes, b) {
                Some((k, e)) => if e.bound { Some(*k) } else { None },
                None => None,
            },
            None => None,
        }
    }
}

// ---------------------------------------------------------------------------
// Applying a plan
// ---------------------------------------------------------------------------

/// What a single head should look like after the plan is applied.
#[derive(Clone, Copy, Debug)]
pub struct Target {
    pub enabled: bool,
    pub mode: Option<ModeInfo>,
    pub position: Option<(i32, i32)>,
}

/// The plan's first enable request for `name`, if any.
pub open spec fn enable_entry_from(es: Seq<EnableModel>, name: Seq<char>, i: int) -> Option<EnableModel>
    decreases es.len() - i,
{
    if i < 0 || i >= es.len() {
        None
    } else if es[i].name == name {
        Some(es[i])
    } else {
        enable_entry_from(es, name, i + 1)
    }
}

/// Disabling wins outright; otherwise an explicit enable turns the head
/// on and heads the plan does not mention keep their state. The plan's
/// mode and position override the head's; absent ones fall back to it.
pub open spec fn target_for(h: HeadModel, plan: PlanModel) -> Target {
    let entry = enable_entry_from(plan.enables, h.name, 0);
    Target {
        enabled: !plan.disables.contains(h.name) && (entry is Some || h.enabled),
        mode: match entry {
            Some(e) => if e.mode is Some { e.mode } else { h.mode },
            None => h.mode,
        },
        position: match entry {
            Some(e) => if e.position is Some { e.position } else { h.position },
            None => h.position,
        },
    }
}

/// Disabling wins over a head being on; a head the plan does not mention
/// keeps its state; an explicit enable turns a head on, and its mode and
/// position replace the head's own when given.
pub proof fn lemma_target_rules(h: HeadModel, plan: PlanModel)
    ensures
        plan.disables.contains(h.name) ==> !target_for(h, plan).enabled,
        !plan.disables.contains(h.name) && enable_entry_from(plan.enables, h.name, 0) is None
            ==> target_for(h, plan) == (Target { enabled: h.enabled, mode: h.mode, position: h.position }),
        !plan.disables.contains(h.name) ==> (enable_entry_from(plan.enables, h.name, 0) matches Some(e)
            ==> target_for(h, plan).enabled
                && (e.mode is Some ==> target_for(h, plan).mode == e.mode)
                && (e.position is Some ==> target_for(h, plan).position == e.position)),
{
}

impl Target {
    /// The state `head` should end up in under `plan`.
    pub fn for_head(head: &HeadState, plan: &OutputPlan) -> (t: Target)
        ensures
            t == target_for(head@, plan@),
    {
        let es = plan.enables();
        let mut entry: Option<usize> = None;
        let mut i: usize = 0;
        while i < es.len()
            invariant_except_break
                entry is None,
            invariant
                i <= es@.len(),
                enable_views(es@) == plan@.enables,
                enable_entry_from(plan@.enables, head@.name, 0) == enable_entry_from(plan@.enables, head@.name, i as int),
            ensures
                match entry {
                    Some(k) => k < es@.len() && enable_entry_from(plan@.enables, head@.name, 0) == Some(es@[k as int]@),
                    None => enable_entry_from(plan@.enables, head@.name, 0) is None,
                },
            decreases es@.len() - i,
        {
            if es[i].name == head.name {
                entry = Some(i);
                break;
            }
            i = i + 1;
        }
        let disabled = contains_name(plan.disables(), &head.name);
        match entry {
            Some(k) => {
                let e = &es[k];
                Target {
                    enabled: !disabled,
                    mode: if e.mode.is_some() { e.mode } else { head.mode },
                    position: if e.position.is_some() { e.position } else { head.position },
                }
            },
            None => Target { enabled: !disabled && head.enabled, mode: head.mode, position: head.position },
        }
    }
}

/// A request on a KWin output configuration.
pub enum KdeRequest {
    Enable { device: u32, enabled: bool },
    Mode { device: u32, mode: u32 },
    Position { device: u32, x: i32, y: i32 },
    Priority { device: u32, priority: u32 },
}

/// How many heads of `s` are not the primary.
pub open spec fn count_nonprimary(s: Seq<HeadModel>, primary: Option<Seq<char>>) -> int
    decreases s.len(),
{
    if s.len() == 0 {
        0
    } else {
        count_nonprimary(s.drop_last(), primary) + if primary == Some(s.last().name) { 0int } else { 1int }
    }
}

/// KWin priorities are 1-based: the primary head gets 1 and the others
/// follow in order from 2 (from 1 without a primary).
pub open spec fn raw_priority(live: Seq<HeadModel>, primary: Option<Seq<char>>, i: int) -> int {
    if primary == Some(live[i].name) {
        1
    } else {
        (if primary is Some { 2int } else { 1int }) + count_nonprimary(live.take(i), primary)
    }
}

proof fn lemma_count_nonprimary(s: Seq<HeadModel>, primary: Option<Seq<char>>, i: int, j: int)
    requires
        0 <= i <= j <= s.len(),
    ensures
        primary is None ==> count_nonprimary(s.take(i), primary) == i,
        count_nonprimary(s.take(i), primary) <= count_nonprimary(s.take(j), primary),
        i < j && primary != Some(s[i].name)
            ==> count_nonprimary(s.take(i), primary) < count_nonprimary(s.take(j), primary),
    decreases j,
{
    if j > i {
        lemma_count_nonprimary(s, primary, i, j - 1);
        assert(s.take(j).drop_last() =~= s.take(j - 1));
        assert(s.take(j).last() == s[j - 1]);
        if i == j - 1 {
        }
    } else {
        if i > 0 {
            lemma_count_nonprimary(s, primary, i - 1, i - 1);
            assert(s.take(i).drop_last() =~= s.take(i - 1));
        } else {
            assert(s.take(0) =~= Seq::<HeadModel>::empty());
        }
    }
}

proof fn lemma_last_named_distinct(live: Seq<HeadModel>, i: int)
    requires
        0 <= i < live.len(),
        forall|a: int, b: int| 0 <= a < b < live.len() ==> (#[trigger] live[a]).name != (#[trigger] live[b]).name,
    ensures
        last_named(live, live[i].name) == i,
    decreases live.len(),
{
    if i < live.len() - 1 {
        let p = live.drop_last();
        assert(live.last() == live[live.len() - 1]);
        assert(p[i] == live[i]);
        assert forall|a: int, b: int| 0 <= a < b < p.len() implies (#[trigger] p[a]).name != (#[trigger] p[b]).name by {
            assert(p[a] == live[a] && p[b] == live[b]);
        }
        lemma_last_named_distinct(p, i);
    }
}

/// KWin's priorities keep the live order: without a primary in the plan
/// the heads get 1, 2, 3, ... in live order; with one, that head gets 1
/// and every other head a priority from 2 up, a head earlier in the live
/// list getting a strictly smaller one. When the live heads have distinct
/// names, the priority each head's request carries is exactly this one.
pub proof fn lemma_priorities_keep_live_order(live: Seq<HeadModel>, primary: Option<Seq<char>>)
    ensures
        primary is None ==> forall|i: int| 0 <= i < live.len() ==> #[trigger] raw_priority(live, primary, i) == i + 1,
        forall|i: int| 0 <= i < live.len() && primary == Some(live[i].name)
            ==> #[trigger] raw_priority(live, primary, i) == 1,
        forall|i: int| 0 <= i < live.len() && primary is Some && primary != Some(live[i].name)
            ==> #[trigger] raw_priority(live, primary, i) >= 2,
        forall|i: int, j: int| 0 <= i < j < live.len() && primary != Some(live[i].name) && primary != Some(live[j].name)
            ==> #[trigger] raw_priority(live, primary, i) < #[trigger] raw_priority(live, primary, j),
        (forall|a: int, b: int| 0 <= a < b < live.len() ==> (#[trigger] live[a]).name != (#[trigger] live[b]).name)
            ==> forall|i: int| 0 <= i < live.len() ==> #[trigger] priority_of(live, primary, i) == raw_priority(live, primary, i),
{
    if forall|a: int, b: int| 0 <= a < b < live.len() ==> (#[trigger] live[a]).name != (#[trigger] live[b]).name {
        assert forall|i: int| 0 <= i < live.len() implies #[trigger] priority_of(live, primary, i) == raw_priority(live, primary, i) by {
            lemma_last_named_distinct(live, i);
        }
    }
    assert forall|i: int| 0 <= i < live.len() && primary is None implies #[trigger] raw_priority(live, primary, i) == i + 1 by {
        lemma_count_nonprimary(live, primary, i, i);
    }
    assert forall|i: int| 0 <= i < live.len() && primary is Some && primary != Some(live[i].name)
        implies #[trigger] raw_priority(live, primary, i) >= 2 by {
        lemma_count_nonprimary(live, primary, 0, i);
        assert(live.take(0) =~= Seq::<HeadModel>::empty());
    }
    assert forall|i: int, j: int| 0 <= i < j < live.len() && primary != Some(live[i].name) && primary != Some(live[j].name)
        implies #[trigger] raw_priority(live, primary, i) < #[trigger] raw_priority(live, primary, j) by {
        lemma_count_nonprimary(live, primary, i, j);
    }
}

/// Position of the last head named `name`.
pub open spec fn last_named(live: Seq<HeadModel>, name: Seq<char>) -> int
    decreases live.len(),
{
    if live.len() == 0 {
        -1
    } else if live.last().name == name {
        live.len() - 1
    } else {
        last_named(live.drop_last(), name)
    }
}

/// The priority of head `i`; heads that share a name share the priority
/// assigned to the last of them.
pub open spec fn priority_of(live: Seq<HeadModel>, primary: Option<Seq<char>>, i: int) -> int {
    raw_priority(live, primary, last_named(live, live[i].name))
}

/// Abstract value of a [`KdeRequest`].
pub enum RequestModel {
    Enable(u32, bool),
    Mode(u32, u32),
    Position(u32, i32, i32),
    Priority(u32, int),
}

impl View for KdeRequest {
    type V = RequestModel;

    open spec fn view(&self) -> RequestModel {
        match self {
            KdeRequest::Enable { device, enabled } => RequestModel::Enable(*device, *enabled),
            KdeRequest::Mode { device, mode } => RequestModel::Mode(*device, *mode),
            KdeRequest::Position { device, x, y } => RequestModel::Position(*device, *x, *y),
            KdeRequest::Priority { device, priority } => RequestModel::Priority(*device, *priority as int),
        }
    }
}

pub open spec fn request_views(v: Seq<KdeRequest>) -> Seq<RequestModel> {
    v.map_values(|r: KdeRequest| r@)
}

/// The requests for head `i`: nothing for a head without a bound device;
/// otherwise only what changes (enabled state, mode when a matching bound
/// mode exists, position), then its priority, which KWin forgets unless
/// it is sent on every apply.
pub open spec fn head_requests(devs: Seq<(u32, KdeDevice)>, modes: Seq<(u32, KdeModeEntry)>, live: Seq<HeadModel>,
    plan: PlanModel, i: int) -> Seq<RequestModel> {
    let h = live[i];
    let primary = if plan.primaries.len() > 0 { Some(plan.primaries[0]) } else { None };
    match bound_device_id(devs, h.name) {
        None => Seq::empty(),
        Some(dev) => {
            let t = target_for(h, plan);
            (if t.enabled != h.enabled { seq![RequestModel::Enable(dev, t.enabled)] } else { Seq::empty() })
            + (if t.enabled && t.mode is Some && t.mode != h.mode
                && find_mode_spec(devs, modes, h.name, t.mode->0) is Some {
                seq![RequestModel::Mode(dev, find_mode_spec(devs, modes, h.name, t.mode->0)->0)]
            } else { Seq::empty() })
            + (if t.enabled && t.position is Some && t.position != h.position {
                seq![RequestModel::Position(dev, (t.position->0).0, (t.position->0).1)]
            } else { Seq::empty() })
            + seq![RequestModel::Priority(dev, priority_of(live, primary, i))]
        },
    }
}

proof fn lemma_entry_is_named(es: Seq<EnableModel>, name: Seq<char>, i: int, j: int)
    requires
        0 <= i <= j < es.len(),
        es[j].name == name,
        enable_names(es).no_duplicates(),
    ensures
        enable_entry_from(es, name, i) == Some(es[j]),
    decreases j - i,
{
    if i < j {
        assert(enable_names(es)[i] == es[i].name && enable_names(es)[j] == es[j].name);
        lemma_entry_is_named(es, name, i + 1, j);
    }
}

proof fn lemma_entry_absent(es: Seq<EnableModel>, name: Seq<char>, i: int)
    requires
        0 <= i <= es.len(),
        !enable_names(es).contains(name),
    ensures
        enable_entry_from(es, name, i) is None,
    decreases es.len() - i,
{
    if i < es.len() {
        assert(enable_names(es)[i] == es[i].name);
        lemma_entry_absent(es, name, i + 1);
    }
}

/// What KWin is asked for one live head: nothing when no bound device
/// shows it; otherwise requests on that device only, ending with its
/// priority and holding no other priority. A head the plan disables is
/// turned off if it was on and gets nothing else; a head the plan does not
/// mention gets only its priority; a head the plan enables is turned on if
/// it was off and is never turned off, moved to the requested position
/// when that differs from its own, and not moved without one.
pub proof fn lemma_head_requests_rules(devs: Seq<(u32, KdeDevice)>, modes: Seq<(u32, KdeModeEntry)>,
    live: Seq<HeadModel>, plan: PlanModel, i: int)
    requires
        0 <= i < live.len(),
        plan_wf(plan),
    ensures
        ({
            let h = live[i];
            let rs = head_requests(devs, modes, live, plan, i);
            let primary = if plan.primaries.len() > 0 { Some(plan.primaries[0]) } else { None };
            let pr = priority_of(live, primary, i);
            &&& bound_device_id(devs, h.name) is None ==> rs.len() == 0
            &&& bound_device_id(devs, h.name) matches Some(dev) ==> {
                &&& rs.len() > 0 && rs.last() == RequestModel::Priority(dev, pr)
                &&& forall|k: int| 0 <= k < rs.len() - 1 ==> !(#[trigger] rs[k] is Priority)
                &&& forall|k: int| 0 <= k < rs.len() ==> match #[trigger] rs[k] {
                    RequestModel::Enable(d, _) => d == dev,
                    RequestModel::Mode(d, _) => d == dev,
                    RequestModel::Position(d, _, _) => d == dev,
                    RequestModel::Priority(d, _) => d == dev,
                }
                &&& plan.disables.contains(h.name) ==> rs == (if h.enabled {
                        seq![RequestModel::Enable(dev, false), RequestModel::Priority(dev, pr)]
                    } else {
                        seq![RequestModel::Priority(dev, pr)]
                    })
                &&& !plan.disables.contains(h.name) && !enable_names(plan.enables).contains(h.name)
                    ==> rs == seq![RequestModel::Priority(dev, pr)]
                &&& forall|j: int| 0 <= j < plan.enables.len() && (#[trigger] plan.enables[j]).name == h.name ==> {
                    &&& !rs.contains(RequestModel::Enable(dev, false))
                    &&& (!h.enabled <==> rs.contains(RequestModel::Enable(dev, true)))
                    &&& (plan.enables[j].position matches Some(p)
                        ==> (Some(p) != h.position ==> rs.contains(RequestModel::Position(dev, p.0, p.1))))
                    &&& (plan.enables[j].position is None && h.position is None
                        ==> forall|k: int| 0 <= k < rs.len() ==> !(#[trigger] rs[k] is Position))
                }
            }
        }),
{
    let h = live[i];
    let rs = head_requests(devs, modes, live, plan, i);
    let primary = if plan.primaries.len() > 0 { Some(plan.primaries[0]) } else { None };
    let pr = priority_of(live, primary, i);
    match bound_device_id(devs, h.name) {
        None => {},
        Some(dev) => {
            let t = target_for(h, plan);
            let a = if t.enabled != h.enabled { seq![RequestModel::Enable(dev, t.enabled)] } else { Seq::empty() };
            let b = if t.enabled && t.mode is Some && t.mode != h.mode
                && find_mode_spec(devs, modes, h.name, t.mode->0) is Some {
                seq![RequestModel::Mode(dev, find_mode_spec(devs, modes, h.name, t.mode->0)->0)]
            } else { Seq::empty() };
            let c = if t.enabled && t.position is Some && t.position != h.position {
                seq![RequestModel::Position(dev, (t.position->0).0, (t.position->0).1)]
            } else { Seq::empty() };
            assert(rs == a + b + c + seq![RequestModel::Priority(dev, pr)]);
            assert(rs.last() == RequestModel::Priority(dev, pr));
            assert forall|k: int| 0 <= k < rs.len() - 1 implies !(#[trigger] rs[k] is Priority) by {
                if k < a.len() { assert(rs[k] == a[k]); }
                else if k < a.len() + b.len() { assert(rs[k] == b[k - a.len()]); }
                else { assert(rs[k] == c[k - a.len() - b.len()]); }
            }
            assert forall|k: int| 0 <= k < rs.len() implies match #[trigger] rs[k] {
                RequestModel::Enable(d, _) => d == dev,
                RequestModel::Mode(d, _) => d == dev,
                RequestModel::Position(d, _, _) => d == dev,
                RequestModel::Priority(d, _) => d == dev,
            } by {
                if k < a.len() { assert(rs[k] == a[k]); }
                else if k < a.len() + b.len() { assert(rs[k] == b[k - a.len()]); }
                else if k < a.len() + b.len() + c.len() { assert(rs[k] == c[k - a.len() - b.len()]); }
            }
            if plan.disables.contains(h.name) {
                assert(!t.enabled);
                assert(rs =~= (if h.enabled {
                    seq![RequestModel::Enable(dev, false), RequestModel::Priority(dev, pr)]
                } else {
                    seq![RequestModel::Priority(dev, pr)]
                }));
            }
            if !plan.disables.contains(h.name) && !enable_names(plan.enables).contains(h.name) {
                lemma_entry_absent(plan.enables, h.name, 0);
                assert(t == (Target { enabled: h.enabled, mode: h.mode, position: h.position }));
                assert(rs =~= seq![RequestModel::Priority(dev, pr)]);
            }
            assert forall|j: int| 0 <= j < plan.enables.len() && (#[trigger] plan.enables[j]).name == h.name implies {
                &&& !rs.contains(RequestModel::Enable(dev, false))
                &&& (!h.enabled <==> rs.contains(RequestModel::Enable(dev, true)))
                &&& (plan.enables[j].position matches Some(p)
                    ==> (Some(p) != h.position ==> rs.contains(RequestModel::Position(dev, p.0, p.1))))
                &&& (plan.enables[j].position is None && h.position is None
                    ==> forall|k: int| 0 <= k < rs.len() ==> !(#[trigger] rs[k] is Position))
            } by {
                lemma_entry_is_named(plan.enables, h.name, 0, j);
                assert(enable_names(plan.enables)[j] == h.name);
                if plan.disables.contains(h.name) {
                    let d = choose|d: int| 0 <= d < plan.disables.len() && plan.disables[d] == h.name;
                    assert(!enable_names(plan.enables).contains(plan.disables[d]));
                }
                assert(t.enabled);
                assert forall|k: int| 0 <= k < rs.len() implies #[trigger] rs[k] != RequestModel::Enable(dev, false) by {
                    if k < a.len() { assert(rs[k] == a[k]); }
                    else if k < a.len() + b.len() { assert(rs[k] == b[k - a.len()]); }
                    else if k < a.len() + b.len() + c.len() { assert(rs[k] == c[k - a.len() - b.len()]); }
                }
                if !h.enabled {
                    assert(rs[0] == RequestModel::Enable(dev, true));
                } else {
                    assert forall|k: int| 0 <= k < rs.len() implies #[trigger] rs[k] != RequestModel::Enable(dev, true) by {
                        if k < a.len() { assert(rs[k] == a[k]); }
                        else if k < a.len() + b.len() { assert(rs[k] == b[k - a.len()]); }
                        else if k < a.len() + b.len() + c.len() { assert(rs[k] == c[k - a.len() - b.len()]); }
                    }
                }
                match plan.enables[j].position {
                    Some(p) => {
                        if Some(p) != h.position {
                            assert(rs[(a.len() + b.len()) as int] == RequestModel::Position(dev, p.0, p.1));
                        }
                    },
                    None => {
                        if h.position is None {
                            assert(c.len() == 0);
                            assert forall|k: int| 0 <= k < rs.len() implies !(#[trigger] rs[k] is Position) by {
                                if k < a.len() { assert(rs[k] == a[k]); }
                                else if k < a.len() + b.len() { assert(rs[k] == b[k - a.len()]); }
                            }
                        }
                    },
                }
            }
        },
    }
}

/// The requests for the first `n` live heads, in order.
pub open spec fn apply_requests_spec(devs: Seq<(u32, KdeDevice)>, modes: Seq<(u32, KdeModeEntry)>, live: Seq<HeadModel>,
    plan: PlanModel, n: int) -> Seq<RequestModel>
    decreases n,
{
    if n <= 0 {
        Seq::empty()
    } else {
        apply_requests_spec(devs, modes, live, plan, n - 1) + head_requests(devs, modes, live, plan, n - 1)
    }
}

fn same_mode(a: Option<ModeInfo>, b: Option<ModeInfo>) -> (r: bool)
    ensures
        r == (a == b),
{
    match (a, b) {
        (Some(x), Some(y)) => x.width == y.width && x.height == y.height && x.refresh_mhz == y.refresh_mhz,
        (None, None) => true,
        _ => false,
    }
}

fn same_position(a: Option<(i32, i32)>, b: Option<(i32, i32)>) -> (r: bool)
    ensures
        r == (a == b),
{
    match (a, b) {
        (Some(x), Some(y)) => x.0 == y.0 && x.1 == y.1,
        (None, None) => true,
        _ => false,
    }
}

fn last_named_exec(live: &Vec<HeadState>, name: &String) -> (r: usize)
    requires
        exists|k: int| 0 <= k < live@.len() && #[trigger] head_views(live@)[k].name == name@,
    ensures
        r < live@.len(),
        r as int == last_named(head_views(live@), name@),
{
    let ghost lv = head_views(live@);
    let mut j: usize = live.len();
    assert(lv.take(j as int) =~= lv);
    while j > 0
        invariant
            j <= live@.len(),
            lv == head_views(live@),
            exists|k: int| 0 <= k < lv.len() && #[trigger] lv[k].name == name@,
            last_named(lv, name@) == last_named(lv.take(j as int), name@),
            forall|k: int| j <= k < lv.len() ==> lv[k].name != name@,
        decreases j,
    {
        proof {
            assert(lv.take(j as int).drop_last() =~= lv.take(j as int - 1));
            assert(lv.take(j as int).last() == lv[j as int - 1]);
        }
        if live[j - 1].name == *name {
            return j - 1;
        }
        j = j - 1;
    }
    proof {
        let w = choose|w: int| 0 <= w < lv.len() && #[trigger] lv[w].name == name@;
        assert(lv[w].name != name@);
    }
    0
}

fn raw_priorities(live: &Vec<HeadState>, primary: Option<&str>) -> (r: Vec<u32>)
    requires
        live@.len() + 2 <= u32::MAX,
    ensures
        r@.len() == live@.len(),
        forall|i: int| 0 <= i < live@.len() ==> r@[i] == raw_priority(head_views(live@),
            match primary { Some(p) => Some(p@), None => None }, i),
{
    let ghost pm = match primary { Some(p) => Some(p@), None => None::<Seq<char>> };
    let ghost lv = head_views(live@);
    let key: Option<String> = match primary { Some(p) => Some(owned(p)), None => None };
    let mut next: u32 = if primary.is_some() { 2 } else { 1 };
    let mut r: Vec<u32> = Vec::new();
    let mut i: usize = 0;
    while i < live.len()
        invariant
            i <= live@.len(),
            live@.len() + 2 <= u32::MAX,
            lv == head_views(live@),
            match key { Some(k) => pm == Some(k@), None => pm is None },
            next == (if pm is Some { 2int } else { 1int }) + count_nonprimary(lv.take(i as int), pm),
            count_nonprimary(lv.take(i as int), pm) <= i,
            r@.len() == i,
            forall|j: int| 0 <= j < i ==> r@[j] == raw_priority(lv, pm, j),
        decreases live@.len() - i,
    {
        proof {
            assert(lv.take(i as int + 1).drop_last() =~= lv.take(i as int));
            assert(lv.take(i as int + 1).last() == lv[i as int]);
            assert(lv.take(i as int) =~= lv.take(i as int));
        }
        let is_primary = match &key { Some(k) => live[i].name == *k, None => false };
        if is_primary {
            r.push(1);
        } else {
            r.push(next);
            next = next + 1;
        }
        i = i + 1;
    }
    r
}

impl KdeState {
    /// The configuration requests that bring the `live` heads to `plan`.
    /// An empty list means there is nothing to commit.
    pub fn apply_requests(&self, live: &Vec<HeadState>, plan: &OutputPlan) -> (r: Vec<KdeRequest>)
        requires
            live@.len() + 2 <= u32::MAX,
        ensures
            request_views(r@) == apply_requests_spec(self.spec_devices(), self.spec_modes(), head_views(live@), plan@,
                live@.len() as int),
    {
        let primary = plan.primary();
        let ghost lv = head_views(live@);
        let ghost pm = if plan@.primaries.len() > 0 { Some(plan@.primaries[0]) } else { None };
        assert(pm == match primary { Some(p) => Some(p@), None => None::<Seq<char>> });
        let prios = raw_priorities(live, primary);
        let mut r: Vec<KdeRequest> = Vec::new();
        let mut i: usize = 0;
        while i < live.len()
            invariant
                i <= live@.len(),
                lv == head_views(live@),
                prios@.len() == live@.len(),
                forall|j: int| 0 <= j < live@.len() ==> prios@[j] == raw_priority(lv, pm, j),
                pm == (if plan@.primaries.len() > 0 { Some(plan@.primaries[0]) } else { None }),
                request_views(r@) == apply_requests_spec(self.spec_devices(), self.spec_modes(), lv, plan@, i as int),
            decreases live@.len() - i,
        {
            let head = &live[i];
            let ghost before = request_views(r@);
            match self.device_by_name(head.name.as_str()) {
                None => {},
                Some(dev) => {
                    let t = Target::for_head(head, plan);
                    if t.enabled != head.enabled {
                        r.push(KdeRequest::Enable { device: dev, enabled: t.enabled });
                    }
                    let ghost after_enable = request_views(r@);
                    if t.enabled {
                        match t.mode {
                            Some(m) => {
                                if !same_mode(t.mode, head.mode) {
                                    match self.find_mode(head.name.as_str(), m) {
                                        Some(mp) => { r.push(KdeRequest::Mode { device: dev, mode: mp }); },
                                        None => {},
                                    }
                                }
                            },
                            None => {},
                        }
                    }
                    let ghost after_mode = request_views(r@);
                    if t.enabled {
                        match t.position {
                            Some(p) => {
                                if !same_position(t.position, head.position) {
                                    r.push(KdeRequest::Position { device: dev, x: p.0, y: p.1 });
                                }
                            },
                            None => {},
                        }
                    }
                    let ghost after_pos = request_views(r@);
                    // Heads sharing a name share the priority of the last one.
                    let last = last_named_exec(live, &head.name);
                    proof {
                        assert(lv[i as int].name == head.name@);
                    }
                    r.push(KdeRequest::Priority { device: dev, priority: prios[last] });
                },
            }
            assert(request_views(r@) =~= before + head_requests(self.spec_devices(), self.spec_modes(), lv, plan@, i as int));
            i = i + 1;
        }
        r
    }
}

} // verus!
