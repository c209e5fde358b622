//! Turning an output plan into Mutter's `ApplyMonitorsConfig` layout.
//!
//! Mutter's current state is held here as plain values: refresh rates in
//! millihertz as the compositor reports them rounded, and scales as the
//! bit patterns of Mutter's `f64` values, carried through unchanged.

use vstd::prelude::*;
use crate::compositor::{EnableModel, EnableOutput, HeadModel, HeadState, ModeInfo, OutputPlan, OutputSnapshot,
    PlanModel, Transform, contains_name, enable_names, enable_views, head_views, plan_wf, string_views,
    transform_from_wire};
use crate::text::owned;

verus! {

/// Bit pattern of the `f64` scale `1.0`.
pub const UNIT_SCALE_BITS: u64 = 0x3FF0_0000_0000_0000;

/// A mode a monitor supports.
pub struct MutterMode {
    pub id: String,
    pub width: i32,
    pub height: i32,
    /// Refresh rate in millihertz.
    pub refresh_mhz: i32,
    pub is_current: bool,
    pub is_preferred: bool,
}

/// A physical monitor and its modes.
pub struct MutterMonitor {
    pub connector: String,
    pub modes: Vec<MutterMode>,
}

/// A region of the layout shown by one or more monitors.
pub struct MutterLogicalMonitor {
    pub x: i32,
    pub y: i32,
    pub scale_bits: u64,
    pub transform: u32,
    pub primary: bool,
    pub connectors: Vec<String>,
}

/// What `GetCurrentState` reports.
pub struct MutterState {
    pub serial: u32,
    pub monitors: Vec<MutterMonitor>,
    pub logical_monitors: Vec<MutterLogicalMonitor>,
}

/// One monitor of a requested logical monitor: a connector and the id of
/// the mode to drive it at.
pub struct MonitorConfig {
    pub connector: String,
    pub mode_id: String,
}

/// One logical monitor of the requested layout.
pub struct LogicalMonitorConfig {
    /// Exact layout coordinates; a layout that Mutter's 32-bit coordinates
    /// cannot hold shows up here as values outside `i32`.
    pub x: i128,
    pub y: i128,
    pub scale_bits: u64,
    pub transform: u32,
    pub primary: bool,
    pub monitors: Vec<MonitorConfig>,
}

/// Abstract value of a [`LogicalMonitorConfig`]; each monitor is a
/// connector and a mode id.
pub struct LmcModel {
    pub x: int,
    pub y: int,
    pub scale_bits: u64,
    pub transform: u32,
    pub primary: bool,
    pub monitors: Seq<(Seq<char>, Seq<char>)>,
}

impl View for LogicalMonitorConfig {
    type V = LmcModel;

    open spec fn view(&self) -> LmcModel {
        LmcModel {
            x: self.x as int,
            y: self.y as int,
            scale_bits: self.scale_bits,
            transform: self.transform,
            primary: self.primary,
            monitors: self.monitors@.map_values(|m: MonitorConfig| (m.connector@, m.mode_id@)),
        }
    }
}

pub open spec fn lmc_views(v: Seq<LogicalMonitorConfig>) -> Seq<LmcModel> {
    v.map_values(|c: LogicalMonitorConfig| c@)
}

// ---------------------------------------------------------------------------
// Lookups
// ---------------------------------------------------------------------------

/// Index of the first monitor on `connector`, from position `i` on.
pub open spec fn monitor_index_from(mons: Seq<MutterMonitor>, connector: Seq<char>, i: int) -> Option<int>
    decreases mons.len() - i,
{
    if i < 0 || i >= mons.len() {
        None
    } else if mons[i].connector@ == connector {
        Some(i)
    } else {
        monitor_index_from(mons, connector, i + 1)
    }
}

/// Index of the first monitor on `connector`.
pub open spec fn monitor_index(mons: Seq<MutterMonitor>, connector: Seq<char>) -> Option<int> {
    monitor_index_from(mons, connector, 0)
}

/// Index of the first mode from position `i` on that satisfies `p`.
pub open spec fn first_mode_from(modes: Seq<MutterMode>, p: spec_fn(MutterMode) -> bool, i: int) -> Option<int>
    decreases modes.len() - i,
{
    if i < 0 || i >= modes.len() {
        None
    } else if p(modes[i]) {
        Some(i)
    } else {
        first_mode_from(modes, p, i + 1)
    }
}

/// Index of the first mode satisfying `p`.
pub open spec fn first_mode(modes: Seq<MutterMode>, p: spec_fn(MutterMode) -> bool) -> Option<int> {
    first_mode_from(modes, p, 0)
}

pub open spec fn is_current_mode() -> spec_fn(MutterMode) -> bool {
    |m: MutterMode| m.is_current
}

pub open spec fn is_preferred_mode() -> spec_fn(MutterMode) -> bool {
    |m: MutterMode| m.is_preferred
}

pub open spec fn exact_mode(want: ModeInfo) -> spec_fn(MutterMode) -> bool {
    |m: MutterMode| m.width == want.width && m.height == want.height && m.refresh_mhz == want.refresh_mhz
}

pub open spec fn mode_with_id(id: Seq<char>) -> spec_fn(MutterMode) -> bool {
    |m: MutterMode| m.id@ == id
}

pub open spec fn refresh_distance(m: MutterMode, want: ModeInfo) -> int {
    let d = m.refresh_mhz - want.refresh_mhz;
    if d < 0 { -d } else { d }
}

/// Scanning from position `i` with the best candidate so far `best`:
/// index of the first mode of the requested size whose refresh is
/// closest to the requested one.
pub open spec fn closest_from(modes: Seq<MutterMode>, want: ModeInfo, i: int, best: Option<int>) -> Option<int>
    decreases modes.len() - i,
{
    if i < 0 || i >= modes.len() {
        best
    } else {
        let m = modes[i];
        let next = if m.width == want.width && m.height == want.height {
            match best {
                Some(b) => if refresh_distance(m, want) < refresh_distance(modes[b], want) { Some(i) } else { Some(b) },
                None => Some(i),
            }
        } else {
            best
        };
        closest_from(modes, want, i + 1, next)
    }
}

/// Index of the first mode of the requested size whose refresh is closest
/// to the requested one.
pub open spec fn closest_mode(modes: Seq<MutterMode>, want: ModeInfo) -> Option<int> {
    closest_from(modes, want, 0, None)
}

/// The mode to drive an enabled monitor at: with a requested mode, the
/// exact match, else the same size at the closest refresh; without one,
/// the preferred mode, else the first.
pub open spec fn pick_mode(modes: Seq<MutterMode>, want: Option<ModeInfo>) -> Option<int> {
    match want {
        Some(info) => match first_mode(modes, exact_mode(info)) {
            Some(i) => Some(i),
            None => closest_mode(modes, info),
        },
        None => match first_mode(modes, is_preferred_mode()) {
            Some(i) => Some(i),
            None => if modes.len() > 0 { Some(0) } else { None },
        },
    }
}

proof fn lemma_first_mode_found(modes: Seq<MutterMode>, p: spec_fn(MutterMode) -> bool, i: int)
    requires
        0 <= i <= modes.len(),
    ensures
        first_mode_from(modes, p, i) matches Some(k) ==> i <= k < modes.len() && p(modes[k])
            && forall|j: int| i <= j < k ==> !p(#[trigger] modes[j]),
        first_mode_from(modes, p, i) is None ==> forall|j: int| i <= j < modes.len() ==> !p(#[trigger] modes[j]),
    decreases modes.len() - i,
{
    if i < modes.len() {
        lemma_first_mode_found(modes, p, i + 1);
    }
}

/// How far a refresh rate is from the wanted one, in millihertz.
pub open spec fn mhz_gap(r: i32, want: i32) -> int {
    if r >= want { r - want } else { want - r }
}

proof fn lemma_closest_mode_nearest(modes: Seq<MutterMode>, want: ModeInfo, i: int, best: Option<int>)
    requires
        0 <= i <= modes.len(),
        best matches Some(b) ==> 0 <= b < i && modes[b].width == want.width && modes[b].height == want.height
            && forall|j: int| 0 <= j < i && (#[trigger] modes[j]).width == want.width && modes[j].height == want.height
                ==> refresh_distance(modes[b], want) <= refresh_distance(modes[j], want),
        best is None ==> forall|j: int| 0 <= j < i
            ==> !((#[trigger] modes[j]).width == want.width && modes[j].height == want.height),
    ensures
        closest_from(modes, want, i, best) matches Some(k) ==> 0 <= k < modes.len()
            && modes[k].width == want.width && modes[k].height == want.height
            && forall|j: int| 0 <= j < modes.len() && (#[trigger] modes[j]).width == want.width && modes[j].height == want.height
                ==> mhz_gap(modes[k].refresh_mhz, want.refresh_mhz) <= mhz_gap(modes[j].refresh_mhz, want.refresh_mhz),
        closest_from(modes, want, i, best) is None ==> forall|j: int| 0 <= j < modes.len()
            ==> !((#[trigger] modes[j]).width == want.width && modes[j].height == want.height),
    decreases modes.len() - i,
{
    if i < modes.len() {
        let m = modes[i];
        let next = if m.width == want.width && m.height == want.height {
            match best {
                Some(b) => if refresh_distance(m, want) < refresh_distance(modes[b], want) { Some(i) } else { Some(b) },
                None => Some(i),
            }
        } else {
            best
        };
        lemma_closest_mode_nearest(modes, want, i + 1, next);
    }
}

/// The mode picked for an enabled monitor: with a requested mode, one of
/// the requested size whose refresh is nearest the requested one (the
/// exact one when the monitor has it), and none only when the monitor has
/// no mode of that size; without one, the first preferred mode, else the
/// first mode, and none only when the monitor has no modes.
pub proof fn lemma_pick_mode_nearest(modes: Seq<MutterMode>, want: Option<ModeInfo>)
    ensures
        want matches Some(info) ==> match pick_mode(modes, want) {
            Some(k) => 0 <= k < modes.len() && modes[k].width == info.width && modes[k].height == info.height
                && (forall|j: int| 0 <= j < modes.len() && (#[trigger] modes[j]).width == info.width
                    && modes[j].height == info.height
                    ==> mhz_gap(modes[k].refresh_mhz, info.refresh_mhz) <= mhz_gap(modes[j].refresh_mhz, info.refresh_mhz))
                && ((exists|j: int| 0 <= j < modes.len() && (#[trigger] modes[j]).width == info.width
                    && modes[j].height == info.height && modes[j].refresh_mhz == info.refresh_mhz)
                    ==> modes[k].refresh_mhz == info.refresh_mhz),
            None => forall|j: int| 0 <= j < modes.len()
                ==> !((#[trigger] modes[j]).width == info.width && modes[j].height == info.height),
        },
        want is None ==> match pick_mode(modes, want) {
            Some(k) => 0 <= k < modes.len() && if modes[k].is_preferred {
                forall|j: int| 0 <= j < k ==> !(#[trigger] modes[j]).is_preferred
            } else {
                k == 0 && forall|j: int| 0 <= j < modes.len() ==> !(#[trigger] modes[j]).is_preferred
            },
            None => modes.len() == 0,
        },
{
    match want {
        Some(info) => {
            lemma_first_mode_found(modes, exact_mode(info), 0);
            lemma_closest_mode_nearest(modes, info, 0, None);
            match first_mode(modes, exact_mode(info)) {
                Some(k) => {
                    assert(exact_mode(info)(modes[k]));
                    assert forall|j: int| 0 <= j < modes.len() && (#[trigger] modes[j]).width == info.width
                        && modes[j].height == info.height
                        implies mhz_gap(modes[k].refresh_mhz, info.refresh_mhz) <= mhz_gap(modes[j].refresh_mhz, info.refresh_mhz) by {}
                },
                None => {
                    if exists|j: int| 0 <= j < modes.len() && (#[trigger] modes[j]).width == info.width
                        && modes[j].height == info.height && modes[j].refresh_mhz == info.refresh_mhz {
                        let j = choose|j: int| 0 <= j < modes.len() && (#[trigger] modes[j]).width == info.width
                            && modes[j].height == info.height && modes[j].refresh_mhz == info.refresh_mhz;
                        assert(exact_mode(info)(modes[j]));
                    }
                },
            }
        },
        None => {
            lemma_first_mode_found(modes, is_preferred_mode(), 0);
            match first_mode(modes, is_preferred_mode()) {
                Some(k) => {
                    assert forall|j: int| 0 <= j < k implies !(#[trigger] modes[j]).is_preferred by {
                        assert(!is_preferred_mode()(modes[j]));
                    }
                },
                None => {
                    assert forall|j: int| 0 <= j < modes.len() implies !(#[trigger] modes[j]).is_preferred by {
                        assert(!is_preferred_mode()(modes[j]));
                    }
                },
            }
        },
    }
}

/// Index of the first logical monitor from position `i` on showing
/// `connector`.
pub open spec fn logical_index_from(lms: Seq<MutterLogicalMonitor>, connector: Seq<char>, i: int) -> Option<int>
    decreases lms.len() - i,
{
    if i < 0 || i >= lms.len() {
        None
    } else if string_views(lms[i].connectors@).contains(connector) {
        Some(i)
    } else {
        logical_index_from(lms, connector, i + 1)
    }
}

/// Index of the first logical monitor showing `connector`.
pub open spec fn logical_index(lms: Seq<MutterLogicalMonitor>, connector: Seq<char>) -> Option<int> {
    logical_index_from(lms, connector, 0)
}

// ---------------------------------------------------------------------------
// The layout Mutter receives
// ---------------------------------------------------------------------------

/// A logical monitor is touched by the plan when one of its connectors is
/// enabled or disabled by it.
pub open spec fn touched(lm: MutterLogicalMonitor, plan: PlanModel) -> bool {
    exists|i: int| 0 <= i < lm.connectors@.len() && ({
        let c = #[trigger] lm.connectors@[i]@;
        enable_names(plan.enables).contains(c) || plan.disables.contains(c)
    })
}

/// The monitors of an untouched logical monitor, each at its current mode;
/// connectors without a known monitor or current mode are dropped.
pub open spec fn carried_monitors(conns: Seq<String>, st: MutterState) -> Seq<(Seq<char>, Seq<char>)>
    decreases conns.len(),
{
    if conns.len() == 0 {
        Seq::empty()
    } else {
        let rest = carried_monitors(conns.drop_last(), st);
        let c = conns.last()@;
        match monitor_index(st.monitors@, c) {
            None => rest,
            Some(mi) => match first_mode(st.monitors@[mi].modes@, is_current_mode()) {
                None => rest,
                Some(k) => rest.push((c, st.monitors@[mi].modes@[k].id@)),
            },
        }
    }
}

/// The logical monitors the plan leaves alone, carried forward; a plan
/// that names a primary clears their primary markers.
pub open spec fn carried_configs(lms: Seq<MutterLogicalMonitor>, st: MutterState, plan: PlanModel) -> Seq<LmcModel>
    decreases lms.len(),
{
    if lms.len() == 0 {
        Seq::empty()
    } else {
        let rest = carried_configs(lms.drop_last(), st, plan);
        let lm = lms.last();
        let mons = carried_monitors(lm.connectors@, st);
        if touched(lm, plan) || mons.len() == 0 {
            rest
        } else {
            rest.push(LmcModel {
                x: lm.x as int,
                y: lm.y as int,
                scale_bits: lm.scale_bits,
                transform: lm.transform,
                primary: if plan.primaries.len() > 0 { false } else { lm.primary },
                monitors: mons,
            })
        }
    }
}

/// The right edge of a placed logical monitor, from its first monitor's
/// mode.
pub open spec fn config_right_edge(c: LmcModel, st: MutterState) -> Option<int> {
    if c.monitors.len() == 0 {
        None
    } else {
        match monitor_index(st.monitors@, c.monitors[0].0) {
            None => None,
            Some(mi) => match first_mode(st.monitors@[mi].modes@, mode_with_id(c.monitors[0].1)) {
                None => None,
                Some(k) => Some(c.x + st.monitors@[mi].modes@[k].width),
            },
        }
    }
}

/// The largest right edge over `placed`, or 0.
pub open spec fn placed_right_edge(placed: Seq<LmcModel>, st: MutterState) -> int
    decreases placed.len(),
{
    if placed.len() == 0 {
        0
    } else {
        let rest = placed_right_edge(placed.drop_last(), st);
        match config_right_edge(placed.last(), st) {
            None => rest,
            Some(e) => if placed_has_edge(placed.drop_last(), st) && rest >= e { rest } else { e },
        }
    }
}

/// Some logical monitor of `placed` has a known right edge.
pub open spec fn placed_has_edge(placed: Seq<LmcModel>, st: MutterState) -> bool {
    exists|i: int| 0 <= i < placed.len() && #[trigger] config_right_edge(placed[i], st) is Some
}

/// The logical monitor for one enable request, if its connector is known
/// and a mode can be picked for it.
pub open spec fn enable_config(e: EnableModel, placed: Seq<LmcModel>, st: MutterState, primaries: Seq<Seq<char>>) -> Option<LmcModel> {
    match monitor_index(st.monitors@, e.name) {
        None => None,
        Some(mi) => match pick_mode(st.monitors@[mi].modes@, e.mode) {
            None => None,
            Some(k) => {
                let existing = logical_index(st.logical_monitors@, e.name);
                let (x, y) = match e.position {
                    Some(p) => (p.0 as int, p.1 as int),
                    None => match existing {
                        Some(li) => (st.logical_monitors@[li].x as int, st.logical_monitors@[li].y as int),
                        None => (placed_right_edge(placed, st), 0int),
                    },
                };
                let primary = if primaries.len() > 0 {
                    primaries[0] == e.name
                } else {
                    match existing {
                        Some(li) => st.logical_monitors@[li].primary,
                        None => false,
                    }
                };
                Some(LmcModel {
                    x,
                    y,
                    scale_bits: UNIT_SCALE_BITS,
                    transform: 0,
                    primary,
                    monitors: seq![(e.name, st.monitors@[mi].modes@[k].id@)],
                })
            },
        }
    }
}

proof fn lemma_placed_right_edge_max(placed: Seq<LmcModel>, st: MutterState)
    ensures
        forall|i: int| 0 <= i < placed.len() && (#[trigger] config_right_edge(placed[i], st)) is Some
            ==> placed_right_edge(placed, st) >= config_right_edge(placed[i], st)->0,
        placed_has_edge(placed, st) ==> exists|i: int| 0 <= i < placed.len()
            && #[trigger] config_right_edge(placed[i], st) == Some(placed_right_edge(placed, st)),
        !placed_has_edge(placed, st) ==> placed_right_edge(placed, st) == 0,
    decreases placed.len(),
{
    if placed.len() > 0 {
        let p = placed.drop_last();
        lemma_placed_right_edge_max(p, st);
        assert(placed.last() == placed[placed.len() - 1]);
        assert forall|i: int| 0 <= i < p.len() implies #[trigger] p[i] == placed[i] by {}
        if placed_has_edge(p, st) {
            let w = choose|w: int| 0 <= w < p.len() && #[trigger] config_right_edge(p[w], st) is Some;
            assert(config_right_edge(placed[w], st) is Some);
        }
        if placed_has_edge(placed, st) && !placed_has_edge(p, st) {
            let w = choose|w: int| 0 <= w < placed.len() && #[trigger] config_right_edge(placed[w], st) is Some;
            if w < p.len() {
                assert(config_right_edge(p[w], st) is Some);
            }
        }
        if !placed_has_edge(placed, st) {
            assert(config_right_edge(placed[placed.len() - 1], st) is None);
            if placed_has_edge(p, st) {
                let w = choose|w: int| 0 <= w < p.len() && #[trigger] config_right_edge(p[w], st) is Some;
                assert(config_right_edge(placed[w], st) is Some);
            }
        }
        if placed_has_edge(p, st) {
            let w = choose|w: int| 0 <= w < p.len() && #[trigger] config_right_edge(p[w], st) == Some(placed_right_edge(p, st));
            assert(config_right_edge(placed[w], st) == Some(placed_right_edge(p, st)));
        }
        assert forall|i: int| 0 <= i < placed.len() && (#[trigger] config_right_edge(placed[i], st)) is Some
            implies placed_right_edge(placed, st) >= config_right_edge(placed[i], st)->0 by {
            if i < p.len() {
                assert(config_right_edge(p[i], st) is Some);
                assert(placed_has_edge(p, st));
            }
        }
    }
}

/// An enabled output with no requested position and no logical monitor of
/// its own goes on the top edge, right of everything placed before it: at
/// the largest right edge among them, or at 0 when none has a known edge.
pub proof fn lemma_new_output_packed_right(st: MutterState, plan: PlanModel, placed: Seq<LmcModel>, e: EnableModel)
    requires
        e.position is None,
        logical_index(st.logical_monitors@, e.name) is None,
        enable_config(e, placed, st, plan.primaries) is Some,
    ensures
        ({
            let c = enable_config(e, placed, st, plan.primaries)->0;
            &&& c.y == 0
            &&& forall|i: int| 0 <= i < placed.len() && (#[trigger] config_right_edge(placed[i], st)) is Some
                ==> c.x >= config_right_edge(placed[i], st)->0
            &&& (exists|i: int| 0 <= i < placed.len() && (#[trigger] config_right_edge(placed[i], st)) is Some)
                ==> exists|i: int| 0 <= i < placed.len() && #[trigger] config_right_edge(placed[i], st) == Some(c.x)
            &&& !(exists|i: int| 0 <= i < placed.len() && (#[trigger] config_right_edge(placed[i], st)) is Some)
                ==> c.x == 0
        }),
{
    lemma_placed_right_edge_max(placed, st);
}

/// The layout before normalisation: the carried logical monitors, then one
/// per satisfiable enable request, in plan order.
pub open spec fn raw_layout(st: MutterState, plan: PlanModel, n: nat) -> Seq<LmcModel>
    decreases n,
{
    if n == 0 {
        carried_configs(st.logical_monitors@, st, plan)
    } else {
        let placed = raw_layout(st, plan, (n - 1) as nat);
        match enable_config(plan.enables[n - 1], placed, st, plan.primaries) {
            Some(c) => placed.push(c),
            None => placed,
        }
    }
}

pub open spec fn min_x(cs: Seq<LmcModel>) -> int
    decreases cs.len(),
{
    if cs.len() == 0 { 0 } else if cs.len() == 1 { cs[0].x } else {
        let m = min_x(cs.drop_last());
        if cs.last().x < m { cs.last().x } else { m }
    }
}

pub open spec fn min_y(cs: Seq<LmcModel>) -> int
    decreases cs.len(),
{
    if cs.len() == 0 { 0 } else if cs.len() == 1 { cs[0].y } else {
        let m = min_y(cs.drop_last());
        if cs.last().y < m { cs.last().y } else { m }
    }
}

/// Shift the layout so that its left-most and top-most logical monitors
/// sit at 0, as Mutter requires.
pub open spec fn normalized(cs: Seq<LmcModel>) -> Seq<LmcModel> {
    let dx = min_x(cs);
    let dy = min_y(cs);
    cs.map_values(|c: LmcModel| LmcModel { x: c.x - dx, y: c.y - dy, ..c })
}

/// The layout Mutter should apply for `plan`: logical monitors the plan
/// does not touch are carried forward, each enabled output gets one of
/// its own, and anything else is disabled by omission.
pub open spec fn mutter_layout(st: MutterState, plan: PlanModel) -> Seq<LmcModel> {
    normalized(raw_layout(st, plan, plan.enables.len()))
}

/// How far from the origin the `n`-th placed logical monitor can lie:
/// each one packed to the right adds at most one `i32` width.
pub open spec fn coord_bound(n: int) -> int {
    0x8000_0000 * (n + 1)
}

pub open spec fn in_i32(v: int) -> bool {
    i32::MIN <= v <= i32::MAX
}

/// Every placed logical monitor lies within the bounds that `n` placed
/// ones can reach.
pub open spec fn placed_bounded(placed: Seq<LmcModel>) -> bool {
    forall|i: int| 0 <= i < placed.len() ==>
        -coord_bound(placed.len() as int) <= (#[trigger] placed[i]).x <= coord_bound(placed.len() as int)
            && in_i32(placed[i].y)
}

// ---------------------------------------------------------------------------
// Executable lookups
// ---------------------------------------------------------------------------

fn find_monitor(mons: &Vec<MutterMonitor>, c: &String) -> (r: Option<usize>)
    ensures
        match r {
            Some(i) => i < mons@.len() && monitor_index(mons@, c@) == Some(i as int),
            None => monitor_index(mons@, c@) is None,
        },
{
    let mut i: usize = 0;
    while i < mons.len()
        invariant
            i <= mons@.len(),
            monitor_index(mons@, c@) == monitor_index_from(mons@, c@, i as int),
        decreases mons@.len() - i,
    {
        if mons[i].connector == *c {
            return Some(i);
        }
        i = i + 1;
    }
    None
}

fn find_current(modes: &Vec<MutterMode>) -> (r: Option<usize>)
    ensures
        match r {
            Some(i) => i < modes@.len() && first_mode(modes@, is_current_mode()) == Some(i as int),
            None => first_mode(modes@, is_current_mode()) is None,
        },
{
    let mut i: usize = 0;
    while i < modes.len()
        invariant
            i <= modes@.len(),
            first_mode(modes@, is_current_mode()) == first_mode_from(modes@, is_current_mode(), i as int),
        decreases modes@.len() - i,
    {
        if modes[i].is_current {
            return Some(i);
        }
        i = i + 1;
    }
    None
}

fn find_preferred(modes: &Vec<MutterMode>) -> (r: Option<usize>)
    ensures
        match r {
            Some(i) => i < modes@.len() && first_mode(modes@, is_preferred_mode()) == Some(i as int),
            None => first_mode(modes@, is_preferred_mode()) is None,
        },
{
    let mut i: usize = 0;
    while i < modes.len()
        invariant
            i <= modes@.len(),
            first_mode(modes@, is_preferred_mode()) == first_mode_from(modes@, is_preferred_mode(), i as int),
        decreases modes@.len() - i,
    {
        if modes[i].is_preferred {
            return Some(i);
        }
        i = i + 1;
    }
    None
}

fn find_exact(modes: &Vec<MutterMode>, want: ModeInfo) -> (r: Option<usize>)
    ensures
        match r {
            Some(i) => i < modes@.len() && first_mode(modes@, exact_mode(want)) == Some(i as int),
            None => first_mode(modes@, exact_mode(want)) is None,
        },
{
    let mut i: usize = 0;
    while i < modes.len()
        invariant
            i <= modes@.len(),
            first_mode(modes@, exact_mode(want)) == first_mode_from(modes@, exact_mode(want), i as int),
        decreases modes@.len() - i,
    {
        if modes[i].width == want.width && modes[i].height == want.height && modes[i].refresh_mhz == want.refresh_mhz {
            return Some(i);
        }
        i = i + 1;
    }
    None
}

fn find_with_id(modes: &Vec<MutterMode>, id: &String) -> (r: Option<usize>)
    ensures
        match r {
            Some(i) => i < modes@.len() && first_mode(modes@, mode_with_id(id@)) == Some(i as int),
            None => first_mode(modes@, mode_with_id(id@)) is None,
        },
{
    let mut i: usize = 0;
    while i < modes.len()
        invariant
            i <= modes@.len(),
            first_mode(modes@, mode_with_id(id@)) == first_mode_from(modes@, mode_with_id(id@), i as int),
        decreases modes@.len() - i,
    {
        if modes[i].id == *id {
            return Some(i);
        }
        i = i + 1;
    }
    None
}

fn find_closest(modes: &Vec<MutterMode>, want: ModeInfo) -> (r: Option<usize>)
    ensures
        match r {
            Some(i) => i < modes@.len() && closest_mode(modes@, want) == Some(i as int),
            None => closest_mode(modes@, want) is None,
        },
{
    let mut best: Option<usize> = None;
    let mut i: usize = 0;
    while i < modes.len()
        invariant
            i <= modes@.len(),
            best matches Some(b) ==> b < i,
            closest_mode(modes@, want) == closest_from(modes@, want, i as int,
                match best { Some(b) => Some(b as int), None => None }),
        decreases modes@.len() - i,
    {
        let m = &modes[i];
        if m.width == want.width && m.height == want.height {
            let d = m.refresh_mhz as i64 - want.refresh_mhz as i64;
            let d = if d < 0 { -d } else { d };
            best = match best {
                Some(b) => {
                    let e = modes[b].refresh_mhz as i64 - want.refresh_mhz as i64;
                    let e = if e < 0 { -e } else { e };
                    if d < e { Some(i) } else { Some(b) }
                },
                None => Some(i),
            };
        }
        i = i + 1;
    }
    best
}

fn pick_mode_exec(modes: &Vec<MutterMode>, want: Option<ModeInfo>) -> (r: Option<usize>)
    ensures
        match r {
            Some(i) => i < modes@.len() && pick_mode(modes@, want) == Some(i as int),
            None => pick_mode(modes@, want) is None,
        },
{
    match want {
        Some(info) => match find_exact(modes, info) {
            Some(i) => Some(i),
            None => find_closest(modes, info),
        },
        None => match find_preferred(modes) {
            Some(i) => Some(i),
            None => if modes.len() > 0 { Some(0) } else { None },
        },
    }
}

fn find_logical(lms: &Vec<MutterLogicalMonitor>, c: &String) -> (r: Option<usize>)
    ensures
        match r {
            Some(i) => i < lms@.len() && logical_index(lms@, c@) == Some(i as int),
            None => logical_index(lms@, c@) is None,
        },
{
    let mut i: usize = 0;
    while i < lms.len()
        invariant
            i <= lms@.len(),
            logical_index(lms@, c@) == logical_index_from(lms@, c@, i as int),
        decreases lms@.len() - i,
    {
        if contains_name(&lms[i].connectors, c) {
            return Some(i);
        }
        i = i + 1;
    }
    None
}

// ---------------------------------------------------------------------------
// Executable layout
// ---------------------------------------------------------------------------

fn enables_contain(es: &Vec<EnableOutput>, c: &String) -> (r: bool)
    ensures
        r == enable_names(enable_views(es@)).contains(c@),
{
    let mut i: usize = 0;
    while i < es.len()
        invariant
            i <= es@.len(),
            forall|j: int| 0 <= j < i ==> es@[j]@.name != c@,
        decreases es@.len() - i,
    {
        if es[i].name == *c {
            assert(enable_names(enable_views(es@))[i as int] == c@);
            return true;
        }
        i = i + 1;
    }
    assert forall|j: int| 0 <= j < enable_names(enable_views(es@)).len() implies
        enable_names(enable_views(es@))[j] != c@ by {
        assert(enable_names(enable_views(es@))[j] == es@[j]@.name);
    }
    false
}

fn is_touched(lm: &MutterLogicalMonitor, plan: &OutputPlan) -> (r: bool)
    ensures
        r == touched(*lm, plan@),
{
    let es = plan.enables();
    let ds = plan.disables();
    let mut i: usize = 0;
    while i < lm.connectors.len()
        invariant
            i <= lm.connectors@.len(),
            enable_views(es@) == plan@.enables,
            string_views(ds@) == plan@.disables,
            forall|j: int| 0 <= j < i ==> !({
                let c = #[trigger] lm.connectors@[j]@;
                enable_names(plan@.enables).contains(c) || plan@.disables.contains(c)
            }),
        decreases lm.connectors@.len() - i,
    {
        let c = &lm.connectors[i];
        if enables_contain(es, c) || contains_name(ds, c) {
            return true;
        }
        i = i + 1;
    }
    false
}

fn carried_monitors_exec(conns: &Vec<String>, st: &MutterState) -> (r: Vec<MonitorConfig>)
    ensures
        r@.map_values(|m: MonitorConfig| (m.connector@, m.mode_id@)) == carried_monitors(conns@, *st),
{
    let mut r: Vec<MonitorConfig> = Vec::new();
    let mut i: usize = 0;
    while i < conns.len()
        invariant
            i <= conns@.len(),
            r@.map_values(|m: MonitorConfig| (m.connector@, m.mode_id@)) == carried_monitors(conns@.take(i as int), *st),
        decreases conns@.len() - i,
    {
        proof {
            assert(conns@.take(i as int + 1).drop_last() =~= conns@.take(i as int));
            assert(conns@.take(i as int + 1).last() == conns@[i as int]);
        }
        let c = &conns[i];
        match find_monitor(&st.monitors, c) {
            None => {},
            Some(mi) => match find_current(&st.monitors[mi].modes) {
                None => {},
                Some(k) => {
                    let ghost before = r@.map_values(|m: MonitorConfig| (m.connector@, m.mode_id@));
                    r.push(MonitorConfig { connector: c.clone(), mode_id: st.monitors[mi].modes[k].id.clone() });
                    assert(r@.map_values(|m: MonitorConfig| (m.connector@, m.mode_id@)) =~=
                        before.push((c@, st.monitors@[mi as int].modes@[k as int].id@)));
                },
            },
        }
        i = i + 1;
    }
    assert(conns@.take(i as int) =~= conns@);
    r
}

fn push_config(out: &mut Vec<LogicalMonitorConfig>, c: LogicalMonitorConfig)
    ensures
        lmc_views(final(out)@) == lmc_views(old(out)@).push(c@),
{
    let ghost v = c@;
    out.push(c);
    assert(lmc_views(out@) =~= lmc_views(old(out)@).push(v));
}

fn carried_configs_exec(st: &MutterState, plan: &OutputPlan) -> (r: Vec<LogicalMonitorConfig>)
    ensures
        lmc_views(r@) == carried_configs(st.logical_monitors@, *st, plan@),
        placed_bounded(lmc_views(r@)),
        r@.len() <= st.logical_monitors@.len(),
{
    let lms = &st.logical_monitors;
    let plan_sets_primary = plan.primary().is_some();
    let mut r: Vec<LogicalMonitorConfig> = Vec::new();
    let mut i: usize = 0;
    while i < lms.len()
        invariant
            i <= lms@.len(),
            lms == &st.logical_monitors,
            plan_sets_primary == (plan@.primaries.len() > 0),
            lmc_views(r@) == carried_configs(lms@.take(i as int), *st, plan@),
            placed_bounded(lmc_views(r@)),
            r@.len() <= i,
        decreases lms@.len() - i,
    {
        let lm = &lms[i];
        proof {
            assert(lms@.take(i as int + 1).drop_last() =~= lms@.take(i as int));
            assert(lms@.take(i as int + 1).last() == lms@[i as int]);
        }
        if !is_touched(lm, plan) {
            let monitors = carried_monitors_exec(&lm.connectors, st);
            if monitors.len() > 0 {
                let ghost before = lmc_views(r@);
                push_config(&mut r, LogicalMonitorConfig {
                    x: lm.x as i128,
                    y: lm.y as i128,
                    scale_bits: lm.scale_bits,
                    transform: lm.transform,
                    primary: if plan_sets_primary { false } else { lm.primary },
                    monitors,
                });
                proof {
                    let after = lmc_views(r@);
                    assert(after.len() == r@.len() && before.len() + 1 == after.len());
                    assert forall|j: int| 0 <= j < after.len() implies
                        -coord_bound(after.len() as int) <= (#[trigger] after[j]).x <= coord_bound(after.len() as int)
                            && in_i32(after[j].y) by {
                        if j < before.len() {
                            assert(after[j] == before[j]);
                        }
                    }
                }
            }
        }
        i = i + 1;
    }
    assert(lms@.take(i as int) =~= lms@);
    r
}

fn placed_right_edge_exec(placed: &Vec<LogicalMonitorConfig>, st: &MutterState) -> (e: i128)
    requires
        placed_bounded(lmc_views(placed@)),
        placed@.len() <= 2 * usize::MAX,
    ensures
        e == placed_right_edge(lmc_views(placed@), *st),
        -coord_bound(placed@.len() as int + 1) <= e <= coord_bound(placed@.len() as int + 1),
{
    let mut best: Option<i128> = None;
    let mut i: usize = 0;
    while i < placed.len()
        invariant
            i <= placed@.len(),
            placed@.len() <= 2 * usize::MAX,
            placed_bounded(lmc_views(placed@)),
            match best {
                Some(b) => placed_has_edge(lmc_views(placed@).take(i as int), *st)
                    && placed_right_edge(lmc_views(placed@).take(i as int), *st) == b
                    && -coord_bound(placed@.len() as int + 1) <= b <= coord_bound(placed@.len() as int + 1),
                None => !placed_has_edge(lmc_views(placed@).take(i as int), *st)
                    && placed_right_edge(lmc_views(placed@).take(i as int), *st) == 0,
            },
        decreases placed@.len() - i,
    {
        let ghost pv = lmc_views(placed@);
        proof {
            assert(pv.take(i as int + 1).drop_last() =~= pv.take(i as int));
            assert(pv.take(i as int + 1).last() == pv[i as int]);
            assert(-coord_bound(pv.len() as int) <= pv[i as int].x <= coord_bound(pv.len() as int));
        }
        let c = &placed[i];
        let mut edge: Option<i128> = None;
        if c.monitors.len() > 0 {
            let m = &c.monitors[0];
            assert(pv[i as int].monitors[0] == (m.connector@, m.mode_id@));
            match find_monitor(&st.monitors, &m.connector) {
                None => {},
                Some(mi) => match find_with_id(&st.monitors[mi].modes, &m.mode_id) {
                    None => {},
                    Some(k) => {
                        edge = Some(c.x + st.monitors[mi].modes[k].width as i128);
                    },
                },
            }
        }
        assert(match edge { Some(x) => config_right_edge(pv[i as int], *st) == Some(x as int)
            && -coord_bound(placed@.len() as int + 1) <= x <= coord_bound(placed@.len() as int + 1),
            None => config_right_edge(pv[i as int], *st) is None });
        match edge {
            None => {
                proof {
                    if placed_has_edge(pv.take(i as int + 1), *st) {
                        let w = choose|w: int| 0 <= w < i + 1 && #[trigger] config_right_edge(pv.take(i as int + 1)[w], *st) is Some;
                        assert(pv.take(i as int + 1)[w] == pv.take(i as int)[w]);
                    }
                }
            },
            Some(x) => {
                proof {
                    assert(config_right_edge(pv.take(i as int + 1)[i as int], *st) is Some);
                    if best is Some {
                        let w = choose|w: int| 0 <= w < i && #[trigger] config_right_edge(pv.take(i as int)[w], *st) is Some;
                        assert(pv.take(i as int + 1)[w] == pv.take(i as int)[w]);
                    }
                }
                best = match best {
                    Some(b) => Some(if b >= x { b } else { x }),
                    None => Some(x),
                };
            },
        }
        i = i + 1;
    }
    assert(lmc_views(placed@).take(i as int) =~= lmc_views(placed@));
    match best {
        Some(b) => b,
        None => 0,
    }
}

fn enable_config_exec(e: &EnableOutput, placed: &Vec<LogicalMonitorConfig>, st: &MutterState, primary: Option<&str>)
    -> (r: Option<LogicalMonitorConfig>)
    requires
        placed_bounded(lmc_views(placed@)),
        placed@.len() <= 2 * usize::MAX,
    ensures
        match r {
            Some(c) => enable_config(e@, lmc_views(placed@), *st, primary_seq(primary)) == Some(c@)
                && -coord_bound(placed@.len() as int + 1) <= c@.x <= coord_bound(placed@.len() as int + 1) && in_i32(c@.y),
            None => enable_config(e@, lmc_views(placed@), *st, primary_seq(primary)) is None,
        },
{
    let mi = match find_monitor(&st.monitors, &e.name) {
        Some(mi) => mi,
        None => { return None; },
    };
    let monitor = &st.monitors[mi];
    let k = match pick_mode_exec(&monitor.modes, e.mode) {
        Some(k) => k,
        None => { return None; },
    };
    let existing = find_logical(&st.logical_monitors, &e.name);
    let (x, y): (i128, i128) = match e.position {
        Some(p) => (p.0 as i128, p.1 as i128),
        None => match existing {
            Some(li) => (st.logical_monitors[li].x as i128, st.logical_monitors[li].y as i128),
            None => (placed_right_edge_exec(placed, st), 0i128),
        },
    };
    let is_primary = match primary {
        Some(name) => {
            let n = owned(name);
            n == e.name
        },
        None => match existing {
            Some(li) => st.logical_monitors[li].primary,
            None => false,
        },
    };
    let mut monitors: Vec<MonitorConfig> = Vec::new();
    monitors.push(MonitorConfig { connector: e.name.clone(), mode_id: monitor.modes[k].id.clone() });
    let c = LogicalMonitorConfig { x, y, scale_bits: UNIT_SCALE_BITS, transform: 0, primary: is_primary, monitors };
    assert(c@.monitors =~= seq![(e@.name, st.monitors@[mi as int].modes@[k as int].id@)]);
    Some(c)
}

/// The primary list of a plan whose primary is `primary`.
pub open spec fn primary_seq(primary: Option<&str>) -> Seq<Seq<char>> {
    match primary { Some(p) => seq![p@], None => Seq::empty() }
}


proof fn lemma_min_x(cs: Seq<LmcModel>)
    requires
        cs.len() > 0,
    ensures
        exists|i: int| 0 <= i < cs.len() && cs[i].x == min_x(cs),
        forall|i: int| 0 <= i < cs.len() ==> min_x(cs) <= #[trigger] cs[i].x,
        exists|i: int| 0 <= i < cs.len() && cs[i].y == min_y(cs),
        forall|i: int| 0 <= i < cs.len() ==> min_y(cs) <= #[trigger] cs[i].y,
    decreases cs.len(),
{
    if cs.len() == 1 {
        assert(cs[0].x == min_x(cs));
        assert(cs[0].y == min_y(cs));
    } else {
        let p = cs.drop_last();
        lemma_min_x(p);
        let i = choose|i: int| 0 <= i < p.len() && p[i].x == min_x(p);
        let j = choose|j: int| 0 <= j < p.len() && p[j].y == min_y(p);
        assert(cs[i] == p[i]);
        assert(cs[j] == p[j]);
        assert(cs[cs.len() - 1] == cs.last());
        assert forall|k: int| 0 <= k < cs.len() implies min_x(cs) <= #[trigger] cs[k].x by {
            if k < cs.len() - 1 { assert(cs[k] == p[k]); }
        }
        assert forall|k: int| 0 <= k < cs.len() implies min_y(cs) <= #[trigger] cs[k].y by {
            if k < cs.len() - 1 { assert(cs[k] == p[k]); }
        }
    }
}

/// The layout Mutter receives is anchored at the origin, as it requires:
/// no logical monitor lies left of or above 0, and one touches each axis.
pub proof fn lemma_layout_origin_anchored(st: MutterState, plan: PlanModel)
    ensures
        ({
            let l = mutter_layout(st, plan);
            &&& forall|i: int| 0 <= i < l.len() ==> (#[trigger] l[i]).x >= 0 && l[i].y >= 0
            &&& l.len() > 0 ==> exists|i: int| 0 <= i < l.len() && #[trigger] l[i].x == 0
            &&& l.len() > 0 ==> exists|i: int| 0 <= i < l.len() && #[trigger] l[i].y == 0
        }),
{
    let raw = raw_layout(st, plan, plan.enables.len());
    let l = mutter_layout(st, plan);
    if raw.len() > 0 {
        lemma_min_x(raw);
        let i = choose|i: int| 0 <= i < raw.len() && raw[i].x == min_x(raw);
        let j = choose|j: int| 0 <= j < raw.len() && raw[j].y == min_y(raw);
        assert(l[i].x == 0);
        assert(l[j].y == 0);
        assert forall|k: int| 0 <= k < l.len() implies (#[trigger] l[k]).x >= 0 && l[k].y >= 0 by {
            assert(min_x(raw) <= raw[k].x);
            assert(min_y(raw) <= raw[k].y);
        }
    }
}

/// A logical monitor of the layout for `plan` shows at least one monitor,
/// none on a disabled connector, and, when the plan names a primary, it is
/// marked primary exactly when it shows that output as an enabled one.
pub open spec fn config_fits_plan(c: LmcModel, plan: PlanModel) -> bool {
    &&& c.monitors.len() > 0
    &&& forall|j: int| 0 <= j < c.monitors.len() ==> !plan.disables.contains(#[trigger] c.monitors[j].0)
    &&& plan.primaries.len() > 0 ==> (c.primary <==> (c.monitors[0].0 == plan.primaries[0]
        && enable_names(plan.enables).contains(plan.primaries[0])))
}

proof fn lemma_carried_monitors_from(conns: Seq<String>, st: MutterState)
    ensures
        forall|j: int| 0 <= j < carried_monitors(conns, st).len() ==>
            exists|q: int| 0 <= q < conns.len() && #[trigger] carried_monitors(conns, st)[j].0 == conns[q]@,
    decreases conns.len(),
{
    if conns.len() > 0 {
        let rest = carried_monitors(conns.drop_last(), st);
        lemma_carried_monitors_from(conns.drop_last(), st);
        let r = carried_monitors(conns, st);
        assert forall|j: int| 0 <= j < r.len() implies
            exists|q: int| 0 <= q < conns.len() && #[trigger] r[j].0 == conns[q]@ by {
            if j < rest.len() {
                assert(r[j] == rest[j]);
                let q = choose|q: int| 0 <= q < conns.drop_last().len() && rest[j].0 == conns.drop_last()[q]@;
                assert(conns[q] == conns.drop_last()[q]);
            } else {
                assert(r[j].0 == conns[conns.len() - 1]@);
            }
        }
    }
}

proof fn lemma_carried_fit(lms: Seq<MutterLogicalMonitor>, st: MutterState, plan: PlanModel)
    ensures
        forall|i: int| 0 <= i < carried_configs(lms, st, plan).len() ==> {
            let c = #[trigger] carried_configs(lms, st, plan)[i];
            &&& config_fits_plan(c, plan)
            &&& forall|j: int| 0 <= j < c.monitors.len() ==> !enable_names(plan.enables).contains(#[trigger] c.monitors[j].0)
            &&& plan.primaries.len() > 0 ==> !c.primary
        },
    decreases lms.len(),
{
    if lms.len() > 0 {
        lemma_carried_fit(lms.drop_last(), st, plan);
        let rest = carried_configs(lms.drop_last(), st, plan);
        let all = carried_configs(lms, st, plan);
        let lm = lms.last();
        let mons = carried_monitors(lm.connectors@, st);
        lemma_carried_monitors_from(lm.connectors@, st);
        assert forall|i: int| 0 <= i < all.len() implies {
            let c = #[trigger] all[i];
            &&& config_fits_plan(c, plan)
            &&& forall|j: int| 0 <= j < c.monitors.len() ==> !enable_names(plan.enables).contains(#[trigger] c.monitors[j].0)
            &&& plan.primaries.len() > 0 ==> !c.primary
        } by {
            if i < rest.len() {
                assert(all[i] == rest[i]);
            } else {
                let c = all[i];
                assert(!touched(lm, plan) && mons.len() > 0);
                assert(c.monitors == mons);
                assert forall|j: int| 0 <= j < c.monitors.len() implies
                    !plan.disables.contains(#[trigger] c.monitors[j].0)
                        && !enable_names(plan.enables).contains(c.monitors[j].0) by {
                    let q = choose|q: int| 0 <= q < lm.connectors@.len() && mons[j].0 == lm.connectors@[q]@;
                    let cq = lm.connectors@[q]@;
                    assert(!(enable_names(plan.enables).contains(cq) || plan.disables.contains(cq)));
                }
                if plan.primaries.len() > 0 {
                    assert(!c.primary);
                    assert(!enable_names(plan.enables).contains(c.monitors[0].0));
                }
            }
        }
    }
}

proof fn lemma_raw_fit(st: MutterState, plan: PlanModel, n: nat)
    requires
        plan_wf(plan),
        n <= plan.enables.len(),
    ensures
        forall|i: int| 0 <= i < raw_layout(st, plan, n).len() ==> config_fits_plan(#[trigger] raw_layout(st, plan, n)[i], plan),
    decreases n,
{
    if n == 0 {
        lemma_carried_fit(st.logical_monitors@, st, plan);
        let r = raw_layout(st, plan, n);
        assert forall|i: int| 0 <= i < r.len() implies config_fits_plan(#[trigger] r[i], plan) by {
            assert(r[i] == carried_configs(st.logical_monitors@, st, plan)[i]);
        }
    } else {
        lemma_raw_fit(st, plan, (n - 1) as nat);
        let placed = raw_layout(st, plan, (n - 1) as nat);
        let e = plan.enables[n - 1];
        let r = raw_layout(st, plan, n);
        assert(enable_names(plan.enables)[n - 1] == e.name);
        assert(enable_names(plan.enables).contains(e.name));
        match enable_config(e, placed, st, plan.primaries) {
            Some(c) => {
                assert(c.monitors[0].0 == e.name);
                assert forall|j: int| 0 <= j < c.monitors.len() implies !plan.disables.contains(#[trigger] c.monitors[j].0) by {
                    if plan.disables.contains(e.name) {
                        let d = choose|d: int| 0 <= d < plan.disables.len() && plan.disables[d] == e.name;
                        assert(!enable_names(plan.enables).contains(plan.disables[d]));
                    }
                }
                assert(config_fits_plan(c, plan));
                assert forall|i: int| 0 <= i < r.len() implies config_fits_plan(#[trigger] r[i], plan) by {
                    if i < placed.len() { assert(r[i] == placed[i]); }
                }
            },
            None => {},
        }
    }
}

/// At most one configuration of `cs` is marked primary.
pub open spec fn at_most_one_primary(cs: Seq<LmcModel>) -> bool {
    forall|i: int, j: int| 0 <= i < cs.len() && 0 <= j < cs.len() && (#[trigger] cs[i]).primary
        && (#[trigger] cs[j]).primary ==> i == j
}

proof fn lemma_raw_one_primary(st: MutterState, plan: PlanModel, n: nat)
    requires
        plan_wf(plan),
        plan.primaries.len() > 0,
        n <= plan.enables.len(),
    ensures
        at_most_one_primary(raw_layout(st, plan, n)),
        (exists|i: int| 0 <= i < raw_layout(st, plan, n).len() && (#[trigger] raw_layout(st, plan, n)[i]).primary)
            ==> enable_names(plan.enables.take(n as int)).contains(plan.primaries[0]),
    decreases n,
{
    if n == 0 {
        lemma_carried_fit(st.logical_monitors@, st, plan);
        let r = raw_layout(st, plan, n);
        assert forall|i: int| 0 <= i < r.len() implies !(#[trigger] r[i]).primary by {
            assert(r[i] == carried_configs(st.logical_monitors@, st, plan)[i]);
        }
    } else {
        lemma_raw_one_primary(st, plan, (n - 1) as nat);
        let placed = raw_layout(st, plan, (n - 1) as nat);
        let e = plan.enables[n - 1];
        let r = raw_layout(st, plan, n);
        let p = plan.primaries[0];
        assert(enable_names(plan.enables.take(n as int)) =~= enable_names(plan.enables.take(n - 1)).push(e.name));
        match enable_config(e, placed, st, plan.primaries) {
            Some(c) => {
                if c.primary {
                    assert(e.name == p);
                    assert(enable_names(plan.enables)[n - 1] == p);
                    if enable_names(plan.enables.take(n - 1)).contains(p) {
                        let q = choose|q: int| 0 <= q < n - 1 && #[trigger] enable_names(plan.enables.take(n - 1))[q] == p;
                        assert(enable_names(plan.enables)[q] == p);
                    }
                    assert forall|i: int| 0 <= i < placed.len() implies !(#[trigger] placed[i]).primary by {}
                }
                assert forall|i: int, j: int| 0 <= i < r.len() && 0 <= j < r.len() && (#[trigger] r[i]).primary
                    && (#[trigger] r[j]).primary implies i == j by {
                    if i < placed.len() { assert(r[i] == placed[i]); }
                    if j < placed.len() { assert(r[j] == placed[j]); }
                }
                if exists|i: int| 0 <= i < r.len() && (#[trigger] r[i]).primary {
                    let i = choose|i: int| 0 <= i < r.len() && (#[trigger] r[i]).primary;
                    if i < placed.len() {
                        assert(r[i] == placed[i]);
                        assert(enable_names(plan.enables.take(n - 1)).contains(p));
                        let q = choose|q: int| 0 <= q < n - 1 && #[trigger] enable_names(plan.enables.take(n - 1))[q] == p;
                        assert(enable_names(plan.enables.take(n as int))[q] == p);
                    } else {
                        assert(enable_names(plan.enables.take(n as int))[n - 1] == p);
                    }
                }
            },
            None => {
                if exists|i: int| 0 <= i < r.len() && (#[trigger] r[i]).primary {
                    let i = choose|i: int| 0 <= i < r.len() && (#[trigger] r[i]).primary;
                    assert(placed[i].primary);
                    let q = choose|q: int| 0 <= q < n - 1 && #[trigger] enable_names(plan.enables.take(n - 1))[q] == p;
                    assert(enable_names(plan.enables.take(n as int))[q] == p);
                }
            },
        }
    }
}

/// The primary marker a logical monitor for output `c` keeps without a
/// plan primary: that of the logical monitor showing `c` now, if any.
pub open spec fn current_primary(st: MutterState, c: Seq<char>) -> bool {
    match logical_index(st.logical_monitors@, c) {
        Some(li) => st.logical_monitors@[li].primary,
        None => false,
    }
}

proof fn lemma_raw_keeps_primary(st: MutterState, plan: PlanModel, n: nat)
    requires
        plan.primaries.len() == 0,
        n <= plan.enables.len(),
    ensures
        forall|i: int| 0 <= i < raw_layout(st, plan, n).len()
            && (#[trigger] raw_layout(st, plan, n)[i]).monitors.len() > 0
            && enable_names(plan.enables).contains(raw_layout(st, plan, n)[i].monitors[0].0)
            ==> raw_layout(st, plan, n)[i].primary == current_primary(st, raw_layout(st, plan, n)[i].monitors[0].0),
    decreases n,
{
    let r = raw_layout(st, plan, n);
    if n == 0 {
        lemma_carried_fit(st.logical_monitors@, st, plan);
        assert forall|i: int| 0 <= i < r.len() && (#[trigger] r[i]).monitors.len() > 0
            && enable_names(plan.enables).contains(r[i].monitors[0].0)
            implies r[i].primary == current_primary(st, r[i].monitors[0].0) by {
            let c = carried_configs(st.logical_monitors@, st, plan)[i];
            assert(r[i] == c);
            assert(!enable_names(plan.enables).contains(c.monitors[0].0));
        }
    } else {
        lemma_raw_keeps_primary(st, plan, (n - 1) as nat);
        let placed = raw_layout(st, plan, (n - 1) as nat);
        assert forall|i: int| 0 <= i < r.len() && (#[trigger] r[i]).monitors.len() > 0
            && enable_names(plan.enables).contains(r[i].monitors[0].0)
            implies r[i].primary == current_primary(st, r[i].monitors[0].0) by {
            if i < placed.len() {
                assert(r[i] == placed[i]);
            }
        }
    }
}

/// Without a primary in the plan, the logical monitor made for an enabled
/// output keeps the primary marker of the logical monitor that shows the
/// output now, and is not primary when none does.
pub proof fn lemma_layout_keeps_primary(st: MutterState, plan: PlanModel)
    requires
        plan.primaries.len() == 0,
    ensures
        forall|i: int| 0 <= i < mutter_layout(st, plan).len()
            && (#[trigger] mutter_layout(st, plan)[i]).monitors.len() > 0
            && enable_names(plan.enables).contains(mutter_layout(st, plan)[i].monitors[0].0)
            ==> mutter_layout(st, plan)[i].primary == current_primary(st, mutter_layout(st, plan)[i].monitors[0].0),
{
    lemma_raw_keeps_primary(st, plan, plan.enables.len());
    let raw = raw_layout(st, plan, plan.enables.len());
    let l = mutter_layout(st, plan);
    assert forall|i: int| 0 <= i < l.len() && (#[trigger] l[i]).monitors.len() > 0
        && enable_names(plan.enables).contains(l[i].monitors[0].0)
        implies l[i].primary == current_primary(st, l[i].monitors[0].0) by {
        assert(l[i].monitors == raw[i].monitors && l[i].primary == raw[i].primary);
        assert(raw[i].monitors.len() > 0);
    }
}

/// Every logical monitor of the layout Mutter receives shows at least one
/// monitor and none on a disabled connector; when the plan names a
/// primary, exactly the logical monitor of that output, if it is enabled,
/// is marked primary, carried-over ones lose the mark, and at most one
/// logical monitor is primary.
pub proof fn lemma_layout_fits_plan(st: MutterState, plan: PlanModel)
    requires
        plan_wf(plan),
    ensures
        forall|i: int| 0 <= i < mutter_layout(st, plan).len() ==> config_fits_plan(#[trigger] mutter_layout(st, plan)[i], plan),
        plan.primaries.len() > 0 ==> at_most_one_primary(mutter_layout(st, plan)),
{
    lemma_raw_fit(st, plan, plan.enables.len());
    if plan.primaries.len() > 0 {
        lemma_raw_one_primary(st, plan, plan.enables.len());
        let raw = raw_layout(st, plan, plan.enables.len());
        let l = mutter_layout(st, plan);
        assert forall|i: int, j: int| 0 <= i < l.len() && 0 <= j < l.len() && (#[trigger] l[i]).primary
            && (#[trigger] l[j]).primary implies i == j by {
            assert(raw[i].primary && raw[j].primary);
        }
    }
    let raw = raw_layout(st, plan, plan.enables.len());
    let l = mutter_layout(st, plan);
    assert forall|i: int| 0 <= i < l.len() implies config_fits_plan(#[trigger] l[i], plan) by {
        assert(config_fits_plan(raw[i], plan));
        assert(l[i].monitors == raw[i].monitors && l[i].primary == raw[i].primary);
    }
}

/// The layout is shifted by one offset for all logical monitors: the
/// distance between any two of them is the distance between their
/// requested or current positions.
pub proof fn lemma_layout_uniform_shift(st: MutterState, plan: PlanModel)
    ensures
        mutter_layout(st, plan).len() == raw_layout(st, plan, plan.enables.len()).len(),
        forall|i: int, j: int| 0 <= i < mutter_layout(st, plan).len() && 0 <= j < mutter_layout(st, plan).len() ==>
            (#[trigger] mutter_layout(st, plan)[i]).x - (#[trigger] mutter_layout(st, plan)[j]).x
                == raw_layout(st, plan, plan.enables.len())[i].x - raw_layout(st, plan, plan.enables.len())[j].x
            && mutter_layout(st, plan)[i].y - mutter_layout(st, plan)[j].y
                == raw_layout(st, plan, plan.enables.len())[i].y - raw_layout(st, plan, plan.enables.len())[j].y,
{
}

// ---------------------------------------------------------------------------
// Mutter's state as a snapshot
// ---------------------------------------------------------------------------

/// The transform a logical monitor's wire value stands for, if any.
pub open spec fn logical_transform(v: u32) -> Option<Transform> {
    if v <= 7 {
        match transform_from_wire(v as i32) { Ok(t) => Some(t), Err(_) => None }
    } else {
        None
    }
}

/// The head for monitor `i`: enabled exactly when a logical monitor shows
/// it, which then gives its position, scale and transform; its mode is
/// its current one.
pub open spec fn mutter_head(st: MutterState, i: int) -> HeadModel {
    let mon = st.monitors@[i];
    let lms = st.logical_monitors@;
    let li = logical_index(lms, mon.connector@);
    HeadModel {
        name: mon.connector@,
        enabled: li is Some,
        mode: match first_mode(mon.modes@, is_current_mode()) {
            Some(k) => Some(ModeInfo {
                width: mon.modes@[k].width,
                height: mon.modes@[k].height,
                refresh_mhz: mon.modes@[k].refresh_mhz,
            }),
            None => None,
        },
        position: match li { Some(l) => Some((lms[l].x, lms[l].y)), None => None },
        scale_bits: match li { Some(l) => Some(lms[l].scale_bits), None => None },
        transform: match li { Some(l) => logical_transform(lms[l].transform), None => None },
    }
}

/// One head per monitor Mutter reports, in its order.
pub open spec fn mutter_heads(st: MutterState) -> Seq<HeadModel> {
    Seq::new(st.monitors@.len(), |i: int| mutter_head(st, i))
}

fn logical_transform_exec(v: u32) -> (r: Option<Transform>)
    ensures
        r == logical_transform(v),
{
    if v > 7 {
        return None;
    }
    match Transform::try_from(v as i32) {
        Ok(t) => Some(t),
        Err(_) => None,
    }
}

/// The heads Mutter's `state` reports, as a snapshot.
pub fn snapshot_of(state: &MutterState) -> (s: OutputSnapshot)
    ensures
        head_views(s.heads@) == mutter_heads(*state),
{
    let mons = &state.monitors;
    let lms = &state.logical_monitors;
    let mut heads: Vec<HeadState> = Vec::new();
    let mut i: usize = 0;
    while i < mons.len()
        invariant
            i <= mons@.len(),
            mons == &state.monitors,
            lms == &state.logical_monitors,
            head_views(heads@) == mutter_heads(*state).take(i as int),
        decreases mons@.len() - i,
    {
        let mon = &mons[i];
        let li = find_logical(lms, &mon.connector);
        let mode = match find_current(&mon.modes) {
            Some(k) => Some(ModeInfo {
                width: mon.modes[k].width,
                height: mon.modes[k].height,
                refresh_mhz: mon.modes[k].refresh_mhz,
            }),
            None => None,
        };
        let h = match li {
            Some(l) => HeadState {
                name: mon.connector.clone(),
                enabled: true,
                mode,
                position: Some((lms[l].x, lms[l].y)),
                scale_bits: Some(lms[l].scale_bits),
                transform: logical_transform_exec(lms[l].transform),
            },
            None => HeadState {
                name: mon.connector.clone(),
                enabled: false,
                mode,
                position: None,
                scale_bits: None,
                transform: None,
            },
        };
        assert(h@ == mutter_head(*state, i as int));
        let ghost before = head_views(heads@);
        heads.push(h);
        assert(head_views(heads@) =~= before.push(mutter_head(*state, i as int)));
        assert(mutter_heads(*state).take(i as int + 1) =~= mutter_heads(*state).take(i as int).push(mutter_head(*state, i as int)));
        i = i + 1;
    }
    assert(mutter_heads(*state).take(i as int) =~= mutter_heads(*state));
    OutputSnapshot { heads }
}

fn normalize(cs: Vec<LogicalMonitorConfig>) -> (r: Vec<LogicalMonitorConfig>)
    requires
        placed_bounded(lmc_views(cs@)),
    ensures
        lmc_views(r@) == normalized(lmc_views(cs@)),
{
    let ghost cv = lmc_views(cs@);
    let n = cs.len();
    let mut dx: i128 = 0;
    let mut dy: i128 = 0;
    let mut i: usize = 0;
    while i < cs.len()
        invariant
            i <= cs@.len(),
            n == cs@.len(),
            cv == lmc_views(cs@),
            placed_bounded(cv),
            dx == min_x(cv.take(i as int)),
            dy == min_y(cv.take(i as int)),
            -coord_bound(n as int) <= dx <= coord_bound(n as int),
            in_i32(dy as int),
        decreases cs@.len() - i,
    {
        proof {
            assert(cv.take(i as int + 1).drop_last() =~= cv.take(i as int));
            assert(cv.take(i as int + 1).last() == cv[i as int]);
            assert(cv.take(i as int + 1)[0] == cv[0]);
            assert(-coord_bound(n as int) <= cv[i as int].x <= coord_bound(n as int) && in_i32(cv[i as int].y));
        }
        if i == 0 {
            dx = cs[0].x;
            dy = cs[0].y;
        } else {
            if cs[i].x < dx { dx = cs[i].x; }
            if cs[i].y < dy { dy = cs[i].y; }
        }
        i = i + 1;
    }
    assert(cv.take(i as int) =~= cv);
    let mut src = cs;
    let mut r: Vec<LogicalMonitorConfig> = Vec::new();
    let ghost target = normalized(cv);
    let mut k: usize = 0;
    while src.len() > 0
        invariant
            k <= cv.len(),
            n == cv.len(),
            placed_bounded(cv),
            -coord_bound(n as int) <= dx <= coord_bound(n as int),
            in_i32(dy as int),
            dx == min_x(cv),
            dy == min_y(cv),
            target == normalized(cv),
            lmc_views(src@) == cv.skip(k as int),
            src@.len() == cv.len() - k,
            lmc_views(r@) == target.take(k as int),
        decreases src@.len(),
    {
        let ghost raw = src@;
        let c = src.remove(0);
        proof {
            assert(src@ =~= raw.drop_first());
            assert(lmc_views(raw)[0] == cv.skip(k as int)[0]);
            assert(lmc_views(raw)[0] == raw[0]@);
            assert(lmc_views(raw)[0] == cv[k as int]);
            assert(c@ == cv[k as int]);
            assert(lmc_views(src@) =~= lmc_views(raw).drop_first());
            assert(lmc_views(src@) =~= cv.skip(k as int + 1));
            assert(-coord_bound(n as int) <= cv[k as int].x <= coord_bound(n as int) && in_i32(cv[k as int].y));
        }
        let LogicalMonitorConfig { x, y, scale_bits, transform, primary, monitors } = c;
        push_config(&mut r, LogicalMonitorConfig { x: x - dx, y: y - dy, scale_bits, transform, primary, monitors });
        assert(target.take(k as int + 1) =~= target.take(k as int).push(target[k as int]));
        k = k + 1;
    }
    assert(target.take(k as int) =~= target);
    r
}

impl OutputPlan {
    /// The layout Mutter should apply for this plan, given its current
    /// `state`: logical monitors the plan leaves alone are carried forward
    /// (losing their primary marker when the plan names a primary), each
    /// enabled output gets a logical monitor at its requested or current
    /// position (or right of everything placed so far) in the best
    /// matching mode, outputs not in the result are disabled by omission,
    /// and the layout is shifted to start at the origin.
    pub fn to_mutter_config(&self, state: &MutterState) -> (r: Vec<LogicalMonitorConfig>)
        ensures
            lmc_views(r@) == mutter_layout(*state, self@),
    {
        let es = self.enables();
        let n_es = es.len();
        let n_lms = state.logical_monitors.len();
        let primary = self.primary();
        assert(primary_seq(primary) =~= self@.primaries);
        let mut out = carried_configs_exec(state, self);
        let mut k: usize = 0;
        while k < es.len()
            invariant
                k <= es@.len(),
                n_es == es@.len(),
                n_lms == state.logical_monitors@.len(),
                enable_views(es@) == self@.enables,
                primary_seq(primary) == self@.primaries,
                lmc_views(out@) == raw_layout(*state, self@, k as nat),
                placed_bounded(lmc_views(out@)),
                out@.len() <= state.logical_monitors@.len() + k,
            decreases es@.len() - k,
        {
            proof {
                assert(self@.enables[k as int] == es@[k as int]@);
            }
            let ghost before = lmc_views(out@);
            match enable_config_exec(&es[k], &out, state, primary) {
                Some(c) => {
                    push_config(&mut out, c);
                    proof {
                        let after = lmc_views(out@);
                        assert forall|j: int| 0 <= j < after.len() implies
                            -coord_bound(after.len() as int) <= (#[trigger] after[j]).x <= coord_bound(after.len() as int)
                                && in_i32(after[j].y) by {
                            if j < before.len() {
                                assert(after[j] == before[j]);
                            }
                        }
                    }
                },
                None => {},
            }
            k = k + 1;
        }
        normalize(out)
    }
}

} // verus!
