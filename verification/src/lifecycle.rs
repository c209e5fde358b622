//! The decisions behind `up`, `down` and `reset`: which heads count as
//! real outputs, where a new head goes, which plan the compositor gets,
//! and how an earlier `up` is rolled back.

use vstd::prelude::*;
use vstd::string::StrSliceExecFns;
use crate::compositor::{
    EnableModel, EnableOutput, HeadModel, HeadState, ModeInfo, OutputPlan, OutputSnapshot,
    PlanErrorModel, PlanModel, active_enables_of, contains_name, copy_strings, disable_all_result,
    empty_plan, enable_all_result, enable_views, head_views, is_plan_error, primary_rejection,
    string_views, with_primary, lemma_enable_all_appends, lemma_disable_all_appends,
};
use crate::edid::{EdidSpec, spec_refresh_mhz};
use crate::error::Error;
use crate::state::{ActiveState, ChangesModel, HeadConfigured, InstanceRecord, LayoutChanges, RecordModel, record_views};
use crate::backend::{CreateOutcome, DisplayHandle, FeatureAcceptance, HandleModel};
use crate::text::owned;

verus! {

// ---------------------------------------------------------------------------
// Real outputs
// ---------------------------------------------------------------------------

/// `j` ends the part of `s` before its first `-` (or is its length when
/// there is none).
pub open spec fn segment_end(s: Seq<char>, j: int) -> bool {
    &&& 0 <= j <= s.len()
    &&& forall|i: int| 0 <= i < j ==> s[i] != '-'
    &&& (j == s.len() || s[j] == '-')
}

/// The part of `s` before its first `-`.
pub open spec fn first_segment(s: Seq<char>) -> Seq<char> {
    s.take(choose|j: int| segment_end(s, j))
}

/// True if `name` names a hardware connector: its part before the first
/// `-` is one of the connector kinds a GPU exposes.
pub open spec fn is_real_connector(name: Seq<char>) -> bool {
    let seg = first_segment(name);
    ||| seg == "DP"@
    ||| seg == "HDMI"@
    ||| seg == "eDP"@
    ||| seg == "DVI"@
    ||| seg == "VGA"@
    ||| seg == "DSI"@
    ||| seg == "LVDS"@
}

proof fn lemma_segment_end_unique(s: Seq<char>, j: int)
    requires
        segment_end(s, j),
    ensures
        first_segment(s) == s.take(j),
{
    let k = choose|k: int| segment_end(s, k);
    assert(segment_end(s, k));
    if k < j {
        assert(s[k] != '-');
    } else if j < k {
        assert(s[j] != '-');
    }
}

/// True if `name` looks like a hardware connector that
/// `--disable-real-outputs` should turn off.
pub fn is_real_output(name: &str) -> (r: bool)
    ensures
        r == is_real_connector(name@),
{
    let n = name.unicode_len();
    let mut j: usize = 0;
    while j < n
        invariant
            n == name@.len(),
            j <= n,
            forall|i: int| 0 <= i < j ==> name@[i] != '-',
        ensures
            j <= n,
            forall|i: int| 0 <= i < j ==> name@[i] != '-',
            j == n || name@[j as int] == '-',
        decreases n - j,
    {
        if name.get_char(j) == '-' {
            break;
        }
        j = j + 1;
    }
    proof {
        lemma_segment_end_unique(name@, j as int);
    }
    let seg = owned(name.substring_char(0, j));
    assert(seg@ == first_segment(name@));
    seg == owned("DP") || seg == owned("HDMI") || seg == owned("eDP") || seg == owned("DVI")
        || seg == owned("VGA") || seg == owned("DSI") || seg == owned("LVDS")
}

// ---------------------------------------------------------------------------
// The request
// ---------------------------------------------------------------------------

/// Caller-supplied parameters for `up`.
#[derive(Clone, Copy, Debug)]
pub struct UpRequest {
    pub spec: EdidSpec,
    /// Mark the new head as the compositor's primary output.
    pub make_primary: bool,
    /// Turn off every real output while the new head is active.
    pub disable_real_outputs: bool,
}

/// The compositor mode a request asks for: its size and the refresh the
/// EDID encodes, in millihertz.
pub open spec fn request_mode(req: UpRequest) -> ModeInfo {
    ModeInfo {
        width: req.spec.width as i32,
        height: req.spec.height as i32,
        refresh_mhz: spec_refresh_mhz(req.spec.refresh_hz) as i32,
    }
}

/// The enable request that brings `name` up at `pos` in the requested mode.
pub open spec fn request_enable(req: UpRequest, name: Seq<char>, pos: (i32, i32)) -> EnableModel {
    EnableModel { name, mode: Some(request_mode(req)), position: Some(pos) }
}

impl UpRequest {
    /// Map the requested resolution and refresh into a compositor mode.
    pub fn mode(&self) -> (m: ModeInfo)
        ensures
            m == request_mode(*self),
    {
        ModeInfo {
            width: self.spec.width as i32,
            height: self.spec.height as i32,
            refresh_mhz: self.spec.refresh_mhz(),
        }
    }

    /// The enable request for this spec at the given position.
    pub fn as_enable(&self, name: &str, position: (i32, i32)) -> (e: EnableOutput)
        ensures
            e@ == request_enable(*self, name@, position),
    {
        EnableOutput { name: owned(name), mode: Some(self.mode()), position: Some(position) }
    }
}

// ---------------------------------------------------------------------------
// Placing the new head
// ---------------------------------------------------------------------------

/// The right edge of an enabled head whose position and mode are known.
pub open spec fn head_right_edge(h: HeadModel) -> Option<int> {
    if h.enabled && h.position is Some && h.mode is Some {
        Some((h.position->0).0 + (h.mode->0).width)
    } else {
        None
    }
}

/// The largest right edge over `heads`, if any head has one.
pub open spec fn max_right_edge(heads: Seq<HeadModel>) -> Option<int>
    decreases heads.len(),
{
    if heads.len() == 0 {
        None
    } else {
        let rest = max_right_edge(heads.drop_last());
        match head_right_edge(heads.last()) {
            None => rest,
            Some(e) => match rest {
                None => Some(e),
                Some(m) => Some(if e > m { e } else { m }),
            },
        }
    }
}

/// Where a new head goes: right of everything placed, or at 0.
pub open spec fn new_head_x(heads: Seq<HeadModel>) -> int {
    match max_right_edge(heads) {
        Some(m) => m,
        None => 0,
    }
}

/// Every right edge fits the compositor's coordinate type.
pub open spec fn edges_fit(heads: Seq<HeadModel>) -> bool {
    forall|i: int| 0 <= i < heads.len() ==>
        (#[trigger] head_right_edge(heads[i]) matches Some(e) ==> i32::MIN <= e <= i32::MAX)
}

proof fn lemma_max_right_edge_fits(heads: Seq<HeadModel>)
    requires
        edges_fit(heads),
    ensures
        max_right_edge(heads) matches Some(m) ==> i32::MIN <= m <= i32::MAX,
    decreases heads.len(),
{
    if heads.len() > 0 {
        assert(edges_fit(heads.drop_last())) by {
            assert forall|i: int| 0 <= i < heads.drop_last().len() implies
                (#[trigger] head_right_edge(heads.drop_last()[i]) matches Some(e) ==> i32::MIN <= e <= i32::MAX) by {
                assert(heads.drop_last()[i] == heads[i]);
            }
        }
        lemma_max_right_edge_fits(heads.drop_last());
        assert(head_right_edge(heads[heads.len() - 1]) == head_right_edge(heads.last()));
    }
}

/// The x coordinate right of every placed head (0 when none has a known
/// extent).
pub fn right_edge(heads: &Vec<HeadState>) -> (x: i32)
    requires
        edges_fit(head_views(heads@)),
    ensures
        x == new_head_x(head_views(heads@)),
{
    let mut best: Option<i32> = None;
    let mut i: usize = 0;
    while i < heads.len()
        invariant
            i <= heads@.len(),
            edges_fit(head_views(heads@)),
            match best {
                Some(b) => max_right_edge(head_views(heads@.take(i as int))) == Some(b as int),
                None => max_right_edge(head_views(heads@.take(i as int))) is None,
            },
        decreases heads@.len() - i,
    {
        let h = &heads[i];
        proof {
            assert(head_views(heads@.take(i as int + 1)).drop_last() =~= head_views(heads@.take(i as int)));
            assert(head_views(heads@.take(i as int + 1)).last() == head_views(heads@)[i as int]);
            assert(head_right_edge(head_views(heads@)[i as int]) matches Some(e) ==> i32::MIN <= e <= i32::MAX);
        }
        if h.enabled {
            match (h.position, h.mode) {
                (Some(pos), Some(mode)) => {
                    let e = pos.0 + mode.width;
                    best = match best {
                        None => Some(e),
                        Some(m) => Some(if e > m { e } else { m }),
                    };
                },
                _ => {},
            }
        }
        i = i + 1;
    }
    assert(heads@.take(heads@.len() as int) =~= heads@);
    match best {
        Some(b) => b,
        None => 0,
    }
}

/// The enables of the first apply after the new head appears: every
/// currently active head where it is, plus the new head at `pos`.
pub open spec fn placement_enables(heads: Seq<HeadModel>, req: UpRequest, name: Seq<char>, pos: (i32, i32)) -> Seq<EnableModel> {
    active_enables_of(heads).push(request_enable(req, name, pos))
}

/// The new head never overlaps the existing layout: it goes at or right of
/// the right edge of every enabled head whose extent is known.
pub proof fn lemma_new_head_right_of_all(heads: Seq<HeadModel>)
    ensures
        forall|i: int| 0 <= i < heads.len() ==>
            (#[trigger] head_right_edge(heads[i]) matches Some(e) ==> e <= new_head_x(heads)),
    decreases heads.len(),
{
    if heads.len() > 0 {
        lemma_new_head_right_of_all(heads.drop_last());
        lemma_max_right_edge_is_max(heads);
    }
}

proof fn lemma_max_right_edge_is_max(heads: Seq<HeadModel>)
    ensures
        forall|i: int| 0 <= i < heads.len() ==>
            (#[trigger] head_right_edge(heads[i]) matches Some(e) ==> max_right_edge(heads) matches Some(m) && e <= m),
    decreases heads.len(),
{
    if heads.len() > 0 {
        lemma_max_right_edge_is_max(heads.drop_last());
        assert forall|i: int| 0 <= i < heads.len() implies
            (#[trigger] head_right_edge(heads[i]) matches Some(e) ==> max_right_edge(heads) matches Some(m) && e <= m) by {
            if i < heads.len() - 1 {
                assert(heads[i] == heads.drop_last()[i]);
            }
        }
    }
}

/// Build the plan that enables the new head `head_name` at the right of
/// the layout captured in `pre_create`, keeping every active head where
/// it is. Returns the plan and the chosen position.
pub fn placement_plan(pre_create: &OutputSnapshot, req: &UpRequest, head_name: &str) -> (r: Result<(OutputPlan, (i32, i32)), Error>)
    requires
        edges_fit(head_views(pre_create.heads@)),
    ensures
        ({
            let heads = head_views(pre_create.heads@);
            let pos = (new_head_x(heads) as i32, 0i32);
            let res = enable_all_result(empty_plan(), placement_enables(heads, *req, head_name@, pos));
            &&& r is Ok <==> res is Ok
            &&& r matches Ok((p, q)) ==> p@ == res->Ok_0 && q == pos && new_head_x(heads) == pos.0
            &&& r matches Err(e) ==> is_plan_error(e, res->Err_0)
        }),
{
    let ghost heads = head_views(pre_create.heads@);
    let mut enables = pre_create.active_enables();
    let x = right_edge(&pre_create.heads);
    let pos = (x, 0i32);
    enables.push(req.as_enable(head_name, pos));
    assert(enable_views(enables@) =~= placement_enables(heads, *req, head_name@, pos));
    match OutputPlan::builder().enable_all(enables) {
        Ok(b) => Ok((b.build(), pos)),
        Err(e) => Err(e),
    }
}

/// Where the new head ends up once the layout pass runs: at the origin
/// when real outputs are being turned off (so the cursor is not left
/// where they used to be), else where it was first placed.
pub fn attach_position(req: &UpRequest, placed: (i32, i32)) -> (pos: (i32, i32))
    ensures
        pos == (if req.disable_real_outputs { (0i32, 0i32) } else { placed }),
{
    if req.disable_real_outputs {
        (0, 0)
    } else {
        placed
    }
}

// ---------------------------------------------------------------------------
// The layout pass
// ---------------------------------------------------------------------------

/// An enabled hardware connector.
pub open spec fn real_enabled(h: HeadModel) -> bool {
    h.enabled && is_real_connector(h.name)
}

/// The first enabled real output, if any.
pub open spec fn first_real_enabled(heads: Seq<HeadModel>) -> Option<Seq<char>>
    decreases heads.len(),
{
    if heads.len() == 0 {
        None
    } else if real_enabled(heads[0]) {
        Some(heads[0].name)
    } else {
        first_real_enabled(heads.drop_first())
    }
}

/// The names of every enabled real output, in order.
pub open spec fn real_enabled_names(heads: Seq<HeadModel>) -> Seq<Seq<char>>
    decreases heads.len(),
{
    if heads.len() == 0 {
        Seq::empty()
    } else {
        let rest = real_enabled_names(heads.drop_last());
        if real_enabled(heads.last()) { rest.push(heads.last().name) } else { rest }
    }
}

/// `es` without the requests for any of `names`.
pub open spec fn without_names(es: Seq<EnableModel>, names: Seq<Seq<char>>) -> Seq<EnableModel>
    decreases es.len(),
{
    if es.len() == 0 {
        Seq::empty()
    } else {
        let rest = without_names(es.drop_last(), names);
        if names.contains(es.last().name) { rest } else { rest.push(es.last()) }
    }
}

/// The real outputs the layout pass turns off.
pub open spec fn layout_disabled(heads: Seq<HeadModel>, req: UpRequest) -> Seq<Seq<char>> {
    if req.disable_real_outputs { real_enabled_names(heads) } else { Seq::empty() }
}

/// The primary `down` should restore: a best guess at the current one.
pub open spec fn layout_previous_primary(heads: Seq<HeadModel>, req: UpRequest) -> Option<Seq<char>> {
    if req.make_primary { first_real_enabled(heads) } else { None }
}

/// Every active head that stays on, where it is, plus the new head.
pub open spec fn layout_enables(heads: Seq<HeadModel>, req: UpRequest, name: Seq<char>, pos: (i32, i32)) -> Seq<EnableModel> {
    without_names(active_enables_of(heads), layout_disabled(heads, req)).push(request_enable(req, name, pos))
}

/// The plan of the layout pass, or the rule it breaks.
pub open spec fn layout_result(heads: Seq<HeadModel>, req: UpRequest, name: Seq<char>, pos: (i32, i32)) -> Result<PlanModel, PlanErrorModel> {
    match enable_all_result(empty_plan(), layout_enables(heads, req, name, pos)) {
        Err(e) => Err(e),
        Ok(m1) => match disable_all_result(m1, layout_disabled(heads, req)) {
            Err(e) => Err(e),
            Ok(m2) => if req.make_primary {
                match primary_rejection(m2, name) {
                    Some(e) => Err(e),
                    None => Ok(with_primary(m2, name)),
                }
            } else {
                Ok(m2)
            },
        },
    }
}

proof fn lemma_real_enabled_members(heads: Seq<HeadModel>)
    ensures
        forall|x: Seq<char>| real_enabled_names(heads).contains(x) <==> exists|i: int| 0 <= i < heads.len()
            && (#[trigger] heads[i]).enabled && is_real_connector(heads[i].name) && heads[i].name == x,
    decreases heads.len(),
{
    if heads.len() > 0 {
        let p = heads.drop_last();
        lemma_real_enabled_members(p);
        assert forall|x: Seq<char>| real_enabled_names(heads).contains(x) <==> exists|i: int| 0 <= i < heads.len()
            && (#[trigger] heads[i]).enabled && is_real_connector(heads[i].name) && heads[i].name == x by {
            let rest = real_enabled_names(p);
            if real_enabled_names(heads).contains(x) {
                if rest.contains(x) {
                    let i = choose|i: int| 0 <= i < p.len() && (#[trigger] p[i]).enabled
                        && is_real_connector(p[i].name) && p[i].name == x;
                    assert(heads[i] == p[i]);
                } else {
                    assert(real_enabled(heads.last()));
                    let r2 = rest.push(heads.last().name);
                    let j = choose|j: int| 0 <= j < r2.len() && r2[j] == x;
                    assert(heads[heads.len() - 1] == heads.last());
                }
            }
            if exists|i: int| 0 <= i < heads.len() && (#[trigger] heads[i]).enabled
                && is_real_connector(heads[i].name) && heads[i].name == x {
                let i = choose|i: int| 0 <= i < heads.len() && (#[trigger] heads[i]).enabled
                    && is_real_connector(heads[i].name) && heads[i].name == x;
                if i < p.len() {
                    assert(p[i] == heads[i]);
                    assert(rest.contains(x));
                    let j = choose|j: int| 0 <= j < rest.len() && rest[j] == x;
                    if real_enabled(heads.last()) {
                        assert(rest.push(heads.last().name)[j] == x);
                    }
                } else {
                    assert(heads.last() == heads[i]);
                    assert(rest.push(heads.last().name)[rest.len() as int] == x);
                }
            }
        }
    }
}

/// The plan of the layout pass asks for what `up` was asked and nothing
/// more: it enables the new head last, at its position in the requested
/// mode; it turns off exactly the real outputs that are on, and only when
/// asked to; and it names the new head primary exactly when asked to.
pub proof fn lemma_layout_plan_rules(heads: Seq<HeadModel>, req: UpRequest, name: Seq<char>, pos: (i32, i32))
    ensures
        layout_result(heads, req, name, pos) matches Ok(p) ==> {
            &&& p.enables.len() > 0
            &&& p.enables.last() == (EnableModel { name, mode: Some(request_mode(req)), position: Some(pos) })
            &&& forall|x: Seq<char>| p.disables.contains(x) <==> (req.disable_real_outputs
                && exists|i: int| 0 <= i < heads.len() && (#[trigger] heads[i]).enabled
                    && is_real_connector(heads[i].name) && heads[i].name == x)
            &&& req.make_primary ==> p.primaries == seq![name]
            &&& !req.make_primary ==> p.primaries.len() == 0
        },
{
    let es = layout_enables(heads, req, name, pos);
    let ds = layout_disabled(heads, req);
    lemma_enable_all_appends(empty_plan(), es);
    lemma_real_enabled_members(heads);
    match enable_all_result(empty_plan(), es) {
        Err(_) => {},
        Ok(m1) => {
            assert(m1.enables =~= es);
            lemma_disable_all_appends(m1, ds);
            match disable_all_result(m1, ds) {
                Err(_) => {},
                Ok(m2) => {
                    assert(m2.disables =~= ds);
                    assert(m2.enables == es);
                },
            }
        },
    }
}

fn first_real(heads: &Vec<HeadState>) -> (r: Option<String>)
    ensures
        crate::state::opt_string_view(r) == first_real_enabled(head_views(heads@)),
{
    let mut i: usize = 0;
    assert(head_views(heads@).skip(0) =~= head_views(heads@));
    while i < heads.len()
        invariant
            i <= heads@.len(),
            first_real_enabled(head_views(heads@)) == first_real_enabled(head_views(heads@).skip(i as int)),
        decreases heads@.len() - i,
    {
        proof {
            assert(head_views(heads@).skip(i as int).drop_first() =~= head_views(heads@).skip(i as int + 1));
        }
        if heads[i].enabled && is_real_output(heads[i].name.as_str()) {
            return Some(heads[i].name.clone());
        }
        i = i + 1;
    }
    None
}

fn real_names(heads: &Vec<HeadState>) -> (r: Vec<String>)
    ensures
        string_views(r@) == real_enabled_names(head_views(heads@)),
{
    let mut r: Vec<String> = Vec::new();
    let mut i: usize = 0;
    while i < heads.len()
        invariant
            i <= heads@.len(),
            string_views(r@) == real_enabled_names(head_views(heads@.take(i as int))),
        decreases heads@.len() - i,
    {
        proof {
            assert(head_views(heads@.take(i as int + 1)).drop_last() =~= head_views(heads@.take(i as int)));
            assert(head_views(heads@.take(i as int + 1)).last() == heads@[i as int]@);
        }
        if heads[i].enabled && is_real_output(heads[i].name.as_str()) {
            let ghost before = string_views(r@);
            r.push(heads[i].name.clone());
            assert(string_views(r@) =~= before.push(heads@[i as int]@.name));
        }
        i = i + 1;
    }
    assert(heads@.take(heads@.len() as int) =~= heads@);
    r
}

/// Build the plan of the layout pass for the new head `new_head_name` at
/// `new_head_position`: keep every active head where it is, turn off the
/// real outputs when asked to, and make the new head primary when asked
/// to. Returns the plan and the changes `down` has to reverse.
pub fn layout_plan(pre_create: &OutputSnapshot, req: &UpRequest, new_head_name: &str, new_head_position: (i32, i32))
    -> (r: Result<(OutputPlan, LayoutChanges), Error>)
    ensures
        ({
            let heads = head_views(pre_create.heads@);
            let res = layout_result(heads, *req, new_head_name@, new_head_position);
            &&& r is Ok <==> res is Ok
            &&& r matches Ok((p, c)) ==> p@ == res->Ok_0
                && c@ == (ChangesModel {
                    disabled_outputs: layout_disabled(heads, *req),
                    previous_primary: layout_previous_primary(heads, *req),
                })
            &&& r matches Err(e) ==> is_plan_error(e, res->Err_0)
        }),
{
    let ghost heads = head_views(pre_create.heads@);
    let previous_primary = if req.make_primary { first_real(&pre_create.heads) } else { None };
    let disabled: Vec<String> = if req.disable_real_outputs { real_names(&pre_create.heads) } else { Vec::new() };
    assert(string_views(disabled@) =~= layout_disabled(heads, *req));

    let mut active = pre_create.active_enables();
    let ghost all = enable_views(active@);
    let mut enable: Vec<EnableOutput> = Vec::new();
    let mut k: usize = 0;
    assert(all.skip(0) =~= all);
    assert(all.len() == active.len());
    while active.len() > 0
        invariant
            k <= all.len(),
            all.len() <= usize::MAX,
            enable_views(active@) == all.skip(k as int),
            enable_views(enable@) == without_names(all.take(k as int), string_views(disabled@)),
        decreases active@.len(),
    {
        let ghost act = enable_views(active@);
        let ghost raw = active@;
        let e = active.remove(0);
        proof {
            assert(active@ =~= raw.drop_first());
            assert(enable_views(active@) =~= act.drop_first());
            assert(act.len() == all.len() - k);
            assert(e@ == act[0]);
            assert(act[0] == all[k as int]);
            assert(all.take(k as int + 1).drop_last() =~= all.take(k as int));
            assert(all.take(k as int + 1).last() == e@);
            assert(enable_views(active@) =~= all.skip(k as int + 1));
        }
        if !contains_name(&disabled, &e.name) {
            let ghost before = enable_views(enable@);
            let ghost ev = e@;
            enable.push(e);
            assert(enable_views(enable@) =~= before.push(ev));
        }
        k = k + 1;
    }
    proof {
        assert(all.skip(k as int).len() == 0);
        assert(all.take(k as int) =~= all);
    }
    let ghost kept = enable_views(enable@);
    enable.push(req.as_enable(new_head_name, new_head_position));
    assert(enable_views(enable@) =~= layout_enables(heads, *req, new_head_name@, new_head_position));

    let b = match OutputPlan::builder().enable_all(enable) {
        Ok(b) => b,
        Err(e) => { return Err(e); },
    };
    let mut b = match b.disable_all(copy_strings(&disabled)) {
        Ok(b) => b,
        Err(e) => { return Err(e); },
    };
    if req.make_primary {
        b = match b.set_primary(new_head_name) {
            Ok(b) => b,
            Err(e) => { return Err(e); },
        };
    }
    Ok((b.build(), LayoutChanges { disabled_outputs: disabled, previous_primary }))
}

// ---------------------------------------------------------------------------
// Rolling back
// ---------------------------------------------------------------------------

/// The compositor name of every head an `up` configured, oldest first;
/// a record without a head name falls back to its kernel-side id.
pub open spec fn restore_disable_names(recs: Seq<RecordModel>) -> Seq<Seq<char>>
    decreases recs.len(),
{
    if recs.len() == 0 {
        Seq::empty()
    } else {
        let rest = restore_disable_names(recs.drop_last());
        let r = recs.last();
        if r.configured {
            rest.push(match r.head_name { Some(n) => n, None => r.handle.local_id })
        } else {
            rest
        }
    }
}

/// Every real output any record turned off, oldest record first.
pub open spec fn all_disabled(recs: Seq<RecordModel>) -> Seq<Seq<char>>
    decreases recs.len(),
{
    if recs.len() == 0 {
        Seq::empty()
    } else {
        all_disabled(recs.drop_last()) + recs.last().changes.disabled_outputs
    }
}

/// `s` with every repeat of an earlier entry dropped.
pub open spec fn dedup(s: Seq<Seq<char>>) -> Seq<Seq<char>>
    decreases s.len(),
{
    if s.len() == 0 {
        Seq::empty()
    } else {
        let d = dedup(s.drop_last());
        if d.contains(s.last()) { d } else { d.push(s.last()) }
    }
}

/// The oldest recorded previous primary: what was primary before any `up`.
pub open spec fn first_previous_primary(recs: Seq<RecordModel>) -> Option<Seq<char>>
    decreases recs.len(),
{
    if recs.len() == 0 {
        None
    } else {
        match recs[0].changes.previous_primary {
            Some(p) => Some(p),
            None => first_previous_primary(recs.drop_first()),
        }
    }
}

/// The oldest recorded layout snapshot.
pub open spec fn first_snapshot(recs: Seq<RecordModel>) -> Option<Seq<HeadModel>>
    decreases recs.len(),
{
    if recs.len() == 0 {
        None
    } else {
        match recs[0].snapshot {
            Some(s) => Some(s),
            None => first_snapshot(recs.drop_first()),
        }
    }
}

/// The first head named `name`.
pub open spec fn find_head(heads: Seq<HeadModel>, name: Seq<char>) -> Option<HeadModel>
    decreases heads.len(),
{
    if heads.len() == 0 {
        None
    } else if heads[0].name == name {
        Some(heads[0])
    } else {
        find_head(heads.drop_first(), name)
    }
}

pub open spec fn find_in(heads: Option<Seq<HeadModel>>, name: Seq<char>) -> Option<HeadModel> {
    match heads {
        Some(hs) => find_head(hs, name),
        None => None,
    }
}

/// Re-enable `name` at its recorded mode and position, or, for a field
/// the record lacks, at the live one.
pub open spec fn restored_enable(name: Seq<char>, snap: Option<Seq<HeadModel>>, live: Option<Seq<HeadModel>>) -> EnableModel {
    let sh = find_in(snap, name);
    let lh = find_in(live, name);
    EnableModel {
        name,
        mode: if sh matches Some(h) && h.mode is Some { sh->0.mode } else if lh is Some { lh->0.mode } else { None },
        position: if sh matches Some(h) && h.position is Some { sh->0.position } else if lh is Some { lh->0.position } else { None },
    }
}

proof fn lemma_dedup(s: Seq<Seq<char>>)
    ensures
        dedup(s).no_duplicates(),
        forall|x: Seq<char>| dedup(s).contains(x) <==> s.contains(x),
    decreases s.len(),
{
    if s.len() > 0 {
        let p = s.drop_last();
        let l = s.last();
        lemma_dedup(p);
        let d = dedup(p);
        assert forall|x: Seq<char>| #[trigger] s.contains(x) implies dedup(s).contains(x) by {
            let i = choose|i: int| 0 <= i < s.len() && s[i] == x;
            if i < s.len() - 1 {
                assert(p[i] == x);
                assert(p.contains(x));
                assert(d.contains(x));
                let k = choose|k: int| 0 <= k < d.len() && d[k] == x;
                if !d.contains(l) {
                    assert(d.push(l)[k] == x);
                }
            } else {
                if !d.contains(l) {
                    assert(d.push(l)[d.len() as int] == l);
                }
            }
        }
        assert forall|x: Seq<char>| #[trigger] dedup(s).contains(x) implies s.contains(x) by {
            if d.contains(x) {
                assert(p.contains(x));
                let j = choose|j: int| 0 <= j < p.len() && p[j] == x;
                assert(s[j] == x);
            } else {
                assert(!d.contains(l));
                let k = choose|k: int| 0 <= k < d.push(l).len() && d.push(l)[k] == x;
                assert(k == d.len());
                assert(s[s.len() - 1] == x);
            }
        }
        if !d.contains(l) {
            assert forall|i: int, j: int| 0 <= i < d.push(l).len() && 0 <= j < d.push(l).len() && i != j
                implies d.push(l)[i] != d.push(l)[j] by {
                if i < d.len() && j < d.len() {
                } else if i == d.len() {
                    assert(d[j] == d.push(l)[j]);
                } else {
                    assert(d[i] == d.push(l)[i]);
                }
            }
        }
    }
}

/// Rolling back re-enables every real output any recorded `up` turned
/// off, each exactly once, and turns off exactly the heads the recorded
/// `up`s configured, oldest first.
pub proof fn lemma_restore_covers_each_once(recs: Seq<RecordModel>, live: Option<Seq<HeadModel>>)
    ensures
        head_enable_names(restore_enables(recs, live)).no_duplicates(),
        forall|x: Seq<char>| head_enable_names(restore_enables(recs, live)).contains(x) <==> all_disabled(recs).contains(x),
        disable_result(recs) == disable_all_result(empty_plan(), restore_disable_names(recs)),
{
    lemma_dedup(all_disabled(recs));
    assert(head_enable_names(restore_enables(recs, live)) =~= dedup(all_disabled(recs)));
}

/// The names of a list of enable requests.
pub open spec fn head_enable_names(es: Seq<EnableModel>) -> Seq<Seq<char>> {
    es.map_values(|e: EnableModel| e.name)
}

/// The enables of the first restore phase.
pub open spec fn restore_enables(recs: Seq<RecordModel>, live: Option<Seq<HeadModel>>) -> Seq<EnableModel> {
    dedup(all_disabled(recs)).map_values(|n: Seq<char>| restored_enable(n, first_snapshot(recs), live))
}

/// The first restore phase: re-enable the real outputs and give primary
/// back. There is none when it would change nothing.
pub open spec fn reenable_result(recs: Seq<RecordModel>, live: Option<Seq<HeadModel>>) -> Option<Result<PlanModel, PlanErrorModel>> {
    let es = restore_enables(recs, live);
    let pp = first_previous_primary(recs);
    if es.len() == 0 && pp is None {
        None
    } else {
        Some(match enable_all_result(empty_plan(), es) {
            Err(e) => Err(e),
            Ok(m) => match pp {
                None => Ok(m),
                Some(p) => match primary_rejection(m, p) {
                    Some(e) => Err(e),
                    None => Ok(with_primary(m, p)),
                },
            },
        })
    }
}

/// The second restore phase: turn off every head an `up` configured.
pub open spec fn disable_result(recs: Seq<RecordModel>) -> Result<PlanModel, PlanErrorModel> {
    disable_all_result(empty_plan(), restore_disable_names(recs))
}

pub open spec fn plan_matches(r: Result<OutputPlan, Error>, m: Result<PlanModel, PlanErrorModel>) -> bool {
    match m {
        Ok(pm) => r matches Ok(p) && p@ == pm,
        Err(em) => r matches Err(e) && is_plan_error(e, em),
    }
}

/// The two plans that undo every recorded `up` at once.
pub struct RestorePlans {
    /// Re-enable the real outputs and restore the primary, when there is
    /// anything to restore.
    pub reenable: Option<Result<OutputPlan, Error>>,
    /// Turn off the heads the recorded `up`s configured.
    pub disable: Result<OutputPlan, Error>,
}

fn restore_disable_list(instances: &Vec<InstanceRecord>) -> (r: Vec<String>)
    ensures
        string_views(r@) == restore_disable_names(record_views(instances@)),
{
    let mut r: Vec<String> = Vec::new();
    let mut i: usize = 0;
    while i < instances.len()
        invariant
            i <= instances@.len(),
            string_views(r@) == restore_disable_names(record_views(instances@.take(i as int))),
        decreases instances@.len() - i,
    {
        let rec = &instances[i];
        proof {
            assert(record_views(instances@.take(i as int + 1)).drop_last() =~= record_views(instances@.take(i as int)));
            assert(record_views(instances@.take(i as int + 1)).last() == rec@);
        }
        if rec.compositor_configured {
            let ghost before = string_views(r@);
            let name = match &rec.compositor_head_name {
                Some(n) => n.clone(),
                None => rec.handle.local_id.clone(),
            };
            r.push(name);
            assert(string_views(r@) =~= before.push(
                match rec@.head_name { Some(n) => n, None => rec@.handle.local_id }));
        }
        i = i + 1;
    }
    assert(instances@.take(instances@.len() as int) =~= instances@);
    r
}

fn reenable_names(instances: &Vec<InstanceRecord>) -> (r: Vec<String>)
    ensures
        string_views(r@) == dedup(all_disabled(record_views(instances@))),
{
    let mut r: Vec<String> = Vec::new();
    let mut i: usize = 0;
    while i < instances.len()
        invariant
            i <= instances@.len(),
            string_views(r@) == dedup(all_disabled(record_views(instances@.take(i as int)))),
        decreases instances@.len() - i,
    {
        let names = &instances[i].layout_changes.disabled_outputs;
        let ghost prefix = all_disabled(record_views(instances@.take(i as int)));
        let ghost ns = string_views(names@);
        let mut j: usize = 0;
        assert(prefix + ns.take(0) =~= prefix);
        while j < names.len()
            invariant
                j <= names@.len(),
                ns == string_views(names@),
                string_views(r@) == dedup(prefix + ns.take(j as int)),
            decreases names@.len() - j,
        {
            let ghost s = prefix + ns.take(j as int);
            proof {
                assert((prefix + ns.take(j as int + 1)).drop_last() =~= s);
                assert((prefix + ns.take(j as int + 1)).last() == names@[j as int]@);
            }
            if !contains_name(&r, &names[j]) {
                let ghost before = string_views(r@);
                r.push(names[j].clone());
                assert(string_views(r@) =~= before.push(names@[j as int]@));
            }
            j = j + 1;
        }
        proof {
            assert(ns.take(ns.len() as int) =~= ns);
            assert(record_views(instances@.take(i as int + 1)).drop_last() =~= record_views(instances@.take(i as int)));
            assert(record_views(instances@.take(i as int + 1)).last() == instances@[i as int]@);
        }
        i = i + 1;
    }
    assert(instances@.take(instances@.len() as int) =~= instances@);
    r
}

fn oldest_previous_primary(instances: &Vec<InstanceRecord>) -> (r: Option<String>)
    ensures
        crate::state::opt_string_view(r) == first_previous_primary(record_views(instances@)),
{
    let mut i: usize = 0;
    assert(record_views(instances@).skip(0) =~= record_views(instances@));
    while i < instances.len()
        invariant
            i <= instances@.len(),
            first_previous_primary(record_views(instances@)) == first_previous_primary(record_views(instances@).skip(i as int)),
        decreases instances@.len() - i,
    {
        proof {
            assert(record_views(instances@).skip(i as int).drop_first() =~= record_views(instances@).skip(i as int + 1));
        }
        match &instances[i].layout_changes.previous_primary {
            Some(p) => { return Some(p.clone()); },
            None => {},
        }
        i = i + 1;
    }
    None
}

fn oldest_snapshot(instances: &Vec<InstanceRecord>) -> (r: Option<&OutputSnapshot>)
    ensures
        match r {
            Some(s) => first_snapshot(record_views(instances@)) == Some(head_views(s.heads@)),
            None => first_snapshot(record_views(instances@)) is None,
        },
{
    let mut i: usize = 0;
    assert(record_views(instances@).skip(0) =~= record_views(instances@));
    while i < instances.len()
        invariant
            i <= instances@.len(),
            first_snapshot(record_views(instances@)) == first_snapshot(record_views(instances@).skip(i as int)),
        decreases instances@.len() - i,
    {
        proof {
            assert(record_views(instances@).skip(i as int).drop_first() =~= record_views(instances@).skip(i as int + 1));
        }
        match &instances[i].compositor_snapshot {
            Some(s) => { return Some(s); },
            None => {},
        }
        i = i + 1;
    }
    None
}

fn find_head_index(heads: &Vec<HeadState>, name: &String) -> (r: Option<usize>)
    ensures
        match r {
            Some(k) => k < heads@.len() && find_head(head_views(heads@), name@) == Some(heads@[k as int]@),
            None => find_head(head_views(heads@), name@) is None,
        },
{
    let mut i: usize = 0;
    assert(head_views(heads@).skip(0) =~= head_views(heads@));
    while i < heads.len()
        invariant
            i <= heads@.len(),
            find_head(head_views(heads@), name@) == find_head(head_views(heads@).skip(i as int), name@),
        decreases heads@.len() - i,
    {
        proof {
            assert(head_views(heads@).skip(i as int).drop_first() =~= head_views(heads@).skip(i as int + 1));
        }
        if heads[i].name == *name {
            return Some(i);
        }
        i = i + 1;
    }
    None
}

fn find_in_snapshot(snap: Option<&OutputSnapshot>, name: &String) -> (r: Option<HeadState>)
    ensures
        match r {
            Some(h) => find_in(match snap { Some(s) => Some(head_views(s.heads@)), None => None }, name@) == Some(h@),
            None => find_in(match snap { Some(s) => Some(head_views(s.heads@)), None => None }, name@) is None,
        },
{
    match snap {
        Some(s) => match find_head_index(&s.heads, name) {
            Some(k) => Some(s.heads[k].duplicate()),
            None => None,
        },
        None => None,
    }
}

/// Build the plans that undo every recorded `up` in one go: first
/// re-enable the union of the real outputs any `up` turned off (at their
/// recorded mode and position, falling back to the `live` layout) and
/// give primary back to the oldest recorded previous primary; then turn
/// off every head an `up` configured.
pub fn restore_plans(instances: &Vec<InstanceRecord>, live: Option<&OutputSnapshot>) -> (r: RestorePlans)
    ensures
        ({
            let recs = record_views(instances@);
            let lv = match live { Some(s) => Some(head_views(s.heads@)), None => None };
            &&& match reenable_result(recs, lv) {
                None => r.reenable is None,
                Some(m) => r.reenable matches Some(p) && plan_matches(p, m),
            }
            &&& plan_matches(r.disable, disable_result(recs))
        }),
{
    let ghost recs = record_views(instances@);
    let ghost lv = match live { Some(s) => Some(head_views(s.heads@)), None => None };
    let to_disable = restore_disable_list(instances);
    let names = reenable_names(instances);
    let previous_primary = oldest_previous_primary(instances);
    let original = oldest_snapshot(instances);
    let ghost snap = first_snapshot(recs);

    let mut enables: Vec<EnableOutput> = Vec::new();
    let mut k: usize = 0;
    while k < names.len()
        invariant
            k <= names@.len(),
            string_views(names@) == dedup(all_disabled(recs)),
            snap == first_snapshot(recs),
            match original { Some(s) => snap == Some(head_views(s.heads@)), None => snap is None },
            lv == (match live { Some(s) => Some(head_views(s.heads@)), None => None::<Seq<HeadModel>> }),
            enable_views(enables@) == restore_enables(recs, lv).take(k as int),
        decreases names@.len() - k,
    {
        let name = &names[k];
        let sh = find_in_snapshot(original, name);
        let lh = find_in_snapshot(live, name);
        let mode = match &sh {
            Some(h) if h.mode.is_some() => h.mode,
            _ => match &lh { Some(h) => h.mode, None => None },
        };
        let position = match &sh {
            Some(h) if h.position.is_some() => h.position,
            _ => match &lh { Some(h) => h.position, None => None },
        };
        let ghost before = enable_views(enables@);
        enables.push(EnableOutput { name: name.clone(), mode, position });
        proof {
            assert(restore_enables(recs, lv)[k as int] == restored_enable(names@[k as int]@, snap, lv));
            assert(enable_views(enables@) =~= before.push(restored_enable(names@[k as int]@, snap, lv)));
            assert(restore_enables(recs, lv).take(k as int + 1) =~= restore_enables(recs, lv).take(k as int).push(
                restore_enables(recs, lv)[k as int]));
        }
        k = k + 1;
    }
    assert(restore_enables(recs, lv).take(k as int) =~= restore_enables(recs, lv));

    let reenable = if enables.len() > 0 || previous_primary.is_some() {
        Some(match OutputPlan::builder().enable_all(enables) {
            Err(e) => Err(e),
            Ok(b) => match previous_primary {
                None => Ok(b.build()),
                Some(p) => match b.set_primary(p.as_str()) {
                    Err(e) => Err(e),
                    Ok(b) => Ok(b.build()),
                },
            },
        })
    } else {
        None
    };
    let disable = match OutputPlan::builder().disable_all(to_disable) {
        Err(e) => Err(e),
        Ok(b) => Ok(b.build()),
    };
    RestorePlans { reenable, disable }
}

// ---------------------------------------------------------------------------
// The `up` flow
// ---------------------------------------------------------------------------

/// What `up` produced, including the partial successes the caller should
/// warn about.
pub struct UpOutcome {
    pub handle: DisplayHandle,
    pub edid_applied: bool,
    /// HDR metadata is not supported by any backend yet, so this is always
    /// false.
    pub hdr_properties_attached: bool,
    pub compositor_configured: bool,
    pub compositor_position: Option<(i32, i32)>,
}

/// Where the `up` flow stands.
#[derive(Clone, Copy, Debug, PartialEq, Eq, Structural)]
pub enum UpPhase {
    /// Waiting for the backend prerequisites check.
    Checking,
    /// Waiting for the compositor's layout before the create.
    Snapshotting,
    /// Waiting for the kernel-side create.
    Creating,
    /// Waiting for the new instance to be recorded.
    Recording,
    /// Waiting for the compositor to show the new head.
    Waiting,
    /// Waiting for the plan that places the new head.
    Placing,
    /// Waiting for the layout pass.
    Arranging,
    /// Waiting for the compositor outcome to be recorded.
    Saving,
    Finished,
}

/// What the caller reports back to the flow.
pub enum UpEvent {
    Checked(Result<(), Error>),
    /// The compositor's layout, or `None` when it could not be read.
    Snapshotted(Option<OutputSnapshot>),
    Created(Result<CreateOutcome, Error>),
    Recorded(Result<(), Error>),
    HeadAppeared(Result<HeadState, Error>),
    Applied(Result<(), Error>),
    Saved(Result<(), Error>),
}

/// What the flow asks the caller to do next.
pub enum UpAction {
    /// Check the backend's prerequisites.
    CheckAvailable,
    /// Read the compositor's layout.
    Snapshot,
    /// Create the kernel-side display.
    Create(EdidSpec),
    /// Append this record to the state file.
    Record(InstanceRecord),
    /// Wait (for up to a second) for a head whose name is not among these.
    WaitForHead(Vec<String>),
    /// Apply this plan on the compositor.
    Apply(OutputPlan),
    /// Record the compositor outcome on the instance with this local id.
    Save { local_id: String, update: HeadConfigured },
    /// The flow is over.
    Finish(Result<UpOutcome, Error>),
}

/// State of one `up`.
pub struct UpFlow {
    req: UpRequest,
    has_compositor: bool,
    phase: UpPhase,
    pre_create: OutputSnapshot,
    created: Option<CreateOutcome>,
    head_name: String,
    placed: (i32, i32),
    position: (i32, i32),
    changes: Option<LayoutChanges>,
}

/// The names of `heads`.
pub open spec fn head_names(heads: Seq<HeadModel>) -> Seq<Seq<char>> {
    heads.map_values(|h: HeadModel| h.name)
}

/// The record of a fresh instance: not yet configured on the compositor,
/// with the layout taken just before it was created.
pub open spec fn fresh_record(handle: HandleModel, spec: EdidSpec, pre: Seq<HeadModel>) -> RecordModel {
    RecordModel {
        handle,
        head_name: None,
        spec,
        snapshot: Some(pre),
        configured: false,
        changes: ChangesModel { disabled_outputs: Seq::empty(), previous_primary: None },
    }
}

/// The outcome `up` reports for the created display.
pub open spec fn outcome_is(o: UpOutcome, created: CreateOutcome, configured: bool, position: Option<(i32, i32)>) -> bool {
    &&& o.handle@ == created.handle@
    &&& o.edid_applied == created.feature_acceptance.edid_applied
    &&& !o.hdr_properties_attached
    &&& o.compositor_configured == configured
    &&& o.compositor_position == position
}

impl UpFlow {
    pub closed spec fn phase(&self) -> UpPhase { self.phase }
    pub closed spec fn request(&self) -> UpRequest { self.req }
    pub closed spec fn with_compositor(&self) -> bool { self.has_compositor }
    pub closed spec fn pre_heads(&self) -> Seq<HeadModel> { head_views(self.pre_create.heads@) }
    pub closed spec fn created(&self) -> Option<CreateOutcome> { self.created }
    pub closed spec fn new_head(&self) -> Seq<char> { self.head_name@ }
    pub closed spec fn placed_at(&self) -> (i32, i32) { self.placed }
    pub closed spec fn positioned_at(&self) -> (i32, i32) { self.position }

    /// The flow's own bookkeeping holds together: once the display exists
    /// its outcome is kept, and the recorded layout can be placed against.
    pub closed spec fn wf(&self) -> bool {
        &&& edges_fit(head_views(self.pre_create.heads@))
        &&& (self.phase == UpPhase::Checking || self.phase == UpPhase::Snapshotting || self.phase == UpPhase::Creating)
            ==> self.created is None
        &&& (self.phase == UpPhase::Recording || self.phase == UpPhase::Waiting || self.phase == UpPhase::Placing
            || self.phase == UpPhase::Arranging || self.phase == UpPhase::Saving) ==> self.created is Some
        &&& (self.phase == UpPhase::Waiting || self.phase == UpPhase::Placing || self.phase == UpPhase::Arranging
            || self.phase == UpPhase::Saving) ==> self.has_compositor
        &&& self.phase == UpPhase::Arranging ==> (self.changes matches Some(c) && c@ == (ChangesModel {
            disabled_outputs: layout_disabled(head_views(self.pre_create.heads@), self.req),
            previous_primary: layout_previous_primary(head_views(self.pre_create.heads@), self.req),
        }))
    }

    /// The event the flow waits for in its current phase.
    pub open spec fn expects(&self, ev: UpEvent) -> bool {
        match self.phase() {
            UpPhase::Checking => ev is Checked,
            UpPhase::Snapshotting => ev matches UpEvent::Snapshotted(s)
                && (s matches Some(snap) ==> edges_fit(head_views(snap.heads@))),
            UpPhase::Creating => ev is Created,
            UpPhase::Recording => ev is Recorded,
            UpPhase::Waiting => ev is HeadAppeared,
            UpPhase::Placing | UpPhase::Arranging => ev is Applied,
            UpPhase::Saving => ev is Saved,
            UpPhase::Finished => false,
        }
    }
}

/// Start `up` for `req`, with or without a compositor to configure. The
/// first step is the backend prerequisites check, so nothing is recorded
/// for a backend that cannot act.
pub fn up(req: &UpRequest, has_compositor: bool) -> (r: (UpFlow, UpAction))
    ensures
        r.0.wf(),
        r.0.phase() == UpPhase::Checking,
        r.0.request() == *req,
        r.0.with_compositor() == has_compositor,
        r.0.pre_heads().len() == 0,
        r.0.created() is None,
        r.1 is CheckAvailable,
{
    let flow = UpFlow {
        req: *req,
        has_compositor,
        phase: UpPhase::Checking,
        pre_create: OutputSnapshot::default(),
        created: None,
        head_name: String::new(),
        placed: (0, 0),
        position: (0, 0),
        changes: None,
    };
    assert(head_views(flow.pre_create.heads@) =~= Seq::<HeadModel>::empty());
    (flow, UpAction::CheckAvailable)
}

impl UpFlow {
    fn outcome(&self, configured: bool, position: Option<(i32, i32)>) -> (o: UpOutcome)
        requires
            self.created is Some,
        ensures
            outcome_is(o, self.created->0, configured, position),
    {
        let c = self.created.as_ref().unwrap();
        UpOutcome {
            handle: c.handle.duplicate(),
            edid_applied: c.feature_acceptance.edid_applied,
            hdr_properties_attached: false,
            compositor_configured: configured,
            compositor_position: position,
        }
    }

    fn finish_unconfigured(&mut self) -> (a: UpAction)
        requires
            old(self).created is Some,
        ensures
            *final(self) == (UpFlow { phase: UpPhase::Finished, ..*old(self) }),
            a matches UpAction::Finish(Ok(o)) && outcome_is(o, old(self).created->0, false, None),
    {
        let o = self.outcome(false, None);
        self.phase = UpPhase::Finished;
        UpAction::Finish(Ok(o))
    }

    fn head_names_exec(&self) -> (r: Vec<String>)
        ensures
            string_views(r@) == head_names(head_views(self.pre_create.heads@)),
    {
        let heads = &self.pre_create.heads;
        let mut r: Vec<String> = Vec::new();
        let mut i: usize = 0;
        while i < heads.len()
            invariant
                i <= heads@.len(),
                string_views(r@) == head_names(head_views(heads@)).take(i as int),
            decreases heads@.len() - i,
        {
            let ghost before = string_views(r@);
            r.push(heads[i].name.clone());
            assert(string_views(r@) =~= before.push(heads@[i as int]@.name));
            assert(string_views(r@) =~= head_names(head_views(heads@)).take(i as int + 1));
            i = i + 1;
        }
        assert(head_names(head_views(heads@)).take(i as int) =~= head_names(head_views(heads@)));
        r
    }

    /// Advance the flow with the outcome of the last action.
    ///
    /// Failures up to and including recording the new instance end `up`
    /// with that error; once the display exists and is recorded, a
    /// compositor failure no longer fails `up`: it ends with the display
    /// reported as not configured. Failures of the layout pass (turning
    /// off real outputs, changing the primary) are tolerated: the head is
    /// recorded as configured with no layout changes.
    pub fn step(&mut self, ev: UpEvent) -> (a: UpAction)
        requires
            old(self).wf(),
            old(self).expects(ev),
        ensures
            final(self).wf(),
            final(self).request() == old(self).request(),
            final(self).with_compositor() == old(self).with_compositor(),
            match ev {
                UpEvent::Checked(Err(e)) => final(self).phase() == UpPhase::Finished && a == UpAction::Finish(Err(e)),
                UpEvent::Checked(Ok(())) => if old(self).with_compositor() {
                    final(self).phase() == UpPhase::Snapshotting && a is Snapshot
                } else {
                    final(self).phase() == UpPhase::Creating && a == UpAction::Create(old(self).request().spec)
                },
                UpEvent::Snapshotted(s) => {
                    &&& final(self).phase() == UpPhase::Creating
                    &&& a == UpAction::Create(old(self).request().spec)
                    &&& final(self).pre_heads() == (match s { Some(snap) => head_views(snap.heads@), None => Seq::empty() })
                },
                UpEvent::Created(Err(e)) => final(self).phase() == UpPhase::Finished && a == UpAction::Finish(Err(e)),
                UpEvent::Created(Ok(c)) => {
                    &&& final(self).phase() == UpPhase::Recording
                    &&& final(self).created() == Some(c)
                    &&& a matches UpAction::Record(rec)
                    &&& rec@ == fresh_record(c.handle@, old(self).request().spec, old(self).pre_heads())
                },
                UpEvent::Recorded(Err(e)) => final(self).phase() == UpPhase::Finished && a == UpAction::Finish(Err(e)),
                UpEvent::Recorded(Ok(())) => if old(self).with_compositor() {
                    &&& final(self).phase() == UpPhase::Waiting
                    &&& a matches UpAction::WaitForHead(names)
                    &&& string_views(names@) == head_names(old(self).pre_heads())
                } else {
                    &&& final(self).phase() == UpPhase::Finished
                    &&& a matches UpAction::Finish(Ok(o))
                    &&& outcome_is(o, old(self).created()->0, false, None)
                },
                UpEvent::HeadAppeared(Err(_)) => {
                    &&& final(self).phase() == UpPhase::Finished
                    &&& a matches UpAction::Finish(Ok(o))
                    &&& outcome_is(o, old(self).created()->0, false, None)
                },
                UpEvent::HeadAppeared(Ok(h)) => {
                    let pos = (new_head_x(old(self).pre_heads()) as i32, 0i32);
                    match enable_all_result(empty_plan(), placement_enables(old(self).pre_heads(), old(self).request(), h.name@, pos)) {
                        Ok(m) => {
                            &&& final(self).phase() == UpPhase::Placing
                            &&& final(self).new_head() == h.name@
                            &&& final(self).placed_at() == pos
                            &&& a matches UpAction::Apply(p)
                            &&& p@ == m
                        },
                        Err(_) => {
                            &&& final(self).phase() == UpPhase::Finished
                            &&& a matches UpAction::Finish(Ok(o))
                            &&& outcome_is(o, old(self).created()->0, false, None)
                        },
                    }
                },
                UpEvent::Applied(r) => if old(self).phase() == UpPhase::Placing {
                    match r {
                        Err(_) => {
                            &&& final(self).phase() == UpPhase::Finished
                            &&& a matches UpAction::Finish(Ok(o))
                            &&& outcome_is(o, old(self).created()->0, false, None)
                        },
                        Ok(()) => {
                            let pos = if old(self).request().disable_real_outputs { (0i32, 0i32) } else { old(self).placed_at() };
                            &&& final(self).positioned_at() == pos
                            &&& match layout_result(old(self).pre_heads(), old(self).request(), old(self).new_head(), pos) {
                                Ok(m) => {
                                    &&& final(self).phase() == UpPhase::Arranging
                                    &&& a matches UpAction::Apply(p)
                                    &&& p@ == m
                                },
                                Err(_) => {
                                    &&& final(self).phase() == UpPhase::Saving
                                    &&& a matches UpAction::Save { local_id, update }
                                    &&& local_id@ == old(self).created()->0.handle@.local_id
                                    &&& update.head_name@ == old(self).new_head()
                                    &&& update.layout_changes@.disabled_outputs.len() == 0
                                    &&& update.layout_changes@.previous_primary is None
                                },
                            }
                        },
                    }
                } else {
                    &&& final(self).phase() == UpPhase::Saving
                    &&& a matches UpAction::Save { local_id, update }
                    &&& local_id@ == old(self).created()->0.handle@.local_id
                    &&& update.head_name@ == old(self).new_head()
                    &&& r is Ok ==> update.layout_changes@ == (ChangesModel {
                        disabled_outputs: layout_disabled(old(self).pre_heads(), old(self).request()),
                        previous_primary: layout_previous_primary(old(self).pre_heads(), old(self).request()),
                    })
                    &&& r is Err ==> update.layout_changes@.disabled_outputs.len() == 0
                        && update.layout_changes@.previous_primary is None
                },
                UpEvent::Saved(r) => {
                    &&& final(self).phase() == UpPhase::Finished
                    &&& a matches UpAction::Finish(Ok(o))
                    &&& match r {
                        Ok(()) => outcome_is(o, old(self).created()->0, true, Some(old(self).positioned_at())),
                        Err(_) => outcome_is(o, old(self).created()->0, false, None),
                    }
                },
            },
            // Once the display exists and is recorded, `up` reports it,
            // never an error.
            old(self).created() is Some && !(ev is Recorded) ==> !(a matches UpAction::Finish(Err(_))),
            old(self).created() is Some ==> final(self).created() == old(self).created(),
    {
        match ev {
            UpEvent::Checked(Err(e)) => {
                self.phase = UpPhase::Finished;
                UpAction::Finish(Err(e))
            },
            UpEvent::Checked(Ok(())) => {
                if self.has_compositor {
                    self.phase = UpPhase::Snapshotting;
                    UpAction::Snapshot
                } else {
                    self.phase = UpPhase::Creating;
                    UpAction::Create(self.req.spec)
                }
            },
            UpEvent::Snapshotted(s) => {
                self.pre_create = match s {
                    Some(snap) => snap,
                    None => OutputSnapshot::default(),
                };
                assert(head_views(self.pre_create.heads@) =~= (match s { Some(snap) => head_views(snap.heads@), None => Seq::<HeadModel>::empty() }));
                self.phase = UpPhase::Creating;
                UpAction::Create(self.req.spec)
            },
            UpEvent::Created(Err(e)) => {
                self.phase = UpPhase::Finished;
                UpAction::Finish(Err(e))
            },
            UpEvent::Created(Ok(c)) => {
                let rec = InstanceRecord {
                    handle: c.handle.duplicate(),
                    compositor_head_name: None,
                    spec: self.req.spec,
                    compositor_snapshot: Some(self.pre_create.duplicate()),
                    compositor_configured: false,
                    layout_changes: LayoutChanges::default(),
                };
                self.created = Some(c);
                self.phase = UpPhase::Recording;
                assert(rec@.changes.disabled_outputs =~= Seq::<Seq<char>>::empty());
                UpAction::Record(rec)
            },
            UpEvent::Recorded(Err(e)) => {
                self.phase = UpPhase::Finished;
                UpAction::Finish(Err(e))
            },
            UpEvent::Recorded(Ok(())) => {
                if self.has_compositor {
                    let names = self.head_names_exec();
                    self.phase = UpPhase::Waiting;
                    UpAction::WaitForHead(names)
                } else {
                    self.finish_unconfigured()
                }
            },
            UpEvent::HeadAppeared(Err(_)) => self.finish_unconfigured(),
            UpEvent::HeadAppeared(Ok(h)) => {
                match placement_plan(&self.pre_create, &self.req, h.name.as_str()) {
                    Ok((plan, pos)) => {
                        self.head_name = h.name;
                        self.placed = pos;
                        self.phase = UpPhase::Placing;
                        UpAction::Apply(plan)
                    },
                    Err(_) => self.finish_unconfigured(),
                }
            },
            UpEvent::Applied(r) => {
                if self.phase == UpPhase::Placing {
                    match r {
                        Err(_) => self.finish_unconfigured(),
                        Ok(()) => {
                            let pos = attach_position(&self.req, self.placed);
                            self.position = pos;
                            match layout_plan(&self.pre_create, &self.req, self.head_name.as_str(), pos) {
                                Ok((plan, changes)) => {
                                    self.changes = Some(changes);
                                    self.phase = UpPhase::Arranging;
                                    UpAction::Apply(plan)
                                },
                                Err(_) => {
                                    self.changes = None;
                                    self.phase = UpPhase::Saving;
                                    let local_id = self.created.as_ref().unwrap().handle.local_id.clone();
                                    UpAction::Save {
                                        local_id,
                                        update: HeadConfigured { head_name: self.head_name.clone(), layout_changes: LayoutChanges::default() },
                                    }
                                },
                            }
                        },
                    }
                } else {
                    let changes = match r {
                        Ok(()) => match self.changes.take() {
                            Some(c) => c,
                            None => LayoutChanges::default(),
                        },
                        Err(_) => LayoutChanges::default(),
                    };
                    self.phase = UpPhase::Saving;
                    let local_id = self.created.as_ref().unwrap().handle.local_id.clone();
                    UpAction::Save {
                        local_id,
                        update: HeadConfigured { head_name: self.head_name.clone(), layout_changes: changes },
                    }
                }
            },
            UpEvent::Saved(r) => {
                let o = match r {
                    Ok(()) => self.outcome(true, Some(self.position)),
                    Err(_) => self.outcome(false, None),
                };
                self.phase = UpPhase::Finished;
                UpAction::Finish(Ok(o))
            },
        }
    }
}

/// Whether a snapshot can be placed against: every right edge fits the
/// compositor's coordinate type.
pub fn placement_fits(snapshot: &OutputSnapshot) -> (r: bool)
    ensures
        r == edges_fit(head_views(snapshot.heads@)),
{
    let heads = &snapshot.heads;
    let ghost hv = head_views(heads@);
    let mut i: usize = 0;
    while i < heads.len()
        invariant
            i <= heads@.len(),
            hv == head_views(heads@),
            hv == head_views(snapshot.heads@),
            forall|j: int| 0 <= j < i ==>
                (#[trigger] head_right_edge(hv[j]) matches Some(e) ==> i32::MIN <= e <= i32::MAX),
        decreases heads@.len() - i,
    {
        let h = &heads[i];
        assert(hv[i as int] == h@);
        if h.enabled {
            match (h.position, h.mode) {
                (Some(p), Some(m)) => {
                    let e = (p.0 as i64) + (m.width as i64);
                    assert(head_right_edge(hv[i as int]) == Some(e as int));
                    if e < (i32::MIN as i64) || e > (i32::MAX as i64) {
                        assert(!edges_fit(hv)) by {
                            assert(0 <= i < hv.len());
                            assert(!(head_right_edge(hv[i as int]) matches Some(e) ==> i32::MIN <= e <= i32::MAX));
                        }
                        return false;
                    }
                },
                _ => {},
            }
        }
        i = i + 1;
    }
    true
}

// ---------------------------------------------------------------------------
// The `down` and `reset` flows
// ---------------------------------------------------------------------------

/// Where a teardown stands.
#[derive(Clone, Copy, Debug, PartialEq, Eq, Structural)]
pub enum TeardownPhase {
    Loading,
    Snapshotting,
    Restoring,
    Destroying,
    Listing,
    Clearing,
    Finished,
}

/// What the caller reports back to a teardown.
pub enum TeardownEvent {
    Loaded(Result<ActiveState, Error>),
    /// The compositor's live layout, or `None` when it could not be read.
    Snapshotted(Option<OutputSnapshot>),
    /// The outcome of an apply; a failed restore step is not fatal.
    Applied(Result<(), Error>),
    Destroyed(Result<(), Error>),
    Listed(Result<Vec<DisplayHandle>, Error>),
    Cleared(Result<(), Error>),
}

/// What a teardown asks the caller to do next.
pub enum TeardownAction {
    /// Read the state file.
    Load,
    /// Read the compositor's live layout.
    Snapshot,
    /// Apply this plan on the compositor.
    Apply(OutputPlan),
    /// Destroy this kernel-side display.
    Destroy(DisplayHandle),
    /// List the kernel-side displays of this tool.
    List,
    /// Reset the state file to an empty manifest.
    Clear,
    /// The teardown is over: how many displays were removed.
    Finish(Result<usize, Error>),
}

/// State of one `down` or `reset`.
pub struct TeardownFlow {
    /// `reset` rather than `down`.
    reset: bool,
    has_compositor: bool,
    phase: TeardownPhase,
    instances: Vec<InstanceRecord>,
    applies: Vec<OutputPlan>,
    queue: Vec<DisplayHandle>,
    /// The backend listing has been taken (`reset`).
    listed: bool,
    removed: usize,
}

/// The handles of `recs`, newest first.
pub open spec fn newest_first(recs: Seq<RecordModel>) -> Seq<HandleModel>
    decreases recs.len(),
{
    if recs.len() == 0 {
        Seq::empty()
    } else {
        seq![recs.last().handle] + newest_first(recs.drop_last())
    }
}

proof fn lemma_newest_first_len(recs: Seq<RecordModel>)
    ensures
        newest_first(recs).len() == recs.len(),
    decreases recs.len(),
{
    if recs.len() > 0 {
        lemma_newest_first_len(recs.drop_last());
    }
}

pub open spec fn handle_views(v: Seq<DisplayHandle>) -> Seq<HandleModel> {
    v.map_values(|h: DisplayHandle| h@)
}

/// The restore plans that can be applied, in order: the first phase when
/// there is one and it is a valid plan, then the second when valid.
pub open spec fn valid_restore_plans(recs: Seq<RecordModel>, live: Option<Seq<HeadModel>>) -> Seq<PlanModel> {
    (match reenable_result(recs, live) { Some(Ok(m)) => seq![m], _ => Seq::empty() })
        + (match disable_result(recs) { Ok(m) => seq![m], Err(_) => Seq::empty() })
}

impl TeardownFlow {
    pub closed spec fn phase(&self) -> TeardownPhase { self.phase }
    pub closed spec fn is_reset(&self) -> bool { self.reset }
    pub closed spec fn with_compositor(&self) -> bool { self.has_compositor }
    pub closed spec fn records(&self) -> Seq<RecordModel> { record_views(self.instances@) }
    /// The plans still to apply, first first.
    pub closed spec fn pending_plans(&self) -> Seq<PlanModel> { self.applies@.map_values(|p: OutputPlan| p@) }
    /// The displays still to destroy, next first.
    pub closed spec fn pending_destroys(&self) -> Seq<HandleModel> { handle_views(self.queue@) }
    pub closed spec fn removed(&self) -> nat { self.removed as nat }
    /// The backend's own listing has been taken (`reset`).
    pub closed spec fn listed(&self) -> bool { self.listed }

    pub closed spec fn wf(&self) -> bool {
        &&& self.removed as int + self.queue@.len() + (if self.phase == TeardownPhase::Destroying { 1int } else { 0int })
            <= if self.listed { usize::MAX as int } else { usize::MAX as int / 2 }
        &&& self.phase == TeardownPhase::Snapshotting ==> self.applies@.len() == 0 && self.queue@.len() > 0
        &&& self.phase == TeardownPhase::Restoring ==> self.queue@.len() > 0
        &&& (self.phase == TeardownPhase::Snapshotting || self.phase == TeardownPhase::Restoring)
            ==> handle_views(self.queue@) == newest_first(record_views(self.instances@))
        &&& self.phase == TeardownPhase::Listing ==> !self.listed && self.queue@.len() == 0 && self.applies@.len() == 0
            && self.reset
        &&& self.phase == TeardownPhase::Loading ==> !self.listed
        &&& self.phase == TeardownPhase::Destroying ==> self.applies@.len() == 0
        &&& self.listed ==> self.reset
    }

    /// The event the flow waits for in its current phase.
    pub open spec fn expects(&self, ev: TeardownEvent) -> bool {
        match self.phase() {
            TeardownPhase::Loading => ev matches TeardownEvent::Loaded(r)
                && (r matches Ok(st) ==> st.instances@.len() <= usize::MAX / 2),
            TeardownPhase::Snapshotting => ev is Snapshotted,
            TeardownPhase::Restoring => ev is Applied,
            TeardownPhase::Destroying => ev is Destroyed,
            TeardownPhase::Listing => ev matches TeardownEvent::Listed(r)
                && (r matches Ok(hs) ==> hs@.len() <= usize::MAX / 2),
            TeardownPhase::Clearing => ev is Cleared,
            TeardownPhase::Finished => false,
        }
    }
}

fn start_teardown(reset: bool, has_compositor: bool) -> (r: (TeardownFlow, TeardownAction))
    ensures
        r.0.wf(),
        r.0.phase() == TeardownPhase::Loading,
        r.0.is_reset() == reset,
        r.0.with_compositor() == has_compositor,
        r.0.removed() == 0,
        r.1 is Load,
{
    (TeardownFlow {
        reset,
        has_compositor,
        phase: TeardownPhase::Loading,
        instances: Vec::new(),
        applies: Vec::new(),
        queue: Vec::new(),
        listed: false,
        removed: 0,
    }, TeardownAction::Load)
}

/// Start `down`: roll back every recorded `up` on the compositor in one
/// go, destroy the recorded displays newest first, and clear the state.
pub fn down(has_compositor: bool) -> (r: (TeardownFlow, TeardownAction))
    ensures
        r.0.wf(),
        r.0.phase() == TeardownPhase::Loading,
        !r.0.is_reset(),
        r.0.with_compositor() == has_compositor,
        r.0.removed() == 0,
        r.1 is Load,
{
    start_teardown(false, has_compositor)
}

/// Start `reset`: like `down`, but an unreadable state file counts as
/// empty, and every display of this tool the backend still lists is
/// destroyed too.
pub fn reset(has_compositor: bool) -> (r: (TeardownFlow, TeardownAction))
    ensures
        r.0.wf(),
        r.0.phase() == TeardownPhase::Loading,
        r.0.is_reset(),
        r.0.with_compositor() == has_compositor,
        r.0.removed() == 0,
        r.1 is Load,
{
    start_teardown(true, has_compositor)
}

fn reversed_handles(recs: &Vec<InstanceRecord>) -> (r: Vec<DisplayHandle>)
    ensures
        handle_views(r@) == newest_first(record_views(recs@)),
{
    let mut r: Vec<DisplayHandle> = Vec::new();
    let mut i: usize = recs.len();
    let ghost all = record_views(recs@);
    assert(all.take(all.len() as int) =~= all);
    while i > 0
        invariant
            i <= recs@.len(),
            all == record_views(recs@),
            newest_first(all) == handle_views(r@) + newest_first(all.take(i as int)),
        decreases i,
    {
        proof {
            assert(all.take(i as int).drop_last() =~= all.take(i as int - 1));
            assert(all.take(i as int).last() == recs@[i as int - 1]@);
        }
        let ghost before = handle_views(r@);
        r.push(recs[i - 1].handle.duplicate());
        assert(handle_views(r@) =~= before.push(recs@[i as int - 1]@.handle));
        assert(before + newest_first(all.take(i as int)) =~= handle_views(r@) + newest_first(all.take(i as int - 1)));
        i = i - 1;
    }
    assert(all.take(0) =~= Seq::<RecordModel>::empty());
    assert(handle_views(r@) + Seq::<HandleModel>::empty() =~= handle_views(r@));
    r
}

impl TeardownFlow {
    /// Move on to the destroys, or, with none, to listing (`reset`) or
    /// clearing.
    fn after_restore(&mut self) -> (a: TeardownAction)
        requires
            old(self).applies@.len() == 0,
            old(self).removed as int + old(self).queue@.len() <= if old(self).listed { usize::MAX as int } else { usize::MAX as int / 2 },
            old(self).listed ==> old(self).reset,
        ensures
            final(self).wf(),
            final(self).reset == old(self).reset,
            final(self).has_compositor == old(self).has_compositor,
            final(self).instances == old(self).instances,
            final(self).removed == old(self).removed,
            final(self).listed == old(self).listed,
            final(self).applies@.len() == 0,
            if old(self).queue@.len() > 0 {
                &&& final(self).phase == TeardownPhase::Destroying
                &&& final(self).queue@.len() == old(self).queue@.len() - 1
                &&& handle_views(final(self).queue@) == handle_views(old(self).queue@).drop_first()
                &&& a matches TeardownAction::Destroy(h) && h@ == old(self).queue@[0]@
            } else if old(self).reset && !old(self).listed {
                final(self).phase == TeardownPhase::Listing && a is List && final(self).queue@.len() == 0
            } else {
                final(self).phase == TeardownPhase::Clearing && a is Clear && final(self).queue@.len() == 0
            },
    {
        if self.queue.len() > 0 {
            let ghost before = handle_views(self.queue@);
            let h = self.queue.remove(0);
            assert(handle_views(self.queue@) =~= before.drop_first());
            self.phase = TeardownPhase::Destroying;
            TeardownAction::Destroy(h)
        } else if self.reset && !self.listed {
            self.phase = TeardownPhase::Listing;
            TeardownAction::List
        } else {
            self.phase = TeardownPhase::Clearing;
            TeardownAction::Clear
        }
    }

    /// Advance the teardown with the outcome of the last action.
    ///
    /// The compositor is restored before any display is destroyed; a
    /// failed restore step never stops the teardown. Each destroy that
    /// succeeds counts once. The state is cleared only after every destroy
    /// has been tried, and a failure to read (`down` only) or to clear the
    /// state file ends the teardown with that error.
    pub fn step(&mut self, ev: TeardownEvent) -> (a: TeardownAction)
        requires
            old(self).wf(),
            old(self).expects(ev),
        ensures
            final(self).wf(),
            final(self).is_reset() == old(self).is_reset(),
            final(self).with_compositor() == old(self).with_compositor(),
            match ev {
                TeardownEvent::Loaded(r) => match r {
                    Err(e) => if old(self).is_reset() {
                        final(self).records().len() == 0 && final(self).removed() == 0
                            && final(self).phase() == TeardownPhase::Listing && a is List
                    } else {
                        final(self).phase() == TeardownPhase::Finished && a == TeardownAction::Finish(Err(e))
                    },
                    Ok(st) => {
                        &&& final(self).records() == record_views(st.instances@)
                        &&& final(self).removed() == 0
                        &&& if st.instances@.len() > 0 && old(self).with_compositor() {
                            final(self).phase() == TeardownPhase::Snapshotting && a is Snapshot
                        } else if st.instances@.len() > 0 {
                            &&& final(self).phase() == TeardownPhase::Destroying
                            &&& a matches TeardownAction::Destroy(h)
                            &&& seq![h@] + final(self).pending_destroys() == newest_first(record_views(st.instances@))
                        } else if old(self).is_reset() {
                            final(self).phase() == TeardownPhase::Listing && a is List
                        } else {
                            final(self).phase() == TeardownPhase::Clearing && a is Clear
                        }
                    },
                },
                TeardownEvent::Snapshotted(live) => {
                    let plans = valid_restore_plans(old(self).records(),
                        match live { Some(s) => Some(head_views(s.heads@)), None => None });
                    &&& final(self).records() == old(self).records()
                    &&& final(self).removed() == old(self).removed()
                    &&& if plans.len() > 0 {
                        &&& final(self).phase() == TeardownPhase::Restoring
                        &&& a matches TeardownAction::Apply(p)
                        &&& seq![p@] + final(self).pending_plans() == plans
                    } else {
                        &&& final(self).phase() == TeardownPhase::Destroying
                        &&& a matches TeardownAction::Destroy(h)
                        &&& seq![h@] + final(self).pending_destroys() == newest_first(old(self).records())
                    }
                },
                TeardownEvent::Applied(_) => {
                    &&& final(self).removed() == old(self).removed()
                    &&& if old(self).pending_plans().len() > 0 {
                        &&& final(self).phase() == TeardownPhase::Restoring
                        &&& a matches TeardownAction::Apply(p)
                        &&& seq![p@] + final(self).pending_plans() == old(self).pending_plans()
                    } else {
                        &&& final(self).pending_plans().len() == 0
                        &&& a matches TeardownAction::Destroy(h)
                        &&& seq![h@] + final(self).pending_destroys() == old(self).pending_destroys()
                    }
                },
                TeardownEvent::Destroyed(r) => {
                    &&& final(self).removed() == old(self).removed() + if r is Ok { 1nat } else { 0nat }
                    &&& if old(self).pending_destroys().len() > 0 {
                        &&& final(self).phase() == TeardownPhase::Destroying
                        &&& a matches TeardownAction::Destroy(h)
                        &&& seq![h@] + final(self).pending_destroys() == old(self).pending_destroys()
                    } else if old(self).is_reset() && !old(self).listed() {
                        final(self).phase() == TeardownPhase::Listing && a is List
                    } else {
                        final(self).phase() == TeardownPhase::Clearing && a is Clear
                    }
                },
                TeardownEvent::Listed(r) => {
                    let hs = match r { Ok(hs) => handle_views(hs@), Err(_) => Seq::empty() };
                    &&& final(self).removed() == old(self).removed()
                    &&& if hs.len() > 0 {
                        &&& final(self).phase() == TeardownPhase::Destroying
                        &&& a matches TeardownAction::Destroy(h)
                        &&& seq![h@] + final(self).pending_destroys() == hs
                    } else {
                        final(self).phase() == TeardownPhase::Clearing && a is Clear
                    }
                },
                TeardownEvent::Cleared(r) => {
                    &&& final(self).phase() == TeardownPhase::Finished
                    &&& match r {
                        Ok(()) => a == TeardownAction::Finish(Ok(old(self).removed() as usize)),
                        Err(e) => a == TeardownAction::Finish(Err(e)),
                    }
                },
            },
    {
        match ev {
            TeardownEvent::Loaded(r) => {
                let st = match r {
                    Ok(st) => st,
                    Err(e) => {
                        if self.reset {
                            ActiveState::default()
                        } else {
                            self.phase = TeardownPhase::Finished;
                            return TeardownAction::Finish(Err(e));
                        }
                    },
                };
                self.queue = reversed_handles(&st.instances);
                proof {
                    lemma_newest_first_len(record_views(st.instances@));
                    assert(handle_views(self.queue@).len() == self.queue@.len());
                }
                self.instances = st.instances;
                self.applies = Vec::new();
                self.removed = 0;
                if self.instances.len() > 0 && self.has_compositor {
                    self.phase = TeardownPhase::Snapshotting;
                    TeardownAction::Snapshot
                } else {
                    self.after_restore()
                }
            },
            TeardownEvent::Snapshotted(live) => {
                let lr = match &live { Some(x) => Some(x), None => None };
                let plans = restore_plans(&self.instances, lr);
                let mut applies: Vec<OutputPlan> = Vec::new();
                match plans.reenable {
                    Some(Ok(p)) => { applies.push(p); },
                    _ => {},
                }
                match plans.disable {
                    Ok(p) => { applies.push(p); },
                    Err(_) => {},
                }
                self.applies = applies;
                if self.applies.len() > 0 {
                    let ghost before = self.applies@.map_values(|p: OutputPlan| p@);
                    let p = self.applies.remove(0);
                    assert(self.applies@.map_values(|p: OutputPlan| p@) =~= before.drop_first());
                    self.phase = TeardownPhase::Restoring;
                    TeardownAction::Apply(p)
                } else {
                    self.after_restore()
                }
            },
            TeardownEvent::Applied(_) => {
                if self.applies.len() > 0 {
                    let ghost before = self.applies@.map_values(|p: OutputPlan| p@);
                    let p = self.applies.remove(0);
                    assert(self.applies@.map_values(|p: OutputPlan| p@) =~= before.drop_first());
                    TeardownAction::Apply(p)
                } else {
                    self.after_restore()
                }
            },
            TeardownEvent::Destroyed(r) => {
                if r.is_ok() {
                    self.removed = self.removed + 1;
                }
                self.after_restore()
            },
            TeardownEvent::Listed(r) => {
                let hs = match r {
                    Ok(hs) => hs,
                    Err(_) => Vec::new(),
                };
                self.queue = hs;
                self.listed = true;
                self.after_restore()
            },
            TeardownEvent::Cleared(r) => {
                self.phase = TeardownPhase::Finished;
                match r {
                    Ok(()) => TeardownAction::Finish(Ok(self.removed)),
                    Err(e) => TeardownAction::Finish(Err(e)),
                }
            },
        }
    }
}

} // verus!
