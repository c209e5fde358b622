//! Output plans, head snapshots and their validation rules.

pub mod mutter;
pub mod kde;

use vstd::prelude::*;
use crate::error::Error;
use crate::text::owned;

verus! {

/// Compositor adapter failure.
#[allow(inconsistent_fields)]
#[derive(Debug)]
pub enum CompositorError {
    /// A Wayland dispatch failed in the given context.
    Dispatch { context: String, source: String },
    /// A D-Bus call failed in the given context.
    Dbus { context: String, source: String },
    /// The awaited event did not arrive in time.
    Timeout { reason: String, timeout_ms: u64 },
    /// The compositor rejected the output configuration.
    ApplyRejected { reason: String },
    /// The compositor reported `failed` on a configuration apply.
    ApplyFailed { reason: Option<String> },
    /// The output-management global disappeared mid-operation.
    CompositorWentAway,
    /// The output-management global is advertised but the device
    /// protocol it needs is not.
    MissingProtocol { compositor: String, manager: String, expected: String, hint: String },
}

/// Errors associated with building an [`OutputPlan`].
#[derive(Debug)]
pub enum PlanError {
    /// Same name landed in both the enable and disable lists.
    Conflict(String),
    /// Same name passed to `enable` twice.
    DuplicateEnable(String),
    /// An `enable`/`disable`/`set_primary` was called with `""`.
    EmptyName,
    /// Mode dimensions or refresh were zero or negative.
    InvalidMode { width: i32, height: i32, refresh: i32 },
}

/// Abstract value of a [`PlanError`].
pub enum PlanErrorModel {
    Conflict(Seq<char>),
    DuplicateEnable(Seq<char>),
    EmptyName,
    InvalidMode(i32, i32, i32),
}

impl View for PlanError {
    type V = PlanErrorModel;

    open spec fn view(&self) -> PlanErrorModel {
        match self {
            PlanError::Conflict(n) => PlanErrorModel::Conflict(n@),
            PlanError::DuplicateEnable(n) => PlanErrorModel::DuplicateEnable(n@),
            PlanError::EmptyName => PlanErrorModel::EmptyName,
            PlanError::InvalidMode { width, height, refresh } => PlanErrorModel::InvalidMode(*width, *height, *refresh),
        }
    }
}

/// True iff `e` is the plan error whose abstract value is `m`.
pub open spec fn is_plan_error(e: Error, m: PlanErrorModel) -> bool {
    e matches Error::Plan(pe) && pe@ == m
}

/// Resolution and refresh rate. Refresh is in millihertz to match the
/// compositor wire formats and avoid 59.94 / 60 rounding traps.
#[derive(Clone, Copy, Debug, PartialEq, Eq, Structural)]
pub struct ModeInfo {
    pub width: i32,
    pub height: i32,
    pub refresh_mhz: i32,
}

impl Default for ModeInfo {
    fn default() -> (r: ModeInfo)
        ensures
            r == (ModeInfo { width: 0, height: 0, refresh_mhz: 0 }),
    {
        ModeInfo { width: 0, height: 0, refresh_mhz: 0 }
    }
}

/// Mirrors `wl_output.transform`.
#[derive(Clone, Copy, Debug, PartialEq, Eq, Structural)]
pub enum Transform {
    Normal,
    Rot90,
    Rot180,
    Rot270,
    Flipped,
    FlippedRot90,
    FlippedRot180,
    FlippedRot270,
}

/// The transform a wire value 0..=7 stands for; any other value is
/// handed back as the error.
pub open spec fn transform_from_wire(v: i32) -> Result<Transform, i32> {
    if v == 0 { Ok(Transform::Normal) }
    else if v == 1 { Ok(Transform::Rot90) }
    else if v == 2 { Ok(Transform::Rot180) }
    else if v == 3 { Ok(Transform::Rot270) }
    else if v == 4 { Ok(Transform::Flipped) }
    else if v == 5 { Ok(Transform::FlippedRot90) }
    else if v == 6 { Ok(Transform::FlippedRot180) }
    else if v == 7 { Ok(Transform::FlippedRot270) }
    else { Err(v) }
}

impl TryFrom<i32> for Transform {
    type Error = i32;

    fn try_from(v: i32) -> (r: Result<Transform, i32>) {
        if v == 0 { Ok(Transform::Normal) }
        else if v == 1 { Ok(Transform::Rot90) }
        else if v == 2 { Ok(Transform::Rot180) }
        else if v == 3 { Ok(Transform::Rot270) }
        else if v == 4 { Ok(Transform::Flipped) }
        else if v == 5 { Ok(Transform::FlippedRot90) }
        else if v == 6 { Ok(Transform::FlippedRot180) }
        else if v == 7 { Ok(Transform::FlippedRot270) }
        else { Err(v) }
    }
}

impl vstd::std_specs::convert::TryFromSpecImpl<i32> for Transform {
    open spec fn obeys_try_from_spec() -> bool {
        true
    }

    open spec fn try_from_spec(v: i32) -> Result<Transform, i32> {
        transform_from_wire(v)
    }
}

/// One head as the compositor advertises it: the connector name plus the
/// current mode, position, scale, and transform. The scale is carried as
/// the bit pattern of the compositor's `f64` value.
#[derive(Clone, Debug)]
pub struct HeadState {
    pub name: String,
    pub enabled: bool,
    pub mode: Option<ModeInfo>,
    pub position: Option<(i32, i32)>,
    pub scale_bits: Option<u64>,
    pub transform: Option<Transform>,
}

/// Abstract value of a [`HeadState`].
pub struct HeadModel {
    pub name: Seq<char>,
    pub enabled: bool,
    pub mode: Option<ModeInfo>,
    pub position: Option<(i32, i32)>,
    pub scale_bits: Option<u64>,
    pub transform: Option<Transform>,
}

impl View for HeadState {
    type V = HeadModel;

    open spec fn view(&self) -> HeadModel {
        HeadModel {
            name: self.name@,
            enabled: self.enabled,
            mode: self.mode,
            position: self.position,
            scale_bits: self.scale_bits,
            transform: self.transform,
        }
    }
}

/// Request to bring a head up at a specific mode and position. If mode or
/// position are absent the compositor picks defaults.
#[derive(Clone, Debug)]
pub struct EnableOutput {
    pub name: String,
    pub mode: Option<ModeInfo>,
    pub position: Option<(i32, i32)>,
}

/// Abstract value of an [`EnableOutput`].
pub struct EnableModel {
    pub name: Seq<char>,
    pub mode: Option<ModeInfo>,
    pub position: Option<(i32, i32)>,
}

impl View for EnableOutput {
    type V = EnableModel;

    open spec fn view(&self) -> EnableModel {
        EnableModel { name: self.name@, mode: self.mode, position: self.position }
    }
}

pub open spec fn enable_views(v: Seq<EnableOutput>) -> Seq<EnableModel> {
    v.map_values(|e: EnableOutput| e@)
}

pub open spec fn string_views(v: Seq<String>) -> Seq<Seq<char>> {
    v.map_values(|s: String| s@)
}

/// `i` is the first position in `heads` whose name is not in `baseline`.
pub open spec fn first_outside(heads: Seq<HeadModel>, baseline: Seq<Seq<char>>, i: int) -> bool {
    &&& 0 <= i < heads.len()
    &&& !baseline.contains(heads[i].name)
    &&& forall|j: int| 0 <= j < i ==> baseline.contains(#[trigger] heads[j].name)
}

pub open spec fn head_views(v: Seq<HeadState>) -> Seq<HeadModel> {
    v.map_values(|h: HeadState| h@)
}

/// Snapshot of every head the compositor advertises.
#[derive(Clone, Debug)]
pub struct OutputSnapshot {
    pub heads: Vec<HeadState>,
}

impl Default for OutputSnapshot {
    fn default() -> (r: OutputSnapshot)
        ensures
            r.heads@.len() == 0,
    {
        OutputSnapshot { heads: Vec::new() }
    }
}

/// The enable request that carries an enabled head's current mode and
/// position, if it has both.
pub open spec fn head_as_enable(h: HeadModel) -> Option<EnableModel> {
    if h.enabled && h.mode is Some && h.position is Some {
        Some(EnableModel { name: h.name, mode: h.mode, position: h.position })
    } else {
        None
    }
}

/// Enabled heads that have both a mode and a position, in order, as
/// enable requests that keep them where they are.
pub open spec fn active_enables_of(heads: Seq<HeadModel>) -> Seq<EnableModel>
    decreases heads.len(),
{
    if heads.len() == 0 {
        Seq::empty()
    } else {
        let rest = active_enables_of(heads.drop_last());
        match head_as_enable(heads.last()) {
            Some(e) => rest.push(e),
            None => rest,
        }
    }
}

impl HeadState {
    /// An equal, independently owned head.
    pub fn duplicate(&self) -> (r: HeadState)
        ensures
            r@ == self@,
    {
        HeadState {
            name: self.name.clone(),
            enabled: self.enabled,
            mode: self.mode,
            position: self.position,
            scale_bits: self.scale_bits,
            transform: self.transform,
        }
    }
}

/// An equal, independently owned list of strings.
pub fn copy_strings(v: &Vec<String>) -> (r: Vec<String>)
    ensures
        string_views(r@) == string_views(v@),
{
    let mut r: Vec<String> = Vec::new();
    let mut i: usize = 0;
    while i < v.len()
        invariant
            i <= v@.len(),
            string_views(r@) == string_views(v@.take(i as int)),
        decreases v@.len() - i,
    {
        let ghost before = string_views(r@);
        let c = v[i].clone();
        r.push(c);
        proof {
            assert(string_views(r@) =~= before.push(v@[i as int]@));
            assert(string_views(v@.take(i as int + 1)) =~= string_views(v@.take(i as int)).push(v@[i as int]@));
        }
        i = i + 1;
    }
    assert(v@.take(v@.len() as int) =~= v@);
    r
}

impl OutputSnapshot {
    /// An equal, independently owned snapshot.
    pub fn duplicate(&self) -> (r: OutputSnapshot)
        ensures
            head_views(r.heads@) == head_views(self.heads@),
    {
        let mut heads: Vec<HeadState> = Vec::new();
        let mut i: usize = 0;
        while i < self.heads.len()
            invariant
                i <= self.heads@.len(),
                head_views(heads@) == head_views(self.heads@.take(i as int)),
            decreases self.heads@.len() - i,
        {
            let ghost before = head_views(heads@);
            let h = self.heads[i].duplicate();
            heads.push(h);
            proof {
                assert(head_views(heads@) =~= before.push(self.heads@[i as int]@));
                assert(head_views(self.heads@.take(i as int + 1)) =~= head_views(self.heads@.take(i as int)).push(self.heads@[i as int]@));
            }
            i = i + 1;
        }
        assert(self.heads@.take(self.heads@.len() as int) =~= self.heads@);
        OutputSnapshot { heads }
    }

    /// The first head, in snapshot order, whose name is not in `baseline`:
    /// the head a hot-plug has added since `baseline` was taken.
    pub fn first_new_head(&self, baseline: &Vec<String>) -> (r: Option<HeadState>)
        ensures
            match r {
                Some(h) => exists|i: int| #[trigger] first_outside(head_views(self.heads@), string_views(baseline@), i)
                    && h@ == self.heads@[i]@,
                None => forall|i: int| 0 <= i < self.heads@.len()
                    ==> string_views(baseline@).contains(#[trigger] self.heads@[i].name@),
            },
    {
        let mut i: usize = 0;
        while i < self.heads.len()
            invariant
                i <= self.heads@.len(),
                forall|j: int| 0 <= j < i ==> string_views(baseline@).contains(#[trigger] self.heads@[j].name@),
            decreases self.heads@.len() - i,
        {
            if !contains_name(baseline, &self.heads[i].name) {
                let h = self.heads[i].duplicate();
                assert(first_outside(head_views(self.heads@), string_views(baseline@), i as int));
                return Some(h);
            }
            i = i + 1;
        }
        None
    }

    /// Project enabled heads into [`EnableOutput`] requests carrying their
    /// current mode + position. Heads without both fields are skipped.
    pub fn active_enables(&self) -> (r: Vec<EnableOutput>)
        ensures
            enable_views(r@) == active_enables_of(head_views(self.heads@)),
    {
        let mut r: Vec<EnableOutput> = Vec::new();
        let mut i: usize = 0;
        while i < self.heads.len()
            invariant
                i <= self.heads@.len(),
                enable_views(r@) == active_enables_of(head_views(self.heads@.take(i as int))),
            decreases self.heads@.len() - i,
        {
            let h = &self.heads[i];
            proof {
                assert(head_views(self.heads@.take(i as int + 1)).drop_last()
                    =~= head_views(self.heads@.take(i as int)));
            }
            if h.enabled {
                match (h.mode, h.position) {
                    (Some(mode), Some(position)) => {
                        r.push(EnableOutput { name: h.name.clone(), mode: Some(mode), position: Some(position) });
                        proof {
                            assert(enable_views(r@) =~= enable_views(r@.drop_last()).push(r@.last()@));
                        }
                    },
                    _ => {},
                }
            }
            i = i + 1;
        }
        assert(self.heads@.take(self.heads@.len() as int) =~= self.heads@);
        r
    }
}

/// Capability category that a plan may exercise.
#[derive(Clone, Copy, Debug, PartialEq, Eq, Structural, Hash)]
pub enum FeatureKind {
    Primary,
}

impl FeatureKind {
    /// The snake_case name used in user-facing messages.
    pub fn name(&self) -> (r: String)
        ensures
            r@ == "primary"@,
    {
        match self {
            FeatureKind::Primary => owned("primary"),
        }
    }
}

/// A capability a plan asks the compositor for.
#[derive(Clone, Debug)]
pub enum Feature {
    /// Mark a head as primary.
    Primary { output_name: String },
}

impl Feature {
    pub open spec fn spec_kind(&self) -> FeatureKind {
        match self {
            Feature::Primary { .. } => FeatureKind::Primary,
        }
    }

    /// The capability category of this feature.
    pub fn kind(&self) -> (k: FeatureKind)
        ensures
            k == self.spec_kind(),
    {
        match self {
            Feature::Primary { .. } => FeatureKind::Primary,
        }
    }

    /// The output named by a `Primary` feature.
    pub fn as_primary(&self) -> (r: Option<&String>)
        ensures
            r matches Some(n) && (self matches Feature::Primary { output_name } && n@ == output_name@),
    {
        match self {
            Feature::Primary { output_name } => Some(output_name),
        }
    }
}

/// The primary output names of a feature list, in order.
pub open spec fn feature_views(v: Seq<Feature>) -> Seq<Seq<char>> {
    v.map_values(|f: Feature| match f { Feature::Primary { output_name } => output_name@ })
}


/// Abstract value of a plan: what to enable, what to disable, and the
/// primary output if one is requested.
pub struct PlanModel {
    pub enables: Seq<EnableModel>,
    pub disables: Seq<Seq<char>>,
    pub primaries: Seq<Seq<char>>,
}

pub open spec fn enable_names(es: Seq<EnableModel>) -> Seq<Seq<char>> {
    es.map_values(|e: EnableModel| e.name)
}

/// The rules every plan satisfies: every named output has a non-empty
/// name, no output is enabled twice, no output is both enabled and
/// disabled, every requested mode is positive in each dimension and in
/// refresh, and at most one primary is requested.
pub open spec fn plan_wf(m: PlanModel) -> bool {
    &&& forall|i: int| 0 <= i < m.enables.len() ==> (#[trigger] m.enables[i]).name.len() > 0
    &&& forall|i: int| 0 <= i < m.disables.len() ==> (#[trigger] m.disables[i]).len() > 0
    &&& forall|i: int| 0 <= i < m.primaries.len() ==> (#[trigger] m.primaries[i]).len() > 0
    &&& enable_names(m.enables).no_duplicates()
    &&& forall|i: int| 0 <= i < m.disables.len() ==> !enable_names(m.enables).contains(#[trigger] m.disables[i])
    &&& forall|i: int| 0 <= i < m.enables.len() ==> mode_valid(#[trigger] m.enables[i].mode)
    &&& m.primaries.len() <= 1
}

pub open spec fn mode_valid(m: Option<ModeInfo>) -> bool {
    match m {
        Some(m) => m.width > 0 && m.height > 0 && m.refresh_mhz > 0,
        None => true,
    }
}

/// The error `enable` reports for `e` on a plan `m`, if any.
pub open spec fn enable_rejection(m: PlanModel, e: EnableModel) -> Option<PlanErrorModel> {
    if e.name.len() == 0 {
        Some(PlanErrorModel::EmptyName)
    } else if m.disables.contains(e.name) {
        Some(PlanErrorModel::Conflict(e.name))
    } else if enable_names(m.enables).contains(e.name) {
        Some(PlanErrorModel::DuplicateEnable(e.name))
    } else if !mode_valid(e.mode) {
        let md = e.mode->0;
        Some(PlanErrorModel::InvalidMode(md.width, md.height, md.refresh_mhz))
    } else {
        None
    }
}

/// The error `disable` reports for `name` on a plan `m`, if any.
pub open spec fn disable_rejection(m: PlanModel, name: Seq<char>) -> Option<PlanErrorModel> {
    if name.len() == 0 {
        Some(PlanErrorModel::EmptyName)
    } else if enable_names(m.enables).contains(name) {
        Some(PlanErrorModel::Conflict(name))
    } else {
        None
    }
}

/// The error `set_primary` reports for `name` on a plan `m`, if any.
pub open spec fn primary_rejection(m: PlanModel, name: Seq<char>) -> Option<PlanErrorModel> {
    if name.len() == 0 {
        Some(PlanErrorModel::EmptyName)
    } else if m.disables.contains(name) {
        Some(PlanErrorModel::Conflict(name))
    } else {
        None
    }
}

pub open spec fn with_enable(m: PlanModel, e: EnableModel) -> PlanModel {
    PlanModel { enables: m.enables.push(e), ..m }
}

pub open spec fn with_disable(m: PlanModel, name: Seq<char>) -> PlanModel {
    PlanModel { disables: m.disables.push(name), ..m }
}

pub open spec fn with_primary(m: PlanModel, name: Seq<char>) -> PlanModel {
    PlanModel { primaries: seq![name], ..m }
}

/// Result of enabling `items` one after another, stopping at the first
/// rejected entry.
pub open spec fn enable_all_result(m: PlanModel, items: Seq<EnableModel>) -> Result<PlanModel, PlanErrorModel>
    decreases items.len(),
{
    if items.len() == 0 {
        Ok(m)
    } else {
        match enable_rejection(m, items[0]) {
            Some(err) => Err(err),
            None => enable_all_result(with_enable(m, items[0]), items.drop_first()),
        }
    }
}

/// Result of disabling `names` one after another, stopping at the first
/// rejected entry.
pub open spec fn disable_all_result(m: PlanModel, names: Seq<Seq<char>>) -> Result<PlanModel, PlanErrorModel>
    decreases names.len(),
{
    if names.len() == 0 {
        Ok(m)
    } else {
        match disable_rejection(m, names[0]) {
            Some(err) => Err(err),
            None => disable_all_result(with_disable(m, names[0]), names.drop_first()),
        }
    }
}

pub open spec fn empty_plan() -> PlanModel {
    PlanModel { enables: Seq::empty(), disables: Seq::empty(), primaries: Seq::empty() }
}

/// The capability categories a plan asks for.
pub open spec fn requested_kinds(m: PlanModel) -> Set<FeatureKind> {
    Set::new(|k: FeatureKind| m.primaries.len() > 0 && k == FeatureKind::Primary)
}

/// What a caller wants the compositor to do.
#[derive(Debug)]
pub struct OutputPlan {
    enables: Vec<EnableOutput>,
    disables: Vec<String>,
    features: Vec<Feature>,
}

impl View for OutputPlan {
    type V = PlanModel;

    closed spec fn view(&self) -> PlanModel {
        PlanModel {
            enables: enable_views(self.enables@),
            disables: string_views(self.disables@),
            primaries: feature_views(self.features@),
        }
    }
}

/// Builder for [`OutputPlan`] that enforces the plan rules as entries
/// are added.
pub struct OutputPlanBuilder {
    enables: Vec<EnableOutput>,
    disables: Vec<String>,
    features: Vec<Feature>,
    seen_enables: Vec<String>,
}

impl View for OutputPlanBuilder {
    type V = PlanModel;

    closed spec fn view(&self) -> PlanModel {
        PlanModel {
            enables: enable_views(self.enables@),
            disables: string_views(self.disables@),
            primaries: feature_views(self.features@),
        }
    }
}

/// Whether `name` occurs in `v`.
pub fn contains_name(v: &Vec<String>, name: &String) -> (r: bool)
    ensures
        r == string_views(v@).contains(name@),
{
    let mut i: usize = 0;
    while i < v.len()
        invariant
            i <= v@.len(),
            forall|j: int| 0 <= j < i ==> v@[j]@ != name@,
        decreases v@.len() - i,
    {
        if v[i] == *name {
            assert(string_views(v@)[i as int] == name@);
            return true;
        }
        i = i + 1;
    }
    assert forall|j: int| 0 <= j < string_views(v@).len() implies string_views(v@)[j] != name@ by {}
    false
}

fn slice_contains_kind(v: &[FeatureKind], k: FeatureKind) -> (r: bool)
    ensures
        r == v@.contains(k),
{
    let mut i: usize = 0;
    while i < v.len()
        invariant
            i <= v@.len(),
            forall|j: int| 0 <= j < i ==> v@[j] != k,
        decreases v@.len() - i,
    {
        if v[i] == k {
            return true;
        }
        i = i + 1;
    }
    false
}

impl OutputPlan {
    #[verifier::type_invariant]
    closed spec fn inv(self) -> bool {
        plan_wf(self@)
    }

    /// A builder for a new, empty plan.
    pub fn builder() -> (b: OutputPlanBuilder)
        ensures
            b@ == empty_plan(),
    {
        OutputPlanBuilder::new()
    }

    /// The outputs to enable, in the order they were added.
    pub fn enables(&self) -> (r: &Vec<EnableOutput>)
        ensures
            enable_views(r@) == self@.enables,
            plan_wf(self@),
    {
        proof { use_type_invariant(self); }
        &self.enables
    }

    /// The outputs to disable, in the order they were added.
    pub fn disables(&self) -> (r: &Vec<String>)
        ensures
            string_views(r@) == self@.disables,
    {
        &self.disables
    }

    /// The output to mark primary, if one was requested.
    pub fn primary(&self) -> (r: Option<&str>)
        ensures
            r is None <==> self@.primaries.len() == 0,
            r matches Some(n) ==> n@ == self@.primaries[0],
    {
        if self.features.len() == 0 {
            None
        } else {
            match &self.features[0] {
                Feature::Primary { output_name } => Some(output_name.as_str()),
            }
        }
    }

    /// What capabilities does this plan ask for? Each kind appears once.
    pub fn requested_features(&self) -> (r: Vec<FeatureKind>)
        ensures
            r@.no_duplicates(),
            r@.to_set() == requested_kinds(self@),
    {
        proof { use_type_invariant(self); }
        // A plan holds at most one feature, so its kinds are already distinct.
        let mut r: Vec<FeatureKind> = Vec::new();
        if self.features.len() > 0 {
            r.push(self.features[0].kind());
        }
        assert(r@.to_set() =~= requested_kinds(self@)) by {
            assert(feature_views(self.features@).len() == self.features@.len());
            if r@.len() > 0 {
                assert(r@.contains(FeatureKind::Primary)) by { assert(r@[0] == FeatureKind::Primary); }
            }
        }
        r
    }

    /// The requested capabilities that are missing from `supported`.
    pub fn unsupported_by(&self, supported: &[FeatureKind]) -> (r: Vec<FeatureKind>)
        ensures
            r@.no_duplicates(),
            r@.to_set() == requested_kinds(self@).difference(supported@.to_set()),
    {
        let requested = self.requested_features();
        let mut r: Vec<FeatureKind> = Vec::new();
        let mut i: usize = 0;
        while i < requested.len()
            invariant
                i <= requested@.len(),
                requested@.no_duplicates(),
                r@.no_duplicates(),
                forall|k: FeatureKind| r@.contains(k) <==>
                    (requested@.take(i as int).contains(k) && !supported@.contains(k)),
            decreases requested@.len() - i,
        {
            let k = requested[i];
            let found = slice_contains_kind(supported, k);
            proof {
                broadcast use vstd::seq_lib::group_seq_properties;
                assert(requested@.take(i as int + 1) =~= requested@.take(i as int).push(k));
                assert(!requested@.take(i as int).contains(k)) by {
                    if requested@.take(i as int).contains(k) {
                        let w = choose|w: int| 0 <= w < i && requested@.take(i as int)[w] == k;
                        assert(requested@[w] == requested@[i as int]);
                    }
                }
            }
            if !found {
                r.push(k);
            }
            proof {
                broadcast use vstd::seq_lib::group_seq_properties;
            }
            i = i + 1;
        }
        proof {
            assert(requested@.take(requested@.len() as int) =~= requested@);
            assert(r@.to_set() =~= requested_kinds(self@).difference(supported@.to_set()));
        }
        r
    }
}

impl OutputPlanBuilder {
    #[verifier::type_invariant]
    closed spec fn inv(self) -> bool {
        &&& string_views(self.seen_enables@) == enable_names(enable_views(self.enables@))
        &&& plan_wf(self@)
    }

    /// An empty builder.
    pub fn new() -> (b: OutputPlanBuilder)
        ensures
            b@ == empty_plan(),
    {
        let enables: Vec<EnableOutput> = Vec::new();
        let disables: Vec<String> = Vec::new();
        let features: Vec<Feature> = Vec::new();
        let seen_enables: Vec<String> = Vec::new();
        assert(enable_views(enables@) =~= Seq::empty());
        assert(string_views(disables@) =~= Seq::empty());
        assert(feature_views(features@) =~= Seq::empty());
        assert(string_views(seen_enables@) =~= enable_names(enable_views(enables@)));
        OutputPlanBuilder { enables, disables, features, seen_enables }
    }

    /// Add an output to enable.
    ///
    /// Rejects an empty name, a name already disabled, a name already
    /// enabled, and a mode with a non-positive width, height or refresh.
    pub fn enable(self, output: EnableOutput) -> (r: Result<OutputPlanBuilder, Error>)
        ensures
            r is Ok <==> enable_rejection(self@, output@) is None,
            r matches Ok(b) ==> b@ == with_enable(self@, output@),
            r matches Err(e) ==> is_plan_error(e, enable_rejection(self@, output@)->0),
    {
        proof { use_type_invariant(&self); }
        let ghost old_model = self@;
        if output.name.as_str().is_empty() {
            proof { assert(output@.name.len() == 0); }
            return Err(Error::Plan(PlanError::EmptyName));
        }
        proof { assert(output@.name.len() != 0); }
        if contains_name(&self.disables, &output.name) {
            return Err(Error::Plan(PlanError::Conflict(output.name)));
        }
        if contains_name(&self.seen_enables, &output.name) {
            return Err(Error::Plan(PlanError::DuplicateEnable(output.name)));
        }
        match output.mode {
            Some(m) => {
                if m.width <= 0 || m.height <= 0 || m.refresh_mhz <= 0 {
                    return Err(Error::Plan(PlanError::InvalidMode { width: m.width, height: m.height, refresh: m.refresh_mhz }));
                }
            },
            None => {},
        }
        let ghost old_seen = string_views(self.seen_enables@);
        let OutputPlanBuilder { mut enables, disables, features, mut seen_enables } = self;
        let ghost out = output@;
        seen_enables.push(output.name.clone());
        enables.push(output);
        proof {
            assert(enable_views(enables@) =~= old_model.enables.push(out));
            assert(enable_names(enable_views(enables@)) =~= enable_names(old_model.enables).push(out.name));
            assert(string_views(seen_enables@) =~= old_seen.push(out.name));
        }
        let b = OutputPlanBuilder { enables, disables, features, seen_enables };
        assert(b@ =~= with_enable(old_model, out));
        Ok(b)
    }

    /// Add an output to disable. Rejects an empty name and a name already
    /// enabled.
    pub fn disable(self, name: &str) -> (r: Result<OutputPlanBuilder, Error>)
        ensures
            r is Ok <==> disable_rejection(self@, name@) is None,
            r matches Ok(b) ==> b@ == with_disable(self@, name@),
            r matches Err(e) ==> is_plan_error(e, disable_rejection(self@, name@)->0),
    {
        proof { use_type_invariant(&self); }
        let ghost old_model = self@;
        let name = owned(name);
        if name.as_str().is_empty() {
            proof { assert(name@.len() == 0); }
            return Err(Error::Plan(PlanError::EmptyName));
        }
        proof { assert(name@.len() != 0); }
        if contains_name(&self.seen_enables, &name) {
            return Err(Error::Plan(PlanError::Conflict(name)));
        }
        let OutputPlanBuilder { enables, mut disables, features, seen_enables } = self;
        let ghost nm = name@;
        disables.push(name);
        assert(string_views(disables@) =~= old_model.disables.push(nm));
        let b = OutputPlanBuilder { enables, disables, features, seen_enables };
        assert(b@ =~= with_disable(old_model, nm));
        Ok(b)
    }

    /// Bulk variant of [`enable`](Self::enable). Fails on the first invalid
    /// entry.
    pub fn enable_all(self, items: Vec<EnableOutput>) -> (r: Result<OutputPlanBuilder, Error>)
        ensures
            r is Ok <==> enable_all_result(self@, enable_views(items@)) is Ok,
            r matches Ok(b) ==> enable_all_result(self@, enable_views(items@)) == Ok::<PlanModel, PlanErrorModel>(b@),
            r matches Err(e) ==> is_plan_error(e, enable_all_result(self@, enable_views(items@))->Err_0),
    {
        let mut b = self;
        let mut rest = items;
        let ghost start = b@;
        let ghost all = enable_views(rest@);
        while rest.len() > 0
            invariant
                start == self@,
                all == enable_views(items@),
                enable_all_result(start, all) == enable_all_result(b@, enable_views(rest@)),
            decreases rest@.len(),
        {
            let ghost before = enable_views(rest@);
            let item = rest.remove(0);
            proof {
                assert(enable_views(rest@) =~= before.drop_first());
                assert(before[0] == item@);
            }
            match b.enable(item) {
                Ok(next) => { b = next; },
                Err(e) => { return Err(e); },
            }
        }
        Ok(b)
    }

    /// Bulk variant of [`disable`](Self::disable). Fails on the first
    /// invalid entry.
    pub fn disable_all(self, items: Vec<String>) -> (r: Result<OutputPlanBuilder, Error>)
        ensures
            r is Ok <==> disable_all_result(self@, string_views(items@)) is Ok,
            r matches Ok(b) ==> disable_all_result(self@, string_views(items@)) == Ok::<PlanModel, PlanErrorModel>(b@),
            r matches Err(e) ==> is_plan_error(e, disable_all_result(self@, string_views(items@))->Err_0),
    {
        let mut b = self;
        let mut rest = items;
        let ghost start = b@;
        let ghost all = string_views(rest@);
        while rest.len() > 0
            invariant
                start == self@,
                all == string_views(items@),
                disable_all_result(start, all) == disable_all_result(b@, string_views(rest@)),
            decreases rest@.len(),
        {
            let ghost before = string_views(rest@);
            let item = rest.remove(0);
            proof {
                assert(string_views(rest@) =~= before.drop_first());
                assert(before[0] == item@);
            }
            match b.disable(item.as_str()) {
                Ok(next) => { b = next; },
                Err(e) => { return Err(e); },
            }
        }
        Ok(b)
    }

    /// Mark `name` as the primary output, replacing any earlier primary.
    /// Rejects an empty name and a name already disabled.
    pub fn set_primary(self, name: &str) -> (r: Result<OutputPlanBuilder, Error>)
        ensures
            r is Ok <==> primary_rejection(self@, name@) is None,
            r matches Ok(b) ==> b@ == with_primary(self@, name@),
            r matches Err(e) ==> is_plan_error(e, primary_rejection(self@, name@)->0),
    {
        proof { use_type_invariant(&self); }
        let ghost old_model = self@;
        let name = owned(name);
        if name.as_str().is_empty() {
            proof { assert(name@.len() == 0); }
            return Err(Error::Plan(PlanError::EmptyName));
        }
        proof { assert(name@.len() != 0); }
        if contains_name(&self.disables, &name) {
            return Err(Error::Plan(PlanError::Conflict(name)));
        }
        let OutputPlanBuilder { enables, disables, mut features, seen_enables } = self;
        // Keep at most one Primary: every feature is a Primary, so dropping
        // the existing ones leaves the list empty before the new one goes in.
        let ghost nm = name@;
        features.clear();
        features.push(Feature::Primary { output_name: name });
        assert(feature_views(features@) =~= seq![nm]);
        let b = OutputPlanBuilder { enables, disables, features, seen_enables };
        assert(b@ =~= with_primary(old_model, nm));
        Ok(b)
    }

    /// Finish the plan.
    pub fn build(self) -> (p: OutputPlan)
        ensures
            p@ == self@,
            plan_wf(p@),
    {
        proof { use_type_invariant(&self); }
        OutputPlan { enables: self.enables, disables: self.disables, features: self.features }
    }
}

/// Naming a primary twice keeps only the second: `set_primary` replaces,
/// it never appends, and whether it is accepted does not depend on an
/// earlier primary.
pub proof fn lemma_set_primary_replaces(m: PlanModel, a: Seq<char>, b: Seq<char>)
    ensures
        with_primary(with_primary(m, a), b) == with_primary(m, b),
        with_primary(m, b).primaries.len() == 1,
        primary_rejection(with_primary(m, a), b) == primary_rejection(m, b),
{
    assert(with_primary(with_primary(m, a), b) =~= with_primary(m, b));
}

/// A name cannot be both enabled and disabled, whichever comes first:
/// enabling a disabled name and disabling an enabled one are both refused
/// as a conflict.
pub proof fn lemma_enable_disable_conflict(m: PlanModel, e: EnableModel)
    requires
        e.name.len() > 0,
    ensures
        enable_rejection(with_disable(m, e.name), e) == Some(PlanErrorModel::Conflict(e.name)),
        disable_rejection(with_enable(m, e), e.name) == Some(PlanErrorModel::Conflict(e.name)),
{
    assert(with_disable(m, e.name).disables[m.disables.len() as int] == e.name);
    assert(enable_names(with_enable(m, e).enables)[m.enables.len() as int] == e.name);
}

/// Enabling the same name twice is refused as a duplicate.
pub proof fn lemma_duplicate_enable(m: PlanModel, e: EnableModel, f: EnableModel)
    requires
        e.name.len() > 0,
        f.name == e.name,
        !m.disables.contains(e.name),
    ensures
        enable_rejection(with_enable(m, e), f) == Some(PlanErrorModel::DuplicateEnable(e.name)),
{
    assert(enable_names(with_enable(m, e).enables)[m.enables.len() as int] == e.name);
}

/// What one `enable` of `e` on a plan `m` gives.
pub open spec fn enable_step(m: PlanModel, e: EnableModel) -> Result<PlanModel, PlanErrorModel> {
    match enable_rejection(m, e) {
        Some(err) => Err(err),
        None => Ok(with_enable(m, e)),
    }
}

/// What one `disable` of `name` on a plan `m` gives.
pub open spec fn disable_step(m: PlanModel, name: Seq<char>) -> Result<PlanModel, PlanErrorModel> {
    match disable_rejection(m, name) {
        Some(err) => Err(err),
        None => Ok(with_disable(m, name)),
    }
}

/// Enabling a list is enabling its entries one by one, in order, each on
/// the result of the ones before: nothing for an empty list, and the error
/// of the first refused entry, without looking at later ones.
pub proof fn lemma_enable_all_is_repeated_enable(m: PlanModel, items: Seq<EnableModel>, x: EnableModel)
    ensures
        enable_all_result(m, Seq::empty()) == Ok::<PlanModel, PlanErrorModel>(m),
        enable_all_result(m, items.push(x)) == match enable_all_result(m, items) {
            Ok(m2) => enable_step(m2, x),
            Err(err) => Err(err),
        },
    decreases items.len(),
{
    if items.len() > 0 {
        assert(items.push(x)[0] == items[0]);
        assert(items.push(x).drop_first() =~= items.drop_first().push(x));
        if enable_rejection(m, items[0]) is None {
            lemma_enable_all_is_repeated_enable(with_enable(m, items[0]), items.drop_first(), x);
        }
    } else {
        assert(items.push(x).drop_first() =~= Seq::<EnableModel>::empty());
        assert(items.push(x)[0] == x);
        assert(enable_all_result(with_enable(m, x), Seq::<EnableModel>::empty()) == Ok::<PlanModel, PlanErrorModel>(with_enable(m, x)));
        assert(enable_all_result(m, items) == Ok::<PlanModel, PlanErrorModel>(m));
    }
}

/// Disabling a list is disabling its names one by one, in order, each on
/// the result of the ones before: nothing for an empty list, and the error
/// of the first refused name, without looking at later ones.
pub proof fn lemma_disable_all_is_repeated_disable(m: PlanModel, names: Seq<Seq<char>>, x: Seq<char>)
    ensures
        disable_all_result(m, Seq::empty()) == Ok::<PlanModel, PlanErrorModel>(m),
        disable_all_result(m, names.push(x)) == match disable_all_result(m, names) {
            Ok(m2) => disable_step(m2, x),
            Err(err) => Err(err),
        },
    decreases names.len(),
{
    if names.len() > 0 {
        assert(names.push(x)[0] == names[0]);
        assert(names.push(x).drop_first() =~= names.drop_first().push(x));
        if disable_rejection(m, names[0]) is None {
            lemma_disable_all_is_repeated_disable(with_disable(m, names[0]), names.drop_first(), x);
        }
    } else {
        assert(names.push(x).drop_first() =~= Seq::<Seq<char>>::empty());
        assert(names.push(x)[0] == x);
        assert(disable_all_result(with_disable(m, x), Seq::<Seq<char>>::empty()) == Ok::<PlanModel, PlanErrorModel>(with_disable(m, x)));
        assert(disable_all_result(m, names) == Ok::<PlanModel, PlanErrorModel>(m));
    }
}

/// Disabling a list that is accepted appends its names to the disables
/// and leaves the enables and the primary as they were.
pub proof fn lemma_disable_all_appends(m: PlanModel, names: Seq<Seq<char>>)
    ensures
        disable_all_result(m, names) matches Ok(r) ==> r.disables == m.disables + names && r.enables == m.enables
            && r.primaries == m.primaries,
    decreases names.len(),
{
    if names.len() > 0 {
        lemma_disable_all_appends(with_disable(m, names[0]), names.drop_first());
        assert(m.disables.push(names[0]) + names.drop_first() =~= m.disables + names);
    } else {
        assert(m.disables + names =~= m.disables);
    }
}

/// Enabling a list fails exactly where enabling its entries one by one
/// first fails, and otherwise adds them all in order.
pub proof fn lemma_enable_all_appends(m: PlanModel, items: Seq<EnableModel>)
    ensures
        enable_all_result(m, items) matches Ok(r) ==> r.enables == m.enables + items && r.disables == m.disables
            && r.primaries == m.primaries,
    decreases items.len(),
{
    if items.len() > 0 {
        lemma_enable_all_appends(with_enable(m, items[0]), items.drop_first());
        assert(m.enables.push(items[0]) + items.drop_first() =~= m.enables + items);
    } else {
        assert(m.enables + items =~= m.enables);
    }
}

impl Default for OutputPlanBuilder {
    fn default() -> (b: OutputPlanBuilder)
        ensures
            b@ == empty_plan(),
    {
        OutputPlanBuilder::new()
    }
}

} // verus!
