//! The persistent record of active instances and the rules for reading
//! and updating it. Reading and writing the file itself happens outside
//! the library; this module decides what a read means and what a write
//! should contain.

use vstd::prelude::*;
use crate::backend::{DisplayHandle, HandleModel};
use crate::compositor::{HeadModel, OutputSnapshot, head_views, string_views};
use crate::edid::EdidSpec;
use crate::error::Error;
use crate::text::{owned, push_str};

verus! {

pub const STATE_DIR: &'static str = "/run/fauxput";
pub const STATE_FILE: &'static str = "/run/fauxput/active.json";
pub const STATE_LOCK: &'static str = "/run/fauxput/state.lock";
pub const SCHEMA_VERSION: u32 = 1;

/// Errors associated with reading, writing and updating the state file.
#[derive(Debug)]
pub enum StateError {
    /// File-system I/O failed.
    Io { path: String, source: String },
    /// JSON parse or serialize failed.
    Parse { path: String, source: String },
    /// The file on disk was written by a different schema version.
    Schema { path: String, expected: u32, found: u32 },
}

/// Compositor-side mutations a single `up` made beyond adding the new
/// head, so `down` can reverse them.
#[derive(Clone, Debug)]
pub struct LayoutChanges {
    /// Real outputs explicitly disabled.
    pub disabled_outputs: Vec<String>,
    /// The output that was primary before `up` reassigned it.
    pub previous_primary: Option<String>,
}

/// Abstract value of [`LayoutChanges`].
pub struct ChangesModel {
    pub disabled_outputs: Seq<Seq<char>>,
    pub previous_primary: Option<Seq<char>>,
}

pub open spec fn opt_string_view(o: Option<String>) -> Option<Seq<char>> {
    match o {
        Some(s) => Some(s@),
        None => None,
    }
}

impl View for LayoutChanges {
    type V = ChangesModel;

    open spec fn view(&self) -> ChangesModel {
        ChangesModel {
            disabled_outputs: string_views(self.disabled_outputs@),
            previous_primary: opt_string_view(self.previous_primary),
        }
    }
}

impl Default for LayoutChanges {
    fn default() -> (r: LayoutChanges)
        ensures
            r@.disabled_outputs.len() == 0,
            r@.previous_primary is None,
    {
        LayoutChanges { disabled_outputs: Vec::new(), previous_primary: None }
    }
}

/// Everything `down`/`reset` need to roll back a single `up`.
#[derive(Clone, Debug)]
pub struct InstanceRecord {
    pub handle: DisplayHandle,
    /// Connector name the compositor settled on.
    pub compositor_head_name: Option<String>,
    pub spec: EdidSpec,
    /// Compositor layout taken just before the kernel-side create.
    pub compositor_snapshot: Option<OutputSnapshot>,
    /// True iff the adapter actually applied a configuration plan.
    pub compositor_configured: bool,
    pub layout_changes: LayoutChanges,
}

/// Abstract value of an [`InstanceRecord`].
pub struct RecordModel {
    pub handle: HandleModel,
    pub head_name: Option<Seq<char>>,
    pub spec: EdidSpec,
    pub snapshot: Option<Seq<HeadModel>>,
    pub configured: bool,
    pub changes: ChangesModel,
}

pub open spec fn opt_snapshot_view(o: Option<OutputSnapshot>) -> Option<Seq<HeadModel>> {
    match o {
        Some(s) => Some(head_views(s.heads@)),
        None => None,
    }
}

impl View for InstanceRecord {
    type V = RecordModel;

    open spec fn view(&self) -> RecordModel {
        RecordModel {
            handle: self.handle@,
            head_name: opt_string_view(self.compositor_head_name),
            spec: self.spec,
            snapshot: opt_snapshot_view(self.compositor_snapshot),
            configured: self.compositor_configured,
            changes: self.layout_changes@,
        }
    }
}

pub open spec fn record_views(v: Seq<InstanceRecord>) -> Seq<RecordModel> {
    v.map_values(|r: InstanceRecord| r@)
}

/// Top-level shape of the state file.
#[derive(Clone, Debug)]
pub struct ActiveState {
    pub schema_version: u32,
    pub instances: Vec<InstanceRecord>,
}

impl Default for ActiveState {
    fn default() -> (r: ActiveState)
        ensures
            r.schema_version == SCHEMA_VERSION,
            r.instances@.len() == 0,
    {
        ActiveState { schema_version: SCHEMA_VERSION, instances: Vec::new() }
    }
}

/// What `up` learns once the compositor has been configured for a head.
pub struct HeadConfigured {
    pub head_name: String,
    pub layout_changes: LayoutChanges,
}

/// Index of the newest record whose handle has local id `name`.
pub open spec fn newest_with_id(recs: Seq<RecordModel>, name: Seq<char>) -> Option<int>
    decreases recs.len(),
{
    if recs.len() == 0 {
        None
    } else if recs.last().handle.local_id == name {
        Some(recs.len() - 1)
    } else {
        newest_with_id(recs.drop_last(), name)
    }
}

/// The record an update lands on is the newest one with that local id:
/// it has the id and no later record has it; when no record has the id
/// there is none.
pub proof fn lemma_newest_with_id(recs: Seq<RecordModel>, name: Seq<char>)
    ensures
        newest_with_id(recs, name) matches Some(i) ==> 0 <= i < recs.len() && recs[i].handle.local_id == name
            && forall|j: int| i < j < recs.len() ==> (#[trigger] recs[j]).handle.local_id != name,
        newest_with_id(recs, name) is None ==> forall|j: int| 0 <= j < recs.len()
            ==> (#[trigger] recs[j]).handle.local_id != name,
    decreases recs.len(),
{
    if recs.len() > 0 {
        let p = recs.drop_last();
        lemma_newest_with_id(p, name);
        assert(recs.last() == recs[recs.len() - 1]);
        if recs.last().handle.local_id != name {
            assert(newest_with_id(recs, name) == newest_with_id(p, name));
            match newest_with_id(p, name) {
                Some(i) => {
                    assert(p[i] == recs[i]);
                    assert forall|j: int| i < j < recs.len() implies (#[trigger] recs[j]).handle.local_id != name by {
                        if j < p.len() { assert(p[j] == recs[j]); }
                    }
                },
                None => {
                    assert forall|j: int| 0 <= j < recs.len() implies (#[trigger] recs[j]).handle.local_id != name by {
                        if j < p.len() { assert(p[j] == recs[j]); }
                    }
                },
            }
        }
    }
}

/// `r` after the compositor reported head `head` with layout `changes`.
pub open spec fn configured_record(r: RecordModel, head: Seq<char>, changes: ChangesModel) -> RecordModel {
    RecordModel { head_name: Some(head), configured: true, changes, ..r }
}

impl ActiveState {
    /// Append a record for a freshly created instance.
    pub fn push_instance(&mut self, record: InstanceRecord)
        ensures
            final(self).schema_version == old(self).schema_version,
            record_views(final(self).instances@) == record_views(old(self).instances@).push(record@),
    {
        let ghost r = record@;
        self.instances.push(record);
        assert(record_views(self.instances@) =~= record_views(old(self).instances@).push(r));
    }

    /// Record the compositor outcome on the newest record with local id
    /// `name`. Returns whether such a record exists; when none does the
    /// state is left as it was.
    pub fn update_instance(&mut self, name: &str, update: HeadConfigured) -> (found: bool)
        ensures
            final(self).schema_version == old(self).schema_version,
            found <==> newest_with_id(record_views(old(self).instances@), name@) is Some,
            match newest_with_id(record_views(old(self).instances@), name@) {
                Some(i) => record_views(final(self).instances@) == record_views(old(self).instances@).update(
                    i,
                    configured_record(record_views(old(self).instances@)[i], update.head_name@, update.layout_changes@),
                ),
                None => record_views(final(self).instances@) == record_views(old(self).instances@),
            },
    {
        let ghost before = record_views(self.instances@);
        let mut i: usize = self.instances.len();
        let key = owned(name);
        assert(before.take(i as int) =~= before);
        while i > 0
            invariant
                i <= self.instances@.len(),
                before == record_views(self.instances@),
                before == record_views(old(self).instances@),
                self.schema_version == old(self).schema_version,
                key@ == name@,
                newest_with_id(before, name@) == newest_with_id(before.take(i as int), name@),
            decreases i,
        {
            proof {
                assert(before.take(i as int).drop_last() =~= before.take(i as int - 1));
                assert(before.take(i as int).last() == before[i as int - 1]);
            }
            if self.instances[i - 1].handle.local_id == key {
                assert(newest_with_id(before, name@) == Some(i as int - 1));
                let HeadConfigured { head_name, layout_changes } = update;
                let ghost hn = head_name@;
                let ghost lc = layout_changes@;
                let mut rec = self.instances.remove(i - 1);
                rec.compositor_head_name = Some(head_name);
                rec.compositor_configured = true;
                rec.layout_changes = layout_changes;
                self.instances.insert(i - 1, rec);
                proof {
                    assert(record_views(self.instances@) =~= before.update(i as int - 1,
                        configured_record(before[i as int - 1], hn, lc)));
                }
                return true;
            }
            i = i - 1;
        }
        proof {
            assert(before.take(0) =~= Seq::<RecordModel>::empty());
        }
        false
    }
}

/// The outcome of reading the state file from disk.
pub enum StateRead {
    /// No file yet: the first run.
    Missing,
    /// The read failed; the text describes why.
    Failed(String),
    /// The bytes are not a valid state document; the text describes why.
    Malformed(String),
    /// The bytes decoded to this state.
    Parsed(ActiveState),
}

/// Locator for the on-disk state.
pub struct StateStore {
    file: String,
    dir: String,
    lock_file: String,
}

impl StateStore {
    pub closed spec fn spec_file(&self) -> Seq<char> { self.file@ }
    pub closed spec fn spec_dir(&self) -> Seq<char> { self.dir@ }
    pub closed spec fn spec_lock_file(&self) -> Seq<char> { self.lock_file@ }

    /// The store at the standard location under `/run/fauxput`.
    pub fn new() -> (s: StateStore)
        ensures
            s.spec_file() == STATE_FILE@,
            s.spec_dir() == STATE_DIR@,
            s.spec_lock_file() == STATE_LOCK@,
    {
        StateStore { file: owned(STATE_FILE), dir: owned(STATE_DIR), lock_file: owned(STATE_LOCK) }
    }

    /// A store rooted at `dir`, holding `active.json` and `state.lock`.
    pub fn with_dir(dir: &str) -> (s: StateStore)
        ensures
            s.spec_dir() == dir@,
            s.spec_file() == dir@ + "/active.json"@,
            s.spec_lock_file() == dir@ + "/state.lock"@,
    {
        let mut file = owned(dir);
        push_str(&mut file, "/active.json");
        let mut lock_file = owned(dir);
        push_str(&mut lock_file, "/state.lock");
        StateStore { file, dir: owned(dir), lock_file }
    }

    /// Path to the active state file.
    pub fn path(&self) -> (r: &str)
        ensures
            r@ == self.spec_file(),
    {
        self.file.as_str()
    }

    /// Directory holding the state file.
    pub fn dir(&self) -> (r: &str)
        ensures
            r@ == self.spec_dir(),
    {
        self.dir.as_str()
    }

    /// Path to the advisory lock file.
    pub fn lock_path(&self) -> (r: &str)
        ensures
            r@ == self.spec_lock_file(),
    {
        self.lock_file.as_str()
    }

    /// What a read of the state file yields: a missing file is an empty
    /// state, a failed read or a malformed document is an error, and a
    /// document with another schema version is an error.
    pub fn load_from(&self, read: StateRead) -> (r: Result<ActiveState, Error>)
        ensures
            match read {
                StateRead::Missing => r matches Ok(s) && s.schema_version == SCHEMA_VERSION && s.instances@.len() == 0,
                StateRead::Failed(m) => r matches Err(Error::State(StateError::Io { path, source }))
                    && path@ == self.spec_file() && source@ == m@,
                StateRead::Malformed(m) => r matches Err(Error::State(StateError::Parse { path, source }))
                    && path@ == self.spec_file() && source@ == m@,
                StateRead::Parsed(s) => if s.schema_version == SCHEMA_VERSION {
                    r matches Ok(t) && t.schema_version == s.schema_version
                        && record_views(t.instances@) == record_views(s.instances@)
                } else {
                    r matches Err(Error::State(StateError::Schema { path, expected, found }))
                        && path@ == self.spec_file() && expected == SCHEMA_VERSION && found == s.schema_version
                },
            },
    {
        match read {
            StateRead::Missing => Ok(ActiveState::default()),
            StateRead::Failed(m) => Err(Error::State(StateError::Io { path: self.file.clone(), source: m })),
            StateRead::Malformed(m) => Err(Error::State(StateError::Parse { path: self.file.clone(), source: m })),
            StateRead::Parsed(s) => {
                if s.schema_version != SCHEMA_VERSION {
                    Err(Error::State(StateError::Schema {
                        path: self.file.clone(),
                        expected: SCHEMA_VERSION,
                        found: s.schema_version,
                    }))
                } else {
                    Ok(s)
                }
            },
        }
    }
}

} // verus!
