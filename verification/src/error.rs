//! Crate-wide error type. Every variant carries plain values: operating
//! system errors arrive here already rendered to text.

use vstd::prelude::*;
use crate::edid::EdidError;
use crate::compositor::{CompositorError, PlanError};
use crate::state::StateError;
use crate::text::{decimal, digit, digit_char, push_char, push_decimal, push_str};

verus! {

/// Crate-wide error.
#[derive(Debug)]
pub enum Error {
    /// CVT-RB couldn't produce a valid mode for these inputs.
    InvalidTiming { width: u32, height: u32, refresh: u32, reason: String },
    /// Generic I/O fallback; most paths use a more specific variant.
    Io(String),
    /// EDID build failure; the inner value carries the offending field.
    Edid(EdidError),
    /// Compositor adapter failure (timeout, protocol error, manager went away).
    Compositor(CompositorError),
    /// `OutputPlanBuilder` rejected the plan at construction.
    Plan(PlanError),
    /// State file I/O, JSON parse, or schema-version mismatch.
    State(StateError),
    /// configfs `mkdir` rejected by the kernel.
    Mkdir { path: String, source: String },
    /// configfs symlink rejected; target path missing or topology invalid.
    Symlink { link: String, target: String, source: String },
    /// configfs attribute write rejected.
    AttributeWrite { path: String, source: String },
    /// configfs `rmdir` rejected; usually unremoved children block it.
    Rmdir { path: String, source: String },
    /// `/sys/kernel/config` isn't a configfs mount.
    ConfigfsNotMounted,
    /// vkms is loaded but its configfs interface isn't present.
    VkmsConfigfsMissing,
}

/// What `format!("{:?}", s)` renders for the string `s`.
pub uninterp spec fn debug_str(s: Seq<char>) -> Seq<char>;

/// The fractional digits of `f` thousandths (0 < f < 1000), without
/// trailing zeros.
pub open spec fn millis_fraction(f: nat) -> Seq<char> {
    let d1 = digit_char(f / 100);
    let d2 = digit_char(f / 10 % 10);
    let d3 = digit_char(f % 10);
    if f % 100 == 0 {
        seq![d1]
    } else if f % 10 == 0 {
        seq![d1, d2]
    } else {
        seq![d1, d2, d3]
    }
}

/// How `Debug` shows `Duration::from_millis(ms)`: `0ns` for zero, whole
/// milliseconds below a second, else seconds with the fraction's trailing
/// zeros left out (`1s`, `1.5s`, `2.05s`).
pub open spec fn duration_debug(ms: u64) -> Seq<char> {
    if ms == 0 {
        seq!['0', 'n', 's']
    } else if ms < 1000 {
        decimal(ms as nat) + seq!['m', 's']
    } else if ms % 1000 == 0 {
        decimal((ms / 1000) as nat) + seq!['s']
    } else {
        decimal((ms / 1000) as nat) + seq!['.'] + millis_fraction((ms % 1000) as nat) + seq!['s']
    }
}

/// `format!("{:?}", s)`: the string quoted and escaped the way `Debug`
/// shows it.
#[verifier::external_body]
fn quoted(s: &str) -> (r: String)
    ensures
        r@ == debug_str(s@),
{
    format!("{:?}", s)
}

/// The text `Debug` gives for a duration of `ms` milliseconds.
fn duration_text(ms: u64) -> (r: String)
    ensures
        r@ == duration_debug(ms),
{
    let mut r = String::new();
    if ms == 0 {
        push_char(&mut r, '0');
        push_char(&mut r, 'n');
        push_char(&mut r, 's');
        assert(r@ =~= seq!['0', 'n', 's']);
    } else if ms < 1000 {
        push_decimal(&mut r, ms);
        push_char(&mut r, 'm');
        push_char(&mut r, 's');
        assert(r@ =~= decimal(ms as nat) + seq!['m', 's']);
    } else {
        push_decimal(&mut r, ms / 1000);
        let f = ms % 1000;
        if f != 0 {
            push_char(&mut r, '.');
            let ghost before = r@;
            push_char(&mut r, digit((f / 100) as u32));
            if f % 100 != 0 {
                push_char(&mut r, digit((f / 10 % 10) as u32));
                if f % 10 != 0 {
                    push_char(&mut r, digit((f % 10) as u32));
                }
            }
            assert(r@ =~= before + millis_fraction(f as nat));
        }
        push_char(&mut r, 's');
        assert(r@ =~= duration_debug(ms));
    }
    r
}

/// Decimal text of a signed value.
pub open spec fn signed_decimal(i: int) -> Seq<char> {
    if i < 0 { "-"@ + decimal((-i) as nat) } else { decimal(i as nat) }
}

fn push_signed(s: &mut String, i: i32)
    ensures
        final(s)@ == old(s)@ + signed_decimal(i as int),
{
    if i < 0 {
        push_str(s, "-");
        let m: u64 = (0i64 - (i as i64)) as u64;
        push_decimal(s, m);
        assert(final(s)@ =~= old(s)@ + ("-"@ + decimal((-i) as nat)));
    } else {
        push_decimal(s, i as u64);
    }
}

pub open spec fn edid_error_text(e: EdidError) -> Seq<char> {
    match e {
        EdidError::Field { field, reason } => "EDID field `"@ + field@ + "`: "@ + reason@,
        EdidError::DescriptorString { field, value, reason } =>
            "descriptor string for "@ + field@ + " ("@ + debug_str(value@) + "): "@ + reason@,
    }
}

pub open spec fn compositor_error_text(e: CompositorError) -> Seq<char> {
    match e {
        CompositorError::Dispatch { context, source } =>
            "Wayland dispatch error in "@ + context@ + ": "@ + source@,
        CompositorError::Dbus { context, source } => "D-Bus error in "@ + context@ + ": "@ + source@,
        CompositorError::Timeout { reason, timeout_ms } =>
            "timed out after "@ + duration_debug(timeout_ms) + " waiting for "@ + reason@,
        CompositorError::ApplyRejected { reason } =>
            "compositor rejected output configuration ("@ + reason@ + ")"@,
        CompositorError::ApplyFailed { reason } => match reason {
            Some(r) => "compositor failed apply"@ + ": "@ + r@,
            None => "compositor failed apply"@,
        },
        CompositorError::CompositorWentAway => "compositor went away mid-operation (manager global removed)"@,
        CompositorError::MissingProtocol { compositor, manager, expected, hint } =>
            compositor@ + " advertises "@ + manager@ + " but not "@ + expected@ + " (look for "@ + hint@
                + "* globals)"@,
    }
}

pub open spec fn plan_error_text(e: PlanError) -> Seq<char> {
    match e {
        PlanError::Conflict(n) => "name `"@ + n@ + "` appears in both enable and disable"@,
        PlanError::DuplicateEnable(n) => "duplicate enable for name `"@ + n@ + "`"@,
        PlanError::EmptyName => "EnableOutput has empty name"@,
        PlanError::InvalidMode { width, height, refresh } => "invalid mode: "@ + signed_decimal(width as int) + "x"@
            + signed_decimal(height as int) + "@"@ + signed_decimal(refresh as int) + "mHz"@,
    }
}

pub open spec fn state_error_text(e: StateError) -> Seq<char> {
    match e {
        StateError::Io { path, source } => "state file I/O at "@ + path@ + ": "@ + source@,
        StateError::Parse { path, source } => "state file at "@ + path@ + " is malformed JSON: "@ + source@,
        StateError::Schema { path, expected, found } => "state file at "@ + path@ + " has schema version "@
            + decimal(found as nat) + ", expected "@ + decimal(expected as nat) + " (run `fauxput reset`)"@,
    }
}

/// The user-facing description of an error.
pub open spec fn error_text(e: Error) -> Seq<char> {
    match e {
        Error::InvalidTiming { width, height, refresh, reason } => "invalid timing for "@ + decimal(width as nat)
            + "x"@ + decimal(height as nat) + "@"@ + decimal(refresh as nat) + "Hz: "@ + reason@,
        Error::Io(s) => "io: "@ + s@,
        Error::Edid(e) => edid_error_text(e),
        Error::Compositor(e) => compositor_error_text(e),
        Error::Plan(e) => plan_error_text(e),
        Error::State(e) => state_error_text(e),
        Error::Mkdir { path, source } => "kernel rejected mkdir at "@ + path@ + ": "@ + source@,
        Error::Symlink { link, target, source } => "kernel rejected symlink "@ + link@ + " -> "@ + target@ + ": "@
            + source@,
        Error::AttributeWrite { path, source } => "kernel rejected attribute write at "@ + path@ + ": "@ + source@,
        Error::Rmdir { path, source } => "kernel rejected rmdir at "@ + path@ + ": "@ + source@,
        Error::ConfigfsNotMounted =>
            "configfs not mounted at /sys/kernel/config (mount it or check kernel CONFIG_CONFIGFS_FS)"@,
        Error::VkmsConfigfsMissing => "vkms configfs interface not present at /sys/kernel/config/vkms"@,
    }
}

impl EdidError {
    /// The user-facing description of this error.
    pub fn message(&self) -> (r: String)
        ensures
            r@ == edid_error_text(*self),
    {
        let mut r = String::new();
        match self {
            EdidError::Field { field, reason } => {
                push_str(&mut r, "EDID field `");
                push_str(&mut r, field.as_str());
                push_str(&mut r, "`: ");
                push_str(&mut r, reason.as_str());
            },
            EdidError::DescriptorString { field, value, reason } => {
                push_str(&mut r, "descriptor string for ");
                push_str(&mut r, field.as_str());
                push_str(&mut r, " (");
                let q = quoted(value.as_str());
                push_str(&mut r, q.as_str());
                push_str(&mut r, "): ");
                push_str(&mut r, reason.as_str());
            },
        }
        assert(r@ =~= edid_error_text(*self));
        r
    }
}

impl CompositorError {
    /// The user-facing description of this error.
    pub fn message(&self) -> (r: String)
        ensures
            r@ == compositor_error_text(*self),
    {
        let mut r = String::new();
        match self {
            CompositorError::Dispatch { context, source } => {
                push_str(&mut r, "Wayland dispatch error in ");
                push_str(&mut r, context.as_str());
                push_str(&mut r, ": ");
                push_str(&mut r, source.as_str());
            },
            CompositorError::Dbus { context, source } => {
                push_str(&mut r, "D-Bus error in ");
                push_str(&mut r, context.as_str());
                push_str(&mut r, ": ");
                push_str(&mut r, source.as_str());
            },
            CompositorError::Timeout { reason, timeout_ms } => {
                push_str(&mut r, "timed out after ");
                let d = duration_text(*timeout_ms);
                push_str(&mut r, d.as_str());
                push_str(&mut r, " waiting for ");
                push_str(&mut r, reason.as_str());
            },
            CompositorError::ApplyRejected { reason } => {
                push_str(&mut r, "compositor rejected output configuration (");
                push_str(&mut r, reason.as_str());
                push_str(&mut r, ")");
            },
            CompositorError::ApplyFailed { reason } => {
                push_str(&mut r, "compositor failed apply");
                match reason {
                    Some(x) => {
                        push_str(&mut r, ": ");
                        push_str(&mut r, x.as_str());
                    },
                    None => {},
                }
            },
            CompositorError::CompositorWentAway => {
                push_str(&mut r, "compositor went away mid-operation (manager global removed)");
            },
            CompositorError::MissingProtocol { compositor, manager, expected, hint } => {
                push_str(&mut r, compositor.as_str());
                push_str(&mut r, " advertises ");
                push_str(&mut r, manager.as_str());
                push_str(&mut r, " but not ");
                push_str(&mut r, expected.as_str());
                push_str(&mut r, " (look for ");
                push_str(&mut r, hint.as_str());
                push_str(&mut r, "* globals)");
            },
        }
        assert(r@ =~= compositor_error_text(*self));
        r
    }
}

impl PlanError {
    /// The user-facing description of this error.
    pub fn message(&self) -> (r: String)
        ensures
            r@ == plan_error_text(*self),
    {
        let mut r = String::new();
        match self {
            PlanError::Conflict(n) => {
                push_str(&mut r, "name `");
                push_str(&mut r, n.as_str());
                push_str(&mut r, "` appears in both enable and disable");
            },
            PlanError::DuplicateEnable(n) => {
                push_str(&mut r, "duplicate enable for name `");
                push_str(&mut r, n.as_str());
                push_str(&mut r, "`");
            },
            PlanError::EmptyName => {
                push_str(&mut r, "EnableOutput has empty name");
            },
            PlanError::InvalidMode { width, height, refresh } => {
                push_str(&mut r, "invalid mode: ");
                push_signed(&mut r, *width);
                push_str(&mut r, "x");
                push_signed(&mut r, *height);
                push_str(&mut r, "@");
                push_signed(&mut r, *refresh);
                push_str(&mut r, "mHz");
            },
        }
        assert(r@ =~= plan_error_text(*self));
        r
    }
}

impl StateError {
    /// The user-facing description of this error.
    pub fn message(&self) -> (r: String)
        ensures
            r@ == state_error_text(*self),
    {
        let mut r = String::new();
        match self {
            StateError::Io { path, source } => {
                push_str(&mut r, "state file I/O at ");
                push_str(&mut r, path.as_str());
                push_str(&mut r, ": ");
                push_str(&mut r, source.as_str());
            },
            StateError::Parse { path, source } => {
                push_str(&mut r, "state file at ");
                push_str(&mut r, path.as_str());
                push_str(&mut r, " is malformed JSON: ");
                push_str(&mut r, source.as_str());
            },
            StateError::Schema { path, expected, found } => {
                push_str(&mut r, "state file at ");
                push_str(&mut r, path.as_str());
                push_str(&mut r, " has schema version ");
                push_decimal(&mut r, *found as u64);
                push_str(&mut r, ", expected ");
                push_decimal(&mut r, *expected as u64);
                push_str(&mut r, " (run `fauxput reset`)");
            },
        }
        assert(r@ =~= state_error_text(*self));
        r
    }
}

impl Error {
    /// The user-facing description of this error.
    pub fn message(&self) -> (r: String)
        ensures
            r@ == error_text(*self),
    {
        let mut r = String::new();
        match self {
            Error::InvalidTiming { width, height, refresh, reason } => {
                push_str(&mut r, "invalid timing for ");
                push_decimal(&mut r, *width as u64);
                push_str(&mut r, "x");
                push_decimal(&mut r, *height as u64);
                push_str(&mut r, "@");
                push_decimal(&mut r, *refresh as u64);
                push_str(&mut r, "Hz: ");
                push_str(&mut r, reason.as_str());
            },
            Error::Io(s) => {
                push_str(&mut r, "io: ");
                push_str(&mut r, s.as_str());
            },
            Error::Edid(e) => { r = e.message(); },
            Error::Compositor(e) => { r = e.message(); },
            Error::Plan(e) => { r = e.message(); },
            Error::State(e) => { r = e.message(); },
            Error::Mkdir { path, source } => {
                push_str(&mut r, "kernel rejected mkdir at ");
                push_str(&mut r, path.as_str());
                push_str(&mut r, ": ");
                push_str(&mut r, source.as_str());
            },
            Error::Symlink { link, target, source } => {
                push_str(&mut r, "kernel rejected symlink ");
                push_str(&mut r, link.as_str());
                push_str(&mut r, " -> ");
                push_str(&mut r, target.as_str());
                push_str(&mut r, ": ");
                push_str(&mut r, source.as_str());
            },
            Error::AttributeWrite { path, source } => {
                push_str(&mut r, "kernel rejected attribute write at ");
                push_str(&mut r, path.as_str());
                push_str(&mut r, ": ");
                push_str(&mut r, source.as_str());
            },
            Error::Rmdir { path, source } => {
                push_str(&mut r, "kernel rejected rmdir at ");
                push_str(&mut r, path.as_str());
                push_str(&mut r, ": ");
                push_str(&mut r, source.as_str());
            },
            Error::ConfigfsNotMounted => {
                push_str(&mut r, "configfs not mounted at /sys/kernel/config (mount it or check kernel CONFIG_CONFIGFS_FS)");
            },
            Error::VkmsConfigfsMissing => {
                push_str(&mut r, "vkms configfs interface not present at /sys/kernel/config/vkms");
            },
        }
        assert(r@ =~= error_text(*self));
        r
    }
}

} // verus!
