//! configfs-vkms backend: the decisions behind creating and destroying
//! single-output vkms instances under `/sys/kernel/config/vkms/<name>/`.
//!
//! Creating an instance walks the kernel's fixed schema forward as a list
//! of filesystem operations; if one fails, the directories and links made
//! so far are undone in reverse. Destroying one removes the live tree in
//! the order configfs requires. The operations themselves are carried out
//! by the caller; this module decides which ones, in which order, and what
//! their outcomes mean.

use vstd::prelude::*;
use vstd::string::StrSliceExecFns;
use crate::backend::{BackendCapabilities, CreateOutcome, DisplayHandle, FeatureAcceptance, HandleModel};
use crate::compositor::string_views;
use crate::edid::{EdidSpec, build as build_edid, build_error_is, edid_accepts, edid_block};
use crate::edid::timing::cvt_rb_timing;
use crate::error::Error;
use crate::text::{decimal, digit_char, owned, push_decimal, push_str};

verus! {

pub const BACKEND_ID: &'static str = "configfs-vkms";
pub const CONFIGFS_ROOT: &'static str = "/sys/kernel/config";
pub const CONFIGFS_VKMS_ROOT: &'static str = "/sys/kernel/config/vkms";
/// Name prefix of every instance this tool creates.
pub const INSTANCE_PREFIX: &'static str = "fauxput-";

// ---------------------------------------------------------------------------
// Instance names
// ---------------------------------------------------------------------------

pub open spec fn is_digit(c: char) -> bool {
    '0' <= c && c <= '9'
}

/// Value of a string of decimal digits.
pub open spec fn digits_value(s: Seq<char>) -> nat
    decreases s.len(),
{
    if s.len() == 0 {
        0
    } else {
        digits_value(s.drop_last()) * 10 + (s.last() as nat - '0' as nat) as nat
    }
}

/// `s` without a leading `+`.
pub open spec fn digit_part(s: Seq<char>) -> Seq<char> {
    if s.len() > 0 && s[0] == '+' { s.drop_first() } else { s }
}

/// What `str::parse::<u32>` accepts: an optional `+`, then one or more
/// ASCII digits whose value fits in a `u32`.
pub open spec fn parse_u32(s: Seq<char>) -> Option<u32> {
    let d = digit_part(s);
    if d.len() > 0 && (forall|i: int| 0 <= i < d.len() ==> is_digit(#[trigger] d[i])) && digits_value(d) <= u32::MAX {
        Some(digits_value(d) as u32)
    } else {
        None
    }
}

/// The trailing index of a `fauxput-N` name.
pub open spec fn index_from_name(name: Seq<char>) -> Option<u32> {
    let p = INSTANCE_PREFIX@;
    if name.len() >= p.len() && name.take(p.len() as int) == p {
        parse_u32(name.skip(p.len() as int))
    } else {
        None
    }
}

proof fn lemma_digit_char_value(d: nat)
    requires
        d < 10,
    ensures
        is_digit(digit_char(d)),
        digit_char(d) as nat - '0' as nat == d,
{
}

proof fn lemma_decimal_digits(k: nat)
    ensures
        decimal(k).len() > 0,
        forall|i: int| 0 <= i < decimal(k).len() ==> is_digit(#[trigger] decimal(k)[i]),
        digits_value(decimal(k)) == k,
    decreases k,
{
    lemma_digit_char_value(k % 10);
    if k < 10 {
        assert(decimal(k) == seq![digit_char(k)]);
        assert(decimal(k).drop_last() =~= Seq::<char>::empty());
        assert(decimal(k).last() == digit_char(k));
        assert(digits_value(decimal(k)) == digits_value(decimal(k).drop_last()) * 10
            + (decimal(k).last() as nat - '0' as nat) as nat);
    } else {
        lemma_decimal_digits(k / 10);
        let d = decimal(k);
        assert(d.drop_last() =~= decimal(k / 10));
        assert(d.last() == digit_char(k % 10));
        assert(digits_value(d) == digits_value(d.drop_last()) * 10 + (d.last() as nat - '0' as nat) as nat);
        assert(digits_value(d) == (k / 10) * 10 + k % 10);
        assert forall|i: int| 0 <= i < d.len() implies is_digit(#[trigger] d[i]) by {
            if i < d.len() - 1 { assert(d[i] == decimal(k / 10)[i]); }
        }
    }
}

/// Naming and parsing agree: the name made for index `k` reads back as
/// index `k`.
pub proof fn lemma_index_of_name(k: nat)
    requires
        k <= u32::MAX,
    ensures
        index_from_name(INSTANCE_PREFIX@ + decimal(k)) == Some(k as u32),
{
    reveal_strlit("fauxput-");
    lemma_decimal_digits(k);
    let n = INSTANCE_PREFIX@ + decimal(k);
    assert(n.take(INSTANCE_PREFIX@.len() as int) =~= INSTANCE_PREFIX@);
    assert(n.skip(INSTANCE_PREFIX@.len() as int) =~= decimal(k));
    assert(decimal(k)[0] != '+');
    assert(digit_part(decimal(k)) == decimal(k));
}

fn parse_u32_exec(s: &str) -> (r: Option<u32>)
    ensures
        r == parse_u32(s@),
{
    let n = s.unicode_len();
    let mut start: usize = 0;
    if n > 0 && s.get_char(0) == '+' {
        start = 1;
    }
    let ghost d = digit_part(s@);
    assert(d =~= s@.skip(start as int));
    if start == n {
        return None;
    }
    // Saturates at 2^32 so that every value too large for a u32 is
    // recognised once the whole string has been read.
    let mut acc: u64 = 0;
    let mut j: usize = start;
    while j < n
        invariant
            n == s@.len(),
            start <= j <= n,
            d =~= s@.skip(start as int),
            d == digit_part(s@),
            forall|i: int| 0 <= i < j - start ==> is_digit(#[trigger] d[i]),
            acc as int == if digits_value(d.take(j - start)) < 0x1_0000_0000 { digits_value(d.take(j - start)) as int } else { 0x1_0000_0000 },
        decreases n - j,
    {
        let c = s.get_char(j);
        if !('0' <= c && c <= '9') {
            assert(d[j - start] == c);
            assert(!is_digit(d[j - start]));
            assert(d.len() > 0);
            assert(parse_u32(s@) is None);
            return None;
        }
        let v = (c as u32 - '0' as u32) as u64;
        proof {
            assert(d.take(j - start + 1).drop_last() =~= d.take(j - start));
            assert(d.take(j - start + 1).last() == c);
        }
        acc = if acc >= 0x1_0000_0000 { 0x1_0000_0000 } else {
            let t = acc * 10 + v;
            if t >= 0x1_0000_0000 { 0x1_0000_0000 } else { t }
        };
        j = j + 1;
    }
    assert(d.take(n - start) =~= d);
    if acc > 0xFFFF_FFFF {
        None
    } else {
        Some(acc as u32)
    }
}

fn starts_with_prefix(name: &str) -> (r: bool)
    ensures
        r == (name@.len() >= INSTANCE_PREFIX@.len() && name@.take(INSTANCE_PREFIX@.len() as int) == INSTANCE_PREFIX@),
{
    let p = INSTANCE_PREFIX;
    let pl = p.unicode_len();
    let n = name.unicode_len();
    if n < pl {
        return false;
    }
    let head = owned(name.substring_char(0, pl));
    assert(head@ =~= name@.take(pl as int));
    head == owned(p)
}

/// Parse the trailing index from a `fauxput-N` name.
pub fn instance_index_from_name(name: &str) -> (r: Option<u32>)
    ensures
        r == index_from_name(name@),
{
    if !starts_with_prefix(name) {
        return None;
    }
    let pl = INSTANCE_PREFIX.unicode_len();
    let n = name.unicode_len();
    let rest = name.substring_char(pl, n);
    assert(rest@ =~= name@.skip(pl as int));
    parse_u32_exec(rest)
}

/// The indices of the instance names among `names`, in order.
pub open spec fn parsed_indices(names: Seq<Seq<char>>) -> Seq<u32>
    decreases names.len(),
{
    if names.len() == 0 {
        Seq::empty()
    } else {
        let rest = parsed_indices(names.drop_last());
        match index_from_name(names.last()) {
            Some(i) => rest.push(i),
            None => rest,
        }
    }
}

pub open spec fn sorted(s: Seq<u32>) -> bool {
    forall|i: int, j: int| 0 <= i <= j < s.len() ==> s[i] <= s[j]
}

/// `s` holds the values of `of` in ascending order.
pub open spec fn is_sorted_perm(s: Seq<u32>, of: Seq<u32>) -> bool {
    sorted(s) && s.to_multiset() == of.to_multiset()
}

/// How many leading entries of `s` equal their position.
pub open spec fn run_len(s: Seq<u32>) -> nat
    decreases s.len(),
{
    if s.len() == 0 {
        0
    } else if run_len(s.drop_last()) == s.len() - 1 && s.last() == s.len() - 1 {
        s.len() as nat
    } else {
        run_len(s.drop_last())
    }
}

/// Sorts the values in ascending order (`slice::sort_unstable`).
#[verifier::external_body]
fn sort_values(v: &mut Vec<u32>)
    ensures
        sorted(final(v)@),
        final(v)@.to_multiset() == old(v)@.to_multiset(),
{
    v.sort_unstable()
}

/// The indices of the existing instances among the directory entry
/// `names`, in ascending order.
pub fn existing_instance_indices(names: &Vec<String>) -> (r: Vec<u32>)
    ensures
        is_sorted_perm(r@, parsed_indices(string_views(names@))),
{
    let mut r: Vec<u32> = Vec::new();
    let mut i: usize = 0;
    while i < names.len()
        invariant
            i <= names@.len(),
            r@ == parsed_indices(string_views(names@.take(i as int))),
        decreases names@.len() - i,
    {
        proof {
            assert(string_views(names@.take(i as int + 1)).drop_last() =~= string_views(names@.take(i as int)));
            assert(string_views(names@.take(i as int + 1)).last() == names@[i as int]@);
        }
        match instance_index_from_name(names[i].as_str()) {
            Some(k) => { r.push(k); },
            None => {},
        }
        i = i + 1;
    }
    assert(names@.take(names@.len() as int) =~= names@);
    sort_values(&mut r);
    r
}

proof fn lemma_run_len_bound(s: Seq<u32>)
    ensures
        run_len(s) <= s.len(),
        forall|i: int| 0 <= i < run_len(s) ==> s[i] == i,
        run_len(s) < s.len() ==> s[run_len(s) as int] != run_len(s),
    decreases s.len(),
{
    if s.len() > 0 {
        lemma_run_len_bound(s.drop_last());
        let r = run_len(s.drop_last());
        assert forall|i: int| 0 <= i < run_len(s) implies s[i] == i by {
            if i < r {
                assert(s.drop_last()[i] == s[i]);
            }
        }
        if run_len(s) < s.len() {
            if r < s.len() - 1 {
                assert(s.drop_last()[r as int] == s[r as int]);
            }
        }
    }
}

/// Count the leading entries of the ascending `sorted_used` that equal
/// their position: the lowest index not taken when no index repeats.
pub fn next_free_index(sorted_used: &Vec<u32>) -> (next: u32)
    requires
        sorted_used@.len() <= u32::MAX,
    ensures
        next == run_len(sorted_used@),
{
    let mut k: usize = 0;
    while k < sorted_used.len() && sorted_used[k] as usize == k
        invariant
            k <= sorted_used@.len(),
            forall|i: int| 0 <= i < k ==> sorted_used@[i] == i,
        decreases sorted_used@.len() - k,
    {
        k = k + 1;
    }
    proof {
        lemma_run_len_prefix(sorted_used@, k as nat);
    }
    k as u32
}

proof fn lemma_run_len_prefix(s: Seq<u32>, k: nat)
    requires
        k <= s.len(),
        forall|i: int| 0 <= i < k ==> s[i] == i,
        k == s.len() || s[k as int] != k,
    ensures
        run_len(s) == k,
    decreases s.len(),
{
    lemma_run_len_bound(s);
    if s.len() > 0 {
        if k == s.len() {
            lemma_run_len_prefix(s.drop_last(), (k - 1) as nat);
        } else {
            lemma_run_len_prefix(s.drop_last(), k);
            assert(s.drop_last()[k as int] == s[k as int] || k == s.len() - 1);
        }
    }
}

/// When no index repeats, the next free index is the lowest one not in
/// use: it is not used, and every smaller index is.
pub proof fn lemma_next_free_is_lowest_gap(s: Seq<u32>, used: Seq<u32>)
    requires
        is_sorted_perm(s, used),
        used.no_duplicates(),
    ensures
        run_len(s) <= u32::MAX ==> !used.contains(run_len(s) as u32),
        forall|i: int| 0 <= i < run_len(s) ==> #[trigger] used.contains(i as u32),
{
    broadcast use vstd::seq_lib::group_to_multiset_ensures;
    lemma_run_len_bound(s);
    let k = run_len(s);
    assert forall|i: int| 0 <= i < k implies #[trigger] used.contains(i as u32) by {
        assert(s[i] == i);
        assert(s.contains(s[i]));
        assert(s.to_multiset().count(s[i]) > 0);
        assert(used.to_multiset().count(s[i]) > 0);
        assert(s[i] == i as u32);
    }
    if k <= u32::MAX && used.contains(k as u32) {
        assert(used.to_multiset().count(k as u32) > 0);
        assert(s.to_multiset().count(k as u32) > 0);
        assert(s.contains(k as u32));
        let p = choose|p: int| 0 <= p < s.len() && s[p] == k as u32;
        if p < k {
            assert(s[p] == p);
        } else if p > k {
            assert(s[k as int] <= s[p]);
            let v = s[k as int];
            assert(s[v as int] == v);
            used.lemma_multiset_has_no_duplicates();
            lemma_two_positions(s, v as int, k as int);
            assert(s.contains(v));
        }
    }
}

proof fn lemma_two_positions(s: Seq<u32>, a: int, b: int)
    requires
        0 <= a < b < s.len(),
        s[a] == s[b],
    ensures
        s.to_multiset().count(s[a]) >= 2,
{
    broadcast use vstd::seq_lib::group_to_multiset_ensures;
    broadcast use vstd::multiset::group_multiset_axioms;
    let x = s[a];
    assert(s =~= s.take(b) + s.skip(b));
    vstd::seq_lib::lemma_multiset_commutative(s.take(b), s.skip(b));
    assert(s.take(b).contains(x)) by { assert(s.take(b)[a] == x); }
    assert(s.skip(b).contains(x)) by { assert(s.skip(b)[0] == x); }
}

/// The lowest free `fauxput-N` name given the directory entry `names` of
/// the configfs root.
pub fn next_free_name(names: &Vec<String>) -> (r: String)
    requires
        names@.len() <= u32::MAX,
    ensures
        exists|s: Seq<u32>| #[trigger] is_sorted_perm(s, parsed_indices(string_views(names@)))
            && run_len(s) <= u32::MAX && r@ == INSTANCE_PREFIX@ + decimal(run_len(s)),
{
    let used = existing_instance_indices(names);
    proof {
        lemma_parsed_len(string_views(names@));
        broadcast use vstd::seq_lib::group_to_multiset_ensures;
        assert(used@.to_multiset().len() == parsed_indices(string_views(names@)).to_multiset().len());
    }
    let next = next_free_index(&used);
    let mut r = owned(INSTANCE_PREFIX);
    push_decimal(&mut r, next as u64);
    r
}

proof fn lemma_parsed_len(names: Seq<Seq<char>>)
    ensures
        parsed_indices(names).len() <= names.len(),
    decreases names.len(),
{
    if names.len() > 0 {
        lemma_parsed_len(names.drop_last());
    }
}

// ---------------------------------------------------------------------------
// Paths and filesystem operations
// ---------------------------------------------------------------------------

/// `Path::join` on Unix: an absolute `b` replaces `a`; otherwise `b` is
/// appended, with a `/` between them unless `a` is empty or already ends
/// in one.
pub open spec fn path_join(a: Seq<char>, b: Seq<char>) -> Seq<char> {
    if b.len() > 0 && b[0] == '/' {
        b
    } else if a.len() == 0 || a.last() == '/' {
        a + b
    } else {
        a + "/"@ + b
    }
}

/// Join `b` onto the path `a`.
pub fn join(a: &str, b: &str) -> (r: String)
    ensures
        r@ == path_join(a@, b@),
{
    let bl = b.unicode_len();
    let al = a.unicode_len();
    if bl > 0 && b.get_char(0) == '/' {
        return owned(b);
    }
    let mut r = owned(a);
    if al > 0 && a.get_char(al - 1) != '/' {
        push_str(&mut r, "/");
    }
    push_str(&mut r, b);
    r
}

/// A filesystem operation on the configfs tree.
#[derive(Clone, Debug)]
pub enum FsOp {
    Mkdir(String),
    Symlink { target: String, link: String },
    Write { path: String, bytes: Vec<u8> },
    /// Pause for the given number of milliseconds.
    Sleep(u64),
    RemoveFile(String),
    RemoveDir(String),
}

/// Abstract value of an [`FsOp`].
pub enum FsOpModel {
    Mkdir(Seq<char>),
    Symlink(Seq<char>, Seq<char>),
    Write(Seq<char>, Seq<u8>),
    Sleep(u64),
    RemoveFile(Seq<char>),
    RemoveDir(Seq<char>),
}

impl View for FsOp {
    type V = FsOpModel;

    open spec fn view(&self) -> FsOpModel {
        match self {
            FsOp::Mkdir(p) => FsOpModel::Mkdir(p@),
            FsOp::Symlink { target, link } => FsOpModel::Symlink(target@, link@),
            FsOp::Write { path, bytes } => FsOpModel::Write(path@, bytes@),
            FsOp::Sleep(ms) => FsOpModel::Sleep(*ms),
            FsOp::RemoveFile(p) => FsOpModel::RemoveFile(p@),
            FsOp::RemoveDir(p) => FsOpModel::RemoveDir(p@),
        }
    }
}

pub open spec fn op_views(v: Seq<FsOp>) -> Seq<FsOpModel> {
    v.map_values(|o: FsOp| o@)
}

/// The attribute values this backend writes.
#[derive(Clone, Copy, Debug)]
pub enum Payload {
    Enabled,
    Disabled,
    PlanePrimary,
    ConnectorConnected,
    ConnectorDisconnected,
}

/// The bytes written for a payload: `1` to enable, mark a plane primary
/// or connect; `0` to disable; `2` to disconnect; each with a newline.
pub open spec fn payload_bytes(p: Payload) -> Seq<u8> {
    match p {
        Payload::Enabled | Payload::PlanePrimary | Payload::ConnectorConnected => seq![0x31u8, 0x0au8],
        Payload::Disabled => seq![0x30u8, 0x0au8],
        Payload::ConnectorDisconnected => seq![0x32u8, 0x0au8],
    }
}

impl Payload {
    pub fn as_bytes(self) -> (r: Vec<u8>)
        ensures
            r@ == payload_bytes(self),
    {
        let r = match self {
            Payload::Enabled | Payload::PlanePrimary | Payload::ConnectorConnected => vec![0x31u8, 0x0au8],
            Payload::Disabled => vec![0x30u8, 0x0au8],
            Payload::ConnectorDisconnected => vec![0x32u8, 0x0au8],
        };
        assert(r@ =~= payload_bytes(self));
        r
    }
}

fn set_op(path: String, value: Payload) -> (r: FsOp)
    ensures
        r@ == FsOpModel::Write(path@, payload_bytes(value)),
{
    FsOp::Write { path, bytes: value.as_bytes() }
}

impl FsOp {
    /// An equal, independently owned operation.
    pub fn duplicate(&self) -> (r: FsOp)
        ensures
            r@ == self@,
    {
        match self {
            FsOp::Mkdir(p) => FsOp::Mkdir(p.clone()),
            FsOp::Symlink { target, link } => FsOp::Symlink { target: target.clone(), link: link.clone() },
            FsOp::Write { path, bytes } => FsOp::Write { path: path.clone(), bytes: bytes.clone() },
            FsOp::Sleep(ms) => FsOp::Sleep(*ms),
            FsOp::RemoveFile(p) => FsOp::RemoveFile(p.clone()),
            FsOp::RemoveDir(p) => FsOp::RemoveDir(p.clone()),
        }
    }
}

/// The error an operation of `create` reports when it fails with the
/// system error text `source`.
pub open spec fn op_error_spec(op: FsOpModel, e: Error, source: Seq<char>) -> bool {
    match op {
        FsOpModel::Mkdir(p) => e matches Error::Mkdir { path, source: s } && path@ == p && s@ == source,
        FsOpModel::Symlink(t, l) => e matches Error::Symlink { link, target, source: s } && link@ == l && target@ == t && s@ == source,
        FsOpModel::Write(p, _) => e matches Error::AttributeWrite { path, source: s } && path@ == p && s@ == source,
        FsOpModel::RemoveDir(p) => e matches Error::Rmdir { path, source: s } && path@ == p && s@ == source,
        _ => e matches Error::Io(s) && s@ == source,
    }
}

/// The error for a failed operation.
pub fn op_error(op: &FsOp, source: String) -> (e: Error)
    ensures
        op_error_spec(op@, e, source@),
{
    match op {
        FsOp::Mkdir(p) => Error::Mkdir { path: p.clone(), source },
        FsOp::Symlink { target, link } => Error::Symlink { link: link.clone(), target: target.clone(), source },
        FsOp::Write { path, .. } => Error::AttributeWrite { path: path.clone(), source },
        FsOp::RemoveDir(p) => Error::Rmdir { path: p.clone(), source },
        _ => Error::Io(source),
    }
}

/// What undoes a completed operation of `create`: directories and links
/// are removed, other operations leave nothing to undo.
pub open spec fn undo_of(op: FsOpModel) -> Option<FsOpModel> {
    match op {
        FsOpModel::Mkdir(p) => Some(FsOpModel::RemoveDir(p)),
        FsOpModel::Symlink(_, l) => Some(FsOpModel::RemoveFile(l)),
        _ => None,
    }
}

/// The rollback of the completed operations `done`: the undo of each
/// directory and link they made, newest first.
pub open spec fn rollback_of(done: Seq<FsOpModel>) -> Seq<FsOpModel>
    decreases done.len(),
{
    if done.len() == 0 {
        Seq::empty()
    } else {
        let rest = rollback_of(done.drop_last());
        match undo_of(done.last()) {
            Some(u) => seq![u] + rest,
            None => rest,
        }
    }
}

/// Rolling back is done newest first: undoing `a` then `b` undoes `b`'s
/// operations before `a`'s.
pub proof fn lemma_rollback_reverses(a: Seq<FsOpModel>, b: Seq<FsOpModel>)
    ensures
        rollback_of(a + b) == rollback_of(b) + rollback_of(a),
    decreases b.len(),
{
    if b.len() == 0 {
        assert(a + b =~= a);
        assert(rollback_of(b) + rollback_of(a) =~= rollback_of(a));
    } else {
        assert((a + b).drop_last() =~= a + b.drop_last());
        assert((a + b).last() == b.last());
        lemma_rollback_reverses(a, b.drop_last());
        match undo_of(b.last()) {
            Some(u) => {
                assert(seq![u] + (rollback_of(b.drop_last()) + rollback_of(a))
                    =~= (seq![u] + rollback_of(b.drop_last())) + rollback_of(a));
            },
            None => {},
        }
    }
}

/// The operations that roll back the completed operations `done`.
pub fn rollback(done: &Vec<FsOp>) -> (r: Vec<FsOp>)
    ensures
        op_views(r@) == rollback_of(op_views(done@)),
{
    let mut r: Vec<FsOp> = Vec::new();
    let mut i: usize = done.len();
    let ghost all = op_views(done@);
    assert(all.take(all.len() as int) =~= all);
    // Walk newest first, so the list grows in rollback order.
    while i > 0
        invariant
            i <= done@.len(),
            all == op_views(done@),
            rollback_of(all) == op_views(r@) + rollback_of(all.take(i as int)),
        decreases i,
    {
        proof {
            assert(all.take(i as int).drop_last() =~= all.take(i as int - 1));
            assert(all.take(i as int).last() == done@[i as int - 1]@);
        }
        let ghost before = op_views(r@);
        match &done[i - 1] {
            FsOp::Mkdir(p) => {
                r.push(FsOp::RemoveDir(p.clone()));
                assert(op_views(r@) =~= before.push(FsOpModel::RemoveDir(done@[i as int - 1]@->Mkdir_0)));
                assert(before + (seq![FsOpModel::RemoveDir(done@[i as int - 1]@->Mkdir_0)] + rollback_of(all.take(i as int - 1)))
                    =~= op_views(r@) + rollback_of(all.take(i as int - 1)));
            },
            FsOp::Symlink { link, .. } => {
                r.push(FsOp::RemoveFile(link.clone()));
                assert(op_views(r@) =~= before.push(FsOpModel::RemoveFile(done@[i as int - 1]@->Symlink_1)));
                assert(before + (seq![FsOpModel::RemoveFile(done@[i as int - 1]@->Symlink_1)] + rollback_of(all.take(i as int - 1)))
                    =~= op_views(r@) + rollback_of(all.take(i as int - 1)));
            },
            _ => {},
        }
        i = i - 1;
    }
    assert(all.take(0) =~= Seq::<FsOpModel>::empty());
    assert(op_views(r@) + Seq::<FsOpModel>::empty() =~= op_views(r@));
    r
}

// ---------------------------------------------------------------------------
// The backend
// ---------------------------------------------------------------------------

/// Commit operations up to the connector directory: the instance, its
/// primary plane, its CRTC, encoder and connector.
pub open spec fn commit_head_spec(inst: Seq<char>) -> Seq<FsOpModel> {
    let plane = path_join(inst, "planes/0"@);
    seq![
        FsOpModel::Mkdir(inst),
        FsOpModel::Mkdir(plane),
        FsOpModel::Write(path_join(plane, "type"@), payload_bytes(Payload::PlanePrimary)),
        FsOpModel::Mkdir(path_join(inst, "crtcs/0"@)),
        FsOpModel::Mkdir(path_join(inst, "encoders/0"@)),
        FsOpModel::Mkdir(path_join(inst, "connectors/0"@)),
    ]
}

/// Commit operations after the connector exists: the EDID when the kernel
/// exposes the attribute, the topology links, the `enabled` commit, and a
/// disconnect/reconnect that makes the compositor notice the new output.
pub open spec fn commit_tail_spec(inst: Seq<char>, edid: Seq<u8>, edid_attr_present: bool) -> Seq<FsOpModel> {
    let plane = path_join(inst, "planes/0"@);
    let crtc = path_join(inst, "crtcs/0"@);
    let encoder = path_join(inst, "encoders/0"@);
    let connector = path_join(inst, "connectors/0"@);
    let status = path_join(connector, "status"@);
    (if edid_attr_present {
        seq![
            FsOpModel::Write(path_join(connector, "edid"@), edid),
            FsOpModel::Write(path_join(connector, "edid_enabled"@), payload_bytes(Payload::Enabled)),
        ]
    } else {
        Seq::empty()
    }) + seq![
        FsOpModel::Write(status, payload_bytes(Payload::ConnectorConnected)),
        FsOpModel::Symlink(crtc, path_join(plane, "possible_crtcs/0"@)),
        FsOpModel::Symlink(crtc, path_join(encoder, "possible_crtcs/0"@)),
        FsOpModel::Symlink(encoder, path_join(connector, "possible_encoders/0"@)),
        FsOpModel::Write(path_join(inst, "enabled"@), payload_bytes(Payload::Enabled)),
        FsOpModel::Write(status, payload_bytes(Payload::ConnectorDisconnected)),
        FsOpModel::Sleep(50),
        FsOpModel::Write(status, payload_bytes(Payload::ConnectorConnected)),
    ]
}

// ---------------------------------------------------------------------------
// What the operations do to the tree
// ---------------------------------------------------------------------------

/// The path a directory or link operation creates.
pub open spec fn created_path(op: FsOpModel) -> Option<Seq<char>> {
    match op {
        FsOpModel::Mkdir(p) => Some(p),
        FsOpModel::Symlink(_, l) => Some(l),
        _ => None,
    }
}

/// The set of existing paths after `op`: directories and links are added
/// or removed; writes and pauses change no path.
pub open spec fn fs_apply(fs: Set<Seq<char>>, op: FsOpModel) -> Set<Seq<char>> {
    match op {
        FsOpModel::Mkdir(p) => fs.insert(p),
        FsOpModel::Symlink(_, l) => fs.insert(l),
        FsOpModel::RemoveDir(p) => fs.remove(p),
        FsOpModel::RemoveFile(p) => fs.remove(p),
        _ => fs,
    }
}

/// The set of existing paths after `ops`, in order.
pub open spec fn fs_run(fs: Set<Seq<char>>, ops: Seq<FsOpModel>) -> Set<Seq<char>>
    decreases ops.len(),
{
    if ops.len() == 0 {
        fs
    } else {
        fs_apply(fs_run(fs, ops.drop_last()), ops.last())
    }
}

/// The paths the operations `ops` create.
pub open spec fn created_paths(ops: Seq<FsOpModel>) -> Set<Seq<char>> {
    Set::new(|p: Seq<char>| exists|i: int| 0 <= i < ops.len() && #[trigger] created_path(ops[i]) == Some(p))
}

pub open spec fn removes_nothing(ops: Seq<FsOpModel>) -> bool {
    forall|i: int| 0 <= i < ops.len() ==> !(#[trigger] ops[i] is RemoveDir) && !(ops[i] is RemoveFile)
}

proof fn lemma_fs_run_concat(fs: Set<Seq<char>>, a: Seq<FsOpModel>, b: Seq<FsOpModel>)
    ensures
        fs_run(fs, a + b) == fs_run(fs_run(fs, a), b),
    decreases b.len(),
{
    if b.len() == 0 {
        assert(a + b =~= a);
    } else {
        assert((a + b).drop_last() =~= a + b.drop_last());
        assert((a + b).last() == b.last());
        lemma_fs_run_concat(fs, a, b.drop_last());
    }
}

proof fn lemma_run_adds_created(fs: Set<Seq<char>>, ops: Seq<FsOpModel>)
    requires
        removes_nothing(ops),
    ensures
        fs_run(fs, ops) == fs + created_paths(ops),
    decreases ops.len(),
{
    if ops.len() == 0 {
        assert(created_paths(ops) =~= Set::<Seq<char>>::empty());
        assert(fs + created_paths(ops) =~= fs);
    } else {
        let p = ops.drop_last();
        assert forall|i: int| 0 <= i < p.len() implies !(#[trigger] p[i] is RemoveDir) && !(p[i] is RemoveFile) by {
            assert(p[i] == ops[i]);
        }
        lemma_run_adds_created(fs, p);
        assert(!(ops[ops.len() - 1] is RemoveDir) && !(ops[ops.len() - 1] is RemoveFile));
        assert forall|x: Seq<char>| created_paths(ops).contains(x) <==>
            (created_paths(p).contains(x) || created_path(ops.last()) == Some(x)) by {
            if created_paths(ops).contains(x) {
                let i = choose|i: int| 0 <= i < ops.len() && #[trigger] created_path(ops[i]) == Some(x);
                if i < p.len() { assert(p[i] == ops[i]); }
            }
            if created_paths(p).contains(x) {
                let i = choose|i: int| 0 <= i < p.len() && #[trigger] created_path(p[i]) == Some(x);
                assert(p[i] == ops[i]);
            }
            if created_path(ops.last()) == Some(x) {
                assert(created_path(ops[ops.len() - 1]) == Some(x));
            }
        }
        assert(fs_run(fs, ops) =~= fs + created_paths(ops));
    }
}

proof fn lemma_rollback_removes_created(x: Set<Seq<char>>, done: Seq<FsOpModel>)
    ensures
        fs_run(x, rollback_of(done)) == x - created_paths(done),
    decreases done.len(),
{
    if done.len() == 0 {
        assert(created_paths(done) =~= Set::<Seq<char>>::empty());
        assert(x - created_paths(done) =~= x);
    } else {
        let p = done.drop_last();
        let rest = rollback_of(p);
        assert forall|y: Seq<char>| created_paths(done).contains(y) <==>
            (created_paths(p).contains(y) || created_path(done.last()) == Some(y)) by {
            if created_paths(done).contains(y) {
                let i = choose|i: int| 0 <= i < done.len() && #[trigger] created_path(done[i]) == Some(y);
                if i < p.len() { assert(p[i] == done[i]); }
            }
            if created_paths(p).contains(y) {
                let i = choose|i: int| 0 <= i < p.len() && #[trigger] created_path(p[i]) == Some(y);
                assert(p[i] == done[i]);
            }
            if created_path(done.last()) == Some(y) {
                assert(created_path(done[done.len() - 1]) == Some(y));
            }
        }
        match undo_of(done.last()) {
            Some(u) => {
                lemma_fs_run_concat(x, seq![u], rest);
                assert(seq![u].drop_last() =~= Seq::<FsOpModel>::empty());
                assert(seq![u].last() == u);
                assert(fs_run(x, seq![u].drop_last()) == x);
                let y = fs_run(x, seq![u]);
                assert(y == fs_apply(x, u));
                lemma_rollback_removes_created(y, p);
                assert(fs_run(x, rollback_of(done)) =~= x - created_paths(done));
            },
            None => {
                lemma_rollback_removes_created(x, p);
                assert(created_path(done.last()) is None);
                assert(created_paths(done) =~= created_paths(p));
            },
        }
    }
}

/// Rolling back restores the tree: when none of the paths the completed
/// operations `done` created existed before, and none of them removed
/// anything, running `done` and then its rollback leaves exactly the
/// paths that existed before.
pub proof fn lemma_rollback_restores(fs: Set<Seq<char>>, done: Seq<FsOpModel>)
    requires
        removes_nothing(done),
        forall|i: int| 0 <= i < done.len() ==> (#[trigger] created_path(done[i]) matches Some(p) ==> !fs.contains(p)),
    ensures
        fs_run(fs_run(fs, done), rollback_of(done)) == fs,
{
    lemma_run_adds_created(fs, done);
    lemma_rollback_removes_created(fs + created_paths(done), done);
    assert forall|p: Seq<char>| created_paths(done).contains(p) implies !fs.contains(p) by {
        let i = choose|i: int| 0 <= i < done.len() && #[trigger] created_path(done[i]) == Some(p);
    }
    assert((fs + created_paths(done)) - created_paths(done) =~= fs);
}

/// `p` lies at or under `dir`.
pub open spec fn under(p: Seq<char>, dir: Seq<char>) -> bool {
    p.len() >= dir.len() && p.take(dir.len() as int) == dir
}

proof fn lemma_join_under(a: Seq<char>, b: Seq<char>, dir: Seq<char>)
    requires
        b.len() > 0,
        b[0] != '/',
        under(a, dir),
    ensures
        under(path_join(a, b), dir),
{
    reveal_strlit("/");
    let j = path_join(a, b);
    assert(j.take(a.len() as int) =~= a);
    assert(j.take(dir.len() as int) =~= a.take(dir.len() as int));
}

/// The operations that build instance directory `inst`.
pub open spec fn commit_ops(inst: Seq<char>, edid: Seq<u8>, edid_attr_present: bool) -> Seq<FsOpModel> {
    commit_head_spec(inst) + commit_tail_spec(inst, edid, edid_attr_present)
}

/// A create that fails part-way leaves the tree as it found it: when
/// nothing at or under the instance directory `inst` existed, running any
/// first `k` operations of the build and then their rollback leaves
/// exactly the paths that existed before; other entries of the root are
/// untouched and the instance is gone.
pub proof fn lemma_failed_create_leaves_no_instance(fs: Set<Seq<char>>, inst: Seq<char>, edid: Seq<u8>,
    edid_attr_present: bool, k: int)
    requires
        forall|p: Seq<char>| #[trigger] fs.contains(p) ==> !under(p, inst),
        0 <= k <= commit_ops(inst, edid, edid_attr_present).len(),
    ensures
        fs_run(fs_run(fs, commit_ops(inst, edid, edid_attr_present).take(k)),
            rollback_of(commit_ops(inst, edid, edid_attr_present).take(k))) == fs,
{
    reveal_strlit("planes/0");
    reveal_strlit("crtcs/0");
    reveal_strlit("encoders/0");
    reveal_strlit("connectors/0");
    reveal_strlit("possible_crtcs/0");
    reveal_strlit("possible_encoders/0");
    let ops = commit_ops(inst, edid, edid_attr_present);
    let done = ops.take(k);
    assert(inst.take(inst.len() as int) =~= inst);
    let plane = path_join(inst, "planes/0"@);
    let crtc = path_join(inst, "crtcs/0"@);
    let encoder = path_join(inst, "encoders/0"@);
    let connector = path_join(inst, "connectors/0"@);
    lemma_join_under(inst, "planes/0"@, inst);
    lemma_join_under(inst, "crtcs/0"@, inst);
    lemma_join_under(inst, "encoders/0"@, inst);
    lemma_join_under(inst, "connectors/0"@, inst);
    lemma_join_under(plane, "possible_crtcs/0"@, inst);
    lemma_join_under(encoder, "possible_crtcs/0"@, inst);
    lemma_join_under(connector, "possible_encoders/0"@, inst);
    assert forall|i: int| 0 <= i < ops.len() implies
        !(#[trigger] ops[i] is RemoveDir) && !(ops[i] is RemoveFile)
            && (created_path(ops[i]) matches Some(p) ==> under(p, inst)) by {
        if i < 6 {
            assert(ops[i] == commit_head_spec(inst)[i]);
        } else {
            assert(ops[i] == commit_tail_spec(inst, edid, edid_attr_present)[i - 6]);
        }
    }
    assert forall|i: int| 0 <= i < done.len() implies !(#[trigger] done[i] is RemoveDir) && !(done[i] is RemoveFile) by {
        assert(done[i] == ops[i]);
    }
    assert forall|i: int| 0 <= i < done.len() implies
        (#[trigger] created_path(done[i]) matches Some(p) ==> !fs.contains(p)) by {
        assert(done[i] == ops[i]);
    }
    lemma_rollback_restores(fs, done);
}

/// Directory entries of one `possible_*` (or other) child of a component.
pub struct SubdirListing {
    pub name: String,
    pub entries: Vec<String>,
}

/// A component instance directory (e.g. `planes/0`) and its children.
pub struct ComponentListing {
    pub name: String,
    pub children: Vec<SubdirListing>,
}

/// The live tree of an instance, one listing per component category.
pub struct InstanceTree {
    pub planes: Vec<ComponentListing>,
    pub crtcs: Vec<ComponentListing>,
    pub encoders: Vec<ComponentListing>,
    pub connectors: Vec<ComponentListing>,
}

pub struct SubdirModel {
    pub name: Seq<char>,
    pub entries: Seq<Seq<char>>,
}

pub struct ComponentModel {
    pub name: Seq<char>,
    pub children: Seq<SubdirModel>,
}

impl View for SubdirListing {
    type V = SubdirModel;

    open spec fn view(&self) -> SubdirModel {
        SubdirModel { name: self.name@, entries: string_views(self.entries@) }
    }
}

impl View for ComponentListing {
    type V = ComponentModel;

    open spec fn view(&self) -> ComponentModel {
        ComponentModel { name: self.name@, children: self.children@.map_values(|c: SubdirListing| c@) }
    }
}

pub open spec fn component_views(v: Seq<ComponentListing>) -> Seq<ComponentModel> {
    v.map_values(|c: ComponentListing| c@)
}

/// Unlink every entry of the `possible_*` children of one component.
pub open spec fn child_unlinks(comp: Seq<char>, children: Seq<SubdirModel>) -> Seq<FsOpModel>
    decreases children.len(),
{
    if children.len() == 0 {
        Seq::empty()
    } else {
        let c = children.last();
        let dir = path_join(comp, c.name);
        child_unlinks(comp, children.drop_last()) + if c.name.len() >= "possible_"@.len()
            && c.name.take("possible_"@.len() as int) == "possible_"@ {
            c.entries.map_values(|l: Seq<char>| FsOpModel::RemoveFile(path_join(dir, l)))
        } else {
            Seq::empty()
        }
    }
}

/// Unlink the topology links of every component of one category.
pub open spec fn category_unlinks(cat: Seq<char>, comps: Seq<ComponentModel>) -> Seq<FsOpModel>
    decreases comps.len(),
{
    if comps.len() == 0 {
        Seq::empty()
    } else {
        category_unlinks(cat, comps.drop_last()) + child_unlinks(path_join(cat, comps.last().name), comps.last().children)
    }
}

/// Remove every component directory of one category.
pub open spec fn category_rmdirs(cat: Seq<char>, comps: Seq<ComponentModel>) -> Seq<FsOpModel> {
    comps.map_values(|c: ComponentModel| FsOpModel::RemoveDir(path_join(cat, c.name)))
}

/// Teardown of a live instance, in the order configfs and the compositor
/// need: disconnect every connector (a normal hot-unplug), pause, disable
/// the instance, unlink the topology links, remove the component
/// directories (connectors first), then the instance directory.
pub open spec fn removal_spec(inst: Seq<char>, planes: Seq<ComponentModel>, crtcs: Seq<ComponentModel>,
    encoders: Seq<ComponentModel>, connectors: Seq<ComponentModel>) -> Seq<FsOpModel> {
    let p = path_join(inst, "planes"@);
    let c = path_join(inst, "crtcs"@);
    let e = path_join(inst, "encoders"@);
    let k = path_join(inst, "connectors"@);
    connectors.map_values(|x: ComponentModel| FsOpModel::Write(path_join(path_join(k, x.name), "status"@),
        payload_bytes(Payload::ConnectorDisconnected)))
        + seq![FsOpModel::Sleep(100), FsOpModel::Write(path_join(inst, "enabled"@), payload_bytes(Payload::Disabled))]
        + category_unlinks(p, planes) + category_unlinks(c, crtcs) + category_unlinks(e, encoders)
        + category_unlinks(k, connectors)
        + category_rmdirs(k, connectors) + category_rmdirs(e, encoders) + category_rmdirs(c, crtcs)
        + category_rmdirs(p, planes)
        + seq![FsOpModel::RemoveDir(inst)]
}

proof fn lemma_child_unlinks_unlink(comp: Seq<char>, children: Seq<SubdirModel>)
    ensures
        forall|i: int| 0 <= i < child_unlinks(comp, children).len() ==> #[trigger] child_unlinks(comp, children)[i] is RemoveFile,
    decreases children.len(),
{
    if children.len() > 0 {
        lemma_child_unlinks_unlink(comp, children.drop_last());
    }
}

proof fn lemma_category_unlinks_unlink(cat: Seq<char>, comps: Seq<ComponentModel>)
    ensures
        forall|i: int| 0 <= i < category_unlinks(cat, comps).len() ==> #[trigger] category_unlinks(cat, comps)[i] is RemoveFile,
    decreases comps.len(),
{
    if comps.len() > 0 {
        lemma_category_unlinks_unlink(cat, comps.drop_last());
        lemma_child_unlinks_unlink(path_join(cat, comps.last().name), comps.last().children);
    }
}

/// Teardown happens in the order configfs and the compositor need: the
/// connectors are disconnected and the instance disabled before anything
/// is removed, every topology link is unlinked before any directory is
/// removed, every component directory is removed, and the instance
/// directory goes last.
pub proof fn lemma_removal_order(inst: Seq<char>, planes: Seq<ComponentModel>, crtcs: Seq<ComponentModel>,
    encoders: Seq<ComponentModel>, connectors: Seq<ComponentModel>)
    ensures
        ({
            let ops = removal_spec(inst, planes, crtcs, encoders, connectors);
            let off = connectors.len() + 1;
            &&& ops.len() > off
            &&& ops[off as int] == FsOpModel::Write(path_join(inst, "enabled"@), payload_bytes(Payload::Disabled))
            &&& forall|a: int| 0 <= a < off ==> (#[trigger] ops[a] is Write || ops[a] is Sleep)
            &&& forall|a: int| 0 <= a < off ==> (#[trigger] ops[a] is Write ==> ops[a] == FsOpModel::Write(
                    path_join(path_join(path_join(inst, "connectors"@), connectors[a].name), "status"@),
                    payload_bytes(Payload::ConnectorDisconnected)))
            &&& forall|a: int, b: int| 0 <= a < ops.len() && 0 <= b < ops.len() && (#[trigger] ops[a]) is RemoveDir
                && (#[trigger] ops[b]) is RemoveFile ==> b < a
            &&& forall|x: int| 0 <= x < connectors.len() ==> ops.contains(FsOpModel::RemoveDir(
                    path_join(path_join(inst, "connectors"@), #[trigger] connectors[x].name)))
            &&& forall|x: int| 0 <= x < planes.len() ==> ops.contains(FsOpModel::RemoveDir(
                    path_join(path_join(inst, "planes"@), #[trigger] planes[x].name)))
            &&& ops.last() == FsOpModel::RemoveDir(inst)
        }),
{
    let p = path_join(inst, "planes"@);
    let c = path_join(inst, "crtcs"@);
    let e = path_join(inst, "encoders"@);
    let k = path_join(inst, "connectors"@);
    let head = connectors.map_values(|x: ComponentModel| FsOpModel::Write(path_join(path_join(k, x.name), "status"@),
        payload_bytes(Payload::ConnectorDisconnected)))
        + seq![FsOpModel::Sleep(100), FsOpModel::Write(path_join(inst, "enabled"@), payload_bytes(Payload::Disabled))];
    let unl = category_unlinks(p, planes) + category_unlinks(c, crtcs) + category_unlinks(e, encoders)
        + category_unlinks(k, connectors);
    let rms = category_rmdirs(k, connectors) + category_rmdirs(e, encoders) + category_rmdirs(c, crtcs)
        + category_rmdirs(p, planes) + seq![FsOpModel::RemoveDir(inst)];
    let ops = removal_spec(inst, planes, crtcs, encoders, connectors);
    assert(ops =~= head + unl + rms);
    lemma_category_unlinks_unlink(p, planes);
    lemma_category_unlinks_unlink(c, crtcs);
    lemma_category_unlinks_unlink(e, encoders);
    lemma_category_unlinks_unlink(k, connectors);
    assert forall|i: int| 0 <= i < unl.len() implies #[trigger] unl[i] is RemoveFile by {
        let l1 = category_unlinks(p, planes).len();
        let l2 = l1 + category_unlinks(c, crtcs).len();
        let l3 = l2 + category_unlinks(e, encoders).len();
        if i < l1 { assert(unl[i] == category_unlinks(p, planes)[i]); }
        else if i < l2 { assert(unl[i] == category_unlinks(c, crtcs)[i - l1]); }
        else if i < l3 { assert(unl[i] == category_unlinks(e, encoders)[i - l2]); }
        else { assert(unl[i] == category_unlinks(k, connectors)[i - l3]); }
    }
    assert forall|i: int| 0 <= i < rms.len() implies #[trigger] rms[i] is RemoveDir by {}
    assert forall|a: int, b: int| 0 <= a < ops.len() && 0 <= b < ops.len() && (#[trigger] ops[a]) is RemoveDir
        && (#[trigger] ops[b]) is RemoveFile implies b < a by {
        if a < head.len() + unl.len() {
            if a < head.len() { assert(ops[a] == head[a]); } else { assert(ops[a] == unl[a - head.len()]); }
        }
        if b >= head.len() + unl.len() {
            assert(ops[b] == rms[b - head.len() - unl.len()]);
        }
    }
    assert forall|x: int| 0 <= x < connectors.len() implies ops.contains(FsOpModel::RemoveDir(
        path_join(k, #[trigger] connectors[x].name))) by {
        assert(ops[head.len() + unl.len() + x] == FsOpModel::RemoveDir(path_join(k, connectors[x].name)));
    }
    assert forall|x: int| 0 <= x < planes.len() implies ops.contains(FsOpModel::RemoveDir(
        path_join(p, #[trigger] planes[x].name))) by {
        let off = head.len() + unl.len() + connectors.len() + encoders.len() + crtcs.len();
        assert(ops[off + x] == FsOpModel::RemoveDir(path_join(p, planes[x].name)));
    }
    assert forall|a: int| 0 <= a < connectors.len() + 1 implies (#[trigger] ops[a] is Write || ops[a] is Sleep) by {
        assert(ops[a] == head[a]);
    }
    assert forall|a: int| 0 <= a < connectors.len() + 1 implies (#[trigger] ops[a] is Write ==> ops[a] == FsOpModel::Write(
        path_join(path_join(k, connectors[a].name), "status"@), payload_bytes(Payload::ConnectorDisconnected))) by {
        assert(ops[a] == head[a]);
    }
    assert(ops[connectors.len() as int + 1] == head[connectors.len() as int + 1]);
}

fn has_prefix(s: &str, p: &str) -> (r: bool)
    ensures
        r == (s@.len() >= p@.len() && s@.take(p@.len() as int) == p@),
{
    let pl = p.unicode_len();
    let n = s.unicode_len();
    if n < pl {
        return false;
    }
    let head = owned(s.substring_char(0, pl));
    assert(head@ =~= s@.take(pl as int));
    head == owned(p)
}

fn push_op(ops: &mut Vec<FsOp>, op: FsOp)
    ensures
        op_views(final(ops)@) == op_views(old(ops)@).push(op@),
{
    let ghost o = op@;
    ops.push(op);
    assert(op_views(ops@) =~= op_views(old(ops)@).push(o));
}

fn push_child_unlinks(ops: &mut Vec<FsOp>, comp: &str, children: &Vec<SubdirListing>)
    ensures
        op_views(final(ops)@) == op_views(old(ops)@) + child_unlinks(comp@, children@.map_values(|c: SubdirListing| c@)),
{
    let ghost base = op_views(ops@);
    let ghost all = children@.map_values(|c: SubdirListing| c@);
    let mut i: usize = 0;
    assert(base + child_unlinks(comp@, all.take(0)) =~= base);
    while i < children.len()
        invariant
            i <= children@.len(),
            all == children@.map_values(|c: SubdirListing| c@),
            op_views(ops@) == base + child_unlinks(comp@, all.take(i as int)),
        decreases children@.len() - i,
    {
        let c = &children[i];
        proof {
            assert(all.take(i as int + 1).drop_last() =~= all.take(i as int));
            assert(all.take(i as int + 1).last() == c@);
        }
        let ghost mid = op_views(ops@);
        let dir = join(comp, c.name.as_str());
        if has_prefix(c.name.as_str(), "possible_") {
            let mut j: usize = 0;
            let ghost links = c@.entries.map_values(|l: Seq<char>| FsOpModel::RemoveFile(path_join(dir@, l)));
            assert(mid + links.take(0) =~= mid);
            while j < c.entries.len()
                invariant
                    j <= c.entries@.len(),
                    links == c@.entries.map_values(|l: Seq<char>| FsOpModel::RemoveFile(path_join(dir@, l))),
                    op_views(ops@) == mid + links.take(j as int),
                decreases c.entries@.len() - j,
            {
                push_op(ops, FsOp::RemoveFile(join(dir.as_str(), c.entries[j].as_str())));
                assert(mid + links.take(j as int + 1) =~= (mid + links.take(j as int)).push(links[j as int]));
                j = j + 1;
            }
            assert(links.take(j as int) =~= links);
        }
        assert(base + child_unlinks(comp@, all.take(i as int + 1)) =~= op_views(ops@));
        i = i + 1;
    }
    assert(all.take(i as int) =~= all);
}

fn push_category_unlinks(ops: &mut Vec<FsOp>, cat: &str, comps: &Vec<ComponentListing>)
    ensures
        op_views(final(ops)@) == op_views(old(ops)@) + category_unlinks(cat@, component_views(comps@)),
{
    let ghost base = op_views(ops@);
    let ghost all = component_views(comps@);
    let mut i: usize = 0;
    assert(base + category_unlinks(cat@, all.take(0)) =~= base);
    while i < comps.len()
        invariant
            i <= comps@.len(),
            all == component_views(comps@),
            op_views(ops@) == base + category_unlinks(cat@, all.take(i as int)),
        decreases comps@.len() - i,
    {
        let c = &comps[i];
        proof {
            assert(all.take(i as int + 1).drop_last() =~= all.take(i as int));
            assert(all.take(i as int + 1).last() == c@);
        }
        let dir = join(cat, c.name.as_str());
        push_child_unlinks(ops, dir.as_str(), &c.children);
        assert(base + category_unlinks(cat@, all.take(i as int + 1)) =~= op_views(ops@));
        i = i + 1;
    }
    assert(all.take(i as int) =~= all);
}

fn push_category_rmdirs(ops: &mut Vec<FsOp>, cat: &str, comps: &Vec<ComponentListing>)
    ensures
        op_views(final(ops)@) == op_views(old(ops)@) + category_rmdirs(cat@, component_views(comps@)),
{
    let ghost base = op_views(ops@);
    let ghost all = category_rmdirs(cat@, component_views(comps@));
    let mut i: usize = 0;
    assert(base + all.take(0) =~= base);
    while i < comps.len()
        invariant
            i <= comps@.len(),
            all == category_rmdirs(cat@, component_views(comps@)),
            op_views(ops@) == base + all.take(i as int),
        decreases comps@.len() - i,
    {
        push_op(ops, FsOp::RemoveDir(join(cat, comps[i].name.as_str())));
        assert(base + all.take(i as int + 1) =~= (base + all.take(i as int)).push(all[i as int]));
        i = i + 1;
    }
    assert(all.take(i as int) =~= all);
}

/// The index an instance's EDID carries: the one in its name, else 0.
pub open spec fn slot_index(name: Seq<char>) -> u32 {
    match index_from_name(name) {
        Some(i) => i,
        None => 0,
    }
}

/// The configfs-vkms backend, rooted at its configfs directory.
pub struct ConfigfsVkms {
    root: String,
}

/// The backend to use: configfs-vkms at its standard root.
pub fn pick_backend() -> (b: ConfigfsVkms)
    ensures
        b.spec_root() == CONFIGFS_VKMS_ROOT@,
{
    ConfigfsVkms::new()
}

impl ConfigfsVkms {
    pub closed spec fn spec_root(&self) -> Seq<char> {
        self.root@
    }

    /// The backend at `/sys/kernel/config/vkms`.
    pub fn new() -> (b: ConfigfsVkms)
        ensures
            b.spec_root() == CONFIGFS_VKMS_ROOT@,
    {
        ConfigfsVkms::with_root(CONFIGFS_VKMS_ROOT)
    }

    /// The backend rooted at `root`.
    pub fn with_root(root: &str) -> (b: ConfigfsVkms)
        ensures
            b.spec_root() == root@,
    {
        ConfigfsVkms { root: owned(root) }
    }

    /// The configfs root of this backend.
    pub fn root(&self) -> (r: &str)
        ensures
            r@ == self.spec_root(),
    {
        self.root.as_str()
    }

    /// Stable identifier of this backend.
    pub fn id(&self) -> (r: &'static str)
        ensures
            r@ == BACKEND_ID@,
    {
        BACKEND_ID
    }

    /// At most eight displays, each with its own EDID.
    pub fn capabilities(&self) -> (c: BackendCapabilities)
        ensures
            c == (BackendCapabilities { max_displays: 8, supports_dynamic_edid: true }),
    {
        BackendCapabilities { max_displays: 8, supports_dynamic_edid: true }
    }

    /// The prerequisites check, given whether `/sys/kernel/config` and
    /// this backend's root exist.
    pub fn check_available(&self, configfs_present: bool, root_present: bool) -> (r: Result<(), Error>)
        ensures
            !configfs_present ==> r matches Err(Error::ConfigfsNotMounted),
            configfs_present && !root_present ==> r matches Err(Error::VkmsConfigfsMissing),
            configfs_present && root_present ==> r is Ok,
    {
        if !configfs_present {
            return Err(Error::ConfigfsNotMounted);
        }
        if !root_present {
            return Err(Error::VkmsConfigfsMissing);
        }
        Ok(())
    }

    /// The directory of instance `name`.
    pub fn instance_path(&self, name: &str) -> (r: String)
        ensures
            r@ == path_join(self.spec_root(), name@),
    {
        join(self.root.as_str(), name)
    }

    /// The connector's EDID attribute of instance `name`.
    pub fn edid_attr_path(&self, name: &str) -> (r: String)
        ensures
            r@ == path_join(path_join(path_join(self.spec_root(), name@), "connectors/0"@), "edid"@),
    {
        let inst = self.instance_path(name);
        let connector = join(inst.as_str(), "connectors/0");
        join(connector.as_str(), "edid")
    }

    /// The first commit operations for instance `name`, up to creating its
    /// connector.
    pub fn commit_head(&self, name: &str) -> (ops: Vec<FsOp>)
        ensures
            op_views(ops@) == commit_head_spec(path_join(self.spec_root(), name@)),
    {
        let inst = self.instance_path(name);
        let plane = join(inst.as_str(), "planes/0");
        let mut ops: Vec<FsOp> = Vec::new();
        push_op(&mut ops, FsOp::Mkdir(inst.clone()));
        push_op(&mut ops, FsOp::Mkdir(plane.clone()));
        push_op(&mut ops, set_op(join(plane.as_str(), "type"), Payload::PlanePrimary));
        push_op(&mut ops, FsOp::Mkdir(join(inst.as_str(), "crtcs/0")));
        push_op(&mut ops, FsOp::Mkdir(join(inst.as_str(), "encoders/0")));
        push_op(&mut ops, FsOp::Mkdir(join(inst.as_str(), "connectors/0")));
        assert(op_views(ops@) =~= commit_head_spec(inst@));
        ops
    }

    /// The remaining commit operations for instance `name`, given whether
    /// the kernel exposes the connector's EDID attribute.
    pub fn commit_tail(&self, name: &str, edid: &Vec<u8>, edid_attr_present: bool) -> (ops: Vec<FsOp>)
        ensures
            op_views(ops@) == commit_tail_spec(path_join(self.spec_root(), name@), edid@, edid_attr_present),
    {
        let inst = self.instance_path(name);
        let plane = join(inst.as_str(), "planes/0");
        let crtc = join(inst.as_str(), "crtcs/0");
        let encoder = join(inst.as_str(), "encoders/0");
        let connector = join(inst.as_str(), "connectors/0");
        let status = join(connector.as_str(), "status");
        let mut ops: Vec<FsOp> = Vec::new();
        if edid_attr_present {
            push_op(&mut ops, FsOp::Write { path: join(connector.as_str(), "edid"), bytes: edid.clone() });
            push_op(&mut ops, set_op(join(connector.as_str(), "edid_enabled"), Payload::Enabled));
        }
        let ghost first = op_views(ops@);
        push_op(&mut ops, set_op(status.clone(), Payload::ConnectorConnected));
        push_op(&mut ops, FsOp::Symlink { target: crtc.clone(), link: join(plane.as_str(), "possible_crtcs/0") });
        push_op(&mut ops, FsOp::Symlink { target: crtc.clone(), link: join(encoder.as_str(), "possible_crtcs/0") });
        push_op(&mut ops, FsOp::Symlink { target: encoder.clone(), link: join(connector.as_str(), "possible_encoders/0") });
        push_op(&mut ops, set_op(join(inst.as_str(), "enabled"), Payload::Enabled));
        push_op(&mut ops, set_op(status.clone(), Payload::ConnectorDisconnected));
        push_op(&mut ops, FsOp::Sleep(50));
        push_op(&mut ops, set_op(status, Payload::ConnectorConnected));
        assert(op_views(ops@) =~= commit_tail_spec(inst@, edid@, edid_attr_present));
        ops
    }

    /// The teardown operations for instance `name` with the live `tree`;
    /// none when the instance directory does not exist, so removing an
    /// instance that is already gone succeeds. Only the failure of the last
    /// one (removing the instance directory) is an error; the others are
    /// best effort.
    pub fn removal_ops(&self, name: &str, instance_present: bool, tree: &InstanceTree) -> (ops: Vec<FsOp>)
        ensures
            !instance_present ==> ops@.len() == 0,
            instance_present ==> op_views(ops@) == removal_spec(path_join(self.spec_root(), name@),
                component_views(tree.planes@), component_views(tree.crtcs@), component_views(tree.encoders@),
                component_views(tree.connectors@)),
    {
        if !instance_present {
            return Vec::new();
        }
        let inst = self.instance_path(name);
        let p = join(inst.as_str(), "planes");
        let c = join(inst.as_str(), "crtcs");
        let e = join(inst.as_str(), "encoders");
        let k = join(inst.as_str(), "connectors");
        let mut ops: Vec<FsOp> = Vec::new();
        let ghost conns = component_views(tree.connectors@);
        let ghost disconnects = conns.map_values(|x: ComponentModel| FsOpModel::Write(path_join(path_join(k@, x.name), "status"@),
            payload_bytes(Payload::ConnectorDisconnected)));
        let mut i: usize = 0;
        while i < tree.connectors.len()
            invariant
                i <= tree.connectors@.len(),
                conns == component_views(tree.connectors@),
                disconnects == conns.map_values(|x: ComponentModel| FsOpModel::Write(path_join(path_join(k@, x.name), "status"@),
                    payload_bytes(Payload::ConnectorDisconnected))),
                op_views(ops@) == disconnects.take(i as int),
            decreases tree.connectors@.len() - i,
        {
            let dir = join(k.as_str(), tree.connectors[i].name.as_str());
            push_op(&mut ops, set_op(join(dir.as_str(), "status"), Payload::ConnectorDisconnected));
            assert(disconnects.take(i as int + 1) =~= disconnects.take(i as int).push(disconnects[i as int]));
            i = i + 1;
        }
        assert(disconnects.take(i as int) =~= disconnects);
        push_op(&mut ops, FsOp::Sleep(100));
        push_op(&mut ops, set_op(join(inst.as_str(), "enabled"), Payload::Disabled));
        push_category_unlinks(&mut ops, p.as_str(), &tree.planes);
        push_category_unlinks(&mut ops, c.as_str(), &tree.crtcs);
        push_category_unlinks(&mut ops, e.as_str(), &tree.encoders);
        push_category_unlinks(&mut ops, k.as_str(), &tree.connectors);
        push_category_rmdirs(&mut ops, k.as_str(), &tree.connectors);
        push_category_rmdirs(&mut ops, e.as_str(), &tree.encoders);
        push_category_rmdirs(&mut ops, c.as_str(), &tree.crtcs);
        push_category_rmdirs(&mut ops, p.as_str(), &tree.planes);
        push_op(&mut ops, FsOp::RemoveDir(inst));
        assert(op_views(ops@) =~= removal_spec(path_join(self.spec_root(), name@), component_views(tree.planes@),
            component_views(tree.crtcs@), component_views(tree.encoders@), component_views(tree.connectors@)));
        ops
    }

    /// The handles of this tool's instances among the root's directory
    /// entry `names` (none when the root does not exist).
    pub fn list(&self, root_present: bool, names: &Vec<String>) -> (r: Vec<DisplayHandle>)
        ensures
            !root_present ==> r@.len() == 0,
            root_present ==> r@.map_values(|h: DisplayHandle| h@) == string_views(names@).filter(
                |n: Seq<char>| n.len() >= INSTANCE_PREFIX@.len() && n.take(INSTANCE_PREFIX@.len() as int) == INSTANCE_PREFIX@,
            ).map_values(|n: Seq<char>| HandleModel { backend_id: BACKEND_ID@, local_id: n }),
    {
        let mut r: Vec<DisplayHandle> = Vec::new();
        if !root_present {
            return r;
        }
        let ghost keep = |n: Seq<char>| n.len() >= INSTANCE_PREFIX@.len() && n.take(INSTANCE_PREFIX@.len() as int) == INSTANCE_PREFIX@;
        let ghost mk = |n: Seq<char>| HandleModel { backend_id: BACKEND_ID@, local_id: n };
        let mut i: usize = 0;
        while i < names.len()
            invariant
                i <= names@.len(),
                r@.map_values(|h: DisplayHandle| h@) == string_views(names@.take(i as int)).filter(keep).map_values(mk),
                keep == (|n: Seq<char>| n.len() >= INSTANCE_PREFIX@.len() && n.take(INSTANCE_PREFIX@.len() as int) == INSTANCE_PREFIX@),
                mk == (|n: Seq<char>| HandleModel { backend_id: BACKEND_ID@, local_id: n }),
            decreases names@.len() - i,
        {
            let ghost sv = string_views(names@.take(i as int + 1));
            proof {
                assert(sv.drop_last() =~= string_views(names@.take(i as int)));
                assert(sv.last() == names@[i as int]@);
                assert(sv =~= sv.drop_last().push(sv.last()));
                sv.drop_last().lemma_filter_push(sv.last(), keep);
            }
            let ghost before = r@.map_values(|h: DisplayHandle| h@);
            if has_prefix(names[i].as_str(), INSTANCE_PREFIX) {
                r.push(DisplayHandle { backend_id: owned(BACKEND_ID), local_id: names[i].clone() });
                assert(r@.map_values(|h: DisplayHandle| h@) =~= before.push(mk(names@[i as int]@)));
                assert(sv.filter(keep).map_values(mk) =~= sv.drop_last().filter(keep).map_values(mk).push(mk(sv.last())));
            } else {
                assert(sv.filter(keep).map_values(mk) =~= sv.drop_last().filter(keep).map_values(mk));
            }
            i = i + 1;
        }
        assert(names@.take(i as int) =~= names@);
        r
    }

    /// The EDID instance `name` advertises: `spec` with the index taken
    /// from the name (0 if it has none).
    pub fn instance_edid(&self, spec: &EdidSpec, name: &str) -> (r: Result<Vec<u8>, Error>)
        ensures
            ({
                let slot = EdidSpec { instance_index: slot_index(name@), ..*spec };
                &&& r is Ok <==> edid_accepts(slot)
                &&& r matches Ok(edid) ==> edid@ == edid_block(slot, cvt_rb_timing(spec.width, spec.height, spec.refresh_hz))
                &&& r matches Err(e) ==> build_error_is(slot, e)
            }),
    {
        let instance_index = match instance_index_from_name(name) {
            Some(i) => i,
            None => 0,
        };
        build_edid(&EdidSpec { instance_index, ..*spec })
    }

    /// The outcome of a create that committed instance `name`.
    pub fn create_outcome(&self, name: String, edid_applied: bool) -> (r: CreateOutcome)
        ensures
            r.handle@ == (HandleModel { backend_id: BACKEND_ID@, local_id: name@ }),
            r.feature_acceptance == (FeatureAcceptance { edid_applied }),
    {
        CreateOutcome {
            handle: DisplayHandle { backend_id: owned(BACKEND_ID), local_id: name },
            feature_acceptance: FeatureAcceptance { edid_applied },
        }
    }
}

// ---------------------------------------------------------------------------
// Creating an instance
// ---------------------------------------------------------------------------

/// Where a create stands.
#[derive(Clone, Copy, Debug, PartialEq, Eq, Structural)]
pub enum CreatePhase {
    /// Waiting for the prerequisites check.
    Checking,
    /// Waiting for the root's entries.
    Listing,
    /// Building the instance up to its connector.
    Head,
    /// Waiting to learn whether the connector has an EDID attribute.
    Probing,
    /// Writing the EDID, linking the topology and committing.
    Tail,
    /// Waiting for the rollback of a failed build.
    CleaningUp,
    Finished,
}

/// What the caller reports back to a create.
pub enum CreateEvent {
    Checked(Result<(), Error>),
    /// The names of the entries under the configfs root.
    Listed(Vec<String>),
    /// The outcome of the operation asked for, with the system's error
    /// text when it failed.
    Performed(Result<(), String>),
    /// Whether the connector's EDID attribute exists.
    Probed(bool),
    /// The rollback asked for is done; its own failures are ignored.
    CleanedUp,
}

/// What a create asks the caller to do next.
pub enum CreateAction {
    CheckAvailable,
    /// List the entries under the configfs root.
    ListRoot,
    /// Carry out this operation.
    Perform(FsOp),
    /// Report whether this attribute file exists.
    Probe(String),
    /// Carry out `undo` in order, ignoring failures, then remove instance
    /// `name` as a destroy does.
    Cleanup { undo: Vec<FsOp>, name: String },
    /// The create is over.
    Finish(Result<CreateOutcome, Error>),
}

/// State of one create.
pub struct CreateFlow {
    backend: ConfigfsVkms,
    spec: EdidSpec,
    phase: CreatePhase,
    name: String,
    slot: Ghost<nat>,
    edid: Vec<u8>,
    ops: Vec<FsOp>,
    next: usize,
    done: Vec<FsOp>,
    edid_present: bool,
    error: Option<Error>,
}

/// `k` is the lowest free instance index among the root entries `names`.
pub open spec fn free_slot(names: Seq<Seq<char>>, k: nat) -> bool {
    exists|s: Seq<u32>| #[trigger] is_sorted_perm(s, parsed_indices(names)) && run_len(s) == k
}

/// `spec` with the instance index `k`.
pub open spec fn spec_at_slot(spec: EdidSpec, k: nat) -> EdidSpec {
    EdidSpec { instance_index: k as u32, ..spec }
}

impl CreateFlow {
    pub closed spec fn phase(&self) -> CreatePhase { self.phase }
    pub closed spec fn root(&self) -> Seq<char> { self.backend.spec_root() }
    pub closed spec fn request(&self) -> EdidSpec { self.spec }
    pub closed spec fn name(&self) -> Seq<char> { self.name@ }
    pub closed spec fn slot(&self) -> nat { self.slot@ }
    pub closed spec fn edid(&self) -> Seq<u8> { self.edid@ }
    /// The operations of the current stage.
    pub closed spec fn planned(&self) -> Seq<FsOpModel> { op_views(self.ops@) }
    /// Position of the next operation of the current stage.
    pub closed spec fn position(&self) -> int { self.next as int }
    /// The operations completed so far.
    pub closed spec fn completed(&self) -> Seq<FsOpModel> { op_views(self.done@) }
    pub closed spec fn edid_present(&self) -> bool { self.edid_present }
    pub closed spec fn failure(&self) -> Option<Error> { self.error }

    pub open spec fn inst(&self) -> Seq<char> { path_join(self.root(), self.name()) }

    /// The create's bookkeeping holds together: the operations of each
    /// stage are the schema's, those completed are the ones before the
    /// next, and the name and EDID belong to the chosen slot.
    pub closed spec fn wf(&self) -> bool {
        let inst = path_join(self.backend.spec_root(), self.name@);
        &&& self.phase == CreatePhase::Head ==> {
            &&& op_views(self.ops@) == commit_head_spec(inst)
            &&& self.next < self.ops@.len()
            &&& op_views(self.done@) == op_views(self.ops@).take(self.next as int)
        }
        &&& self.phase == CreatePhase::Probing ==> op_views(self.done@) == commit_head_spec(inst)
        &&& self.phase == CreatePhase::Tail ==> {
            &&& op_views(self.ops@) == commit_tail_spec(inst, self.edid@, self.edid_present)
            &&& self.next < self.ops@.len()
            &&& op_views(self.done@) == commit_head_spec(inst) + op_views(self.ops@).take(self.next as int)
        }
        &&& self.phase == CreatePhase::CleaningUp ==> self.error is Some
        &&& (self.phase == CreatePhase::Head || self.phase == CreatePhase::Probing || self.phase == CreatePhase::Tail
            || self.phase == CreatePhase::CleaningUp) ==> {
            &&& self.slot@ <= u32::MAX
            &&& self.name@ == INSTANCE_PREFIX@ + decimal(self.slot@)
            &&& self.edid@ == edid_block(spec_at_slot(self.spec, self.slot@),
                cvt_rb_timing(self.spec.width, self.spec.height, self.spec.refresh_hz))
        }
    }

    /// The event the create waits for in its current phase.
    pub open spec fn expects(&self, ev: CreateEvent) -> bool {
        match self.phase() {
            CreatePhase::Checking => ev is Checked,
            CreatePhase::Listing => ev matches CreateEvent::Listed(names) && names@.len() <= u32::MAX,
            CreatePhase::Head | CreatePhase::Tail => ev is Performed,
            CreatePhase::Probing => ev is Probed,
            CreatePhase::CleaningUp => ev is CleanedUp,
            CreatePhase::Finished => false,
        }
    }
}

impl ConfigfsVkms {
    /// Start creating an instance for `spec`. The first step is the
    /// prerequisites check.
    pub fn create(&self, spec: &EdidSpec) -> (r: (CreateFlow, CreateAction))
        ensures
            r.0.wf(),
            r.0.phase() == CreatePhase::Checking,
            r.0.root() == self.spec_root(),
            r.0.request() == *spec,
            r.1 is CheckAvailable,
    {
        let flow = CreateFlow {
            backend: ConfigfsVkms::with_root(self.root()),
            spec: *spec,
            phase: CreatePhase::Checking,
            name: String::new(),
            slot: Ghost(0),
            edid: Vec::new(),
            ops: Vec::new(),
            next: 0,
            done: Vec::new(),
            edid_present: false,
            error: None,
        };
        (flow, CreateAction::CheckAvailable)
    }
}

impl CreateFlow {
    fn perform_next(&self) -> (a: CreateAction)
        requires
            self.next < self.ops@.len(),
        ensures
            a matches CreateAction::Perform(op) && op@ == op_views(self.ops@)[self.next as int],
    {
        CreateAction::Perform(self.ops[self.next].duplicate())
    }

    /// Advance the create with the outcome of the last action.
    ///
    /// The name is the lowest free `fauxput-N` under the root and the EDID
    /// is built for index `N`; nothing is touched when the EDID cannot be
    /// built. The operations are carried out one at a time; the first one
    /// that fails stops the build, its completed directories and links
    /// are undone newest first, the instance is removed, and the failure
    /// is reported. After the last operation the create reports the
    /// instance's handle and whether the EDID was written.
    pub fn step(&mut self, ev: CreateEvent) -> (a: CreateAction)
        requires
            old(self).wf(),
            old(self).expects(ev),
        ensures
            final(self).wf(),
            final(self).root() == old(self).root(),
            final(self).request() == old(self).request(),
            !(ev is Listed) ==> final(self).name() == old(self).name() && final(self).slot() == old(self).slot()
                && final(self).edid() == old(self).edid(),
            match ev {
                CreateEvent::Checked(Err(e)) => final(self).phase() == CreatePhase::Finished
                    && (a matches CreateAction::Finish(Err(f)) && f == e),
                CreateEvent::Checked(Ok(())) => final(self).phase() == CreatePhase::Listing && a is ListRoot,
                CreateEvent::Listed(names) => {
                    let k = final(self).slot();
                    let slot_spec = spec_at_slot(old(self).request(), k);
                    &&& free_slot(string_views(names@), k)
                    &&& k <= u32::MAX
                    &&& final(self).name() == INSTANCE_PREFIX@ + decimal(k)
                    &&& if edid_accepts(slot_spec) {
                        &&& final(self).phase() == CreatePhase::Head
                        &&& final(self).edid() == edid_block(slot_spec,
                            cvt_rb_timing(slot_spec.width, slot_spec.height, slot_spec.refresh_hz))
                        &&& final(self).planned() == commit_head_spec(final(self).inst())
                        &&& final(self).position() == 0
                        &&& final(self).completed().len() == 0
                        &&& a matches CreateAction::Perform(op) && op@ == final(self).planned()[0]
                    } else {
                        &&& final(self).phase() == CreatePhase::Finished
                        &&& a matches CreateAction::Finish(Err(e)) && build_error_is(slot_spec, e)
                    }
                },
                CreateEvent::Performed(Ok(())) => {
                    let n = old(self).position() + 1;
                    if n < old(self).planned().len() {
                        &&& final(self).phase() == old(self).phase()
                        &&& final(self).planned() == old(self).planned()
                        &&& final(self).position() == n
                        &&& final(self).completed() == old(self).completed().push(old(self).planned()[n - 1])
                        &&& a matches CreateAction::Perform(op) && op@ == old(self).planned()[n]
                    } else if old(self).phase() == CreatePhase::Head {
                        &&& final(self).phase() == CreatePhase::Probing
                        &&& final(self).completed() == commit_head_spec(old(self).inst())
                        &&& a matches CreateAction::Probe(path)
                            && path@ == path_join(path_join(old(self).inst(), "connectors/0"@), "edid"@)
                    } else {
                        &&& final(self).phase() == CreatePhase::Finished
                        &&& a matches CreateAction::Finish(Ok(o))
                            && o.handle@ == (HandleModel { backend_id: BACKEND_ID@, local_id: old(self).name() })
                            && o.feature_acceptance == (FeatureAcceptance { edid_applied: old(self).edid_present() })
                    }
                },
                CreateEvent::Performed(Err(source)) => {
                    &&& old(self).completed() == commit_ops(old(self).inst(), old(self).edid(), old(self).edid_present())
                        .take(old(self).completed().len() as int)
                    &&& final(self).phase() == CreatePhase::CleaningUp
                    &&& final(self).failure() matches Some(e)
                        && op_error_spec(old(self).planned()[old(self).position()], e, source@)
                    &&& a matches CreateAction::Cleanup { undo, name }
                        && op_views(undo@) == rollback_of(old(self).completed()) && name@ == old(self).name()
                },
                CreateEvent::Probed(present) => {
                    &&& final(self).phase() == CreatePhase::Tail
                    &&& final(self).edid_present() == present
                    &&& final(self).planned() == commit_tail_spec(old(self).inst(), old(self).edid(), present)
                    &&& final(self).position() == 0
                    &&& final(self).completed() == commit_head_spec(old(self).inst())
                    &&& a matches CreateAction::Perform(op) && op@ == final(self).planned()[0]
                },
                CreateEvent::CleanedUp => final(self).phase() == CreatePhase::Finished
                    && (a matches CreateAction::Finish(Err(e)) && Some(e) == old(self).failure()),
            },
    {
        match ev {
            CreateEvent::Checked(Err(e)) => {
                self.phase = CreatePhase::Finished;
                CreateAction::Finish(Err(e))
            },
            CreateEvent::Checked(Ok(())) => {
                self.phase = CreatePhase::Listing;
                CreateAction::ListRoot
            },
            CreateEvent::Listed(names) => self.on_listed(names),
            CreateEvent::Performed(Ok(())) => self.on_done(),
            CreateEvent::Performed(Err(source)) => self.on_failed(source),
            CreateEvent::Probed(present) => self.on_probed(present),
            CreateEvent::CleanedUp => {
                let e = self.error.take();
                self.phase = CreatePhase::Finished;
                match e {
                    Some(e) => CreateAction::Finish(Err(e)),
                    None => CreateAction::Finish(Err(Error::Io(String::new()))),
                }
            },
        }
    }

    fn on_listed(&mut self, names: Vec<String>) -> (a: CreateAction)
        requires
            old(self).wf(),
            old(self).phase() == CreatePhase::Listing,
            names@.len() <= u32::MAX,
        ensures
            final(self).wf(),
            final(self).root() == old(self).root(),
            final(self).request() == old(self).request(),
            ({
                let k = final(self).slot();
                let slot_spec = spec_at_slot(old(self).request(), k);
                &&& free_slot(string_views(names@), k)
                &&& k <= u32::MAX
                &&& final(self).name() == INSTANCE_PREFIX@ + decimal(k)
                &&& if edid_accepts(slot_spec) {
                    &&& final(self).phase() == CreatePhase::Head
                    &&& final(self).edid() == edid_block(slot_spec,
                        cvt_rb_timing(slot_spec.width, slot_spec.height, slot_spec.refresh_hz))
                    &&& final(self).planned() == commit_head_spec(final(self).inst())
                    &&& final(self).position() == 0
                    &&& final(self).completed().len() == 0
                    &&& a matches CreateAction::Perform(op) && op@ == final(self).planned()[0]
                } else {
                    &&& final(self).phase() == CreatePhase::Finished
                    &&& a matches CreateAction::Finish(Err(e)) && build_error_is(slot_spec, e)
                }
            }),
    {
        let name = next_free_name(&names);
        let ghost s = choose|s: Seq<u32>| #[trigger] is_sorted_perm(s, parsed_indices(string_views(names@)))
            && run_len(s) <= u32::MAX && name@ == INSTANCE_PREFIX@ + decimal(run_len(s));
        let ghost k = run_len(s);
        proof {
            lemma_index_of_name(k);
        }
        let built = self.backend.instance_edid(&self.spec, name.as_str());
        assert(slot_index(name@) == k as u32);
        assert(EdidSpec { instance_index: slot_index(name@), ..self.spec } == spec_at_slot(self.spec, k));
        self.slot = Ghost(k);
        match built {
            Err(e) => {
                self.name = name;
                self.phase = CreatePhase::Finished;
                CreateAction::Finish(Err(e))
            },
            Ok(edid) => {
                let ops = self.backend.commit_head(name.as_str());
                self.name = name;
                self.edid = edid;
                self.ops = ops;
                self.next = 0;
                self.done = Vec::new();
                self.phase = CreatePhase::Head;
                proof {
                    assert(op_views(self.done@) =~= op_views(self.ops@).take(0));
                    assert(op_views(self.ops@).len() == 6);
                    assert(self.ops@.len() == 6);
                }
                self.perform_next()
            },
        }
    }

    fn on_done(&mut self) -> (a: CreateAction)
        requires
            old(self).wf(),
            old(self).phase() == CreatePhase::Head || old(self).phase() == CreatePhase::Tail,
        ensures
            final(self).wf(),
            final(self).root() == old(self).root(),
            final(self).request() == old(self).request(),
            final(self).name() == old(self).name() && final(self).slot() == old(self).slot()
                && final(self).edid() == old(self).edid(),
            ({
                let n = old(self).position() + 1;
                if n < old(self).planned().len() {
                    &&& final(self).phase() == old(self).phase()
                    &&& final(self).planned() == old(self).planned()
                    &&& final(self).position() == n
                    &&& final(self).completed() == old(self).completed().push(old(self).planned()[n - 1])
                    &&& a matches CreateAction::Perform(op) && op@ == old(self).planned()[n]
                } else if old(self).phase() == CreatePhase::Head {
                    &&& final(self).phase() == CreatePhase::Probing
                    &&& final(self).completed() == commit_head_spec(old(self).inst())
                    &&& a matches CreateAction::Probe(path)
                        && path@ == path_join(path_join(old(self).inst(), "connectors/0"@), "edid"@)
                } else {
                    &&& final(self).phase() == CreatePhase::Finished
                    &&& a matches CreateAction::Finish(Ok(o))
                        && o.handle@ == (HandleModel { backend_id: BACKEND_ID@, local_id: old(self).name() })
                        && o.feature_acceptance == (FeatureAcceptance { edid_applied: old(self).edid_present() })
                }
            }),
    {
        let ghost inst = self.inst();
        let planned_len = self.ops.len();
        let op = self.ops[self.next].duplicate();
        let ghost before = op_views(self.done@);
        self.done.push(op);
        proof {
            assert(op_views(self.done@) =~= before.push(op_views(self.ops@)[self.next as int]));
            assert(op_views(self.ops@).take(self.next as int + 1)
                =~= op_views(self.ops@).take(self.next as int).push(op_views(self.ops@)[self.next as int]));
            if self.phase == CreatePhase::Tail {
                assert(commit_head_spec(inst) + op_views(self.ops@).take(self.next as int + 1)
                    =~= (commit_head_spec(inst) + op_views(self.ops@).take(self.next as int))
                        .push(op_views(self.ops@)[self.next as int]));
            }
        }
        self.next = self.next + 1;
        if self.next < planned_len {
            self.perform_next()
        } else if self.phase == CreatePhase::Head {
            self.phase = CreatePhase::Probing;
            assert(op_views(self.ops@).take(self.next as int) =~= op_views(self.ops@));
            CreateAction::Probe(self.backend.edid_attr_path(self.name.as_str()))
        } else {
            self.phase = CreatePhase::Finished;
            CreateAction::Finish(Ok(self.backend.create_outcome(self.name.clone(), self.edid_present)))
        }
    }

    fn on_failed(&mut self, source: String) -> (a: CreateAction)
        requires
            old(self).wf(),
            old(self).phase() == CreatePhase::Head || old(self).phase() == CreatePhase::Tail,
        ensures
            final(self).wf(),
            final(self).root() == old(self).root(),
            final(self).request() == old(self).request(),
            final(self).name() == old(self).name() && final(self).slot() == old(self).slot()
                && final(self).edid() == old(self).edid(),
            old(self).completed() == commit_ops(old(self).inst(), old(self).edid(), old(self).edid_present())
                .take(old(self).completed().len() as int),
            final(self).phase() == CreatePhase::CleaningUp,
            final(self).failure() matches Some(e)
                && op_error_spec(old(self).planned()[old(self).position()], e, source@),
            a matches CreateAction::Cleanup { undo, name }
                && op_views(undo@) == rollback_of(old(self).completed()) && name@ == old(self).name(),
    {
        proof {
            let inst = self.inst();
            let all = commit_ops(inst, self.edid@, self.edid_present);
            let head = commit_head_spec(inst);
            let done = op_views(self.done@);
            if self.phase == CreatePhase::Head {
                assert(all.take(done.len() as int) =~= head.take(self.next as int));
            } else {
                assert(all.take(done.len() as int) =~= head + op_views(self.ops@).take(self.next as int));
            }
        }
        let e = op_error(&self.ops[self.next], source);
        let undo = rollback(&self.done);
        self.error = Some(e);
        self.phase = CreatePhase::CleaningUp;
        CreateAction::Cleanup { undo, name: self.name.clone() }
    }

    fn on_probed(&mut self, present: bool) -> (a: CreateAction)
        requires
            old(self).wf(),
            old(self).phase() == CreatePhase::Probing,
        ensures
            final(self).wf(),
            final(self).root() == old(self).root(),
            final(self).request() == old(self).request(),
            final(self).name() == old(self).name() && final(self).slot() == old(self).slot()
                && final(self).edid() == old(self).edid(),
            final(self).phase() == CreatePhase::Tail,
            final(self).edid_present() == present,
            final(self).planned() == commit_tail_spec(old(self).inst(), old(self).edid(), present),
            final(self).position() == 0,
            final(self).completed() == commit_head_spec(old(self).inst()),
            a matches CreateAction::Perform(op) && op@ == final(self).planned()[0],
    {
        let ghost inst = self.inst();
        let ops = self.backend.commit_tail(self.name.as_str(), &self.edid, present);
        self.ops = ops;
        self.next = 0;
        self.edid_present = present;
        self.phase = CreatePhase::Tail;
        proof {
            assert(commit_head_spec(inst) + op_views(self.ops@).take(0) =~= commit_head_spec(inst));
            assert(op_views(self.ops@).len() > 0);
            assert(self.ops@.len() > 0);
        }
        self.perform_next()
    }
}

} // verus!
