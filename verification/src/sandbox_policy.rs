//! The sandbox modes, what may be written under each, and the profile that
//! authorizations are bound to.
use vstd::prelude::*;
use vstd::utf8::encode_utf8;
use crate::paths::{lies_under, parts, path_starts_with, same_path};
use crate::text::{concat2, concat4, same_text};

verus! {

broadcast use vstd::string::group_string_axioms;

/// The three modes, from the narrowest to the widest.
#[derive(Debug, Clone, Copy, PartialEq, Eq, PartialOrd, Ord, Hash, Structural)]
pub enum SandboxMode {
    ReadOnly,
    WorkspaceWrite,
    DangerFullAccess,
}

impl SandboxMode {
    pub open spec fn rank(self) -> int {
        match self {
            SandboxMode::ReadOnly => 0,
            SandboxMode::WorkspaceWrite => 1,
            SandboxMode::DangerFullAccess => 2,
        }
    }

    /// The name of the mode in configuration, tool arguments and prompts.
    pub open spec fn name(self) -> Seq<char> {
        match self {
            SandboxMode::ReadOnly => "read-only"@,
            SandboxMode::WorkspaceWrite => "workspace-write"@,
            SandboxMode::DangerFullAccess => "danger-full-access"@,
        }
    }

    pub fn label(self) -> (r: &'static str)
        ensures
            r@ == self.name(),
    {
        match self {
            SandboxMode::ReadOnly => "read-only",
            SandboxMode::WorkspaceWrite => "workspace-write",
            SandboxMode::DangerFullAccess => "danger-full-access",
        }
    }

    /// The mode with the given name.
    pub fn from_label(name: &str) -> (r: Option<SandboxMode>)
        ensures
            r == mode_named(name@),
    {
        if same_text(name, "read-only") {
            Some(SandboxMode::ReadOnly)
        } else if same_text(name, "workspace-write") {
            Some(SandboxMode::WorkspaceWrite)
        } else if same_text(name, "danger-full-access") {
            Some(SandboxMode::DangerFullAccess)
        } else {
            None
        }
    }
}

/// The mode with a given name.
pub open spec fn mode_named(name: Seq<char>) -> Option<SandboxMode> {
    if name == "read-only"@ {
        Some(SandboxMode::ReadOnly)
    } else if name == "workspace-write"@ {
        Some(SandboxMode::WorkspaceWrite)
    } else if name == "danger-full-access"@ {
        Some(SandboxMode::DangerFullAccess)
    } else {
        None
    }
}

/// A mode is found again under its name, and under no other.
pub proof fn a_mode_has_one_name(mode: SandboxMode, name: Seq<char>)
    ensures
        mode_named(name) == Some(mode) <==> name == mode.name(),
{
    reveal_strlit("read-only");
    reveal_strlit("workspace-write");
    reveal_strlit("danger-full-access");
    assert("read-only"@.len() == 9);
    assert("workspace-write"@.len() == 15);
    assert("danger-full-access"@.len() == 18);
}

// ---------------------------------------------------------------------------
// The policy
// ---------------------------------------------------------------------------

/// A mode and the directory that may be written in workspace mode.
#[derive(Debug, PartialEq, Eq)]
pub struct SandboxPolicy {
    pub mode: SandboxMode,
    pub workspace_root: String,
}

pub struct PolicyView {
    pub mode: SandboxMode,
    pub root: Seq<char>,
}

impl View for SandboxPolicy {
    type V = PolicyView;

    open spec fn view(&self) -> PolicyView {
        PolicyView { mode: self.mode, root: self.workspace_root@ }
    }
}

impl Clone for SandboxPolicy {
    fn clone(&self) -> (r: SandboxPolicy)
        ensures
            r@ == self@,
    {
        SandboxPolicy { mode: self.mode, workspace_root: self.workspace_root.clone() }
    }
}

/// What may be written under a policy, judged by the text of the path alone.
pub open spec fn writable(p: PolicyView, path: Seq<char>) -> bool {
    match p.mode {
        SandboxMode::ReadOnly => false,
        SandboxMode::DangerFullAccess => true,
        SandboxMode::WorkspaceWrite => lies_under(path, p.root),
    }
}

/// Whether going from one mode to another adds permissions.
pub open spec fn widens(from: SandboxMode, to: SandboxMode) -> bool {
    to.rank() > from.rank()
}

/// Whether two policies permit the same: the same mode and the same root directory.
pub open spec fn same_permissions(a: PolicyView, b: PolicyView) -> bool {
    a.mode == b.mode && parts(a.root) == parts(b.root)
}

pub const FNV_OFFSET: u64 = 0xcbf29ce484222325;

pub const FNV_PRIME: u64 = 0x100000001b3;

/// The 64-bit FNV-1a hash.
pub open spec fn fnv1a(bytes: Seq<u8>) -> u64
    decreases bytes.len(),
{
    if bytes.len() == 0 {
        FNV_OFFSET
    } else {
        u64::wrapping_mul(fnv1a(bytes.drop_last()) ^ (bytes.last() as u64), FNV_PRIME)
    }
}

pub open spec fn hex_digit(d: int) -> char {
    if d < 10 {
        (('0' as u32) + d) as char
    } else {
        (('a' as u32) + (d - 10)) as char
    }
}

/// The last `width` hexadecimal digits of `n`.
pub open spec fn hex(n: nat, width: nat) -> Seq<char>
    decreases width,
{
    if width == 0 {
        Seq::empty()
    } else {
        hex(n / 16, (width - 1) as nat).push(hex_digit((n % 16) as int))
    }
}

/// The profile hash of a policy.
pub open spec fn policy_hash(p: PolicyView) -> Seq<char> {
    let canonical = "v1\0"@ + p.mode.name() + "\0"@ + p.root;
    "fnv1a64:"@ + hex(fnv1a(encode_utf8(canonical)) as nat, 16)
}

impl SandboxPolicy {
    /// Whether `path` may be written, judged by its text alone.
    pub fn ensures_writable(&self, path: &str) -> (r: bool)
        ensures
            r == writable(self@, path@),
    {
        match self.mode {
            SandboxMode::ReadOnly => false,
            SandboxMode::DangerFullAccess => true,
            SandboxMode::WorkspaceWrite => path_starts_with(path, &self.workspace_root),
        }
    }

    /// Whether an escalation from one mode to another is one: it may only widen.
    pub fn can_widen(from: SandboxMode, to: SandboxMode) -> (r: bool)
        ensures
            r == widens(from, to),
    {
        match (from, to) {
            (SandboxMode::ReadOnly, SandboxMode::WorkspaceWrite) => true,
            (SandboxMode::ReadOnly, SandboxMode::DangerFullAccess) => true,
            (SandboxMode::WorkspaceWrite, SandboxMode::DangerFullAccess) => true,
            _ => false,
        }
    }

    /// A digest of the policy that is the same in every process.
    pub fn profile_hash(&self) -> (r: String)
        ensures
            r@ == policy_hash(self@),
    {
        let canonical = concat4("v1\0", self.mode.label(), "\0", &self.workspace_root);
        let hash: u64 = fnv1a64(canonical.as_str().as_bytes());
        concat2("fnv1a64:", &hex16(hash))
    }
}

fn fnv1a64(bytes: &[u8]) -> (r: u64)
    ensures
        r == fnv1a(bytes@),
{
    let mut hash: u64 = FNV_OFFSET;
    let mut i: usize = 0;
    assert(bytes@.take(0) =~= Seq::empty());
    while i < bytes.len()
        invariant
            i <= bytes@.len(),
            hash == fnv1a(bytes@.take(i as int)),
        decreases bytes@.len() - i,
    {
        let ghost next = bytes@.take(i + 1);
        assert(next.drop_last() =~= bytes@.take(i as int));
        hash = (hash ^ (bytes[i] as u64)).wrapping_mul(FNV_PRIME);
        i = i + 1;
    }
    assert(bytes@.take(bytes@.len() as int) =~= bytes@);
    hash
}

fn hex_char(d: u64) -> (r: char)
    requires
        d < 16,
    ensures
        r == hex_digit(d as int),
{
    if d < 10 {
        (48u8 + d as u8) as char
    } else {
        (97u8 + (d - 10) as u8) as char
    }
}

fn hex_digits(n: u64, width: usize) -> (r: String)
    ensures
        r@ == hex(n as nat, width as nat),
    decreases width,
{
    if width == 0 {
        let r = String::new();
        assert(r@ =~= Seq::empty());
        return r;
    }
    let mut r = hex_digits(n / 16, width - 1);
    r.push(hex_char(n % 16));
    r
}

fn hex16(n: u64) -> (r: String)
    ensures
        r@ == hex(n as nat, 16),
{
    hex_digits(n, 16)
}

// ---------------------------------------------------------------------------
// The profile in force
// ---------------------------------------------------------------------------

/// The policy in force and how often it has changed.
#[derive(Debug)]
pub struct PermissionProfileState {
    policy: SandboxPolicy,
    epoch: u64,
}

pub struct ProfileView {
    pub policy: PolicyView,
    pub epoch: nat,
}

impl View for PermissionProfileState {
    type V = ProfileView;

    closed spec fn view(&self) -> ProfileView {
        ProfileView { policy: self.policy@, epoch: self.epoch as nat }
    }
}

impl Clone for PermissionProfileState {
    fn clone(&self) -> (r: PermissionProfileState)
        ensures
            r@ == self@,
    {
        PermissionProfileState { policy: self.policy.clone(), epoch: self.epoch }
    }
}

impl PermissionProfileState {
    pub fn new(policy: SandboxPolicy) -> (r: PermissionProfileState)
        ensures
            r@ == (ProfileView { policy: policy@, epoch: 0 }),
    {
        PermissionProfileState { policy, epoch: 0 }
    }

    pub fn policy(&self) -> (r: &SandboxPolicy)
        ensures
            r@ == self@.policy,
    {
        &self.policy
    }

    pub fn epoch(&self) -> (r: u64)
        ensures
            r == self@.epoch,
    {
        self.epoch
    }

    /// Puts another policy in force and says whether anything changed. One that
    /// permits the same changes nothing; any other moves the epoch on by one.
    pub fn replace(&mut self, policy: SandboxPolicy) -> (r: Result<bool, &'static str>)
        ensures
            same_permissions(old(self)@.policy, policy@) ==> r == Ok::<bool, &'static str>(false)
                && final(self)@ == old(self)@,
            !same_permissions(old(self)@.policy, policy@) && old(self)@.epoch < u64::MAX ==> r
                == Ok::<bool, &'static str>(true) && final(self)@ == (ProfileView {
                policy: policy@,
                epoch: old(self)@.epoch + 1,
            }),
            !same_permissions(old(self)@.policy, policy@) && old(self)@.epoch == u64::MAX ==> r
                is Err && r->Err_0@ == "permission epoch overflow"@ && final(self)@ == old(self)@,
            old(self)@.epoch <= u64::MAX,
    {
        if self.policy.mode == policy.mode && same_path(
            &self.policy.workspace_root,
            &policy.workspace_root,
        ) {
            return Ok(false);
        }
        if self.epoch == u64::MAX {
            return Err("permission epoch overflow");
        }
        self.epoch = self.epoch + 1;
        self.policy = policy;
        Ok(true)
    }
}

// ---------------------------------------------------------------------------
// Laws
// ---------------------------------------------------------------------------

/// Widening never comes back: no chain of escalations ends at a mode that is as
/// narrow as one it went through.
pub proof fn widening_never_narrows(a: SandboxMode, b: SandboxMode, c: SandboxMode)
    ensures
        !widens(a, a),
        widens(a, b) ==> !widens(b, a),
        widens(a, b) && widens(b, c) ==> widens(a, c),
        a != b ==> widens(a, b) || widens(b, a),
{
}

/// A wider mode with the same root permits everything that the narrower one did.
pub proof fn wider_modes_permit_more(narrow: PolicyView, wide: PolicyView, path: Seq<char>)
    requires
        widens(narrow.mode, wide.mode),
        narrow.root == wide.root,
        writable(narrow, path),
    ensures
        writable(wide, path),
{
}

/// Two policies that permit the same permit the same paths.
pub proof fn same_permissions_permit_the_same(a: PolicyView, b: PolicyView, path: Seq<char>)
    requires
        same_permissions(a, b),
    ensures
        writable(a, path) == writable(b, path),
{
}

/// The names of the three modes.
pub proof fn the_names_of_the_modes()
    ensures
        SandboxMode::ReadOnly.name() == "read-only"@,
        SandboxMode::WorkspaceWrite.name() == "workspace-write"@,
        SandboxMode::DangerFullAccess.name() == "danger-full-access"@,
{
}

/// The modes from the narrowest to the widest.
pub proof fn the_order_of_the_modes()
    ensures
        widens(SandboxMode::ReadOnly, SandboxMode::WorkspaceWrite),
        widens(SandboxMode::WorkspaceWrite, SandboxMode::DangerFullAccess),
        widens(SandboxMode::ReadOnly, SandboxMode::DangerFullAccess),
{
}

/// What may be written: nothing, what lies under the workspace, or anything.
pub proof fn what_may_be_written(root: Seq<char>, path: Seq<char>)
    ensures
        !writable(PolicyView { mode: SandboxMode::ReadOnly, root }, path),
        writable(PolicyView { mode: SandboxMode::WorkspaceWrite, root }, path) <==> parts(
            root,
        ).is_prefix_of(parts(path)),
        writable(PolicyView { mode: SandboxMode::DangerFullAccess, root }, path),
{
}

/// The digits of a number in base sixteen, the lowest place last.
pub proof fn base_sixteen_digits(n: nat, width: nat, d: int)
    requires
        width > 0,
        0 <= d < 16,
    ensures
        hex_digit(d) == "0123456789abcdef"@[d],
        hex(n, width).len() == width,
        hex(n, width).last() == "0123456789abcdef"@[(n % 16) as int],
        hex(n, width).drop_last() == hex(n / 16, (width - 1) as nat),
    decreases width,
{
    reveal_strlit("0123456789abcdef");
    let lower = hex(n / 16, (width - 1) as nat);
    if width > 1 {
        base_sixteen_digits(n / 16, (width - 1) as nat, d);
    }
    assert(hex(n, width).drop_last() =~= lower);
}

/// The hash of bytes: an offset, to which each byte is joined by exclusion and multiplied by a
/// prime.
pub proof fn how_bytes_are_hashed(bytes: Seq<u8>, b: u8)
    ensures
        fnv1a(Seq::empty()) == 0xcbf29ce484222325,
        fnv1a(bytes.push(b)) == u64::wrapping_mul(fnv1a(bytes) ^ (b as u64), 0x100000001b3),
{
    assert(bytes.push(b).drop_last() =~= bytes);
}

/// The hash of a policy is that of its mode and its root, in sixteen digits behind the name of
/// the method.
pub proof fn how_a_policy_is_hashed(p: PolicyView)
    ensures
        policy_hash(p).len() == 8 + 16,
        policy_hash(p).subrange(0, 8) == "fnv1a64:"@,
        policy_hash(p).subrange(8, 24) == hex(
            fnv1a(encode_utf8("v1\0"@ + p.mode.name() + "\0"@ + p.root)) as nat,
            16,
        ),
{
    reveal_strlit("fnv1a64:");
    let n = fnv1a(encode_utf8("v1\0"@ + p.mode.name() + "\0"@ + p.root)) as nat;
    base_sixteen_digits(n, 16, 0);
    assert(policy_hash(p).subrange(0, 8) =~= "fnv1a64:"@);
    assert(policy_hash(p).subrange(8, 24) =~= hex(n, 16));
}

/// Two policies permit the same where they have the same mode and their roots have the same
/// parts.
pub proof fn when_permissions_are_the_same(a: PolicyView, b: PolicyView)
    ensures
        same_permissions(a, b) <==> a.mode == b.mode && parts(a.root) == parts(b.root),
        same_permissions(a, b) <==> same_permissions(b, a),
        same_permissions(a, a),
{
}

} // verus!
