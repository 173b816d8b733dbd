//! The bridge between a desktop client and the host: every command carries the
//! security facts under which it was given, and a stale one is refused.
use vstd::prelude::*;
use crate::host::ValidatedHostConfig;
use crate::paths::{lies_under, parts, path_starts_with, same_path};
use crate::protocol::{error, ErrorCode, ErrorEnvelope, ErrorView, SequencedEvent};
use crate::readonly_server::{are_frames, frames_of, has_session_id_form, is_session_id};
use crate::session_rpc::SessionEventFrame;
use crate::text::{
    blank, byte_len, bytes_in, chars_of, concat2, concat3, concat5, decimal, decimal_of, is_alnum,
    is_blank, same_text, views,
};

verus! {

broadcast use vstd::string::group_string_axioms;

pub const MAX_SESSION_ID_BYTES: usize = 128;

pub const MAX_INPUT_BYTES: usize = 1048576;

// ---------------------------------------------------------------------------
// Commands and receipts
// ---------------------------------------------------------------------------

/// The security facts under which a command is given.
#[derive(Debug, Clone, Copy, PartialEq, Eq, Structural)]
pub struct CommandContext {
    pub generation: u64,
    pub permission_epoch: u64,
}

#[derive(Debug, Clone, Copy, PartialEq, Eq)]
pub struct CommandReceipt {
    pub operation: &'static str,
    pub generation: u64,
    pub permission_epoch: u64,
    pub turn_id: Option<u64>,
}

#[derive(Debug, PartialEq, Eq, Clone)]
pub enum SessionOperation {
    Create { session_id: String },
    Resume { session_id: String },
    Fork { source_id: String, target_id: String, boundary: Option<usize> },
    Revert { source_id: String, target_id: String, turn_id: u64 },
}

#[derive(Debug, PartialEq, Eq, Clone)]
pub struct SessionReceipt {
    pub session_id: String,
    pub event_count: u64,
    pub generation: u64,
}

/// What the file system says of the file of a session.
#[derive(Debug)]
pub struct SessionFacts {
    pub exists: bool,
    pub is_file: bool,
    pub canonical: Result<String, String>,
}

/// What the file system says of a directory.
#[derive(Debug)]
pub struct DirectoryFacts {
    pub canonical: Result<String, String>,
    pub is_dir: bool,
}

/// The host behind the bridge.
pub trait ManagedHost {
    /// Cancels what is running.
    fn cancel(&self);

    fn shutdown(&self) -> Result<(), String>;

    /// Starts one turn in the background.
    fn spawn_turn(&self, session_path: &str, input: &str) -> Result<(), ErrorEnvelope>;
}

// ---------------------------------------------------------------------------
// Rules
// ---------------------------------------------------------------------------

pub open spec fn invalid_error(message: Seq<char>) -> ErrorView {
    error(ErrorCode::ToolArgsInvalid, message)
}

pub open spec fn internal_error(message: Seq<char>) -> ErrorView {
    error(ErrorCode::Internal, message)
}

fn invalid(message: &str) -> (r: ErrorEnvelope)
    ensures
        r@ == invalid_error(message@),
{
    ErrorEnvelope::of(ErrorCode::ToolArgsInvalid, message)
}

fn internal(message: &str) -> (r: ErrorEnvelope)
    ensures
        r@ == internal_error(message@),
{
    ErrorEnvelope::of(ErrorCode::Internal, message)
}

/// Why an identifier is refused.
pub open spec fn identifier_error(value: Seq<char>, label: Seq<char>) -> Option<ErrorView> {
    if byte_len(value) > MAX_SESSION_ID_BYTES || !is_session_id(value) {
        Some(
            invalid_error(label + " must contain only ASCII letters, digits, '-' or '_'"@),
        )
    } else {
        None
    }
}

pub fn validate_identifier(value: &str, label: &str) -> (r: Result<(), ErrorEnvelope>)
    ensures
        match r {
            Ok(()) => identifier_error(value@, label@) is None,
            Err(e) => identifier_error(value@, label@) == Some(e@),
        },
{
    if bytes_in(value) > MAX_SESSION_ID_BYTES || !has_session_id_form(value) {
        return Err(
            ErrorEnvelope::new(
                ErrorCode::ToolArgsInvalid,
                concat2(label, " must contain only ASCII letters, digits, '-' or '_'"),
            ),
        );
    }
    Ok(())
}

/// Why a text is refused.
pub open spec fn input_error(value: Seq<char>, label: Seq<char>) -> Option<ErrorView> {
    if blank(value) || byte_len(value) > MAX_INPUT_BYTES {
        Some(invalid_error(label + " must be nonblank and within size limits"@))
    } else {
        None
    }
}

pub fn validate_nonblank_bounded(value: &str, label: &str) -> (r: Result<(), ErrorEnvelope>)
    ensures
        match r {
            Ok(()) => input_error(value@, label@) is None,
            Err(e) => input_error(value@, label@) == Some(e@),
        },
{
    if is_blank(value) || bytes_in(value) > MAX_INPUT_BYTES {
        return Err(
            ErrorEnvelope::new(
                ErrorCode::ToolArgsInvalid,
                concat2(label, " must be nonblank and within size limits"),
            ),
        );
    }
    Ok(())
}

/// The path of an entry of a directory.
pub open spec fn joined(root: Seq<char>, name: Seq<char>) -> Seq<char> {
    if root.len() == 0 || root.last() == '/' {
        root + name
    } else {
        root + "/"@ + name
    }
}

pub fn join_path(root: &str, name: &str) -> (r: String)
    ensures
        r@ == joined(root@, name@),
{
    let chars = chars_of(root);
    if chars.len() == 0 || chars[chars.len() - 1] == '/' {
        concat2(root, name)
    } else {
        concat3(root, "/", name)
    }
}

/// The canonical path of a directory, or why it cannot be used.
pub open spec fn directory_of(facts: DirectoryFacts, label: Seq<char>) -> Result<
    Seq<char>,
    ErrorView,
> {
    match facts.canonical {
        Err(e) => Err(internal_error(e@)),
        Ok(path) => if facts.is_dir {
            Ok(path@)
        } else {
            Err(invalid_error(label + " must be a directory"@))
        },
    }
}

fn canonical_directory(facts: DirectoryFacts, label: &str) -> (r: Result<String, ErrorEnvelope>)
    ensures
        match r {
            Ok(path) => directory_of(facts, label@) == Ok::<Seq<char>, ErrorView>(path@),
            Err(e) => directory_of(facts, label@) == Err::<Seq<char>, ErrorView>(e@),
        },
{
    match facts.canonical {
        Err(e) => Err(internal(&e)),
        Ok(path) => {
            if facts.is_dir {
                Ok(path)
            } else {
                Err(
                    ErrorEnvelope::new(
                        ErrorCode::ToolArgsInvalid,
                        concat2(label, " must be a directory"),
                    ),
                )
            }
        },
    }
}

// ---------------------------------------------------------------------------
// The state
// ---------------------------------------------------------------------------

#[derive(Debug)]
struct ActiveTurn {
    id: u64,
    session_id: String,
}

#[derive(Debug)]
struct PendingApproval {
    request_id: String,
    executor_generation: u64,
}

/// The bridge and its state.
pub struct DesktopBridge<H> {
    workspace_root: String,
    sessions_root: String,
    generation: u64,
    permission_epoch: u64,
    next_turn_id: u64,
    closed: bool,
    active_turn: Option<ActiveTurn>,
    pending_approval: Option<PendingApproval>,
    host: Option<H>,
    host_config: Option<ValidatedHostConfig>,
}

pub struct BridgeView {
    pub workspace: Seq<char>,
    pub sessions: Seq<char>,
    pub generation: u64,
    pub epoch: u64,
    pub next_turn: u64,
    pub closed: bool,
    /// The turn that is running, and its session.
    pub active: Option<(u64, Seq<char>)>,
    /// The approval that is waited for, and the generation of its executor.
    pub pending: Option<(Seq<char>, u64)>,
    pub hosted: bool,
    pub config: Option<ValidatedHostConfig>,
}

impl<H> View for DesktopBridge<H> {
    type V = BridgeView;

    closed spec fn view(&self) -> BridgeView {
        BridgeView {
            workspace: self.workspace_root@,
            sessions: self.sessions_root@,
            generation: self.generation,
            epoch: self.permission_epoch,
            next_turn: self.next_turn_id,
            closed: self.closed,
            active: match self.active_turn {
                Some(turn) => Some((turn.id, turn.session_id@)),
                None => None,
            },
            pending: match self.pending_approval {
                Some(p) => Some((p.request_id@, p.executor_generation)),
                None => None,
            },
            hosted: self.host is Some,
            config: self.host_config,
        }
    }
}

/// Why a context is refused.
pub open spec fn context_error(b: BridgeView, c: CommandContext) -> Option<ErrorView> {
    if b.closed {
        Some(error(ErrorCode::SandboxDenied, "desktop host is closed; failing closed"@))
    } else if c.generation != b.generation {
        Some(
            error(
                ErrorCode::CursorInvalid,
                "desktop command generation is stale (host "@ + decimal(b.generation as nat)
                    + ", client "@ + decimal(c.generation as nat) + "); refresh and retry"@,
            ),
        )
    } else if c.permission_epoch != b.epoch {
        Some(error(ErrorCode::ApprovalRejected, "desktop permission epoch is stale"@))
    } else {
        None
    }
}

/// The state with the next security facts, and the error where there are none. The
/// generation moves on first.
pub open spec fn advanced(b: BridgeView) -> (BridgeView, Option<ErrorView>) {
    if b.generation == u64::MAX {
        (b, Some(internal_error("generation overflow"@)))
    } else {
        let next = BridgeView { generation: (b.generation + 1) as u64, ..b };
        if b.epoch == u64::MAX {
            (next, Some(internal_error("permission epoch overflow"@)))
        } else {
            (BridgeView { epoch: (b.epoch + 1) as u64, ..next }, None)
        }
    }
}

/// The state without a host.
pub open spec fn unhosted(b: BridgeView) -> BridgeView {
    BridgeView { hosted: false, config: None, ..b }
}

/// The state without a running turn.
pub open spec fn idle(b: BridgeView) -> BridgeView {
    BridgeView { active: None, pending: None, ..b }
}

pub open spec fn is_receipt(
    r: CommandReceipt,
    b: BridgeView,
    operation: Seq<char>,
    turn: Option<u64>,
) -> bool {
    &&& r.operation@ == operation
    &&& r.generation == b.generation
    &&& r.permission_epoch == b.epoch
    &&& r.turn_id == turn
}

/// Why a turn is not the one that is running.
pub open spec fn turn_error(b: BridgeView, turn: u64) -> Option<ErrorView> {
    match b.active {
        Some((id, _)) => if id == turn {
            None
        } else {
            Some(invalid_error("turn is absent or stale"@))
        },
        None => Some(invalid_error("turn is absent or stale"@)),
    }
}

/// Why a workspace is refused.
pub open spec fn workspace_error(b: BridgeView, canonical: Result<String, String>) -> Option<
    ErrorView,
> {
    match canonical {
        Err(e) => Some(internal_error(e@)),
        Ok(path) => if lies_under(path@, b.workspace) {
            None
        } else {
            Some(
                error(
                    ErrorCode::SandboxDenied,
                    "workspace resolves outside the configured root"@,
                ),
            )
        },
    }
}

/// The path of the file of a session, or why it cannot be used.
pub open spec fn session_path_of(
    b: BridgeView,
    id: Seq<char>,
    must_be_new: bool,
    facts: SessionFacts,
) -> Result<Seq<char>, ErrorView> {
    match identifier_error(id, "session id"@) {
        Some(e) => Err(e),
        None => if must_be_new {
            if facts.exists {
                Err(invalid_error("target session already exists"@))
            } else {
                Ok(joined(b.sessions, id + ".jsonl"@))
            }
        } else if !facts.is_file {
            Err(error(ErrorCode::SessionNotFound, "session does not exist"@))
        } else {
            match facts.canonical {
                Err(e) => Err(internal_error(e@)),
                Ok(path) => if lies_under(path@, b.sessions) {
                    Ok(path@)
                } else {
                    Err(
                        error(
                            ErrorCode::SandboxDenied,
                            "session path resolves outside the configured root"@,
                        ),
                    )
                },
            }
        },
    }
}

/// Whether two configurations are the same; paths are compared part by part.
pub open spec fn same_config(a: ValidatedHostConfig, b: ValidatedHostConfig) -> bool {
    &&& a.base_url@ == b.base_url@
    &&& a.model@ == b.model@
    &&& views(a.fetch_allow@) == views(b.fetch_allow@)
    &&& parts(a.workspace@) == parts(b.workspace@)
    &&& a.plugin_root is Some <==> b.plugin_root is Some
    &&& a.plugin_root is Some ==> parts(a.plugin_root->0@) == parts(b.plugin_root->0@)
}

fn same_texts(a: &Vec<String>, b: &Vec<String>) -> (r: bool)
    ensures
        r == (views(a@) == views(b@)),
{
    assert(views(a@).len() == a@.len() && views(b@).len() == b@.len());
    if a.len() != b.len() {
        return false;
    }
    let mut i: usize = 0;
    while i < a.len()
        invariant
            i <= a@.len(),
            a@.len() == b@.len(),
            forall|j: int| 0 <= j < i ==> #[trigger] a@[j]@ == b@[j]@,
        decreases a@.len() - i,
    {
        if !same_text(&a[i], &b[i]) {
            assert(views(a@)[i as int] != views(b@)[i as int]);
            return false;
        }
        i = i + 1;
    }
    assert(views(a@) =~= views(b@));
    true
}

fn configs_match(a: &ValidatedHostConfig, b: &ValidatedHostConfig) -> (r: bool)
    ensures
        r == same_config(*a, *b),
{
    let roots = match (&a.plugin_root, &b.plugin_root) {
        (Some(x), Some(y)) => same_path(x, y),
        (None, None) => true,
        _ => false,
    };
    same_text(&a.base_url, &b.base_url) && same_text(&a.model, &b.model) && same_texts(
        &a.fetch_allow,
        &b.fetch_allow,
    ) && same_path(&a.workspace, &b.workspace) && roots
}

// ---------------------------------------------------------------------------
// The bridge
// ---------------------------------------------------------------------------

impl<H> DesktopBridge<H> {
    /// The host, where one is installed.
    pub closed spec fn installed(&self) -> Option<H> {
        self.host
    }

    /// A bridge over a workspace and a directory of sessions.
    pub fn new(workspace: DirectoryFacts, sessions: DirectoryFacts) -> (r: Result<
        DesktopBridge<H>,
        ErrorEnvelope,
    >)
        ensures
            match directory_of(workspace, "workspace root"@) {
                Err(e) => r is Err && r->Err_0@ == e,
                Ok(w) => match directory_of(sessions, "sessions root"@) {
                    Err(e) => r is Err && r->Err_0@ == e,
                    Ok(s) => r is Ok && r->Ok_0@ == (BridgeView {
                        workspace: w,
                        sessions: s,
                        generation: 1,
                        epoch: 1,
                        next_turn: 0,
                        closed: false,
                        active: None,
                        pending: None,
                        hosted: false,
                        config: None,
                    }),
                },
            },
    {
        let workspace_root = match canonical_directory(workspace, "workspace root") {
            Ok(path) => path,
            Err(e) => {
                return Err(e);
            },
        };
        let sessions_root = match canonical_directory(sessions, "sessions root") {
            Ok(path) => path,
            Err(e) => {
                return Err(e);
            },
        };
        Ok(
            DesktopBridge {
                workspace_root,
                sessions_root,
                generation: 1,
                permission_epoch: 1,
                next_turn_id: 0,
                closed: false,
                active_turn: None,
                pending_approval: None,
                host: None,
                host_config: None,
            },
        )
    }

    /// The security facts in force.
    pub fn context(&self) -> (r: CommandContext)
        ensures
            r.generation == self@.generation,
            r.permission_epoch == self@.epoch,
    {
        CommandContext { generation: self.generation, permission_epoch: self.permission_epoch }
    }

    pub fn workspace_root(&self) -> (r: &String)
        ensures
            r@ == self@.workspace,
    {
        &self.workspace_root
    }

    pub fn sessions_root(&self) -> (r: &String)
        ensures
            r@ == self@.sessions,
    {
        &self.sessions_root
    }

    /// Refuses a context that is not the one in force.
    pub fn validate_command_context(&self, context: CommandContext) -> (r: Result<
        (),
        ErrorEnvelope,
    >)
        ensures
            match r {
                Ok(()) => context_error(self@, context) is None,
                Err(e) => context_error(self@, context) == Some(e@),
            },
    {
        if self.closed {
            return Err(
                ErrorEnvelope::of(
                    ErrorCode::SandboxDenied,
                    "desktop host is closed; failing closed",
                ),
            );
        }
        if context.generation != self.generation {
            let message = concat5(
                "desktop command generation is stale (host ",
                &decimal_of(self.generation),
                ", client ",
                &decimal_of(context.generation),
                "); refresh and retry",
            );
            return Err(ErrorEnvelope::new(ErrorCode::CursorInvalid, message));
        }
        if context.permission_epoch != self.permission_epoch {
            return Err(
                ErrorEnvelope::of(
                    ErrorCode::ApprovalRejected,
                    "desktop permission epoch is stale",
                ),
            );
        }
        Ok(())
    }

    pub fn has_production_host(&self) -> (r: bool)
        ensures
            r == self@.hosted,
            r == (self.installed() is Some),
    {
        self.host.is_some()
    }

    fn receipt(&self, operation: &'static str, turn_id: Option<u64>) -> (r: CommandReceipt)
        ensures
            is_receipt(r, self@, operation@, turn_id),
    {
        CommandReceipt {
            operation,
            generation: self.generation,
            permission_epoch: self.permission_epoch,
            turn_id,
        }
    }

    fn validate_workspace(&self, canonical: &Result<String, String>) -> (r: Result<
        (),
        ErrorEnvelope,
    >)
        ensures
            match r {
                Ok(()) => workspace_error(self@, *canonical) is None,
                Err(e) => workspace_error(self@, *canonical) == Some(e@),
            },
    {
        match canonical {
            Err(e) => Err(internal(e)),
            Ok(path) => {
                if path_starts_with(path, &self.workspace_root) {
                    Ok(())
                } else {
                    Err(
                        ErrorEnvelope::of(
                            ErrorCode::SandboxDenied,
                            "workspace resolves outside the configured root",
                        ),
                    )
                }
            },
        }
    }

    /// The path at which the file of a session is looked for. The identifier is
    /// checked first, so that it cannot lead out of the directory.
    pub fn session_file(&self, session_id: &str) -> (r: Result<String, ErrorEnvelope>)
        ensures
            match identifier_error(session_id@, "session id"@) {
                Some(e) => r is Err && r->Err_0@ == e,
                None => r is Ok && r->Ok_0@ == joined(self@.sessions, session_id@ + ".jsonl"@),
            },
    {
        match validate_identifier(session_id, "session id") {
            Ok(()) => Ok(join_path(&self.sessions_root, &concat2(session_id, ".jsonl"))),
            Err(e) => Err(e),
        }
    }

    /// The path of the file of a session, given what the file system says of it.
    pub fn session_path(&self, session_id: &str, must_be_new: bool, facts: &SessionFacts) -> (r:
        Result<String, ErrorEnvelope>)
        ensures
            match r {
                Ok(path) => session_path_of(self@, session_id@, must_be_new, *facts) == Ok::<
                    Seq<char>,
                    ErrorView,
                >(path@),
                Err(e) => session_path_of(self@, session_id@, must_be_new, *facts) == Err::<
                    Seq<char>,
                    ErrorView,
                >(e@),
            },
    {
        let path = match self.session_file(session_id) {
            Ok(path) => path,
            Err(e) => {
                return Err(e);
            },
        };
        if must_be_new {
            if facts.exists {
                return Err(invalid("target session already exists"));
            }
            return Ok(path);
        }
        if !facts.is_file {
            return Err(ErrorEnvelope::of(ErrorCode::SessionNotFound, "session does not exist"));
        }
        match &facts.canonical {
            Err(e) => Err(internal(e)),
            Ok(canonical) => {
                if path_starts_with(canonical, &self.sessions_root) {
                    Ok(canonical.clone())
                } else {
                    Err(
                        ErrorEnvelope::of(
                            ErrorCode::SandboxDenied,
                            "session path resolves outside the configured root",
                        ),
                    )
                }
            },
        }
    }

    fn require_turn(&self, turn_id: u64) -> (r: Result<(), ErrorEnvelope>)
        ensures
            match r {
                Ok(()) => turn_error(self@, turn_id) is None,
                Err(e) => turn_error(self@, turn_id) == Some(e@),
            },
    {
        match &self.active_turn {
            Some(active) => {
                if active.id == turn_id {
                    Ok(())
                } else {
                    Err(invalid("turn is absent or stale"))
                }
            },
            None => Err(invalid("turn is absent or stale")),
        }
    }

    fn advance_security_context(&mut self) -> (r: Result<(), ErrorEnvelope>)
        ensures
            final(self)@ == advanced(old(self)@).0,
            final(self).installed() == old(self).installed(),
            match r {
                Ok(()) => advanced(old(self)@).1 is None,
                Err(e) => advanced(old(self)@).1 == Some(e@),
            },
    {
        if self.generation == u64::MAX {
            return Err(internal("generation overflow"));
        }
        self.generation = self.generation + 1;
        if self.permission_epoch == u64::MAX {
            return Err(internal("permission epoch overflow"));
        }
        self.permission_epoch = self.permission_epoch + 1;
        Ok(())
    }

    // -----------------------------------------------------------------------
    // The host
    // -----------------------------------------------------------------------

    /// Decides whether a host may be installed.
    pub fn check_install(
        &self,
        context: CommandContext,
        validated: &Result<ValidatedHostConfig, String>,
        canonical: &Result<String, String>,
    ) -> (r: Result<(), ErrorEnvelope>)
        ensures
            match r {
                Ok(()) => install_error(self@, context, *validated, *canonical) is None,
                Err(e) => install_error(self@, context, *validated, *canonical) == Some(e@),
            },
    {
        match self.validate_command_context(context) {
            Ok(()) => {},
            Err(e) => {
                return Err(e);
            },
        }
        if self.host.is_some() {
            return Err(invalid("production host is already installed"));
        }
        match validated {
            Err(e) => Err(internal(e)),
            Ok(_) => self.validate_workspace(canonical),
        }
    }

    /// Installs a host that was started for a configuration. `canonical` is the
    /// canonical path of the workspace of the configuration.
    pub fn install_production_host(
        &mut self,
        context: CommandContext,
        validated: Result<ValidatedHostConfig, String>,
        canonical: &Result<String, String>,
        host: Result<H, String>,
    ) -> (r: Result<(), ErrorEnvelope>)
        ensures
            match install_error(old(self)@, context, validated, *canonical) {
                Some(e) => r is Err && r->Err_0@ == e && final(self)@ == old(self)@
                    && final(self).installed() == old(self).installed(),
                None => is_installation(*old(self), *final(self), validated->Ok_0, host, r),
            },
    {
        match self.check_install(context, &validated, canonical) {
            Ok(()) => {},
            Err(e) => {
                return Err(e);
            },
        }
        let host = match host {
            Ok(host) => host,
            Err(e) => {
                return Err(internal(&e));
            },
        };
        match validated {
            Ok(config) => {
                self.host = Some(host);
                self.host_config = Some(config);
                Ok(())
            },
            Err(e) => Err(internal(&e)),
        }
    }

    /// Starts a host with a key and installs it. No host is started where it could not
    /// be installed.
    pub fn install_production_host_with_api_key<S: HostStarter<H>>(
        &mut self,
        context: CommandContext,
        validated: Result<ValidatedHostConfig, String>,
        canonical: &Result<String, String>,
        api_key: &str,
        starter: &S,
    ) -> (r: Result<(), ErrorEnvelope>)
        ensures
            match install_error(old(self)@, context, validated, *canonical) {
                Some(e) => r is Err && r->Err_0@ == e && final(self)@ == old(self)@
                    && final(self).installed() == old(self).installed(),
                None => exists|config: &ValidatedHostConfig, host: Result<H, String>|
                    {
                        &&& validated == Ok::<ValidatedHostConfig, String>(*config)
                        &&& #[trigger] call_ensures(S::start, (starter, config, api_key), host)
                        &&& is_installation(*old(self), *final(self), *config, host, r)
                    },
            },
    {
        match self.check_install(context, &validated, canonical) {
            Ok(()) => {},
            Err(e) => {
                return Err(e);
            },
        }
        let host = match &validated {
            Ok(config) => {
                let host = starter.start(config, api_key);
                assert(call_ensures(S::start, (starter, config, api_key), host));
                host
            },
            Err(e) => Err(e.clone()),
        };
        self.install_production_host(context, validated, canonical, host)
    }

    /// Refuses a configuration that is not the one of the installed host.
    pub fn validate_installed_host(
        &self,
        context: CommandContext,
        requested: &Result<ValidatedHostConfig, String>,
    ) -> (r: Result<(), ErrorEnvelope>)
        ensures
            match r {
                Ok(()) => installed_error(self@, context, *requested) is None,
                Err(e) => installed_error(self@, context, *requested) == Some(e@),
            },
    {
        match self.validate_command_context(context) {
            Ok(()) => {},
            Err(e) => {
                return Err(e);
            },
        }
        match requested {
            Err(e) => Err(internal(e)),
            Ok(config) => {
                let same = match &self.host_config {
                    Some(installed) => configs_match(installed, config),
                    None => false,
                };
                if self.host.is_none() || !same {
                    return Err(
                        ErrorEnvelope::of(
                            ErrorCode::ApprovalRejected,
                            "production host security facts changed; restart with a new generation",
                        ),
                    );
                }
                Ok(())
            },
        }
    }

    /// Refuses a change of the configuration while a turn or an approval is open.
    pub fn validate_configuration_change(&self, context: CommandContext) -> (r: Result<
        (),
        ErrorEnvelope,
    >)
        ensures
            match r {
                Ok(()) => configuration_error(self@, context) is None,
                Err(e) => configuration_error(self@, context) == Some(e@),
            },
    {
        match self.validate_command_context(context) {
            Ok(()) => {},
            Err(e) => {
                return Err(e);
            },
        }
        if self.active_turn.is_some() || self.pending_approval.is_some() {
            return Err(
                ErrorEnvelope::of(
                    ErrorCode::ApprovalRejected,
                    "configuration cannot change while a turn or approval is active",
                ),
            );
        }
        Ok(())
    }

    // -----------------------------------------------------------------------
    // Turns and approvals
    // -----------------------------------------------------------------------

    /// Accepts input for the running turn.
    pub fn steer(&self, context: CommandContext, turn_id: u64, input: &str) -> (r: Result<
        CommandReceipt,
        ErrorEnvelope,
    >)
        ensures
            match context_error(self@, context) {
                Some(e) => r is Err && r->Err_0@ == e,
                None => match input_error(input@, "steer input"@) {
                    Some(e) => r is Err && r->Err_0@ == e,
                    None => match turn_error(self@, turn_id) {
                        Some(e) => r is Err && r->Err_0@ == e,
                        None => r is Ok && is_receipt(r->Ok_0, self@, "steer"@, Some(turn_id)),
                    },
                },
            },
    {
        match self.validate_command_context(context) {
            Ok(()) => {},
            Err(e) => {
                return Err(e);
            },
        }
        match validate_nonblank_bounded(input, "steer input") {
            Ok(()) => {},
            Err(e) => {
                return Err(e);
            },
        }
        match self.require_turn(turn_id) {
            Ok(()) => Ok(self.receipt("steer", Some(turn_id))),
            Err(e) => Err(e),
        }
    }

    /// Ends the running turn.
    pub fn finish_turn(&mut self, context: CommandContext, turn_id: u64) -> (r: Result<
        CommandReceipt,
        ErrorEnvelope,
    >)
        ensures
            final(self).installed() == old(self).installed(),
            match running_turn_error(old(self)@, context, turn_id) {
                Some(e) => r is Err && r->Err_0@ == e && final(self)@ == old(self)@,
                None => {
                    &&& final(self)@ == idle(old(self)@)
                    &&& r is Ok
                    &&& is_receipt(r->Ok_0, final(self)@, "finish_turn"@, Some(turn_id))
                },
            },
    {
        match self.validate_command_context(context) {
            Ok(()) => {},
            Err(e) => {
                return Err(e);
            },
        }
        match self.require_turn(turn_id) {
            Ok(()) => {},
            Err(e) => {
                return Err(e);
            },
        }
        self.active_turn = None;
        self.pending_approval = None;
        Ok(self.receipt("finish_turn", Some(turn_id)))
    }

    /// Notes that the running turn waits for an approval. There is at most one, and
    /// it is bound to the generation of its executor.
    pub fn register_approval(
        &mut self,
        context: CommandContext,
        turn_id: u64,
        request_id: &str,
        executor_generation: u64,
    ) -> (r: Result<(), ErrorEnvelope>)
        ensures
            final(self).installed() == old(self).installed(),
            match registration_error(
                old(self)@,
                context,
                turn_id,
                request_id@,
                executor_generation,
            ) {
                Some(e) => r is Err && r->Err_0@ == e && final(self)@ == old(self)@,
                None => r is Ok && final(self)@ == (BridgeView {
                    pending: Some((request_id@, executor_generation)),
                    ..old(self)@
                }),
            },
    {
        match self.validate_command_context(context) {
            Ok(()) => {},
            Err(e) => {
                return Err(e);
            },
        }
        match self.require_turn(turn_id) {
            Ok(()) => {},
            Err(e) => {
                return Err(e);
            },
        }
        match validate_identifier(request_id, "approval request id") {
            Ok(()) => {},
            Err(e) => {
                return Err(e);
            },
        }
        if executor_generation == 0 || self.pending_approval.is_some() {
            return Err(
                ErrorEnvelope::of(
                    ErrorCode::ApprovalRejected,
                    "approval security facts are unavailable or another request is pending",
                ),
            );
        }
        self.pending_approval = Some(
            PendingApproval { request_id: request_id.to_owned(), executor_generation },
        );
        Ok(())
    }

    /// Takes the answer to the approval that is waited for. One for another request,
    /// or for another generation of the executor, is refused.
    pub fn respond_approval(
        &mut self,
        context: CommandContext,
        request_id: &str,
        executor_generation: u64,
        approved: bool,
    ) -> (r: Result<CommandReceipt, ErrorEnvelope>)
        ensures
            final(self).installed() == old(self).installed(),
            match response_error(old(self)@, context, request_id@, executor_generation) {
                Some(e) => r is Err && r->Err_0@ == e && final(self)@ == old(self)@,
                None => {
                    &&& final(self)@ == (BridgeView { pending: None, ..old(self)@ })
                    &&& r is Ok
                    &&& is_receipt(
                        r->Ok_0,
                        final(self)@,
                        "respond_approval"@,
                        match old(self)@.active {
                            Some((id, _)) => Some(id),
                            None => None,
                        },
                    )
                },
            },
    {
        match self.validate_command_context(context) {
            Ok(()) => {},
            Err(e) => {
                return Err(e);
            },
        }
        let fits = match &self.pending_approval {
            None => {
                return Err(
                    ErrorEnvelope::of(
                        ErrorCode::ApprovalRejected,
                        "approval request is absent; failing closed",
                    ),
                );
            },
            Some(pending) => same_text(&pending.request_id, request_id)
                && pending.executor_generation == executor_generation && executor_generation != 0,
        };
        if !fits {
            return Err(
                ErrorEnvelope::of(
                    ErrorCode::ApprovalRejected,
                    "approval request or execution generation is stale",
                ),
            );
        }
        self.pending_approval = None;
        let turn_id = match &self.active_turn {
            Some(turn) => Some(turn.id),
            None => None,
        };
        Ok(self.receipt("respond_approval", turn_id))
    }

    // -----------------------------------------------------------------------
    // Sessions
    // -----------------------------------------------------------------------

    /// Decides on an operation on sessions. `source` and `target` are what the file
    /// system says of the files it names; one that names a single session uses the
    /// first.
    pub fn session_operation(
        &self,
        context: CommandContext,
        operation: &SessionOperation,
        source: &SessionFacts,
        target: &SessionFacts,
    ) -> (r: Result<SessionPlan, ErrorEnvelope>)
        ensures
            match r {
                Ok(plan) => plan_of(self@, context, *operation, *source, *target) == Ok::<
                    PlanView,
                    ErrorView,
                >(plan@),
                Err(e) => plan_of(self@, context, *operation, *source, *target) == Err::<
                    PlanView,
                    ErrorView,
                >(e@),
            },
    {
        match self.validate_command_context(context) {
            Ok(()) => {},
            Err(e) => {
                return Err(e);
            },
        }
        match operation {
            SessionOperation::Create { session_id } => match self.session_path(
                session_id,
                true,
                source,
            ) {
                Ok(path) => Ok(SessionPlan::Create { path }),
                Err(e) => Err(e),
            },
            SessionOperation::Resume { session_id } => match self.session_path(
                session_id,
                false,
                source,
            ) {
                Ok(path) => Ok(SessionPlan::Resume { path }),
                Err(e) => Err(e),
            },
            SessionOperation::Fork { source_id, target_id, boundary } => {
                let from = match self.session_path(source_id, false, source) {
                    Ok(path) => path,
                    Err(e) => {
                        return Err(e);
                    },
                };
                match self.session_path(target_id, true, target) {
                    Ok(to) => Ok(SessionPlan::Fork { source: from, target: to, boundary: *boundary }),
                    Err(e) => Err(e),
                }
            },
            SessionOperation::Revert { source_id, target_id, turn_id } => {
                let from = match self.session_path(source_id, false, source) {
                    Ok(path) => path,
                    Err(e) => {
                        return Err(e);
                    },
                };
                match self.session_path(target_id, true, target) {
                    Ok(to) => Ok(SessionPlan::Revert { source: from, target: to, turn_id: *turn_id }),
                    Err(e) => Err(e),
                }
            },
        }
    }

    /// The receipt for an operation on sessions.
    pub fn session_receipt(&self, session_id: String, event_count: u64) -> (r: SessionReceipt)
        ensures
            r.session_id == session_id,
            r.event_count == event_count,
            r.generation == self@.generation,
    {
        SessionReceipt { session_id, event_count, generation: self.generation }
    }

    /// The events of a session after `last_seq`, at most `limit` of them, as frames.
    pub fn session_event_frames(
        &self,
        session_id: &str,
        last_seq: u64,
        limit: usize,
        facts: &SessionFacts,
        events: Result<Vec<SequencedEvent>, String>,
    ) -> (r: Result<Vec<SessionEventFrame>, ErrorEnvelope>)
        ensures
            if self@.closed {
                r is Err && r->Err_0@ == invalid_error("bridge is closed"@)
            } else {
                match session_path_of(self@, session_id@, false, *facts) {
                    Err(e) => r is Err && r->Err_0@ == e,
                    Ok(_) => match events {
                        Err(e) => r is Err && r->Err_0@ == internal_error(e@),
                        Ok(records) => r is Ok && are_frames(
                            r->Ok_0@,
                            session_id@,
                            self@.generation,
                            later(records@, last_seq, limit as nat),
                        ),
                    },
                }
            },
    {
        if self.closed {
            return Err(invalid("bridge is closed"));
        }
        match self.session_path(session_id, false, facts) {
            Ok(_) => {},
            Err(e) => {
                return Err(e);
            },
        }
        match events {
            Err(e) => Err(internal(&e)),
            Ok(records) => Ok(
                frames_of(session_id, self.generation, take_later(records, last_seq, limit)),
            ),
        }
    }
}

/// Why a host may not be installed.
pub open spec fn install_error(
    b: BridgeView,
    c: CommandContext,
    validated: Result<ValidatedHostConfig, String>,
    canonical: Result<String, String>,
) -> Option<ErrorView> {
    match context_error(b, c) {
        Some(e) => Some(e),
        None => if b.hosted {
            Some(invalid_error("production host is already installed"@))
        } else {
            match validated {
                Err(e) => Some(internal_error(e@)),
                Ok(_) => workspace_error(b, canonical),
            }
        },
    }
}

/// Why the installed host does not serve a configuration.
pub open spec fn installed_error(
    b: BridgeView,
    c: CommandContext,
    requested: Result<ValidatedHostConfig, String>,
) -> Option<ErrorView> {
    match context_error(b, c) {
        Some(e) => Some(e),
        None => match requested {
            Err(e) => Some(internal_error(e@)),
            Ok(config) => if b.hosted && b.config is Some && same_config(b.config->0, config) {
                None
            } else {
                Some(
                    error(
                        ErrorCode::ApprovalRejected,
                        "production host security facts changed; restart with a new generation"@,
                    ),
                )
            },
        },
    }
}

/// Why the configuration may not change.
pub open spec fn configuration_error(b: BridgeView, c: CommandContext) -> Option<ErrorView> {
    match context_error(b, c) {
        Some(e) => Some(e),
        None => if b.active is Some || b.pending is Some {
            Some(
                error(
                    ErrorCode::ApprovalRejected,
                    "configuration cannot change while a turn or approval is active"@,
                ),
            )
        } else {
            None
        },
    }
}

/// Why a command on the running turn is refused.
pub open spec fn running_turn_error(b: BridgeView, c: CommandContext, turn: u64) -> Option<
    ErrorView,
> {
    match context_error(b, c) {
        Some(e) => Some(e),
        None => turn_error(b, turn),
    }
}

/// Why an approval is not registered.
pub open spec fn registration_error(
    b: BridgeView,
    c: CommandContext,
    turn: u64,
    request: Seq<char>,
    executor: u64,
) -> Option<ErrorView> {
    match running_turn_error(b, c, turn) {
        Some(e) => Some(e),
        None => match identifier_error(request, "approval request id"@) {
            Some(e) => Some(e),
            None => if executor == 0 || b.pending is Some {
                Some(
                    error(
                        ErrorCode::ApprovalRejected,
                        "approval security facts are unavailable or another request is pending"@,
                    ),
                )
            } else {
                None
            },
        },
    }
}

/// Why the answer to an approval is refused.
pub open spec fn response_error(
    b: BridgeView,
    c: CommandContext,
    request: Seq<char>,
    executor: u64,
) -> Option<ErrorView> {
    match context_error(b, c) {
        Some(e) => Some(e),
        None => match b.pending {
            None => Some(
                error(
                    ErrorCode::ApprovalRejected,
                    "approval request is absent; failing closed"@,
                ),
            ),
            Some((id, generation)) => if id != request || generation != executor || executor == 0 {
                Some(
                    error(
                        ErrorCode::ApprovalRejected,
                        "approval request or execution generation is stale"@,
                    ),
                )
            } else {
                None
            },
        },
    }
}

/// What an operation on sessions comes to: the files that it works on.
#[derive(Debug, PartialEq, Eq)]
pub enum SessionPlan {
    Create { path: String },
    Resume { path: String },
    Fork { source: String, target: String, boundary: Option<usize> },
    Revert { source: String, target: String, turn_id: u64 },
}

pub enum PlanView {
    Create { path: Seq<char> },
    Resume { path: Seq<char> },
    Fork { source: Seq<char>, target: Seq<char>, boundary: Option<usize> },
    Revert { source: Seq<char>, target: Seq<char>, turn_id: u64 },
}

impl View for SessionPlan {
    type V = PlanView;

    open spec fn view(&self) -> PlanView {
        match *self {
            SessionPlan::Create { path } => PlanView::Create { path: path@ },
            SessionPlan::Resume { path } => PlanView::Resume { path: path@ },
            SessionPlan::Fork { source, target, boundary } => PlanView::Fork {
                source: source@,
                target: target@,
                boundary,
            },
            SessionPlan::Revert { source, target, turn_id } => PlanView::Revert {
                source: source@,
                target: target@,
                turn_id,
            },
        }
    }
}

/// The plan for an operation, or why it is refused.
pub open spec fn plan_of(
    b: BridgeView,
    c: CommandContext,
    operation: SessionOperation,
    source: SessionFacts,
    target: SessionFacts,
) -> Result<PlanView, ErrorView> {
    match context_error(b, c) {
        Some(e) => Err(e),
        None => match operation {
            SessionOperation::Create { session_id } => match session_path_of(
                b,
                session_id@,
                true,
                source,
            ) {
                Ok(path) => Ok(PlanView::Create { path }),
                Err(e) => Err(e),
            },
            SessionOperation::Resume { session_id } => match session_path_of(
                b,
                session_id@,
                false,
                source,
            ) {
                Ok(path) => Ok(PlanView::Resume { path }),
                Err(e) => Err(e),
            },
            SessionOperation::Fork { source_id, target_id, boundary } => match session_path_of(
                b,
                source_id@,
                false,
                source,
            ) {
                Err(e) => Err(e),
                Ok(from) => match session_path_of(b, target_id@, true, target) {
                    Err(e) => Err(e),
                    Ok(to) => Ok(PlanView::Fork { source: from, target: to, boundary }),
                },
            },
            SessionOperation::Revert { source_id, target_id, turn_id } => match session_path_of(
                b,
                source_id@,
                false,
                source,
            ) {
                Err(e) => Err(e),
                Ok(from) => match session_path_of(b, target_id@, true, target) {
                    Err(e) => Err(e),
                    Ok(to) => Ok(PlanView::Revert { source: from, target: to, turn_id }),
                },
            },
        },
    }
}

/// The number of events that a fork takes over.
pub fn fork_limit(boundary: Option<usize>, event_count: usize) -> (r: Result<usize, ErrorEnvelope>)
    ensures
        ({
            let wanted = match boundary {
                Some(b) => b,
                None => event_count,
            };
            if wanted > event_count {
                r is Err && r->Err_0@ == invalid_error("fork boundary exceeds source event count"@)
            } else {
                r == Ok::<usize, ErrorEnvelope>(wanted)
            }
        }),
{
    let wanted: usize = match boundary {
        Some(b) => b,
        None => event_count,
    };
    if wanted > event_count {
        return Err(invalid("fork boundary exceeds source event count"));
    }
    Ok(wanted)
}

/// The first `limit` records with a number above `last_seq`.
pub open spec fn later(records: Seq<SequencedEvent>, last_seq: u64, limit: nat) -> Seq<
    SequencedEvent,
>
    decreases records.len(),
{
    if records.len() == 0 {
        Seq::empty()
    } else {
        let head = later(records.drop_last(), last_seq, limit);
        if records.last().seq > last_seq && head.len() < limit {
            head.push(records.last())
        } else {
            head
        }
    }
}

fn take_later(records: Vec<SequencedEvent>, last_seq: u64, limit: usize) -> (r: Vec<SequencedEvent>)
    ensures
        r@ == later(records@, last_seq, limit as nat),
{
    let ghost all = records@;
    let mut kept: Vec<SequencedEvent> = Vec::new();
    assert(all.take(0) =~= Seq::empty());
    for record in it: records
        invariant
            it.seq() == all,
            kept@ == later(all.take(it.index() as int), last_seq, limit as nat),
    {
        proof {
            let next = all.take(it.index() + 1);
            assert(next.drop_last() =~= all.take(it.index() as int));
            assert(next.last() == record);
        }
        if record.seq > last_seq && kept.len() < limit {
            kept.push(record);
        }
    }
    assert(all.take(all.len() as int) =~= all);
    kept
}

// ---------------------------------------------------------------------------
// Commands that reach the host
// ---------------------------------------------------------------------------

/// Why a turn does not start, judged before the last turn is looked at.
pub open spec fn start_error(
    b: BridgeView,
    c: CommandContext,
    session_id: Seq<char>,
    workspace: Result<String, String>,
    input: Seq<char>,
    session: SessionFacts,
) -> Option<ErrorView> {
    match context_error(b, c) {
        Some(e) => Some(e),
        None => if !b.hosted {
            Some(internal_error("production host is unavailable; failing closed"@))
        } else {
            match workspace_error(b, workspace) {
                Some(e) => Some(e),
                None => match input_error(input, "turn input"@) {
                    Some(e) => Some(e),
                    None => match session_path_of(b, session_id, false, session) {
                        Err(e) => Some(e),
                        Ok(_) => None,
                    },
                },
            }
        },
    }
}

/// The state once the last turn was looked at: one that has finished no longer runs.
pub open spec fn settled(b: BridgeView, last_turn_done: bool) -> BridgeView {
    if last_turn_done {
        BridgeView { active: None, ..b }
    } else {
        b
    }
}

/// Why no turn can be added to a state.
pub open spec fn occupied_error(b: BridgeView) -> Option<ErrorView> {
    if b.active is Some {
        Some(invalid_error("another turn is already active"@))
    } else if b.next_turn == u64::MAX {
        Some(internal_error("turn id overflow"@))
    } else {
        None
    }
}

/// The state with a turn more.
pub open spec fn started(b: BridgeView, session_id: Seq<char>) -> BridgeView {
    BridgeView {
        active: Some((b.next_turn, session_id)),
        next_turn: (b.next_turn + 1) as u64,
        ..b
    }
}

/// The answer to a command that moves the security facts on, given how the host shut
/// down.
pub open spec fn is_advance_answer(
    r: Result<CommandReceipt, ErrorEnvelope>,
    shutdown: Result<(), String>,
    before: BridgeView,
    operation: Seq<char>,
    turn: Option<u64>,
) -> bool {
    match shutdown {
        Err(e) => r is Err && r->Err_0@ == internal_error(e@),
        Ok(()) => match advanced(before).1 {
            Some(e) => r is Err && r->Err_0@ == e,
            None => r is Ok && is_receipt(r->Ok_0, advanced(before).0, operation, turn),
        },
    }
}

/// Whether the host was cancelled and could then have shut down so; where there is none,
/// it always does.
pub open spec fn could_shut_down<H: ManagedHost>(
    host: Option<H>,
    shutdown: Result<(), String>,
) -> bool {
    match host {
        None => shutdown is Ok,
        Some(h) => call_ensures(H::cancel, (&h,), ()) && call_ensures(
            H::shutdown,
            (&h,),
            shutdown,
        ),
    }
}

/// What a change of the configuration does: the host is given up, and every security
/// fact moves on.
pub open spec fn is_configuration_change<H: ManagedHost>(
    before: DesktopBridge<H>,
    after: DesktopBridge<H>,
    context: CommandContext,
    r: Result<CommandReceipt, ErrorEnvelope>,
) -> bool {
    match configuration_error(before@, context) {
        Some(e) => r is Err && r->Err_0@ == e && after@ == before@ && after.installed()
            == before.installed(),
        None => {
            &&& after@ == advanced(unhosted(before@)).0
            &&& after.installed() is None
            &&& exists|shutdown: Result<(), String>|
                #[trigger] could_shut_down(before.installed(), shutdown) && is_advance_answer(
                    r,
                    shutdown,
                    unhosted(before@),
                    "configuration_changed"@,
                    None,
                )
        },
    }
}

/// What the start of a turn does: it is refused, or the turn is registered and handed
/// to the host.
pub open spec fn is_start<H: ManagedHost>(
    before: DesktopBridge<H>,
    after: DesktopBridge<H>,
    context: CommandContext,
    session_id: Seq<char>,
    workspace: Result<String, String>,
    input: &str,
    session: SessionFacts,
    last_turn_done: bool,
    r: Result<CommandReceipt, ErrorEnvelope>,
) -> bool {
    &&& after.installed() == before.installed()
    &&& match start_error(before@, context, session_id, workspace, input@, session) {
        Some(e) => r is Err && r->Err_0@ == e && after@ == before@,
        None => {
            let ready = settled(before@, last_turn_done);
            match occupied_error(ready) {
                Some(e) => r is Err && r->Err_0@ == e && after@ == ready,
                None => {
                    &&& after@ == started(ready, session_id)
                    &&& before.installed() is Some
                    &&& exists|path: &str, spawned: Result<(), ErrorEnvelope>|
                        {
                            &&& session_path_of(before@, session_id, false, session) == Ok::<
                                Seq<char>,
                                ErrorView,
                            >(path@)
                            &&& #[trigger] call_ensures(
                                H::spawn_turn,
                                (&before.installed()->0, path, input),
                                spawned,
                            )
                            &&& match spawned {
                                Err(e) => r is Err && r->Err_0@ == internal_error(e@.message),
                                Ok(()) => r is Ok && is_receipt(
                                    r->Ok_0,
                                    after@,
                                    "start_turn"@,
                                    Some(ready.next_turn),
                                ),
                            }
                        }
                },
            }
        },
    }
}

/// What the installation of a host comes to, given how its start went.
pub open spec fn is_installation<H>(
    before: DesktopBridge<H>,
    after: DesktopBridge<H>,
    config: ValidatedHostConfig,
    host: Result<H, String>,
    r: Result<(), ErrorEnvelope>,
) -> bool {
    match host {
        Err(e) => r is Err && r->Err_0@ == internal_error(e@) && after@ == before@
            && after.installed() == before.installed(),
        Ok(h) => {
            &&& r is Ok
            &&& after.installed() == Some(h)
            &&& after@ == (BridgeView { hosted: true, config: Some(config), ..before@ })
        },
    }
}

/// Starts hosts.
pub trait HostStarter<H> {
    fn start(&self, config: &ValidatedHostConfig, api_key: &str) -> Result<H, String>;
}

impl<H: ManagedHost> DesktopBridge<H> {
    fn cancel_and_shutdown_host(&mut self) -> (r: Result<(), String>)
        ensures
            final(self)@ == unhosted(old(self)@),
            final(self).installed() is None,
            could_shut_down(old(self).installed(), r),
    {
        let mut host: Option<H> = None;
        std::mem::swap(&mut host, &mut self.host);
        self.host_config = None;
        match host {
            None => Ok(()),
            Some(host) => {
                host.cancel();
                host.shutdown()
            },
        }
    }

    /// Gives up the host and every permission fact after the settings or the
    /// credentials changed.
    pub fn configuration_changed(&mut self, context: CommandContext) -> (r: Result<
        CommandReceipt,
        ErrorEnvelope,
    >)
        ensures
            is_configuration_change(*old(self), *final(self), context, r),
    {
        match self.validate_configuration_change(context) {
            Ok(()) => {},
            Err(e) => {
                return Err(e);
            },
        }
        let shutdown = self.cancel_and_shutdown_host();
        let ghost found = shutdown;
        let advanced = self.advance_security_context();
        assert(could_shut_down(old(self).installed(), found));
        match shutdown {
            Err(e) => Err(internal(&e)),
            Ok(()) => match advanced {
                Err(e) => Err(e),
                Ok(()) => Ok(self.receipt("configuration_changed", None)),
            },
        }
    }

    /// Cancels the running turn: the host is given up, and every security fact moves
    /// on.
    pub fn cancel_turn(&mut self, context: CommandContext, turn_id: u64) -> (r: Result<
        CommandReceipt,
        ErrorEnvelope,
    >)
        ensures
            match running_turn_error(old(self)@, context, turn_id) {
                Some(e) => r is Err && r->Err_0@ == e && final(self)@ == old(self)@
                    && final(self).installed() == old(self).installed(),
                None => {
                    &&& final(self)@ == advanced(idle(unhosted(old(self)@))).0
                    &&& final(self).installed() is None
                    &&& exists|shutdown: Result<(), String>|
                        #[trigger] could_shut_down(old(self).installed(), shutdown)
                            && is_advance_answer(
                            r,
                            shutdown,
                            idle(unhosted(old(self)@)),
                            "cancel_turn"@,
                            Some(turn_id),
                        )
                },
            },
    {
        match self.validate_command_context(context) {
            Ok(()) => {},
            Err(e) => {
                return Err(e);
            },
        }
        match self.require_turn(turn_id) {
            Ok(()) => {},
            Err(e) => {
                return Err(e);
            },
        }
        let shutdown = self.cancel_and_shutdown_host();
        let ghost found = shutdown;
        self.active_turn = None;
        self.pending_approval = None;
        let advanced = self.advance_security_context();
        assert(could_shut_down(old(self).installed(), found));
        match shutdown {
            Err(e) => Err(internal(&e)),
            Ok(()) => match advanced {
                Err(e) => Err(e),
                Ok(()) => Ok(self.receipt("cancel_turn", Some(turn_id))),
            },
        }
    }

    /// Starts a turn. `workspace` is the canonical path of its workspace, `session`
    /// what the file system says of its session, and `last_turn_done` whether the
    /// turn that was started last has finished.
    pub fn start_turn(
        &mut self,
        context: CommandContext,
        session_id: &str,
        workspace: &Result<String, String>,
        input: &str,
        session: &SessionFacts,
        last_turn_done: bool,
    ) -> (r: Result<CommandReceipt, ErrorEnvelope>)
        ensures
            is_start(
                *old(self),
                *final(self),
                context,
                session_id@,
                *workspace,
                input,
                *session,
                last_turn_done,
                r,
            ),
    {
        match self.validate_command_context(context) {
            Ok(()) => {},
            Err(e) => {
                return Err(e);
            },
        }
        if self.host.is_none() {
            return Err(internal("production host is unavailable; failing closed"));
        }
        match self.validate_workspace(workspace) {
            Ok(()) => {},
            Err(e) => {
                return Err(e);
            },
        }
        match validate_nonblank_bounded(input, "turn input") {
            Ok(()) => {},
            Err(e) => {
                return Err(e);
            },
        }
        let session_path = match self.session_path(session_id, false, session) {
            Ok(path) => path,
            Err(e) => {
                return Err(e);
            },
        };
        if last_turn_done {
            self.active_turn = None;
        }
        if self.active_turn.is_some() {
            return Err(invalid("another turn is already active"));
        }
        let turn_id: u64 = self.next_turn_id;
        if turn_id == u64::MAX {
            return Err(internal("turn id overflow"));
        }
        self.next_turn_id = turn_id + 1;
        self.active_turn = Some(ActiveTurn { id: turn_id, session_id: session_id.to_owned() });
        let path = session_path.as_str();
        let spawned = match &self.host {
            Some(host) => host.spawn_turn(path, input),
            None => Err(internal("production host is unavailable; failing closed")),
        };
        assert(call_ensures(
            H::spawn_turn,
            (&old(self).installed()->0, path, input),
            spawned,
        ));
        match spawned {
            Err(e) => Err(ErrorEnvelope::new(ErrorCode::Internal, e.message)),
            Ok(()) => Ok(self.receipt("start_turn", Some(turn_id))),
        }
    }

    /// Closes the bridge for good: the host is given up, and every later command is
    /// refused. Closing it again changes nothing.
    pub fn close(&mut self) -> (r: Result<(), ErrorEnvelope>)
        ensures
            old(self)@.closed ==> r is Ok && final(self)@ == old(self)@ && final(self).installed()
                == old(self).installed(),
            !old(self)@.closed ==> {
                let before = BridgeView { closed: true, ..idle(unhosted(old(self)@)) };
                &&& final(self)@ == advanced(before).0
                &&& final(self).installed() is None
                &&& exists|shutdown: Result<(), String>|
                    #[trigger] could_shut_down(old(self).installed(), shutdown) && match shutdown {
                        Err(e) => r is Err && r->Err_0@ == internal_error(e@),
                        Ok(()) => match advanced(before).1 {
                            Some(e) => r is Err && r->Err_0@ == e,
                            None => r is Ok,
                        },
                    }
            },
    {
        if self.closed {
            return Ok(());
        }
        let shutdown = self.cancel_and_shutdown_host();
        let ghost found = shutdown;
        self.active_turn = None;
        self.pending_approval = None;
        self.closed = true;
        let advanced = self.advance_security_context();
        assert(could_shut_down(old(self).installed(), found));
        match shutdown {
            Err(e) => Err(internal(&e)),
            Ok(()) => advanced,
        }
    }
}

// ---------------------------------------------------------------------------
// Laws
// ---------------------------------------------------------------------------

/// Once the security facts have moved on, nothing that was given under the old ones
/// is accepted.
pub proof fn old_contexts_are_refused(b: BridgeView, c: CommandContext)
    requires
        context_error(b, c) is None,
        b.generation < u64::MAX,
    ensures
        context_error(advanced(b).0, c) is Some,
        context_error(advanced(idle(unhosted(b))).0, c) is Some,
{
}

/// A closed bridge refuses every context, and stays closed whatever moves on.
pub proof fn a_closed_bridge_refuses_everything(b: BridgeView, c: CommandContext)
    requires
        b.closed,
    ensures
        context_error(b, c) is Some,
        (context_error(b, c)->0).code == ErrorCode::SandboxDenied,
        advanced(b).0.closed,
{
}

/// At most one turn runs: a second one starts only once the first has finished, and
/// its number was never used before.
pub proof fn turns_run_one_at_a_time(b: BridgeView, session_id: Seq<char>)
    requires
        occupied_error(b) is None,
    ensures
        b.active is None,
        started(b, session_id).active == Some((b.next_turn, session_id)),
        started(b, session_id).next_turn == b.next_turn + 1,
        occupied_error(started(b, session_id)) is Some,
{
}

/// An approval is answered once, by the one request and executor it was registered
/// for.
pub proof fn an_approval_is_answered_once(
    b: BridgeView,
    c: CommandContext,
    turn: u64,
    request: Seq<char>,
    executor: u64,
    other: Seq<char>,
    other_executor: u64,
)
    requires
        registration_error(b, c, turn, request, executor) is None,
    ensures
        ({
            let waiting = BridgeView { pending: Some((request, executor)), ..b };
            &&& response_error(waiting, c, request, executor) is None
            &&& (other != request || other_executor != executor) ==> response_error(
                waiting,
                c,
                other,
                other_executor,
            ) is Some
            &&& response_error(BridgeView { pending: None, ..waiting }, c, request, executor)
                is Some
        }),
{
}

/// A session that a command reaches lies in the directory of sessions, whatever its
/// identifier.
pub proof fn sessions_stay_in_their_directory(
    b: BridgeView,
    id: Seq<char>,
    facts: SessionFacts,
)
    ensures
        session_path_of(b, id, false, facts) matches Ok(path) ==> lies_under(path, b.sessions)
            && is_session_id(id),
        session_path_of(b, id, true, facts) matches Ok(path) ==> path == joined(
            b.sessions,
            id + ".jsonl"@,
        ) && is_session_id(id) && !facts.exists,
{
}

/// A command is taken where the bridge is open and the command was made for the current
/// generation and the current permissions; what is stale is told apart.
pub proof fn when_a_command_is_taken(b: BridgeView, c: CommandContext)
    ensures
        context_error(b, c) is None <==> !b.closed && c.generation == b.generation
            && c.permission_epoch == b.epoch,
        !b.closed && c.generation != b.generation ==> context_error(b, c)->0.code
            == ErrorCode::CursorInvalid,
        !b.closed && c.generation == b.generation && c.permission_epoch != b.epoch
            ==> context_error(b, c)->0.code == ErrorCode::ApprovalRejected,
{
}

/// Moving on counts the generation and the permissions up by one each and changes nothing
/// else; neither is counted past its end.
pub proof fn moving_on_counts_up(b: BridgeView)
    requires
        b.generation < u64::MAX,
        b.epoch < u64::MAX,
    ensures
        advanced(b).1 is None,
        advanced(b).0.generation == b.generation + 1,
        advanced(b).0.epoch == b.epoch + 1,
        advanced(b).0 == (BridgeView {
            generation: advanced(b).0.generation,
            epoch: advanced(b).0.epoch,
            ..b
        }),
        advanced(BridgeView { generation: u64::MAX, ..b }).1 is Some,
        advanced(BridgeView { epoch: u64::MAX, ..b }).1 is Some,
{
}

/// A configuration changes between turns only. Then there is no host any more, and a receipt
/// says so for the next generation; otherwise nothing changes.
pub proof fn a_configuration_changes_between_turns<H: ManagedHost>(
    before: DesktopBridge<H>,
    after: DesktopBridge<H>,
    c: CommandContext,
    r: Result<CommandReceipt, ErrorEnvelope>,
)
    requires
        is_configuration_change(before, after, c, r),
    ensures
        before@.active is Some || before@.pending is Some ==> r is Err && after@ == before@
            && after.installed() == before.installed(),
        before@.closed || c.generation != before@.generation || c.permission_epoch != before@.epoch
            ==> r is Err && after@ == before@,
        r matches Ok(receipt) ==> {
            &&& after.installed() is None
            &&& !after@.hosted && after@.config is None
            &&& receipt.operation@ == "configuration_changed"@
            &&& receipt.generation == before@.generation + 1
            &&& receipt.permission_epoch == before@.epoch + 1
            &&& receipt.turn_id is None
            &&& after@.generation == before@.generation + 1
            &&& after@.epoch == before@.epoch + 1
        },
{
}

/// A turn starts where the command is taken, a host is there, the workspace lies in its place,
/// the input says something, the session is there and no other turn runs. It has the next
/// number, and a receipt for it.
pub proof fn when_a_turn_starts<H: ManagedHost>(
    before: DesktopBridge<H>,
    after: DesktopBridge<H>,
    c: CommandContext,
    session_id: Seq<char>,
    workspace: Result<String, String>,
    input: &str,
    session: SessionFacts,
    last_turn_done: bool,
    r: Result<CommandReceipt, ErrorEnvelope>,
)
    requires
        is_start(before, after, c, session_id, workspace, input, session, last_turn_done, r),
    ensures
        after.installed() == before.installed(),
        r is Ok ==> {
            &&& context_error(before@, c) is None
            &&& before@.hosted
            &&& workspace is Ok && lies_under(workspace->Ok_0@, before@.workspace)
            &&& !blank(input@) && byte_len(input@) <= 1048576
            &&& is_session_id(session_id) && session.is_file
            &&& before@.active is None || last_turn_done
            &&& after@.active == Some((before@.next_turn, session_id))
            &&& after@.next_turn == before@.next_turn + 1
            &&& after@.generation == before@.generation && after@.epoch == before@.epoch
            &&& r->Ok_0.operation@ == "start_turn"@
            &&& r->Ok_0.turn_id == Some(before@.next_turn)
            &&& r->Ok_0.generation == before@.generation
            &&& r->Ok_0.permission_epoch == before@.epoch
        },
        before@.active is Some && !last_turn_done ==> r is Err && after@ == before@,
        !before@.hosted ==> r is Err && after@ == before@,
{
}

/// A host that is installed is the one that was made, with its configuration; one that could
/// not be made changes nothing.
pub proof fn a_host_is_installed<H>(
    before: DesktopBridge<H>,
    after: DesktopBridge<H>,
    config: ValidatedHostConfig,
    host: Result<H, String>,
    r: Result<(), ErrorEnvelope>,
)
    requires
        is_installation(before, after, config, host, r),
    ensures
        r is Ok <==> host is Ok,
        host is Ok ==> after.installed() == Some(host->Ok_0) && after@.hosted && after@.config
            == Some(config) && after@.generation == before@.generation && after@.epoch
            == before@.epoch && after@.active == before@.active && after@.next_turn
            == before@.next_turn && after@.closed == before@.closed,
        host is Err ==> after@ == before@ && after.installed() == before.installed(),
{
}

/// When a host may be installed, and when the one that is there may be used.
pub proof fn when_a_host_may_be_used(
    b: BridgeView,
    c: CommandContext,
    validated: Result<ValidatedHostConfig, String>,
    canonical: Result<String, String>,
)
    ensures
        install_error(b, c, validated, canonical) is None <==> {
            &&& context_error(b, c) is None
            &&& !b.hosted
            &&& validated is Ok
            &&& canonical is Ok && lies_under(canonical->Ok_0@, b.workspace)
        },
        installed_error(b, c, validated) is None <==> {
            &&& context_error(b, c) is None
            &&& b.hosted
            &&& validated is Ok
            &&& b.config is Some && same_config(b.config->0, validated->Ok_0)
        },
        context_error(b, c) is None && canonical is Ok && !b.hosted && validated is Ok
            && !lies_under(canonical->Ok_0@, b.workspace) ==> install_error(
            b,
            c,
            validated,
            canonical,
        )->0.code == ErrorCode::SandboxDenied,
{
}

/// An approval is registered for the turn that runs, by a request that is named and an
/// executor that is known, while none is waited for.
pub proof fn when_an_approval_is_registered(
    b: BridgeView,
    c: CommandContext,
    turn: u64,
    request: Seq<char>,
    executor: u64,
)
    ensures
        registration_error(b, c, turn, request, executor) is None <==> {
            &&& context_error(b, c) is None
            &&& b.active is Some && (b.active->0).0 == turn
            &&& is_session_id(request) && byte_len(request) <= 128
            &&& executor != 0
            &&& b.pending is None
        },
        response_error(b, c, request, executor) is None <==> {
            &&& context_error(b, c) is None
            &&& b.pending == Some((request, executor))
            &&& executor != 0
        },
        running_turn_error(b, c, turn) is None <==> context_error(b, c) is None && b.active is Some
            && (b.active->0).0 == turn,
        configuration_error(b, c) is None <==> context_error(b, c) is None && b.active is None
            && b.pending is None,
{
}

/// The file of a session: a new one is named after it in the directory of the sessions, and
/// one that is there is where it was found.
pub proof fn the_file_of_a_session(b: BridgeView, id: Seq<char>, facts: SessionFacts)
    ensures
        session_path_of(b, id, true, facts) is Ok <==> is_session_id(id) && byte_len(id) <= 128
            && !facts.exists,
        session_path_of(b, id, false, facts) is Ok <==> is_session_id(id) && byte_len(id) <= 128
            && facts.is_file && facts.canonical is Ok && lies_under(
            facts.canonical->Ok_0@,
            b.sessions,
        ),
        session_path_of(b, id, false, facts) is Ok ==> session_path_of(b, id, false, facts)->Ok_0
            == facts.canonical->Ok_0@,
        is_session_id(id) && byte_len(id) <= 128 && !facts.is_file ==> session_path_of(
            b,
            id,
            false,
            facts,
        ) is Err && session_path_of(b, id, false, facts)->Err_0.code
            == ErrorCode::SessionNotFound,
        is_session_id(id) && byte_len(id) <= 128 && !facts.exists && b.sessions.len() > 0
            && b.sessions.last() != '/' ==> session_path_of(b, id, true, facts) == Ok::<
            Seq<char>,
            ErrorView,
        >(b.sessions + "/"@ + id + ".jsonl"@),
{
    assert(b.sessions + "/"@ + (id + ".jsonl"@) =~= b.sessions + "/"@ + id + ".jsonl"@);
}

/// The plan of an operation names the files of its sessions: what is there for a source, what
/// is new for a target, and where it is cut.
pub proof fn the_plan_of_an_operation(
    b: BridgeView,
    c: CommandContext,
    operation: SessionOperation,
    source: SessionFacts,
    target: SessionFacts,
)
    ensures
        context_error(b, c) is Some ==> plan_of(b, c, operation, source, target) is Err,
        plan_of(b, c, operation, source, target) matches Ok(plan) ==> match operation {
            SessionOperation::Create { session_id } => plan matches PlanView::Create { path }
                && session_path_of(b, session_id@, true, source) == Ok::<Seq<char>, ErrorView>(
                path,
            ),
            SessionOperation::Resume { session_id } => plan matches PlanView::Resume { path }
                && session_path_of(b, session_id@, false, source) == Ok::<Seq<char>, ErrorView>(
                path,
            ),
            SessionOperation::Fork { source_id, target_id, boundary } => plan matches (
            PlanView::Fork { source: from, target: to, boundary: at }) && session_path_of(
                b,
                source_id@,
                false,
                source,
            ) == Ok::<Seq<char>, ErrorView>(from) && session_path_of(b, target_id@, true, target)
                == Ok::<Seq<char>, ErrorView>(to) && at == boundary,
            SessionOperation::Revert { source_id, target_id, turn_id } => plan matches (
            PlanView::Revert { source: from, target: to, turn_id: at }) && session_path_of(
                b,
                source_id@,
                false,
                source,
            ) == Ok::<Seq<char>, ErrorView>(from) && session_path_of(b, target_id@, true, target)
                == Ok::<Seq<char>, ErrorView>(to) && at == turn_id,
        },
{
}

/// The events that a client has not seen yet come in their order, and as many as it asked for
/// where there are so many.
pub proof fn later_events_are_shown(
    records: Seq<SequencedEvent>,
    record: SequencedEvent,
    last_seq: u64,
    limit: nat,
    i: int,
)
    ensures
        later(Seq::empty(), last_seq, limit).len() == 0,
        later(records, last_seq, limit).len() <= limit,
        0 <= i < later(records, last_seq, limit).len() ==> later(records, last_seq, limit)[i].seq
            > last_seq && records.contains(later(records, last_seq, limit)[i]),
        record.seq > last_seq && later(records, last_seq, limit).len() < limit ==> later(
            records.push(record),
            last_seq,
            limit,
        ) == later(records, last_seq, limit).push(record),
        record.seq <= last_seq || later(records, last_seq, limit).len() == limit ==> later(
            records.push(record),
            last_seq,
            limit,
        ) == later(records, last_seq, limit),
    decreases records.len(),
{
    assert(records.push(record).drop_last() =~= records);
    if records.len() > 0 {
        let head = records.drop_last();
        later_events_are_shown(head, record, last_seq, limit, i);
        let shown = later(records, last_seq, limit);
        if 0 <= i < shown.len() {
            if i < later(head, last_seq, limit).len() {
                let k = choose|k: int| 0 <= k < head.len() && head[k] == shown[i];
                assert(records[k] == shown[i]);
            } else {
                assert(records[records.len() - 1] == shown[i]);
            }
        }
    }
}

/// A directory is where it was found, and must be one.
pub proof fn a_directory_is_where_it_was_found(facts: DirectoryFacts, label: Seq<char>)
    ensures
        directory_of(facts, label) is Ok <==> facts.canonical is Ok && facts.is_dir,
        directory_of(facts, label) is Ok ==> directory_of(facts, label)->Ok_0
            == facts.canonical->Ok_0@,
        facts.canonical is Ok && !facts.is_dir ==> directory_of(facts, label)->Err_0.code
            == ErrorCode::ToolArgsInvalid,
        facts.canonical is Err ==> directory_of(facts, label)->Err_0.code == ErrorCode::Internal,
{
}

/// Which names and inputs are taken, and when a turn may start.
pub proof fn which_inputs_are_taken(
    value: Seq<char>,
    label: Seq<char>,
    b: BridgeView,
    c: CommandContext,
    session_id: Seq<char>,
    workspace: Result<String, String>,
    session: SessionFacts,
)
    ensures
        identifier_error(value, label) is None <==> byte_len(value) <= 128 && value.len() > 0
            && forall|i: int|
            0 <= i < value.len() ==> ('a' <= #[trigger] value[i] <= 'z' || 'A' <= value[i] <= 'Z'
                || '0' <= value[i] <= '9' || value[i] == '-' || value[i] == '_'),
        input_error(value, label) is None <==> !blank(value) && byte_len(value) <= 1048576,
        start_error(b, c, session_id, workspace, value, session) is None <==> {
            &&& context_error(b, c) is None
            &&& b.hosted
            &&& workspace is Ok && lies_under(workspace->Ok_0@, b.workspace)
            &&& !blank(value) && byte_len(value) <= 1048576
            &&& session_path_of(b, session_id, false, session) is Ok
        },
        identifier_error(value, label) is Some ==> identifier_error(value, label)->0.code
            == ErrorCode::ToolArgsInvalid,
{
    if is_session_id(value) {
        assert forall|i: int| 0 <= i < value.len() implies ('a' <= #[trigger] value[i] <= 'z' || 'A'
            <= value[i] <= 'Z' || '0' <= value[i] <= '9' || value[i] == '-' || value[i] == '_') by {
            assert(is_alnum(value[i]) || value[i] == '-' || value[i] == '_');
        }
    }
}

/// Two configurations are the same where they have the same provider, model, hosts, workspace
/// and root for plugins.
pub proof fn when_configurations_are_the_same(a: ValidatedHostConfig, b: ValidatedHostConfig)
    ensures
        same_config(a, a),
        same_config(a, b) ==> a.base_url@ == b.base_url@ && a.model@ == b.model@ && views(
            a.fetch_allow@,
        ) == views(b.fetch_allow@) && parts(a.workspace@) == parts(b.workspace@),
        a.base_url@ != b.base_url@ || a.model@ != b.model@ || views(a.fetch_allow@) != views(
            b.fetch_allow@,
        ) || parts(a.workspace@) != parts(b.workspace@) ==> !same_config(a, b),
        a.plugin_root is Some && b.plugin_root is None ==> !same_config(a, b),
{
}

/// What is answered where the bridge moves on: the error of the host that did not shut down,
/// or a receipt for the next generation.
pub proof fn what_moving_on_answers(
    r: Result<CommandReceipt, ErrorEnvelope>,
    shutdown: Result<(), String>,
    before: BridgeView,
    operation: Seq<char>,
    turn: Option<u64>,
)
    requires
        is_advance_answer(r, shutdown, before, operation, turn),
    ensures
        shutdown is Err ==> r is Err && r->Err_0@.code == ErrorCode::Internal && r->Err_0@.message
            == shutdown->Err_0@,
        shutdown is Ok && before.generation < u64::MAX && before.epoch < u64::MAX ==> {
            &&& r is Ok
            &&& r->Ok_0.operation@ == operation
            &&& r->Ok_0.generation == before.generation + 1
            &&& r->Ok_0.permission_epoch == before.epoch + 1
            &&& r->Ok_0.turn_id == turn
        },
        shutdown is Ok && (before.generation == u64::MAX || before.epoch == u64::MAX) ==> r is Err,
{
}

/// A host that is shut down was cancelled first; without one nothing is to be shut down.
pub proof fn a_host_is_cancelled_first<H: ManagedHost>(h: H, shutdown: Result<(), String>)
    ensures
        could_shut_down(None::<H>, shutdown) <==> shutdown is Ok,
        could_shut_down(Some(h), shutdown) ==> call_ensures(H::cancel, (&h,), ()) && call_ensures(
            H::shutdown,
            (&h,),
            shutdown,
        ),
{
}

/// What is idle has no turn and no approval, and what is not hosted has no configuration; the
/// rest stays.
pub proof fn what_is_idle(b: BridgeView, done: bool)
    ensures
        idle(b).active is None && idle(b).pending is None,
        idle(b).generation == b.generation && idle(b).epoch == b.epoch && idle(b).closed
            == b.closed && idle(b).hosted == b.hosted && idle(b).next_turn == b.next_turn,
        !unhosted(b).hosted && unhosted(b).config is None,
        unhosted(b).active == b.active && unhosted(b).pending == b.pending && unhosted(b).generation
            == b.generation && unhosted(b).epoch == b.epoch && unhosted(b).closed == b.closed,
        done ==> settled(b, done).active is None,
        !done ==> settled(b, done) == b,
{
}

/// When an operation on sessions is planned: where the command is taken and its files are as it
/// needs them.
pub proof fn when_an_operation_is_planned(
    b: BridgeView,
    c: CommandContext,
    operation: SessionOperation,
    source: SessionFacts,
    target: SessionFacts,
)
    ensures
        plan_of(b, c, operation, source, target) is Ok <==> context_error(b, c) is None
            && match operation {
            SessionOperation::Create { session_id } => session_path_of(
                b,
                session_id@,
                true,
                source,
            ) is Ok,
            SessionOperation::Resume { session_id } => session_path_of(
                b,
                session_id@,
                false,
                source,
            ) is Ok,
            SessionOperation::Fork { source_id, target_id, .. } => session_path_of(
                b,
                source_id@,
                false,
                source,
            ) is Ok && session_path_of(b, target_id@, true, target) is Ok,
            SessionOperation::Revert { source_id, target_id, .. } => session_path_of(
                b,
                source_id@,
                false,
                source,
            ) is Ok && session_path_of(b, target_id@, true, target) is Ok,
        },
{
}

} // verus!
