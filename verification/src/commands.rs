//! The commands of the desktop client: what they check before they reach the bridge,
//! and what the client gets to see.
use vstd::prelude::*;
use crate::desktop_bridge::{
    configuration_error, context_error, install_error, installed_error, is_configuration_change,
    is_installation, is_start, join_path, joined, CommandContext, CommandReceipt, DesktopBridge,
    HostStarter, ManagedHost, SessionFacts, SessionOperation,
};
use crate::host::{path_error, provider_error, HostConfig, ValidatedHostConfig};
use crate::protocol::{code_name, copy_texts, error, ErrorCode, ErrorEnvelope, ErrorView};
use crate::scan::{contains_white, has_white};
use crate::secret_store::{SecretStore, SecretStoreError};
use crate::settings::{
    loaded_as, saved_as, settings_error, validated_as, ProviderSettings, SettingsFile,
    SettingsStore,
};
use crate::text::{blank, chars_of, concat3, is_blank, is_white, text_between, trim, trimmed, views};
use crate::url::url_of;

verus! {

broadcast use vstd::string::group_string_axioms;

/// The number of frames that a client gets where it names none.
pub const DEFAULT_FRAME_LIMIT: usize = 500;

// ---------------------------------------------------------------------------
// Errors
// ---------------------------------------------------------------------------

/// An error as the client sees it: two texts of the library, and nothing of what
/// went wrong.
#[derive(Debug, Clone, Copy, PartialEq, Eq)]
pub struct CommandErrorDto {
    pub code: &'static str,
    pub message: &'static str,
}

/// The text for an error code.
pub open spec fn safe_text(code: ErrorCode) -> Seq<char> {
    match code {
        ErrorCode::ToolArgsInvalid => "请求参数无效"@,
        ErrorCode::SandboxDenied => "请求超出安全边界"@,
        ErrorCode::ApprovalRejected => "审批不存在、已拒绝或已过期"@,
        ErrorCode::SessionNotFound => "会话不存在"@,
        ErrorCode::CursorInvalid => "客户端代际已过期，请刷新后重试"@,
        ErrorCode::ToolTimeout => "操作已取消或超时"@,
        ErrorCode::ContextWindowExceeded => "上下文窗口不足"@,
        ErrorCode::ModelStreamBroken => "模型流已中断"@,
        ErrorCode::SubagentCancelled => "子任务已取消"@,
        ErrorCode::TeamRevisionConflict => "团队状态版本冲突"@,
        ErrorCode::TeamDependencyCycle => "团队任务依赖成环"@,
        ErrorCode::ToolLoopDetected => "工具循环已被阻止"@,
        ErrorCode::FileRevisionConflict => "文件版本已变化"@,
        ErrorCode::Internal => "宿主暂时不可用"@,
    }
}

/// Whether an error is what the client sees of a code. It depends on the code alone.
pub open spec fn is_safe_error(e: CommandErrorDto, code: ErrorCode) -> bool {
    e.code@ == crate::protocol::code_name(code) && e.message@ == safe_text(code)
}

pub fn command_error(code: ErrorCode) -> (r: CommandErrorDto)
    ensures
        is_safe_error(r, code),
{
    let message = match code {
        ErrorCode::ToolArgsInvalid => "请求参数无效",
        ErrorCode::SandboxDenied => "请求超出安全边界",
        ErrorCode::ApprovalRejected => "审批不存在、已拒绝或已过期",
        ErrorCode::SessionNotFound => "会话不存在",
        ErrorCode::CursorInvalid => "客户端代际已过期，请刷新后重试",
        ErrorCode::ToolTimeout => "操作已取消或超时",
        ErrorCode::ContextWindowExceeded => "上下文窗口不足",
        ErrorCode::ModelStreamBroken => "模型流已中断",
        ErrorCode::SubagentCancelled => "子任务已取消",
        ErrorCode::TeamRevisionConflict => "团队状态版本冲突",
        ErrorCode::TeamDependencyCycle => "团队任务依赖成环",
        ErrorCode::ToolLoopDetected => "工具循环已被阻止",
        ErrorCode::FileRevisionConflict => "文件版本已变化",
        ErrorCode::Internal => "宿主暂时不可用",
    };
    CommandErrorDto { code: code.wire_name(), message }
}

impl CommandErrorDto {
    /// What the client sees of an error.
    pub fn from_error(error: &ErrorEnvelope) -> (r: CommandErrorDto)
        ensures
            is_safe_error(r, error.code),
    {
        command_error(error.code)
    }
}

/// The code of a failure of the credential store.
pub open spec fn secret_code(e: SecretStoreError) -> ErrorCode {
    match e {
        SecretStoreError::Missing => ErrorCode::ApprovalRejected,
        SecretStoreError::Rejected => ErrorCode::ToolArgsInvalid,
        SecretStoreError::Unavailable => ErrorCode::Internal,
    }
}

pub fn secret_error(error: SecretStoreError) -> (r: CommandErrorDto)
    ensures
        is_safe_error(r, secret_code(error)),
{
    match error {
        SecretStoreError::Missing => command_error(ErrorCode::ApprovalRejected),
        SecretStoreError::Rejected => command_error(ErrorCode::ToolArgsInvalid),
        SecretStoreError::Unavailable => command_error(ErrorCode::Internal),
    }
}

/// What is shown of an error is the same for every error with the same code: no
/// message, path or key gets to the client.
pub proof fn errors_show_their_code_only(
    a: CommandErrorDto,
    b: CommandErrorDto,
    code: ErrorCode,
)
    requires
        is_safe_error(a, code),
        is_safe_error(b, code),
    ensures
        a.code@ == b.code@,
        a.message@ == b.message@,
{
}

// ---------------------------------------------------------------------------
// The key
// ---------------------------------------------------------------------------

/// Why a key is refused: it is blank, or has space in it.
pub open spec fn key_error(key: Seq<char>) -> Option<ErrorView> {
    if blank(key) {
        Some(error(ErrorCode::ToolArgsInvalid, "API key is blank"@))
    } else if has_white(trimmed(key)) {
        Some(
            error(
                ErrorCode::ToolArgsInvalid,
                "API key contains internal whitespace; please re-paste it without line breaks"@,
            ),
        )
    } else {
        None
    }
}

/// The key without the space around it.
pub fn clean_api_key(key: &str) -> (r: Result<String, ErrorEnvelope>)
    ensures
        match r {
            Ok(clean) => key_error(key@) is None && clean@ == trimmed(key@),
            Err(e) => key_error(key@) == Some(e@),
        },
{
    if is_blank(key) {
        return Err(ErrorEnvelope::of(ErrorCode::ToolArgsInvalid, "API key is blank"));
    }
    let clean = trim(key);
    if contains_white(&clean) {
        return Err(
            ErrorEnvelope::of(
                ErrorCode::ToolArgsInvalid,
                "API key contains internal whitespace; please re-paste it without line breaks",
            ),
        );
    }
    Ok(clean)
}

/// `n` stars.
pub open spec fn stars(n: nat) -> Seq<char> {
    Seq::new(n, |i: int| '*')
}

/// What is shown of a key: four characters at each end, and of a short one none.
pub open spec fn mask_of(key: Seq<char>) -> Seq<char> {
    if key.len() <= 8 {
        stars(key.len())
    } else {
        key.subrange(0, 4) + "…"@ + key.subrange(key.len() - 4, key.len() as int)
    }
}

pub fn key_mask(key: &str) -> (r: String)
    ensures
        r@ == mask_of(key@),
{
    let chars = chars_of(key);
    if chars.len() <= 8 {
        let mut mask = String::new();
        let mut i: usize = 0;
        assert(mask@ =~= stars(0));
        while i < chars.len()
            invariant
                i <= chars@.len(),
                mask@ == stars(i as nat),
            decreases chars@.len() - i,
        {
            mask.push('*');
            i = i + 1;
            assert(mask@ =~= stars(i as nat));
        }
        return mask;
    }
    let head = text_between(&chars, 0, 4);
    let tail = text_between(&chars, chars.len() - 4, chars.len());
    concat3(&head, "…", &tail)
}

/// The mask shows at most eight characters of a key, and of a short key nothing.
pub proof fn masks_hide_keys(key: Seq<char>, i: int)
    requires
        0 <= i < mask_of(key).len(),
    ensures
        key.len() <= 8 ==> mask_of(key)[i] == '*',
        key.len() > 8 ==> mask_of(key).len() == 8 + "…"@.len(),
{
}

/// What the client is told of the key: whether there is one, and whether it could be
/// looked for.
pub fn key_status(found: Result<bool, SecretStoreError>) -> (r: (bool, bool))
    ensures
        r == shown_status(found),
{
    match found {
        Ok(present) => (present, true),
        Err(SecretStoreError::Unavailable) => (false, false),
        Err(_) => (false, true),
    }
}

// ---------------------------------------------------------------------------
// Settings and requests
// ---------------------------------------------------------------------------

/// The configuration of a host for settings.
pub open spec fn is_host_config(c: HostConfig, workspace: Seq<char>, s: ProviderSettings) -> bool {
    &&& c.base_url@ == s.base_url@
    &&& c.model@ == s.model@
    &&& c.fetch_allow@ == s.fetch_allow@
    &&& c.workspace@ == workspace
    &&& c.plugin_root is None
}

/// The configuration of a host for a workspace and settings.
pub fn host_config(workspace: &str, settings: &ProviderSettings) -> (r: HostConfig)
    ensures
        is_host_config(r, workspace@, *settings),
{
    HostConfig {
        base_url: settings.base_url.clone(),
        model: settings.model.clone(),
        fetch_allow: copy_texts(&settings.fetch_allow),
        workspace: workspace.to_owned(),
        plugin_root: None,
    }
}

/// Settings with what was typed in along with a key, and what is shown of the key.
pub fn with_form(form: ProviderSettings, key: &str) -> (r: ProviderSettings)
    ensures
        is_form_with(form, key@, r),
{
    ProviderSettings {
        base_url: form.base_url,
        model: form.model,
        fetch_allow: form.fetch_allow,
        compact_mode: form.compact_mode,
        api_key_mask: Some(key_mask(key)),
    }
}

/// A request for an operation on sessions, with the facts that it was given under.
#[derive(Debug)]
pub enum SessionOperationDto {
    Create { context: CommandContext, session_id: String },
    Resume { context: CommandContext, session_id: String },
    Fork {
        context: CommandContext,
        source_id: String,
        target_id: String,
        boundary: Option<usize>,
    },
    Revert { context: CommandContext, source_id: String, target_id: String, turn_id: u64 },
}

pub fn session_request(request: SessionOperationDto) -> (r: (CommandContext, SessionOperation))
    ensures
        match request {
            SessionOperationDto::Create { context, session_id } => r == (
                context,
                SessionOperation::Create { session_id },
            ),
            SessionOperationDto::Resume { context, session_id } => r == (
                context,
                SessionOperation::Resume { session_id },
            ),
            SessionOperationDto::Fork { context, source_id, target_id, boundary } => r == (
                context,
                SessionOperation::Fork { source_id, target_id, boundary },
            ),
            SessionOperationDto::Revert { context, source_id, target_id, turn_id } => r == (
                context,
                SessionOperation::Revert { source_id, target_id, turn_id },
            ),
        },
{
    match request {
        SessionOperationDto::Create { context, session_id } => (
            context,
            SessionOperation::Create { session_id },
        ),
        SessionOperationDto::Resume { context, session_id } => (
            context,
            SessionOperation::Resume { session_id },
        ),
        SessionOperationDto::Fork { context, source_id, target_id, boundary } => (
            context,
            SessionOperation::Fork { source_id, target_id, boundary },
        ),
        SessionOperationDto::Revert { context, source_id, target_id, turn_id } => (
            context,
            SessionOperation::Revert { source_id, target_id, turn_id },
        ),
    }
}

/// The directory of the client: the one that is set, unless it is blank, or one in
/// the home directory. Without a home directory there is none.
pub open spec fn workspace_of(
    chosen: Option<Seq<char>>,
    user_profile: Option<Seq<char>>,
    home: Option<Seq<char>>,
) -> Option<Seq<char>> {
    if chosen is Some && !blank(chosen->0) {
        chosen
    } else {
        let found = if user_profile is Some {
            user_profile
        } else {
            home
        };
        match found {
            Some(dir) => Some(joined(dir, ".ideal-harness"@)),
            None => None,
        }
    }
}

pub fn resolve_workspace(chosen: Option<&str>, user_profile: Option<&str>, home: Option<&str>) -> (r:
    Option<String>)
    ensures
        ({
            let expected = workspace_of(
                match chosen {
                    Some(t) => Some(t@),
                    None => None,
                },
                match user_profile {
                    Some(t) => Some(t@),
                    None => None,
                },
                match home {
                    Some(t) => Some(t@),
                    None => None,
                },
            );
            match r {
                Some(dir) => expected == Some(dir@),
                None => expected is None,
            }
        }),
{
    match chosen {
        Some(dir) => {
            if !is_blank(dir) {
                return Some(dir.to_owned());
            }
        },
        None => {},
    }
    let found = match user_profile {
        Some(dir) => Some(dir),
        None => home,
    };
    match found {
        Some(dir) => Some(join_path(dir, ".ideal-harness")),
        None => None,
    }
}

/// Why a probe of the provider failed.
#[derive(Debug, PartialEq, Eq)]
pub enum ProviderProbeFailure {
    Authentication { provider_message: Option<String> },
    Network,
    Timeout,
    Rejected { provider_message: Option<String> },
}

/// What the client is told of a probe.
#[derive(Debug, PartialEq, Eq)]
pub enum ProviderProbeDto {
    Connected,
    AuthenticationFailed { provider_message: Option<String> },
    NetworkUnavailable,
    TimedOut,
    Rejected { provider_message: Option<String> },
}

/// What the client is told of a test.
pub open spec fn shown_probe(result: Result<(), ProviderProbeFailure>) -> ProviderProbeDto {
    match result {
        Ok(()) => ProviderProbeDto::Connected,
        Err(ProviderProbeFailure::Authentication { provider_message }) =>
            ProviderProbeDto::AuthenticationFailed { provider_message },
        Err(ProviderProbeFailure::Network) => ProviderProbeDto::NetworkUnavailable,
        Err(ProviderProbeFailure::Timeout) => ProviderProbeDto::TimedOut,
        Err(ProviderProbeFailure::Rejected { provider_message }) => ProviderProbeDto::Rejected {
            provider_message,
        },
    }
}

pub fn probe_result(result: Result<(), ProviderProbeFailure>) -> (r: ProviderProbeDto)
    ensures
        r == shown_probe(result),
{
    match result {
        Ok(()) => ProviderProbeDto::Connected,
        Err(ProviderProbeFailure::Authentication { provider_message }) =>
            ProviderProbeDto::AuthenticationFailed { provider_message },
        Err(ProviderProbeFailure::Network) => ProviderProbeDto::NetworkUnavailable,
        Err(ProviderProbeFailure::Timeout) => ProviderProbeDto::TimedOut,
        Err(ProviderProbeFailure::Rejected { provider_message }) => ProviderProbeDto::Rejected {
            provider_message,
        },
    }
}

// ---------------------------------------------------------------------------
// Commands
// ---------------------------------------------------------------------------

/// The answer to a command is the receipt, or what the client sees of the error.
pub open spec fn answers(
    r: Result<CommandReceipt, CommandErrorDto>,
    found: Result<CommandReceipt, ErrorEnvelope>,
) -> bool {
    match found {
        Ok(receipt) => r == Ok::<CommandReceipt, CommandErrorDto>(receipt),
        Err(e) => r is Err && is_safe_error(r->Err_0, e.code),
    }
}

/// A step passed, or was refused with a code.
pub open spec fn refused<T>(r: Result<T, CommandErrorDto>, code: Option<ErrorCode>) -> bool {
    match code {
        None => r is Ok,
        Some(code) => r is Err && is_safe_error(r->Err_0, code),
    }
}

fn answer(found: Result<CommandReceipt, ErrorEnvelope>) -> (r: Result<
    CommandReceipt,
    CommandErrorDto,
>)
    ensures
        answers(r, found),
{
    match found {
        Ok(receipt) => Ok(receipt),
        Err(e) => Err(CommandErrorDto::from_error(&e)),
    }
}

/// The settings, and what is known of the key.
#[derive(Debug, PartialEq, Eq)]
pub struct ProviderSettingsDto {
    pub settings: ProviderSettings,
    pub has_api_key: bool,
    pub secure_storage_available: bool,
}

/// What the client is told of a look at the key.
pub open spec fn shown_status(found: Result<bool, SecretStoreError>) -> (bool, bool) {
    match found {
        Ok(present) => (present, true),
        Err(SecretStoreError::Unavailable) => (false, false),
        Err(_) => (false, true),
    }
}

/// Gives the settings. Of the key it says only whether there is one.
pub fn get_provider_settings<K: SecretStore, F: SettingsFile>(
    secrets: &K,
    store: &SettingsStore<F>,
) -> (r: Result<ProviderSettingsDto, CommandErrorDto>)
    ensures
        exists|loaded: Result<ProviderSettings, ErrorEnvelope>|
            #[trigger] loaded_as(&store.file, loaded) && match loaded {
                Err(e) => r is Err && is_safe_error(r->Err_0, e.code),
                Ok(settings) => {
                    &&& r is Ok
                    &&& r->Ok_0.settings == settings
                    &&& exists|found: Result<bool, SecretStoreError>|
                        #[trigger] call_ensures(K::has_api_key, (secrets,), found)
                            && shown_status(found) == (
                            r->Ok_0.has_api_key,
                            r->Ok_0.secure_storage_available,
                        )
                },
            },
{
    let loaded = store.load();
    let ghost seen = loaded;
    assert(loaded_as(&store.file, seen));
    let settings = match loaded {
        Ok(settings) => settings,
        Err(e) => {
            return Err(CommandErrorDto::from_error(&e));
        },
    };
    let found = secrets.has_api_key();
    assert(call_ensures(K::has_api_key, (secrets,), found));
    let (has_api_key, secure_storage_available) = key_status(found);
    Ok(ProviderSettingsDto { settings, has_api_key, secure_storage_available })
}

/// Why no host can run with settings.
pub open spec fn form_error(
    workspace: Seq<char>,
    s: ProviderSettings,
    canonical: Result<String, String>,
) -> Option<Seq<char>> {
    if canonical is Err {
        Some(path_error("workspace"@, workspace, canonical->Err_0@))
    } else if provider_error(url_of(s.base_url@)) is Some {
        provider_error(url_of(s.base_url@))
    } else if blank(s.model@) {
        Some("model must not be blank"@)
    } else {
        None
    }
}

/// The checked configuration of a host for settings.
pub open spec fn is_config_for(
    workspace: Seq<char>,
    s: ProviderSettings,
    canonical: Result<String, String>,
    r: Result<ValidatedHostConfig, String>,
) -> bool {
    match form_error(workspace, s, canonical) {
        Some(e) => r is Err && r->Err_0@ == e,
        None => {
            &&& r is Ok
            &&& r->Ok_0.base_url@ == s.base_url@
            &&& r->Ok_0.model@ == s.model@
            &&& r->Ok_0.fetch_allow@ == s.fetch_allow@
            &&& r->Ok_0.workspace@ == canonical->Ok_0@
            &&& r->Ok_0.plugin_root is None
        },
    }
}

fn copy_found(found: &Result<String, String>) -> (r: Result<String, String>)
    ensures
        match *found {
            Ok(text) => r is Ok && r->Ok_0@ == text@,
            Err(e) => r is Err && r->Err_0@ == e@,
        },
{
    match found {
        Ok(text) => Ok(text.clone()),
        Err(e) => Err(e.clone()),
    }
}

fn checked_config(
    workspace: &str,
    settings: &ProviderSettings,
    canonical: &Result<String, String>,
) -> (r: Result<ValidatedHostConfig, String>)
    ensures
        is_config_for(workspace@, *settings, *canonical, r),
{
    host_config(workspace, settings).validate(copy_found(canonical), Err(String::new()))
}

/// What saving settings that passed every check does: once they are stored, the
/// security facts move on.
pub open spec fn is_saving<H: ManagedHost, F: SettingsFile>(
    before: DesktopBridge<H>,
    after: DesktopBridge<H>,
    file: &F,
    context: CommandContext,
    settings: ProviderSettings,
    r: Result<CommandReceipt, CommandErrorDto>,
) -> bool {
    exists|checked: ProviderSettings, saved: Result<ProviderSettings, ErrorEnvelope>|
        {
            &&& #[trigger] saved_as(file, checked, saved)
            &&& validated_as(settings, Ok(checked))
            &&& match saved {
                Err(e) => r is Err && is_safe_error(r->Err_0, e.code) && after == before,
                Ok(_) => exists|changed: Result<CommandReceipt, ErrorEnvelope>|
                    #[trigger] is_configuration_change(before, after, context, changed) && answers(
                        r,
                        changed,
                    ),
            }
        }
}

/// Saves settings. They are checked as a whole before anything changes, and only
/// once they are saved do the security facts move on. `canonical` is the canonical
/// path of the workspace.
pub fn save_provider_settings<H: ManagedHost, F: SettingsFile>(
    bridge: &mut DesktopBridge<H>,
    store: &SettingsStore<F>,
    context: CommandContext,
    settings: ProviderSettings,
    workspace: &str,
    canonical: &Result<String, String>,
) -> (r: Result<CommandReceipt, CommandErrorDto>)
    ensures
        match configuration_error(old(bridge)@, context) {
            Some(e) => r is Err && is_safe_error(r->Err_0, e.code) && *final(bridge)
                == *old(bridge),
            None => if form_error(workspace@, settings, *canonical) is Some {
                r is Err && is_safe_error(r->Err_0, ErrorCode::ToolArgsInvalid) && *final(bridge)
                    == *old(bridge)
            } else {
                match settings_error(settings.model@, views(settings.fetch_allow@)) {
                    Some(e) => r is Err && is_safe_error(r->Err_0, e.code) && *final(bridge)
                        == *old(bridge),
                    None => is_saving(
                        *old(bridge),
                        *final(bridge),
                        &store.file,
                        context,
                        settings,
                        r,
                    ),
                }
            },
        },
{
    match bridge.validate_configuration_change(context) {
        Ok(()) => {},
        Err(e) => {
            return Err(CommandErrorDto::from_error(&e));
        },
    }
    match checked_config(workspace, &settings, canonical) {
        Ok(_) => {},
        Err(_) => {
            return Err(command_error(ErrorCode::ToolArgsInvalid));
        },
    }
    let checked = match settings.validate() {
        Ok(checked) => checked,
        Err(e) => {
            return Err(CommandErrorDto::from_error(&e));
        },
    };
    let ghost stored = checked;
    assert(validated_as(settings, Ok(stored)));
    let saved = store.save(checked);
    let ghost seen = saved;
    assert(saved_as(&store.file, stored, seen));
    match saved {
        Ok(_) => {},
        Err(e) => {
            return Err(CommandErrorDto::from_error(&e));
        },
    }
    let changed = bridge.configuration_changed(context);
    let ghost found = changed;
    assert(is_configuration_change(*old(bridge), *bridge, context, found));
    answer(changed)
}

/// What a form with a key leaves to be stored.
pub open spec fn is_form_with(
    form: ProviderSettings,
    key: Seq<char>,
    r: ProviderSettings,
) -> bool {
    &&& r.base_url == form.base_url
    &&& r.model == form.model
    &&& r.fetch_allow == form.fetch_allow
    &&& r.compact_mode == form.compact_mode
    &&& r.api_key_mask is Some && r.api_key_mask->0@ == mask_of(key)
}

/// How the settings that were typed in with a key are stored.
pub open spec fn form_stored<F: SettingsFile>(
    file: &F,
    form: ProviderSettings,
    key: Seq<char>,
    code: Option<ErrorCode>,
) -> bool {
    exists|loaded: Result<ProviderSettings, ErrorEnvelope>|
        #[trigger] loaded_as(file, loaded) && match loaded {
            Err(e) => code == Some(e.code),
            Ok(_) => exists|
                stored: ProviderSettings,
                saved: Result<ProviderSettings, ErrorEnvelope>,
            |
                {
                    &&& #[trigger] saved_as(file, stored, saved)
                    &&& is_form_with(form, key, stored)
                    &&& code == match saved {
                        Err(e) => Some(e.code),
                        Ok(_) => None,
                    }
                },
        }
}

/// How a key is kept: in the store of secrets first, and then what is shown of it
/// with the settings.
pub open spec fn key_kept<K: SecretStore, F: SettingsFile>(
    secrets: &K,
    file: &F,
    form: ProviderSettings,
    key: Seq<char>,
    code: Option<ErrorCode>,
) -> bool {
    exists|text: &str, kept: Result<(), SecretStoreError>|
        {
            &&& #[trigger] call_ensures(K::set_api_key, (secrets, text), kept)
            &&& text@ == key
            &&& match kept {
                Err(e) => code == Some(secret_code(e)),
                Ok(()) => form_stored(file, form, key, code),
            }
        }
}

/// Why a step was refused.
pub open spec fn code_of<T>(r: Result<T, ErrorEnvelope>) -> Option<ErrorCode> {
    match r {
        Ok(_) => None,
        Err(e) => Some(e.code),
    }
}

fn store_form<F: SettingsFile>(store: &SettingsStore<F>, form: ProviderSettings, key: &str) -> (r:
    Result<(), CommandErrorDto>)
    ensures
        exists|code: Option<ErrorCode>|
            #[trigger] form_stored(&store.file, form, key@, code) && refused(r, code),
{
    let loaded = store.load();
    let ghost seen = loaded;
    assert(loaded_as(&store.file, seen));
    match loaded {
        Ok(_) => {},
        Err(e) => {
            assert(form_stored(&store.file, form, key@, Some(e.code)));
            return Err(CommandErrorDto::from_error(&e));
        },
    }
    let stored = with_form(form, key);
    let ghost given = stored;
    let saved = store.save(stored);
    let ghost written = saved;
    assert(saved_as(&store.file, given, written));
    assert(form_stored(&store.file, form, key@, code_of(written)));
    match saved {
        Ok(_) => Ok(()),
        Err(e) => Err(CommandErrorDto::from_error(&e)),
    }
}

fn keep_key<K: SecretStore, F: SettingsFile>(
    secrets: &K,
    store: &SettingsStore<F>,
    form: ProviderSettings,
    key: &str,
) -> (r: Result<(), CommandErrorDto>)
    ensures
        exists|code: Option<ErrorCode>|
            #[trigger] key_kept(secrets, &store.file, form, key@, code) && refused(r, code),
{
    let kept = secrets.set_api_key(key);
    assert(call_ensures(K::set_api_key, (secrets, key), kept));
    match kept {
        Ok(()) => {
            let r = store_form(store, form, key);
            proof {
                let code = choose|code: Option<ErrorCode>|
                    #[trigger] form_stored(&store.file, form, key@, code) && refused(r, code);
                assert(key_kept(secrets, &store.file, form, key@, code));
            }
            r
        },
        Err(e) => {
            assert(key_kept(secrets, &store.file, form, key@, Some(secret_code(e))));
            Err(secret_error(e))
        },
    }
}

/// What a change of the configuration is followed by: nothing where it was refused,
/// and otherwise a step whose refusal is answered in place of the receipt.
pub open spec fn followed(
    r: Result<CommandReceipt, CommandErrorDto>,
    changed: Result<CommandReceipt, ErrorEnvelope>,
    code: Option<ErrorCode>,
) -> bool {
    match changed {
        Err(e) => r is Err && is_safe_error(r->Err_0, e.code),
        Ok(receipt) => match code {
            None => r == Ok::<CommandReceipt, CommandErrorDto>(receipt),
            Some(code) => r is Err && is_safe_error(r->Err_0, code),
        },
    }
}

/// Keeps a key, together with the settings that were typed in with it. A key that is
/// refused changes nothing; otherwise the security facts move on before the key is
/// kept.
pub fn store_api_key<H: ManagedHost, K: SecretStore, F: SettingsFile>(
    bridge: &mut DesktopBridge<H>,
    secrets: &K,
    store: &SettingsStore<F>,
    context: CommandContext,
    form: ProviderSettings,
    api_key: &str,
) -> (r: Result<CommandReceipt, CommandErrorDto>)
    ensures
        match key_error(api_key@) {
            Some(e) => r is Err && is_safe_error(r->Err_0, e.code) && *final(bridge)
                == *old(bridge),
            None => exists|
                changed: Result<CommandReceipt, ErrorEnvelope>,
                code: Option<ErrorCode>,
            |
                {
                    &&& #[trigger] is_configuration_change(
                        *old(bridge),
                        *final(bridge),
                        context,
                        changed,
                    )
                    &&& #[trigger] followed(r, changed, code)
                    &&& changed is Ok ==> key_kept(
                        secrets,
                        &store.file,
                        form,
                        trimmed(api_key@),
                        code,
                    )
                },
        },
{
    let clean = match clean_api_key(api_key) {
        Ok(clean) => clean,
        Err(e) => {
            return Err(CommandErrorDto::from_error(&e));
        },
    };
    let changed = bridge.configuration_changed(context);
    let ghost seen = changed;
    assert(is_configuration_change(*old(bridge), *bridge, context, seen));
    let receipt = match changed {
        Ok(receipt) => receipt,
        Err(e) => {
            let r: Result<CommandReceipt, CommandErrorDto> = Err(CommandErrorDto::from_error(&e));
            assert(followed(r, seen, None));
            return r;
        },
    };
    let kept = keep_key(secrets, store, form, clean.as_str());
    let ghost code = choose|code: Option<ErrorCode>|
        #[trigger] key_kept(secrets, &store.file, form, trimmed(api_key@), code) && refused(
            kept,
            code,
        );
    let r = match kept {
        Ok(()) => Ok(receipt),
        Err(e) => Err(e),
    };
    assert(followed(r, seen, code));
    r
}

/// How what is shown of a key is taken out of the settings.
pub open spec fn mask_dropped<F: SettingsFile>(file: &F, code: Option<ErrorCode>) -> bool {
    exists|loaded: Result<ProviderSettings, ErrorEnvelope>|
        #[trigger] loaded_as(file, loaded) && match loaded {
            Err(e) => code == Some(e.code),
            Ok(current) => exists|
                stored: ProviderSettings,
                saved: Result<ProviderSettings, ErrorEnvelope>,
            |
                {
                    &&& #[trigger] saved_as(file, stored, saved)
                    &&& stored == (ProviderSettings { api_key_mask: None, ..current })
                    &&& code == code_of(saved)
                },
        }
}

/// How a key is deleted. A key that is missing is deleted already.
pub open spec fn key_dropped<K: SecretStore, F: SettingsFile>(
    secrets: &K,
    file: &F,
    code: Option<ErrorCode>,
) -> bool {
    exists|deleted: Result<(), SecretStoreError>|
        #[trigger] call_ensures(K::delete_api_key, (secrets,), deleted) && match deleted {
            Ok(()) => mask_dropped(file, code),
            Err(SecretStoreError::Missing) => mask_dropped(file, code),
            Err(e) => code == Some(secret_code(e)),
        }
}

fn drop_mask<F: SettingsFile>(store: &SettingsStore<F>) -> (r: Result<(), CommandErrorDto>)
    ensures
        exists|code: Option<ErrorCode>|
            #[trigger] mask_dropped(&store.file, code) && refused(r, code),
{
    let loaded = store.load();
    let ghost seen = loaded;
    assert(loaded_as(&store.file, seen));
    let mut current = match loaded {
        Ok(current) => current,
        Err(e) => {
            assert(mask_dropped(&store.file, Some(e.code)));
            return Err(CommandErrorDto::from_error(&e));
        },
    };
    current.api_key_mask = None;
    let ghost given = current;
    let saved = store.save(current);
    let ghost written = saved;
    assert(saved_as(&store.file, given, written));
    assert(mask_dropped(&store.file, code_of(written)));
    match saved {
        Ok(_) => Ok(()),
        Err(e) => Err(CommandErrorDto::from_error(&e)),
    }
}

fn drop_key<K: SecretStore, F: SettingsFile>(secrets: &K, store: &SettingsStore<F>) -> (r: Result<
    (),
    CommandErrorDto,
>)
    ensures
        exists|code: Option<ErrorCode>|
            #[trigger] key_dropped(secrets, &store.file, code) && refused(r, code),
{
    let deleted = secrets.delete_api_key();
    assert(call_ensures(K::delete_api_key, (secrets,), deleted));
    match deleted {
        Ok(()) => {},
        Err(SecretStoreError::Missing) => {},
        Err(e) => {
            assert(key_dropped(secrets, &store.file, Some(secret_code(e))));
            return Err(secret_error(e));
        },
    }
    let r = drop_mask(store);
    proof {
        let code = choose|code: Option<ErrorCode>|
            #[trigger] mask_dropped(&store.file, code) && refused(r, code);
        assert(key_dropped(secrets, &store.file, code));
    }
    r
}

/// Deletes the key and what was shown of it, once the security facts have moved on.
pub fn delete_api_key<H: ManagedHost, K: SecretStore, F: SettingsFile>(
    bridge: &mut DesktopBridge<H>,
    secrets: &K,
    store: &SettingsStore<F>,
    context: CommandContext,
) -> (r: Result<CommandReceipt, CommandErrorDto>)
    ensures
        exists|changed: Result<CommandReceipt, ErrorEnvelope>, code: Option<ErrorCode>|
            {
                &&& #[trigger] is_configuration_change(
                    *old(bridge),
                    *final(bridge),
                    context,
                    changed,
                )
                &&& #[trigger] followed(r, changed, code)
                &&& changed is Ok ==> key_dropped(secrets, &store.file, code)
            },
{
    let changed = bridge.configuration_changed(context);
    let ghost seen = changed;
    assert(is_configuration_change(*old(bridge), *bridge, context, seen));
    let receipt = match changed {
        Ok(receipt) => receipt,
        Err(e) => {
            let r: Result<CommandReceipt, CommandErrorDto> = Err(CommandErrorDto::from_error(&e));
            assert(followed(r, seen, None));
            return r;
        },
    };
    let dropped = drop_key(secrets, store);
    let ghost code = choose|code: Option<ErrorCode>|
        #[trigger] key_dropped(secrets, &store.file, code) && refused(dropped, code);
    let r = match dropped {
        Ok(()) => Ok(receipt),
        Err(e) => Err(e),
    };
    assert(followed(r, seen, code));
    r
}

/// How the bridge gets a host for a turn: one is started with the stored key, or the
/// one that is installed is held against the configuration.
pub open spec fn host_ready<H: ManagedHost, K: SecretStore, S: HostStarter<H>>(
    before: DesktopBridge<H>,
    after: DesktopBridge<H>,
    secrets: &K,
    starter: &S,
    context: CommandContext,
    validated: Result<ValidatedHostConfig, String>,
    canonical: Result<String, String>,
    code: Option<ErrorCode>,
) -> bool {
    if before@.hosted {
        &&& after == before
        &&& code == match installed_error(before@, context, validated) {
            Some(e) => Some(e.code),
            None => None,
        }
    } else {
        exists|found: Result<String, SecretStoreError>|
            #[trigger] call_ensures(K::get_api_key, (secrets,), found) && match found {
                Err(e) => code == Some(secret_code(e)) && after == before,
                Ok(key) => match install_error(before@, context, validated, canonical) {
                    Some(e) => code == Some(e.code) && after@ == before@ && after.installed()
                        == before.installed(),
                    None => exists|
                        config: &ValidatedHostConfig,
                        clean: &str,
                        host: Result<H, String>,
                        r: Result<(), ErrorEnvelope>,
                    |
                        {
                            &&& #[trigger] call_ensures(S::start, (starter, config, clean), host)
                            &&& #[trigger] is_installation(before, after, *config, host, r)
                            &&& validated == Ok::<ValidatedHostConfig, String>(*config)
                            &&& clean@ == trimmed(key@)
                            &&& code == code_of(r)
                        },
                },
            }
    }
}

fn ready_host<H: ManagedHost, K: SecretStore, S: HostStarter<H>>(
    bridge: &mut DesktopBridge<H>,
    secrets: &K,
    starter: &S,
    context: CommandContext,
    validated: Result<ValidatedHostConfig, String>,
    canonical: &Result<String, String>,
) -> (r: Result<(), CommandErrorDto>)
    ensures
        exists|code: Option<ErrorCode>|
            #[trigger] host_ready(
                *old(bridge),
                *final(bridge),
                secrets,
                starter,
                context,
                validated,
                *canonical,
                code,
            ) && refused(r, code),
{
    if bridge.has_production_host() {
        let checked = bridge.validate_installed_host(context, &validated);
        assert(host_ready(
            *old(bridge),
            *bridge,
            secrets,
            starter,
            context,
            validated,
            *canonical,
            code_of(checked),
        ));
        return match checked {
            Ok(()) => Ok(()),
            Err(e) => Err(CommandErrorDto::from_error(&e)),
        };
    }
    let found = secrets.get_api_key();
    let ghost seen = found;
    assert(call_ensures(K::get_api_key, (secrets,), seen));
    let key = match found {
        Ok(key) => key,
        Err(e) => {
            assert(host_ready(
                *old(bridge),
                *bridge,
                secrets,
                starter,
                context,
                validated,
                *canonical,
                Some(secret_code(e)),
            ));
            return Err(secret_error(e));
        },
    };
    let clean = trim(&key);
    let installed = bridge.install_production_host_with_api_key(
        context,
        validated,
        canonical,
        clean.as_str(),
        starter,
    );
    assert(host_ready(
        *old(bridge),
        *bridge,
        secrets,
        starter,
        context,
        validated,
        *canonical,
        code_of(installed),
    ));
    match installed {
        Ok(()) => Ok(()),
        Err(e) => Err(CommandErrorDto::from_error(&e)),
    }
}

/// What a turn that the client asks for comes to, once the settings are loaded.
pub open spec fn turn_asked<H: ManagedHost, K: SecretStore, S: HostStarter<H>>(
    before: DesktopBridge<H>,
    after: DesktopBridge<H>,
    secrets: &K,
    starter: &S,
    request: StartRequest,
    validated: Result<ValidatedHostConfig, String>,
    r: Result<CommandReceipt, CommandErrorDto>,
) -> bool {
    exists|mid: DesktopBridge<H>, code: Option<ErrorCode>|
        {
            &&& #[trigger] host_ready(
                before,
                mid,
                secrets,
                starter,
                request.context,
                validated,
                request.canonical,
                code,
            )
            &&& match code {
                Some(code) => r is Err && is_safe_error(r->Err_0, code) && after == mid,
                None => exists|found: Result<CommandReceipt, ErrorEnvelope>|
                    #[trigger] is_start(
                        mid,
                        after,
                        request.context,
                        request.session_id@,
                        request.canonical,
                        request.input,
                        request.session,
                        request.last_turn_done,
                        found,
                    ) && answers(r, found),
            }
        }
}

/// A turn that the client asks for. `workspace` is the path of the workspace and
/// `canonical` its canonical path, `session` what the file system says of the session,
/// and `last_turn_done` whether the turn that was started last has finished.
pub struct StartRequest<'a> {
    pub context: CommandContext,
    pub session_id: &'a str,
    pub input: &'a str,
    pub workspace: &'a str,
    pub canonical: Result<String, String>,
    pub session: SessionFacts,
    pub last_turn_done: bool,
}

/// Starts a turn, on a host for the stored settings.
pub fn start_turn<H: ManagedHost, K: SecretStore, F: SettingsFile, S: HostStarter<H>>(
    bridge: &mut DesktopBridge<H>,
    secrets: &K,
    store: &SettingsStore<F>,
    starter: &S,
    request: &StartRequest,
) -> (r: Result<CommandReceipt, CommandErrorDto>)
    ensures
        exists|loaded: Result<ProviderSettings, ErrorEnvelope>|
            #[trigger] loaded_as(&store.file, loaded) && match loaded {
                Err(e) => r is Err && is_safe_error(r->Err_0, e.code) && *final(bridge)
                    == *old(bridge),
                Ok(settings) => exists|validated: Result<ValidatedHostConfig, String>|
                    {
                        &&& #[trigger] is_config_for(
                            request.workspace@,
                            settings,
                            request.canonical,
                            validated,
                        )
                        &&& turn_asked(
                            *old(bridge),
                            *final(bridge),
                            secrets,
                            starter,
                            *request,
                            validated,
                            r,
                        )
                    },
            },
{
    let loaded = store.load();
    let ghost seen = loaded;
    assert(loaded_as(&store.file, seen));
    let settings = match loaded {
        Ok(settings) => settings,
        Err(e) => {
            return Err(CommandErrorDto::from_error(&e));
        },
    };
    let validated = checked_config(request.workspace, &settings, &request.canonical);
    let ghost config = validated;
    assert(is_config_for(request.workspace@, settings, request.canonical, config));
    let ready = ready_host(
        bridge,
        secrets,
        starter,
        request.context,
        validated,
        &request.canonical,
    );
    let ghost mid = *bridge;
    match ready {
        Ok(()) => {},
        Err(e) => {
            let r: Result<CommandReceipt, CommandErrorDto> = Err(e);
            assert(turn_asked(*old(bridge), mid, secrets, starter, *request, config, r));
            return r;
        },
    }
    let found = bridge.start_turn(
        request.context,
        request.session_id,
        &request.canonical,
        request.input,
        &request.session,
        request.last_turn_done,
    );
    let ghost given = found;
    let r = answer(found);
    assert(is_start(
        mid,
        *bridge,
        request.context,
        request.session_id@,
        request.canonical,
        request.input,
        request.session,
        request.last_turn_done,
        given,
    ));
    assert(turn_asked(*old(bridge), *bridge, secrets, starter, *request, config, r));
    r
}

/// Asks a provider for a sign of life with a configuration and a key. The error says
/// that the question could not be asked.
pub trait ProviderProbe {
    fn probe(&self, config: &HostConfig, api_key: &str) -> Result<
        Result<(), ProviderProbeFailure>,
        String,
    >;
}

/// What a test of the connection comes to, once the settings are loaded.
pub open spec fn is_probe<K: SecretStore, P: ProviderProbe>(
    secrets: &K,
    probe: &P,
    workspace: Seq<char>,
    s: ProviderSettings,
    r: Result<ProviderProbeDto, CommandErrorDto>,
) -> bool {
    exists|found: Result<String, SecretStoreError>|
        #[trigger] call_ensures(K::get_api_key, (secrets,), found) && match found {
            Err(e) => r is Err && is_safe_error(r->Err_0, secret_code(e)),
            Ok(key) => exists|
                config: &HostConfig,
                clean: &str,
                answer: Result<Result<(), ProviderProbeFailure>, String>,
            |
                {
                    &&& #[trigger] call_ensures(P::probe, (probe, config, clean), answer)
                    &&& is_host_config(*config, workspace, s)
                    &&& clean@ == trimmed(key@)
                    &&& match answer {
                        Err(_) => r is Err && is_safe_error(r->Err_0, ErrorCode::Internal),
                        Ok(result) => r == Ok::<ProviderProbeDto, CommandErrorDto>(
                            shown_probe(result),
                        ),
                    }
                },
        }
}

/// Tests the connection to the provider with the stored settings and key.
pub fn test_provider_connection<
    H: ManagedHost,
    K: SecretStore,
    F: SettingsFile,
    P: ProviderProbe,
>(
    bridge: &DesktopBridge<H>,
    secrets: &K,
    store: &SettingsStore<F>,
    probe: &P,
    context: CommandContext,
    workspace: &str,
) -> (r: Result<ProviderProbeDto, CommandErrorDto>)
    ensures
        match context_error(bridge@, context) {
            Some(e) => r is Err && is_safe_error(r->Err_0, e.code),
            None => exists|loaded: Result<ProviderSettings, ErrorEnvelope>|
                #[trigger] loaded_as(&store.file, loaded) && match loaded {
                    Err(e) => r is Err && is_safe_error(r->Err_0, e.code),
                    Ok(settings) => is_probe(secrets, probe, workspace@, settings, r),
                },
        },
{
    match bridge.validate_command_context(context) {
        Ok(()) => {},
        Err(e) => {
            return Err(CommandErrorDto::from_error(&e));
        },
    }
    let loaded = store.load();
    let ghost seen = loaded;
    assert(loaded_as(&store.file, seen));
    let settings = match loaded {
        Ok(settings) => settings,
        Err(e) => {
            return Err(CommandErrorDto::from_error(&e));
        },
    };
    let found = secrets.get_api_key();
    let ghost looked = found;
    assert(call_ensures(K::get_api_key, (secrets,), looked));
    let key = match found {
        Ok(key) => key,
        Err(e) => {
            return Err(secret_error(e));
        },
    };
    let clean = trim(&key);
    let text = clean.as_str();
    let config = host_config(workspace, &settings);
    let shown = &config;
    let answer = probe.probe(shown, text);
    let ghost given = answer;
    assert(call_ensures(P::probe, (probe, shown, text), given));
    match answer {
        Err(_) => Err(command_error(ErrorCode::Internal)),
        Ok(result) => Ok(probe_result(result)),
    }
}

/// What the client is told of each error.
pub proof fn what_the_client_is_told()
    ensures
        safe_text(ErrorCode::ToolArgsInvalid) == "请求参数无效"@,
        safe_text(ErrorCode::SandboxDenied) == "请求超出安全边界"@,
        safe_text(ErrorCode::ApprovalRejected) == "审批不存在、已拒绝或已过期"@,
        safe_text(ErrorCode::SessionNotFound) == "会话不存在"@,
        safe_text(ErrorCode::CursorInvalid) == "客户端代际已过期，请刷新后重试"@,
        safe_text(ErrorCode::ToolTimeout) == "操作已取消或超时"@,
        safe_text(ErrorCode::ContextWindowExceeded) == "上下文窗口不足"@,
        safe_text(ErrorCode::ModelStreamBroken) == "模型流已中断"@,
        safe_text(ErrorCode::SubagentCancelled) == "子任务已取消"@,
        safe_text(ErrorCode::TeamRevisionConflict) == "团队状态版本冲突"@,
        safe_text(ErrorCode::TeamDependencyCycle) == "团队任务依赖成环"@,
        safe_text(ErrorCode::ToolLoopDetected) == "工具循环已被阻止"@,
        safe_text(ErrorCode::FileRevisionConflict) == "文件版本已变化"@,
        safe_text(ErrorCode::Internal) == "宿主暂时不可用"@,
{
}

/// The codes that stand for what the store of keys said.
pub proof fn what_the_store_said()
    ensures
        secret_code(SecretStoreError::Missing) == ErrorCode::ApprovalRejected,
        secret_code(SecretStoreError::Rejected) == ErrorCode::ToolArgsInvalid,
        secret_code(SecretStoreError::Unavailable) == ErrorCode::Internal,
        shown_status(Ok(true)) == (true, true),
        shown_status(Ok(false)) == (false, true),
        shown_status(Err(SecretStoreError::Missing)) == (false, true),
        shown_status(Err(SecretStoreError::Rejected)) == (false, true),
        shown_status(Err(SecretStoreError::Unavailable)) == (false, false),
{
}

/// A key is taken where it has a character that is not white, and no white between its first
/// and its last one.
pub proof fn when_a_key_is_taken(key: Seq<char>)
    ensures
        key_error(key) is None <==> !blank(key) && forall|i: int|
            0 <= i < trimmed(key).len() ==> !is_white(#[trigger] trimmed(key)[i]),
        key_error(key) is Some ==> key_error(key)->0.code == ErrorCode::ToolArgsInvalid,
{
}

/// A long key is shown by its first four characters and its last four.
pub proof fn ends_of_long_keys_show(key: Seq<char>)
    requires
        key.len() > 8,
    ensures
        mask_of(key).subrange(0, 4) == key.subrange(0, 4),
        mask_of(key).subrange(mask_of(key).len() - 4, mask_of(key).len() as int) == key.subrange(
            key.len() - 4,
            key.len() as int,
        ),
        mask_of(key)[4] == '…',
        mask_of(key).len() == 9,
{
    reveal_strlit("…");
    assert(mask_of(key).subrange(0, 4) =~= key.subrange(0, 4));
    assert(mask_of(key).subrange(mask_of(key).len() - 4, mask_of(key).len() as int)
        =~= key.subrange(key.len() - 4, key.len() as int));
}

/// A short key is shown by as many stars as it has characters.
pub proof fn short_keys_are_stars(key: Seq<char>, i: int)
    requires
        key.len() <= 8,
    ensures
        mask_of(key).len() == key.len(),
        0 <= i < key.len() ==> mask_of(key)[i] == '*',
{
}

/// The workspace is the one that was chosen, or otherwise a directory of this project at home.
pub proof fn where_the_workspace_is(
    chosen: Seq<char>,
    profile: Option<Seq<char>>,
    home: Option<Seq<char>>,
    dir: Seq<char>,
)
    requires
        dir.len() > 0 && dir.last() != '/',
    ensures
        !blank(chosen) ==> workspace_of(Some(chosen), profile, home) == Some(chosen),
        blank(chosen) ==> workspace_of(Some(chosen), profile, home) == workspace_of(
            None,
            profile,
            home,
        ),
        workspace_of(None, Some(dir), home) == Some(dir + "/"@ + ".ideal-harness"@),
        workspace_of(None, None, Some(dir)) == Some(dir + "/"@ + ".ideal-harness"@),
        workspace_of(None, None, None) is None,
{
}

/// A test is shown by what it came to, with what the provider said.
pub proof fn what_a_test_came_to(said: Option<String>)
    ensures
        shown_probe(Ok(())) == ProviderProbeDto::Connected,
        shown_probe(Err(ProviderProbeFailure::Authentication { provider_message: said })) == (
        ProviderProbeDto::AuthenticationFailed { provider_message: said }),
        shown_probe(Err(ProviderProbeFailure::Network)) == ProviderProbeDto::NetworkUnavailable,
        shown_probe(Err(ProviderProbeFailure::Timeout)) == ProviderProbeDto::TimedOut,
        shown_probe(Err(ProviderProbeFailure::Rejected { provider_message: said })) == (
        ProviderProbeDto::Rejected { provider_message: said }),
{
}

/// A form is fit where its workspace was found, its provider is fit and its model is not
/// blank; the configuration is then that of the form, in the workspace that was found.
pub proof fn what_a_form_configures(
    workspace: Seq<char>,
    s: ProviderSettings,
    canonical: Result<String, String>,
    r: Result<ValidatedHostConfig, String>,
)
    requires
        is_config_for(workspace, s, canonical, r),
    ensures
        r is Ok <==> canonical is Ok && provider_error(url_of(s.base_url@)) is None && !blank(
            s.model@,
        ),
        r matches Ok(config) ==> config.base_url@ == s.base_url@ && config.model@ == s.model@
            && config.fetch_allow@ == s.fetch_allow@ && config.workspace@ == canonical->Ok_0@
            && config.plugin_root is None,
{
}

/// What is answered to the client: the receipt, or the name of the error's code and what is
/// told of it.
pub proof fn what_is_answered(
    r: Result<CommandReceipt, CommandErrorDto>,
    found: Result<CommandReceipt, ErrorEnvelope>,
)
    requires
        answers(r, found),
    ensures
        r is Ok <==> found is Ok,
        r is Ok ==> r->Ok_0 == found->Ok_0,
        r is Err ==> r->Err_0.code@ == code_name(found->Err_0.code) && r->Err_0.message@
            == safe_text(found->Err_0.code),
{
}

/// What is kept of a form with a key: the form, and the mask of the key in place of it.
pub proof fn a_form_keeps_the_mask(form: ProviderSettings, key: Seq<char>, r: ProviderSettings)
    requires
        is_form_with(form, key, r),
    ensures
        r == (ProviderSettings { api_key_mask: r.api_key_mask, ..form }),
        r.api_key_mask is Some,
        r.api_key_mask->0@ == mask_of(key),
{
}

/// What is stored under a form: the settings of the form with the mask of its key, as far as
/// the file was read before and took them.
pub proof fn what_is_stored_of_a_form<F: SettingsFile>(
    file: &F,
    form: ProviderSettings,
    key: Seq<char>,
)
    requires
        form_stored(file, form, key, None),
    ensures
        exists|stored: ProviderSettings, saved: Result<ProviderSettings, ErrorEnvelope>|
            {
                &&& #[trigger] saved_as(file, stored, saved)
                &&& saved is Ok
                &&& stored.base_url == form.base_url && stored.model == form.model
                &&& stored.fetch_allow == form.fetch_allow
                &&& stored.compact_mode == form.compact_mode
                &&& stored.api_key_mask is Some && stored.api_key_mask->0@ == mask_of(key)
            },
{
    let code: Option<ErrorCode> = None;
    let loaded = choose|loaded: Result<ProviderSettings, ErrorEnvelope>|
        #[trigger] loaded_as(file, loaded) && match loaded {
            Err(e) => code == Some(e.code),
            Ok(_) => exists|
                stored: ProviderSettings,
                saved: Result<ProviderSettings, ErrorEnvelope>,
            |
                {
                    &&& #[trigger] saved_as(file, stored, saved)
                    &&& is_form_with(form, key, stored)
                    &&& code == match saved {
                        Err(e) => Some(e.code),
                        Ok(_) => None,
                    }
                },
        };
    let (stored, saved) = choose|
        stored: ProviderSettings,
        saved: Result<ProviderSettings, ErrorEnvelope>,
    |
        {
            &&& #[trigger] saved_as(file, stored, saved)
            &&& is_form_with(form, key, stored)
            &&& code == match saved {
                Err(e) => Some(e.code),
                Ok(_) => None,
            }
        };
    assert(saved_as(file, stored, saved));
}

/// What is answered of a change: its own error, or that of what followed it, or the receipt.
pub proof fn what_follows_a_change(
    r: Result<CommandReceipt, CommandErrorDto>,
    changed: Result<CommandReceipt, ErrorEnvelope>,
    code: Option<ErrorCode>,
)
    requires
        followed(r, changed, code),
    ensures
        r is Ok <==> changed is Ok && code is None,
        r is Ok ==> r->Ok_0 == changed->Ok_0,
        changed is Err ==> r->Err_0.code@ == code_name(changed->Err_0.code) && r->Err_0.message@
            == safe_text(changed->Err_0.code),
        changed is Ok && code is Some ==> r->Err_0.code@ == code_name(code->0)
            && r->Err_0.message@ == safe_text(code->0),
{
}

/// The configuration of a test is that of the settings, in the workspace.
pub proof fn what_a_test_is_made_with(c: HostConfig, workspace: Seq<char>, s: ProviderSettings)
    requires
        is_host_config(c, workspace, s),
    ensures
        c.base_url@ == s.base_url@,
        c.model@ == s.model@,
        c.fetch_allow@ == s.fetch_allow@,
        c.workspace@ == workspace,
        c.plugin_root is None,
{
}

/// A host that is there already is used as it is or refused, and nothing changes; no key is
/// asked for.
pub proof fn a_host_that_is_there_is_used<H: ManagedHost, K: SecretStore, S: HostStarter<H>>(
    before: DesktopBridge<H>,
    after: DesktopBridge<H>,
    secrets: &K,
    starter: &S,
    context: CommandContext,
    validated: Result<ValidatedHostConfig, String>,
    canonical: Result<String, String>,
    code: Option<ErrorCode>,
)
    requires
        host_ready(before, after, secrets, starter, context, validated, canonical, code),
        before@.hosted,
    ensures
        after == before,
        code is None <==> installed_error(before@, context, validated) is None,
        code is Some ==> code->0 == installed_error(before@, context, validated)->0.code,
{
}

/// A key that is kept is the one that was given; where the store refuses it, its code is
/// answered and no form is stored.
pub proof fn which_key_is_kept<K: SecretStore, F: SettingsFile>(
    secrets: &K,
    file: &F,
    form: ProviderSettings,
    key: Seq<char>,
    code: Option<ErrorCode>,
)
    requires
        key_kept(secrets, file, form, key, code),
    ensures
        exists|text: &str, kept: Result<(), SecretStoreError>|
            {
                &&& #[trigger] call_ensures(K::set_api_key, (secrets, text), kept)
                &&& text@ == key
                &&& kept is Ok ==> form_stored(file, form, key, code)
                &&& kept matches Err(SecretStoreError::Missing) ==> code == Some(
                    ErrorCode::ApprovalRejected,
                )
                &&& kept matches Err(SecretStoreError::Rejected) ==> code == Some(
                    ErrorCode::ToolArgsInvalid,
                )
                &&& kept matches Err(SecretStoreError::Unavailable) ==> code == Some(
                    ErrorCode::Internal,
                )
            },
{
    let (text, kept) = choose|text: &str, kept: Result<(), SecretStoreError>|
        {
            &&& #[trigger] call_ensures(K::set_api_key, (secrets, text), kept)
            &&& text@ == key
            &&& match kept {
                Err(e) => code == Some(secret_code(e)),
                Ok(()) => form_stored(file, form, key, code),
            }
        };
    assert(call_ensures(K::set_api_key, (secrets, text), kept));
}

/// A key that is dropped, or was not there, takes its mask with it; any other error of the
/// store leaves the mask.
pub proof fn a_dropped_key_takes_its_mask<K: SecretStore, F: SettingsFile>(
    secrets: &K,
    file: &F,
    code: Option<ErrorCode>,
)
    requires
        key_dropped(secrets, file, code),
    ensures
        exists|deleted: Result<(), SecretStoreError>|
            {
                &&& #[trigger] call_ensures(K::delete_api_key, (secrets,), deleted)
                &&& deleted is Ok ==> mask_dropped(file, code)
                &&& deleted matches Err(SecretStoreError::Missing) ==> mask_dropped(file, code)
                &&& deleted matches Err(SecretStoreError::Rejected) ==> code == Some(
                    ErrorCode::ToolArgsInvalid,
                )
                &&& deleted matches Err(SecretStoreError::Unavailable) ==> code == Some(
                    ErrorCode::Internal,
                )
            },
{
    let deleted = choose|deleted: Result<(), SecretStoreError>|
        #[trigger] call_ensures(K::delete_api_key, (secrets,), deleted) && match deleted {
            Ok(()) => mask_dropped(file, code),
            Err(SecretStoreError::Missing) => mask_dropped(file, code),
            Err(e) => code == Some(secret_code(e)),
        };
    assert(call_ensures(K::delete_api_key, (secrets,), deleted));
}

/// A test is made with the settings and the key that is kept, without the white around it, and
/// what it came to is shown.
pub proof fn what_a_test_shows<K: SecretStore, P: ProviderProbe>(
    secrets: &K,
    probe: &P,
    workspace: Seq<char>,
    s: ProviderSettings,
    r: Result<ProviderProbeDto, CommandErrorDto>,
)
    requires
        is_probe(secrets, probe, workspace, s, r),
        r is Ok,
    ensures
        exists|
            found: Result<String, SecretStoreError>,
            config: &HostConfig,
            clean: &str,
            answer: Result<Result<(), ProviderProbeFailure>, String>,
        |
            {
                &&& #[trigger] call_ensures(K::get_api_key, (secrets,), found)
                &&& #[trigger] call_ensures(P::probe, (probe, config, clean), answer)
                &&& found is Ok && clean@ == trimmed(found->Ok_0@)
                &&& config.base_url@ == s.base_url@ && config.model@ == s.model@
                &&& config.workspace@ == workspace
                &&& answer is Ok && r->Ok_0 == shown_probe(answer->Ok_0)
            },
{
    let found = choose|found: Result<String, SecretStoreError>|
        #[trigger] call_ensures(K::get_api_key, (secrets,), found) && match found {
            Err(e) => r is Err && is_safe_error(r->Err_0, secret_code(e)),
            Ok(key) => exists|
                config: &HostConfig,
                clean: &str,
                answer: Result<Result<(), ProviderProbeFailure>, String>,
            |
                {
                    &&& #[trigger] call_ensures(P::probe, (probe, config, clean), answer)
                    &&& is_host_config(*config, workspace, s)
                    &&& clean@ == trimmed(key@)
                    &&& match answer {
                        Err(_) => r is Err && is_safe_error(r->Err_0, ErrorCode::Internal),
                        Ok(result) => r == Ok::<ProviderProbeDto, CommandErrorDto>(
                            shown_probe(result),
                        ),
                    }
                },
        };
    let key = found->Ok_0;
    let (config, clean, answer) = choose|
        config: &HostConfig,
        clean: &str,
        answer: Result<Result<(), ProviderProbeFailure>, String>,
    |
        {
            &&& #[trigger] call_ensures(P::probe, (probe, config, clean), answer)
            &&& is_host_config(*config, workspace, s)
            &&& clean@ == trimmed(key@)
            &&& match answer {
                Err(_) => r is Err && is_safe_error(r->Err_0, ErrorCode::Internal),
                Ok(result) => r == Ok::<ProviderProbeDto, CommandErrorDto>(shown_probe(result)),
            }
        };
    assert(call_ensures(K::get_api_key, (secrets,), found));
    assert(call_ensures(P::probe, (probe, config, clean), answer));
}

/// What is left of the settings where the mask is dropped: everything else as it was loaded.
pub proof fn a_dropped_mask_leaves_the_rest<F: SettingsFile>(file: &F, code: Option<ErrorCode>)
    requires
        mask_dropped(file, code),
        code is None,
    ensures
        exists|
            loaded: Result<ProviderSettings, ErrorEnvelope>,
            stored: ProviderSettings,
            saved: Result<ProviderSettings, ErrorEnvelope>,
        |
            {
                &&& #[trigger] loaded_as(file, loaded)
                &&& #[trigger] saved_as(file, stored, saved)
                &&& loaded is Ok && saved is Ok
                &&& stored.api_key_mask is None
                &&& stored.base_url == loaded->Ok_0.base_url && stored.model == loaded->Ok_0.model
                &&& stored.fetch_allow == loaded->Ok_0.fetch_allow
                &&& stored.compact_mode == loaded->Ok_0.compact_mode
            },
{
    let loaded = choose|loaded: Result<ProviderSettings, ErrorEnvelope>|
        #[trigger] loaded_as(file, loaded) && match loaded {
            Err(e) => code == Some(e.code),
            Ok(current) => exists|
                stored: ProviderSettings,
                saved: Result<ProviderSettings, ErrorEnvelope>,
            |
                {
                    &&& #[trigger] saved_as(file, stored, saved)
                    &&& stored == (ProviderSettings { api_key_mask: None, ..current })
                    &&& code == code_of(saved)
                },
        };
    let current = loaded->Ok_0;
    let (stored, saved) = choose|
        stored: ProviderSettings,
        saved: Result<ProviderSettings, ErrorEnvelope>,
    |
        {
            &&& #[trigger] saved_as(file, stored, saved)
            &&& stored == (ProviderSettings { api_key_mask: None, ..current })
            &&& code == code_of(saved)
        };
    assert(loaded_as(file, loaded));
    assert(saved_as(file, stored, saved));
}

/// Settings that are saved were checked, and the change is answered by its receipt; where they
/// could not be written nothing changes.
pub proof fn what_saving_changes<H: ManagedHost, F: SettingsFile>(
    before: DesktopBridge<H>,
    after: DesktopBridge<H>,
    file: &F,
    context: CommandContext,
    settings: ProviderSettings,
    r: Result<CommandReceipt, CommandErrorDto>,
)
    requires
        is_saving(before, after, file, context, settings, r),
        r is Ok,
    ensures
        exists|checked: ProviderSettings, saved: Result<ProviderSettings, ErrorEnvelope>|
            #[trigger] saved_as(file, checked, saved) && validated_as(settings, Ok(checked))
                && saved is Ok,
        exists|changed: Result<CommandReceipt, ErrorEnvelope>|
            #[trigger] is_configuration_change(before, after, context, changed) && changed is Ok
                && changed->Ok_0 == r->Ok_0,
{
    let (checked, saved) = choose|
        checked: ProviderSettings,
        saved: Result<ProviderSettings, ErrorEnvelope>,
    |
        {
            &&& #[trigger] saved_as(file, checked, saved)
            &&& validated_as(settings, Ok(checked))
            &&& match saved {
                Err(e) => r is Err && is_safe_error(r->Err_0, e.code) && after == before,
                Ok(_) => exists|changed: Result<CommandReceipt, ErrorEnvelope>|
                    #[trigger] is_configuration_change(before, after, context, changed) && answers(
                        r,
                        changed,
                    ),
            }
        };
    assert(saved_as(file, checked, saved));
    let changed = choose|changed: Result<CommandReceipt, ErrorEnvelope>|
        #[trigger] is_configuration_change(before, after, context, changed) && answers(r, changed);
    assert(is_configuration_change(before, after, context, changed));
}

} // verus!
