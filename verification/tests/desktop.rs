use ideal_harness::commands::{
    clean_api_key, delete_api_key, get_provider_settings, host_config, key_mask, key_status,
    probe_result, resolve_workspace, save_provider_settings, secret_error, session_request,
    start_turn, store_api_key, test_provider_connection, CommandErrorDto, ProviderProbe,
    ProviderProbeDto, ProviderProbeFailure, SessionOperationDto, StartRequest,
};
use ideal_harness::desktop_bridge::{
    fork_limit, validate_identifier, CommandContext, DesktopBridge, DirectoryFacts, HostStarter,
    ManagedHost, SessionFacts, SessionOperation, SessionPlan,
};
use ideal_harness::host::{HostConfig, ValidatedHostConfig};
use ideal_harness::protocol::{ErrorCode, ErrorEnvelope, Event, SequencedEvent};
use ideal_harness::secret_store::{check_secret, SecretStore, SecretStoreError};
use ideal_harness::settings::{
    is_forbidden_address, names_loopback, ProviderSettings, SettingsFile, SettingsStore,
};
use std::cell::{Cell, RefCell};
use std::rc::Rc;

#[derive(Clone, Default)]
struct FakeHost {
    cancelled: Rc<Cell<bool>>,
    shutdown: Rc<Cell<bool>>,
}

impl ManagedHost for FakeHost {
    fn cancel(&self) {
        self.cancelled.set(true);
    }

    fn shutdown(&self) -> Result<(), String> {
        self.shutdown.set(true);
        Ok(())
    }

    fn spawn_turn(&self, _: &str, _: &str) -> Result<(), ErrorEnvelope> {
        Ok(())
    }
}

fn directory(path: &str) -> DirectoryFacts {
    DirectoryFacts { canonical: Ok(path.into()), is_dir: true }
}

fn present(path: &str) -> SessionFacts {
    SessionFacts { exists: true, is_file: true, canonical: Ok(path.into()) }
}

fn absent() -> SessionFacts {
    SessionFacts { exists: false, is_file: false, canonical: Err("not found".into()) }
}

fn bare() -> DesktopBridge<FakeHost> {
    DesktopBridge::new(directory("/ws"), directory("/sessions")).unwrap()
}

fn validated(model: &str) -> Result<ValidatedHostConfig, String> {
    let mut config = HostConfig::in_directory("/ws".into());
    config.model = model.into();
    config.validate(Ok("/ws".into()), Err("unused".into()))
}

fn hosted() -> (DesktopBridge<FakeHost>, FakeHost) {
    let host = FakeHost::default();
    let mut bridge = bare();
    let context = bridge.context();
    bridge
        .install_production_host(
            context,
            validated("deepseek-chat"),
            &workspace(),
            Ok(host.clone()),
        )
        .unwrap();
    (bridge, host)
}

fn create(session_id: &str) -> SessionOperation {
    SessionOperation::Create { session_id: session_id.into() }
}

fn workspace() -> Result<String, String> {
    Ok("/ws".into())
}

#[test]
fn stale_context_path_escape_and_absent_services_fail_closed() {
    let mut bridge = bare();
    let context = bridge.context();
    let stale = CommandContext { generation: context.generation + 1, ..context };
    assert_eq!(
        bridge
            .session_operation(stale, &create("safe"), &absent(), &absent())
            .unwrap_err()
            .code,
        ErrorCode::CursorInvalid
    );
    assert_eq!(
        bridge
            .session_operation(context, &create("../escape"), &absent(), &absent())
            .unwrap_err()
            .code,
        ErrorCode::ToolArgsInvalid
    );
    assert_eq!(
        bridge
            .start_turn(context, "safe", &workspace(), "hello", &absent(), true)
            .unwrap_err()
            .code,
        ErrorCode::Internal
    );
    assert_eq!(
        bridge.respond_approval(context, "missing", 1, true).unwrap_err().code,
        ErrorCode::ApprovalRejected
    );
    let (mut hosted, _) = hosted();
    let hosted_context = hosted.context();
    assert_eq!(
        hosted
            .start_turn(hosted_context, "safe", &Ok("/".into()), "hello", &absent(), true)
            .unwrap_err()
            .code,
        ErrorCode::SandboxDenied
    );
}

#[test]
fn cancellation_and_close_cancel_resources_and_advance_security_facts() {
    let (mut bridge, host) = hosted();
    let context = bridge.context();
    let plan =
        bridge.session_operation(context, &create("demo"), &absent(), &absent()).unwrap();
    assert_eq!(plan, SessionPlan::Create { path: "/sessions/demo.jsonl".into() });
    let turn = bridge
        .start_turn(
            context,
            "demo",
            &workspace(),
            "hello",
            &present("/sessions/demo.jsonl"),
            true,
        )
        .unwrap();
    let receipt = bridge.cancel_turn(context, turn.turn_id.unwrap()).unwrap();
    assert!(host.cancelled.get());
    assert!(host.shutdown.get());
    assert!(receipt.generation > context.generation);
    assert_eq!(
        bridge.steer(context, turn.turn_id.unwrap(), "late").unwrap_err().code,
        ErrorCode::CursorInvalid
    );
    bridge.close().unwrap();
    assert_eq!(
        bridge
            .session_operation(
                bridge.context(),
                &SessionOperation::Resume { session_id: "demo".into() },
                &present("/sessions/demo.jsonl"),
                &absent(),
            )
            .unwrap_err()
            .code,
        ErrorCode::SandboxDenied
    );
    assert!(bridge.close().is_ok());
}

#[test]
fn configuration_change_invalidates_host_and_is_blocked_during_turn() {
    let (mut bridge, host) = hosted();
    let context = bridge.context();
    let receipt = bridge.configuration_changed(context).unwrap();
    assert!(host.cancelled.get());
    assert!(host.shutdown.get());
    assert!(receipt.generation > context.generation);
    assert!(receipt.permission_epoch > context.permission_epoch);
    assert!(!bridge.has_production_host());

    let (mut active, _) = hosted();
    let active_context = active.context();
    active
        .start_turn(
            active_context,
            "demo",
            &workspace(),
            "hello",
            &present("/sessions/demo.jsonl"),
            true,
        )
        .unwrap();
    assert_eq!(
        active.validate_configuration_change(active_context).unwrap_err().code,
        ErrorCode::ApprovalRejected
    );
    assert_eq!(active.context(), active_context);
}

#[test]
fn session_operations_and_approval_epoch_are_validated() {
    let (mut bridge, _) = hosted();
    let context = bridge.context();
    assert!(bridge.validate_installed_host(context, &validated("deepseek-chat")).is_ok());
    assert_eq!(
        bridge
            .validate_installed_host(context, &validated("changed-model"))
            .unwrap_err()
            .code,
        ErrorCode::ApprovalRejected
    );
    let created =
        bridge.session_operation(context, &create("parent"), &absent(), &absent()).unwrap();
    assert_eq!(created, SessionPlan::Create { path: "/sessions/parent.jsonl".into() });
    let forked = bridge
        .session_operation(
            context,
            &SessionOperation::Fork {
                source_id: "parent".into(),
                target_id: "child".into(),
                boundary: None,
            },
            &present("/sessions/parent.jsonl"),
            &absent(),
        )
        .unwrap();
    assert_eq!(
        forked,
        SessionPlan::Fork {
            source: "/sessions/parent.jsonl".into(),
            target: "/sessions/child.jsonl".into(),
            boundary: None,
        }
    );
    assert_eq!(fork_limit(None, 1).unwrap(), 1);
    assert!(fork_limit(Some(2), 1).is_err());
    assert_eq!(bridge.session_receipt("child".into(), 1).event_count, 1);

    let turn = bridge
        .start_turn(
            context,
            "parent",
            &workspace(),
            "hello",
            &present("/sessions/parent.jsonl"),
            true,
        )
        .unwrap();
    let turn_id = turn.turn_id.unwrap();
    bridge.register_approval(context, turn_id, "approval_1", 7).unwrap();
    assert_eq!(
        bridge.respond_approval(context, "approval_1", 8, true).unwrap_err().code,
        ErrorCode::ApprovalRejected
    );
    assert!(bridge.respond_approval(context, "approval_1", 7, false).is_ok());
    assert!(bridge.steer(context, turn_id, "follow-up").is_ok());
    assert!(bridge.finish_turn(context, turn_id).is_ok());
    assert_eq!(
        bridge.finish_turn(context, turn_id).unwrap_err().code,
        ErrorCode::ToolArgsInvalid
    );
}

#[test]
fn turns_run_one_after_another() {
    let (mut bridge, _) = hosted();
    let context = bridge.context();
    let facts = present("/sessions/demo.jsonl");
    bridge.start_turn(context, "demo", &workspace(), "one", &facts, false).unwrap();
    let refused =
        bridge.start_turn(context, "demo", &workspace(), "two", &facts, false).unwrap_err();
    assert_eq!(refused.message, "another turn is already active");
    assert!(bridge.start_turn(context, "demo", &workspace(), "two", &facts, true).is_ok());
}

#[test]
fn an_approval_is_answered_only_once() {
    let (mut bridge, _) = hosted();
    let context = bridge.context();
    let facts = present("/sessions/demo.jsonl");
    let turn = bridge.start_turn(context, "demo", &workspace(), "one", &facts, true).unwrap();
    bridge.register_approval(context, turn.turn_id.unwrap(), "a", 1).unwrap();
    assert!(bridge.respond_approval(context, "a", 1, true).is_ok());
    assert!(bridge.respond_approval(context, "a", 1, true).is_err());
}

#[test]
fn a_session_outside_its_directory_is_refused() {
    let bridge = bare();
    let escaped = bridge.session_path("demo", false, &present("/elsewhere/demo.jsonl"));
    assert_eq!(escaped.unwrap_err().code, ErrorCode::SandboxDenied);
    assert!(bridge.session_path("demo", true, &present("/sessions/demo.jsonl")).is_err());
    assert!(bridge.session_path("demo", false, &absent()).is_err());
    assert!(validate_identifier("a/b", "session id").is_err());
    assert!(validate_identifier("", "session id").is_err());
    assert!(validate_identifier("a-b_1", "session id").is_ok());
}

#[test]
fn frames_follow_the_last_seen_event() {
    let bridge = bare();
    let events: Vec<SequencedEvent> = (0..6)
        .map(|seq| SequencedEvent { seq, event: Event::TurnStarted { turn_id: seq } })
        .collect();
    let frames = bridge
        .session_event_frames("demo", 1, 2, &present("/sessions/demo.jsonl"), Ok(events))
        .unwrap();
    let seqs: Vec<u64> = frames.iter().map(|frame| frame.record.seq).collect();
    assert_eq!(seqs, vec![2, 3]);
    assert_eq!(frames[0].connection_generation, 1);
}

#[test]
fn state_uses_shared_bridge_and_closes_fail_closed() {
    let mut bridge = bare();
    assert_eq!(bridge.context().generation, 1);
    bridge.close().unwrap();
    assert_eq!(
        bridge
            .session_operation(bridge.context(), &create("late"), &absent(), &absent())
            .unwrap_err()
            .code,
        ErrorCode::SandboxDenied
    );
}

#[test]
fn directories_must_exist() {
    let missing = DirectoryFacts { canonical: Err("gone".into()), is_dir: false };
    assert!(DesktopBridge::<FakeHost>::new(missing, directory("/sessions")).is_err());
    let file = DirectoryFacts { canonical: Ok("/file".into()), is_dir: false };
    assert!(DesktopBridge::<FakeHost>::new(directory("/ws"), file).is_err());
}

#[derive(Default)]
struct MemorySecretStore {
    value: RefCell<Option<String>>,
}

impl SecretStore for MemorySecretStore {
    fn set_api_key(&self, value: &str) -> Result<(), SecretStoreError> {
        check_secret(value)?;
        *self.value.borrow_mut() = Some(value.into());
        Ok(())
    }

    fn get_api_key(&self) -> Result<String, SecretStoreError> {
        self.value.borrow().clone().ok_or(SecretStoreError::Missing)
    }

    fn delete_api_key(&self) -> Result<(), SecretStoreError> {
        self.value.borrow_mut().take().map(|_| ()).ok_or(SecretStoreError::Missing)
    }
}

#[derive(Default)]
struct MemoryFile {
    held: RefCell<Option<ProviderSettings>>,
    broken: Cell<bool>,
}

fn copy_of(settings: &ProviderSettings) -> ProviderSettings {
    ProviderSettings {
        base_url: settings.base_url.clone(),
        model: settings.model.clone(),
        fetch_allow: settings.fetch_allow.clone(),
        compact_mode: settings.compact_mode,
        api_key_mask: settings.api_key_mask.clone(),
    }
}

impl SettingsFile for MemoryFile {
    fn read(&self) -> Result<Option<ProviderSettings>, String> {
        if self.broken.get() {
            return Err("disk".into());
        }
        Ok(self.held.borrow().as_ref().map(copy_of))
    }

    fn write(&self, settings: &ProviderSettings) -> Result<(), String> {
        if self.broken.get() {
            return Err("disk".into());
        }
        *self.held.borrow_mut() = Some(copy_of(settings));
        Ok(())
    }
}

fn settings() -> SettingsStore<MemoryFile> {
    SettingsStore { file: MemoryFile::default() }
}

#[test]
fn secret_store_deletion_is_observable_without_returning_plaintext() {
    let store = MemorySecretStore::default();
    store.set_api_key("top-secret-key").unwrap();
    assert_eq!(store.has_api_key(), Ok(true));
    store.delete_api_key().unwrap();
    assert_eq!(store.has_api_key(), Ok(false));
    assert_eq!(store.set_api_key("  "), Err(SecretStoreError::Rejected));
    let shown = format!("{:?}", key_status(store.has_api_key()));
    assert!(!shown.contains("top-secret-key"));
}

#[test]
fn a_stored_key_is_kept_out_of_the_settings() {
    let (mut bridge, _) = hosted();
    let context = bridge.context();
    let store = MemorySecretStore::default();
    let backend = settings();
    let receipt = store_api_key(
        &mut bridge,
        &store,
        &backend,
        context,
        ProviderSettings::default(),
        " sk-0123456789 ",
    )
    .unwrap();
    assert!(receipt.generation > context.generation);
    assert_eq!(store.get_api_key().unwrap(), "sk-0123456789");
    let saved = backend.load().unwrap();
    assert_eq!(saved.api_key_mask.as_deref(), Some("sk-0…6789"));
    assert!(!format!("{saved:?}").contains("sk-0123456789"));
    let shown = get_provider_settings(&store, &backend).unwrap();
    assert!(shown.has_api_key);
    assert!(shown.secure_storage_available);
    assert!(!format!("{shown:?}").contains("sk-0123456789"));

    let context = bridge.context();
    delete_api_key(&mut bridge, &store, &backend, context).unwrap();
    assert_eq!(store.has_api_key(), Ok(false));
    assert_eq!(backend.load().unwrap().api_key_mask, None);
    // A key that is missing is deleted already.
    let context = bridge.context();
    delete_api_key(&mut bridge, &store, &backend, context).unwrap();
}

#[test]
fn a_refused_key_changes_nothing() {
    let (mut bridge, host) = hosted();
    let context = bridge.context();
    let store = MemorySecretStore::default();
    let backend = settings();
    for key in ["  ", "a b"] {
        let refused = store_api_key(
            &mut bridge,
            &store,
            &backend,
            context,
            ProviderSettings::default(),
            key,
        );
        assert_eq!(refused.unwrap_err().code, "tool_args_invalid");
    }
    assert_eq!(bridge.context(), context);
    assert!(!host.cancelled.get());
    assert_eq!(store.has_api_key(), Ok(false));
    assert!(backend.file.held.borrow().is_none());
}

#[test]
fn settings_are_saved_only_when_the_configuration_may_change() {
    let (mut bridge, host) = hosted();
    let context = bridge.context();
    let stale = CommandContext { permission_epoch: context.permission_epoch + 1, ..context };
    let backend = settings();
    let refused = save_provider_settings(
        &mut bridge,
        &backend,
        stale,
        ProviderSettings::default(),
        "/ws",
        &workspace(),
    );
    assert!(refused.is_err());
    let mut plain = ProviderSettings::default();
    plain.base_url = "http://api.example.com".into();
    let refused =
        save_provider_settings(&mut bridge, &backend, context, plain, "/ws", &workspace());
    assert_eq!(refused.unwrap_err().code, "tool_args_invalid");
    backend.file.broken.set(true);
    let refused = save_provider_settings(
        &mut bridge,
        &backend,
        context,
        ProviderSettings::default(),
        "/ws",
        &workspace(),
    );
    assert_eq!(refused.unwrap_err().code, "internal");
    assert_eq!(bridge.context(), context);
    backend.file.broken.set(false);
    assert!(backend.file.held.borrow().is_none());
    assert!(!host.cancelled.get());
    save_provider_settings(
        &mut bridge,
        &backend,
        context,
        ProviderSettings::default(),
        "/ws",
        &workspace(),
    )
    .unwrap();
    assert!(backend.file.held.borrow().is_some());
    assert!(host.cancelled.get());
    assert!(!bridge.has_production_host());
}

#[test]
fn stored_settings_are_checked_on_the_way_in_and_out() {
    let backend = settings();
    assert_eq!(backend.load().unwrap(), ProviderSettings::default());
    let mut loose = ProviderSettings::default();
    loose.model = " m ".into();
    loose.fetch_allow = vec!["B.example".into(), "a.example".into(), "b.example".into()];
    let saved = backend.save(loose).unwrap();
    assert_eq!(saved.model, "m");
    assert_eq!(saved.fetch_allow, ["a.example", "b.example"]);
    assert_eq!(backend.load().unwrap(), saved);
    let mut private = ProviderSettings::default();
    private.fetch_allow = vec!["localhost".into()];
    assert_eq!(
        backend.save(copy_of(&private)).unwrap_err().code,
        ErrorCode::ToolArgsInvalid
    );
    assert_eq!(backend.load().unwrap(), saved);
    *backend.file.held.borrow_mut() = Some(private);
    assert_eq!(backend.load().unwrap_err().code, ErrorCode::ToolArgsInvalid);
    backend.file.broken.set(true);
    assert_eq!(backend.load().unwrap_err().code, ErrorCode::Internal);
}

#[derive(Default)]
struct FakeStarter {
    keys: RefCell<Vec<String>>,
}

impl HostStarter<FakeHost> for FakeStarter {
    fn start(&self, config: &ValidatedHostConfig, api_key: &str) -> Result<FakeHost, String> {
        assert_eq!(config.workspace, "/ws");
        self.keys.borrow_mut().push(api_key.into());
        Ok(FakeHost::default())
    }
}

fn asked<'a>(context: CommandContext, done: bool) -> StartRequest<'a> {
    StartRequest {
        context,
        session_id: "one",
        input: "hello",
        workspace: "/ws",
        canonical: workspace(),
        session: present("/sessions/one.jsonl"),
        last_turn_done: done,
    }
}

#[test]
fn a_turn_starts_its_host_once() {
    let mut bridge = bare();
    let context = bridge.context();
    let secrets = MemorySecretStore::default();
    let backend = settings();
    let starter = FakeStarter::default();
    let refused =
        start_turn(&mut bridge, &secrets, &backend, &starter, &asked(context, false));
    assert_eq!(refused.unwrap_err().code, "approval_rejected");
    secrets.set_api_key(" key\n").unwrap();
    let stale = CommandContext { generation: context.generation + 1, ..context };
    let refused = start_turn(&mut bridge, &secrets, &backend, &starter, &asked(stale, false));
    assert_eq!(refused.unwrap_err().code, "cursor_invalid");
    assert!(starter.keys.borrow().is_empty());

    let receipt =
        start_turn(&mut bridge, &secrets, &backend, &starter, &asked(context, false)).unwrap();
    assert_eq!(receipt.turn_id, Some(0));
    assert_eq!(*starter.keys.borrow(), ["key"]);
    // The first turn still runs; then it is done, and the same host serves the next.
    let refused =
        start_turn(&mut bridge, &secrets, &backend, &starter, &asked(context, false));
    assert_eq!(refused.unwrap_err().code, "tool_args_invalid");
    let receipt =
        start_turn(&mut bridge, &secrets, &backend, &starter, &asked(context, true)).unwrap();
    assert_eq!(receipt.turn_id, Some(1));
    assert_eq!(starter.keys.borrow().len(), 1);
    // Other settings are not served by the host that runs.
    let mut other = ProviderSettings::default();
    other.model = "other".into();
    backend.save(other).unwrap();
    let refused = start_turn(&mut bridge, &secrets, &backend, &starter, &asked(context, true));
    assert_eq!(refused.unwrap_err().code, "approval_rejected");
}

struct FakeProbe {
    asks: bool,
}

impl ProviderProbe for FakeProbe {
    fn probe(
        &self,
        config: &HostConfig,
        api_key: &str,
    ) -> Result<Result<(), ProviderProbeFailure>, String> {
        assert_eq!(config.model, "deepseek-chat");
        assert_eq!(api_key, "key");
        if self.asks {
            Ok(Err(ProviderProbeFailure::Timeout))
        } else {
            Err("no proxy".into())
        }
    }
}

#[test]
fn a_connection_is_tested_with_the_stored_key() {
    let bridge = bare();
    let context = bridge.context();
    let secrets = MemorySecretStore::default();
    let backend = settings();
    let probe = FakeProbe { asks: true };
    let refused =
        test_provider_connection(&bridge, &secrets, &backend, &probe, context, "/ws");
    assert_eq!(refused.unwrap_err().code, "approval_rejected");
    secrets.set_api_key("key ").unwrap();
    let found = test_provider_connection(&bridge, &secrets, &backend, &probe, context, "/ws");
    assert_eq!(found.unwrap(), ProviderProbeDto::TimedOut);
    let silent = FakeProbe { asks: false };
    let found = test_provider_connection(&bridge, &secrets, &backend, &silent, context, "/ws");
    assert_eq!(found.unwrap_err().code, "internal");
    let stale = CommandContext { generation: 9, ..context };
    let found = test_provider_connection(&bridge, &secrets, &backend, &probe, stale, "/ws");
    assert_eq!(found.unwrap_err().code, "cursor_invalid");
}

#[test]
fn keys_are_masked() {
    assert_eq!(key_mask("short"), "*****");
    assert_eq!(key_mask("12345678"), "********");
    assert_eq!(key_mask("123456789"), "1234…6789");
    assert!(clean_api_key("  ").is_err());
    assert!(clean_api_key("a b").is_err());
    assert_eq!(clean_api_key(" k ").unwrap(), "k");
}

#[test]
fn command_errors_expose_only_static_safe_text() {
    let error = CommandErrorDto::from_error(&ErrorEnvelope::of(
        ErrorCode::Internal,
        "IDEAL_HARNESS_API_KEY=secret approval payload",
    ));
    let encoded = format!("{error:?}");
    assert!(!encoded.contains("secret"));
    assert!(!encoded.contains("approval payload"));
    assert_eq!(error.code, "internal");
}

#[test]
fn store_failures_have_their_own_codes() {
    assert_eq!(secret_error(SecretStoreError::Missing).code, "approval_rejected");
    assert_eq!(secret_error(SecretStoreError::Rejected).code, "tool_args_invalid");
    assert_eq!(secret_error(SecretStoreError::Unavailable).code, "internal");
    assert_eq!(key_status(Ok(true)), (true, true));
    assert_eq!(key_status(Err(SecretStoreError::Unavailable)), (false, false));
}

#[test]
fn requests_become_operations() {
    let context = CommandContext { generation: 1, permission_epoch: 2 };
    let (found, operation) = session_request(SessionOperationDto::Revert {
        context,
        source_id: "a".into(),
        target_id: "b".into(),
        turn_id: 3,
    });
    assert_eq!(found, context);
    assert_eq!(
        operation,
        SessionOperation::Revert { source_id: "a".into(), target_id: "b".into(), turn_id: 3 }
    );
    assert_eq!(
        probe_result(Err(ProviderProbeFailure::Timeout)),
        ProviderProbeDto::TimedOut
    );
    assert_eq!(probe_result(Ok(())), ProviderProbeDto::Connected);
}

#[test]
fn the_workspace_is_chosen_or_in_the_home() {
    assert_eq!(resolve_workspace(Some("/w"), None, None).unwrap(), "/w");
    assert_eq!(
        resolve_workspace(Some(" "), None, Some("/home/u")).unwrap(),
        "/home/u/.ideal-harness"
    );
    assert!(resolve_workspace(None, None, None).is_none());
    let config = host_config("/w", &ProviderSettings::default());
    assert_eq!(config.workspace, "/w");
    assert_eq!(config.plugin_root, None);
}

#[test]
fn allowlist_rejects_broad_urls_and_private_targets() {
    for host in ["*.example.com", "https://example.com", "localhost", "127.0.0.1"] {
        let settings =
            ProviderSettings { fetch_allow: vec![host.into()], ..ProviderSettings::default() };
        assert_eq!(settings.validate().unwrap_err().code, ErrorCode::ToolArgsInvalid);
    }
}

#[test]
fn defaults_keep_fetch_closed_and_file_contains_no_secret_field() {
    let saved = ProviderSettings::default().validate().unwrap();
    assert!(saved.fetch_allow.is_empty());
    assert_eq!(saved.api_key_mask, None);
    assert_eq!(ProviderSettings::default().validate().unwrap(), saved);
}

#[test]
fn public_hosts_are_accepted_in_lower_case() {
    let settings = ProviderSettings {
        fetch_allow: vec!["docs.example".into(), "8.8.8.8".into()],
        ..ProviderSettings::default()
    };
    assert!(settings.validate().is_ok());
    for address in ["10.0.0.1", "192.168.1.1", "172.16.0.1", "169.254.1.1", "0.0.0.0"] {
        assert!(is_forbidden_address(address), "{address}");
    }
    assert!(!is_forbidden_address("172.32.0.1"));
    assert!(!is_forbidden_address("docs.example"));
    assert!(names_loopback("127.0.0.1"));
    assert!(names_loopback("localhost"));
    assert!(!names_loopback("128.0.0.1"));
}
