use ideal_harness::budget_ledger::{AgentTokenUsage, BudgetLedger};
use ideal_harness::compaction::{
    pair_complete_at_cut, safe_prefix_len, CompactionEntry, CompactionKind, SummaryProvider,
    ToolResultPruner, TwoStageCompactor,
};
use ideal_harness::context::{is_context_overflow, is_tool_pair_boundary, pressure_reached};
use ideal_harness::protocol::{
    ErrorCode, ErrorEnvelope, Event, SequencedEvent, TokenUsageSource,
};
use ideal_harness::token_meter::{TokenMeter, TokenSource};

struct Summary<F>(F);

impl<F> SummaryProvider for Summary<F>
where
    F: Fn(&str) -> Result<String, ErrorEnvelope>,
{
    fn summarize(&self, input: &str) -> Result<String, ErrorEnvelope> {
        (self.0)(input)
    }
}

fn se(seq: u64, event: Event) -> SequencedEvent {
    SequencedEvent { seq, event }
}

fn configured(budget: u64) -> Event {
    Event::TokenBudgetConfigured { root_agent_id: "root".into(), token_budget: budget }
}

fn usage(id: &str, path: &[&str], total: u64) -> Event {
    Event::TokenUsageRecorded {
        usage_id: id.into(),
        agent_path: path.iter().map(|value| (*value).to_string()).collect(),
        total_tokens: total,
        source: TokenUsageSource::Provider,
    }
}

fn message(text: &str) -> CompactionEntry {
    CompactionEntry { kind: CompactionKind::Message, text: text.into() }
}

fn call(id: &str) -> CompactionEntry {
    CompactionEntry { kind: CompactionKind::ToolCalls(vec![id.into()]), text: "call".into() }
}

fn result(id: &str, text: &str) -> CompactionEntry {
    CompactionEntry { kind: CompactionKind::ToolResult(id.into()), text: text.into() }
}

fn next(state: &mut u64) -> u64 {
    *state = state.wrapping_mul(6_364_136_223_846_793_005).wrapping_add(1);
    *state
}

#[test]
fn provider_usage_is_exact_anchor_even_when_zero() {
    let meter = TokenMeter::default();
    for total in [0, 37, u64::MAX] {
        let measured = meter.measure(Some(total), &["this text must be ignored"]);
        assert_eq!(measured.usage.total, total);
        assert_eq!(measured.source, TokenSource::ProviderUsage);
    }
}

#[test]
fn missing_usage_falls_back_to_rounded_up_character_estimate() {
    let meter = TokenMeter::new(4).unwrap();
    let measured = meter.measure(None, &["abc", "你好"]);
    assert_eq!(measured.usage.total, 2, "five characters at four a token, rounded up");
    assert_eq!(measured.source, TokenSource::Heuristic);
}

#[test]
fn empty_context_estimates_zero_and_nonempty_never_estimates_zero() {
    let meter = TokenMeter::default();
    assert_eq!(meter.measure(None, &[]).usage.total, 0);
    assert_eq!(meter.measure(None, &[""]).usage.total, 0);
    assert_eq!(meter.measure(None, &["x"]).usage.total, 1);
}

#[test]
fn invalid_heuristic_ratio_is_rejected() {
    assert_eq!(
        TokenMeter::new(0).unwrap_err(),
        "chars_per_token must be greater than zero"
    );
}

#[test]
fn more_text_never_lowers_the_estimate() {
    let meter = TokenMeter::new(3).unwrap();
    let mut last = 0;
    let text = "0123456789";
    for len in 0..=10 {
        let total = meter.measure(None, &[&text[..len]]).usage.total;
        assert!(last <= total);
        assert_eq!(total, (len as u64).div_ceil(3));
        last = total;
    }
}

#[test]
fn two_level_usage_rolls_up_own_subtree_and_remaining() {
    let events = vec![
        se(0, configured(100)),
        se(1, usage("root-use", &["root"], 10)),
        se(2, usage("child-use", &["root", "child"], 20)),
        se(3, usage("grand-use", &["root", "child", "grand"], 30)),
    ];
    let ledger = BudgetLedger::replay(&events).unwrap();
    assert_eq!(
        ledger.agent_usage("root"),
        AgentTokenUsage { own_tokens: 10, subtree_tokens: 60 }
    );
    assert_eq!(
        ledger.agent_usage("child"),
        AgentTokenUsage { own_tokens: 20, subtree_tokens: 50 }
    );
    assert_eq!(
        ledger.agent_usage("grand"),
        AgentTokenUsage { own_tokens: 30, subtree_tokens: 30 }
    );
    assert_eq!(ledger.root_remaining(), Some(40));
}

#[test]
fn replay_rejects_duplicate_usage_changed_budget_and_cyclic_path() {
    let first_event = se(0, configured(10));
    let first = se(1, usage("same", &["root"], 1));
    let duplicate = se(2, usage("same", &["root"], 1));
    assert!(BudgetLedger::replay(&[first_event.clone(), first, duplicate]).is_err());
    assert!(BudgetLedger::replay(&[first_event.clone(), se(1, configured(11))]).is_err());
    assert!(BudgetLedger::replay(&[
        first_event,
        se(1, usage("cycle", &["root", "child", "root"], 1))
    ])
    .is_err());
}

#[test]
fn exhausted_budget_rejects_before_another_sample() {
    let events = vec![se(0, configured(10)), se(1, usage("use", &["root"], 12))];
    let error = BudgetLedger::replay(&events).unwrap().ensure_can_sample().unwrap_err();
    assert_eq!(error.code, ErrorCode::ContextWindowExceeded);
}

#[test]
fn every_ledger_refusal_names_its_reason() {
    let reason = |events: &[SequencedEvent]| BudgetLedger::replay(events).unwrap_err();
    let blank_root = Event::TokenBudgetConfigured { root_agent_id: " ".into(), token_budget: 5 };
    for refused in [blank_root, configured(0)] {
        assert_eq!(
            reason(&[se(0, refused)]).message,
            "root agent id and token budget must be non-zero"
        );
    }
    assert_eq!(
        reason(&[se(0, usage("u", &["root"], 1)), se(1, configured(5))]).message,
        "token budget configuration changed during a session"
    );
    assert_eq!(
        reason(&[se(0, configured(5)), se(1, usage("u", &["other"], 1))]).message,
        "token usage path does not start at configured root"
    );
    for refused in [usage(" ", &["root"], 1), usage("u", &[], 1)] {
        assert_eq!(
            reason(&[se(0, refused)]).message,
            "usage id and agent path must be non-empty"
        );
    }
    assert_eq!(
        reason(&[se(0, usage("u", &["root", " "], 1))]).message,
        "agent path contains blank or cyclic identities"
    );
    assert_eq!(
        reason(&[se(0, usage("u", &["root"], 1)), se(1, usage("u", &["root"], 1))]).message,
        "duplicate token usage id u"
    );
    let overflow = reason(&[
        se(0, configured(5)),
        se(1, usage("a", &["root"], u64::MAX)),
        se(2, usage("b", &["root"], 1)),
    ]);
    assert_eq!(overflow.message, "token usage counter overflow");
}

#[test]
fn a_budget_that_was_set_stays() {
    let mut ledger = BudgetLedger::default();
    ledger.apply(&configured(25)).unwrap();
    ledger.apply(&configured(25)).unwrap();
    assert!(ledger.apply(&configured(26)).is_err());
    let other_root =
        Event::TokenBudgetConfigured { root_agent_id: "other".into(), token_budget: 25 };
    assert!(ledger.apply(&other_root).is_err());
    assert_eq!(ledger.token_budget(), Some(25));
    assert_eq!(ledger.root_agent_id().map(String::as_str), Some("root"));
}

#[test]
fn remaining_budget_only_shrinks_and_stays_configured() {
    let mut ledger = BudgetLedger::default();
    assert_eq!(ledger.root_remaining(), None);
    ledger.apply(&configured(25)).unwrap();
    ledger.apply(&usage("a", &["root"], 20)).unwrap();
    assert_eq!(ledger.root_remaining(), Some(5));
    ledger.apply(&usage("b", &["root", "child"], 20)).unwrap();
    assert_eq!(ledger.root_remaining(), Some(0));
    assert_eq!(ledger.token_budget(), Some(25));
    assert_eq!(ledger.root_agent_id().map(|s| s.as_str()), Some("root"));
    assert_eq!(ledger.agent_usage("nobody"), AgentTokenUsage::default());
}

#[test]
fn pressure_triggers_at_threshold() {
    let threshold = (1000.0_f64 * 0.8) as u64;
    assert!(!pressure_reached(799, threshold));
    assert!(pressure_reached(800, threshold));
}

#[test]
fn overflow_error_code_maps_to_forced_compaction() {
    assert!(is_context_overflow(ErrorCode::ContextWindowExceeded));
    assert!(!is_context_overflow(ErrorCode::Internal));
}

#[test]
fn cut_between_tool_call_and_result_is_forbidden() {
    assert!(!is_tool_pair_boundary(3, 7, 5));
    assert!(is_tool_pair_boundary(3, 7, 8));
    assert!(is_tool_pair_boundary(3, 7, 2));
}

#[test]
fn two_stages_prune_then_summarize_without_splitting_pair() {
    let entries = vec![
        message("old"),
        call("c1"),
        result("c1", "abcdefghij"),
        message("recent"),
    ];
    let compactor = TwoStageCompactor::new(1, ToolResultPruner::new(5, 3).unwrap());
    let plan = compactor
        .plan(
            &entries,
            &Summary(|input: &str| {
                assert!(input.contains("abc\n[tool result pruned: 10 chars]"));
                Ok("old summary".to_string())
            }),
        )
        .unwrap()
        .unwrap();
    assert_eq!(plan.compacted_prefix, 3);
    assert_eq!(plan.pruned_tool_results, 1);
    assert_eq!(plan.summary, "old summary");
}

#[test]
fn summarizer_failure_and_empty_summary_fail_explicitly() {
    let entries = vec![message("old"), message("new")];
    let compactor = TwoStageCompactor::new(1, ToolResultPruner::new(10, 5).unwrap());
    let error = compactor
        .plan(
            &entries,
            &Summary(|_: &str| Err(ErrorEnvelope::of(ErrorCode::ModelStreamBroken, "cut"))),
        )
        .unwrap_err();
    assert_eq!(error.code, ErrorCode::ModelStreamBroken);
    let error = compactor
        .plan(&entries, &Summary(|_: &str| Ok("  ".to_string())))
        .unwrap_err();
    assert_eq!(error.code, ErrorCode::Internal);
}

#[test]
fn random_safe_prefix_property_never_splits_tool_pairs() {
    let mut state = 0x5eed_u64;
    for case in 0..500 {
        let pairs = (next(&mut state) % 8 + 1) as usize;
        let mut entries = vec![message("head")];
        for pair in 0..pairs {
            if next(&mut state) % 2 == 0 {
                entries.push(message("between"));
            }
            let id = format!("c{case}-{pair}");
            entries.push(call(&id));
            if next(&mut state) % 2 == 0 {
                entries.push(message("inside"));
            }
            entries.push(result(&id, "result"));
        }
        entries.push(message("tail"));
        let retain = (next(&mut state) as usize) % entries.len();
        if let Some(cut) = safe_prefix_len(&entries, retain) {
            assert!(pair_complete_at_cut(&entries, cut));
        }
    }
}

#[test]
fn no_safe_nonempty_prefix_returns_none() {
    let entries = vec![call("open"), message("tail")];
    assert_eq!(safe_prefix_len(&entries, 0), None);
    assert!(ToolResultPruner::new(0, 0).is_err());
    assert!(ToolResultPruner::new(3, 4).is_err());
}

#[test]
fn pruning_shortens_long_results_only() {
    let pruner = ToolResultPruner::new(4, 2).unwrap();
    let mut entries = vec![
        message("a long message stays"),
        call("c"),
        result("c", "abcd"),
        call("d"),
        result("d", "abcde"),
    ];
    assert_eq!(pruner.prune(&mut entries), 1);
    assert_eq!(entries[0].text, "a long message stays");
    assert_eq!(entries[2].text, "abcd");
    assert_eq!(entries[4].text, "ab\n[tool result pruned: 5 chars]");
    assert_eq!(entries[4].kind, CompactionKind::ToolResult("d".into()));
}

#[test]
fn the_summary_input_lists_every_entry() {
    let entries = vec![
        message("hello"),
        CompactionEntry {
            kind: CompactionKind::ToolCalls(vec!["a".into(), "b".into()]),
            text: "run".into(),
        },
        result("a", "one"),
        result("b", "two"),
    ];
    let compactor = TwoStageCompactor::new(0, ToolResultPruner::new(100, 10).unwrap());
    let prepared = compactor.prepare(&entries).unwrap();
    assert_eq!(
        prepared.input,
        "message: hello\ntool_calls(a,b): run\ntool_result(a): one\ntool_result(b): two"
    );
    assert_eq!(prepared.compacted_prefix, 4);
}

#[test]
fn a_compaction_with_nothing_to_cut_is_none() {
    let compactor = TwoStageCompactor::new(1, ToolResultPruner::new(5, 3).unwrap());
    let plan = compactor
        .plan(&[message("only")], &Summary(|_: &str| Ok("unused".to_string())))
        .unwrap();
    assert_eq!(plan, None);
}
