use comet::chat_doc::{
    execution_outcome, pending_input_questions, recovery_part_id, respond_input_fallback,
    respond_input_prompt, run_chat_config, steer_fallback, unarchive_on_send, ChatDocHandle,
    CommandDrain, DocHost, DocHostConfig, DrainAction, Fallback,
};
use comet::chat_doc::{config_backfill, delivery_outcome, drain_should_run, Delivery};

fn next_pending_command(
    commands: &Vec<SessionCommandEntry>,
    skipped: &Vec<String>,
    processed: &Vec<bool>,
) -> Option<usize> {
    CommandDrain { skipped: skipped.clone(), taken: None }.next_command(commands, processed)
}

fn drain_action(d: CommandDisposition) -> DrainAction {
    let mut drain = CommandDrain::new();
    assert_eq!(drain.take("x".into()), "x");
    drain.record(true, d)
}

fn doc_host(default_harness: HarnessId) -> DocHost {
    DocHost::new(DocHostConfig { device_id: "d".into(), default_harness })
}

fn handle(snapshot_bytes: usize) -> ChatDocHandle {
    ChatDocHandle { chat_id: "c".into(), device_id: "d".into(), snapshot_bytes }
}
use comet::model::{
    Chat, ChatConfig, CommandBasedOn, CommandDisposition, EngineError, HarnessId, MessagePart,
    MessageRole, MessageStatus, ReasoningLevel, RunRequest, SandboxLevel, SessionCommandEntry,
    SessionCommandPayload, SessionCommandStatus, SessionMessageEntry, UserInputAnswer,
    UserInputQuestion,
};

fn question(id: &str, text: &str) -> UserInputQuestion {
    UserInputQuestion { id: id.into(), question: text.into() }
}

fn answer(id: &str, labels: &[&str]) -> UserInputAnswer {
    UserInputAnswer { question_id: id.into(), labels: labels.iter().map(|l| l.to_string()).collect() }
}

fn message(id: &str, role: MessageRole, status: Option<MessageStatus>, device: &str) -> SessionMessageEntry {
    SessionMessageEntry {
        id: id.into(),
        role,
        parts: vec![],
        created_at: 1,
        device_id: device.into(),
        status,
        continuation_of: None,
    }
}

fn request(prompt: &str) -> RunRequest {
    RunRequest {
        prompt: prompt.into(),
        harness: None,
        model: Some("m".into()),
        reasoning: Some(ReasoningLevel::High),
        model_options: vec![("k".into(), "v".into())],
        cwd: "/w".into(),
        sandbox: SandboxLevel::FullAccess,
        auto_approve: true,
        attachments: vec!["up1".into()],
        resume: Some("sess".into()),
    }
}

fn command(id: &str, status: SessionCommandStatus) -> SessionCommandEntry {
    SessionCommandEntry {
        id: id.into(),
        payload: SessionCommandPayload::Interrupt,
        issued_by: "d".into(),
        issued_at: 0,
        based_on: None,
        expires_at: None,
        status,
        resolution: None,
    }
}

fn chat() -> Chat {
    Chat {
        id: "c".into(),
        device_id: "d".into(),
        title: None,
        archived: true,
        cwd: Some("/w".into()),
        branch: None,
        checkout_id: None,
        config: None,
        last_message_preview: None,
        last_message_at: None,
        created_at: 0,
        harness_session_id: None,
        harness_session_cwd: None,
        space_id: None,
        last_seen_at: None,
    }
}

#[test]
fn respond_prompt_lists_answers() {
    let questions = vec![question("q1", "  Which branch?  "), question("q2", "   ")];
    let answers = vec![answer("q1", &["main", "dev"]), answer("q2", &["yes"]), answer("q9", &[])];
    assert_eq!(
        respond_input_prompt(&questions, &answers),
        "Answering your earlier question:\nWhich branch? — main, dev\nyes\n"
    );
    assert_eq!(respond_input_prompt(&questions, &vec![]), "Answering your earlier question:");
}

#[test]
fn user_message_written_once() {
    let entries = vec![message("m1", MessageRole::User, None, "d")];
    assert_eq!(handle(0).write_user_message(&entries, "m1", "hi", 3), None);
    let e = handle(0).write_user_message(&entries, "m2", "hi", 3).unwrap();
    assert_eq!(e.id, "m2");
    assert_eq!(e.role, MessageRole::User);
    assert_eq!(e.parts, vec![MessagePart::Text { id: "t0".into(), text: "hi".into() }]);
    assert_eq!(e.status, Some(MessageStatus::Complete));
    assert_eq!(e.created_at, 3);
}

#[test]
fn abandoned_streams_are_own_streaming_assistant_messages() {
    let entries = vec![
        message("a", MessageRole::Assistant, Some(MessageStatus::Streaming), "d"),
        message("b", MessageRole::Assistant, Some(MessageStatus::Streaming), "other"),
        message("c", MessageRole::User, Some(MessageStatus::Streaming), "d"),
        message("e", MessageRole::Assistant, Some(MessageStatus::Complete), "d"),
        message("f", MessageRole::Assistant, Some(MessageStatus::Streaming), "d"),
    ];
    assert_eq!(handle(0).mark_abandoned_streams(&entries), vec![0, 4]);
    assert_eq!(recovery_part_id("a"), "a-recovery");
}

#[test]
fn queued_command_expires_after_ttl() {
    let (e, unarchive) = doc_host(HarnessId::Claude).queue_command(
        "cmd".into(),
        SessionCommandPayload::Interrupt,
        1_000,
        60_000,
        Some("turn".into()),
        Some(&chat()),
    );
    assert!(!unarchive);
    assert_eq!(e.expires_at, Some(61_000));
    assert_eq!(e.status, SessionCommandStatus::Pending);
    assert_eq!(e.issued_by, "d");
    assert_eq!(e.issued_at, 1_000);
    assert_eq!(e.based_on, Some(CommandBasedOn { turn_id: Some("turn".into()), frontier: None }));
    let (e, unarchive) =
        doc_host(HarnessId::Claude).queue_command("cmd".into(), SessionCommandPayload::Interrupt, 0, 5, None, None);
    assert_eq!(e.based_on, None);
    assert!(!unarchive);
}

#[test]
fn queuing_a_message_unarchives_the_chat() {
    let host = doc_host(HarnessId::Claude);
    let steer = SessionCommandPayload::Steer { prompt: "p".into(), message_id: None };
    let (e, unarchive) = host.queue_command("s".into(), steer.clone(), 0, 5, None, Some(&chat()));
    assert_eq!(e.payload, steer);
    assert!(unarchive);
    let run = SessionCommandPayload::Run { request: request("go"), message_id: "m".into() };
    assert!(host.queue_command("r".into(), run.clone(), 0, 5, None, Some(&chat())).1);
    let mut active = chat();
    active.archived = false;
    assert!(!host.queue_command("r".into(), run.clone(), 0, 5, None, Some(&active)).1);
    assert!(!host.queue_command("r".into(), run, 0, 5, None, None).1);
    let answer_input = SessionCommandPayload::RespondInput { request_id: "q".into(), answers: vec![] };
    assert!(!host.queue_command("i".into(), answer_input, 0, 5, None, Some(&chat())).1);
}

#[test]
fn sending_unarchives() {
    let steer = SessionCommandPayload::Steer { prompt: "p".into(), message_id: None };
    assert!(unarchive_on_send(&steer, Some(&chat())));
    assert!(!unarchive_on_send(&SessionCommandPayload::Interrupt, Some(&chat())));
    let mut active = chat();
    active.archived = false;
    assert!(!unarchive_on_send(&steer, Some(&active)));
    assert!(!unarchive_on_send(&steer, None));
}

#[test]
fn drain_takes_first_unclaimed_pending_command() {
    let commands = vec![
        command("a", SessionCommandStatus::Applied),
        command("b", SessionCommandStatus::Pending),
        command("c", SessionCommandStatus::Pending),
        command("d", SessionCommandStatus::Pending),
    ];
    assert_eq!(next_pending_command(&commands, &vec![], &vec![false; 4]), Some(1));
    assert_eq!(
        next_pending_command(&commands, &vec!["b".into()], &vec![false; 4]),
        Some(2)
    );
    assert_eq!(
        next_pending_command(&commands, &vec!["b".into()], &vec![false, false, true, false]),
        Some(3)
    );
    assert_eq!(next_pending_command(&commands, &vec![], &vec![true; 4]), None);
}

#[test]
fn claimed_command_is_not_taken_again() {
    let commands = vec![command("a", SessionCommandStatus::Pending), command("b", SessionCommandStatus::Pending)];
    let first = next_pending_command(&commands, &vec![], &vec![false, false]).unwrap();
    let claimed: Vec<bool> = commands.iter().map(|c| c.id == commands[first].id).collect();
    let second = next_pending_command(&commands, &vec![], &claimed).unwrap();
    assert_ne!(commands[second].id, commands[first].id);
}

#[test]
fn dispositions_and_outcomes() {
    assert_eq!(drain_action(CommandDisposition::Skip), DrainAction::Skip);
    assert_eq!(
        drain_action(CommandDisposition::Expired),
        DrainAction::Resolve(SessionCommandStatus::Expired)
    );
    assert_eq!(
        drain_action(CommandDisposition::Superseded),
        DrainAction::Resolve(SessionCommandStatus::Superseded)
    );
    assert_eq!(drain_action(CommandDisposition::Execute), DrainAction::Execute);
    assert_eq!(
        execution_outcome(Err(EngineError::Other("boom".into()))),
        (SessionCommandStatus::Rejected, Some("boom".to_string()))
    );
    assert_eq!(
        execution_outcome(Ok((SessionCommandStatus::Applied, None))),
        (SessionCommandStatus::Applied, None)
    );
}

#[test]
fn harness_choice() {
    let config = ChatConfig {
        harness: HarnessId::Cursor,
        model: None,
        reasoning: None,
        model_options: vec![],
        sandbox: SandboxLevel::ReadOnly,
    };
    assert_eq!(doc_host(HarnessId::Claude).harness_for(Some(&config)), HarnessId::Cursor);
    assert_eq!(doc_host(HarnessId::Claude).harness_for(None), HarnessId::Claude);
    let mut r = request("p");
    assert_eq!(doc_host(HarnessId::Claude).harness_for_request(&r, Some(&config)), HarnessId::Cursor);
    r.harness = Some(HarnessId::Pi);
    assert_eq!(doc_host(HarnessId::Claude).harness_for_request(&r, Some(&config)), HarnessId::Pi);
    let c = run_chat_config(&r, HarnessId::Grok);
    assert_eq!(c.harness, HarnessId::Grok);
    assert_eq!(c.model.as_deref(), Some("m"));
    assert_eq!(c.model_options, vec![("k".to_string(), "v".to_string())]);
    assert_eq!(c.sandbox, SandboxLevel::FullAccess);
}

#[test]
fn row_request_defaults() {
    assert_eq!(doc_host(HarnessId::Claude).request_from_chat_row(None, "p"), None);
    let r = doc_host(HarnessId::Claude).request_from_chat_row(Some(chat()), "p").unwrap();
    assert_eq!(r.prompt, "p");
    assert_eq!(r.cwd, "/w");
    assert_eq!(r.harness, None);
    assert_eq!(r.sandbox, SandboxLevel::WorkspaceWrite);
    assert!(!r.auto_approve);
    let mut c = chat();
    c.cwd = None;
    c.config = Some(ChatConfig {
        harness: HarnessId::Hermes,
        model: Some("x".into()),
        reasoning: Some(ReasoningLevel::Low),
        model_options: vec![],
        sandbox: SandboxLevel::ReadOnly,
    });
    let r = doc_host(HarnessId::Claude).request_from_chat_row(Some(c), "").unwrap();
    assert_eq!(r.cwd, "");
    assert_eq!(r.harness, Some(HarnessId::Hermes));
    assert_eq!(r.model.as_deref(), Some("x"));
    assert_eq!(r.sandbox, SandboxLevel::ReadOnly);
}

#[test]
fn steer_fallback_requeues_or_rejects() {
    assert_eq!(
        steer_fallback(None, None, "p"),
        Fallback::Reject("no live run and no prior run config".into())
    );
    match steer_fallback(Some(request("old")), Some(request("row")), "new") {
        Fallback::Dispatch { request, note } => {
            assert_eq!(request.prompt, "new");
            assert_eq!(request.resume, None);
            assert!(request.attachments.is_empty());
            assert_eq!(request.cwd, "/w");
            assert!(request.auto_approve);
            assert_eq!(note, "queued as new turn");
        }
        other => panic!("unexpected {other:?}"),
    }
}

#[test]
fn orphaned_answers_become_a_new_turn() {
    let mut asked = message("m1", MessageRole::Assistant, Some(MessageStatus::Complete), "d");
    asked.parts = vec![
        MessagePart::Input { request_id: "r1".into(), questions: vec![question("q", "Old?")], resolved: true },
        MessagePart::Input { request_id: "r1".into(), questions: vec![question("q", "Go?")], resolved: false },
    ];
    let mut streaming = message("m2", MessageRole::Assistant, Some(MessageStatus::Streaming), "d");
    streaming.parts = vec![MessagePart::Input {
        request_id: "r1".into(),
        questions: vec![question("q", "Streaming?")],
        resolved: false,
    }];
    let entries = vec![asked, streaming];
    let found = pending_input_questions(&entries, "r1").unwrap();
    assert_eq!(found, vec![question("q", "Go?")]);
    assert_eq!(pending_input_questions(&entries, "r2"), None);

    let answers = vec![answer("q", &["yes"])];
    assert_eq!(
        respond_input_fallback(None, Some(request("x")), None, &answers),
        Fallback::Reject("no pending input request".into())
    );
    assert_eq!(
        respond_input_fallback(Some(found.clone()), None, None, &answers),
        Fallback::Reject("no pending input request and no prior run config".into())
    );
    match respond_input_fallback(Some(found), None, Some(request("row")), &answers) {
        Fallback::Dispatch { request, note } => {
            assert_eq!(request.prompt, "Answering your earlier question:\nGo? — yes");
            assert_eq!(note, "answered as new turn");
            assert_eq!(request.resume, None);
        }
        other => panic!("unexpected {other:?}"),
    }
}

#[test]
fn pinning_rules() {
    let commands = vec![command("a", SessionCommandStatus::Pending)];
    assert!(doc_host(HarnessId::Claude).pinned(1, 1, false, None, &vec![]));
    assert!(doc_host(HarnessId::Claude).pinned(0, 2, false, None, &vec![]));
    assert!(!doc_host(HarnessId::Claude).pinned(0, 1, false, None, &vec![]));
    assert!(doc_host(HarnessId::Claude).pinned(0, 1, true, None, &vec![]));
    assert!(doc_host(HarnessId::Claude).pinned(0, 1, true, Some(&commands), &vec![false]));
    assert!(!doc_host(HarnessId::Claude).pinned(0, 1, true, Some(&commands), &vec![true]));
    assert_eq!(handle(10).resident_estimate(), 512 * 1024);
    assert_eq!(handle(1_000_000).resident_estimate(), 6_000_000);
}

#[test]
fn skipped_command_is_passed_over_for_the_rest_of_the_pass() {
    let commands = vec![command("a", SessionCommandStatus::Pending), command("b", SessionCommandStatus::Pending)];
    let processed = vec![false, false];
    let mut drain = CommandDrain::new();
    let first = drain.next_command(&commands, &processed).unwrap();
    assert_eq!(first, 0);
    assert_eq!(drain.take("a".into()), "a");
    assert_eq!(drain.record(true, CommandDisposition::Skip), DrainAction::Skip);
    assert_eq!(drain.skipped, vec!["a".to_string()]);
    assert_eq!(drain.next_command(&commands, &processed), Some(1));
    assert_eq!(drain.take("b".into()), "b");
    assert_eq!(
        drain.record(true, CommandDisposition::Execute),
        DrainAction::Execute
    );
    assert_eq!(drain.skipped.len(), 1);
    assert_eq!(drain.taken, None);
}

#[test]
fn nothing_executes_without_a_ledger_claim() {
    let mut drain = CommandDrain::new();
    assert_eq!(drain.record(true, CommandDisposition::Execute), DrainAction::Halt);
    assert_eq!(drain.take("a".into()), "a");
    assert_eq!(drain.taken, Some("a".to_string()));
    assert_eq!(drain.record(false, CommandDisposition::Execute), DrainAction::Halt);
    assert_eq!(drain.taken, None);
    assert_eq!(drain.take("b".into()), "b");
    assert_eq!(drain.record(false, CommandDisposition::Skip), DrainAction::Halt);
    assert!(drain.skipped.is_empty());
}

#[test]
fn drain_runs_only_with_sessions_for_hosted_chats() {
    assert!(drain_should_run(true, true));
    assert!(!drain_should_run(false, true));
    assert!(!drain_should_run(true, false));
    assert!(!drain_should_run(false, false));
}

#[test]
fn config_is_backfilled_only_onto_chats_without_one() {
    let r = request("go");
    let c = config_backfill(None, &r, HarnessId::Grok).unwrap();
    assert_eq!(c.harness, HarnessId::Grok);
    assert_eq!(c.model, Some("m".to_string()));
    assert_eq!(c.model_options, vec![("k".to_string(), "v".to_string())]);
    assert_eq!(c.sandbox, SandboxLevel::FullAccess);
    assert_eq!(config_backfill(Some(&c), &r, HarnessId::Claude), None);
}

#[test]
fn delivered_commands_are_applied_unless_rejected() {
    assert_eq!(delivery_outcome(Delivery::Live), (SessionCommandStatus::Applied, None));
    assert_eq!(
        delivery_outcome(Delivery::Fallback(Fallback::Dispatch {
            request: request("go"),
            note: "queued as new turn".into(),
        })),
        (SessionCommandStatus::Applied, Some("queued as new turn".to_string()))
    );
    assert_eq!(
        delivery_outcome(Delivery::Fallback(Fallback::Reject("no pending input request".into()))),
        (SessionCommandStatus::Rejected, Some("no pending input request".to_string()))
    );
}

#[test]
fn a_drain_pass_ends_after_each_command_is_claimed() {
    let commands = vec![
        command("a", SessionCommandStatus::Pending),
        command("b", SessionCommandStatus::Applied),
        command("c", SessionCommandStatus::Pending),
    ];
    let mut processed = vec![false; 3];
    let mut drain = CommandDrain::new();
    let mut steps = 0;
    while let Some(i) = drain.next_command(&commands, &processed) {
        let claim = drain.take(commands[i].id.clone());
        for (k, c) in commands.iter().enumerate() {
            if c.id == claim {
                processed[k] = true;
            }
        }
        let d = if i == 0 { CommandDisposition::Skip } else { CommandDisposition::Execute };
        assert_ne!(drain.record(true, d), DrainAction::Halt);
        steps += 1;
        assert!(steps <= 2);
    }
    assert_eq!(steps, 2);
    assert_eq!(processed, vec![true, false, true]);
}
