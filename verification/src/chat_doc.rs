//! Rules of a chat document: the user-message and recovery writes, the
//! command queue (what is queued, which command runs next, what each outcome
//! writes back), the fallbacks taken when a command cannot reach a live run,
//! and which open documents may be evicted from memory.

use vstd::prelude::*;

use crate::model::{
    Chat, ChatConfig, CommandBasedOn, CommandDisposition, EngineError, HarnessId, MessagePart,
    MessageRole, MessageStatus, RunRequest, SandboxLevel, SessionCommandEntry,
    SessionCommandPayload, SessionCommandStatus, SessionMessageEntry, UserInputAnswer,
    UserInputQuestion,
};
use crate::text::{str_eq, trim, trim_str};

verus! {

/// The texts joined with `sep` between them (`[T]::join`).
pub open spec fn join_with(items: Seq<Seq<char>>, sep: Seq<char>) -> Seq<char>
    decreases items.len(),
{
    if items.len() == 0 {
        Seq::empty()
    } else if items.len() == 1 {
        items[0]
    } else {
        join_with(items.drop_last(), sep) + sep + items.last()
    }
}

/// The views of a list of strings.
pub open spec fn texts(v: Seq<String>) -> Seq<Seq<char>> {
    v.map_values(|s: String| s@)
}

/// The first question with the given id, from position `i` on.
pub open spec fn find_question_from(
    questions: Seq<UserInputQuestion>,
    id: Seq<char>,
    i: int,
) -> Option<UserInputQuestion>
    decreases questions.len() - i,
{
    if i < 0 || i >= questions.len() {
        None
    } else if questions[i].id@ == id {
        Some(questions[i])
    } else {
        find_question_from(questions, id, i + 1)
    }
}

/// The line an answer contributes: its picked labels joined by `", "`,
/// after the trimmed question text and `" — "` when the first question with
/// its id has non-blank text.
pub open spec fn answer_line(questions: Seq<UserInputQuestion>, a: UserInputAnswer) -> Seq<char> {
    let picked = join_with(texts(a.labels@), ", "@);
    match find_question_from(questions, a.question_id@, 0) {
        Some(q) => if trim(q.question@).len() > 0 {
            trim(q.question@) + " — "@ + picked
        } else {
            picked
        },
        None => picked,
    }
}

/// The prompt that answers an orphaned question as a new turn: a header line,
/// then one line per answer.
pub open spec fn respond_input_text(
    questions: Seq<UserInputQuestion>,
    answers: Seq<UserInputAnswer>,
) -> Seq<char> {
    join_with(
        seq!["Answering your earlier question:"@] + answers.map_values(
            |a: UserInputAnswer| answer_line(questions, a),
        ),
        "\n"@,
    )
}

proof fn lemma_join_push(items: Seq<Seq<char>>, x: Seq<char>, sep: Seq<char>)
    requires
        items.len() >= 1,
    ensures
        join_with(items.push(x), sep) == join_with(items, sep) + sep + x,
{
    assert(items.push(x).drop_last() =~= items);
}

fn join_labels(labels: &Vec<String>) -> (r: String)
    ensures
        r@ == join_with(texts(labels@), ", "@),
{
    let mut s = String::new();
    let mut k: usize = 0;
    while k < labels.len()
        invariant
            k <= labels.len(),
            s@ == join_with(texts(labels@.take(k as int)), ", "@),
        decreases labels.len() - k,
    {
        let ghost prev = texts(labels@.take(k as int));
        assert(texts(labels@.take(k + 1)) =~= prev.push(labels@[k as int]@));
        if k > 0 {
            s.append(", ");
            proof {
                lemma_join_push(prev, labels@[k as int]@, ", "@);
            }
        } else {
            assert(prev.push(labels@[k as int]@).len() == 1);
        }
        s.append(labels[k].as_str());
        k = k + 1;
    }
    assert(labels@.take(labels.len() as int) =~= labels@);
    s
}

fn find_question(questions: &Vec<UserInputQuestion>, id: &str) -> (r: Option<usize>)
    ensures
        r matches Some(k) ==> k < questions.len() && find_question_from(questions@, id@, 0)
            == Some(questions@[k as int]),
        r is None ==> find_question_from(questions@, id@, 0) is None,
{
    let mut k: usize = 0;
    while k < questions.len()
        invariant
            k <= questions.len(),
            find_question_from(questions@, id@, 0) == find_question_from(
                questions@,
                id@,
                k as int,
            ),
        decreases questions.len() - k,
    {
        if str_eq(questions[k].id.as_str(), id) {
            return Some(k);
        }
        k = k + 1;
    }
    None
}

fn answer_line_exec(questions: &Vec<UserInputQuestion>, a: &UserInputAnswer) -> (r: String)
    ensures
        r@ == answer_line(questions@, *a),
{
    let picked = join_labels(&a.labels);
    match find_question(questions, a.question_id.as_str()) {
        Some(k) => {
            let q = trim_str(questions[k].question.as_str());
            if q.unicode_len() > 0 {
                let mut line = String::from_str(q);
                line.append(" — ");
                line.append(picked.as_str());
                line
            } else {
                picked
            }
        },
        None => picked,
    }
}

/// The prompt sent when the user answers a question whose run is gone.
pub fn respond_input_prompt(
    questions: &Vec<UserInputQuestion>,
    answers: &Vec<UserInputAnswer>,
) -> (r: String)
    ensures
        r@ == respond_input_text(questions@, answers@),
{
    let ghost header = seq!["Answering your earlier question:"@];
    let ghost f = |a: UserInputAnswer| answer_line(questions@, a);
    let mut s = String::from_str("Answering your earlier question:");
    let mut k: usize = 0;
    while k < answers.len()
        invariant
            k <= answers.len(),
            f == (|a: UserInputAnswer| answer_line(questions@, a)),
            header == seq!["Answering your earlier question:"@],
            s@ == join_with(header + answers@.take(k as int).map_values(f), "\n"@),
        decreases answers.len() - k,
    {
        let ghost prev = header + answers@.take(k as int).map_values(f);
        assert(header + answers@.take(k + 1).map_values(f) =~= prev.push(
            answer_line(questions@, answers@[k as int]),
        ));
        proof {
            lemma_join_push(prev, answer_line(questions@, answers@[k as int]), "\n"@);
        }
        let line = answer_line_exec(questions, &answers[k]);
        s.append("\n");
        s.append(line.as_str());
        k = k + 1;
    }
    assert(answers@.take(answers.len() as int) =~= answers@);
    s
}


/// Whether some entry of the transcript has this id.
pub open spec fn has_entry(entries: Seq<SessionMessageEntry>, id: Seq<char>) -> bool {
    exists|k: int| 0 <= k < entries.len() && (#[trigger] entries[k]).id@ == id
}


/// An assistant message this device was still streaming.
pub open spec fn is_abandoned_stream(e: SessionMessageEntry, device_id: Seq<char>) -> bool {
    e.role == MessageRole::Assistant && e.status == Some(MessageStatus::Streaming) && e.device_id@
        == device_id
}


/// The id of the error part that records why a stream was abandoned.
pub fn recovery_part_id(message_id: &str) -> (r: String)
    ensures
        r@ == message_id@ + "-recovery"@,
{
    let mut s = String::from_str(message_id);
    s.append("-recovery");
    s
}

/// Whether a command carries a user message (a run or a steer).
pub open spec fn is_message_payload(p: SessionCommandPayload) -> bool {
    p is Run || p is Steer
}


/// Sending a message to an archived chat brings the chat back.
pub fn unarchive_on_send(payload: &SessionCommandPayload, chat: Option<&Chat>) -> (r: bool)
    ensures
        r == (is_message_payload(*payload) && (chat matches Some(c) && c.archived)),
{
    let is_message = match payload {
        SessionCommandPayload::Run { .. } => true,
        SessionCommandPayload::Steer { .. } => true,
        _ => false,
    };
    match chat {
        Some(c) => is_message && c.archived,
        None => false,
    }
}

/// Whether `id` is among the skipped command ids.
pub open spec fn skipped_has(skipped: Seq<String>, id: Seq<char>) -> bool {
    exists|j: int| 0 <= j < skipped.len() && (#[trigger] skipped[j])@ == id
}

/// A command the drain may take up: pending, not skipped in this pass, not
/// recorded in the processed ledger.
pub open spec fn drainable(c: SessionCommandEntry, skipped: Seq<String>, processed: bool) -> bool {
    c.status == SessionCommandStatus::Pending && !skipped_has(skipped, c.id@) && !processed
}

/// The first drainable command from position `i` on.
pub open spec fn next_drainable_from(
    commands: Seq<SessionCommandEntry>,
    skipped: Seq<String>,
    processed: Seq<bool>,
    i: int,
) -> Option<int>
    decreases commands.len() - i,
{
    if i < 0 || i >= commands.len() {
        None
    } else if drainable(commands[i], skipped, processed[i]) {
        Some(i)
    } else {
        next_drainable_from(commands, skipped, processed, i + 1)
    }
}

fn skipped_contains(skipped: &Vec<String>, id: &str) -> (r: bool)
    ensures
        r == skipped_has(skipped@, id@),
{
    let mut j: usize = 0;
    while j < skipped.len()
        invariant
            j <= skipped.len(),
            forall|k: int| 0 <= k < j ==> (#[trigger] skipped@[k])@ != id@,
        decreases skipped.len() - j,
    {
        if str_eq(skipped[j].as_str(), id) {
            assert(skipped@[j as int]@ == id@);
            return true;
        }
        j = j + 1;
    }
    false
}

/// What the drain does with the command it took up, once the ledger's
/// answer to the claim is known.
#[derive(Clone, Copy, Debug, PartialEq, Eq, Structural)]
pub enum DrainAction {
    /// Leave it pending and pass over it for the rest of this drain.
    Skip,
    /// Write this final status, with no resolution note.
    Resolve(SessionCommandStatus),
    /// Hand it to the sessions engine.
    Execute,
    /// No claim stands in the processed ledger: stop the drain, doing
    /// nothing with the command.
    Halt,
}

/// The action for an evaluator's disposition of a claimed command.
pub open spec fn claimed_action(d: CommandDisposition) -> DrainAction {
    match d {
        CommandDisposition::Skip => DrainAction::Skip,
        CommandDisposition::Expired => DrainAction::Resolve(SessionCommandStatus::Expired),
        CommandDisposition::Superseded => DrainAction::Resolve(SessionCommandStatus::Superseded),
        CommandDisposition::Execute => DrainAction::Execute,
    }
}

/// One pass of the command drain: the commands it passed over so far, and
/// the command it took up whose ledger claim is still to be settled.
#[derive(Clone, Debug, PartialEq)]
pub struct CommandDrain {
    pub skipped: Vec<String>,
    pub taken: Option<String>,
}

impl CommandDrain {
    /// A new pass, having skipped nothing and taken up nothing.
    pub fn new() -> (d: CommandDrain)
        ensures
            d.skipped@.len() == 0,
            d.taken is None,
    {
        CommandDrain { skipped: Vec::new(), taken: None }
    }

    /// The command the drain takes up next: the first pending command not
    /// skipped in this pass and not in the processed ledger (`processed[i]` is
    /// the ledger's answer for `commands[i]`).
    pub fn next_command(
        &self,
        commands: &Vec<SessionCommandEntry>,
        processed: &Vec<bool>,
    ) -> (r: Option<usize>)
        requires
            processed.len() == commands.len(),
        ensures
            r matches Some(i) ==> next_drainable_from(commands@, self.skipped@, processed@, 0) == Some(
                i as int,
            ),
            r is None ==> next_drainable_from(commands@, self.skipped@, processed@, 0) is None,
    {
        let mut i: usize = 0;
        while i < commands.len()
            invariant
                i <= commands.len(),
                processed.len() == commands.len(),
                next_drainable_from(commands@, self.skipped@, processed@, 0) == next_drainable_from(
                    commands@,
                    self.skipped@,
                    processed@,
                    i as int,
                ),
            decreases commands.len() - i,
        {
            let c = &commands[i];
            if c.status == SessionCommandStatus::Pending && !skipped_contains(&self.skipped, c.id.as_str())
                && !processed[i] {
                return Some(i);
            }
            i = i + 1;
        }
        None
    }

    /// Takes up a command: the drain remembers it and hands back the id to
    /// record in the processed ledger, which must happen before anything is
    /// done with the command.
    pub fn take(&mut self, command_id: String) -> (claim: String)
        ensures
            claim == command_id,
            final(self).taken == Some(command_id),
            final(self).skipped@ == old(self).skipped@,
    {
        let claim = command_id.clone();
        self.taken = Some(command_id);
        claim
    }

    /// The drain's action once the ledger has answered the claim
    /// (`claimed`: the write succeeded) and the evaluator has given its
    /// disposition. Without a command taken up and a claim written, the drain
    /// halts; otherwise the disposition decides, and a skipped command is
    /// remembered for the rest of the pass. Either way nothing stays taken.
    pub fn record(&mut self, claimed: bool, d: CommandDisposition) -> (r: DrainAction)
        ensures
            !claimed || old(self).taken is None ==> r == DrainAction::Halt && final(self).skipped@
                == old(self).skipped@,
            claimed && old(self).taken is Some ==> r == claimed_action(d),
            claimed && d == CommandDisposition::Skip && old(self).taken is Some
                ==> final(self).skipped@ == old(self).skipped@.push(old(self).taken->0),
            d != CommandDisposition::Skip ==> final(self).skipped@ == old(self).skipped@,
            r != DrainAction::Halt ==> claimed && old(self).taken is Some,
            final(self).taken is None,
    {
        let taken = self.taken.take();
        let id = match taken {
            Some(id) => id,
            None => return DrainAction::Halt,
        };
        if !claimed {
            return DrainAction::Halt;
        }
        match d {
            CommandDisposition::Skip => {
                self.skipped.push(id);
                DrainAction::Skip
            },
            CommandDisposition::Expired => DrainAction::Resolve(SessionCommandStatus::Expired),
            CommandDisposition::Superseded => DrainAction::Resolve(SessionCommandStatus::Superseded),
            CommandDisposition::Execute => DrainAction::Execute,
        }
    }
}

/// Whether this device drains a chat's commands at all: only with a
/// sessions engine to execute them, and only for a chat it hosts.
pub fn drain_should_run(has_sessions: bool, is_host: bool) -> (r: bool)
    ensures
        r == (has_sessions && is_host),
{
    has_sessions && is_host
}

/// The status and note written after executing a command: the executor's
/// own outcome, or a rejection carrying the error's message.
pub fn execution_outcome(
    result: Result<(SessionCommandStatus, Option<String>), EngineError>,
) -> (r: (SessionCommandStatus, Option<String>))
    ensures
        r == (match result {
            Ok(outcome) => outcome,
            Err(EngineError::Other(m)) => (SessionCommandStatus::Rejected, Some(m)),
        }),
{
    match result {
        Ok(outcome) => outcome,
        Err(EngineError::Other(m)) => (SessionCommandStatus::Rejected, Some(m)),
    }
}


fn copy_text_opt(s: &Option<String>) -> (r: Option<String>)
    ensures
        r == *s,
{
    match s {
        Some(t) => Some(t.clone()),
        None => None,
    }
}

fn copy_options(v: &Vec<(String, String)>) -> (r: Vec<(String, String)>)
    ensures
        r@ == v@,
{
    let mut r: Vec<(String, String)> = Vec::new();
    let mut k: usize = 0;
    while k < v.len()
        invariant
            k <= v.len(),
            r@ == v@.take(k as int),
        decreases v.len() - k,
    {
        let (a, b) = &v[k];
        r.push((a.clone(), b.clone()));
        assert(v@.take(k + 1) =~= v@.take(k as int).push(v@[k as int]));
        k = k + 1;
    }
    assert(v@.take(v.len() as int) =~= v@);
    r
}

/// The configuration backfilled onto a chat that had none, from the run that
/// claimed it.
pub fn run_chat_config(request: &RunRequest, harness: HarnessId) -> (c: ChatConfig)
    ensures
        c == (ChatConfig {
            harness,
            model: request.model,
            reasoning: request.reasoning,
            model_options: c.model_options,
            sandbox: request.sandbox,
        }),
        c.model_options@ == request.model_options@,
{
    ChatConfig {
        harness,
        model: copy_text_opt(&request.model),
        reasoning: request.reasoning,
        model_options: copy_options(&request.model_options),
        sandbox: request.sandbox,
    }
}



/// The configuration a run backfills onto its chat: the run's, when the chat
/// has none stored (`existing`); nothing when it has one, which is kept.
pub fn config_backfill(
    existing: Option<&ChatConfig>,
    request: &RunRequest,
    harness: HarnessId,
) -> (r: Option<ChatConfig>)
    ensures
        existing is Some ==> r is None,
        existing is None ==> (r matches Some(c) && c == (ChatConfig {
            harness,
            model: request.model,
            reasoning: request.reasoning,
            model_options: c.model_options,
            sandbox: request.sandbox,
        }) && c.model_options@ == request.model_options@),
{
    match existing {
        Some(_) => None,
        None => Some(run_chat_config(request, harness)),
    }
}

/// The request rebuilt from a chat's registry row when no live run is left to
/// copy: its stored configuration (workspace-write sandbox when none), its
/// directory (empty when none), no attachments, no resume, no auto-approval.
pub open spec fn is_row_request(r: RunRequest, chat: Chat, prompt: Seq<char>) -> bool {
    &&& r.prompt@ == prompt
    &&& r.harness == (match chat.config {
        Some(c) => Some(c.harness),
        None => None,
    })
    &&& r.model == (match chat.config {
        Some(c) => c.model,
        None => None,
    })
    &&& r.reasoning == (match chat.config {
        Some(c) => c.reasoning,
        None => None,
    })
    &&& r.model_options@ == (match chat.config {
        Some(c) => c.model_options@,
        None => Seq::empty(),
    })
    &&& r.cwd@ == (match chat.cwd {
        Some(d) => d@,
        None => Seq::empty(),
    })
    &&& r.sandbox == (match chat.config {
        Some(c) => c.sandbox,
        None => SandboxLevel::WorkspaceWrite,
    })
    &&& !r.auto_approve
    &&& r.attachments@.len() == 0
    &&& r.resume is None
}


/// What a command that could not reach a live run turns into.
#[derive(Clone, Debug, PartialEq)]
pub enum Fallback {
    /// Reject the command with this note.
    Reject(String),
    /// Dispatch this request as a new turn; the command is applied with the note.
    Dispatch { request: RunRequest, note: String },
}

/// `request` as a fresh turn with `prompt`: nothing resumed, nothing attached.
pub open spec fn as_new_turn(request: RunRequest, prompt: Seq<char>, r: RunRequest) -> bool {
    &&& r.prompt@ == prompt
    &&& r.resume is None
    &&& r.attachments@.len() == 0
    &&& r == (RunRequest {
        prompt: r.prompt,
        resume: r.resume,
        attachments: r.attachments,
        ..request
    })
}

/// A steer that found no steerable run: rejected when there is neither a
/// previous request nor a chat row to rebuild one from, else the previous
/// request (the chat row's otherwise) re-sent as a new turn with the steer's
/// prompt.
pub fn steer_fallback(
    last_request: Option<RunRequest>,
    row_request: Option<RunRequest>,
    prompt: &str,
) -> (r: Fallback)
    ensures
        last_request is None && row_request is None ==> (r matches Fallback::Reject(m) && m@
            == "no live run and no prior run config"@),
        (last_request is Some || row_request is Some) ==> (r matches Fallback::Dispatch {
            request,
            note,
        } && as_new_turn(
            match last_request {
                Some(q) => q,
                None => row_request->0,
            },
            prompt@,
            request,
        ) && note@ == "queued as new turn"@),
{
    let request = match last_request {
        Some(q) => q,
        None => match row_request {
            Some(q) => q,
            None => return Fallback::Reject(String::from_str("no live run and no prior run config")),
        },
    };
    let mut request = request;
    request.prompt = String::from_str(prompt);
    request.resume = None;
    request.attachments = Vec::new();
    Fallback::Dispatch { request, note: String::from_str("queued as new turn") }
}

/// How the sessions engine took a command it accepted.
#[derive(Clone, Debug, PartialEq)]
pub enum Delivery {
    /// A live run took it: dispatched, steered, interrupted or answered.
    Live,
    /// No live run took it, and this is what became of it (a dispatch here
    /// being one the engine accepted).
    Fallback(Fallback),
}

/// The status and note written for a delivered command: a live delivery is
/// applied with no note; a fallback dispatch is applied with its note; a
/// fallback rejection is rejected with its note.
pub fn delivery_outcome(d: Delivery) -> (r: (SessionCommandStatus, Option<String>))
    ensures
        r == (match d {
            Delivery::Live => (SessionCommandStatus::Applied, None),
            Delivery::Fallback(Fallback::Dispatch { note, .. }) => (
                SessionCommandStatus::Applied,
                Some(note),
            ),
            Delivery::Fallback(Fallback::Reject(m)) => (SessionCommandStatus::Rejected, Some(m)),
        }),
{
    match d {
        Delivery::Live => (SessionCommandStatus::Applied, None),
        Delivery::Fallback(Fallback::Dispatch { note, .. }) => (SessionCommandStatus::Applied, Some(note)),
        Delivery::Fallback(Fallback::Reject(m)) => (SessionCommandStatus::Rejected, Some(m)),
    }
}

/// The questions of the unresolved input request `request_id` in the newest
/// non-streaming message that has one, searching messages `..end` backwards.
pub open spec fn pending_questions_before(
    entries: Seq<SessionMessageEntry>,
    request_id: Seq<char>,
    end: int,
) -> Option<Seq<UserInputQuestion>>
    decreases end,
{
    if end <= 0 || end > entries.len() {
        None
    } else {
        let e = entries[end - 1];
        if e.status != Some(MessageStatus::Streaming) && input_part_index(e.parts@, request_id, 0)
            is Some {
            Some(questions_of(e.parts@[input_part_index(e.parts@, request_id, 0)->0]))
        } else {
            pending_questions_before(entries, request_id, end - 1)
        }
    }
}

/// The questions of an input part.
pub open spec fn questions_of(p: MessagePart) -> Seq<UserInputQuestion> {
    match p {
        MessagePart::Input { questions, .. } => questions@,
        _ => Seq::empty(),
    }
}

/// Whether a part is the unresolved input request `request_id`.
pub open spec fn is_open_input(p: MessagePart, request_id: Seq<char>) -> bool {
    p matches MessagePart::Input { request_id: id, resolved, .. } && id@ == request_id && !resolved
}

/// The first open input part for `request_id`, from position `i` on.
pub open spec fn input_part_index(parts: Seq<MessagePart>, request_id: Seq<char>, i: int) -> Option<
    int,
>
    decreases parts.len() - i,
{
    if i < 0 || i >= parts.len() {
        None
    } else if is_open_input(parts[i], request_id) {
        Some(i)
    } else {
        input_part_index(parts, request_id, i + 1)
    }
}

proof fn lemma_input_part_index(parts: Seq<MessagePart>, request_id: Seq<char>, i: int)
    requires
        input_part_index(parts, request_id, i) is Some,
    ensures
        0 <= input_part_index(parts, request_id, i)->0 < parts.len(),
        is_open_input(parts[input_part_index(parts, request_id, i)->0], request_id),
    decreases parts.len() - i,
{
    if 0 <= i < parts.len() && !is_open_input(parts[i], request_id) {
        lemma_input_part_index(parts, request_id, i + 1);
    }
}

fn find_open_input(parts: &Vec<MessagePart>, request_id: &str) -> (r: Option<usize>)
    ensures
        r matches Some(k) ==> k < parts.len() && input_part_index(parts@, request_id@, 0) == Some(
            k as int,
        ),
        r is None ==> input_part_index(parts@, request_id@, 0) is None,
{
    let mut k: usize = 0;
    while k < parts.len()
        invariant
            k <= parts.len(),
            input_part_index(parts@, request_id@, 0) == input_part_index(
                parts@,
                request_id@,
                k as int,
            ),
        decreases parts.len() - k,
    {
        match &parts[k] {
            MessagePart::Input { request_id: id, resolved, .. } => {
                if !*resolved && str_eq(id.as_str(), request_id) {
                    return Some(k);
                }
            },
            _ => {},
        }
        k = k + 1;
    }
    None
}

fn copy_questions(v: &Vec<UserInputQuestion>) -> (r: Vec<UserInputQuestion>)
    ensures
        r@ == v@,
{
    let mut r: Vec<UserInputQuestion> = Vec::new();
    let mut k: usize = 0;
    while k < v.len()
        invariant
            k <= v.len(),
            r@ == v@.take(k as int),
        decreases v.len() - k,
    {
        r.push(UserInputQuestion { id: v[k].id.clone(), question: v[k].question.clone() });
        assert(v@.take(k + 1) =~= v@.take(k as int).push(v@[k as int]));
        k = k + 1;
    }
    assert(v@.take(v.len() as int) =~= v@);
    r
}

/// The questions of the still-open input request `request_id`, looked up in
/// the transcript when the live run no longer knows it.
pub fn pending_input_questions(entries: &Vec<SessionMessageEntry>, request_id: &str) -> (r: Option<
    Vec<UserInputQuestion>,
>)
    ensures
        r matches Some(q) ==> pending_questions_before(entries@, request_id@, entries@.len() as int)
            == Some(q@),
        r is None ==> pending_questions_before(entries@, request_id@, entries@.len() as int) is None,
{
    let mut end: usize = entries.len();
    while end > 0
        invariant
            end <= entries.len(),
            pending_questions_before(entries@, request_id@, entries@.len() as int)
                == pending_questions_before(entries@, request_id@, end as int),
        decreases end,
    {
        let e = &entries[end - 1];
        if e.status != Some(MessageStatus::Streaming) {
            if let Some(k) = find_open_input(&e.parts, request_id) {
                proof {
                    lemma_input_part_index(e.parts@, request_id@, 0);
                }
                match &e.parts[k] {
                    MessagePart::Input { questions, .. } => {
                        return Some(copy_questions(questions));
                    },
                    _ => {
                        return None;
                    },
                }
            }
        }
        end = end - 1;
    }
    None
}

/// An answer to an input request its run no longer holds: rejected when the
/// request is not open in the transcript, or when there is neither a previous
/// request nor a chat row; else the previous request (the chat row's
/// otherwise) re-sent as a new turn whose prompt states the answers.
pub fn respond_input_fallback(
    questions: Option<Vec<UserInputQuestion>>,
    last_request: Option<RunRequest>,
    row_request: Option<RunRequest>,
    answers: &Vec<UserInputAnswer>,
) -> (r: Fallback)
    ensures
        questions is None ==> (r matches Fallback::Reject(m) && m@ == "no pending input request"@),
        questions is Some && last_request is None && row_request is None ==> (r matches Fallback::Reject(
            m,
        ) && m@ == "no pending input request and no prior run config"@),
        questions is Some && (last_request is Some || row_request is Some) ==> (r matches Fallback::Dispatch { request, note } && as_new_turn(
            match last_request {
                Some(q) => q,
                None => row_request->0,
            },
            respond_input_text(questions->0@, answers@),
            request,
        ) && note@ == "answered as new turn"@),
{
    let questions = match questions {
        Some(q) => q,
        None => return Fallback::Reject(String::from_str("no pending input request")),
    };
    let request = match last_request {
        Some(q) => q,
        None => match row_request {
            Some(q) => q,
            None => return Fallback::Reject(
                String::from_str("no pending input request and no prior run config"),
            ),
        },
    };
    let mut request = request;
    request.prompt = respond_input_prompt(&questions, answers);
    request.resume = None;
    request.attachments = Vec::new();
    Fallback::Dispatch { request, note: String::from_str("answered as new turn") }
}

/// Whether an open document must stay in memory: it is watched, its document
/// is shared, or (when this device hosts the chat) it still has a pending
/// command the ledger has not processed, or its commands cannot be read
/// (`commands` is `None`).
pub open spec fn pinned_by(
    watchers: usize,
    doc_refs: usize,
    hosted: bool,
    commands: Option<Seq<SessionCommandEntry>>,
    processed: Seq<bool>,
) -> bool {
    watchers > 0 || doc_refs > 1 || (hosted && match commands {
        None => true,
        Some(c) => exists|i: int|
            0 <= i < c.len() && (#[trigger] c[i]).status == SessionCommandStatus::Pending
                && !processed[i],
    })
}




/// What the document host reads of its configuration.
#[derive(Clone, Debug, PartialEq)]
pub struct DocHostConfig {
    pub device_id: String,
    pub default_harness: HarnessId,
}

/// The rules of the host of this device's chat documents.
#[derive(Clone, Debug, PartialEq)]
pub struct DocHost {
    pub config: DocHostConfig,
}

impl DocHost {
    pub fn new(config: DocHostConfig) -> (h: DocHost)
        ensures
            h.config == config,
    {
        DocHost { config }
    }

    pub fn device_id(&self) -> (r: &str)
        ensures
            r@ == self.config.device_id@,
    {
        self.config.device_id.as_str()
    }

    /// The harness a chat runs on: its stored configuration's, else the default.
    pub fn harness_for(&self, config: Option<&ChatConfig>) -> (h: HarnessId)
        ensures
            h == (match config {
                Some(c) => c.harness,
                None => self.config.default_harness,
            }),
    {
        match config {
            Some(c) => c.harness,
            None => self.config.default_harness,
        }
    }

    /// The harness a run request goes to: the one it names, else the chat's.
    pub fn harness_for_request(
        &self,
        request: &RunRequest,
        config: Option<&ChatConfig>,
    ) -> (h: HarnessId)
        ensures
            h == (match request.harness {
                Some(r) => r,
                None => match config {
                    Some(c) => c.harness,
                    None => self.config.default_harness,
                },
            }),
    {
        match request.harness {
            Some(r) => r,
            None => self.harness_for(config),
        }
    }

    /// A freshly queued command: pending, issued now by this device, expiring
    /// after the time-to-live, based on the last transcript entry when there is
    /// one. With it comes whether the chat's registry row (`chat`, when the
    /// registry knows the chat) is to be unarchived: a run or a steer sent to
    /// an archived chat brings it back.
    pub fn queue_command(
        &self,
        id: String,
        payload: SessionCommandPayload,
        now_ms: i64,
        ttl_ms: i64,
        last_entry_id: Option<String>,
        chat: Option<&Chat>,
    ) -> (r: (SessionCommandEntry, bool))
        requires
            i64::MIN <= now_ms + ttl_ms <= i64::MAX,
        ensures
            r.0.id == id,
            r.0.payload == payload,
            r.0.issued_by == self.config.device_id,
            r.0.issued_at == now_ms,
            r.0.based_on == (match last_entry_id {
                Some(t) => Some(CommandBasedOn { turn_id: Some(t), frontier: None }),
                None => None,
            }),
            r.0.expires_at == Some((now_ms + ttl_ms) as i64),
            r.0.status == SessionCommandStatus::Pending,
            r.0.resolution is None,
            r.1 == (is_message_payload(payload) && (chat matches Some(c) && c.archived)),
    {
        let unarchive = unarchive_on_send(&payload, chat);
        let based_on = match last_entry_id {
            Some(t) => Some(CommandBasedOn { turn_id: Some(t), frontier: None }),
            None => None,
        };
        (
            SessionCommandEntry {
                id,
                payload,
                issued_by: self.config.device_id.clone(),
                issued_at: now_ms,
                based_on,
                expires_at: Some(now_ms + ttl_ms),
                status: SessionCommandStatus::Pending,
                resolution: None,
            },
            unarchive,
        )
    }

    pub fn request_from_chat_row(&self, chat: Option<Chat>, prompt: &str) -> (r: Option<RunRequest>)
        ensures
            chat is None ==> r is None,
            chat matches Some(c) ==> (r matches Some(q) && is_row_request(q, c, prompt@)),
    {
        let chat = match chat {
            Some(c) => c,
            None => return None,
        };
        let cwd = match chat.cwd {
            Some(d) => d,
            None => String::new(),
        };
        match chat.config {
            Some(c) => Some(
                RunRequest {
                    prompt: String::from_str(prompt),
                    harness: Some(c.harness),
                    model: c.model,
                    reasoning: c.reasoning,
                    model_options: c.model_options,
                    cwd,
                    sandbox: c.sandbox,
                    auto_approve: false,
                    attachments: Vec::new(),
                    resume: None,
                },
            ),
            None => Some(
                RunRequest {
                    prompt: String::from_str(prompt),
                    harness: None,
                    model: None,
                    reasoning: None,
                    model_options: Vec::new(),
                    cwd,
                    sandbox: SandboxLevel::WorkspaceWrite,
                    auto_approve: false,
                    attachments: Vec::new(),
                    resume: None,
                },
            ),
        }
    }

    pub fn pinned(
        &self,
        watchers: usize,
        doc_refs: usize,
        hosted: bool,
        commands: Option<&Vec<SessionCommandEntry>>,
        processed: &Vec<bool>,
    ) -> (r: bool)
        requires
            commands matches Some(c) ==> processed.len() == c.len(),
        ensures
            r == pinned_by(
                watchers,
                doc_refs,
                hosted,
                match commands {
                    Some(c) => Some(c@),
                    None => None,
                },
                processed@,
            ),
    {
        if watchers > 0 || doc_refs > 1 {
            return true;
        }
        if !hosted {
            return false;
        }
        match commands {
            None => true,
            Some(c) => {
                let mut i: usize = 0;
                while i < c.len()
                    invariant
                        i <= c.len(),
                        processed.len() == c.len(),
                        hosted,
                        !(watchers > 0 || doc_refs > 1),
                        commands == Some(c),
                        forall|j: int|
                            0 <= j < i ==> !((#[trigger] c@[j]).status == SessionCommandStatus::Pending
                                && !processed@[j]),
                    decreases c.len() - i,
                {
                    if c[i].status == SessionCommandStatus::Pending && !processed[i] {
                        assert(c@[i as int].status == SessionCommandStatus::Pending && !processed@[i as int]);
                        assert(exists|j: int|
                            0 <= j < c@.len() && (#[trigger] c@[j]).status == SessionCommandStatus::Pending
                                && !processed@[j]);
                        return true;
                    }
                    i = i + 1;
                }
                false
            },
        }
    }
}

/// What the rules read of one open chat document.
#[derive(Clone, Debug, PartialEq)]
pub struct ChatDocHandle {
    pub chat_id: String,
    pub device_id: String,
    /// Size of the document's last snapshot, in bytes.
    pub snapshot_bytes: usize,
}

impl ChatDocHandle {
    pub fn chat_id(&self) -> (r: &str)
        ensures
            r@ == self.chat_id@,
    {
        self.chat_id.as_str()
    }

    /// Local documents are always connected.
    pub fn connected(&self) -> (r: bool)
        ensures
            r,
    {
        true
    }

    /// The user message written for a send: nothing when the transcript already
    /// holds a message with this id, else a complete user message with one text
    /// part `t0`.
    pub fn write_user_message(
        &self,
        entries: &Vec<SessionMessageEntry>,
        message_id: &str,
        text: &str,
        created_at: i64,
    ) -> (r: Option<SessionMessageEntry>)
        ensures
            has_entry(entries@, message_id@) ==> r is None,
            !has_entry(entries@, message_id@) ==> (r matches Some(e) && e.id@ == message_id@ && e.role
                == MessageRole::User && e.parts@.len() == 1 && (e.parts@[0] matches MessagePart::Text {
                id,
                text: t,
            } && id@ == "t0"@ && t@ == text@) && e.created_at == created_at && e.device_id@
                == self.device_id@ && e.status == Some(MessageStatus::Complete) && e.continuation_of is None),
    {
        let mut k: usize = 0;
        while k < entries.len()
            invariant
                k <= entries.len(),
                forall|j: int| 0 <= j < k ==> (#[trigger] entries@[j]).id@ != message_id@,
            decreases entries.len() - k,
        {
            if str_eq(entries[k].id.as_str(), message_id) {
                assert(entries@[k as int].id@ == message_id@);
                return None;
            }
            k = k + 1;
        }
        let mut parts: Vec<MessagePart> = Vec::new();
        parts.push(MessagePart::Text { id: String::from_str("t0"), text: String::from_str(text) });
        Some(
            SessionMessageEntry {
                id: String::from_str(message_id),
                role: MessageRole::User,
                parts,
                created_at,
                device_id: self.device_id.clone(),
                status: Some(MessageStatus::Complete),
                continuation_of: None,
            },
        )
    }

    /// The positions, in order, of the messages this device left streaming; on
    /// recovery each is marked aborted.
    pub fn mark_abandoned_streams(&self, entries: &Vec<SessionMessageEntry>) -> (r: Vec<usize>)
        ensures
            forall|k: int|
                0 <= k < r@.len() ==> r@[k] < entries@.len() && is_abandoned_stream(
                    entries@[r@[k] as int],
                    self.device_id@,
                ),
            forall|k: int, l: int| 0 <= k < l < r@.len() ==> r@[k] < r@[l],
            forall|i: int|
                0 <= i < entries@.len() && is_abandoned_stream(#[trigger] entries@[i], self.device_id@)
                    ==> r@.contains(i as usize),
    {
        let mut r: Vec<usize> = Vec::new();
        let mut i: usize = 0;
        while i < entries.len()
            invariant
                i <= entries.len(),
                forall|k: int|
                    0 <= k < r@.len() ==> r@[k] < i && is_abandoned_stream(
                        entries@[r@[k] as int],
                        self.device_id@,
                    ),
                forall|k: int, l: int| 0 <= k < l < r@.len() ==> r@[k] < r@[l],
                forall|j: int|
                    0 <= j < i && is_abandoned_stream(#[trigger] entries@[j], self.device_id@)
                        ==> r@.contains(j as usize),
            decreases entries.len() - i,
        {
            let e = &entries[i];
            let ghost before = r@;
            if e.role == MessageRole::Assistant && e.status == Some(MessageStatus::Streaming) && str_eq(
                e.device_id.as_str(),
                self.device_id.as_str(),
            ) {
                r.push(i);
                assert(r@[r@.len() - 1] == i);
                assert forall|j: int|
                    0 <= j < i && is_abandoned_stream(#[trigger] entries@[j], self.device_id@) implies r@.contains(
                    j as usize,
                ) by {
                    let w = choose|w: int| 0 <= w < before.len() && before[w] == j as usize;
                    assert(r@[w] == before[w]);
                }
            }
            i = i + 1;
        }
        r
    }

    /// The memory a document is estimated to hold: six bytes per snapshot byte,
    /// and never less than 512 KiB.
    pub fn resident_estimate(&self) -> (r: usize)
        requires
            self.snapshot_bytes * 6 <= usize::MAX,
        ensures
            r == (if self.snapshot_bytes * 6 >= 524288 {
                self.snapshot_bytes * 6
            } else {
                524288int
            }),
    {
        let scaled = self.snapshot_bytes * 6;
        if scaled >= 512 * 1024 {
            scaled
        } else {
            512 * 1024
        }
    }
}

} // verus!
