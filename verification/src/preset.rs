//! The hook events that Kilo Code reports, and what they say of a session.
use crate::agent::{option_view, same_option, TranscriptFormat};
use crate::errors::{concat2, GitAiError, GitAiFault};
use crate::host_path::{HostPaths, HostRules};
use crate::json::{Json, JsonValue};
use crate::text::{same, views};
use crate::tool_paths::{files_of, raw_paths};
use std::path::PathBuf;
use vstd::prelude::*;

verus! {

/// Reads the hook events that Kilo Code reports.
pub struct KiloPreset;

/// What Kilo Code hands to the hook.
#[derive(Debug, PartialEq)]
pub struct KiloHookInput {
    pub hook_event_name: String,
    pub session_id: String,
    pub cwd: String,
    pub tool_input: Option<JsonValue>,
    pub tool_name: Option<String>,
    pub tool_use_id: Option<String>,
}

/// How a tool works on files: as a shell command, or otherwise.
#[derive(Clone, Copy, Debug, PartialEq, Eq, Structural)]
pub enum ToolClass {
    Bash,
    Other,
}

/// Where a session's transcript is found.
#[derive(Debug, PartialEq)]
pub struct TranscriptSource {
    pub path: PathBuf,
    pub format: TranscriptFormat,
    pub session_id: String,
    pub external_session_id: String,
    pub external_parent_session_id: Option<String>,
}

/// What the host adds to a hook's input.
#[derive(Debug, PartialEq)]
pub struct HookFacts {
    /// The class of the tool that the input names, if it names one.
    pub tool_class: ToolClass,
    /// A path that overrides where Kilo Code keeps its data.
    pub storage_override: Option<String>,
    /// Where the session's transcript is found, if it is.
    pub transcript: Option<TranscriptSource>,
    /// The model that the transcript names, if it names one.
    pub model: Option<String>,
}

/// Who did the work that an event reports.
#[derive(Debug, PartialEq)]
pub struct AgentId {
    pub tool: String,
    pub id: String,
    pub model: String,
}

/// What all events of a hook share.
#[derive(Debug, PartialEq)]
pub struct PresetContext {
    pub agent_id: AgentId,
    pub external_session_id: String,
    pub trace_id: String,
    pub cwd: String,
    /// Keys with their values; no key occurs twice.
    pub metadata: Vec<(String, String)>,
}

#[derive(Debug, PartialEq)]
pub struct PreBashCall {
    pub context: PresetContext,
    pub tool_use_id: String,
}

#[derive(Debug, PartialEq)]
pub struct PreFileEdit {
    pub context: PresetContext,
    pub file_paths: Vec<String>,
    /// The contents of unsaved files, by path.
    pub dirty_files: Option<Vec<(String, String)>>,
    pub tool_use_id: Option<String>,
}

#[derive(Debug, PartialEq)]
pub struct PostBashCall {
    pub context: PresetContext,
    pub tool_use_id: String,
    pub transcript_source: Option<TranscriptSource>,
}

#[derive(Debug, PartialEq)]
pub struct PostFileEdit {
    pub context: PresetContext,
    pub file_paths: Vec<String>,
    /// The contents of unsaved files, by path.
    pub dirty_files: Option<Vec<(String, String)>>,
    pub transcript_source: Option<TranscriptSource>,
    pub tool_use_id: Option<String>,
}

/// What a hook reports: a shell command or a file edit, before or after it is done.
#[derive(Debug, PartialEq)]
pub enum ParsedHookEvent {
    PreBashCall(PreBashCall),
    PreFileEdit(PreFileEdit),
    PostBashCall(PostBashCall),
    PostFileEdit(PostFileEdit),
}

/// The contents of key-value pairs.
pub open spec fn pair_views(pairs: Seq<(String, String)>) -> Seq<(Seq<char>, Seq<char>)> {
    pairs.map_values(|p: (String, String)| (p.0@, p.1@))
}

/// The metadata of a session: its id, and the override of the storage path where there is one.
pub open spec fn metadata_of(session_id: Seq<char>, storage_override: Option<Seq<char>>) -> Seq<
    (Seq<char>, Seq<char>),
> {
    match storage_override {
        Some(path) => seq![("session_id"@, session_id), ("__test_storage_path"@, path)],
        None => seq![("session_id"@, session_id)],
    }
}

/// The model that a transcript names; without a transcript, or where it names none, it is
/// unknown.
pub open spec fn model_of(facts: HookFacts) -> Seq<char> {
    match (facts.transcript, facts.model) {
        (Some(_), Some(model)) => model@,
        _ => "unknown"@,
    }
}

/// `context` is that of an event with this input.
pub open spec fn is_context_of(
    context: PresetContext,
    input: KiloHookInput,
    trace_id: Seq<char>,
    facts: HookFacts,
) -> bool {
    &&& context.agent_id.tool@ == "kilo"@
    &&& context.agent_id.id@ == input.session_id@
    &&& context.agent_id.model@ == model_of(facts)
    &&& context.external_session_id@ == input.session_id@
    &&& context.trace_id@ == trace_id
    &&& context.cwd@ == input.cwd@
    &&& pair_views(context.metadata@) == metadata_of(
        input.session_id@,
        option_view(facts.storage_override),
    )
}

/// The tool is a shell.
pub open spec fn is_bash(input: KiloHookInput, facts: HookFacts) -> bool {
    input.tool_name is Some && facts.tool_class == ToolClass::Bash
}

/// The hook comes before the tool.
pub open spec fn is_pre(input: KiloHookInput) -> bool {
    input.hook_event_name@ == "PreToolUse"@
}

/// The id of the tool's use; one that is missing reads `bash`.
pub open spec fn tool_use_of(input: KiloHookInput) -> Seq<char> {
    match input.tool_use_id {
        Some(id) => id@,
        None => "bash"@,
    }
}

/// The content of the tool's input.
pub open spec fn input_content(input: KiloHookInput) -> Option<Json> {
    match input.tool_input {
        Some(value) => Some(value@),
        None => None,
    }
}

/// The files that the tool's input mentions.
pub open spec fn input_files(host: HostRules, input: KiloHookInput) -> Seq<Seq<char>> {
    files_of(host, raw_paths(input_content(input)), input.cwd@)
}

/// `event` is what a hook with this input reports.
pub open spec fn is_event_of(
    host: HostRules,
    event: ParsedHookEvent,
    input: KiloHookInput,
    trace_id: Seq<char>,
    facts: HookFacts,
) -> bool {
    match event {
        ParsedHookEvent::PreBashCall(e) => {
            &&& is_pre(input) && is_bash(input, facts)
            &&& is_context_of(e.context, input, trace_id, facts)
            &&& e.tool_use_id@ == tool_use_of(input)
        },
        ParsedHookEvent::PreFileEdit(e) => {
            &&& is_pre(input) && !is_bash(input, facts)
            &&& is_context_of(e.context, input, trace_id, facts)
            &&& views(e.file_paths@) == input_files(host, input)
            &&& e.dirty_files is None
            &&& option_view(e.tool_use_id) == Some(tool_use_of(input))
        },
        ParsedHookEvent::PostBashCall(e) => {
            &&& !is_pre(input) && is_bash(input, facts)
            &&& is_context_of(e.context, input, trace_id, facts)
            &&& e.tool_use_id@ == tool_use_of(input)
            &&& e.transcript_source == facts.transcript
        },
        ParsedHookEvent::PostFileEdit(e) => {
            &&& !is_pre(input) && !is_bash(input, facts)
            &&& is_context_of(e.context, input, trace_id, facts)
            &&& views(e.file_paths@) == input_files(host, input)
            &&& e.dirty_files is None
            &&& e.transcript_source == facts.transcript
            &&& option_view(e.tool_use_id) == Some(tool_use_of(input))
        },
    }
}

/// Two contexts say the same.
pub open spec fn same_context(a: PresetContext, b: PresetContext) -> bool {
    &&& a.agent_id.tool@ == b.agent_id.tool@
    &&& a.agent_id.id@ == b.agent_id.id@
    &&& a.agent_id.model@ == b.agent_id.model@
    &&& a.external_session_id@ == b.external_session_id@
    &&& a.trace_id@ == b.trace_id@
    &&& a.cwd@ == b.cwd@
    &&& pair_views(a.metadata@) == pair_views(b.metadata@)
}

/// The event before a tool call and the one after it agree on the call, its files among them;
/// and on the context, where they belong to the same session and trace, and the model and the
/// storage path are the same.
pub proof fn law_pre_and_post_agree(
    host: HostRules,
    pre: (ParsedHookEvent, KiloHookInput, Seq<char>, HookFacts),
    post: (ParsedHookEvent, KiloHookInput, Seq<char>, HookFacts),
)
    requires
        is_event_of(host, pre.0, pre.1, pre.2, pre.3),
        is_event_of(host, post.0, post.1, post.2, post.3),
        is_pre(pre.1) && !is_pre(post.1),
        is_bash(pre.1, pre.3) == is_bash(post.1, post.3),
        tool_use_of(pre.1) == tool_use_of(post.1),
        input_content(pre.1) == input_content(post.1),
        pre.1.cwd@ == post.1.cwd@,
    ensures
        ({
            let one_setting = {
                &&& pre.1.session_id@ == post.1.session_id@
                &&& pre.2 == post.2
                &&& model_of(pre.3) == model_of(post.3)
                &&& option_view(pre.3.storage_override) == option_view(post.3.storage_override)
            };
            match (pre.0, post.0) {
                (ParsedHookEvent::PreBashCall(a), ParsedHookEvent::PostBashCall(b)) => {
                    &&& a.tool_use_id@ == b.tool_use_id@
                    &&& one_setting ==> same_context(a.context, b.context)
                },
                (ParsedHookEvent::PreFileEdit(a), ParsedHookEvent::PostFileEdit(b)) => {
                    &&& views(a.file_paths@) == views(b.file_paths@)
                    &&& a.dirty_files is None && b.dirty_files is None
                    &&& option_view(a.tool_use_id) == option_view(b.tool_use_id)
                    &&& one_setting ==> same_context(a.context, b.context)
                },
                _ => false,
            }
        }),
{
}

/// No key of the metadata occurs twice.
pub proof fn law_metadata_keys_are_distinct(
    session_id: Seq<char>,
    storage_override: Option<Seq<char>>,
)
    ensures
        forall|i: int, j: int|
            0 <= i < j < metadata_of(session_id, storage_override).len() ==> (
            #[trigger] metadata_of(session_id, storage_override)[i]).0 != (#[trigger] metadata_of(
                session_id,
                storage_override,
            )[j]).0,
{
    reveal_strlit("session_id");
    reveal_strlit("__test_storage_path");
    assert("session_id"@.len() != "__test_storage_path"@.len());
}

fn metadata(session_id: &String, storage_override: &Option<String>) -> (pairs: Vec<
    (String, String),
>)
    ensures
        pair_views(pairs@) == metadata_of(session_id@, option_view(*storage_override)),
{
    let mut pairs: Vec<(String, String)> = Vec::new();
    pairs.push(("session_id".to_owned(), session_id.clone()));
    if let Some(path) = storage_override {
        pairs.push(("__test_storage_path".to_owned(), path.clone()));
    }
    assert(pair_views(pairs@) == metadata_of(session_id@, option_view(*storage_override)));
    pairs
}

impl KiloPreset {
    /// The source of a session's transcript and the path of the storage, where the database of
    /// the storage was found.
    pub fn resolve_transcript_source(
        session_id: &str,
        storage_path: PathBuf,
        db_path: Option<PathBuf>,
        generated_id: String,
        parent_id: Option<String>,
    ) -> (source: Option<(TranscriptSource, PathBuf)>)
        ensures
            match (source, db_path) {
                (Some((s, storage)), Some(path)) => {
                    &&& storage == storage_path
                    &&& s.path == path
                    &&& s.format == TranscriptFormat::KiloCodeSqlite
                    &&& s.session_id@ == generated_id@
                    &&& s.external_session_id@ == session_id@
                    &&& same_option(s.external_parent_session_id, parent_id)
                },
                (None, None) => true,
                _ => false,
            },
    {
        match db_path {
            Some(path) => {
                let source = TranscriptSource {
                    path,
                    format: TranscriptFormat::KiloCodeSqlite,
                    session_id: generated_id,
                    external_session_id: session_id.to_owned(),
                    external_parent_session_id: parent_id,
                };
                Some((source, storage_path))
            },
            None => None,
        }
    }

    /// The one event that a hook reports; `input` is what its text parses to, or the parser's
    /// message.
    pub fn parse(
        &self,
        host: &HostPaths,
        input: Result<KiloHookInput, String>,
        trace_id: &str,
        facts: HookFacts,
    ) -> (events: Result<Vec<ParsedHookEvent>, GitAiError>)
        ensures
            match (events, input) {
                (Ok(list), Ok(i)) => {
                    &&& list@.len() == 1
                    &&& is_event_of(host@, list@[0], i, trace_id@, facts)
                },
                (Err(e), Err(cause)) => e@ == GitAiFault::PresetError(
                    "Invalid JSON in hook_input: "@ + cause@,
                ),
                _ => false,
            },
    {
        let input = match input {
            Ok(i) => i,
            Err(cause) => {
                return Err(
                    GitAiError::PresetError(
                        concat2("Invalid JSON in hook_input: ", cause.as_str()),
                    ),
                );
            },
        };
        let bash = input.tool_name.is_some() && facts.tool_class == ToolClass::Bash;
        let pre = same(input.hook_event_name.as_str(), "PreToolUse");
        let file_paths = KiloPreset::extract_filepaths_from_tool_input(
            host,
            input.tool_input.as_ref(),
            input.cwd.as_str(),
        );
        assert(views(file_paths@) == input_files(host@, input));
        let tool_use_id = match &input.tool_use_id {
            Some(id) => id.clone(),
            None => "bash".to_owned(),
        };
        let model = match (&facts.transcript, &facts.model) {
            (Some(_), Some(model)) => model.clone(),
            _ => "unknown".to_owned(),
        };
        let context = PresetContext {
            agent_id: AgentId { tool: "kilo".to_owned(), id: input.session_id.clone(), model },
            external_session_id: input.session_id.clone(),
            trace_id: trace_id.to_owned(),
            cwd: input.cwd.clone(),
            metadata: metadata(&input.session_id, &facts.storage_override),
        };
        assert(is_context_of(context, input, trace_id@, facts));
        let ghost all_facts = facts;
        let transcript_source = facts.transcript;
        let event = match (pre, bash) {
            (true, true) => ParsedHookEvent::PreBashCall(PreBashCall { context, tool_use_id }),
            (true, false) => ParsedHookEvent::PreFileEdit(
                PreFileEdit {
                    context,
                    file_paths,
                    dirty_files: None,
                    tool_use_id: Some(tool_use_id),
                },
            ),
            (false, true) => ParsedHookEvent::PostBashCall(
                PostBashCall { context, tool_use_id, transcript_source },
            ),
            (false, false) => ParsedHookEvent::PostFileEdit(
                PostFileEdit {
                    context,
                    file_paths,
                    dirty_files: None,
                    transcript_source,
                    tool_use_id: Some(tool_use_id),
                },
            ),
        };
        assert(is_event_of(host@, event, input, trace_id@, all_facts));
        let mut list: Vec<ParsedHookEvent> = Vec::new();
        list.push(event);
        Ok(list)
    }
}

/// The tool use id that an event carries.
pub open spec fn carried_id(event: ParsedHookEvent) -> Option<Seq<char>> {
    match event {
        ParsedHookEvent::PreBashCall(e) => Some(e.tool_use_id@),
        ParsedHookEvent::PostBashCall(e) => Some(e.tool_use_id@),
        ParsedHookEvent::PreFileEdit(e) => match e.tool_use_id {
            Some(id) => Some(id@),
            None => None,
        },
        ParsedHookEvent::PostFileEdit(e) => match e.tool_use_id {
            Some(id) => Some(id@),
            None => None,
        },
    }
}

/// The context that an event carries.
pub open spec fn carried_context(event: ParsedHookEvent) -> PresetContext {
    match event {
        ParsedHookEvent::PreBashCall(e) => e.context,
        ParsedHookEvent::PostBashCall(e) => e.context,
        ParsedHookEvent::PreFileEdit(e) => e.context,
        ParsedHookEvent::PostFileEdit(e) => e.context,
    }
}

/// An event carries the tool use id of its input, exactly, whatever the hook and the tool; where
/// the input has none, the id reads `bash`.
pub proof fn law_event_carries_the_tool_use_id_of_its_input(
    host: HostRules,
    event: ParsedHookEvent,
    input: KiloHookInput,
    trace_id: Seq<char>,
    facts: HookFacts,
)
    requires
        is_event_of(host, event, input, trace_id, facts),
    ensures
        input.tool_use_id matches Some(id) ==> carried_id(event) == Some(id@),
        input.tool_use_id is None ==> carried_id(event) == Some("bash"@),
{
}

/// Two events whose inputs have the same tool use id, or both none, carry the same: the one
/// before a call is found again by the one after it, and by no event of another call.
pub proof fn law_tool_use_ids_match_where_their_inputs_do(
    host: HostRules,
    a: (ParsedHookEvent, KiloHookInput, Seq<char>, HookFacts),
    b: (ParsedHookEvent, KiloHookInput, Seq<char>, HookFacts),
)
    requires
        is_event_of(host, a.0, a.1, a.2, a.3),
        is_event_of(host, b.0, b.1, b.2, b.3),
    ensures
        a.1.tool_use_id is None && b.1.tool_use_id is None ==> carried_id(a.0) == carried_id(b.0),
        a.1.tool_use_id is Some && b.1.tool_use_id is Some ==> (carried_id(a.0) == carried_id(b.0)
            <==> a.1.tool_use_id->0@ == b.1.tool_use_id->0@),
{
}

/// The kind of an event goes by its input: before the call exactly where the hook is called
/// `PreToolUse`, and a shell call exactly where the tool has a name and is a shell.
pub proof fn law_kind_of_event(
    host: HostRules,
    event: ParsedHookEvent,
    input: KiloHookInput,
    trace_id: Seq<char>,
    facts: HookFacts,
)
    requires
        is_event_of(host, event, input, trace_id, facts),
    ensures
        event is PreBashCall || event is PreFileEdit <==> input.hook_event_name@ == "PreToolUse"@,
        event is PreBashCall || event is PostBashCall <==> input.tool_name is Some
            && facts.tool_class == ToolClass::Bash,
{
}

/// The context of an event names the tool, the session, the trace and the working directory of
/// its input. The model is that of the transcript, where there is a transcript that names one.
pub proof fn law_context_of_event(
    host: HostRules,
    event: ParsedHookEvent,
    input: KiloHookInput,
    trace_id: Seq<char>,
    facts: HookFacts,
)
    requires
        is_event_of(host, event, input, trace_id, facts),
    ensures
        carried_context(event).agent_id.tool@ == "kilo"@,
        carried_context(event).agent_id.id@ == input.session_id@,
        carried_context(event).external_session_id@ == input.session_id@,
        carried_context(event).trace_id@ == trace_id,
        carried_context(event).cwd@ == input.cwd@,
        facts.transcript is Some && facts.model is Some ==> carried_context(event).agent_id.model@
            == facts.model->0@,
        facts.transcript is None || facts.model is None ==> carried_context(event).agent_id.model@
            == "unknown"@,
{
}

/// The metadata of an event holds the session under `session_id`, the storage path under
/// `__test_storage_path` where it was overridden, and nothing else.
pub proof fn law_metadata_of_event(
    host: HostRules,
    event: ParsedHookEvent,
    input: KiloHookInput,
    trace_id: Seq<char>,
    facts: HookFacts,
)
    requires
        is_event_of(host, event, input, trace_id, facts),
    ensures
        ({
            let pairs = carried_context(event).metadata@;
            &&& pairs.len() == if facts.storage_override is Some {
                2int
            } else {
                1int
            }
            &&& pairs[0].0@ == "session_id"@
            &&& pairs[0].1@ == input.session_id@
            &&& facts.storage_override matches Some(path) ==> {
                &&& pairs[1].0@ == "__test_storage_path"@
                &&& pairs[1].1@ == path@
            }
        }),
{
    let pairs = carried_context(event).metadata@;
    let all = pair_views(pairs);
    assert(all.len() == pairs.len());
    assert(all[0] == (pairs[0].0@, pairs[0].1@));
    if facts.storage_override is Some {
        assert(all[1] == (pairs[1].0@, pairs[1].1@));
    }
}

/// The files of an edit are those that its tool input mentions, seen from its working directory;
/// without a tool input there are none. After the call an event names the transcript.
pub proof fn law_files_and_transcript_of_event(
    host: HostRules,
    event: ParsedHookEvent,
    input: KiloHookInput,
    trace_id: Seq<char>,
    facts: HookFacts,
)
    requires
        is_event_of(host, event, input, trace_id, facts),
    ensures
        event matches ParsedHookEvent::PreFileEdit(e) ==> {
            &&& e.dirty_files is None
            &&& input.tool_input matches Some(value) ==> views(e.file_paths@) == files_of(
                host,
                raw_paths(Some(value@)),
                input.cwd@,
            )
            &&& input.tool_input is None ==> e.file_paths@.len() == 0
        },
        event matches ParsedHookEvent::PostFileEdit(e) ==> {
            &&& e.dirty_files is None
            &&& e.transcript_source == facts.transcript
            &&& input.tool_input matches Some(value) ==> views(e.file_paths@) == files_of(
                host,
                raw_paths(Some(value@)),
                input.cwd@,
            )
            &&& input.tool_input is None ==> e.file_paths@.len() == 0
        },
        event matches ParsedHookEvent::PostBashCall(e) ==> e.transcript_source == facts.transcript,
{
    match event {
        ParsedHookEvent::PreFileEdit(e) => {
            assert(views(e.file_paths@).len() == e.file_paths@.len());
        },
        ParsedHookEvent::PostFileEdit(e) => {
            assert(views(e.file_paths@).len() == e.file_paths@.len());
        },
        _ => {},
    }
}

} // verus!
