use kilo::agent::TranscriptFormat;
use kilo::errors::GitAiError;
use kilo::host_path::{HostPaths, PathAnswer, PathComparison};
use kilo::json::{parse_json, JsonValue};
use kilo::preset::{
    HookFacts, KiloHookInput, KiloPreset, ParsedHookEvent, PresetContext, ToolClass,
    TranscriptSource,
};
use std::path::{Path, PathBuf};

fn files(tool_input: &str, cwd: &str) -> Vec<String> {
    let value = parse_json(tool_input).unwrap();
    KiloPreset::extract_filepaths_from_tool_input(&HostPaths::unix(), Some(&value), cwd)
}

fn collected(tool_input: &str) -> Vec<String> {
    let mut out = Vec::new();
    KiloPreset::collect_tool_paths(&parse_json(tool_input).unwrap(), &mut out);
    out
}

fn input(event: &str, tool_name: Option<&str>, tool_use_id: Option<&str>) -> KiloHookInput {
    KiloHookInput {
        hook_event_name: event.to_string(),
        session_id: "ses-1".to_string(),
        cwd: "/repo".to_string(),
        tool_input: Some(parse_json(r#"{"filePath": "src/a.rs"}"#).unwrap()),
        tool_name: tool_name.map(String::from),
        tool_use_id: tool_use_id.map(String::from),
    }
}

fn source() -> TranscriptSource {
    TranscriptSource {
        path: PathBuf::from("/data/kilo.db"),
        format: TranscriptFormat::KiloCodeSqlite,
        session_id: "s_1".to_string(),
        external_session_id: "ses-1".to_string(),
        external_parent_session_id: None,
    }
}

fn facts(tool_class: ToolClass) -> HookFacts {
    HookFacts {
        tool_class,
        storage_override: None,
        transcript: Some(source()),
        model: Some("some-model".to_string()),
    }
}

fn parse_one(input: KiloHookInput, facts: HookFacts) -> ParsedHookEvent {
    let mut events = KiloPreset.parse(&HostPaths::unix(), Ok(input), "trace-7", facts).unwrap();
    assert_eq!(events.len(), 1);
    events.remove(0)
}

fn check_context(context: &PresetContext) {
    assert_eq!(context.agent_id.tool, "kilo");
    assert_eq!(context.agent_id.id, "ses-1");
    assert_eq!(context.agent_id.model, "some-model");
    assert_eq!(context.external_session_id, "ses-1");
    assert_eq!(context.trace_id, "trace-7");
    assert_eq!(context.cwd, "/repo");
    assert_eq!(
        context.metadata,
        vec![("session_id".to_string(), "ses-1".to_string())]
    );
}

#[test]
fn a_shell_command_about_to_run() {
    match parse_one(input("PreToolUse", Some("bash"), Some("call-1")), facts(ToolClass::Bash)) {
        ParsedHookEvent::PreBashCall(call) => {
            check_context(&call.context);
            assert_eq!(call.tool_use_id, "call-1");
        }
        other => panic!("{:?}", other),
    }
}

#[test]
fn an_edit_about_to_be_made() {
    match parse_one(input("PreToolUse", Some("edit"), None), facts(ToolClass::Other)) {
        ParsedHookEvent::PreFileEdit(edit) => {
            check_context(&edit.context);
            assert_eq!(edit.file_paths, vec!["/repo/src/a.rs"]);
            assert_eq!(edit.dirty_files, None);
            assert_eq!(edit.tool_use_id, Some("bash".to_string()));
        }
        other => panic!("{:?}", other),
    }
}

#[test]
fn a_shell_command_that_ran() {
    match parse_one(input("PostToolUse", Some("bash"), None), facts(ToolClass::Bash)) {
        ParsedHookEvent::PostBashCall(call) => {
            check_context(&call.context);
            assert_eq!(call.tool_use_id, "bash");
            assert_eq!(call.transcript_source, Some(source()));
        }
        other => panic!("{:?}", other),
    }
}

#[test]
fn an_edit_that_was_made() {
    match parse_one(input("anything else", Some("edit"), Some("call-2")), facts(ToolClass::Other)) {
        ParsedHookEvent::PostFileEdit(edit) => {
            check_context(&edit.context);
            assert_eq!(edit.file_paths, vec!["/repo/src/a.rs"]);
            assert_eq!(edit.dirty_files, None);
            assert_eq!(edit.transcript_source, Some(source()));
            assert_eq!(edit.tool_use_id, Some("call-2".to_string()));
        }
        other => panic!("{:?}", other),
    }
}

#[test]
fn a_nameless_tool_is_no_shell() {
    let event = parse_one(input("PreToolUse", None, None), facts(ToolClass::Bash));
    assert!(matches!(event, ParsedHookEvent::PreFileEdit(_)));
}

#[test]
fn a_model_is_known_only_with_a_transcript() {
    let mut without = facts(ToolClass::Other);
    without.transcript = None;
    let mut unnamed = facts(ToolClass::Other);
    unnamed.model = None;
    for known in [without, unnamed] {
        match parse_one(input("PreToolUse", None, None), known) {
            ParsedHookEvent::PreFileEdit(edit) => {
                assert_eq!(edit.context.agent_id.model, "unknown")
            }
            other => panic!("{:?}", other),
        }
    }
}

#[test]
fn an_overridden_storage_path_is_recorded() {
    let mut known = facts(ToolClass::Other);
    known.storage_override = Some("/elsewhere".to_string());
    match parse_one(input("PreToolUse", None, None), known) {
        ParsedHookEvent::PreFileEdit(edit) => assert_eq!(
            edit.context.metadata,
            vec![
                ("session_id".to_string(), "ses-1".to_string()),
                ("__test_storage_path".to_string(), "/elsewhere".to_string()),
            ]
        ),
        other => panic!("{:?}", other),
    }
}

#[test]
fn hook_input_must_parse() {
    let error = KiloPreset
        .parse(
            &HostPaths::unix(),
            Err("expected value".to_string()),
            "trace-7",
            facts(ToolClass::Other),
        )
        .unwrap_err();
    assert_eq!(
        error,
        GitAiError::PresetError("Invalid JSON in hook_input: expected value".to_string())
    );
}

#[test]
fn a_transcript_source_needs_a_database() {
    let found = KiloPreset::resolve_transcript_source(
        "ses-1",
        PathBuf::from("/data"),
        Some(PathBuf::from("/data/kilo.db")),
        "s_1".to_string(),
        Some("ses-0".to_string()),
    )
    .unwrap();
    let mut expected = source();
    expected.external_parent_session_id = Some("ses-0".to_string());
    assert_eq!(found, (expected, PathBuf::from("/data")));
    let none = KiloPreset::resolve_transcript_source(
        "ses-1",
        PathBuf::from("/data"),
        None,
        "s_1".to_string(),
        None,
    );
    assert_eq!(none, None);
}

#[test]
fn single_path_keys() {
    for key in ["file_path", "filePath", "FILEPATH", "path", "fsPath"] {
        let tool_input = format!(r#"{{"{}": "a.rs"}}"#, key);
        assert_eq!(files(&tool_input, "/repo"), vec!["/repo/a.rs"]);
    }
    assert_eq!(files(r#"{"paths": "a.rs"}"#, "/repo"), Vec::<String>::new());
    assert_eq!(files(r#"{"path": ["a.rs"]}"#, "/repo"), Vec::<String>::new());
}

#[test]
fn multi_path_keys() {
    for key in ["files", "filePaths", "File_Paths"] {
        let list = format!(r#"{{"{}": ["a.rs", 3, "b.rs", ["c.rs"]]}}"#, key);
        assert_eq!(files(&list, "/repo"), vec!["/repo/a.rs", "/repo/b.rs"]);
        let one = format!(r#"{{"{}": "a.rs"}}"#, key);
        assert_eq!(files(&one, "/repo"), vec!["/repo/a.rs"]);
        let none = format!(r#"{{"{}": true}}"#, key);
        assert_eq!(files(&none, "/repo"), Vec::<String>::new());
    }
}

#[test]
fn nested_values_are_searched() {
    assert_eq!(
        files(r#"[{"edits": [{"path": "a.rs"}, null, 1]}, "file:///b.rs"]"#, "/repo"),
        vec!["/repo/a.rs", "/b.rs"]
    );
    assert_eq!(
        KiloPreset::extract_filepaths_from_tool_input(&HostPaths::unix(), None, "/repo"),
        Vec::<String>::new()
    );
    assert_eq!(
        KiloPreset::extract_filepaths_from_tool_input(
            &HostPaths::unix(),
            Some(&JsonValue::Null),
            "/repo"
        ),
        Vec::<String>::new()
    );
}

#[test]
fn a_uri_under_a_path_key_is_collected_twice() {
    assert_eq!(
        collected(r#"{"path": "file:///a.rs"}"#),
        vec!["file:///a.rs", "file:///a.rs"]
    );
    assert_eq!(files(r#"{"path": "file:///a.rs"}"#, "/repo"), vec!["/a.rs"]);
}

#[test]
fn patch_lines() {
    let patch = "*** Begin Patch\n  *** Update File: a.rs\r\n*** Add File: \"b.rs\"\n\
                 *** Delete File: 'c.rs'\n*** Move to: d.rs\n*** Update File: a.rs\n\
                 *** Add File: \"\"\n*** Rename File: e.rs\n*** Update File:f.rs\n";
    let mut out = vec!["d.rs".to_string()];
    KiloPreset::collect_apply_patch_paths_from_text(patch, &mut out);
    assert_eq!(out, vec!["d.rs", "a.rs", "b.rs", "c.rs"]);
}

#[test]
fn patches_inside_tool_input() {
    assert_eq!(
        files(r#"{"patchText": "*** Update File: src/x.rs\n*** Move to: /abs/y.rs"}"#, "/repo"),
        vec!["/repo/src/x.rs", "/abs/y.rs"]
    );
}

#[test]
fn hook_paths() {
    let normalize = |raw: &str| KiloPreset::normalize_hook_path(&HostPaths::unix(), raw, "/repo");
    let some = |path: &str| Some(path.to_string());
    assert_eq!(normalize(""), None);
    assert_eq!(normalize(" \t\n"), None);
    assert_eq!(normalize(" a.rs "), some("/repo/a.rs"));
    assert_eq!(normalize("/a.rs"), some("/a.rs"));
    assert_eq!(normalize("file://localhost/a.rs"), some("/a.rs"));
    assert_eq!(normalize("file:///a.rs"), some("/a.rs"));
    assert_eq!(normalize("file://a.rs"), some("/repo/a.rs"));
    assert_eq!(normalize("file://"), some("/repo/"));
    assert_eq!(normalize(r"\\server\share\a.rs"), some("//server/share/a.rs"));
    assert_eq!(normalize(r"C:\x\a.rs"), some("C:/x/a.rs"));
    assert_eq!(normalize(r"dir\a.rs"), some("/repo/dir/a.rs"));
    assert_eq!(normalize("é:x"), some("/repo/é:x"));
    assert_eq!(normalize("a:"), some("a:"));
    let within = |cwd: &str| KiloPreset::normalize_hook_path(&HostPaths::unix(), "a.rs", cwd);
    assert_eq!(within(""), some("a.rs"));
    assert_eq!(within("/repo/"), some("/repo/a.rs"));
}

/// What a host with drives says of the paths of a tool input: one is absolute with a drive, a
/// rooted one stays on the drive of its directory, and letter case does not matter.
fn asked_of_drives(tool_input: &JsonValue, cwd: &str) -> HostPaths {
    let paths = KiloPreset::hook_paths(tool_input);
    let mut host = HostPaths::unix();
    for path in &paths {
        host.answers.push(PathAnswer {
            absolute: path.get(1..3).map_or(false, |drive| drive == ":\\" || drive == ":/"),
            in_cwd: if path.starts_with('/') {
                format!("{}{}", &cwd[..2], path)
            } else {
                format!("{}\\{}", cwd, path)
            },
            path: path.clone(),
        });
    }
    let files: Vec<String> =
        paths.iter().map(|path| KiloPreset::settle_hook_path(&host, path, cwd)).collect();
    for (i, second) in files.iter().enumerate() {
        for first in &files[..i] {
            host.comparisons.push(PathComparison {
                first: first.clone(),
                second: second.clone(),
                same: first.eq_ignore_ascii_case(second),
            });
        }
    }
    host
}

#[test]
fn the_host_says_where_paths_lead() {
    let value = parse_json(
        r#"{"files": ["/x/b.rs", "/X/b.rs", "a", " ", "D:\\x", "x\\b.rs", "D:x", "c:/X/B.rs"]}"#,
    )
    .unwrap();
    let cwd = r"C:\repo";
    let host = asked_of_drives(&value, cwd);
    assert_eq!(
        KiloPreset::hook_paths(&value),
        vec!["/x/b.rs", "/X/b.rs", "a", r"D:\x", r"x\b.rs", "D:x", "c:/X/B.rs"]
    );
    assert_eq!(
        KiloPreset::extract_filepaths_from_tool_input(&host, Some(&value), cwd),
        vec!["C:/x/b.rs", "C:/repo/a", "D:/x", "C:/repo/x/b.rs", "D:x"]
    );
    let normalize = |raw: &str| KiloPreset::normalize_hook_path(&host, raw, cwd);
    assert_eq!(normalize(" /x/b.rs"), Some("C:/x/b.rs".to_string()));
    assert_eq!(normalize(" "), None);
}

#[test]
fn paths_that_the_host_was_not_asked_about() {
    let host = asked_of_drives(&JsonValue::Null, r"C:\repo");
    assert_eq!(host, HostPaths::unix());
    assert!(host.is_absolute("/a"));
    assert!(!host.is_absolute("a"));
    assert_eq!(host.join("/repo", "a"), "/repo/a");
    assert!(host.is_equal("/a/./b", "/a//b/"));
    assert!(!host.is_equal("/a", "/A"));
}

#[test]
fn events_follow_the_paths_of_the_host() {
    let mut on_drive = input("PostToolUse", Some("edit"), None);
    on_drive.cwd = r"C:\repo".to_string();
    let value = || parse_json(r#"{"path": "/x/b.rs"}"#).unwrap();
    let host = asked_of_drives(&value(), &on_drive.cwd);
    on_drive.tool_input = Some(value());
    let events =
        KiloPreset.parse(&host, Ok(on_drive), "trace-7", facts(ToolClass::Other)).unwrap();
    match &events[0] {
        ParsedHookEvent::PostFileEdit(edit) => assert_eq!(edit.file_paths, vec!["C:/x/b.rs"]),
        other => panic!("{:?}", other),
    }
}

#[test]
fn a_patch_read_again_adds_nothing() {
    let patch = "*** Update File: a.rs\n*** Add File: b.rs\n*** Update File: a.rs";
    let mut out = vec!["c.rs".to_string()];
    KiloPreset::collect_apply_patch_paths_from_text(patch, &mut out);
    let once = out.clone();
    KiloPreset::collect_apply_patch_paths_from_text(patch, &mut out);
    assert_eq!(out, once);
    assert_eq!(out, vec!["c.rs", "a.rs", "b.rs"]);
    out.push("d.rs".to_string());
    KiloPreset::collect_apply_patch_paths_from_text(patch, &mut out);
    assert_eq!(out, vec!["c.rs", "a.rs", "b.rs", "d.rs"]);
}

#[test]
fn normalized_paths_stay() {
    for raw in ["a.rs", "/a/../b", r"\\s\x", r"C:\x", "file://", "é:x", "a b/ c"] {
        let file = KiloPreset::normalize_hook_path(&HostPaths::unix(), raw, "/repo").unwrap();
        for dir in ["/repo", "/elsewhere", ""] {
            assert_eq!(
                KiloPreset::normalize_hook_path(&HostPaths::unix(), &file, dir),
                Some(file.clone())
            );
        }
    }
}

#[test]
fn files_that_are_the_same_path_appear_once() {
    assert_eq!(
        files(
            r#"{"files": ["a.rs", "./a.rs", "/repo//a.rs", "/repo/a.rs/", "b/../a.rs"]}"#,
            "/repo"
        ),
        vec!["/repo/a.rs", "/repo/b/../a.rs"]
    );
}

#[test]
fn files_agree_with_the_paths_of_the_host() {
    let raws = [
        "a", "./a", "a/.", "a//b", "/a", "//a", "/", ".", "./.", "..", "../a", "a/..", "a/",
        "/./a", "dir/./x", "é/ü",
    ];
    for cwd in ["", "/", "/r", "/r/", "r", "."] {
        for raw in raws {
            let ours = KiloPreset::normalize_hook_path(&HostPaths::unix(), raw, cwd).unwrap();
            let theirs = Path::new(cwd).join(raw).to_string_lossy().to_string();
            assert_eq!(ours, theirs, "{} in {}", raw, cwd);
        }
    }
}
