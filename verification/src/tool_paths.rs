//! The files that a tool call touches, read from the call's input.
use crate::host_path::{joined, law_unix_rules, rooted, HostPaths, HostRules};
use crate::json::{item_views, member_views, Json, JsonValue};
use crate::preset::KiloPreset;
use crate::text::{
    after_prefix, chars_of, is_space, law_trimmed_has_no_space_at_its_ends, lowercase, pieces, same,
    split, starts_with, strip_prefix, to_lowercase, trim, trim_quote, trimmed, unquoted, views,
};
use vstd::prelude::*;
use vstd::utf8::{char_is_scalar, char_u32_cast, encode_scalar, encode_utf8, is_scalar};

verus! {

/// A path that a tool input mentions; `once` marks those that are listed only where the list
/// does not hold them yet.
pub struct Mention {
    pub path: Seq<char>,
    pub once: bool,
}

/// The path that a line of a patch announces.
pub open spec fn patch_target(line: Seq<char>) -> Option<Seq<char>> {
    let t = trimmed(line);
    if let Some(path) = after_prefix(t, "*** Update File: "@) {
        Some(path)
    } else if let Some(path) = after_prefix(t, "*** Add File: "@) {
        Some(path)
    } else if let Some(path) = after_prefix(t, "*** Delete File: "@) {
        Some(path)
    } else {
        after_prefix(t, "*** Move to: "@)
    }
}

/// What the line mentions: its path without white space and quotes around it, unless nothing is
/// left of it.
pub open spec fn line_mentions(line: Seq<char>) -> Seq<Mention> {
    match patch_target(line) {
        Some(target) => {
            let path = unquoted(unquoted(trimmed(target), '"'), '\'');
            if path.len() > 0 {
                seq![Mention { path, once: true }]
            } else {
                seq![]
            }
        },
        None => seq![],
    }
}

/// What the lines of a patch mention.
pub open spec fn patch_mentions(text: Seq<char>) -> Seq<Mention> {
    pieces(text, '\n').map_values(|line: Seq<char>| line_mentions(line)).flatten()
}

/// A key, in any letter case, under which one path stands.
pub open spec fn single_path_key(key: Seq<char>) -> bool {
    let k = lowercase(key);
    k == "file_path"@ || k == "filepath"@ || k == "path"@ || k == "fspath"@
}

/// A key, in any letter case, under which several paths stand.
pub open spec fn multi_path_key(key: Seq<char>) -> bool {
    let k = lowercase(key);
    k == "files"@ || k == "filepaths"@ || k == "file_paths"@
}

/// A text is a mention of itself; nothing else is one.
pub open spec fn text_mentions(value: Json) -> Seq<Mention> {
    match value {
        Json::Text(path) => seq![Mention { path, once: false }],
        _ => seq![],
    }
}

/// What a member of an object mentions by its key.
pub open spec fn key_mentions(key: Seq<char>, value: Json) -> Seq<Mention> {
    if single_path_key(key) {
        text_mentions(value)
    } else if multi_path_key(key) {
        match value {
            Json::Array(items) => items.map_values(|item: Json| text_mentions(item)).flatten(),
            _ => text_mentions(value),
        }
    } else {
        seq![]
    }
}

/// What a tool input mentions, in the order of the document: under the keys for paths, as a
/// `file://` address, and in the lines of a patch.
pub open spec fn mentions(value: Json) -> Seq<Mention>
    decreases value, 0nat,
{
    match value {
        Json::Object(members) => object_mentions(members, members.len()),
        Json::Array(items) => array_mentions(items, items.len()),
        Json::Text(s) => {
            let address = if "file://"@.is_prefix_of(s) {
                seq![Mention { path: s, once: false }]
            } else {
                seq![]
            };
            address + patch_mentions(s)
        },
        _ => seq![],
    }
}

/// What the first `n` members of an object mention: each by its key, then by its value.
pub open spec fn object_mentions(members: Seq<(Seq<char>, Json)>, n: nat) -> Seq<Mention>
    decreases members, n,
{
    if n == 0 || n > members.len() {
        seq![]
    } else {
        let (key, value) = members[n - 1];
        object_mentions(members, (n - 1) as nat) + (key_mentions(key, value) + mentions(value))
    }
}

/// What the first `n` items of an array mention.
pub open spec fn array_mentions(items: Seq<Json>, n: nat) -> Seq<Mention>
    decreases items, n,
{
    if n == 0 || n > items.len() {
        seq![]
    } else {
        array_mentions(items, (n - 1) as nat) + mentions(items[n - 1])
    }
}

/// The list `out` with one mention added to it.
pub open spec fn listed(out: Seq<Seq<char>>, mention: Mention) -> Seq<Seq<char>> {
    if mention.once && out.contains(mention.path) {
        out
    } else {
        out.push(mention.path)
    }
}

/// The list `out` with the mentions added to it, one by one.
pub open spec fn collected(out: Seq<Seq<char>>, list: Seq<Mention>) -> Seq<Seq<char>>
    decreases list.len(),
{
    if list.len() == 0 {
        out
    } else {
        listed(collected(out, list.drop_last()), list.last())
    }
}

/// The path inside a raw mention: without the white space around it and without the `file`
/// scheme. A blank mention holds none.
pub open spec fn hook_path_text(raw: Seq<char>) -> Option<Seq<char>> {
    let t = trimmed(raw);
    if t.len() == 0 {
        None
    } else if let Some(path) = after_prefix(t, "file://localhost"@) {
        Some(path)
    } else if let Some(path) = after_prefix(t, "file://"@) {
        Some(path)
    } else {
        Some(t)
    }
}

/// The paths inside raw mentions, in order.
pub open spec fn hook_path_texts(raw: Seq<Seq<char>>) -> Seq<Seq<char>>
    decreases raw.len(),
{
    if raw.len() == 0 {
        seq![]
    } else {
        let before = hook_path_texts(raw.drop_last());
        match hook_path_text(raw.last()) {
            Some(path) => before.push(path),
            None => before,
        }
    }
}

/// The path begins like one on a Windows share.
pub open spec fn has_share(path: Seq<char>) -> bool {
    path.len() >= 2 && path[0] == '\\' && path[1] == '\\'
}

/// The path begins like one on a Windows drive: a colon is the second byte of its encoding.
pub open spec fn has_drive(path: Seq<char>) -> bool {
    path.len() >= 2 && (path[0] as u32) < 0x80 && path[1] == ':'
}

/// `s` with slashes in place of backslashes.
pub open spec fn slashed(s: Seq<char>) -> Seq<char> {
    s.map_values(
        |c: char|
            if c == '\\' {
                '/'
            } else {
                c
            },
    )
}

/// Where a path leads from the working directory `cwd`: an absolute one, and one that begins
/// like one on Windows, to itself.
pub open spec fn settled(host: HostRules, path: Seq<char>, cwd: Seq<char>) -> Seq<char> {
    if host.absolute(path) || has_share(path) || has_drive(path) {
        slashed(path)
    } else {
        slashed(host.within(cwd, path))
    }
}

/// The file that a raw mention leads to from the working directory `cwd`.
pub open spec fn normalized(host: HostRules, raw: Seq<char>, cwd: Seq<char>) -> Option<
    Seq<char>,
> {
    match hook_path_text(raw) {
        Some(path) => Some(settled(host, path, cwd)),
        None => None,
    }
}

/// `list` holds a text that names the same path.
pub open spec fn holds_path(
    host: HostRules,
    list: Seq<Seq<char>>,
    path: Seq<char>,
) -> bool {
    exists|i: int| 0 <= i < list.len() && host.equal(#[trigger] list[i], path)
}

/// `list` with one more path, unless it holds that path.
pub open spec fn with_path(
    host: HostRules,
    list: Seq<Seq<char>>,
    path: Seq<char>,
) -> Seq<Seq<char>> {
    if holds_path(host, list, path) {
        list
    } else {
        list.push(path)
    }
}

/// The files that raw mentions lead to, each path once, in the order of their first mention.
pub open spec fn files_of(
    host: HostRules,
    raw: Seq<Seq<char>>,
    cwd: Seq<char>,
) -> Seq<Seq<char>>
    decreases raw.len(),
{
    if raw.len() == 0 {
        seq![]
    } else {
        let before = files_of(host, raw.drop_last(), cwd);
        match normalized(host, raw.last(), cwd) {
            Some(path) => with_path(host, before, path),
            None => before,
        }
    }
}

/// The raw mentions of a tool input.
pub open spec fn raw_paths(tool_input: Option<Json>) -> Seq<Seq<char>> {
    match tool_input {
        Some(value) => collected(seq![], mentions(value)),
        None => seq![],
    }
}

proof fn lemma_collected_push(out: Seq<Seq<char>>, list: Seq<Mention>, m: Mention)
    ensures
        collected(out, list.push(m)) == listed(collected(out, list), m),
{
    assert(list.push(m).drop_last() == list);
}

pub(crate) proof fn lemma_collected_concat(out: Seq<Seq<char>>, a: Seq<Mention>, b: Seq<Mention>)
    ensures
        collected(out, a + b) == collected(collected(out, a), b),
    decreases b.len(),
{
    if b.len() == 0 {
        assert(a + b == a);
    } else {
        lemma_collected_concat(out, a, b.drop_last());
        assert((a + b).drop_last() == a + b.drop_last());
    }
}

/// One more list behind those of the first `i`.
proof fn lemma_collected_next(
    start: Seq<Seq<char>>,
    lists: Seq<Seq<Mention>>,
    i: int,
)
    requires
        0 <= i < lists.len(),
    ensures
        collected(start, lists.take(i + 1).flatten()) == collected(
            collected(start, lists.take(i).flatten()),
            lists[i],
        ),
{
    lists.take(i).lemma_flatten_push(lists[i]);
    assert(lists.take(i).push(lists[i]) == lists.take(i + 1));
    lemma_collected_concat(start, lists.take(i).flatten(), lists[i]);
}

/// Whether `out` holds the text itself.
fn lists(out: &Vec<String>, path: &str) -> (b: bool)
    ensures
        b == views(out@).contains(path@),
{
    let mut i: usize = 0;
    while i < out.len()
        invariant
            i <= out@.len(),
            forall|j: int| 0 <= j < i ==> #[trigger] views(out@)[j] != path@,
        decreases out@.len() - i,
    {
        assert(views(out@)[i as int] == out@[i as int]@);
        if same(out[i].as_str(), path) {
            return true;
        }
        i = i + 1;
    }
    false
}

fn add_path(out: &mut Vec<String>, path: String)
    ensures
        views(final(out)@) == views(old(out)@).push(path@),
{
    out.push(path);
    assert(views(out@) == views(old(out)@).push(path@));
}

/// Whether `out` holds a text that names the same path.
fn holds(host: &HostPaths, out: &Vec<String>, path: &str) -> (b: bool)
    ensures
        b == holds_path(host@, views(out@), path@),
{
    let mut i: usize = 0;
    while i < out.len()
        invariant
            i <= out@.len(),
            forall|j: int| 0 <= j < i ==> !host@.equal(#[trigger] views(out@)[j], path@),
        decreases out@.len() - i,
    {
        assert(views(out@)[i as int] == out@[i as int]@);
        if host.is_equal(out[i].as_str(), path) {
            return true;
        }
        i = i + 1;
    }
    assert(views(out@).len() == out@.len());
    false
}

fn starts_like_share(path: &str) -> (b: bool)
    ensures
        b == has_share(path@),
{
    path.unicode_len() >= 2 && path.get_char(0) == '\\' && path.get_char(1) == '\\'
}

fn starts_like_drive(path: &str) -> (b: bool)
    ensures
        b == has_drive(path@),
{
    path.unicode_len() >= 2 && (path.get_char(0) as u32) < 0x80 && path.get_char(1) == ':'
}

fn with_slashes(s: &str) -> (t: String)
    ensures
        t@ == slashed(s@),
{
    let v = chars_of(s);
    let mut t: String = String::new();
    let mut i: usize = 0;
    while i < v.len()
        invariant
            i <= v@.len(),
            v@ == s@,
            t@ == slashed(s@.take(i as int)),
        decreases v@.len() - i,
    {
        let c: char = v[i];
        t.push(
            if c == '\\' {
                '/'
            } else {
                c
            },
        );
        assert(t@ == slashed(s@.take(i + 1)));
        i = i + 1;
    }
    assert(s@.take(i as int) == s@);
    t
}

fn announced_path(line: &str) -> (path: Option<String>)
    ensures
        match path {
            Some(p) => patch_target(line@) == Some(p@),
            None => patch_target(line@) is None,
        },
{
    let t = trim(line);
    match strip_prefix(t.as_str(), "*** Update File: ") {
        Some(path) => Some(path),
        None => match strip_prefix(t.as_str(), "*** Add File: ") {
            Some(path) => Some(path),
            None => match strip_prefix(t.as_str(), "*** Delete File: ") {
                Some(path) => Some(path),
                None => strip_prefix(t.as_str(), "*** Move to: "),
            },
        },
    }
}

fn collect_line(line: &str, out: &mut Vec<String>)
    ensures
        views(final(out)@) == collected(views(old(out)@), line_mentions(line@)),
{
    let ghost before = views(out@);
    reveal_with_fuel(collected, 2);
    match announced_path(line) {
        Some(target) => {
            let bare = trim(target.as_str());
            let half = trim_quote(bare.as_str(), '"');
            let path = trim_quote(half.as_str(), '\'');
            proof {
                if path@.len() > 0 {
                    lemma_collected_push(before, seq![], Mention { path: path@, once: true });
                    assert(Seq::<Mention>::empty().push(Mention { path: path@, once: true })
                        == line_mentions(line@));
                }
            }
            if !path.as_str().is_empty() && !lists(out, path.as_str()) {
                add_path(out, path);
            }
        },
        None => {},
    }
}

fn collect_text(value: &JsonValue, out: &mut Vec<String>)
    ensures
        views(final(out)@) == collected(views(old(out)@), text_mentions(value@)),
{
    match value {
        JsonValue::Text(path) => {
            proof {
                let m = Mention { path: path@, once: false };
                lemma_collected_push(views(out@), seq![], m);
                assert(Seq::<Mention>::empty().push(m) == text_mentions(value@));
            }
            add_path(out, path.clone());
        },
        _ => {},
    }
}

fn is_single_path_key(key: &str) -> (b: bool)
    ensures
        b == single_path_key(key@),
{
    let k = to_lowercase(key);
    same(k.as_str(), "file_path") || same(k.as_str(), "filepath") || same(k.as_str(), "path")
        || same(k.as_str(), "fspath")
}

fn is_multi_path_key(key: &str) -> (b: bool)
    ensures
        b == multi_path_key(key@),
{
    let k = to_lowercase(key);
    same(k.as_str(), "files") || same(k.as_str(), "filepaths") || same(k.as_str(), "file_paths")
}

fn collect_by_key(key: &str, value: &JsonValue, out: &mut Vec<String>)
    ensures
        views(final(out)@) == collected(views(old(out)@), key_mentions(key@, value@)),
{
    if is_single_path_key(key) {
        collect_text(value, out);
    } else if is_multi_path_key(key) {
        match value {
            JsonValue::Array(items) => {
                let ghost start = views(out@);
                let ghost all = item_views(items@).map_values(|item: Json| text_mentions(item));
                proof {
                    JsonValue::lemma_array_view(*items);
                    assert(all.take(0) == Seq::<Seq<Mention>>::empty());
                }
                let mut i: usize = 0;
                while i < items.len()
                    invariant
                        i <= items@.len(),
                        all == item_views(items@).map_values(|item: Json| text_mentions(item)),
                        views(out@) == collected(start, all.take(i as int).flatten()),
                    decreases items@.len() - i,
                {
                    proof {
                        assert(all[i as int] == text_mentions(items@[i as int]@));
                        lemma_collected_next(start, all, i as int);
                    }
                    collect_text(&items[i], out);
                    i = i + 1;
                }
                assert(all.take(i as int) == all);
            },
            _ => collect_text(value, out),
        }
    }
}

impl KiloPreset {
    /// Adds to `out` the paths that the lines of a patch announce and that it does not hold yet.
    pub fn collect_apply_patch_paths_from_text(raw: &str, out: &mut Vec<String>)
        ensures
            views(final(out)@) == collected(views(old(out)@), patch_mentions(raw@)),
    {
        let lines = split(raw, '\n');
        let ghost start = views(out@);
        let ghost all = pieces(raw@, '\n').map_values(|line: Seq<char>| line_mentions(line));
        let mut i: usize = 0;
        assert(all.take(0) == Seq::<Seq<Mention>>::empty());
        while i < lines.len()
            invariant
                i <= lines@.len(),
                views(lines@) == pieces(raw@, '\n'),
                all == pieces(raw@, '\n').map_values(|line: Seq<char>| line_mentions(line)),
                views(out@) == collected(start, all.take(i as int).flatten()),
            decreases lines@.len() - i,
        {
            proof {
                assert(views(lines@)[i as int] == lines@[i as int]@);
                assert(all[i as int] == line_mentions(lines@[i as int]@));
                lemma_collected_next(start, all, i as int);
            }
            collect_line(lines[i].as_str(), out);
            i = i + 1;
        }
        assert(views(lines@).len() == lines@.len());
        assert(all.take(i as int) == all);
    }

    /// Adds to `out` the paths that a tool input mentions, in the order of the document.
    pub fn collect_tool_paths(value: &JsonValue, out: &mut Vec<String>)
        ensures
            views(final(out)@) == collected(views(old(out)@), mentions(value@)),
        decreases value,
    {
        let ghost start = views(out@);
        match value {
            JsonValue::Object(members) => {
                let ghost content = member_views(members@);
                proof {
                    JsonValue::lemma_object_view(*members);
                }
                let mut i: usize = 0;
                while i < members.len()
                    invariant
                        i <= members@.len(),
                        content == member_views(members@),
                        *value == JsonValue::Object(*members),
                        views(out@) == collected(start, object_mentions(content, i as nat)),
                    decreases members@.len() - i,
                {
                    proof {
                        let key = members@[i as int].0@;
                        let item = members@[i as int].1@;
                        assert(content[i as int] == (key, item));
                        let own = key_mentions(key, item);
                        lemma_collected_concat(
                            start,
                            object_mentions(content, i as nat),
                            own + mentions(item),
                        );
                        lemma_collected_concat(views(out@), own, mentions(item));
                        assert(decreases_to!(*value => value->Object_0));
                        assert(decreases_to!(*members => members@));
                        assert(decreases_to!(members@ => members@[i as int]));
                        assert(decreases_to!(members@[i as int] => members@[i as int].1));
                    }
                    collect_by_key(members[i].0.as_str(), &members[i].1, out);
                    KiloPreset::collect_tool_paths(&members[i].1, out);
                    i = i + 1;
                }
            },
            JsonValue::Array(items) => {
                let ghost content = item_views(items@);
                proof {
                    JsonValue::lemma_array_view(*items);
                }
                let mut i: usize = 0;
                while i < items.len()
                    invariant
                        i <= items@.len(),
                        content == item_views(items@),
                        *value == JsonValue::Array(*items),
                        views(out@) == collected(start, array_mentions(content, i as nat)),
                    decreases items@.len() - i,
                {
                    proof {
                        assert(content[i as int] == items@[i as int]@);
                        lemma_collected_concat(
                            start,
                            array_mentions(content, i as nat),
                            mentions(content[i as int]),
                        );
                        assert(decreases_to!(*value => value->Array_0));
                        assert(decreases_to!(*items => items@));
                        assert(decreases_to!(items@ => items@[i as int]));
                    }
                    KiloPreset::collect_tool_paths(&items[i], out);
                    i = i + 1;
                }
            },
            JsonValue::Text(s) => {
                let ghost address = if "file://"@.is_prefix_of(s@) {
                    seq![Mention { path: s@, once: false }]
                } else {
                    seq![]
                };
                proof {
                    let m = Mention { path: s@, once: false };
                    lemma_collected_push(start, seq![], m);
                    assert(Seq::<Mention>::empty().push(m) == seq![m]);
                    lemma_collected_concat(start, address, patch_mentions(s@));
                }
                if starts_with(s.as_str(), "file://") {
                    add_path(out, s.clone());
                }
                KiloPreset::collect_apply_patch_paths_from_text(s.as_str(), out);
            },
            _ => {},
        }
    }

    /// The path inside a raw mention, unless the mention is blank.
    fn hook_path(raw_path: &str) -> (path: Option<String>)
        ensures
            match path {
                Some(p) => hook_path_text(raw_path@) == Some(p@),
                None => hook_path_text(raw_path@) is None,
            },
    {
        let t = trim(raw_path);
        if t.as_str().is_empty() {
            return None;
        }
        match strip_prefix(t.as_str(), "file://localhost") {
            Some(path) => Some(path),
            None => match strip_prefix(t.as_str(), "file://") {
                Some(path) => Some(path),
                None => Some(t),
            },
        }
    }

    /// The paths that a tool input mentions, in the order of the document: those that a host may
    /// be asked about.
    pub fn hook_paths(tool_input: &JsonValue) -> (paths: Vec<String>)
        ensures
            views(paths@) == hook_path_texts(raw_paths(Some(tool_input@))),
    {
        let mut raw: Vec<String> = Vec::new();
        assert(views(raw@) == Seq::<Seq<char>>::empty());
        KiloPreset::collect_tool_paths(tool_input, &mut raw);
        let mut paths: Vec<String> = Vec::new();
        let mut i: usize = 0;
        assert(views(paths@) == Seq::<Seq<char>>::empty());
        assert(views(raw@).take(0) == Seq::<Seq<char>>::empty());
        while i < raw.len()
            invariant
                i <= raw@.len(),
                views(paths@) == hook_path_texts(views(raw@).take(i as int)),
            decreases raw@.len() - i,
        {
            let ghost next = views(raw@).take(i + 1);
            proof {
                assert(next.drop_last() == views(raw@).take(i as int));
                assert(next.last() == raw@[i as int]@);
            }
            if let Some(path) = KiloPreset::hook_path(raw[i].as_str()) {
                add_path(&mut paths, path);
            }
            i = i + 1;
        }
        assert(views(raw@).len() == raw@.len());
        assert(views(raw@).take(i as int) == views(raw@));
        paths
    }

    /// Where a path leads from the working directory `cwd`, with slashes only.
    pub fn settle_hook_path(host: &HostPaths, path: &str, cwd: &str) -> (file: String)
        ensures
            file@ == settled(host@, path@, cwd@),
    {
        if host.is_absolute(path) || starts_like_share(path) || starts_like_drive(path) {
            with_slashes(path)
        } else {
            with_slashes(host.join(cwd, path).as_str())
        }
    }

    /// The file that a raw mention leads to from the working directory `cwd`, with slashes only.
    pub fn normalize_hook_path(host: &HostPaths, raw_path: &str, cwd: &str) -> (file: Option<
        String,
    >)
        ensures
            match file {
                Some(f) => normalized(host@, raw_path@, cwd@) == Some(f@),
                None => normalized(host@, raw_path@, cwd@) is None,
            },
    {
        match KiloPreset::hook_path(raw_path) {
            Some(path) => Some(KiloPreset::settle_hook_path(host, path.as_str(), cwd)),
            None => None,
        }
    }

    /// The files that a tool input mentions, each path once, in the order of their first
    /// mention.
    pub fn extract_filepaths_from_tool_input(
        host: &HostPaths,
        tool_input: Option<&JsonValue>,
        cwd: &str,
    ) -> (files: Vec<String>)
        ensures
            views(files@) == files_of(host@, raw_paths(content_of(tool_input)), cwd@),
    {
        let mut raw: Vec<String> = Vec::new();
        assert(views(raw@) == Seq::<Seq<char>>::empty());
        if let Some(value) = tool_input {
            KiloPreset::collect_tool_paths(value, &mut raw);
        }
        let mut files: Vec<String> = Vec::new();
        assert(views(files@) == Seq::<Seq<char>>::empty());
        let mut i: usize = 0;
        assert(views(raw@).take(0) == Seq::<Seq<char>>::empty());
        while i < raw.len()
            invariant
                i <= raw@.len(),
                views(files@) == files_of(host@, views(raw@).take(i as int), cwd@),
            decreases raw@.len() - i,
        {
            let ghost next = views(raw@).take(i + 1);
            proof {
                assert(next.drop_last() == views(raw@).take(i as int));
                assert(next.last() == raw@[i as int]@);
            }
            if let Some(file) = KiloPreset::normalize_hook_path(
                host,
                raw[i].as_str(),
                cwd,
            ) {
                if !holds(host, &files, file.as_str()) {
                    add_path(&mut files, file);
                }
            }
            i = i + 1;
        }
        assert(views(raw@).len() == raw@.len());
        assert(views(raw@).take(i as int) == views(raw@));
        files
    }
}

/// The content of a tool input.
pub open spec fn content_of(tool_input: Option<&JsonValue>) -> Option<Json> {
    match tool_input {
        Some(value) => Some(value@),
        None => None,
    }
}

/// A colon is the encoding of itself, and no byte of any other: neither the first nor the second
/// of a longer encoding.
proof fn lemma_encoding_and_colon(c: u32)
    requires
        is_scalar(c),
    ensures
        c < 0x80 ==> encode_scalar(c).len() == 1 && encode_scalar(c)[0] == c,
        c >= 0x80 ==> {
            &&& encode_scalar(c).len() >= 2
            &&& encode_scalar(c)[0] != 0x3a
            &&& encode_scalar(c)[1] != 0x3a
        },
{
    assert(c <= 0x7f ==> (c & 0x7f) as u8 == c) by (bit_vector);
    assert(0xc0 | ((c >> 6) & 0x1f) as u8 != 0x3a) by (bit_vector);
    assert(0xe0 | ((c >> 12) & 0x0f) as u8 != 0x3a) by (bit_vector);
    assert(0xf0 | ((c >> 18) & 0x7) as u8 != 0x3a) by (bit_vector);
    assert(0x80 | ((c >> 12) & 0x3f) as u8 != 0x3a) by (bit_vector);
    assert(0x80 | ((c >> 6) & 0x3f) as u8 != 0x3a) by (bit_vector);
    assert(0x80 | (c & 0x3f) as u8 != 0x3a) by (bit_vector);
}

/// A path begins like one on a drive exactly where the second byte of its encoding is a colon.
pub proof fn law_drive_colon_is_the_second_byte(path: Seq<char>)
    ensures
        has_drive(path) <==> encode_utf8(path).len() > 1 && encode_utf8(path)[1] == 0x3a,
{
    if path.len() > 0 {
        let c = path[0] as u32;
        let rest = path.drop_first();
        let bytes = encode_utf8(path);
        char_is_scalar(path[0]);
        lemma_encoding_and_colon(c);
        assert(bytes == encode_scalar(c) + encode_utf8(rest));
        if c >= 0x80 {
            assert(bytes[1] == encode_scalar(c)[1]);
        } else if rest.len() == 0 {
            assert(bytes.len() == 1);
        } else {
            let d = path[1] as u32;
            char_is_scalar(path[1]);
            lemma_encoding_and_colon(d);
            assert(rest[0] == path[1]);
            assert(encode_utf8(rest) == encode_scalar(d) + encode_utf8(rest.drop_first()));
            assert(bytes[1] == encode_utf8(rest)[0]);
            assert(bytes[1] == encode_scalar(d)[0]);
            char_u32_cast(path[1], d);
            char_u32_cast(':', 0x3a);
            assert(path[1] == ':' <==> d == 0x3a);
        }
    }
}

/// No two of the listed files name the same path.
pub proof fn law_files_are_distinct(host: HostRules, raw: Seq<Seq<char>>, cwd: Seq<char>)
    ensures
        forall|i: int, j: int|
            0 <= i < j < files_of(host, raw, cwd).len() ==> !host.equal(
                #[trigger] files_of(host, raw, cwd)[i],
                #[trigger] files_of(host, raw, cwd)[j],
            ),
    decreases raw.len(),
{
    if raw.len() > 0 {
        law_files_are_distinct(host, raw.drop_last(), cwd);
        let before = files_of(host, raw.drop_last(), cwd);
        let after = files_of(host, raw, cwd);
        assert forall|i: int, j: int| 0 <= i < j < after.len() implies !host.equal(
            #[trigger] after[i],
            #[trigger] after[j],
        ) by {
            assert(after[i] == before[i]);
            if j < before.len() {
                assert(after[j] == before[j]);
            }
        }
    }
}

proof fn lemma_slashed_has_no_backslash(s: Seq<char>)
    ensures
        !slashed(s).contains('\\'),
{
    assert forall|i: int| 0 <= i < slashed(s).len() implies slashed(s)[i] != '\\' by {}
}

/// No listed file holds a backslash.
pub proof fn law_files_have_no_backslash(
    host: HostRules,
    raw: Seq<Seq<char>>,
    cwd: Seq<char>,
)
    ensures
        forall|i: int|
            0 <= i < files_of(host, raw, cwd).len() ==> !(#[trigger] files_of(
                host,
                raw,
                cwd,
            )[i]).contains('\\'),
    decreases raw.len(),
{
    if raw.len() > 0 {
        law_files_have_no_backslash(host, raw.drop_last(), cwd);
        let before = files_of(host, raw.drop_last(), cwd);
        let after = files_of(host, raw, cwd);
        assert forall|i: int| 0 <= i < after.len() implies !(#[trigger] after[i]).contains(
            '\\',
        ) by {
            if i < before.len() {
                assert(after[i] == before[i]);
            } else {
                let path = hook_path_text(raw.last())->0;
                lemma_slashed_has_no_backslash(path);
                lemma_slashed_has_no_backslash(host.within(cwd, path));
            }
        }
    }
}

/// The listed files stand in the order of the mentions that brought them in: the mention at
/// `at[k]` leads to the file at `k`, and where every path is the same as itself, no mention
/// before it does.
pub proof fn law_files_stand_in_order_of_mention(
    host: HostRules,
    raw: Seq<Seq<char>>,
    cwd: Seq<char>,
) -> (at: Seq<int>)
    ensures
        at.len() == files_of(host, raw, cwd).len(),
        forall|k: int|
            0 <= k < at.len() ==> 0 <= #[trigger] at[k] < raw.len() && normalized(
                host,
                raw[at[k]],
                cwd,
            ) == Some(files_of(host, raw, cwd)[k]),
        forall|j: int, k: int| 0 <= j < k < at.len() ==> #[trigger] at[j] < #[trigger] at[k],
        host.equal_to_itself() ==> forall|i: int, k: int|
            0 <= k < at.len() && 0 <= i < at[k] ==> normalized(host, #[trigger] raw[i], cwd)
                != Some(#[trigger] files_of(host, raw, cwd)[k]),
    decreases raw.len(),
{
    if raw.len() == 0 {
        seq![]
    } else {
        let init = raw.drop_last();
        let before = files_of(host, init, cwd);
        let last = normalized(host, raw.last(), cwd);
        let old_at = law_files_stand_in_order_of_mention(host, init, cwd);
        assert forall|k: int| 0 <= k < old_at.len() implies 0 <= #[trigger] old_at[k] < init.len()
            && raw[old_at[k]] == init[old_at[k]] by {}
        let listed = last is Some && !holds_path(host, before, last->0);
        let at = if listed {
            old_at.push(raw.len() - 1)
        } else {
            old_at
        };
        if host.equal_to_itself() {
            law_every_mention_is_listed(host, init, cwd);
            assert forall|i: int, k: int| 0 <= k < at.len() && 0 <= i < at[k] implies normalized(
                host,
                #[trigger] raw[i],
                cwd,
            ) != Some(#[trigger] files_of(host, raw, cwd)[k]) by {
                assert(raw[i] == init[i]);
                if k < before.len() {
                    assert(at[k] == old_at[k]);
                    assert(files_of(host, raw, cwd)[k] == before[k]);
                }
            }
        }
        at
    }
}

/// Where every path is the same as itself, every mention that is not blank leads to a listed
/// file.
pub proof fn law_every_mention_is_listed(
    host: HostRules,
    raw: Seq<Seq<char>>,
    cwd: Seq<char>,
)
    requires
        host.equal_to_itself(),
    ensures
        forall|i: int|
            0 <= i < raw.len() && normalized(host, #[trigger] raw[i], cwd) is Some ==> holds_path(
                host,
                files_of(host, raw, cwd),
                normalized(host, raw[i], cwd)->0,
            ),
    decreases raw.len(),
{
    if raw.len() > 0 {
        let init = raw.drop_last();
        let before = files_of(host, init, cwd);
        let after = files_of(host, raw, cwd);
        law_every_mention_is_listed(host, init, cwd);
        assert forall|k: int| 0 <= k < before.len() implies #[trigger] after[k] == before[k] by {}
        assert forall|i: int|
            0 <= i < raw.len() && normalized(
                host,
                #[trigger] raw[i],
                cwd,
            ) is Some implies holds_path(host, after, normalized(host, raw[i], cwd)->0) by {
            let path = normalized(host, raw[i], cwd)->0;
            if i < init.len() {
                assert(init[i] == raw[i]);
            }
            if holds_path(host, before, path) {
                let k = choose|k: int|
                    0 <= k < before.len() && host.equal(#[trigger] before[k], path);
                assert(host.equal(after[k], path));
            } else {
                assert(after[before.len() as int] == path);
                assert(host.equal(path, path));
            }
        }
    }
}

/// The files depend on what the host says of the mentioned paths, and of the files that they lead
/// to, and on nothing else that it says.
pub proof fn law_host_decides_by_its_answers(
    a: HostRules,
    b: HostRules,
    raw: Seq<Seq<char>>,
    cwd: Seq<char>,
)
    requires
        forall|i: int|
            0 <= i < raw.len() ==> normalized(a, #[trigger] raw[i], cwd) == normalized(
                b,
                raw[i],
                cwd,
            ),
        forall|i: int, j: int|
            0 <= i < j < raw.len() && normalized(a, #[trigger] raw[i], cwd) is Some && normalized(
                a,
                #[trigger] raw[j],
                cwd,
            ) is Some ==> a.equal(normalized(a, raw[i], cwd)->0, normalized(a, raw[j], cwd)->0)
                == b.equal(normalized(a, raw[i], cwd)->0, normalized(a, raw[j], cwd)->0),
    ensures
        files_of(a, raw, cwd) == files_of(b, raw, cwd),
    decreases raw.len(),
{
    if raw.len() > 0 {
        let init = raw.drop_last();
        let before = files_of(a, init, cwd);
        let n = raw.len() - 1;
        assert forall|i: int| 0 <= i < init.len() implies #[trigger] init[i] == raw[i] by {}
        law_host_decides_by_its_answers(a, b, init, cwd);
        let at = law_files_stand_in_order_of_mention(a, init, cwd);
        if let Some(path) = normalized(a, raw[n], cwd) {
            assert forall|k: int| 0 <= k < before.len() implies a.equal(
                #[trigger] before[k],
                path,
            ) == b.equal(before[k], path) by {
                assert(0 <= at[k] < init.len());
                assert(normalized(a, raw[at[k]], cwd) == Some(before[k]));
                assert(raw[n] == raw.last());
            }
            assert(holds_path(a, before, path) == holds_path(b, before, path)) by {
                if holds_path(a, before, path) {
                    let k = choose|k: int|
                        0 <= k < before.len() && a.equal(#[trigger] before[k], path);
                    assert(b.equal(before[k], path));
                }
                if holds_path(b, before, path) {
                    let k = choose|k: int|
                        0 <= k < before.len() && b.equal(#[trigger] before[k], path);
                    assert(a.equal(before[k], path));
                }
            }
        }
    }
}

proof fn lemma_slashed_twice(s: Seq<char>)
    ensures
        slashed(slashed(s)) == slashed(s),
{
    assert(slashed(slashed(s)) =~= slashed(s));
}

/// On a Unix-like host, a file that a mention led to from an absolute directory leads to itself,
/// from any directory. A mention whose path begins with white space and goes on like one on a
/// drive is left out: the white space would go.
pub proof fn law_normalized_path_stays(raw: Seq<char>, cwd: Seq<char>)
    requires
        rooted(cwd),
        hook_path_text(raw) matches Some(path) ==> has_drive(path) ==> !is_space(path[0]),
    ensures
        normalized(HostRules::unix(), raw, cwd) matches Some(file) ==> forall|dir: Seq<char>|
            #[trigger] normalized(HostRules::unix(), file, dir) == Some(file),
{
    if let Some(path) = hook_path_text(raw) {
        let t = trimmed(raw);
        let file = settled(HostRules::unix(), path, cwd);
        law_unix_rules();
        law_trimmed_has_no_space_at_its_ends(raw);
        reveal_strlit("file://localhost");
        reveal_strlit("file://");
        assert(path.len() > 0 ==> path.last() == t.last());
        let whole = if rooted(path) || has_share(path) || has_drive(path) {
            path
        } else {
            joined(cwd, path)
        };
        assert(file == slashed(whole));
        assert(whole.len() > 0 && !is_space(whole.last()) && !is_space(whole[0]));
        assert(file[0] == '/' || has_drive(file));
        assert(!is_space(file[0]) && !is_space(file.last()));
        law_trimmed_has_no_space_at_its_ends(file);
        assert(!"file://localhost"@.is_prefix_of(file)) by {
            if "file://localhost"@.is_prefix_of(file) {
                assert(file.subrange(0, 16)[0] == 'f' && file.subrange(0, 16)[1] == 'i');
            }
        }
        assert(!"file://"@.is_prefix_of(file)) by {
            if "file://"@.is_prefix_of(file) {
                assert(file.subrange(0, 7)[0] == 'f' && file.subrange(0, 7)[1] == 'i');
            }
        }
        assert(hook_path_text(file) == Some(file));
        lemma_slashed_twice(whole);
    }
}

/// The paths of a list of mentions.
pub open spec fn mention_paths(list: Seq<Mention>) -> Seq<Seq<char>> {
    list.map_values(|m: Mention| m.path)
}

/// That a patch's paths are collected only once does not change which files are listed, nor
/// their order, where every path is the same as itself.
pub proof fn law_repeated_mentions_change_nothing(
    host: HostRules,
    list: Seq<Mention>,
    cwd: Seq<char>,
)
    requires
        host.equal_to_itself(),
    ensures
        files_of(host, collected(seq![], list), cwd) == files_of(host, mention_paths(list), cwd),
    decreases list.len(),
{
    if list.len() == 0 {
        assert(mention_paths(list) == Seq::<Seq<char>>::empty());
    } else {
        let init = list.drop_last();
        let m = list.last();
        let raw = collected(seq![], init);
        law_repeated_mentions_change_nothing(host, init, cwd);
        assert(mention_paths(list) == mention_paths(init).push(m.path));
        assert(mention_paths(init).push(m.path).drop_last() == mention_paths(init));
        assert(raw.push(m.path).drop_last() == raw);
        if m.once && raw.contains(m.path) {
            law_every_mention_is_listed(host, raw, cwd);
            let i = choose|i: int| 0 <= i < raw.len() && raw[i] == m.path;
            assert(normalized(host, raw[i], cwd) == normalized(host, m.path, cwd));
        }
    }
}

/// Every one of the mentions is listed only where the list does not hold it yet.
spec fn all_once(list: Seq<Mention>) -> bool {
    forall|i: int| 0 <= i < list.len() ==> (#[trigger] list[i]).once
}

/// The list holds every mentioned path.
spec fn holds_all(out: Seq<Seq<char>>, list: Seq<Mention>) -> bool {
    forall|i: int| 0 <= i < list.len() ==> out.contains((#[trigger] list[i]).path)
}

proof fn lemma_collected_holds_all(out: Seq<Seq<char>>, list: Seq<Mention>)
    ensures
        holds_all(collected(out, list), list),
    decreases list.len(),
{
    if list.len() > 0 {
        let init = list.drop_last();
        let before = collected(out, init);
        let after = collected(out, list);
        lemma_collected_holds_all(out, init);
        assert forall|i: int| 0 <= i < list.len() implies after.contains(
            (#[trigger] list[i]).path,
        ) by {
            if i < init.len() {
                assert(init[i] == list[i]);
                let k = choose|k: int| 0 <= k < before.len() && before[k] == list[i].path;
                assert(after[k] == list[i].path);
            } else if !(list.last().once && before.contains(list.last().path)) {
                assert(after[before.len() as int] == list[i].path);
            }
        }
    }
}

proof fn lemma_held_mentions_add_nothing(out: Seq<Seq<char>>, list: Seq<Mention>)
    requires
        all_once(list),
        holds_all(out, list),
    ensures
        collected(out, list) == out,
    decreases list.len(),
{
    if list.len() > 0 {
        let init = list.drop_last();
        assert forall|i: int| 0 <= i < init.len() implies (#[trigger] init[i]).once && out.contains(
            init[i].path,
        ) by {
            assert(init[i] == list[i]);
        }
        lemma_held_mentions_add_nothing(out, init);
        assert(list[list.len() - 1] == list.last());
    }
}

proof fn lemma_lines_mention_once(lines: Seq<Seq<char>>)
    ensures
        all_once(lines.map_values(|line: Seq<char>| line_mentions(line)).flatten()),
    decreases lines.len(),
{
    let lists = lines.map_values(|line: Seq<char>| line_mentions(line));
    if lines.len() > 0 {
        let init = lines.drop_last();
        let before = init.map_values(|line: Seq<char>| line_mentions(line));
        lemma_lines_mention_once(init);
        assert(lists == before.push(line_mentions(lines.last())));
        before.lemma_flatten_push(line_mentions(lines.last()));
        assert(lists.flatten() == before.flatten() + line_mentions(lines.last()));
    }
}

/// A patch that is read again adds nothing, whatever else has been listed since.
pub proof fn law_patch_read_again_adds_nothing(
    out: Seq<Seq<char>>,
    text: Seq<char>,
    since: Seq<Seq<char>>,
)
    ensures
        ({
            let list = collected(out, patch_mentions(text));
            &&& collected(list, patch_mentions(text)) == list
            &&& collected(list + since, patch_mentions(text)) == list + since
        }),
{
    let patch = patch_mentions(text);
    let list = collected(out, patch);
    lemma_lines_mention_once(pieces(text, '\n'));
    lemma_collected_holds_all(out, patch);
    lemma_held_mentions_add_nothing(list, patch);
    assert forall|i: int| 0 <= i < patch.len() implies (list + since).contains(
        (#[trigger] patch[i]).path,
    ) by {
        let k = choose|k: int| 0 <= k < list.len() && list[k] == patch[i].path;
        assert((list + since)[k] == patch[i].path);
    }
    lemma_held_mentions_add_nothing(list + since, patch);
}

/// The content of a tool input is that of its document.
pub proof fn law_content_of_a_tool_input(value: JsonValue)
    ensures
        content_of(Some(&value)) == Some(value@),
        content_of(None) is None,
{
}

} // verus!
