//! Which paths a tool input mentions, wherever in it they stand.
use crate::host_path::HostRules;
use crate::json::Json;
use crate::text::{
    after_prefix, is_space, law_after_prefix, law_pieces_on_both_sides,
    law_text_without_separator_is_one_piece, law_trimming_leaves_the_core, lowercase, pieces,
    trimmed, unquoted,
};
use crate::tool_paths::{
    array_mentions, collected, files_of, holds_path, hook_path_text, hook_path_texts, key_mentions,
    law_every_mention_is_listed, law_files_stand_in_order_of_mention, lemma_collected_concat,
    line_mentions, mentions, normalized, object_mentions, patch_mentions, patch_target, raw_paths,
    text_mentions, Mention,
};
use vstd::prelude::*;

verus! {

/// What stands in a document at a place: one index for each step into an array or an object.
pub open spec fn found_at(value: Json, place: Seq<int>) -> Option<Json>
    decreases place.len(),
{
    if place.len() == 0 {
        Some(value)
    } else {
        let i = place.first();
        match value {
            Json::Array(items) => if 0 <= i < items.len() {
                found_at(items[i], place.drop_first())
            } else {
                None
            },
            Json::Object(members) => if 0 <= i < members.len() {
                found_at(members[i].1, place.drop_first())
            } else {
                None
            },
            _ => None,
        }
    }
}

/// The trimmed line is one of the four announcements, and then `target`.
pub open spec fn announces(line: Seq<char>, target: Seq<char>) -> bool {
    let t = trimmed(line);
    ||| t == "*** Update File: "@ + target
    ||| t == "*** Add File: "@ + target
    ||| t == "*** Delete File: "@ + target
    ||| t == "*** Move to: "@ + target
}

/// A line of the text announces `path`, but for white space and quotes around it.
pub open spec fn patch_names(text: Seq<char>, path: Seq<char>) -> bool {
    path.len() > 0 && exists|i: int, target: Seq<char>|
        0 <= i < pieces(text, '\n').len() && #[trigger] announces(pieces(text, '\n')[i], target)
            && path == unquoted(unquoted(trimmed(target), '"'), '\'')
}

/// The key, in any letter case, is one for a path.
pub open spec fn is_path_key(key: Seq<char>) -> bool {
    let k = lowercase(key);
    k == "file_path"@ || k == "filepath"@ || k == "path"@ || k == "fspath"@
}

/// The key, in any letter case, is one for paths.
pub open spec fn is_paths_key(key: Seq<char>) -> bool {
    let k = lowercase(key);
    k == "files"@ || k == "filepaths"@ || k == "file_paths"@
}

/// A member of an object names `path`: as the text under a key for a path, or as the text or one
/// of the texts under a key for paths.
pub open spec fn member_names(key: Seq<char>, value: Json, path: Seq<char>) -> bool {
    ||| is_path_key(key) && value == Json::Text(path)
    ||| is_paths_key(key) && value == Json::Text(path)
    ||| is_paths_key(key) && (value matches Json::Array(items) && items.contains(Json::Text(path)))
}

/// A document names `path` by itself, without what stands inside it: an object by a member, a
/// text as a `file://` address or by a line of a patch.
pub open spec fn names_path(value: Json, path: Seq<char>) -> bool {
    match value {
        Json::Object(members) => exists|i: int|
            0 <= i < members.len() && member_names(
                (#[trigger] members[i]).0,
                members[i].1,
                path,
            ),
        Json::Text(text) => {
            ||| text == path && text.len() >= 7 && text.take(7) == "file://"@
            ||| patch_names(text, path)
        },
        _ => false,
    }
}

/// One of the mentions is of `path`.
spec fn mentioned(list: Seq<Mention>, path: Seq<char>) -> bool {
    exists|i: int| 0 <= i < list.len() && (#[trigger] list[i]).path == path
}

proof fn lemma_mentioned_concat(a: Seq<Mention>, b: Seq<Mention>, path: Seq<char>)
    ensures
        mentioned(a + b, path) <==> mentioned(a, path) || mentioned(b, path),
{
    let all = a + b;
    if mentioned(all, path) {
        let i = choose|i: int| 0 <= i < all.len() && (#[trigger] all[i]).path == path;
        if i < a.len() {
            assert(a[i].path == path);
        } else {
            assert(b[i - a.len()].path == path);
        }
    }
    if mentioned(a, path) {
        let i = choose|i: int| 0 <= i < a.len() && (#[trigger] a[i]).path == path;
        assert(all[i].path == path);
    }
    if mentioned(b, path) {
        let i = choose|i: int| 0 <= i < b.len() && (#[trigger] b[i]).path == path;
        assert(all[i + a.len()].path == path);
    }
}

proof fn lemma_mentioned_in_lists(lists: Seq<Seq<Mention>>, path: Seq<char>)
    ensures
        mentioned(lists.flatten(), path) <==> exists|i: int|
            0 <= i < lists.len() && mentioned(#[trigger] lists[i], path),
    decreases lists.len(),
{
    if lists.len() == 0 {
        assert(lists.flatten() == Seq::<Mention>::empty());
    } else {
        let init = lists.drop_last();
        lemma_mentioned_in_lists(init, path);
        init.lemma_flatten_push(lists.last());
        assert(init.push(lists.last()) == lists);
        lemma_mentioned_concat(init.flatten(), lists.last(), path);
        if exists|i: int| 0 <= i < init.len() && mentioned(#[trigger] init[i], path) {
            let i = choose|i: int| 0 <= i < init.len() && mentioned(#[trigger] init[i], path);
            assert(mentioned(lists[i], path));
        }
        if mentioned(lists.last(), path) {
            assert(mentioned(lists[lists.len() - 1], path));
        }
        if exists|i: int| 0 <= i < lists.len() && mentioned(#[trigger] lists[i], path) {
            let i = choose|i: int| 0 <= i < lists.len() && mentioned(#[trigger] lists[i], path);
            if i < init.len() {
                assert(mentioned(init[i], path));
            }
        }
    }
}

/// The announcements are told apart by their fifth character.
proof fn lemma_announcements(line: Seq<char>, target: Seq<char>)
    ensures
        patch_target(line) == Some(target) <==> announces(line, target),
{
    let t = trimmed(line);
    reveal_strlit("*** Update File: ");
    reveal_strlit("*** Add File: ");
    reveal_strlit("*** Delete File: ");
    reveal_strlit("*** Move to: ");
    let u = "*** Update File: "@;
    let a = "*** Add File: "@;
    let d = "*** Delete File: "@;
    let m = "*** Move to: "@;
    law_after_prefix(t, u, target);
    law_after_prefix(t, a, target);
    law_after_prefix(t, d, target);
    law_after_prefix(t, m, target);
    if after_prefix(t, u) is Some {
        assert(t[4] == t.take(u.len() as int)[4]);
        assert(t[4] == 'U');
    }
    if after_prefix(t, a) is Some {
        assert(t[4] == t.take(a.len() as int)[4]);
        assert(t[4] == 'A');
    }
    if after_prefix(t, d) is Some {
        assert(t[4] == t.take(d.len() as int)[4]);
        assert(t[4] == 'D');
    }
    if after_prefix(t, m) is Some {
        assert(t[4] == t.take(m.len() as int)[4]);
        assert(t[4] == 'M');
    }
}

proof fn lemma_mentioned_in_line(line: Seq<char>, path: Seq<char>)
    ensures
        mentioned(line_mentions(line), path) <==> path.len() > 0 && exists|target: Seq<char>|
            #[trigger] announces(line, target) && path == unquoted(
                unquoted(trimmed(target), '"'),
                '\'',
            ),
{
    assert forall|target: Seq<char>| #[trigger] announces(line, target) implies patch_target(line)
        == Some(target) by {
        lemma_announcements(line, target);
    }
    if let Some(target) = patch_target(line) {
        lemma_announcements(line, target);
        let bare = unquoted(unquoted(trimmed(target), '"'), '\'');
        if bare.len() > 0 {
            assert(line_mentions(line)[0].path == bare);
        }
    }
}

proof fn lemma_mentioned_in_patch(text: Seq<char>, path: Seq<char>)
    ensures
        mentioned(patch_mentions(text), path) <==> patch_names(text, path),
{
    let lines = pieces(text, '\n');
    let lists = lines.map_values(|line: Seq<char>| line_mentions(line));
    lemma_mentioned_in_lists(lists, path);
    assert forall|i: int| 0 <= i < lines.len() implies #[trigger] lists[i] == line_mentions(
        lines[i],
    ) by {}
    if mentioned(patch_mentions(text), path) {
        let i = choose|i: int| 0 <= i < lists.len() && mentioned(#[trigger] lists[i], path);
        lemma_mentioned_in_line(lines[i], path);
        let target = choose|target: Seq<char>| #[trigger]
            announces(lines[i], target) && path == unquoted(
                unquoted(trimmed(target), '"'),
                '\'',
            );
        assert(announces(pieces(text, '\n')[i], target));
    }
    if patch_names(text, path) {
        let (i, target) = choose|i: int, target: Seq<char>|
            0 <= i < pieces(text, '\n').len() && #[trigger] announces(pieces(text, '\n')[i], target)
                && path == unquoted(unquoted(trimmed(target), '"'), '\'');
        lemma_mentioned_in_line(lines[i], path);
        assert(mentioned(lists[i], path));
    }
}

proof fn lemma_mentioned_text(value: Json, path: Seq<char>)
    ensures
        mentioned(text_mentions(value), path) <==> value == Json::Text(path),
{
    if let Json::Text(s) = value {
        assert(text_mentions(value)[0].path == s);
    }
}

/// The two kinds of keys are told apart.
proof fn lemma_key_kinds(key: Seq<char>)
    ensures
        !(is_path_key(key) && is_paths_key(key)),
{
    reveal_strlit("file_path");
    reveal_strlit("filepath");
    reveal_strlit("path");
    reveal_strlit("fspath");
    reveal_strlit("files");
    reveal_strlit("filepaths");
    reveal_strlit("file_paths");
    assert("file_path"@.len() == 9 && "filepath"@.len() == 8 && "path"@.len() == 4
        && "fspath"@.len() == 6);
    assert("files"@.len() == 5 && "filepaths"@.len() == 9 && "file_paths"@.len() == 10);
    assert("file_path"@[4] == '_' && "filepaths"@[4] == 'p');
}

proof fn lemma_mentioned_by_key(key: Seq<char>, value: Json, path: Seq<char>)
    ensures
        mentioned(key_mentions(key, value), path) <==> member_names(key, value, path),
{
    lemma_key_kinds(key);
    lemma_mentioned_text(value, path);
    if !is_path_key(key) && is_paths_key(key) {
        if let Json::Array(items) = value {
            let lists = items.map_values(|item: Json| text_mentions(item));
            lemma_mentioned_in_lists(lists, path);
            if mentioned(lists.flatten(), path) {
                let i = choose|i: int| 0 <= i < lists.len() && mentioned(#[trigger] lists[i], path);
                lemma_mentioned_text(items[i], path);
                assert(items[i] == Json::Text(path));
            }
            if items.contains(Json::Text(path)) {
                let i = choose|i: int| 0 <= i < items.len() && items[i] == Json::Text(path);
                lemma_mentioned_text(items[i], path);
                assert(mentioned(lists[i], path));
            }
        }
    }
}

proof fn lemma_mentioned_in_members(
    members: Seq<(Seq<char>, Json)>,
    n: nat,
    path: Seq<char>,
)
    requires
        n <= members.len(),
    ensures
        mentioned(object_mentions(members, n), path) <==> exists|i: int|
            0 <= i < n && (member_names((#[trigger] members[i]).0, members[i].1, path) || mentioned(
                mentions(members[i].1),
                path,
            )),
    decreases n,
{
    if n > 0 {
        let m = (n - 1) as nat;
        let (key, value) = members[n - 1];
        lemma_mentioned_in_members(members, m, path);
        lemma_mentioned_by_key(key, value, path);
        lemma_mentioned_concat(key_mentions(key, value), mentions(value), path);
        lemma_mentioned_concat(
            object_mentions(members, m),
            key_mentions(key, value) + mentions(value),
            path,
        );
    }
}

proof fn lemma_mentioned_in_items(items: Seq<Json>, n: nat, path: Seq<char>)
    requires
        n <= items.len(),
    ensures
        mentioned(array_mentions(items, n), path) <==> exists|i: int|
            0 <= i < n && mentioned(mentions(#[trigger] items[i]), path),
    decreases n,
{
    if n > 0 {
        let m = (n - 1) as nat;
        lemma_mentioned_in_items(items, m, path);
        lemma_mentioned_concat(array_mentions(items, m), mentions(items[n - 1]), path);
    }
}

/// Something in the document, at some depth, names `path`.
pub open spec fn names_somewhere(value: Json, path: Seq<char>) -> bool {
    exists|place: Seq<int>|
        (#[trigger] found_at(value, place)) is Some && names_path(found_at(value, place)->0, path)
}

proof fn lemma_named_inside(value: Json, i: int, inner: Json, path: Seq<char>)
    requires
        (value matches Json::Array(items) && 0 <= i < items.len() && items[i] == inner) || (
        value matches Json::Object(members) && 0 <= i < members.len() && members[i].1 == inner),
        names_somewhere(inner, path),
    ensures
        names_somewhere(value, path),
{
    let place = choose|place: Seq<int>|
        (#[trigger] found_at(inner, place)) is Some && names_path(found_at(inner, place)->0, path);
    let whole = seq![i] + place;
    assert(whole.drop_first() == place);
    assert(found_at(value, whole) == found_at(inner, place));
}

proof fn lemma_mentioned_is_named(value: Json, path: Seq<char>)
    ensures
        mentioned(mentions(value), path) <==> names_somewhere(value, path),
    decreases value,
{
    let here = Seq::<int>::empty();
    assert(found_at(value, here) == Some(value));
    match value {
        Json::Object(members) => {
            lemma_mentioned_in_members(members, members.len(), path);
            if mentioned(mentions(value), path) {
                let i = choose|i: int|
                    0 <= i < members.len() && (member_names(
                        (#[trigger] members[i]).0,
                        members[i].1,
                        path,
                    ) || mentioned(mentions(members[i].1), path));
                if member_names(members[i].0, members[i].1, path) {
                    assert(names_path(value, path));
                } else {
                    assert(decreases_to!(value => value->Object_0));
                    assert(decreases_to!(members => members[i]));
                    assert(decreases_to!(members[i] => members[i].1));
                    lemma_mentioned_is_named(members[i].1, path);
                    lemma_named_inside(value, i, members[i].1, path);
                }
            }
            if names_somewhere(value, path) {
                let place = choose|place: Seq<int>|
                    (#[trigger] found_at(value, place)) is Some && names_path(
                        found_at(value, place)->0,
                        path,
                    );
                if place.len() == 0 {
                    let i = choose|i: int|
                        0 <= i < members.len() && member_names(
                            (#[trigger] members[i]).0,
                            members[i].1,
                            path,
                        );
                    assert(member_names(members[i].0, members[i].1, path));
                } else {
                    let i = place.first();
                    assert(found_at(value, place) == found_at(members[i].1, place.drop_first()));
                    assert(names_somewhere(members[i].1, path));
                    assert(decreases_to!(value => value->Object_0));
                    assert(decreases_to!(members => members[i]));
                    assert(decreases_to!(members[i] => members[i].1));
                    lemma_mentioned_is_named(members[i].1, path);
                    assert(mentioned(mentions(members[i].1), path));
                }
            }
        },
        Json::Array(items) => {
            lemma_mentioned_in_items(items, items.len(), path);
            if mentioned(mentions(value), path) {
                let i = choose|i: int|
                    0 <= i < items.len() && mentioned(mentions(#[trigger] items[i]), path);
                assert(decreases_to!(value => value->Array_0));
                assert(decreases_to!(items => items[i]));
                lemma_mentioned_is_named(items[i], path);
                lemma_named_inside(value, i, items[i], path);
            }
            if names_somewhere(value, path) {
                let place = choose|place: Seq<int>|
                    (#[trigger] found_at(value, place)) is Some && names_path(
                        found_at(value, place)->0,
                        path,
                    );
                assert(place.len() > 0);
                let i = place.first();
                assert(found_at(value, place) == found_at(items[i], place.drop_first()));
                assert(names_somewhere(items[i], path));
                assert(decreases_to!(value => value->Array_0));
                assert(decreases_to!(items => items[i]));
                lemma_mentioned_is_named(items[i], path);
                assert(mentioned(mentions(items[i]), path));
            }
        },
        Json::Text(text) => {
            reveal_strlit("file://");
            let address = if "file://"@.is_prefix_of(text) {
                seq![Mention { path: text, once: false }]
            } else {
                seq![]
            };
            lemma_mentioned_concat(address, patch_mentions(text), path);
            lemma_mentioned_in_patch(text, path);
            law_after_prefix(text, "file://"@, seq![]);
            if "file://"@.is_prefix_of(text) {
                assert(address[0].path == text);
            }
            lemma_only_here(value, path);
        },
        _ => {
            lemma_only_here(value, path);
        },
    }
}

/// A document without anything inside it names a path by itself or not at all.
proof fn lemma_only_here(value: Json, path: Seq<char>)
    requires
        !(value is Array) && !(value is Object),
    ensures
        names_somewhere(value, path) <==> names_path(value, path),
{
    let here = Seq::<int>::empty();
    assert(found_at(value, here) == Some(value));
    if names_somewhere(value, path) {
        let place = choose|place: Seq<int>|
            (#[trigger] found_at(value, place)) is Some && names_path(
                found_at(value, place)->0,
                path,
            );
        assert(place.len() == 0);
    }
}

proof fn lemma_collected_from_mentions(
    out: Seq<Seq<char>>,
    list: Seq<Mention>,
    path: Seq<char>,
)
    ensures
        collected(out, list).contains(path) <==> out.contains(path) || mentioned(list, path),
    decreases list.len(),
{
    if list.len() == 0 {
    } else {
        let init = list.drop_last();
        let before = collected(out, init);
        let after = collected(out, list);
        lemma_collected_from_mentions(out, init, path);
        assert(list == init + seq![list.last()]);
        lemma_mentioned_concat(init, seq![list.last()], path);
        assert(seq![list.last()][0] == list.last());
        if after.contains(path) {
            let k = choose|k: int| 0 <= k < after.len() && after[k] == path;
            if k < before.len() {
                assert(before[k] == path);
            }
        }
        if before.contains(path) {
            let k = choose|k: int| 0 <= k < before.len() && before[k] == path;
            assert(after[k] == path);
        }
        if list.last().path == path && after != before {
            assert(after[before.len() as int] == path);
        }
    }
}

/// The paths that are collected from a tool input are those that something in it names, at any
/// depth and under any key: a text under a key for a path, a text or a text in an array under a
/// key for paths, a `file://` address, or a line of a patch. They are all collected, and nothing
/// else is.
pub proof fn law_collected_paths_are_those_named_at_any_depth(
    out: Seq<Seq<char>>,
    value: Json,
    path: Seq<char>,
)
    ensures
        collected(out, mentions(value)).contains(path) <==> out.contains(path) || names_somewhere(
            value,
            path,
        ),
        raw_paths(Some(value)).contains(path) <==> names_somewhere(value, path),
{
    lemma_mentioned_is_named(value, path);
    lemma_collected_from_mentions(out, mentions(value), path);
    lemma_collected_from_mentions(seq![], mentions(value), path);
    assert(raw_paths(Some(value)) == collected(seq![], mentions(value)));
}

/// What is collected from a value alone is also collected from an object that has it under
/// whatever key, and from an array that holds it.
pub proof fn law_collecting_goes_into_every_value(
    members: Seq<(Seq<char>, Json)>,
    items: Seq<Json>,
    i: int,
    path: Seq<char>,
)
    ensures
        0 <= i < members.len() && raw_paths(Some(members[i].1)).contains(path) ==> raw_paths(
            Some(Json::Object(members)),
        ).contains(path),
        0 <= i < items.len() && raw_paths(Some(items[i])).contains(path) ==> raw_paths(
            Some(Json::Array(items)),
        ).contains(path),
{
    if 0 <= i < members.len() && raw_paths(Some(members[i].1)).contains(path) {
        law_collected_paths_are_those_named_at_any_depth(seq![], members[i].1, path);
        lemma_named_inside(Json::Object(members), i, members[i].1, path);
        law_collected_paths_are_those_named_at_any_depth(seq![], Json::Object(members), path);
    }
    if 0 <= i < items.len() && raw_paths(Some(items[i])).contains(path) {
        law_collected_paths_are_those_named_at_any_depth(seq![], items[i], path);
        lemma_named_inside(Json::Array(items), i, items[i], path);
        law_collected_paths_are_those_named_at_any_depth(seq![], Json::Array(items), path);
    }
}

/// The files of a tool input are where its paths lead, at whatever depth they stand: each path
/// that something in the input names leads to a listed file, unless it is blank, and each listed
/// file is where such a path leads.
pub proof fn law_files_are_where_named_paths_lead(
    host: HostRules,
    value: Json,
    cwd: Seq<char>,
    path: Seq<char>,
    k: int,
)
    ensures
        host.equal_to_itself() && names_somewhere(value, path) && normalized(
            host,
            path,
            cwd,
        ) is Some ==> holds_path(
            host,
            files_of(host, raw_paths(Some(value)), cwd),
            normalized(host, path, cwd)->0,
        ),
        0 <= k < files_of(host, raw_paths(Some(value)), cwd).len() ==> exists|p: Seq<char>|
            #[trigger] names_somewhere(value, p) && normalized(host, p, cwd) == Some(
                files_of(host, raw_paths(Some(value)), cwd)[k],
            ),
{
    let raw = raw_paths(Some(value));
    if host.equal_to_itself() && names_somewhere(value, path) && normalized(
        host,
        path,
        cwd,
    ) is Some {
        law_collected_paths_are_those_named_at_any_depth(seq![], value, path);
        law_every_mention_is_listed(host, raw, cwd);
        let i = choose|i: int| 0 <= i < raw.len() && raw[i] == path;
        assert(normalized(host, raw[i], cwd) is Some);
    }
    if 0 <= k < files_of(host, raw, cwd).len() {
        let at = law_files_stand_in_order_of_mention(host, raw, cwd);
        let p = raw[at[k]];
        assert(raw.contains(p));
        law_collected_paths_are_those_named_at_any_depth(seq![], value, p);
        assert(names_somewhere(value, p));
    }
}

proof fn lemma_array_mentions_prefix(a: Seq<Json>, b: Seq<Json>, n: nat)
    requires
        n <= a.len(),
    ensures
        array_mentions(a + b, n) == array_mentions(a, n),
    decreases n,
{
    if n > 0 {
        lemma_array_mentions_prefix(a, b, (n - 1) as nat);
        assert((a + b)[n - 1] == a[n - 1]);
    }
}

proof fn lemma_array_mentions_concat(a: Seq<Json>, b: Seq<Json>, n: nat)
    requires
        n <= b.len(),
    ensures
        array_mentions(a + b, a.len() + n) == array_mentions(a, a.len()) + array_mentions(b, n),
    decreases n,
{
    if n == 0 {
        lemma_array_mentions_prefix(a, b, a.len());
        assert(array_mentions(a, a.len()) + Seq::<Mention>::empty() == array_mentions(a, a.len()));
    } else {
        let m = (n - 1) as nat;
        lemma_array_mentions_concat(a, b, m);
        assert((a + b)[a.len() + n - 1] == b[n - 1]);
        assert(array_mentions(a, a.len()) + (array_mentions(b, m) + mentions(b[n - 1])) == (
        array_mentions(a, a.len()) + array_mentions(b, m)) + mentions(b[n - 1]));
    }
}

proof fn lemma_object_mentions_prefix(
    a: Seq<(Seq<char>, Json)>,
    b: Seq<(Seq<char>, Json)>,
    n: nat,
)
    requires
        n <= a.len(),
    ensures
        object_mentions(a + b, n) == object_mentions(a, n),
    decreases n,
{
    if n > 0 {
        lemma_object_mentions_prefix(a, b, (n - 1) as nat);
        assert((a + b)[n - 1] == a[n - 1]);
    }
}

proof fn lemma_object_mentions_concat(
    a: Seq<(Seq<char>, Json)>,
    b: Seq<(Seq<char>, Json)>,
    n: nat,
)
    requires
        n <= b.len(),
    ensures
        object_mentions(a + b, a.len() + n) == object_mentions(a, a.len()) + object_mentions(b, n),
    decreases n,
{
    if n == 0 {
        lemma_object_mentions_prefix(a, b, a.len());
        assert(object_mentions(a, a.len()) + Seq::<Mention>::empty() == object_mentions(
            a,
            a.len(),
        ));
    } else {
        let m = (n - 1) as nat;
        let (key, value) = b[n - 1];
        let last = key_mentions(key, value) + mentions(value);
        lemma_object_mentions_concat(a, b, m);
        assert((a + b)[a.len() + n - 1] == b[n - 1]);
        assert(object_mentions(a, a.len()) + (object_mentions(b, m) + last) == (object_mentions(
            a,
            a.len(),
        ) + object_mentions(b, m)) + last);
    }
}

/// Mentions come in the order of the document: those of the first items or members of an array or
/// object before those of the rest, and those of a single item are its own.
pub proof fn law_mentions_come_in_order(
    items: (Seq<Json>, Seq<Json>),
    members: (Seq<(Seq<char>, Json)>, Seq<(Seq<char>, Json)>),
    value: Json,
)
    ensures
        mentions(Json::Array(items.0 + items.1)) == mentions(Json::Array(items.0)) + mentions(
            Json::Array(items.1),
        ),
        mentions(Json::Object(members.0 + members.1)) == mentions(Json::Object(members.0))
            + mentions(Json::Object(members.1)),
        mentions(Json::Array(seq![value])) == mentions(value),
{
    lemma_array_mentions_concat(items.0, items.1, items.1.len());
    lemma_object_mentions_concat(members.0, members.1, members.1.len());
    let single = seq![value];
    assert(single[0] == value);
    assert(array_mentions(single, 0) == Seq::<Mention>::empty());
    assert(array_mentions(single, 1) == array_mentions(single, 0) + mentions(single[0]));
    assert(Seq::<Mention>::empty() + mentions(value) == mentions(value));
}

/// The mentions of a single member: the text under a key for a path or for paths, or the texts
/// of the array under a key for paths, in order; and then those of its value, whatever the key.
pub proof fn law_mentions_of_a_member(key: Seq<char>, value: Json, items: Seq<Json>)
    ensures
        mentions(Json::Object(seq![(key, value)])) == key_mentions(key, value) + mentions(value),
        !is_path_key(key) && !is_paths_key(key) ==> key_mentions(key, value) == Seq::<
            Mention,
        >::empty(),
        (is_path_key(key) || is_paths_key(key)) && value is Text ==> key_mentions(key, value)
            == seq![Mention { path: value->Text_0, once: false }],
        is_path_key(key) && !(value is Text) ==> key_mentions(key, value) == Seq::<
            Mention,
        >::empty(),
        is_paths_key(key) && value == Json::Array(items) ==> key_mentions(key, value)
            == items.filter(|item: Json| item is Text).map_values(
            |item: Json| Mention { path: item->Text_0, once: false },
        ),
        is_paths_key(key) && !(value is Text) && !(value is Array) ==> key_mentions(key, value)
            == Seq::<Mention>::empty(),
{
    let members = seq![(key, value)];
    assert(members[0] == (key, value));
    assert(object_mentions(members, 0) == Seq::<Mention>::empty());
    assert(object_mentions(members, 1) == object_mentions(members, 0) + (key_mentions(key, value)
        + mentions(value)));
    assert(Seq::<Mention>::empty() + (key_mentions(key, value) + mentions(value)) == key_mentions(
        key,
        value,
    ) + mentions(value));
    lemma_key_kinds(key);
    lemma_texts_of_items(items);
}

proof fn lemma_texts_of_items(items: Seq<Json>)
    ensures
        items.map_values(|item: Json| text_mentions(item)).flatten() == items.filter(
            |item: Json| item is Text,
        ).map_values(|item: Json| Mention { path: item->Text_0, once: false }),
    decreases items.len(),
{
    let f = |item: Json| item is Text;
    let g = |item: Json| Mention { path: item->Text_0, once: false };
    let lists = items.map_values(|item: Json| text_mentions(item));
    reveal(Seq::filter);
    if items.len() == 0 {
        assert(lists.flatten() == Seq::<Mention>::empty());
        assert(items.filter(f).map_values(g) == Seq::<Mention>::empty());
    } else {
        let init = items.drop_last();
        let before = init.map_values(|item: Json| text_mentions(item));
        lemma_texts_of_items(init);
        before.lemma_flatten_push(text_mentions(items.last()));
        assert(lists == before.push(text_mentions(items.last())));
        if items.last() is Text {
            assert(items.filter(f) == init.filter(f).push(items.last()));
            assert(items.filter(f).map_values(g) == init.filter(f).map_values(g).push(
                g(items.last()),
            ));
            assert(before.flatten() + text_mentions(items.last()) == before.flatten().push(
                g(items.last()),
            ));
        } else {
            assert(items.filter(f) == init.filter(f));
            assert(before.flatten() + Seq::<Mention>::empty() == before.flatten());
        }
    }
}

proof fn lemma_flatten_concat(a: Seq<Seq<Mention>>, b: Seq<Seq<Mention>>)
    ensures
        (a + b).flatten() == a.flatten() + b.flatten(),
    decreases b.len(),
{
    if b.len() == 0 {
        assert(a + b == a);
        assert(b.flatten() == Seq::<Mention>::empty());
        assert(a.flatten() + Seq::<Mention>::empty() == a.flatten());
    } else {
        let init = b.drop_last();
        lemma_flatten_concat(a, init);
        (a + init).lemma_flatten_push(b.last());
        init.lemma_flatten_push(b.last());
        assert((a + init).push(b.last()) == a + b);
        assert(init.push(b.last()) == b);
        assert(a.flatten() + (init.flatten() + b.last()) == (a.flatten() + init.flatten())
            + b.last());
    }
}

/// A patch is read line by line, and of each line the announced path, if it announces one, is
/// listed where the list does not hold it yet.
pub proof fn law_patches_are_read_line_by_line(a: Seq<char>, b: Seq<char>, target: Seq<char>)
    ensures
        patch_mentions(a + seq!['\n'] + b) == patch_mentions(a) + patch_mentions(b),
        !a.contains('\n') && announces(a, target) ==> patch_mentions(a) == ({
            let path = unquoted(unquoted(trimmed(target), '"'), '\'');
            if path.len() > 0 {
                seq![Mention { path, once: true }]
            } else {
                seq![]
            }
        }),
        !a.contains('\n') && (forall|t: Seq<char>| !#[trigger] announces(a, t)) ==> patch_mentions(
            a,
        ) == Seq::<Mention>::empty(),
{
    let f = |line: Seq<char>| line_mentions(line);
    law_pieces_on_both_sides(a, b, '\n');
    let pa = pieces(a, '\n');
    let pb = pieces(b, '\n');
    assert((pa + pb).map_values(f) == pa.map_values(f) + pb.map_values(f));
    lemma_flatten_concat(pa.map_values(f), pb.map_values(f));
    if !a.contains('\n') {
        law_text_without_separator_is_one_piece(a, '\n');
        let lists = pa.map_values(f);
        assert(lists == Seq::<Seq<Mention>>::empty().push(line_mentions(a)));
        Seq::<Seq<Mention>>::empty().lemma_flatten_push(line_mentions(a));
        assert(Seq::<Seq<Mention>>::empty().flatten() == Seq::<Mention>::empty());
        assert(Seq::<Mention>::empty() + line_mentions(a) == line_mentions(a));
        lemma_announcements(a, target);
        if let Some(t) = patch_target(a) {
            lemma_announcements(a, t);
        }
    }
}

/// A text mentions itself where it is a `file://` address, and then what its lines announce.
pub proof fn law_mentions_of_a_text(text: Seq<char>)
    ensures
        text.len() >= 7 && text.take(7) == "file://"@ ==> mentions(Json::Text(text)) == seq![
            Mention { path: text, once: false },
        ] + patch_mentions(text),
        !(text.len() >= 7 && text.take(7) == "file://"@) ==> mentions(Json::Text(text))
            == patch_mentions(text),
{
    reveal_strlit("file://");
    law_after_prefix(text, "file://"@, seq![]);
    assert(Seq::<Mention>::empty() + patch_mentions(text) == patch_mentions(text));
}

/// Mentions are listed one by one, each at the end of the list; one from a patch is passed over
/// where the list holds it.
pub proof fn law_mentions_are_listed_one_by_one(
    out: Seq<Seq<char>>,
    a: Seq<Mention>,
    b: Seq<Mention>,
    path: Seq<char>,
)
    ensures
        collected(out, seq![]) == out,
        collected(out, a + b) == collected(collected(out, a), b),
        collected(out, seq![Mention { path, once: false }]) == out.push(path),
        out.contains(path) ==> collected(out, seq![Mention { path, once: true }]) == out,
        !out.contains(path) ==> collected(out, seq![Mention { path, once: true }]) == out.push(
            path,
        ),
{
    lemma_collected_concat(out, a, b);
    reveal_with_fuel(collected, 2);
    let plain = Mention { path, once: false };
    let once = Mention { path, once: true };
    assert(seq![plain].drop_last() == Seq::<Mention>::empty());
    assert(seq![once].drop_last() == Seq::<Mention>::empty());
}

/// What was listed before stays in front.
pub proof fn law_collecting_keeps_what_was_listed(out: Seq<Seq<char>>, list: Seq<Mention>)
    ensures
        collected(out, list).len() >= out.len(),
        collected(out, list).take(out.len() as int) == out,
    decreases list.len(),
{
    if list.len() == 0 {
        assert(out.take(out.len() as int) == out);
    } else {
        let before = collected(out, list.drop_last());
        law_collecting_keeps_what_was_listed(out, list.drop_last());
        assert(collected(out, list).take(out.len() as int) == before.take(out.len() as int));
    }
}

/// Without a tool input nothing is collected.
pub proof fn law_no_input_no_paths()
    ensures
        raw_paths(None) == Seq::<Seq<char>>::empty(),
{
}

/// The path inside a mention is what is left without the white space around it and without the
/// `file` scheme, with or without the host `localhost`; of a blank mention nothing is left.
pub proof fn law_path_inside_a_mention(front: Seq<char>, path: Seq<char>, back: Seq<char>)
    requires
        forall|i: int| 0 <= i < front.len() ==> is_space(#[trigger] front[i]),
        forall|i: int| 0 <= i < back.len() ==> is_space(#[trigger] back[i]),
        path.len() > 0 ==> !is_space(path.last()),
    ensures
        hook_path_text(front + back) is None,
        path.len() > 0 && !is_space(path[0]) && !(path.len() >= 7 && path.take(7) == "file://"@)
            ==> hook_path_text(front + path + back) == Some(path),
        !(path.len() >= 9 && path.take(9) == "localhost"@) ==> hook_path_text(
            front + ("file://"@ + path) + back,
        ) == Some(path),
        hook_path_text(front + ("file://localhost"@ + path) + back) == Some(path),
{
    reveal_strlit("file://");
    reveal_strlit("file://localhost");
    reveal_strlit("localhost");
    let scheme = "file://"@;
    let local = "file://localhost"@;
    let none = Seq::<char>::empty();
    law_trimming_leaves_the_core(front, none, back);
    assert(front + none + back == front + back);
    assert(local == scheme + "localhost"@);
    if path.len() > 0 && !is_space(path[0]) && !(path.len() >= 7 && path.take(7) == scheme) {
        law_trimming_leaves_the_core(front, path, back);
        law_after_prefix(path, scheme, none);
        law_after_prefix(path, local, none);
        if path.len() >= 16 && path.take(16) == local {
            assert(path.take(7) == path.take(16).take(7));
            assert(local.take(7) == scheme);
        }
    }
    let plain = scheme + path;
    assert(plain[0] == 'f');
    assert(plain.last() == if path.len() > 0 {
        path.last()
    } else {
        '/'
    });
    law_trimming_leaves_the_core(front, plain, back);
    law_after_prefix(plain, scheme, path);
    law_after_prefix(plain, local, none);
    if plain.len() >= 16 && plain.take(16) == local {
        assert(path.take(9) == plain.take(16).skip(7));
        assert(local.skip(7) == "localhost"@);
    }
    let whole = local + path;
    assert(whole[0] == 'f');
    assert(whole.last() == if path.len() > 0 {
        path.last()
    } else {
        't'
    });
    law_trimming_leaves_the_core(front, whole, back);
    law_after_prefix(whole, local, path);
}

/// Where a mention leads: to its path, if that is absolute or begins with two backslashes or with
/// one ASCII character and a colon, and otherwise to the path as seen from the working directory;
/// every backslash becomes a slash and all else stays.
pub proof fn law_where_a_mention_leads(
    host: HostRules,
    raw: Seq<char>,
    cwd: Seq<char>,
    path: Seq<char>,
)
    ensures
        hook_path_text(raw) is None <==> normalized(host, raw, cwd) is None,
        hook_path_text(raw) == Some(path) ==> {
            let itself = host.absolute(path) || (path.len() >= 2 && path[1] == ':' && (
            path[0] as u32) < 0x80) || (path.len() >= 2 && path[0] == '\\' && path[1] == '\\');
            let whole = if itself {
                path
            } else {
                host.within(cwd, path)
            };
            &&& normalized(host, raw, cwd) matches Some(file)
            &&& file.len() == whole.len()
            &&& forall|i: int|
                0 <= i < whole.len() ==> (#[trigger] file[i]) == if whole[i] == '\\' {
                    '/'
                } else {
                    whole[i]
                }
        },
{
}

/// The paths that a host may be asked about are those inside the mentions, in order, without the
/// blank ones.
pub proof fn law_paths_to_ask_about(a: Seq<Seq<char>>, b: Seq<Seq<char>>, raw: Seq<char>)
    ensures
        hook_path_texts(a + b) == hook_path_texts(a) + hook_path_texts(b),
        hook_path_texts(seq![raw]) == match hook_path_text(raw) {
            Some(path) => seq![path],
            None => seq![],
        },
    decreases b.len(),
{
    reveal_with_fuel(hook_path_texts, 2);
    assert(seq![raw].drop_last() == Seq::<Seq<char>>::empty());
    if b.len() == 0 {
        assert(a + b == a);
        assert(hook_path_texts(a) + Seq::<Seq<char>>::empty() == hook_path_texts(a));
    } else {
        let init = b.drop_last();
        law_paths_to_ask_about(a, init, raw);
        assert((a + b).drop_last() == a + init);
        assert((a + b).last() == b.last());
        if let Some(path) = hook_path_text(b.last()) {
            assert((hook_path_texts(a) + hook_path_texts(init)).push(path) == hook_path_texts(a)
                + hook_path_texts(init).push(path));
        }
    }
}

} // verus!
