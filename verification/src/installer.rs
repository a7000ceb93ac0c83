//! Installing the plugin, keeping it up to date, and taking it away.
use crate::plugin::{
    law_placeholder_stands_once, lemma_placeholder, plugin_head, plugin_tail,
    BINARY_PATH_PLACEHOLDER, KILO_PLUGIN_CONTENT,
};
use crate::storage::{BaseDir, HostPath, Place, Platform};
use crate::text::{
    is_space, law_first_occurrence_is_replaced, law_replacing_nothing_changes_nothing,
    law_trimming_leaves_the_core, law_trimming_takes_only_space, occurs, occurs_at, replace,
    replaced, same, trim, trimmed,
};
use vstd::prelude::*;

verus! {

/// Installs the plugin into Kilo Code.
pub struct KiloInstaller;

/// What the host says of Kilo Code and the plugin.
#[derive(Debug, PartialEq)]
pub struct HookState {
    /// A binary of Kilo Code is found.
    pub has_binary: bool,
    /// The directory of its configuration exists.
    pub has_global_config: bool,
    /// The plugin's file; empty where it exists and cannot be read.
    pub plugin: Option<String>,
}

/// How far the hooks are installed.
#[derive(Clone, Copy, Debug, PartialEq, Eq, Structural)]
pub struct HookCheckResult {
    pub tool_installed: bool,
    pub hooks_installed: bool,
    pub hooks_up_to_date: bool,
}

/// A plugin that is to replace what its file holds.
#[derive(Debug, PartialEq)]
pub struct PluginChange {
    pub new_content: String,
    /// Whether the file is written; otherwise the change is only shown.
    pub write: bool,
}

/// A plugin that is to go.
#[derive(Debug, PartialEq)]
pub struct PluginRemoval {
    pub old_content: String,
    /// Whether the file is removed; otherwise the change is only shown.
    pub remove: bool,
}

/// A path as it is written inside quotes: with every backslash doubled.
pub open spec fn escaped(path: Seq<char>) -> Seq<char> {
    replaced(path, seq!['\\'], seq!['\\', '\\'])
}

/// A template with a path in place of the placeholder.
pub open spec fn filled_in(template: Seq<char>, binary_path: Seq<char>) -> Seq<char> {
    replaced(template, BINARY_PATH_PLACEHOLDER@, escaped(binary_path))
}

/// The plugin for a binary.
pub open spec fn plugin_for(binary_path: Seq<char>) -> Seq<char> {
    filled_in(KILO_PLUGIN_CONTENT@, binary_path)
}

/// A plugin is the one for the binary, but for white space around it.
pub open spec fn up_to_date(plugin: Seq<char>, binary_path: Seq<char>) -> bool {
    trimmed(plugin) == trimmed(plugin_for(binary_path))
}

/// How far the hooks are installed.
pub open spec fn hook_check(state: HookState, binary_path: Seq<char>) -> HookCheckResult {
    let found = state.has_binary || state.has_global_config;
    HookCheckResult {
        tool_installed: found,
        hooks_installed: found && state.plugin is Some,
        hooks_up_to_date: found && match state.plugin {
            Some(plugin) => up_to_date(plugin@, binary_path),
            None => false,
        },
    }
}

/// Where the plugin lies.
pub open spec fn plugin_place(platform: Platform) -> Place {
    match platform {
        Platform::MacOs => Place {
            base: BaseDir::Home,
            components: seq![
                "Library"@,
                "Application Support"@,
                "kilo"@,
                "plugins"@,
                "git-ai.ts"@,
            ],
        },
        _ => Place {
            base: BaseDir::Home,
            components: seq![".config"@, "kilo"@, "plugins"@, "git-ai.ts"@],
        },
    }
}

impl KiloInstaller {
    pub fn name(&self) -> (name: &'static str)
        ensures
            name@ == "Kilo"@,
    {
        "Kilo"
    }

    pub fn id(&self) -> (id: &'static str)
        ensures
            id@ == "kilo"@,
    {
        "kilo"
    }

    /// The names under which Kilo Code runs.
    pub fn process_names(&self) -> (names: Vec<&'static str>)
        ensures
            names@.map_values(|n: &'static str| n@) == seq!["kilo"@, "kilocode"@],
    {
        let mut names: Vec<&'static str> = Vec::new();
        names.push("kilo");
        names.push("kilocode");
        assert(names@.map_values(|n: &'static str| n@) == seq!["kilo"@, "kilocode"@]);
        names
    }

    /// Where the plugin lies.
    pub fn plugin_path(platform: Platform) -> (path: HostPath)
        ensures
            path@ == plugin_place(platform),
    {
        match platform {
            Platform::MacOs => HostPath::of5(
                BaseDir::Home,
                "Library",
                "Application Support",
                "kilo",
                "plugins",
                "git-ai.ts",
            ),
            _ => HostPath::of4(BaseDir::Home, ".config", "kilo", "plugins", "git-ai.ts"),
        }
    }

    /// The plugin for a binary.
    pub fn generate_plugin_content(binary_path: &str) -> (content: String)
        ensures
            content@ == plugin_for(binary_path@),
    {
        proof {
            reveal_strlit("\\");
            reveal_strlit("\\\\");
            reveal_strlit("__GIT_AI_BINARY_PATH__");
            assert("\\"@ == seq!['\\']);
            assert("\\\\"@ == seq!['\\', '\\']);
        }
        let path = replace(binary_path, "\\", "\\\\");
        replace(KILO_PLUGIN_CONTENT, BINARY_PATH_PLACEHOLDER, path.as_str())
    }

    /// How far the hooks are installed.
    pub fn check_hooks(&self, state: &HookState, binary_path: &str) -> (result: HookCheckResult)
        ensures
            result == hook_check(*state, binary_path@),
    {
        if !state.has_binary && !state.has_global_config {
            return HookCheckResult {
                tool_installed: false,
                hooks_installed: false,
                hooks_up_to_date: false,
            };
        }
        match &state.plugin {
            None => HookCheckResult {
                tool_installed: true,
                hooks_installed: false,
                hooks_up_to_date: false,
            },
            Some(plugin) => HookCheckResult {
                tool_installed: true,
                hooks_installed: true,
                hooks_up_to_date: is_up_to_date(
                    plugin.as_str(),
                    KiloInstaller::generate_plugin_content(binary_path).as_str(),
                ),
            },
        }
    }

    /// What is to be written over what the plugin's file holds, unless it is up to date; a file
    /// that does not exist holds nothing.
    pub fn install_hooks(
        &self,
        existing_content: &str,
        binary_path: &str,
        dry_run: bool,
    ) -> (change: Option<PluginChange>)
        ensures
            match change {
                None => up_to_date(existing_content@, binary_path@),
                Some(c) => {
                    &&& !up_to_date(existing_content@, binary_path@)
                    &&& c.new_content@ == plugin_for(binary_path@)
                    &&& c.write == !dry_run
                },
            },
    {
        let new_content = KiloInstaller::generate_plugin_content(binary_path);
        if is_up_to_date(existing_content, new_content.as_str()) {
            return None;
        }
        Some(PluginChange { new_content, write: !dry_run })
    }

    /// What goes with the plugin's file, where it exists.
    pub fn uninstall_hooks(&self, plugin: Option<String>, dry_run: bool) -> (removal: Option<
        PluginRemoval,
    >)
        ensures
            match (removal, plugin) {
                (Some(r), Some(content)) => r.old_content@ == content@ && r.remove == !dry_run,
                (None, None) => true,
                _ => false,
            },
    {
        match plugin {
            Some(old_content) => Some(PluginRemoval { old_content, remove: !dry_run }),
            None => None,
        }
    }
}

fn is_up_to_date(existing: &str, expected: &str) -> (b: bool)
    ensures
        b == (trimmed(existing@) == trimmed(expected@)),
{
    let a = trim(existing);
    let b = trim(expected);
    same(a.as_str(), b.as_str())
}

/// A plugin that was written for a binary is up to date for it: installing it again changes
/// nothing.
pub proof fn law_written_plugin_is_up_to_date(binary_path: Seq<char>)
    ensures
        up_to_date(plugin_for(binary_path), binary_path),
{
}

/// A check finds the hooks up to date exactly where Kilo Code and the plugin are there and there
/// is nothing to install.
pub proof fn law_check_agrees_with_install(state: HookState, binary_path: Seq<char>)
    ensures
        hook_check(state, binary_path).hooks_up_to_date <==> {
            &&& hook_check(state, binary_path).tool_installed
            &&& hook_check(state, binary_path).hooks_installed
            &&& up_to_date(state.plugin->0@, binary_path)
        },
        hook_check(state, binary_path).hooks_installed ==> hook_check(
            state,
            binary_path,
        ).tool_installed,
{
}

/// A character that the placeholder does not hold keeps an occurrence from reaching over it.
proof fn lemma_no_occurrence_across(a: Seq<char>, b: Seq<char>, pattern: Seq<char>, bar: char)
    requires
        !pattern.contains(bar),
        pattern.len() > 0,
        !occurs(a, pattern),
        !occurs(b, pattern),
        (a.len() > 0 && a.last() == bar) || (b.len() > 0 && b.first() == bar),
    ensures
        !occurs(a + b, pattern),
{
    let n = pattern.len() as int;
    assert forall|i: int| !occurs_at(a + b, pattern, i) by {
        if occurs_at(a + b, pattern, i) {
            let window = (a + b).subrange(i, i + n);
            if i + n <= a.len() {
                assert(a.subrange(i, i + n) == window);
                assert(occurs_at(a, pattern, i));
            } else if i >= a.len() {
                assert(b.subrange(i - a.len(), i - a.len() + n) == window);
                assert(occurs_at(b, pattern, i - a.len()));
            } else if a.last() == bar && a.len() > 0 {
                assert(window[a.len() - 1 - i] == bar);
                assert(pattern[a.len() - 1 - i] == bar);
            } else {
                assert(window[a.len() - i] == bar);
                assert(pattern[a.len() - i] == bar);
            }
        }
    }
}

/// Where a template holds the placeholder once, inside quotes, filling it in puts the escaped
/// path in its place and leaves the rest; no placeholder is then left, unless the path itself
/// holds one.
pub proof fn law_placeholder_gives_way_to_the_path(
    head: Seq<char>,
    tail: Seq<char>,
    binary_path: Seq<char>,
)
    requires
        head.len() > 0 && head.last() == '"',
        tail.len() > 0 && tail.first() == '"',
        !occurs(head, BINARY_PATH_PLACEHOLDER@),
        !occurs(tail, BINARY_PATH_PLACEHOLDER@),
    ensures
        filled_in(head + BINARY_PATH_PLACEHOLDER@ + tail, binary_path) == head + escaped(
            binary_path,
        ) + tail,
        !occurs(binary_path, BINARY_PATH_PLACEHOLDER@) ==> !occurs(
            filled_in(head + BINARY_PATH_PLACEHOLDER@ + tail, binary_path),
            BINARY_PATH_PLACEHOLDER@,
        ),
{
    let p = BINARY_PATH_PLACEHOLDER@;
    let with = escaped(binary_path);
    let template = head + p + tail;
    lemma_placeholder_is_plain();
    let n = p.len() as int;
    assert(template.subrange(head.len() as int, head.len() + n) == p);
    assert(occurs_at(template, p, head.len() as int));
    assert forall|i: int| 0 <= i < head.len() implies !occurs_at(template, p, i) by {
        if occurs_at(template, p, i) {
            let window = template.subrange(i, i + n);
            if i + n <= head.len() {
                assert(head.subrange(i, i + n) == window);
                assert(occurs_at(head, p, i));
            } else {
                assert(window[head.len() - 1 - i] == '"');
                assert(p[head.len() - 1 - i] == '"');
            }
        }
    }
    law_first_occurrence_is_replaced(template, p, with, head.len() as int);
    assert(template.take(head.len() as int) == head);
    assert(template.skip(head.len() + n) == tail);
    law_replacing_nothing_changes_nothing(tail, p, with);
    if !occurs(binary_path, p) {
        lemma_escaping_adds_no_occurrence(binary_path, p);
        lemma_no_occurrence_across(head, with, p, '"');
        lemma_no_occurrence_across(head + with, tail, p, '"');
    }
}

/// The plugin for a binary is the plugin with the escaped path in place of the placeholder, as
/// the value of the constant that names the binary. It holds no placeholder, unless the path
/// itself holds one.
pub proof fn law_plugin_names_its_binary(binary_path: Seq<char>)
    ensures
        plugin_for(binary_path) == plugin_head() + escaped(binary_path) + plugin_tail(),
        occurs(
            plugin_for(binary_path),
            "const GIT_AI_BIN = \""@ + escaped(binary_path) + seq!['"'],
        ),
        !occurs(binary_path, BINARY_PATH_PLACEHOLDER@) ==> !occurs(
            plugin_for(binary_path),
            BINARY_PATH_PLACEHOLDER@,
        ),
{
    let start = "const GIT_AI_BIN = \""@;
    let with = escaped(binary_path);
    let constant = start + with + seq!['"'];
    let whole = plugin_head() + with + plugin_tail();
    law_placeholder_stands_once();
    reveal_strlit("const GIT_AI_BIN = \"");
    law_placeholder_gives_way_to_the_path(plugin_head(), plugin_tail(), binary_path);
    let from = plugin_head().len() - start.len();
    let part = whole.subrange(from, from + constant.len());
    assert(part == plugin_head().subrange(from, plugin_head().len() as int) + with + seq!['"']);
    assert(occurs_at(whole, constant, from));
}

/// The placeholder holds neither quotes nor backslashes.
proof fn lemma_placeholder_is_plain()
    ensures
        BINARY_PATH_PLACEHOLDER@.len() == 22,
        !BINARY_PATH_PLACEHOLDER@.contains('"'),
        !BINARY_PATH_PLACEHOLDER@.contains('\\'),
{
    lemma_placeholder();
}

/// As far as an escaped path holds no backslash, it is the path.
proof fn lemma_escaped_front(path: Seq<char>, n: int)
    requires
        0 <= n <= escaped(path).len(),
        forall|i: int| 0 <= i < n ==> (#[trigger] escaped(path)[i]) != '\\',
    ensures
        n <= path.len(),
        escaped(path).take(n) == path.take(n),
    decreases path.len(),
{
    if path.len() > 0 && n > 0 {
        let rest = path.drop_first();
        if path[0] == '\\' {
            assert(path.subrange(0, 1) == seq!['\\']);
            assert(seq!['\\'].is_prefix_of(path));
            assert(escaped(path)[0] == '\\');
        } else {
            assert(!seq!['\\'].is_prefix_of(path)) by {
                if seq!['\\'].is_prefix_of(path) {
                    assert(path.subrange(0, 1)[0] == '\\');
                }
            }
            assert(escaped(path) == seq![path[0]] + escaped(rest));
            assert forall|i: int| 0 <= i < n - 1 implies (#[trigger] escaped(rest)[i]) != '\\' by {
                assert(escaped(rest)[i] == escaped(path)[i + 1]);
            }
            lemma_escaped_front(rest, n - 1);
            assert forall|i: int| 0 <= i < n implies escaped(path).take(n)[i] == path.take(
                n,
            )[i] by {
                if i > 0 {
                    assert(escaped(rest).take(n - 1)[i - 1] == rest.take(n - 1)[i - 1]);
                }
            }
            assert(escaped(path).take(n) == path.take(n));
        }
    } else {
        assert(escaped(path).take(n) == path.take(n));
    }
}

/// Escaping a path brings in no occurrence of a pattern without backslashes.
proof fn lemma_escaping_adds_no_occurrence(path: Seq<char>, pattern: Seq<char>)
    requires
        pattern.len() > 0,
        !pattern.contains('\\'),
        !occurs(path, pattern),
    ensures
        !occurs(escaped(path), pattern),
    decreases path.len(),
{
    let n = pattern.len() as int;
    let e = escaped(path);
    if path.len() > 0 {
        let rest = path.drop_first();
        assert forall|i: int| !occurs_at(rest, pattern, i) by {
            if occurs_at(rest, pattern, i) {
                assert(rest.subrange(i, i + n) == path.subrange(i + 1, i + 1 + n));
                assert(occurs_at(path, pattern, i + 1));
            }
        }
        lemma_escaping_adds_no_occurrence(rest, pattern);
        let step: int = if path[0] == '\\' {
            2
        } else {
            1
        };
        if path[0] == '\\' {
            assert(path.subrange(0, 1) == seq!['\\']);
            assert(seq!['\\'].is_prefix_of(path));
            assert(path.skip(1) == rest);
            assert(e == seq!['\\', '\\'] + escaped(rest));
        } else {
            assert(!seq!['\\'].is_prefix_of(path)) by {
                if seq!['\\'].is_prefix_of(path) {
                    assert(path.subrange(0, 1)[0] == '\\');
                }
            }
            assert(e == seq![path[0]] + escaped(rest));
        }
        assert forall|i: int| !occurs_at(e, pattern, i) by {
            if occurs_at(e, pattern, i) {
                let window = e.subrange(i, i + n);
                assert forall|k: int| i <= k < i + n implies (#[trigger] e[k]) != '\\' by {
                    assert(window[k - i] == pattern[k - i]);
                    assert(pattern.contains(pattern[k - i]));
                }
                if i >= step {
                    assert(escaped(rest).subrange(i - step, i - step + n) == window);
                    assert(occurs_at(escaped(rest), pattern, i - step));
                } else if step == 2 {
                    assert(e[i] == '\\');
                } else {
                    lemma_escaped_front(path, n);
                    assert(path.subrange(0, n) == path.take(n));
                    assert(e.take(n) == window);
                    assert(occurs_at(path, pattern, 0));
                }
            }
        }
    }
}

/// Nothing but white space.
pub open spec fn all_space(s: Seq<char>) -> bool {
    forall|i: int| 0 <= i < s.len() ==> is_space(#[trigger] s[i])
}

/// A plugin that is up to date is the generated one, character for character, but for white space
/// around them: one text stands in both, and all that either has beside it is white space.
pub proof fn law_up_to_date_plugin_is_the_generated_one(
    plugin: Seq<char>,
    binary_path: Seq<char>,
) -> (parts: (Seq<char>, (Seq<char>, Seq<char>), (Seq<char>, Seq<char>)))
    requires
        up_to_date(plugin, binary_path),
    ensures
        plugin == parts.1.0 + parts.0 + parts.1.1,
        plugin_for(binary_path) == parts.2.0 + parts.0 + parts.2.1,
        all_space(parts.1.0) && all_space(parts.1.1),
        all_space(parts.2.0) && all_space(parts.2.1),
{
    let around = law_trimming_takes_only_space(plugin);
    let around_generated = law_trimming_takes_only_space(plugin_for(binary_path));
    (trimmed(plugin), around, around_generated)
}

/// White space around the generated text, more or less of it, leaves a plugin up to date.
pub proof fn law_white_space_does_not_outdate_a_plugin(
    core: Seq<char>,
    around: (Seq<char>, Seq<char>),
    around_generated: (Seq<char>, Seq<char>),
    binary_path: Seq<char>,
)
    requires
        plugin_for(binary_path) == around_generated.0 + core + around_generated.1,
        all_space(around.0) && all_space(around.1),
        all_space(around_generated.0) && all_space(around_generated.1),
        core.len() > 0 ==> !is_space(core[0]) && !is_space(core.last()),
    ensures
        up_to_date(around.0 + core + around.1, binary_path),
{
    law_trimming_leaves_the_core(around.0, core, around.1);
    law_trimming_leaves_the_core(around_generated.0, core, around_generated.1);
}

/// A difference between the generated text and what stands in the file, anywhere but in the
/// white space around them, outdates the plugin.
pub proof fn law_any_other_difference_outdates_a_plugin(
    a: Seq<char>,
    b: Seq<char>,
    around: (Seq<char>, Seq<char>),
    around_generated: (Seq<char>, Seq<char>),
    binary_path: Seq<char>,
)
    requires
        a != b,
        plugin_for(binary_path) == around_generated.0 + b + around_generated.1,
        all_space(around.0) && all_space(around.1),
        all_space(around_generated.0) && all_space(around_generated.1),
        a.len() > 0 ==> !is_space(a[0]) && !is_space(a.last()),
        b.len() > 0 ==> !is_space(b[0]) && !is_space(b.last()),
    ensures
        !up_to_date(around.0 + a + around.1, binary_path),
{
    law_trimming_leaves_the_core(around.0, a, around.1);
    law_trimming_leaves_the_core(around_generated.0, b, around_generated.1);
}

/// A check finds Kilo Code where it has a binary or a configuration, the hooks where the plugin
/// is there too, and the hooks up to date exactly where installing would change nothing.
pub proof fn law_what_a_check_finds(state: HookState, binary_path: Seq<char>)
    ensures
        hook_check(state, binary_path).tool_installed <==> state.has_binary
            || state.has_global_config,
        hook_check(state, binary_path).hooks_installed <==> (state.has_binary
            || state.has_global_config) && state.plugin is Some,
        hook_check(state, binary_path).hooks_up_to_date <==> (state.has_binary
            || state.has_global_config) && state.plugin is Some && trimmed(state.plugin->0@)
            == trimmed(plugin_for(binary_path)),
{
}

/// Escaping goes character by character: a backslash becomes two, any other character stays.
pub proof fn law_escaping_goes_by_characters(a: Seq<char>, c: char, b: Seq<char>)
    ensures
        escaped(seq![]) == Seq::<char>::empty(),
        escaped(seq![c]) == if c == '\\' {
            seq!['\\', '\\']
        } else {
            seq![c]
        },
        escaped(a + b) == escaped(a) + escaped(b),
    decreases a.len(),
{
    let one = seq!['\\'];
    assert(one.is_prefix_of(seq![c]) <==> c == '\\') by {
        assert(seq![c].subrange(0, 1) == seq![c]);
        assert(one[0] == '\\' && seq![c][0] == c);
    }
    if c == '\\' {
        assert(seq![c].skip(1) == Seq::<char>::empty());
        assert(escaped(seq![c]) == seq!['\\', '\\'] + escaped(seq![]));
    } else {
        assert(seq![c].drop_first() == Seq::<char>::empty());
        assert(escaped(seq![c]) == seq![c] + escaped(seq![]));
    }
    if a.len() == 0 {
        assert(a + b == b);
        assert(a == Seq::<char>::empty());
    } else {
        let rest = a.drop_first();
        let whole = a + b;
        law_escaping_goes_by_characters(rest, c, b);
        assert(whole.drop_first() == rest + b);
        assert(whole.skip(1) == rest + b);
        assert(a.skip(1) == rest);
        assert(one.is_prefix_of(a) <==> a[0] == '\\') by {
            assert(a.subrange(0, 1) == seq![a[0]]);
            assert(one[0] == '\\');
        }
        assert(one.is_prefix_of(whole) <==> a[0] == '\\') by {
            assert(whole.subrange(0, 1) == seq![a[0]]);
            assert(one[0] == '\\');
        }
        let step = if a[0] == '\\' {
            seq!['\\', '\\']
        } else {
            seq![a[0]]
        };
        assert(escaped(a) == step + escaped(rest));
        assert(escaped(whole) == step + escaped(rest + b));
        assert(step + (escaped(rest) + escaped(b)) == (step + escaped(rest)) + escaped(b));
    }
}

} // verus!
