//! The plugin that reports Kilo Code's tool calls.
use crate::text::{occurs, occurs_at};
use vstd::prelude::*;

verus! {

/// The text that stands for the path of the binary in the plugin.
pub const BINARY_PATH_PLACEHOLDER: &'static str = "__GIT_AI_BINARY_PATH__";

/// The plugin, with the placeholder in it.
pub const KILO_PLUGIN_CONTENT: &'static str = r#"/**
 * git-ai plugin for Kilo Code
 *
 * Reports every tool call that edits files or runs a shell command to git-ai, before and after
 * it is done, so that the changes can be attributed to the session.
 */
import type { Plugin } from "@kilocode/plugin"

const GIT_AI_BIN = "__GIT_AI_BINARY_PATH__"

const FILE_EDIT_TOOLS = ["edit", "write", "patch", "multiedit", "apply_patch"]
const SHELL_TOOLS = ["bash", "shell"]

const isReported = (tool: string): boolean =>
  FILE_EDIT_TOOLS.includes(tool) || SHELL_TOOLS.includes(tool)

export const GitAiPlugin: Plugin = async ({ $, directory }) => {
  // The arguments of a call are known before it only.
  const pendingArgs = new Map<string, unknown>()

  const report = async (
    hookEventName: "PreToolUse" | "PostToolUse",
    call: { tool: string; sessionID: string; callID: string },
    args: unknown,
  ): Promise<void> => {
    const hookInput = JSON.stringify({
      hook_event_name: hookEventName,
      session_id: call.sessionID,
      cwd: directory,
      tool_name: call.tool,
      tool_use_id: call.callID,
      tool_input: args,
    })
    try {
      await $`echo ${hookInput} | ${GIT_AI_BIN} checkpoint kilo --hook-input stdin`.quiet()
    } catch {
      // A failed report must not fail the tool.
    }
  }

  return {
    "tool.execute.before": async (input, output) => {
      if (!isReported(input.tool)) return
      pendingArgs.set(input.callID, output.args)
      await report("PreToolUse", input, output.args)
    },

    "tool.execute.after": async (input) => {
      if (!isReported(input.tool)) return
      const args = pendingArgs.get(input.callID)
      pendingArgs.delete(input.callID)
      await report("PostToolUse", input, args)
    },
  }
}

export default GitAiPlugin
"#;

/// Where the placeholder stands in the plugin.
pub open spec fn placeholder_at() -> int {
    275
}

/// The plugin before the placeholder.
pub open spec fn plugin_head() -> Seq<char> {
    KILO_PLUGIN_CONTENT@.take(placeholder_at())
}

/// The plugin behind the placeholder.
pub open spec fn plugin_tail() -> Seq<char> {
    KILO_PLUGIN_CONTENT@.skip(placeholder_at() + BINARY_PATH_PLACEHOLDER@.len())
}

/// The placeholder, character by character.
pub(crate) proof fn lemma_placeholder()
    ensures
        BINARY_PATH_PLACEHOLDER@ == seq![
            '_', '_', 'G', 'I', 'T', '_', 'A', 'I', '_', 'B', 'I', 'N', 'A', 'R', 'Y', '_', 'P',
            'A', 'T', 'H', '_', '_',
        ],
{
    reveal_strlit("__GIT_AI_BINARY_PATH__");
}

/// The plugin's text, as far as it concerns the placeholder: the constant that it is written
/// into, and that its letter `Y` occurs nowhere else.
#[verifier::spinoff_prover]
proof fn lemma_plugin_text()
    ensures
        KILO_PLUGIN_CONTENT@.len() == 1758,
        forall|i: int|
            0 <= i < KILO_PLUGIN_CONTENT@.len() && #[trigger] KILO_PLUGIN_CONTENT@[i] == 'Y' ==> i
                == placeholder_at() + 14,
        KILO_PLUGIN_CONTENT@.subrange(placeholder_at(), placeholder_at() + 22)
            == BINARY_PATH_PLACEHOLDER@,
        KILO_PLUGIN_CONTENT@.subrange(placeholder_at() - 20, placeholder_at())
            == "const GIT_AI_BIN = \""@,
        KILO_PLUGIN_CONTENT@[placeholder_at() + 22] == '"',
{
    reveal_strlit("const GIT_AI_BIN = \"");
    lemma_placeholder();
    reveal_strlit(r#"/**
 * git-ai plugin for Kilo Code
 *
 * Reports every tool call that edits files or runs a shell command to git-ai, before and after
 * it is done, so that the changes can be attributed to the session.
 */
import type { Plugin } from "@kilocode/plugin"

const GIT_AI_BIN = "__GIT_AI_BINARY_PATH__"

const FILE_EDIT_TOOLS = ["edit", "write", "patch", "multiedit", "apply_patch"]
const SHELL_TOOLS = ["bash", "shell"]

const isReported = (tool: string): boolean =>
  FILE_EDIT_TOOLS.includes(tool) || SHELL_TOOLS.includes(tool)

export const GitAiPlugin: Plugin = async ({ $, directory }) => {
  // The arguments of a call are known before it only.
  const pendingArgs = new Map<string, unknown>()

  const report = async (
    hookEventName: "PreToolUse" | "PostToolUse",
    call: { tool: string; sessionID: string; callID: string },
    args: unknown,
  ): Promise<void> => {
    const hookInput = JSON.stringify({
      hook_event_name: hookEventName,
      session_id: call.sessionID,
      cwd: directory,
      tool_name: call.tool,
      tool_use_id: call.callID,
      tool_input: args,
    })
    try {
      await $`echo ${hookInput} | ${GIT_AI_BIN} checkpoint kilo --hook-input stdin`.quiet()
    } catch {
      // A failed report must not fail the tool.
    }
  }

  return {
    "tool.execute.before": async (input, output) => {
      if (!isReported(input.tool)) return
      pendingArgs.set(input.callID, output.args)
      await report("PreToolUse", input, output.args)
    },

    "tool.execute.after": async (input) => {
      if (!isReported(input.tool)) return
      const args = pendingArgs.get(input.callID)
      pendingArgs.delete(input.callID)
      await report("PostToolUse", input, args)
    },
  }
}

export default GitAiPlugin
"#);
}

/// The placeholder stands in the plugin once, inside the quotes of the constant that names the
/// binary.
pub proof fn law_placeholder_stands_once()
    ensures
        forall|i: int|
            occurs_at(KILO_PLUGIN_CONTENT@, BINARY_PATH_PLACEHOLDER@, i) <==> i == placeholder_at(),
        KILO_PLUGIN_CONTENT@ == plugin_head() + BINARY_PATH_PLACEHOLDER@ + plugin_tail(),
        !occurs(plugin_head(), BINARY_PATH_PLACEHOLDER@),
        !occurs(plugin_tail(), BINARY_PATH_PLACEHOLDER@),
        "const GIT_AI_BIN = \""@.is_suffix_of(plugin_head()),
        plugin_head().last() == '"',
        plugin_tail().len() > 0,
        plugin_tail().first() == '"',
{
    let text = KILO_PLUGIN_CONTENT@;
    let p = BINARY_PATH_PLACEHOLDER@;
    let at = placeholder_at();
    lemma_plugin_text();
    lemma_placeholder();
    assert forall|i: int| occurs_at(text, p, i) <==> i == at by {
        if occurs_at(text, p, i) {
            assert(text.subrange(i, i + 22)[14] == 'Y');
            assert(text[i + 14] == 'Y');
        }
    }
    assert(text == plugin_head() + p + plugin_tail()) by {
        assert(text.subrange(at, at + 22) == p);
        assert(text == text.take(at) + text.subrange(at, at + 22) + text.skip(at + 22));
    }
    assert forall|i: int| !occurs_at(plugin_head(), p, i) by {
        if occurs_at(plugin_head(), p, i) {
            assert(plugin_head().subrange(i, i + 22)[14] == 'Y');
            assert(text[i + 14] == 'Y');
        }
    }
    assert forall|i: int| !occurs_at(plugin_tail(), p, i) by {
        if occurs_at(plugin_tail(), p, i) {
            assert(plugin_tail().subrange(i, i + 22)[14] == 'Y');
            assert(text[at + 22 + i + 14] == 'Y');
        }
    }
    assert("const GIT_AI_BIN = \""@.is_suffix_of(plugin_head())
        && plugin_head().last() == '"') by {
        reveal_strlit("const GIT_AI_BIN = \"");
        assert(plugin_head().subrange(at - 20, at) == text.subrange(at - 20, at));
        assert(text.subrange(at - 20, at)[19] == '"');
    }
}

} // verus!
