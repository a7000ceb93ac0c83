# kilo

Support for Kilo Code sessions in git-ai: reading transcripts, taking in hook events, and
installing the plugin that reports them. The logic is written in Verus and proved against its
contracts.

- `src/` is the verified library.
  - `agent`, `transcript`, `paging`, `watermark`: the reader of transcripts, the events that it
    puts together from database rows, and what successive reads give.
  - `preset`, `tool_paths`: hook events, and the files that a tool call mentions.
  - `storage`: where the data lies on each platform.
  - `installer`, `plugin`: the plugin and its upkeep.
  - `json`, `host_path`, `text`, `errors`: the values that the rest is made of.
- `app/` is the code around it: databases, files and the environment. It hands the library plain
  values. The surrounding application implements `host::Host`.
- `tests/` runs the library.

Which paths are absolute, how two are joined and when they are the same is for the host to say.
The application asks it about the paths that `KiloPreset::hook_paths` lists and hands the answers
over as `host_path::HostPaths`. A Unix-like host need not be asked: its rules are in `host_path`.
