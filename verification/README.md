# bridgebot

A background daemon that watches an Obsidian vault and local git
repositories and reacts to changes with configurable rules: staleness
alerts for tasks, broken-wikilink checks, backlinks from project hubs,
frontmatter updates and shell commands.

## Layout

- `src/` — the rule engine, verified with Verus: configuration and its
  validation, trigger matching, wikilink extraction and resolution over a
  snapshot of the vault's directory tree, frontmatter framing and
  rewriting, and the decisions behind every action. Each public function
  states its result in its contract; the laws of the library (for
  instance that a disabled rule never fires, or that adding a hub
  backlink twice changes nothing the second time) are public proof
  functions.
- `app/` — the program around it: command line, reading files and
  directories, desktop notifications, git, the file-system watchers and
  the event loop.
- `tests/` — tests of the library on concrete values.

The library calls `serde_yaml` (to rewrite a frontmatter block) and
`chrono` (to read `%Y-%m-%d` dates) through small trusted wrappers whose
contracts name what those calls return.
