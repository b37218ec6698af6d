# agentic_navigation_guide

A navigation guide is a Markdown document whose `<agentic-navigation-guide>`
block lists the files and directories of a repository, with comments. This
crate reads such guides, checks their syntax, compares them with the
filesystem, generates new ones from a directory tree, and reports the outcome
of the `check`, `verify`, `dump` and `init` commands.

The library under `src/` is verified with Verus: every public function states
its result in its contract over mathematical models (sequences of characters
and bytes, listings of directories, the flattened guide tree), and the laws of
the library are public proof functions next to the code they speak of.

The library does no I/O. Its callers hand it what the filesystem said: the
guide text, the listings of the directories a guide mentions, the entries met
while walking a generation root or a search root. It hands back values and
the lines to print.

## Layout

- `src/text.rs`, `src/path_codec.rs`: character and byte utilities, the
  quoting of names in guides and the rendering of names in diagnostics.
- `src/lexer.rs`, `src/parser.rs`: reading a guide document into its tree.
- `src/validator.rs`: the syntax rules of a parsed tree.
- `src/guide_check.rs`: comparing a tree with directory listings. A listed
  name must be the exact name of an enumerated entry; a name the host only
  resolves to a differently spelled entry is reported as such, and every
  directory visited must hold only names a guide can show.
- `src/exclusion.rs`: the shared exclusion-pattern language.
- `src/dumper.rs`, `src/entry_type.rs`: generating a guide from the entries
  met by the walk of a root: what is included (exclusions, depth limit),
  which entries are refused (names, kinds), the order of the walk, and the
  rendering.
- `src/round_trip.rs`: the laws that tie generation to reading: a
  generated guide reads back to the traversal it came from, passes the
  syntax check, and verifies against the listings of that traversal, also
  stated for the guide generated from any walk.
- `src/recursive.rs`, `src/commands.rs`: outcomes, reports and exit
  decisions of the guide commands, and the classification of entries met
  while searching for guides.
- `src/cli.rs`, `src/guide_input.rs`, `src/output.rs`: option values,
  environment defaults, guide selection and output destination rules.
- `app/`: the command-line program, which parses arguments, reads the
  environment and the filesystem, and prints.

## Known limits

`init --output` and `dump --output` create their destination exclusively but
do not publish its content atomically: a concurrent reader may observe an
in-progress prefix, and no crash durability is promised.
