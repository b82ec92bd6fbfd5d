# rbld

Keeps a NixOS flake repository honest: `check boundaries` refuses a commit
that touches another host's files, or mixes this host's files with shared
ones, and `update` updates the flake inputs, commits the lock file, rebuilds
the system and records the rebuild in git notes, putting the lock file back
when nix, git or nh reports that its step failed, or when the rebuild could
not be run at all once the lock file was committed.

The library under `src/` holds the decisions and the text, verified with
Verus:

- `text` — characters, prefixes, lines as `str::lines` cuts them, white space;
- `render` — styles, painting text with anstyle, file paths, the listing root
  and the branch glyphs;
- `listing` — termtree listings, with what each one draws;
- `boundaries` — sorting changed paths by host, grouping them, and the verdict;
- `git` — the changed paths git reports, each listed once, and the commit's
  arguments;
- `update` — the summaries of what nix and nh reported, the commit message and
  the note;
- `flow` — the order an update runs in, as a state machine;
- `voice` — the labelled lines and the blank lines between them;
- `config` — the configuration file, read once per path;
- `cli` — the command line, read.

`app/` is the program around it: clap, the repository through git2, the
terminal, the pty and the programs run on it.
