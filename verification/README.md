# sshx

`sshx` is a front-end for OpenSSH configs: it reads a config and the files
it includes, understands `## sshx: key = value` annotations (group, alias,
description, password, requires, background, after_connect), builds the
exact `ssh` command for a host, and manages host blocks (list, show, add,
edit, remove).

The library under `src/` is written in Verus and proved against its
contracts:

- `text` — the `str` operations the parser relies on (`lines`, `trim`,
  `split_whitespace`, `parse::<u16>`, ...), stated over `Seq<char>`.
- `parser` — host blocks, options and annotations of one file.
- `includes` — following `Include` directives, as a walk that asks its
  caller for files, canonical paths and glob matches.
- `walk_result` — what a finished walk gives: the files read, each under
  its own canonical path, and all their hosts.
- `index` — groups, aliases and the checks on `requires`.
- `ssh_command` — the argument vector and shell line of `ssh`.
- `commands`, `selector`, `connect` — what the subcommands, the host
  selector and a connection compute.
- `tunnel` — bringing up the background tunnel of a required host: which
  ports to check, when to start it, when it is up, dead or late.
- `readback` — the host block that `config add` writes reads back as the
  host that was entered.
- `removal` — the text `config remove` leaves reads back as the other
  hosts, unchanged.
- `error`, `model`, `config`, `cli` — errors, data model, settings, the
  command line.

`app/` is the program around it: argument parsing (clap), the settings file
(serde, toml), the file system, prompts (dialoguer), the selector (skim),
the clipboard (arboard) and running `ssh`.
