# sshpass-rs

A replacement for `sshpass`: it runs a command (usually `ssh`) on a pseudo
terminal, answers the password prompt, and reports the outcome in
`sshpass`'s exit codes (0 to 7). Passwords can also be kept in the platform
credential store or in a JSON file, under keys such as `user@host`.

## Layout

- `src/` is the library, verified with Verus:
  - `matcher` — streaming prompt and host-key message detection, with
    its first-occurrence law in `matcher_laws`;
  - `cli` — command-line rules, ssh argument scanning, `ssh -G` output,
    with their laws in `cli_laws`;
  - `password`, `keychain`, `string_map` — password sources and stores;
  - `backend` — which store a run uses (`SSHPASSX_BACKEND`);
  - `text` — string helpers and Unix path components;
  - `file_store`, `scan`, `order` — the JSON store file: reading, writing
    (entries sorted) and their laws in `store_laws`, `store_order` and
    `json_laws`;
  - `session` — what the PTY loop does with each chunk of output, exit-code
    reporting, retries of interrupted I/O;
  - `signals` — what each received signal does;
  - `onepassword` — picking titles and passwords out of 1Password items.
- `app/` is the program: argument parsing with clap, the PTY and child
  process, signal registration, file and terminal I/O, the `op` commands of
  the 1Password store and JSON decoding of their output.
- `tests/` exercises the library on concrete values.
