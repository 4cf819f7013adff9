# netsec

A collection of small network-security tools, with their rules and data
handling written as a Verus-verified library.

- `src/` is the verified library, one module per tool or shared concern:
  the ledger (`chain`, `hex`, `crypto`, `json`), content inspection (`dlp`,
  `luhn`, `sniffer`, `fanotify`), per-client admission (`shield`), the XDP
  firewall and router (`blocklist`, `firewall`, `router`), the file-access
  guard (`lsm`), process and syscall events (`events`), the eBPF program
  guard (`protect`), the DNS services (`dns`, `clock`), the SIEM pipeline
  (`siem`), the object store (`objstore`) and the command lines of the
  transfer tools (`cli`). Calls into outside crates go through small trusted
  wrappers whose contracts are documented next to them.
- `tests/` exercises the library on concrete values.
- `app/` holds the programs around the library: servers, kernel-program
  loaders, capture and storage glue.
