# fol_discord

The verified core of FOL-discord, which fixes Discord's region choice in
Brazil by sending only the connections that decide it through a foreign
SOCKS5 proxy, and only while the session is being born.

- `src/` is the library, verified with Verus: routing, the opening window,
  the SOCKS5 messages, the proxy pool, the PAC file, process identification,
  the Windows and Linux integration decisions, and the management window's
  logic (`src/interface/`).
- `tests/` exercises the library.
- `app/` is the program around it: the command line, sockets, HTTP, the
  registry, the disk and the process list.
