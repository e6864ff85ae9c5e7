# web_admin

The admin extension of a governed AI terminal: a browser widget talks to a
`pi` coding agent running in a sandboxed child process, every tool call the
agent makes passes policy (and, where configured, a person) before it runs,
and the conversation, its spend and its audit trail are stored and shown back.

`src/` is the verified library: the extension's decisions (what a session is
admitted with, what governance answers and shows, what the proxy answers, what
is stored and shown), each as a function with a Verus contract. Sending and
receiving (the HTTP handlers, the database, the child's pipes) is the host's:

- sessions: `admission` (caps, displacement, the reaper), `waitlist`,
  `throttle`, `approvals`, `replay`, `journal` (what gets stored, in what
  batches), `conversation`, `token`, `magic_link`, `registration`;
- governance: `gate`, `scope` (workspace confinement), `ledger` (one call
  judged twice is charged once), `secrets`, `errors`;
- the child: `config`, `launch`, `jail`, `skills`, `models`, `rpc`, `events`,
  `mcp` and `hub` (the documentation hub bridge);
- what is shown: `stats`, `pulse`, `display`, `trace`, `transcript`, `site`,
  `portal`, `cache`;
- shared text and encodings: `text`, `decimal`, `json`, `codec`.

Laws that span several functions are public proof functions named `law_…`.

`app/` holds the host pieces that stand here: reading YAML and JSON text,
the workspace on disk, starting the child, the environment, the figures
printed with floating point, and the loops (`drive`) that run the library's
step functions for admitting a session, opening a conversation, calling
the hub, answering a magic-link request and waiting for a person's verdict,
against work the host supplies. The HTTP handlers, the database and the async
plumbing that call into the library are not part of this repository.
