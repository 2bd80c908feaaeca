# agentdeck

Live state of coding agents — sessions and the subagents that they launch — rebuilt from the hook
events that they send, and shown in the tray.

- `src/` is the library, verified with Verus. `model` says what the session tree is and what each
  event does to it; `state` is the store that does it; `state::snapshot` is the state as JSON;
  `daemon` takes requests in and removes what has gone silent; `settings` installs the hook entries;
  `tray` and `feed` are what the tray shows and how it reads the daemon's event stream; `discover`
  keeps raw payloads. `json`, `wire`, `text` and `clock` carry the rest. `laws` states what holds of
  the library as a whole.
- `app/` is the program around it: HTTP, files, the tray itself. Its first argument picks the part
  to run: `daemon`, `discover`, or the tray by default.
- `tests/` runs the library.

Environment: `AGENTDECK_TTL_SECS` (a node silent for more seconds than this is removed, 300 by
default), `AGENTDECK_DONE_TTL_SECS` (a finished subagent silent for that many seconds is removed,
60 by default),
`AGENTDECK_AGENT_DIR` (the agent's own directory below `$HOME`, where its `settings.json` stands),
`AGENTDECK_DUMP_DIR` (where `discover` keeps payloads, `docs/payloads` by default).
