# smbn

The configuration, validation and engine-protocol logic of a Windows SMB server manager, written
in Verus and verified.

## Layout

- `src/` — the verified library:
  - `config` — the persisted configuration, its defaults, and the schema version check;
  - `validation` — every error and warning a configuration raises, in order;
  - `ip` — IPv4 and IPv6 address literals;
  - `util` — principal lists, durations and generated identifiers;
  - `forms` — turning the editing forms into configuration, and save reports;
  - `status` — status texts, list rows and the timer and window decisions;
  - `protocol` — the IPC message types;
  - `engine` — message framing, response checks, and engine launch and start-up reports;
  - `paths` — data directories and where the engine is looked for;
  - `autostart` — the run-at-log-on registry value;
  - `icons` — the icon files, drawn in code;
  - `secret` — the stored form of sealed passwords;
  - `text` — character-level helpers.
- `tests/` — tests of the library.
- `app/` — the Windows program around the library: the window, the tray icon, file and registry
  access, DPAPI, and the engine process and its named pipe.
