# maestro

A cockpit for background jobs: the user's systemd services and timers and
Docker containers, listed in one normalised form and controlled without a
shell.

- `src/` is the verified core (Verus): the data model and global ids
  (`model`), the error type and its messages (`error`), the rules of each
  provider (`provider::systemd`, `provider::docker`), the routing of actions
  by global id (`registry`), the decisions of the background loops
  (`events`), and the string helpers they rest on (`text`).
- `app/` is the application around it: the D-Bus and Docker socket calls,
  the async provider trait, the Tauri commands, events, window and tray, and
  the serde forms of the model.
- `tests/` exercises the core on concrete values.
