# MihomoManifold

A GTK4/libadwaita front-end for the mihomo proxy core: subscriptions that carry
a device identifier, split routing you control, and a core the GUI owns.

- `src/` is the verified library (Verus): the settings model and its layering
  (`json`), the config written for the core (`template`, `yaml`), subscription
  downloads and their headers (`subscription`, `headers`, `hwid`), what the
  controller is asked and answers (`api`), the core's status and TUN checks
  (`corectl`, `state`), and what the pages show (`pages`).
- `app/` is the program around it: the window, the HTTP client, the child
  process, file access and the tray.
- `tests/` runs the library on concrete values.
