# arcglyph

A mouse-gesture daemon for Wayland (KDE Plasma): hold the right mouse button, draw a
shape, release, and the keyboard shortcut bound to that shape is sent to the focused app.

The logic is a Verus-verified library under `src/`:

- `gesture` — the stroke recognizer (directions, patterns, clicks) and the choice of the
  bound chord for an app;
- `daemon` — what one input event does: the recognizer's next state and the effects
  (replay, shortcut, overlay command);
- `config`, `yaml`, `yaml_read` — the configuration model, its legacy forms, flattening
  into gestures, the YAML text it is written as, and a reader of that text against which the
  written file is proved to read back as the configuration;
- `keys` — key names, resolved through evdev;
- `gui` — the preferences editor as a state machine with actions for its caller;
- `focus`, `overlay`, `injector`, `devices`, `perms`, `autostart`, `tray`, `text` — the
  decisions and texts around the focus query, the trail overlay, key injection, device
  selection, permission probing, the autostart entry and the tray.

Public proof functions named `lemma_*` state the library's laws. `app/` holds the program
around it: threads, evdev and uinput I/O, D-Bus, the iced window, the layer-shell overlay
and the tray item.
