# computer_use

The verified core of a local stdio MCP server that lets an AI assistant
observe (and, through virtual input devices, act on) a Hyprland/Wayland
desktop.

- `src/` is the library, checked by Verus: monitor geometry and the layout
  box, the configuration fingerprint, the observation store and revision
  text, the `computer_observe` state machine (capture bracketed by
  configuration checks, retried once), PNG header reading, helper-process
  outcome handling, display-change event classification, and the decision
  logic of the virtual pointer and keyboard sessions (which requests to send,
  what to release, how far a batch got).
- `app/` is the program around it: the MCP server (`rmcp`) and the loops
  that perform what the library's state machines ask for, process and
  socket I/O (`tokio`, `wayland-client`), keymap compilation (`xkbcommon`),
  and the floating-point parts (scale division, image-to-layout mapping).
- `tests/` exercises the library on concrete values.
