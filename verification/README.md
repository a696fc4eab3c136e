# wl_lock

A Wayland screen locker built on the `ext-session-lock-v1` protocol, with an
egui user interface drawn through wgpu.

- `src/` is the verified core: the state that the compositor's events change
  (globals, seats, outputs and their lock surfaces, keyboard and pointer
  focus), the handlers that turn each event into the next state and into the
  requests that have to be sent back, the conversion of keyboard and pointer
  input into events for the user interface of each output, and the decision
  that ends the lock loop. Every handler is specified against a model of the
  state (`state::StateView`) and checked by Verus.
- `app/` holds the program around it: the Wayland connection and its
  dispatchers, keymaps (xkbcommon), rendering (wgpu, egui), the clock widget
  and password checking through PAM.
- `tests/` runs the core on concrete event sequences.
