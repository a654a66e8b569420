# meshy

A terminal client for MeshCore companion radios reached over Bluetooth Low
Energy (BlueZ through `bluer`, a `ratatui` screen).

The crate is split in two:

- `src/` is a library verified with Verus. It holds the decisions the client
  makes: the UI state machine (`ui::model`, `ui::keys`, `ui::messages`), the
  device list and connection table (`ui`, `ui::connections`), what each screen
  shows (`ui::device_list`, `ui::chat`, `ui::pin_entry`), how the Bluetooth
  task reads UI commands and what it reports (`bluetooth`), MeshCore discovery
  filtering and de-duplication (`bluetooth::scanner`), pairing prompts
  (`bluetooth::agent`), and locating the Nordic UART Service and describing
  its notifications (`bluetooth::connection`). `protocol` proves that the
  lines the two tasks exchange are read back as they were meant. `text` gives
  the string operations they use a meaning over `Seq<char>`.
- `app/` is the program around it: the tokio tasks, the BlueZ session and
  agent, the terminal, and drawing.
