# bluz

A terminal UI that lists the connected Bluetooth headphones on Linux and switches
their audio codec. BlueZ is queried over the system D-Bus; `pactl` reports the
audio cards, sinks and codec profiles; `bluetoothctl` reconnects a device when an
LDAC switch is ignored.

## Layout

- `src/` is the verified library:
  - `text.rs`: character-level text operations (trimming, searching, ordering).
  - `codec.rs`: codec display names, codecs named by profiles and descriptions,
    address normalization, audio UUIDs and icons.
  - `json.rs`: JSON values as serde_json reads them from `pactl` output.
  - `pactl.rs`: audio cards and sinks by address, and each card's codec options.
  - `sort.rs`: stable sorting by a total preorder.
  - `bluez.rs`: the connected audio devices among BlueZ's objects, sorted.
  - `state.rs`: the list, the selection, the status line and the codec switch steps.
  - `controls.rs`: what a key asks for and how a device's codecs are listed.
  - `commands.rs`: what the outcome of a `pactl` or `bluetoothctl` run means.
  - `laws.rs`: properties that hold across operations.
- `app/` runs the terminal, D-Bus queries and commands around the library.
- `tests/` exercises the library on concrete values.
