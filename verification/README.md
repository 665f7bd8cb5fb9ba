# polar_pilot

Firmware core of a two-axis (azimuth/elevation) antenna rotator controller,
verified with Verus.

The library (`src/`) holds the decisions of the firmware, each with a
contract proved by Verus:

- `util` — reading decimal numbers from text (`parse_f32`, `parse_f32_bytes`),
  locating prefixed values in EasyComm lines, reading byte values.
- `tasks::rotctld` — the Hamlib rotctld server: line assembly, the command
  table, and the replies that do not depend on the motor's position.
- `tasks::easycom` — the EasyComm II / GS-232 serial front end.
- `tasks::keys` — debouncing of the 5-way button and the commands it sends.
- `tasks::motor` — the homing sequence and command acceptance as a state
  machine.
- `tasks::display`, `tasks::net` — status and address text for the OLED,
  and the static-address fallback after a DHCP timeout.
- `rotctld` — a position-in-memory rotctld responder with its own lenient
  number reader and decimal writer.
- `laws` — properties that span these operations, one module per part of
  the firmware: faults stop motion, commands wait for homing, long and
  short command names agree, received lines are kept up to the buffer's
  capacity, the angles and limits written in a command are the ones it
  carries, the text of a decimal reads back as that decimal, white space
  around numbers is ignored, …

Angles are carried as exact decimals (`util::Decimal`); converting them to
`f32`, the stepper position integration, float formatting and drawing live
in `app/`, the embedded binary that wires the library to the STM32L432
peripherals with Embassy.  The library uses `alloc` (`Vec`), so the binary
needs a global allocator on the target.
