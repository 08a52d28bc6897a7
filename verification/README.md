# HIDShift

HIDShift turns a microcontroller into a USB-to-Bluetooth bridge for keyboards,
mice and consumer controls. Input goes only to the selected host.

- `src/` is the library: input aggregation, host switching, reports, the links
  between the two chips, management frames, and pairing. Every function but those
  listed below has a contract that Verus proves, and what holds of the library as
  a whole is stated in the proof functions whose names begin with `law_`.
- `tests/` runs the library on concrete input.
- `app/` is the program around it: tasks, channels and logging.

What the library takes on trust is confined to `src/fixed.rs` (the vectors of
`heapless`), two functions of `src/espnow_security.rs` (the `aes` and `cmac`
crates), and, in `src/ble_notify.rs`, the contract of the trait
`BleNotificationSink`, which those who send notifications implement.
