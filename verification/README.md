# esp32c6_matter_human_detection

The verified core of an ESP32-C6 firmware that turns an HLK-LD2410 24GHz
mmWave presence radar into a Matter Occupancy Sensor over Thread, plus the
decision logic of its two companion images (a Thread range extender and an
SRP registration probe).

## Layout

- `src/` — the library, verified with Verus:
  - `presence` — hold-time debouncing of the raw presence bit, with the
    hold/clear laws over runs of samples;
  - `sensor` — LD2410 basic/engineering report parsing and the sensor-task
    decisions; `sensor::frame` recovers frames from the UART byte stream
    (header resynchronization, length and footer checks) with the law that
    a well-formed frame is recovered from any point of the header search;
  - `mesh` — prefix coverage of a destination by the Thread network data
    (bit-exact), NAT64 address synthesis, the collected routes;
  - `telemetry` — log filtering, datagram batching and sink back-off of
    the repeater's UDP log stream;
  - `repeater` — role tracking, router-eligibility and LED patterns of the
    range extender, with the law that it is router-eligible only after
    attaching as a child; radio counter deltas;
  - `probe` — the SRP probe's phase plan, registration test and statistics;
  - `dataset` — decoding of the build-time Thread dataset hex;
  - `matter` — occupancy attribute value, EUI-64 derivation, the
    factory-reset gesture on the BOOT pin;
  - `board` — XIAO ESP32-C6 pin map;
  - `bounded` — declarations of the `heapless` collections used above.
- `tests/` — scenario tests of the library.
- `app/` — the firmware glue (esp-hal, embassy, OpenThread, rs-matter) that
  performs the I/O the library decides on.
