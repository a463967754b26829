# hcms_display

Driver logic for Avago HCMS-29xx/39xx 5x7 dot-matrix LED displays, verified
with Verus, and a Teensy 4.0 program that shows an infrared proximity reading
on such a display.

- `src/font.rs`: the 5x7 font.
- `src/wire.rs`: the display's input lines, the signals it receives, and what
  it takes from them at each clock edge.
- `src/display.rs`: `Hcms`, the display's state (dot register, text, cursor)
  and its operations; each operation appends the signals it sends to a
  `Vec<Signal>`.
- `src/reading.rs`: showing a reading in decimal and the LED threshold.
- `src/laws.rs`: properties of the whole: what the display receives, and how
  the operations combine.
- `app/`: the program: drives the pins with the signals, reads the sensor.
