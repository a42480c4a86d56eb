# Collector controller

Controls the collector of a yarn-electrospinning setup: an Arduino driving a
stepper motor, reached over a serial port, operated from an egui window.

- `src/` is the verified library (Verus): `text` and `decimal` (the string
  operations of the line protocol, each proved against a statement over
  characters), `log` (the bounded message log), `lines` (splitting received
  text into lines), `motor` (reading the board's lines, the commands), and
  `serial` (the state of the link: connecting, losing the link, scanning for
  ports, when to ping and check).
- `app/` is the program around it: the window, the serial port itself, the
  clocks, and the speeds, which are floating point.
- `tests/` exercises the library on concrete values.
