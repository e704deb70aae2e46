# StabMouse

StabMouse filters the motion of an ordinary mouse before applications see it: it steadies a
tremor, draws with synthesised pen pressure through a virtual tablet, and falls back to the
pointer wherever a window cannot take a pen.

`src/` is the library: everything that StabMouse decides, with contracts that Verus proves.

- `config`: presets, profiles and devices; cascading overrides, the stage catalogue, assembling a
  preset into a pipeline, and edits that keep the rest of a file as it was written.
- `filter`: what a filter pipeline runs and when; the windows, gestures and constraints of stages.
- `daemon`: modes, bindings, transports, tablets, the control protocol, window inspection and the
  decisions of the input loop.
- `desktop`, `cli`, `canvas`: screens and input devices of the desktop, the client's output, and
  the strokes of the scratch canvas.
- `text`, `dict`: the strings and the ordered map that the rest is built on.

`app/` is the program around it: devices, sockets, D-Bus, Wayland, files, and the arithmetic of
the filters, which is floating point. `tests/` runs the library on concrete values.
