# toy_rnn

The verified core of a small neural-network visualizer that reads MNIST
images and draws a network with wgpu.

- `src/` is the library, checked by Verus:
  - `mnist`: the binary MNIST file layout, its decoder and the laws that a
    written file reads back unchanged;
  - `neuron`, `network`: the wiring of a fully connected network;
  - `scene`: which connections are drawn, which output is the prediction and
    the text of the labels;
  - `diagram`: the text table that shows a network's layers;
  - `text`: names of characters, hexadecimal and decimal numerals;
  - `font`: the decoded atlas image (through the `image` crate), and glyph
    and kerning lookups in the font atlas;
  - `surface`: the choice of surface format and present mode;
  - `viewer`: what each window event asks of the renderer;
  - `characters`: the distinct characters of a text.
- `app/` is the program: file reading (the shaders and the font atlas are
  read at start-up from `src/render/`), the real-valued network (random
  weights, forward pass), the camera, and everything that talks to winit and
  wgpu.
- `tests/` exercises the library on concrete values.
