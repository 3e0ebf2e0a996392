# Amity FX

A layered image editor driven by commands typed on standard input and drawn
with raylib. This crate holds its core as a Verus-verified library, with the
window, the GPU and the file system in a thin program around it.

## Layout

- `src/` — the verified library:
  - `layer_pos`, `asset_pos`: positions in the layer stack and the asset list,
    how they are read from text and which index they name;
  - `layers`: the layer stack with its active-layer cursor (insert, reorder,
    remove, switch), with the cursor rule as a type invariant;
  - `assets`: the asset list;
  - `command`: what each editor command does to the stack and what it leaves
    to the program (`run`), and how linking changes a layer (`link_plan`);
  - `args`, `text`, `layer_name`: splitting a command line into arguments
    and checking layer names;
  - `codec`, `document`: the binary document format, its writers and readers,
    each proved against `enc_*`/`dec_*` spec functions;
  - `round_trip`: reading a written document gives back what was written;
  - `links`: checking a document's asset positions against its assets;
  - `redraw`: when a group's picture has to be drawn again;
  - `std_bridge`: the contracts assumed for the few standard-library calls
    that vstd does not specify.
- `tests/` — tests on concrete values.
- `app/` — the program: the prompt, `clap` parsing, raylib drawing, loading
  and saving files.
