# Ecosystem

Ecosystem is a terminal graphics program that turns live system activity into a small
ambient world, drawn on an RGBA canvas and streamed to the terminal with the Kitty
graphics protocol. Its main scene is the Midnight Cat Cafe: a cached cafe backdrop with
window rain, steam at the counter and a cat whose mood follows the processor load.

## Layout

- `src/` is the library, verified with Verus: the canvas with its dirty-region and tile
  tracking, the Kitty protocol encoder and the double-buffered renderer, the terminal
  framebuffer and ANSI diff encoder, layout and frame pacing, the resize debouncer, the
  `/proc` parsers and samplers, sprites and sprite blitting, the text landscape, and the
  cafe scene with its cat. Contracts state what public functions return or change; where
  a result depends on the clock, the allocator or the PNG decoder, the contract says what
  holds whatever came back. A later cafe frame's dirty region lies within the bounding box
  of the regions restored from the backdrop, the rain and counter rectangles and the cat.
- `app/` is the program around it: the frame loop, terminal I/O, reading `/proc` and the
  sprite sheet files, and the floating-point parts (activity smoothing, colour gradients,
  metric normalisation and the tidepool layers).
- `tests/` exercises the library on concrete inputs.

## Run

The program expects a terminal of at least 80x24 with Kitty graphics support. Quit with
`q` or `Esc`. Set `ECOSYSTEM_TRACE=1` to print trace events on exit.
