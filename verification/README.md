# pastel

A command-line tool to generate, analyze, convert and manipulate colors,
built around a verified library.

## Layout

- `src/` is the library, verified with Verus. It holds everything about a
  color that is a matter of integers and text:
  - `lib.rs`: 8-bit RGB colors and their `rgb(..)`, hexadecimal and `0xRRGGBB`
    renderings;
  - `parser.rs`: the color notations (hexadecimal, `rgb`, `hsl`, `hsv`, `gray`,
    `Lab`, `OkLab`, `LCh`, names), read into a syntax tree whose numbers keep
    their text;
  - `named.rs`: the CSS color names;
  - `ansi.rs`: the 8-bit palette, terminal styles and escape sequences;
  - `canvas.rs`: a character-cell canvas and its rendering;
  - `distinct.rs`: the integer decisions of the search for distinct colors and
    the farthest-first ordering of a set of colors;
  - `cli/`: the command-line tool's errors, argument syntax, color mode,
    external color pickers, a canvas of half-height pixels, the panels it
    draws (a color's panel, the picker's spectrum, the color check board),
    and the ordering of `sort-by` and `list`.
- `app/` is the program: argument handling, input and output, external
  processes, and the floating-point color model (HSL, XYZ, Lab, LCh, OkLab,
  color differences, mixing, simulated annealing).
- `tests/` exercise the library.
