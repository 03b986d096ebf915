# baeru

`baeru` wraps existing terminal programs: it reveals their screens with an animation, replaces
their colours by a theme, maps keys, animates ordinary command output below the prompt, and
highlights, replaces or masks what matches a pattern. The programs themselves are not changed.

The logic is a library written in Rust and verified with [Verus](https://github.com/verus-lang/verus).
What each function returns is stated in its contract, in terms of mathematical models: texts as
sequences of characters, screens as sequences of rows of cells, key maps as maps, and
single-precision numbers as multiples of the smallest one.

## Layout

- `src/` is the verified library.
  - `rounding`, `single`: single-precision arithmetic on integers, correctly rounded.
  - `text`, `bytes`, `sequences`, `matching`: texts, byte strings, subsequences, regular
    expressions.
  - `model`, `settings`: the data of a run, and what the user can ask for.
  - `config`, `rules`: how a run is set up.
  - `keymap`: key names and the rewriting of typed bytes.
  - `theme`, `sgr`: colours, gradients, themes, and the rewriting of colour sequences.
  - `transform`, `highlight`, `triggers`: replacing, masking, highlighting, and what that sets off.
  - `noise`, `cli_frames`, `cli_backend`: the inline animation of command output.
  - `emulator`, `screen`, `screen_text`, `changes`: the emulated terminal, its cells, their text,
    and what has changed.
  - `effects`, `settling`, `draw`, `render`, `live`, `flash`: what is drawn, and that effects end.
  - `passthrough`, `session`: what is done with each chunk of output and of input.
- `app/` is the program around it: arguments, files, terminals, processes, threads.
- `tests/` runs the library.

## What is promised

Proof functions whose names start with `law_` state what holds of the library as a whole. Some of
them: replacing and masking keep the width of a line; rewriting colours and passing modes on do
not depend on how the output is cut into chunks; effects end with the text as it is; the live
screen always ends up as the screen of the program; a trigger that was seen stays quiet; files
that triggers write stay in their directory.
