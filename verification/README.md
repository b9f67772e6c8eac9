# hamster

Keyboard control of the mouse pointer. An overlay splits the screen into a
grid of 13 by 10 cells, each named by two keys; typing them moves the pointer
to the cell's centre, and further keys refine the position three by three.

- `src/` is the verified library: the key table (`keys`), ASCII case
  (`ascii`), the grid geometry and selection (`grid`), the overlay's frame by
  frame decisions (`overlay`), decimal text (`decimal`), the command line and
  `xdotool` arguments (`cli`), and the error kinds (`error`).
- `app/` is the program: it reads the keyboard and draws with raylib, runs
  `xdotool`, and hands plain values to the library.
