# ratatui (terminal layer)

The terminal and frame layer of a text user interface library, written in Verus.

A `Terminal` keeps two buffers of cells. A frame is rendered into the current one; the
cells that differ from the previous one are written to a `Backend`, and the buffers are
swapped. Viewports can cover the whole screen, a band at the cursor (inline), or a fixed
area. A frame can capture rows to push into the terminal's native scrollback before it is
drawn.

Layout:

- `src/layout.rs`: positions, sizes, rectangles.
- `src/buffer.rs`: cells, buffers, and the comparison of two buffers (`Buffer::diff`).
- `src/backend.rs`: the `Backend` trait and `TestBackend`, an in-memory terminal.
- `src/widgets.rs`: the widget traits.
- `src/terminal/`: `Frame`, `Terminal`, viewports, inline placement, and the redraw after
  streaming rows into the scrollback.
- `tests/`: tests run against `TestBackend`.

A backend may describe the screen it shows (`Backend::screen`: its cells, cursor,
scrollback and the wrap flags of rows streamed into it). For such a backend the terminal's
contracts say what each operation writes
(`drew_frame` ties a draw to what its render callback rendered and captured,
`written_frame` to what reaches the screen,
`cleared_screen` for a clear, `inserted_screen` and `region_inserted_screen` for rows
inserted above an inline viewport, `inserted_back` for the rows they push into the
scrollback), and
`Terminal::screen_in_sync` holds when the viewport lies within the screen and the screen
shows the previous buffer there: a clear establishes it, writing a frame keeps it for the
buffer just rendered (rows pushed into the scrollback are streamed from the top left corner
of the screen, so that case needs a viewport over the whole screen), and inserting rows above
an inline viewport keeps it too (with scrolling regions the viewport's rows are moved, not
redrawn).

When a draw fails, its contract says in which state the terminal was left: as the resize
left it (`autoresize_failed`), as the frame found it but for what was rendered when the render
callback failed (`render_failed`, with the callback's error returned), or part way through
writing the frame (`frame_failed`).

The laws are public proof functions named `law_*`, beside the `ensures` of the functions.
