# mechanix_home

The layout logic of the Mechanix homescreen and the window-stack logic of
its compositor, as a Verus-verified library, with the homescreen's file,
watch and process handling around it.

## Layout

- `src/` — the verified library.
  - `geometry`, `text`: fixed-point positions and rectangles; white space.
  - `grid`: cells, overlap, the reflow cascade that pushes neighbours out
    of a hole, and resize snapping.
  - `pages`: the current page, page counts, compaction of empty pages.
  - `chrome`: handles, the close button, borders and other edit fills.
  - `config`, `reload`: the layout file as values; building the screen
    from it, writing the screen back, and reloading a changed file while
    keeping the widgets that stay.
  - `desktop`: the command of a desktop entry.
  - `home`: the gesture state machine (tap, long press, lift and carry,
    page-edge flips, resize, swipe).
  - `drag`: what a lift or resize keeps while it runs, and what cancelling
    it restores.
  - `widgets`: which slot to start next and which toplevel belongs to it.
  - `scene`: what the homescreen paints.
  - `watch`: decoding an inotify read.
  - `layout`, `focus`, `stacking`, `shortcuts`, `output_power`,
    `device_state`: the compositor's window stack, placement and window
    modes, input routing and focus, drawing order, key bindings, DPMS state
    and the device-state protocol answers.
  - `output_setup`, `pacing`: the mode and place of a newly connected
    output; frame pacing after a render pass.
- `tests/` — tests of the library.
- `app/` — the homescreen process: TOML in and out (serde, toml), the
  inotify watch and process handling (libc), and page-swipe motion and
  colours in floating point.

Times are monotonic nanoseconds and pointer positions are fixed point
(1/256 logical pixel). Pixel geometry is `i32`, as in the compositor; the
model's ranges are relational (grid × cell pitch, page × output width,
the drag), each within `PX_TERM` of `home`.
