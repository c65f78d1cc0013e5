# wallpaper_poc

A live wallpaper for every monitor: pictures and videos behind the desktop icons,
with a small controls window and an icon in the menu bar.

The crate is split in two.

- `src/` decides. Which monitor gets which wallpaper, how large frames and pictures
  are, which colour fills the rest, what a click does, what is remembered from one
  run to the next and what the decoder does next are functions with contracts, and
  Verus proves them.
- `app/` acts. It talks to the window system, the renderer, the video decoder, the
  file dialog and the file system, and asks `src/` what to do.

| Module | What it decides |
| --- | --- |
| `rounding`, `single`, `double` | Floating-point arithmetic in whole numbers, rounded as the hardware rounds |
| `sizes` | The sizes of scaled frames and pictures |
| `color` | The dominant colour of a picture |
| `picture` | How a decoded picture is enlarged and made ready |
| `video` | The filter, the pace, the rows and the steps of the decoder |
| `media` | What each monitor shows, and what loads and replaces it |
| `fit` | How backgrounds are scaled to their windows |
| `monitors` | The order of monitors, and the windows that cover them |
| `controls` | The settings, the controls window and its events |
| `platform` | How windows go to the desktop layer and are watched there |
| `tray` | The menu, its commands and its icon |
| `config` | What is written down and restored |
| `listing` | The places in a list at which something holds |
| `text` | Numbers in decimal, and comparison without case |

Sizes that the program shows are worked out in single or double precision. `single`
and `double` model a value by its multiple of the smallest positive one, so that
contracts can say exactly which pixel count they give. How large an enlarged picture
comes out of the `image` crate is stated to the nearest pixel. Proof functions whose names
begin with `law_` state what holds across functions.
