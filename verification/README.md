# visualizer

The drawing logic of a music visualiser for a 120 x 48 LED panel, written in
Verus and verified.

Library (`src/`):

- `renderer::frame` - the grid model of a framebuffer (1-based row and
  column, row-major storage) and its laws: read-back after a write, locality,
  commuting writes, clearing.
- `renderer::panel` - the panel framebuffer of four colours and the `:00`
  packet that carries a frame, two bits per cell; the packet determines the
  frame.
- `renderer::ffmpeg` - a true-colour framebuffer, its raw RGB frame and the
  command line of the video player that shows it.
- `spectrum` - merging per-channel spectra into one row of bars.
- `scene` - spectrum bars, progress bar, title scrolling, and a whole frame.
- `text` - bitmap fonts and the scrolling song title.
- `track` - the "title - artists" label of the song being played.

Program (`app/`): audio capture (audioviz), the media player over D-Bus
(mpris), the BDF font file, the TCP socket and the video player process, and
the float arithmetic that turns volumes and play time into bar heights and
progress.
