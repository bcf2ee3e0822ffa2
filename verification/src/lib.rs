//! Drawing logic of a small music visualiser: a colour framebuffer for an
//! LED panel (and a true-colour one for a video player), the packet that
//! carries a frame to the panel, the spectrum bars, the progress bar and the
//! scrolling song title.

pub mod renderer;
pub mod scene;
pub mod spectrum;
pub mod text;
pub mod track;
