//! Frame-buffer drawing for a small UEFI desktop: a pixel buffer, the shapes and
//! glyph text drawn into it, the animation and cursor state that drive each frame,
//! and the text and file-name conversions the desktop shows and opens.
pub mod animation;
pub mod canvas;
pub mod desktop;
pub mod draw;
pub mod file_name;
pub mod fits;
pub mod glyph;
pub mod line;
pub mod pointer;
pub mod text;
pub mod window;

pub use animation::{Fade, Splash, FADE_HIGH, FADE_LOW, SPLASH_RESTARTS};
pub use canvas::{Buffer, Pixel};
pub use desktop::{desktop_step, DesktopFrame};
pub use draw::draw_rect;
pub use fits::{glyph_fits_in, glyph_ink, line_fits_in, rect_fits_in, window_fits_in, word_fits_in};
pub use file_name::{encode_file_name, FileNameError, FILE_NAME_CAPACITY};
pub use glyph::{draw_font, draw_word, Glyph};
pub use line::draw_line;
pub use pointer::{abs_i128, Cursor, POINTER_SPEED};
pub use text::{clock_text, file_text, movement_text, resolution_text, CLOCK_OFFSET_HOURS};
pub use window::{draw_window, paint_desktop, WindowIcons, DOCK_HEIGHT};
