//! Locating installed font files by logical font name.
//!
//! The library has two layers: a platform directory resolver, which turns
//! the user's home directory and the XDG environment values into an ordered
//! list of candidate font directories, and a recursive locator, which walks
//! a directory tree (never following symlinked directories) for the first
//! file whose name matches the requested font, case-insensitively and up to
//! a fixed set of style-suffix variants and font file extensions.

pub mod locate;
pub mod matching;
pub mod resolver;
mod sys;
pub mod text;

pub use locate::find;
pub use locate::find_in_dir;
pub use resolver::get_linux_sys_font_dirs;
pub use resolver::get_macos_sys_font_dirs;
pub use resolver::get_sys_font_dir;
pub use resolver::get_sys_font_dirs;
pub use resolver::get_windows_sys_font_dirs;
pub use text::split_path_list;
