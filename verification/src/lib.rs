//! Backend library of a desktop design-file editor.
//!
//! Three stateless operations back the editor's commands: reading a text
//! file, writing a text file, and enumerating installed system fonts.
//! The filesystem calls themselves live in the surrounding application;
//! this library holds everything that can be stated and proved: how each
//! outcome of a read or write is turned into the command's result, which
//! directories each platform scans, which file names count as fonts, and
//! that the returned font list is sorted and duplicate-free.

pub mod design_file;
pub mod fonts;
pub mod text_order;

pub use design_file::DesignFile;
pub use design_file::read_design_file;
pub use design_file::write_design_file;
pub use fonts::DirListing;
pub use fonts::FontDirectoryProvider;
pub use fonts::get_system_fonts;
pub use fonts::is_font_file;
