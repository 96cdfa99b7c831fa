//! Extracts icons from Windows PE files (`.dll` / `.exe`).
//!
//! Parses the PE headers and the `.rsrc` directory tree, reads the
//! `RT_GROUP_ICON` (type 14) and `RT_ICON` (type 3) resources and reassembles a
//! standard `.ico` file. Nothing but the bytes of the file is consulted.

pub mod bytes;
pub mod error;
pub mod extract;
pub mod ico;
pub mod pe;
pub mod resource;
pub mod results;

pub use bytes::{u16_at, u32_at};
pub use error::IcoError;
pub use extract::{extract_icon, extract_icon_by_id, list_icon_groups};
pub use ico::build_ico;
