//! Recognizes Windows mouse-cursor roles from cursor file names and reads and
//! writes the cursor schemes that the Windows registry stores.

pub mod bignat;
pub mod cursor;
pub mod resource;
pub mod text;
pub mod cursor_map;
pub mod scheme;
pub mod unicode;
pub mod tokens;
pub mod error;
pub mod eval;
pub mod word;
pub mod recognizer;
pub mod suggestion;
