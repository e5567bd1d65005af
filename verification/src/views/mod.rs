//! What the popup shows that is worth proving: how quantities are written
//! out, and the thermometer glyph the panel button tints.
pub mod fmt;
pub mod hero;
pub mod storage;
