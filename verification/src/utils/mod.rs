pub mod bytes;
pub mod hexcode;
pub mod metadata;
pub mod text;
