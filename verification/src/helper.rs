//! Small general-purpose building blocks shared by the HTTP components.

pub mod bytes;
pub mod enums;
pub mod text;
