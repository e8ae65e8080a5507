//! The enumeration rules of each platform.

pub mod linux;
pub mod mac;
pub mod windows;
