//! Helpers that belong to one platform each.

pub mod mac;
