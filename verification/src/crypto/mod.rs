pub mod cipher;
pub mod container;
pub mod erasure;
pub mod fragment;
pub mod key_manager;
pub mod naming;
pub mod package;
pub mod pepper;
pub mod primitives;
pub mod shamir;
pub mod sharing;
