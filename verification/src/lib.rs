//! Verified core of the Linura local-first configuration stack.
#![allow(unused_imports)]

pub mod library;
pub mod migration;
pub mod num;
pub mod observation;
pub mod order;
pub mod path;
pub mod persistence;
pub mod protocol;
pub mod provider;
pub mod text;
