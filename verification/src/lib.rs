pub mod text;
pub mod pathname;
pub mod domain;
pub mod error;
pub mod naming;
pub mod fsutil;
pub mod hash;
pub mod storage;
pub mod ableton;
pub mod recent;
pub mod harvest;
pub mod library;
