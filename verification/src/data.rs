//! The record kinds the resource tables hold: their wire layouts, their
//! domain invariants, their reference-reservation operations, and their
//! index-rewriting operations.

pub mod file_data;
pub mod file_desc;
pub mod file_entity;
pub mod file_group;
pub mod file_info;
pub mod file_package;
pub mod file_path;
pub mod stream_data;
pub mod stream_desc;
pub mod stream_folder;
pub mod stream_path;
