//! Verified core of Vera, a tool that reads, edits and strips the EXIF
//! metadata of images through the `exiv2` command-line utility.

pub mod text;
pub mod exiv2_backend;
pub mod tag_map;
pub mod path_search;
pub mod dialogs;
pub mod batch_operations;
pub mod controller;
pub mod geo_utils;
