//! Verified core of a property-photo workflow: path safety, on-disk folder
//! naming, image file planning and the integer parts of image processing.

pub mod aggelia;
pub mod batch;
pub mod clahe;
pub mod components;
pub mod cropping;
pub mod edits;
pub mod encoding;
pub mod errors;
pub mod files;
pub mod folders;
pub mod gallery;
pub mod grayscale;
pub mod launcher;
pub mod listing;
pub mod naming;
pub mod numbers;
pub mod opencv;
pub mod opencv_stubs;
pub mod paths;
pub mod permits;
pub mod perspective;
pub mod placement;
pub mod repair;
pub mod scaling;
pub mod scan;
pub mod sets;
pub mod sort;
pub mod text;
pub mod thumbnails;
pub mod tonal;
pub mod viewer;
