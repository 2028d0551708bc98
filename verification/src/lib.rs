//! A viewer for capture cards: what it decides and computes, apart from the devices themselves.
pub mod audio;
pub mod capture;
pub mod devices;
pub mod frames;
pub mod gpu_decode;
pub mod interop;
pub mod libraries;
pub mod logs;
pub mod modes;
pub mod pattern;
pub mod planes;
pub mod render;
pub mod ring;
pub mod session;
pub mod settings;
pub mod text;
pub mod versions;
pub mod viewer;
