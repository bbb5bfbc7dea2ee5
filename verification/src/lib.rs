//! Verified core of a sample browser: the playback engine's decisions and its
//! sample tap, the fan-out to the analyzers, the generation-tagged waveform
//! loader, and the tree and search of the browsed directory.
//!
//! Samples are of any copyable type. What is computed of the samples
//! themselves (means, transforms, level scales, pitch estimates) is done by
//! numeric kernels that the caller hands in as closures; the library decides
//! which samples a kernel gets and what becomes of its answer, and proves that
//! for every kernel. Devices, files and queues are the caller's: the state
//! machines here say what is to be done and are told what happened.

pub mod audio;
pub mod browser;
pub mod fft_processor;
pub mod file_explorer;
pub mod file_watcher;
pub mod pipeline;
pub mod scope;
pub mod search;
pub mod selection;
pub mod spectrum;
pub mod tuner;
pub mod vectorscope;
pub mod visualization;
pub mod vu_meter;
pub mod waveform;
