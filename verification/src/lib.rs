//! Verified core of the 1BitShit CPU runtime: model-store naming, path
//! resolution, Hugging Face manifest construction, kernel lookup, registry
//! and version logic, and the streaming trigger filter of the dispatcher.
pub mod text;
pub mod paths;
pub mod stream;
pub mod manifest;
pub mod hf_hub;
pub mod model_store;
pub mod environment;
pub mod kernel_loader;
pub mod drivers;
pub mod bootstrapper;
pub mod dev_sync;
pub mod dispatch;
pub mod catalog;
pub mod details;
pub mod json;
pub mod onnx_pool;
