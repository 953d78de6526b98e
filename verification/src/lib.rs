//! Verified core of a typed logging bridge towards a C++ DLT recorder.
pub mod levels;
pub mod buf_writer;
pub mod decimal;
pub mod values;
pub mod ffi_value;
pub mod sample;
pub mod record;
pub mod builder;
