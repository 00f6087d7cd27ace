//! Batch conversion of image archives: the job queue, the steps of one job,
//! and the rules that both follow.
//!
//! The library decides and computes; it touches no file, clock aside. A
//! caller enqueues archives in a [`ProcessorState`], lets a worker take the
//! jobs in order ([`processor::queue`]), and runs each job by carrying out
//! what its [`processor::zip_handler::ArchivePipeline`] asks for. Images are
//! classified by [`processor::image_converter`], output paths are kept apart
//! by [`utils::collision`], and what happened is gathered by [`report`].
//!
//! Five functions call outside code and are taken on trust: those that
//! append a character to a string and fold a string to lower and to upper
//! case in [`text`], the one that reads the clock in [`report`], and the one
//! that draws a job id in [`processor`].

pub mod paths;
pub mod processor;
pub mod report;
pub mod text;
pub mod utils;

pub use processor::ProcessorState;
