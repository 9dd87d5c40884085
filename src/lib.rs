//! Turns conversation transcripts into per-utterance speech synthesis work:
//! transcript parsing, content-addressed cache keys, model reply cleanup, output
//! file naming and the planning of synthesis calls.

pub mod text;
pub mod transcript;
pub mod cache;
pub mod output;
pub mod assisted;
