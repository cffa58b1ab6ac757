//! Turns the text of a paper into the pieces of a spoken audiobook.

pub mod audio;
pub mod book;
pub mod book_laws;
pub mod chunk;
pub mod chunk_laws;
pub mod clean;
pub mod clean_laws;
pub mod errors;
pub mod message_laws;
pub mod mode;
pub mod numbers;
pub mod output;
pub mod packing_laws;
pub mod page_laws;
pub mod paragraph_laws;
pub mod path_laws;
pub mod paths;
pub mod place_laws;
pub mod prepare;
pub mod progress;
pub mod queue;
pub mod rechunk_laws;
pub mod search;
pub mod sentence_laws;
pub mod session;
pub mod step_laws;
pub mod text;
pub mod text_laws;
pub mod tts;
pub mod wav;
pub mod wav_laws;
pub mod word_laws;
