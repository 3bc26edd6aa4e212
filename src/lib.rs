//! Turns an e-reader's clippings export into flashcards, and compiles a
//! hand-edited intermediate text back into cards.
//!
//! The clippings scanner, the card grammar, the intermediate codec and the
//! reconciler are verified against spec functions over character sequences.
pub mod text;
pub mod cloze;
pub mod model;
pub mod config;
pub mod clock;
pub mod grammar;
pub mod scanner;
pub mod codec;
pub mod laws;
pub mod round_trip;

pub use codec::{deserialize, serialize_entries, validate};
pub use config::{Config, LastDate};
pub use model::{Basic, Card, Clipping, Cloze, ConvertError, Output};
pub use scanner::parse_from_txt;
