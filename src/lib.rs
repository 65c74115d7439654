//! Turns a site's nested page outlines into flat, uniquely keyed search
//! records, each carrying a phonetic transliteration of its text.

pub mod text;
pub mod translit;
pub mod records;
pub mod laws;

