//! Transcript presentation and spoken-number normalization.

pub mod numbers;

use vstd::prelude::*;
use crate::text::{chars_of, string_of, trim_chars, trimmed};
use self::numbers::normalized;
pub use self::numbers::normalize_spoken_numbers;

verus! {

/// The two lines shown for a finished transcript: the trimmed original
/// above its digit-normalized form; nothing for a blank transcript.
pub fn transcript_variants(raw_transcript: &str) -> (r: Vec<String>)
    ensures
        trimmed(raw_transcript@).len() == 0 ==> r@.len() == 0,
        trimmed(raw_transcript@).len() > 0 ==> {
            &&& r@.len() == 2
            &&& r@[0]@ == trimmed(raw_transcript@)
            &&& r@[1]@ == normalized(trimmed(raw_transcript@))
        },
{
    let chars = chars_of(raw_transcript);
    let original = trim_chars(&chars);
    if original.len() == 0 {
        return Vec::new();
    }
    let original = string_of(&original);
    let converted = normalize_spoken_numbers(original.as_str());
    let mut variants = Vec::new();
    variants.push(original);
    variants.push(converted);
    variants
}

} // verus!
