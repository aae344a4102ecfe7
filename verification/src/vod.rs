//! The recorded-video command's verified half: the playback URL of a
//! recording and the reading of the user's menu selection.

use vstd::prelude::*;

use crate::text;

verus! {

/// Arguments of the recorded-video command.
#[derive(Debug, Clone)]
pub struct VodArgs {
    pub login: String,
}

/// The playback URL of one recording.
pub fn vod_url(id: &str) -> (r: String)
    ensures
        r@ == "https://www.twitch.tv/videos/"@ + id@,
{
    String::from_str("https://www.twitch.tv/videos/").concat(id)
}

/// How one line typed at the selection prompt is read.
#[derive(Debug, Clone, PartialEq, Eq)]
pub enum Selection {
    Chosen { index: usize },
    NoInput,
    OutOfRange,
}

/// Reads a typed selection against a menu of `max` entries: an empty
/// line (after trimming) aborts, a decimal number between one and `max`
/// chooses that entry, and anything else asks the user again.
pub fn parse_selection(input: &str, max: usize) -> (r: Selection)
    ensures
        ({
            let t = text::trimmed(input@);
            if t.len() == 0 {
                r is NoInput
            } else if text::all_digits(t) && 1 <= text::decimal_value(t) <= max {
                r == (Selection::Chosen { index: text::decimal_value(t) as usize })
            } else {
                r is OutOfRange
            }
        }),
{
    let t = text::trim_str(input);
    if t.unicode_len() == 0 {
        return Selection::NoInput;
    }
    match text::parse_usize(t) {
        Some(v) => {
            if 1 <= v && v <= max {
                Selection::Chosen { index: v }
            } else {
                Selection::OutOfRange
            }
        },
        None => Selection::OutOfRange,
    }
}

} // verus!
