//! Text fitting for the editor's labels.
use vstd::prelude::*;

verus! {

/// A label shortened to fit `max_chars`: unchanged when it fits, otherwise
/// its first `max_chars - 2` characters (none when `max_chars < 2`)
/// followed by `..`.
pub open spec fn truncated(text: Seq<char>, max_chars: nat) -> Seq<char> {
    if text.len() <= max_chars {
        text
    } else {
        text.take(if max_chars >= 2 { max_chars - 2 } else { 0 }) + ".."@
    }
}

/// A label shortened to fit `max_chars` characters.
pub fn truncate_label(text: &str, max_chars: usize) -> (r: String)
    ensures
        r@ == truncated(text@, max_chars as nat),
{
    let count = crate::text::char_len(text);
    if count <= max_chars {
        return text.to_owned();
    }
    let take = max_chars.saturating_sub(2);
    let mut out = crate::text::take_str(text, take);
    out.append("..");
    out
}

} // verus!
