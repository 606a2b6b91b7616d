use crate::text::{to_chars, trim, trim_range, CharSet};
use vstd::prelude::*;

verus! {

/// Whether a line of a script is a command: it holds more than white space,
/// and does not start with `#` behind the white space at its front.
pub open spec fn is_command_text(line: Seq<char>) -> bool {
    let text = trim(line, CharSet::Space);
    text.len() > 0 && text[0] != '#'
}

/// Whether a line of a script is a command.
pub fn is_command(line: &str) -> (r: bool)
    ensures
        r == is_command_text(line@),
{
    let chars = to_chars(line);
    assert(chars@.subrange(0, chars@.len() as int) == line@);
    let (a, b) = trim_range(&chars, 0, chars.len(), CharSet::Space);
    if a == b {
        false
    } else {
        assert(chars@.subrange(a as int, b as int)[0] == chars@[a as int]);
        chars[a] != '#'
    }
}

} // verus!
