//! What the parts of a header amount to.

use vstd::prelude::*;
use crate::header::{space_end, string_tail};

verus! {

/// White space between the parts of a header is skipped: spaces, tabs, newlines and
/// carriage returns, as many as there are.
pub proof fn lemma_space_is_skipped(s: Seq<u8>, i: int, j: int)
    requires
        0 <= i <= j <= s.len(),
        forall|k: int|
            i <= k < j ==> #[trigger] s[k] == ' ' as u32 || s[k] == '\t' as u32 || s[k]
                == '\n' as u32 || s[k] == '\r' as u32,
        j < s.len() ==> s[j] != ' ' as u32 && s[j] != '\t' as u32 && s[j] != '\n' as u32 && s[j]
            != '\r' as u32,
    ensures
        space_end(s, i) == j,
    decreases j - i,
{
    if i < j {
        lemma_space_is_skipped(s, i + 1, j);
    }
}

/// What a letter behind a backslash stands for in a string.
pub proof fn lemma_escape_is_read(s: Seq<u8>, i: int, acc: Seq<u8>)
    requires
        0 <= i < s.len() - 1,
        s[i] == '\\' as u32,
    ensures
        s[i + 1] == '"' as u32 || s[i + 1] == '\\' as u32 || s[i + 1] == '/' as u32
            ==> string_tail(s, i, acc) == string_tail(s, i + 2, acc.push(s[i + 1])),
        s[i + 1] == 'n' as u32 ==> string_tail(s, i, acc) == string_tail(s, i + 2, acc.push(0x0a)),
        s[i + 1] == 'r' as u32 ==> string_tail(s, i, acc) == string_tail(s, i + 2, acc.push(0x0d)),
        s[i + 1] == 't' as u32 ==> string_tail(s, i, acc) == string_tail(s, i + 2, acc.push(0x09)),
        s[i + 1] == 'b' as u32 ==> string_tail(s, i, acc) == string_tail(s, i + 2, acc.push(0x08)),
        s[i + 1] == 'f' as u32 ==> string_tail(s, i, acc) == string_tail(s, i + 2, acc.push(0x0c)),
        s[i + 1] == 'u' as u32 ==> string_tail(s, i, acc) is Err,
{
}

} // verus!
