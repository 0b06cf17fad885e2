//! Cleaning of text that arrives from outside.

use vstd::prelude::*;

verus! {

/// Whether a character survives cleaning: the printable characters of ASCII
/// other than the space.
pub open spec fn is_kept(c: char) -> bool {
    0x21 <= c as u32 <= 0x7e
}

/// Text with every character removed that is not kept.
pub open spec fn cleaned(text: Seq<char>) -> Seq<char> {
    text.filter(|c: char| is_kept(c))
}

/// Calls `String::push`, which appends one character.
#[verifier::external_body]
fn push_char(text: &mut String, c: char)
    ensures
        final(text)@ == old(text)@.push(c),
{
    text.push(c)
}

/// Removes tabs, line breaks, spaces, control characters and everything
/// outside ASCII; what is left keeps its order.
pub fn format_str(str: String) -> (out: String)
    ensures
        out@ == cleaned(str@),
{
    let mut out = String::new();
    proof {
        reveal(Seq::filter);
    }
    for c in it: str.as_str().chars()
        invariant
            it.seq() == str@,
            out@ == cleaned(str@.take(it.index())),
    {
        proof {
            let next = str@.take(it.index() + 1);
            assert(next.drop_last() == str@.take(it.index()));
            assert(next.last() == c);
            reveal(Seq::filter);
        }
        let code = c as u32;
        if 0x21 <= code && code <= 0x7e {
            push_char(&mut out, c);
        }
    }
    proof {
        assert(str@.take(str@.len() as int) == str@);
    }
    out
}

} // verus!
