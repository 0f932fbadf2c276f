//! The console command tokenizer: splits a command line into tokens at
//! spaces, with double quotes grouping spaced text into one token.  A
//! quote in the middle of a token cuts it short, and an unterminated
//! quote runs to the end of the line.

use vstd::prelude::*;
use crate::bytes::SP;

verus! {

pub const QUOTE: u8 = 34;

/// The token and next scan position produced from `s` when scanning a token
/// that started at `st` and has reached `end`, `inside` quotes or not.
pub open spec fn spec_scan(s: Seq<u8>, st: int, end: int, inside: bool) -> (Seq<u8>, int)
    decreases s.len() - end,
{
    if end < 0 || end >= s.len() {
        let adjusted = if 0 <= st < s.len() && s[st] == QUOTE {
            st + 1
        } else {
            st
        };
        (s.skip(adjusted), s.len() as int)
    } else if s[end] == SP && !inside {
        (s.subrange(st, end), end)
    } else if s[end] == QUOTE {
        if inside {
            (s.subrange(st + 1, end), end + 1)
        } else if st != end {
            (s.subrange(st, end - 1), end)
        } else {
            spec_scan(s, st, end + 1, true)
        }
    } else {
        spec_scan(s, st, end + 1, inside)
    }
}

/// The next token of `s` starting at `i`, with the scan position after it;
/// `None` once the end is reached.
pub open spec fn spec_next_token(s: Seq<u8>, i: int) -> Option<(Seq<u8>, int)>
    decreases s.len() - i,
{
    if i < 0 || i >= s.len() {
        None
    } else if s[i] == SP {
        spec_next_token(s, i + 1)
    } else {
        Some(spec_scan(s, i, i, false))
    }
}

/// An iterator over the tokens of one command line.
pub struct CommandTokenIter<'a> {
    source: &'a [u8],
    index: usize,
}

impl<'a> CommandTokenIter<'a> {
    /// The command line being scanned.
    pub closed spec fn src(&self) -> Seq<u8> {
        self.source@
    }

    /// The current scan position.
    pub closed spec fn pos(&self) -> int {
        self.index as int
    }

    pub fn new(source: &'a str) -> (r: Self)
        ensures
            r.src() == crate::bytes::str_byte_view(source),
            r.pos() == 0,
    {
        CommandTokenIter { source: source.as_bytes(), index: 0 }
    }

    /// The next token, advancing past it; `None` at the end of the line.
    #[verifier::loop_isolation(false)]
    pub fn next(&mut self) -> (r: Option<&'a [u8]>)
        ensures
            final(self).src() == old(self).src(),
            match r {
                Some(token) => spec_next_token(old(self).src(), old(self).pos()) == Some(
                    (token@, final(self).pos()),
                ),
                None => spec_next_token(old(self).src(), old(self).pos()) is None,
            },
        decreases old(self).src().len() - old(self).pos(),
    {
        if self.index >= self.source.len() {
            return None;
        }
        if self.source[self.index] == SP {
            proof {
                assert(spec_next_token(self.src(), self.pos()) == spec_next_token(
                    self.src(),
                    self.pos() + 1,
                ));
            }
            self.index = self.index + 1;
            return self.next();
        }

        let s = self.source;
        let start = self.index;
        let mut token_end = start;
        let mut inside_quotes = false;

        while token_end < s.len()
            invariant
                self.source@ == s@,
                self.index == start,
                start <= token_end,
                start < s@.len(),
                inside_quotes ==> start < token_end,
                spec_scan(s@, start as int, start as int, false) == spec_scan(
                    s@,
                    start as int,
                    token_end as int,
                    inside_quotes,
                ),
            decreases s@.len() - token_end,
        {
            if s[token_end] == SP && !inside_quotes {
                self.index = token_end;
                let token = &s[start..token_end];
                return Some(token);
            } else if s[token_end] == QUOTE {
                if inside_quotes {
                    self.index = token_end + 1;
                    let token = &s[start + 1..token_end];
                    return Some(token);
                } else if start != token_end {
                    self.index = token_end;
                    let token = &s[start..token_end - 1];
                    return Some(token);
                } else {
                    inside_quotes = true;
                }
            }
            token_end = token_end + 1;
        }
        let mut token_start = start;
        if s[token_start] == QUOTE {
            token_start = token_start + 1;
        }
        self.index = s.len();
        let token = &s[token_start..s.len()];
        proof {
            assert(token@ =~= s@.skip(token_start as int));
        }
        Some(token)
    }
}

} // verus!
