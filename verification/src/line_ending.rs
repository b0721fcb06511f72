//! The valid Unicode line endings this engine recognizes.

use vstd::prelude::*;

verus! {

/// One of the recognized line endings.
#[derive(PartialEq, Eq, Copy, Clone, Debug, Structural)]
pub enum LineEnding {
    /// Carriage return followed by line feed.
    Crlf,
    /// A bare line feed.
    LF,
}

/// The line ending native to this platform.
pub const NATIVE_LINE_ENDING: LineEnding = LineEnding::LF;

impl LineEnding {
    /// Length of the ending in characters.
    #[inline]
    pub fn len_chars(&self) -> (r: usize)
        ensures
            r == (match self {
                LineEnding::Crlf => 2usize,
                LineEnding::LF => 1usize,
            }),
    {
        match self {
            LineEnding::Crlf => 2,
            LineEnding::LF => 1,
        }
    }

    /// The ending as a string slice.
    #[inline]
    pub fn as_str(&self) -> (r: &'static str)
        ensures
            r@ == (match self {
                LineEnding::Crlf => seq!['\u{000D}', '\u{000A}'],
                LineEnding::LF => seq!['\u{000A}'],
            }),
    {
        proof {
            reveal_strlit("\u{000D}\u{000A}");
            reveal_strlit("\u{000A}");
        }
        match self {
            LineEnding::Crlf => "\u{000D}\u{000A}",
            LineEnding::LF => "\u{000A}",
        }
    }

    /// The ending a single character stands for, if any.
    #[inline]
    pub fn from_char(ch: char) -> (r: Option<LineEnding>)
        ensures
            r == (if ch == '\u{000A}' {
                Some(LineEnding::LF)
            } else {
                None::<LineEnding>
            }),
    {
        if ch == '\u{000A}' {
            Some(LineEnding::LF)
        } else {
            None
        }
    }

    /// The ending a string slice stands for, if any.
    pub fn from_str(g: &str) -> (r: Option<LineEnding>)
        ensures
            r == (if g@ == seq!['\u{000D}', '\u{000A}'] {
                Some(LineEnding::Crlf)
            } else if g@ == seq!['\u{000A}'] {
                Some(LineEnding::LF)
            } else {
                None::<LineEnding>
            }),
    {
        let n = g.unicode_len();
        if n == 1 {
            let c = g.get_char(0);
            proof {
                assert(g@ =~= seq![g@[0]]);
                assert(g@ != seq!['\u{000D}', '\u{000A}']);
            }
            if c == '\u{000A}' {
                Some(LineEnding::LF)
            } else {
                proof {
                    assert(g@ != seq!['\u{000A}']);
                }
                None
            }
        } else if n == 2 {
            let c0 = g.get_char(0);
            let c1 = g.get_char(1);
            proof {
                assert(g@ =~= seq![g@[0], g@[1]]);
                assert(g@ != seq!['\u{000A}']);
            }
            if c0 == '\u{000D}' && c1 == '\u{000A}' {
                proof {
                    assert(g@ =~= seq!['\u{000D}', '\u{000A}']);
                }
                Some(LineEnding::Crlf)
            } else {
                proof {
                    assert(g@ != seq!['\u{000D}', '\u{000A}']);
                }
                None
            }
        } else {
            proof {
                assert(g@ != seq!['\u{000D}', '\u{000A}']);
                assert(g@ != seq!['\u{000A}']);
            }
            None
        }
    }
}

/// Whether a string slice is exactly one line ending.
#[inline]
pub fn str_is_line_ending(s: &str) -> (r: bool)
    ensures
        r == (s@ == seq!['\u{000D}', '\u{000A}'] || s@ == seq!['\u{000A}']),
{
    match LineEnding::from_str(s) {
        Some(_) => true,
        None => false,
    }
}

} // verus!
