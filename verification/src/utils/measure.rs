use vstd::prelude::*;
use vstd::string::StrSliceExecFns;
use vstd::string::StringSliceAdditionalSpecFns;

verus! {

/// Size of a rendered text along the three budget dimensions.
#[derive(Copy, Clone, Debug, PartialEq, Eq, Structural)]
pub struct OutputStats {
    pub bytes: usize,
    pub chars: usize,
    pub lines: usize,
}

pub const LF: u8 = 0x0A;

pub const CR: u8 = 0x0D;

/// Position `i` closes a line break: it holds a line feed, or a carriage
/// return that no line feed follows. A CRLF pair therefore closes one break,
/// at its line feed.
pub open spec fn closes_break(b: Seq<u8>, i: int) -> bool {
    0 <= i < b.len() && (b[i] == LF || (b[i] == CR && !(i + 1 < b.len() && b[i + 1] == LF)))
}

/// Number of line breaks that end within the first `n` bytes of `b`.
pub open spec fn breaks_upto(b: Seq<u8>, n: int) -> nat
    decreases n,
{
    if n <= 0 {
        0
    } else {
        breaks_upto(b, n - 1) + if closes_break(b, n - 1) {
            1nat
        } else {
            0nat
        }
    }
}

/// Number of line breaks in `b`, a CRLF pair counting once.
pub open spec fn line_breaks(b: Seq<u8>) -> nat {
    breaks_upto(b, b.len() as int)
}

/// Logical lines of a text: none when it is empty, otherwise one more than
/// its line breaks.
pub open spec fn line_count(b: Seq<u8>) -> nat {
    if b.len() == 0 {
        0
    } else {
        line_breaks(b) + 1
    }
}

/// The statistics of a text with UTF-8 encoding `b` and `n_chars` scalar
/// values. Characters are counted only on request; the line count is capped
/// at the largest `usize`.
pub open spec fn stats_of(b: Seq<u8>, n_chars: nat, measure_chars: bool) -> OutputStats {
    OutputStats {
        bytes: b.len() as usize,
        chars: if measure_chars {
            n_chars as usize
        } else {
            0
        },
        lines: if line_count(b) <= usize::MAX {
            line_count(b) as usize
        } else {
            usize::MAX
        },
    }
}

/// Count bytes, characters (when asked for) and logical lines of a text.
pub fn count_output_stats(s: &str, measure_chars: bool) -> (stats: OutputStats)
    ensures
        stats == stats_of(s.spec_bytes(), s@.len(), measure_chars),
        stats.bytes == s.spec_bytes().len(),
        s.spec_bytes().len() == 0 ==> stats.lines == 0,
        0 < s.spec_bytes().len() < usize::MAX ==> stats.lines == 1 + line_breaks(s.spec_bytes()),
        measure_chars ==> stats.chars == s@.len(),
{
    let b = s.as_bytes();
    let bytes = b.len();
    let chars: usize = if measure_chars {
        s.unicode_len()
    } else {
        0
    };
    if bytes == 0 {
        return OutputStats { bytes, chars, lines: 0 };
    }
    let mut i: usize = 0;
    let mut breaks: usize = 0;
    while i < b.len()
        invariant
            i <= b.len(),
            b@ == s.spec_bytes(),
            breaks == breaks_upto(b@, i as int),
            breaks <= i,
        decreases b.len() - i,
    {
        if b[i] == LF {
            breaks += 1;
            i += 1;
        } else if b[i] == CR {
            breaks += 1;
            if i + 1 < b.len() && b[i + 1] == LF {
                assert(!closes_break(b@, i as int));
                assert(closes_break(b@, i + 1));
                assert(breaks_upto(b@, i + 2) == breaks_upto(b@, i + 1) + 1);
                i += 2;
            } else {
                i += 1;
            }
        } else {
            i += 1;
        }
    }
    let lines: usize = if breaks < usize::MAX {
        breaks + 1
    } else {
        usize::MAX
    };
    OutputStats { bytes, chars, lines }
}

} // verus!
