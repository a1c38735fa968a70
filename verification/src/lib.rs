//! Inserts a single separating space at boundaries between CJK and
//! Latin-or-digit runs within one line of text, leaving punctuation,
//! multi-space runs and protected inline spans (code, math, document
//! links, emphasis) to their own dedicated rules; and, given a cursor
//! position in character units, reports the character-index boundaries of
//! the protected spans that start before the cursor.

pub mod assemble;
pub mod laws;
pub mod locate;
pub mod parser;
pub mod scan;
pub mod token;

pub use parser::{block_ranges, insert_liberty, LineParser};

use vstd::prelude::*;

use crate::assemble::assemble;
use crate::locate::{block_ranges_spec, strictly_increasing};
use crate::scan::scan;

verus! {

/// The single error of the line scanner: no rule matched the remaining
/// input at some position, so the line cannot be fully partitioned.
#[derive(Clone, Copy, PartialEq, Eq, Structural, Debug)]
pub struct SyntaxError;

/// Applies the spacing rules to one line; the scan error comes back when
/// and only when the line cannot be tokenized.
pub fn format_line(line: &str) -> (r: Result<String, SyntaxError>)
    ensures
        r matches Ok(out) ==> scan(line@) matches Some(toks) && out@ == assemble(line@, toks),
        r is Err <==> scan(line@) is None,
{
    parser::insert_liberty(line)
}

/// The two boundary lists a host editor consumes: special blocks first,
/// emphasis spans second.
pub struct Blocks {
    pub special: Vec<usize>,
    pub emphasis: Vec<usize>,
}

impl Blocks {
    /// The special-block boundaries, as their own vector.
    pub fn special(&self) -> (r: Vec<usize>)
        ensures
            r@ == self.special@,
    {
        copy_indices(&self.special)
    }

    /// The emphasis-span boundaries, as their own vector.
    pub fn emphasis(&self) -> (r: Vec<usize>)
        ensures
            r@ == self.emphasis@,
    {
        copy_indices(&self.emphasis)
    }
}

fn copy_indices(v: &Vec<usize>) -> (r: Vec<usize>)
    ensures
        r@ == v@,
{
    let mut r: Vec<usize> = Vec::new();
    let mut i: usize = 0;
    while i < v.len()
        invariant
            i <= v.len(),
            r@ == v@.subrange(0, i as int),
        decreases v.len() - i,
    {
        r.push(v[i]);
        proof {
            assert(r@ =~= v@.subrange(0, i as int + 1));
        }
        i += 1;
    }
    proof {
        assert(r@ =~= v@);
    }
    r
}

/// Locates the protected spans that start strictly before the cursor.
pub fn get_block_ranges(line: &str, cursor_pos: usize) -> (r: Blocks)
    ensures
        (r.special@, r.emphasis@) == block_ranges_spec(line@, cursor_pos as int),
        r.special@.len() % 2 == 0 && strictly_increasing(r.special@),
        r.emphasis@.len() % 2 == 0 && strictly_increasing(r.emphasis@),
{
    let (sp, em) = parser::block_ranges(line, cursor_pos);
    Blocks { special: sp, emphasis: em }
}

} // verus!
