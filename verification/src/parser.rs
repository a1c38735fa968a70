//! The public single-line operations built on the scanner: the spacing
//! formatter and the block-range locator. The two consumers share nothing
//! but the scan itself; each call tokenizes its line afresh.

use vstd::prelude::*;

use vstd::string::StrSliceExecFns;

use crate::assemble::{assemble, assemble_line};
use crate::locate::{
    block_ranges_spec, collect_ranges, lemma_ranges_shape, strictly_increasing,
};
use crate::scan::{lemma_scan_wf, scan, tok, wf_token};
use crate::token::{Token, TokenKind};
use crate::SyntaxError;

verus! {

/// The line scanner as a type: its one job is turning a line into the
/// token sequence that the two consumers below share.
pub struct LineParser;

impl LineParser {
    /// Scans one line into its token sequence: `Ok` exactly when the
    /// whole line can be partitioned by the grammar.
    pub fn parse(line: &str) -> (r: Result<Vec<Token>, SyntaxError>)
        ensures
            r matches Ok(v) ==> scan(line@) == Some(v@),
            r is Err <==> scan(line@) is None,
    {
        let cv = line_chars(line);
        crate::scan::tokenize(&cv)
    }
}

/// The line as the vector of its characters.
fn line_chars(line: &str) -> (cv: Vec<char>)
    ensures
        cv@ == line@,
{
    let n = line.unicode_len();
    let mut cv: Vec<char> = Vec::new();
    let mut i: usize = 0;
    while i < n
        invariant
            i <= n,
            n == line@.len(),
            cv@ == line@.subrange(0, i as int),
        decreases n - i,
    {
        let c = line.get_char(i);
        cv.push(c);
        proof {
            assert(cv@ =~= line@.subrange(0, i as int + 1));
        }
        i += 1;
    }
    proof {
        assert(cv@ =~= line@);
    }
    cv
}

/// Rebuilds the line with the spacing rules applied: `Ok` holds the
/// assembled text exactly when the line scans, and the scan error comes
/// back when and only when it does not.
pub fn insert_liberty(line: &str) -> (r: Result<String, SyntaxError>)
    ensures
        r matches Ok(out) ==> scan(line@) matches Some(toks) && out@ == assemble(line@, toks),
        r is Err <==> scan(line@) is None,
{
    let cv = line_chars(line);
    let n = cv.len();
    match crate::scan::tokenize(&cv) {
        Err(e) => Err(e),
        Ok(toks) => {
            proof {
                lemma_scan_wf(line@, 0);
                let ts = toks@;
                assert forall|k: int|
                    0 <= k < ts.len() implies (#[trigger] ts[k]).start <= ts[k].end && ts[k].end
                    <= line@.len() by {
                    if k < ts.len() - 1 {
                        assert(wf_token(line@, ts[k]));
                    } else {
                        assert(ts[k] == tok(
                            TokenKind::Eoi,
                            line@.len() as int,
                            line@.len() as int,
                        ));
                    }
                }
            }
            Ok(assemble_line(line, &toks))
        },
    }
}

/// The span boundaries of the protected blocks that start strictly before
/// the cursor, in character units: one flat `[start, last, ...]` list for
/// special blocks and one for emphasis spans. Both lists come back with
/// even length and strictly growing entries; a line that does not scan
/// yields two empty lists rather than an error.
pub fn block_ranges(line: &str, cursor_pos: usize) -> (r: (Vec<usize>, Vec<usize>))
    ensures
        (r.0@, r.1@) == block_ranges_spec(line@, cursor_pos as int),
        r.0@.len() % 2 == 0 && strictly_increasing(r.0@),
        r.1@.len() % 2 == 0 && strictly_increasing(r.1@),
{
    let cv = line_chars(line);
    let n = cv.len();
    let cur = if cursor_pos <= n {
        cursor_pos
    } else {
        n
    };
    match crate::scan::tokenize(&cv) {
        Err(_) => (Vec::new(), Vec::new()),
        Ok(toks) => {
            proof {
                lemma_scan_wf(line@, 0);
                let ts = toks@;
                assert(ts.last() == tok(TokenKind::Eoi, line@.len() as int, line@.len() as int));
                assert forall|j: int|
                    0 <= j < ts.len() - 1 implies (#[trigger] ts[j]).start < ts[j].end by {
                    assert(wf_token(line@, ts[j]));
                }
                lemma_ranges_shape(line@, 0, ts, 0, cur as int);
            }
            collect_ranges(&toks, cur)
        },
    }
}

} // verus!
