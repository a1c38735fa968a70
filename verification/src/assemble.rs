//! The spacing assembler.
//!
//! The output keeps the first token verbatim; every following token is
//! preceded by a separator chosen from an ordered pairwise rule table over
//! the two neighbouring token classes, where the first matching row wins:
//! the sentinel stops the walk, a multi-space run or full-width punctuation
//! on either side suppresses any separator, punctuation takes no space in
//! front of it, a catch-all token reproduces the one dropped space of the
//! source if there was one, and any remaining pair - the word-meets-word
//! case the formatter exists for - gets exactly one inserted space.

use vstd::prelude::*;

use crate::token::{tok_text, Token, TokenKind};
use vstd::string::{StrSliceExecFns, StringExecFns};

verus! {

/// The piece of output emitted for `cur` when it follows `prev`: the
/// ordered rule table, first matching row wins.
pub open spec fn chunk(s: Seq<char>, prev: Token, cur: Token) -> Seq<char> {
    if prev.kind == TokenKind::MultiSpace || cur.kind == TokenKind::MultiSpace {
        tok_text(s, cur)
    } else if prev.kind == TokenKind::FwPunct || cur.kind == TokenKind::FwPunct {
        tok_text(s, cur)
    } else if cur.kind == TokenKind::Punct {
        tok_text(s, cur)
    } else if prev.kind == TokenKind::Other || cur.kind == TokenKind::Other {
        if cur.start == prev.end + 1 {
            seq![' '] + tok_text(s, cur)
        } else {
            tok_text(s, cur)
        }
    } else {
        seq![' '] + tok_text(s, cur)
    }
}

/// Output for the tokens from index `k` on, each preceded by its
/// separator, stopping at the end-of-input sentinel.
pub open spec fn assemble_from(s: Seq<char>, toks: Seq<Token>, k: int, prev: Token) -> Seq<char>
    decreases toks.len() - k when 0 <= k
{
    if k >= toks.len() {
        Seq::empty()
    } else if toks[k].kind == TokenKind::Eoi {
        Seq::empty()
    } else {
        chunk(s, prev, toks[k]) + assemble_from(s, toks, k + 1, toks[k])
    }
}

/// The assembled line: the first token verbatim, then one chunk per
/// following token.
pub open spec fn assemble(s: Seq<char>, toks: Seq<Token>) -> Seq<char> {
    if toks.len() == 0 {
        Seq::empty()
    } else {
        tok_text(s, toks[0]) + assemble_from(s, toks, 1, toks[0])
    }
}

/// The executable assembler, an exhaustive match over the pair of
/// neighbouring token classes.
pub fn assemble_line(line: &str, toks: &Vec<Token>) -> (out: String)
    requires
        toks@.len() >= 1,
        forall|k: int| 0 <= k < toks@.len() ==> (#[trigger] toks@[k]).start <= toks@[k].end
            && toks@[k].end <= line@.len(),
    ensures
        out@ == assemble(line@, toks@),
{
    let ghost s = line@;
    let t0 = toks[0];
    let mut out = String::new();
    out.append(line.substring_char(t0.start, t0.end));
    let mut prev = t0;
    let mut k: usize = 1;
    loop
        invariant
            1 <= k <= toks@.len(),
            prev == toks@[k - 1],
            s == line@,
            forall|j: int| 0 <= j < toks@.len() ==> (#[trigger] toks@[j]).start <= toks@[j].end
                && toks@[j].end <= line@.len(),
            out@ + assemble_from(s, toks@, k as int, prev) == assemble(s, toks@),
        ensures
            out@ == assemble(s, toks@),
        decreases toks@.len() - k,
    {
        if k == toks.len() {
            proof {
                assert(assemble_from(s, toks@, k as int, prev) =~= Seq::<char>::empty());
                assert(out@ + Seq::<char>::empty() =~= out@);
            }
            break;
        }
        let t = toks[k];
        let ghost out0 = out@;
        let ghost rest = assemble_from(s, toks@, k as int + 1, t);
        if t.kind == TokenKind::Eoi {
            proof {
                assert(assemble_from(s, toks@, k as int, prev) =~= Seq::<char>::empty());
                assert(out@ + Seq::<char>::empty() =~= out@);
            }
            break;
        }
        let text = line.substring_char(t.start, t.end);
        match (prev.kind, t.kind) {
            (_, TokenKind::MultiSpace)
            | (TokenKind::MultiSpace, _)
            | (_, TokenKind::FwPunct)
            | (TokenKind::FwPunct, _)
            | (_, TokenKind::Punct) => {
                out.append(text);
            },
            (_, TokenKind::Other) | (TokenKind::Other, _) => {
                if t.start > prev.end && t.start - prev.end == 1 {
                    out.append(" ");
                }
                out.append(text);
            },
            (_, _) => {
                out.append(" ");
                out.append(text);
            },
        }
        proof {
            reveal_strlit(" ");
            assert(" "@ =~= seq![' ']);
            assert(out@ =~= out0 + chunk(s, prev, t));
            assert((out0 + chunk(s, prev, t)) + rest =~= out0 + (chunk(s, prev, t) + rest));
        }
        prev = t;
        k += 1;
    }
    out
}

} // verus!
