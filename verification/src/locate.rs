//! The block-range locator.
//!
//! Given a cursor position in character units, the locator walks the token
//! sequence in order and collects, for every protected span that starts
//! strictly before the cursor, the character indices of its first and last
//! covered character: one flat list for special blocks, one for emphasis
//! spans. The walk stops at the first token that does not start before the
//! cursor; tokens are ordered, so nothing later could match. A line that
//! does not scan yields two empty lists: the locator is advisory and never
//! fails observably.

use vstd::prelude::*;

use crate::scan::{gap_ok, scan, tok, wf_token, wf_tokens_from};
use crate::token::{Token, TokenKind};

verus! {

/// The cursor clamped to the line length.
pub open spec fn clamp_cursor(s: Seq<char>, pos: int) -> int {
    if pos <= s.len() {
        pos
    } else {
        s.len() as int
    }
}

/// The two boundary lists for the tokens from `k` on, cut off at the
/// first token that does not start strictly before `cur`.
pub open spec fn ranges_from(toks: Seq<Token>, k: int, cur: int) -> (Seq<usize>, Seq<usize>)
    decreases toks.len() - k when 0 <= k
{
    if k >= toks.len() {
        (Seq::empty(), Seq::empty())
    } else if cur <= toks[k].start {
        (Seq::empty(), Seq::empty())
    } else {
        let r = ranges_from(toks, k + 1, cur);
        let pair = seq![toks[k].start, (toks[k].end - 1) as usize];
        if toks[k].kind matches TokenKind::SpecialBlock(_) {
            (pair + r.0, r.1)
        } else if toks[k].kind == TokenKind::InlineEm {
            (r.0, pair + r.1)
        } else {
            r
        }
    }
}

/// What the locator returns for a line and a cursor position.
pub open spec fn block_ranges_spec(s: Seq<char>, pos: int) -> (Seq<usize>, Seq<usize>) {
    match scan(s) {
        Some(toks) => ranges_from(toks, 0, clamp_cursor(s, pos)),
        None => (Seq::empty(), Seq::empty()),
    }
}

/// Adjacent entries grow strictly.
pub open spec fn strictly_increasing(q: Seq<usize>) -> bool {
    forall|a: int| 0 <= a < q.len() - 1 ==> #[trigger] q[a] < q[a + 1]
}

/// Shape of the collected lists: both have even length, both grow
/// strictly, and neither reaches left of the token the walk started at.
pub proof fn lemma_ranges_shape(s: Seq<char>, i: int, toks: Seq<Token>, k: int, cur: int)
    requires
        wf_tokens_from(s, i, toks),
        0 <= k,
    ensures
        ({
            let r = ranges_from(toks, k, cur);
            &&& r.0.len() % 2 == 0
            &&& r.1.len() % 2 == 0
            &&& strictly_increasing(r.0)
            &&& strictly_increasing(r.1)
            &&& (r.0.len() > 0 ==> k < toks.len() && r.0[0] >= toks[k].start)
            &&& (r.1.len() > 0 ==> k < toks.len() && r.1[0] >= toks[k].start)
        }),
    decreases toks.len() - k,
{
    if k >= toks.len() || cur <= toks[k].start {
    } else {
        lemma_ranges_shape(s, i, toks, k + 1, cur);
        let r = ranges_from(toks, k + 1, cur);
        let t = toks[k];
        if t.kind != TokenKind::Eoi {
            assert(k < toks.len() - 1) by {
                assert(toks.last() == tok(TokenKind::Eoi, s.len() as int, s.len() as int));
            }
            assert(wf_token(s, t));
            assert(gap_ok(s, toks[k], toks[k + 1]));
            assert(toks[k + 1].start >= t.end);
        }
        let pair = seq![t.start, (t.end - 1) as usize];
        if (t.kind matches TokenKind::SpecialBlock(_)) || t.kind == TokenKind::InlineEm {
            assert(t.end - t.start >= 2);
            let rl = if t.kind matches TokenKind::SpecialBlock(_) {
                r.0
            } else {
                r.1
            };
            let out = pair + rl;
            assert(rl.len() > 0 ==> rl[0] >= toks[k + 1].start);
            assert forall|a: int| 0 <= a < out.len() - 1 implies #[trigger] out[a] < out[a + 1] by {
                if a == 0 {
                    assert(out[0] == t.start && out[1] == (t.end - 1) as usize);
                } else if a == 1 {
                    assert(out[1] == (t.end - 1) as usize);
                    assert(out[2] == rl[0]);
                    assert(rl[0] >= t.end);
                } else {
                    assert(out[a] == rl[a - 2]);
                    assert(out[a + 1] == rl[a - 1]);
                    assert(rl[a - 2] < rl[a - 2 + 1]);
                }
            }
        } else {
            if r.0.len() > 0 || r.1.len() > 0 {
                assert(k + 1 < toks.len());
                assert(wf_token(s, t));
                assert(gap_ok(s, toks[k], toks[k + 1]));
                assert(toks[k + 1].start > t.start);
            }
        }
    }
}

/// Raising the cursor only extends the lists, it never rewrites what a
/// lower cursor already reported.
pub proof fn lemma_ranges_monotone(toks: Seq<Token>, k: int, c1: int, c2: int)
    requires
        0 <= k,
        c1 <= c2,
    ensures
        ranges_from(toks, k, c1).0.is_prefix_of(ranges_from(toks, k, c2).0),
        ranges_from(toks, k, c1).1.is_prefix_of(ranges_from(toks, k, c2).1),
    decreases toks.len() - k,
{
    if k >= toks.len() {
    } else if c1 <= toks[k].start {
        assert(ranges_from(toks, k, c1).0 =~= Seq::<usize>::empty());
        assert(ranges_from(toks, k, c1).1 =~= Seq::<usize>::empty());
    } else {
        lemma_ranges_monotone(toks, k + 1, c1, c2);
        let r1 = ranges_from(toks, k + 1, c1);
        let r2 = ranges_from(toks, k + 1, c2);
        let pair = seq![toks[k].start, (toks[k].end - 1) as usize];
        assert((pair + r1.0).is_prefix_of(pair + r2.0)) by {
            assert(pair + r1.0 =~= (pair + r2.0).subrange(0, (pair + r1.0).len() as int));
        }
        assert((pair + r1.1).is_prefix_of(pair + r2.1)) by {
            assert(pair + r1.1 =~= (pair + r2.1).subrange(0, (pair + r1.1).len() as int));
        }
    }
}

/// For a fixed line, a higher cursor never removes a reported span pair:
/// the lists for the lower cursor are a prefix of the lists for the
/// higher one.
pub proof fn lemma_cursor_monotonic(s: Seq<char>, p1: int, p2: int)
    requires
        p1 <= p2,
    ensures
        block_ranges_spec(s, p1).0.is_prefix_of(block_ranges_spec(s, p2).0),
        block_ranges_spec(s, p1).1.is_prefix_of(block_ranges_spec(s, p2).1),
{
    match scan(s) {
        Some(toks) => {
            lemma_ranges_monotone(toks, 0, clamp_cursor(s, p1), clamp_cursor(s, p2));
        },
        None => {
            assert(Seq::<usize>::empty().is_prefix_of(Seq::<usize>::empty())) by {
                assert(Seq::<usize>::empty() =~= Seq::<usize>::empty().subrange(0, 0));
            }
        },
    }
}

/// The executable walk over a scanned token sequence.
pub fn collect_ranges(toks: &Vec<Token>, cur: usize) -> (r: (Vec<usize>, Vec<usize>))
    requires
        toks@.len() >= 1,
        toks@.last().kind == TokenKind::Eoi,
        toks@.last().start >= cur,
        forall|j: int| 0 <= j < toks@.len() - 1 ==> (#[trigger] toks@[j]).start < toks@[j].end,
    ensures
        (r.0@, r.1@) == ranges_from(toks@, 0, cur as int),
{
    let mut sp: Vec<usize> = Vec::new();
    let mut em: Vec<usize> = Vec::new();
    let mut k: usize = 0;
    let n = toks.len();
    let ghost full = ranges_from(toks@, 0, cur as int);
    loop
        invariant
            n == toks@.len(),
            k < n,
            toks@.last().kind == TokenKind::Eoi,
            toks@.last().start >= cur,
            forall|j: int| 0 <= j < toks@.len() - 1 ==> (#[trigger] toks@[j]).start < toks@[j].end,
            full == ranges_from(toks@, 0, cur as int),
            full.0 == sp@ + ranges_from(toks@, k as int, cur as int).0,
            full.1 == em@ + ranges_from(toks@, k as int, cur as int).1,
        ensures
            full.0 == sp@ && full.1 == em@,
        decreases toks@.len() - k,
    {
        let t = toks[k];
        let ghost rk = ranges_from(toks@, k as int, cur as int);
        if cur <= t.start {
            proof {
                assert(rk.0 =~= Seq::<usize>::empty());
                assert(rk.1 =~= Seq::<usize>::empty());
                assert(sp@ + Seq::<usize>::empty() =~= sp@);
                assert(em@ + Seq::<usize>::empty() =~= em@);
            }
            break;
        }
        proof {
            assert(k < toks@.len() - 1) by {
                if k == toks@.len() - 1 {
                    assert(cur <= toks@.last().start);
                }
            }
        }
        let ghost rn = ranges_from(toks@, k as int + 1, cur as int);
        let ghost sp0 = sp@;
        let ghost em0 = em@;
        let ghost pair = seq![t.start, (t.end - 1) as usize];
        match t.kind {
            TokenKind::SpecialBlock(_) => {
                sp.push(t.start);
                sp.push(t.end - 1);
            },
            TokenKind::InlineEm => {
                em.push(t.start);
                em.push(t.end - 1);
            },
            _ => {},
        }
        proof {
            if t.kind matches TokenKind::SpecialBlock(_) {
                assert(rk.0 == pair + rn.0);
                assert(rk.1 == rn.1);
                assert(sp@ =~= sp0 + pair);
                assert(sp0 + (pair + rn.0) =~= (sp0 + pair) + rn.0);
            } else if t.kind == TokenKind::InlineEm {
                assert(rk.1 == pair + rn.1);
                assert(rk.0 == rn.0);
                assert(em@ =~= em0 + pair);
                assert(em0 + (pair + rn.1) =~= (em0 + pair) + rn.1);
            } else {
                assert(rk == rn);
            }
        }
        k += 1;
    }
    (sp, em)
}

} // verus!
