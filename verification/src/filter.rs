//! Content filtering: the ingestion step that drops blank lines and comment
//! lines (first byte `#`) from a configuration file's text, and writes every
//! kept line back with a single trailing newline.

use vstd::prelude::*;

use crate::bytes::push_all;

verus! {

/// Line feed byte (`\n`).
pub const NL: u8 = 10;

/// Carriage return byte (`\r`).
pub const CR: u8 = 13;

/// Comment marker byte (`#`).
pub const HASH: u8 = 35;

/// A line is kept when it is non-empty and its first byte is not the comment
/// marker. Comment detection is purely syntactic: a line whose first byte is
/// a space is kept even if a `#` follows.
pub open spec fn kept_line(l: Seq<u8>) -> bool {
    l.len() > 0 && l[0] != HASH
}

/// Strip a single trailing carriage return, as the universal line-ending
/// convention does for a `\r\n` pair.
pub open spec fn trim_cr(l: Seq<u8>) -> Seq<u8> {
    if l.len() > 0 && l[l.len() - 1] == CR {
        l.take(l.len() - 1)
    } else {
        l
    }
}

/// The lines of `s` when `cur` is the partial line read so far: each `\n`
/// ends a line (dropping a `\r` just before it), and a final fragment
/// without a line ending is a line of its own, kept verbatim.
pub open spec fn lines_rec(s: Seq<u8>, cur: Seq<u8>) -> Seq<Seq<u8>>
    decreases s.len(),
{
    if s.len() == 0 {
        if cur.len() == 0 {
            Seq::empty()
        } else {
            seq![cur]
        }
    } else if s[0] == NL {
        seq![trim_cr(cur)] + lines_rec(s.skip(1), Seq::empty())
    } else {
        lines_rec(s.skip(1), cur.push(s[0]))
    }
}

/// The lines of a text, split at `\n` or `\r\n`, with no trailing empty line
/// for a text that ends in a line ending.
pub open spec fn lines_of(s: Seq<u8>) -> Seq<Seq<u8>> {
    lines_rec(s, Seq::empty())
}

/// The subsequence of kept lines: every line that is empty or begins with
/// `#` is absent, every other line is present, unmodified and in order.
pub open spec fn kept_only(ls: Seq<Seq<u8>>) -> Seq<Seq<u8>>
    decreases ls.len(),
{
    if ls.len() == 0 {
        Seq::empty()
    } else if kept_line(ls[0]) {
        seq![ls[0]] + kept_only(ls.skip(1))
    } else {
        kept_only(ls.skip(1))
    }
}

/// Join lines back into a text, writing every line with a single trailing
/// newline.
pub open spec fn join_lines(ls: Seq<Seq<u8>>) -> Seq<u8>
    decreases ls.len(),
{
    if ls.len() == 0 {
        Seq::empty()
    } else {
        ls[0] + seq![NL] + join_lines(ls.skip(1))
    }
}

/// What ingestion stores for a source text: exactly its kept lines, in
/// order, unmodified, each with a single trailing newline.
pub open spec fn filtered(s: Seq<u8>) -> Seq<u8> {
    join_lines(kept_only(lines_of(s)))
}

/// A line ends with a carriage return.
pub open spec fn ends_with_cr(l: Seq<u8>) -> bool {
    l.len() > 0 && l[l.len() - 1] == CR
}

/// A line holds no line feed.
pub open spec fn has_no_nl(l: Seq<u8>) -> bool {
    forall|i: int| 0 <= i < l.len() ==> l[i] != NL
}

/// Reading a line-feed-free line followed by a newline closes exactly that
/// line (appended to the partial line read so far).
proof fn lemma_lines_rec_line(l: Seq<u8>, t: Seq<u8>, cur: Seq<u8>)
    requires
        has_no_nl(l),
    ensures
        lines_rec(l + seq![NL] + t, cur) == seq![trim_cr(cur + l)] + lines_rec(
            t,
            Seq::empty(),
        ),
    decreases l.len(),
{
    let s = l + seq![NL] + t;
    if l.len() == 0 {
        assert(s[0] == NL);
        assert(s.skip(1) =~= t);
        assert(cur + l =~= cur);
    } else {
        assert(s[0] == l[0]);
        assert(s.skip(1) =~= l.skip(1) + seq![NL] + t);
        assert(has_no_nl(l.skip(1)));
        lemma_lines_rec_line(l.skip(1), t, cur.push(l[0]));
        assert(cur.push(l[0]) + l.skip(1) =~= cur + l);
    }
}

/// Splitting a joined sequence of lines gives the lines back, as long as no
/// line holds a line feed or ends with a carriage return.
proof fn lemma_lines_of_join(ls: Seq<Seq<u8>>)
    requires
        forall|i: int| 0 <= i < ls.len() ==> has_no_nl(#[trigger] ls[i]),
        forall|i: int| 0 <= i < ls.len() ==> !ends_with_cr(#[trigger] ls[i]),
    ensures
        lines_of(join_lines(ls)) == ls,
    decreases ls.len(),
{
    if ls.len() == 0 {
    } else {
        let l = ls[0];
        let rest = ls.skip(1);
        assert(join_lines(ls) == l + seq![NL] + join_lines(rest));
        lemma_lines_rec_line(l, join_lines(rest), Seq::empty());
        assert(Seq::empty() + l =~= l);
        assert(trim_cr(l) == l);
        lemma_lines_of_join(rest);
        assert(lines_of(join_lines(ls)) =~= seq![l] + rest);
        assert(seq![l] + rest =~= ls);
    }
}

/// Every line that splitting produces is free of line feeds.
proof fn lemma_lines_rec_no_nl(s: Seq<u8>, cur: Seq<u8>)
    requires
        has_no_nl(cur),
    ensures
        forall|i: int|
            0 <= i < lines_rec(s, cur).len() ==> has_no_nl(#[trigger] lines_rec(s, cur)[i]),
    decreases s.len(),
{
    if s.len() == 0 {
        if cur.len() > 0 {
            assert(lines_rec(s, cur)[0] == cur);
        }
    } else if s[0] == NL {
        assert(has_no_nl(trim_cr(cur)));
        lemma_lines_rec_no_nl(s.skip(1), Seq::empty());
        let out = lines_rec(s, cur);
        let tail = lines_rec(s.skip(1), Seq::empty());
        assert forall|i: int| 0 <= i < out.len() implies has_no_nl(#[trigger] out[i]) by {
            if i == 0 {
                assert(out[0] == trim_cr(cur));
            } else {
                assert(out[i] == tail[i - 1]);
            }
        }
    } else {
        assert(has_no_nl(cur.push(s[0])));
        lemma_lines_rec_no_nl(s.skip(1), cur.push(s[0]));
        assert(lines_rec(s, cur) == lines_rec(s.skip(1), cur.push(s[0])));
    }
}

/// A property of every line survives keeping only some of them.
proof fn lemma_kept_only_preserves(ls: Seq<Seq<u8>>, p: spec_fn(Seq<u8>) -> bool)
    requires
        forall|i: int| 0 <= i < ls.len() ==> p(#[trigger] ls[i]),
    ensures
        forall|i: int| 0 <= i < kept_only(ls).len() ==> p(#[trigger] kept_only(ls)[i]),
    decreases ls.len(),
{
    if ls.len() == 0 {
    } else {
        assert(forall|i: int| 0 <= i < ls.skip(1).len() ==> p(#[trigger] ls.skip(1)[i]));
        lemma_kept_only_preserves(ls.skip(1), p);
        let out = kept_only(ls);
        let tail = kept_only(ls.skip(1));
        if kept_line(ls[0]) {
            assert forall|i: int| 0 <= i < out.len() implies p(#[trigger] out[i]) by {
                if i == 0 {
                    assert(out[0] == ls[0]);
                } else {
                    assert(out[i] == tail[i - 1]);
                }
            }
        }
    }
}

/// The lines of a stored entry are exactly the kept lines of its source:
/// every line that is empty or begins with `#` is absent, every other line
/// is present, unmodified and in order. Stated for sources none of whose
/// lines ends in a stray carriage return; there, line-ending normalization
/// rewrites the line itself, and splitting the stored text gives the
/// normalized line instead.
pub proof fn lemma_stored_lines_are_the_kept_lines(s: Seq<u8>)
    requires
        forall|i: int| 0 <= i < lines_of(s).len() ==> !ends_with_cr(#[trigger] lines_of(s)[i]),
    ensures
        lines_of(filtered(s)) == kept_only(lines_of(s)),
{
    let no_nl = |l: Seq<u8>| has_no_nl(l);
    let no_cr = |l: Seq<u8>| !ends_with_cr(l);
    lemma_lines_rec_no_nl(s, Seq::empty());
    assert(forall|i: int| 0 <= i < lines_of(s).len() ==> no_nl(#[trigger] lines_of(s)[i]));
    assert(forall|i: int| 0 <= i < lines_of(s).len() ==> no_cr(#[trigger] lines_of(s)[i]));
    lemma_kept_only_preserves(lines_of(s), no_nl);
    lemma_kept_only_preserves(lines_of(s), no_cr);
    let kept = kept_only(lines_of(s));
    assert(forall|i: int| 0 <= i < kept.len() ==> has_no_nl(#[trigger] kept[i]));
    assert(forall|i: int| 0 <= i < kept.len() ==> !ends_with_cr(#[trigger] kept[i]));
    lemma_lines_of_join(kept);
}

/// Unfold `kept_only` and `join_lines` over a sequence of lines that starts
/// with a known head.
proof fn lemma_emit_head(line: Seq<u8>, tail: Seq<Seq<u8>>)
    ensures
        kept_line(line) ==> join_lines(kept_only(seq![line] + tail)) == line + seq![NL]
            + join_lines(kept_only(tail)),
        !kept_line(line) ==> join_lines(kept_only(seq![line] + tail)) == join_lines(
            kept_only(tail),
        ),
{
    let full = seq![line] + tail;
    assert(full[0] == line);
    assert(full.skip(1) =~= tail);
    if kept_line(line) {
        assert(kept_only(full) == seq![line] + kept_only(tail));
        let jfull = seq![line] + kept_only(tail);
        assert(jfull[0] == line);
        assert(jfull.skip(1) =~= kept_only(tail));
        assert(join_lines(jfull) == line + seq![NL] + join_lines(kept_only(tail)));
    } else {
        assert(kept_only(full) == kept_only(tail));
    }
}

/// Filter a source text: drop every line that is empty or begins with `#`,
/// and write every other line back, unmodified, with a single trailing
/// newline. The result is exactly `filtered` of the input.
pub fn filter_content(src: &Vec<u8>) -> (out: Vec<u8>)
    ensures
        out@ == filtered(src@),
{
    let mut out: Vec<u8> = Vec::new();
    let mut cur: Vec<u8> = Vec::new();
    let mut i: usize = 0;
    proof {
        assert(src@.skip(0) =~= src@);
    }
    while i < src.len()
        invariant
            i <= src.len(),
            out@ + join_lines(kept_only(lines_rec(src@.skip(i as int), cur@))) == filtered(
                src@,
            ),
        decreases src.len() - i,
    {
        let ghost rest = src@.skip(i as int);
        let ghost out0 = out@;
        let b = src[i];
        proof {
            assert(rest[0] == b);
            assert(rest.skip(1) =~= src@.skip(i + 1));
        }
        if b == NL {
            let ghost line = trim_cr(cur@);
            let ghost tail = lines_rec(rest.skip(1), Seq::<u8>::empty());
            proof {
                assert(lines_rec(rest, cur@) == seq![line] + tail);
                lemma_emit_head(line, tail);
            }
            if cur.len() > 0 && cur[cur.len() - 1] == CR {
                cur.pop();
                proof {
                    assert(cur@ =~= line);
                }
            }
            proof {
                assert(cur@ == line);
            }
            if cur.len() > 0 && cur[0] != HASH {
                proof {
                    assert(kept_line(line));
                }
                push_all(&mut out, &cur);
                out.push(NL);
                proof {
                    assert(out@ + join_lines(kept_only(tail)) =~= out0 + (line + seq![NL]
                        + join_lines(kept_only(tail))));
                }
            } else {
                proof {
                    assert(!kept_line(line));
                }
            }
            cur.clear();
        } else {
            proof {
                assert(lines_rec(rest, cur@) == lines_rec(rest.skip(1), cur@.push(b)));
            }
            cur.push(b);
        }
        i += 1;
    }
    let ghost out0 = out@;
    proof {
        assert(src@.skip(src.len() as int) =~= Seq::<u8>::empty());
    }
    if cur.len() > 0 && cur[0] != HASH {
        proof {
            assert(lines_rec(Seq::<u8>::empty(), cur@) == seq![cur@]);
            assert(seq![cur@] =~= seq![cur@] + Seq::<Seq<u8>>::empty());
            lemma_emit_head(cur@, Seq::<Seq<u8>>::empty());
        }
        push_all(&mut out, &cur);
        out.push(NL);
        proof {
            assert(out@ =~= out0 + (cur@ + seq![NL] + join_lines(kept_only(
                Seq::<Seq<u8>>::empty(),
            ))));
        }
    } else {
        proof {
            if cur@.len() > 0 {
                assert(lines_rec(Seq::<u8>::empty(), cur@) == seq![cur@]);
                assert(seq![cur@] =~= seq![cur@] + Seq::<Seq<u8>>::empty());
                lemma_emit_head(cur@, Seq::<Seq<u8>>::empty());
            }
        }
    }
    proof {
        assert(out@ =~= filtered(src@));
    }
    out
}

} // verus!
