//! Incremental splitting of terminal text into complete lines.
//!
//! The model is a left fold over characters: the state is the list of lines
//! completed so far and the text received since the last newline.

use vstd::prelude::*;

verus! {

/// Trailing carriage returns removed.
pub open spec fn trim_cr(s: Seq<char>) -> Seq<char>
    decreases s.len(),
{
    if s.len() > 0 && s.last() == '\r' {
        trim_cr(s.drop_last())
    } else {
        s
    }
}

/// The split state after `t` arrives on top of `lines` and `pending`.
pub open spec fn feed(lines: Seq<Seq<char>>, pending: Seq<char>, t: Seq<char>) -> (Seq<
    Seq<char>,
>, Seq<char>)
    decreases t.len(),
{
    if t.len() == 0 {
        (lines, pending)
    } else {
        let (l, p) = feed(lines, pending, t.drop_last());
        if t.last() == '\n' {
            (l.push(trim_cr(p)), Seq::empty())
        } else {
            (l, p.push(t.last()))
        }
    }
}

/// The chunks joined end to end.
pub open spec fn joined(chunks: Seq<Seq<char>>) -> Seq<char>
    decreases chunks.len(),
{
    if chunks.len() == 0 {
        Seq::empty()
    } else {
        joined(chunks.drop_last()) + chunks.last()
    }
}

/// The split state after the chunks arrive one by one.
pub open spec fn feed_chunks(lines: Seq<Seq<char>>, pending: Seq<char>, chunks: Seq<
    Seq<char>,
>) -> (Seq<Seq<char>>, Seq<char>)
    decreases chunks.len(),
{
    if chunks.len() == 0 {
        (lines, pending)
    } else {
        let (l, p) = feed_chunks(lines, pending, chunks.drop_last());
        feed(l, p, chunks.last())
    }
}

pub open spec fn lines_view(v: Seq<Vec<char>>) -> Seq<Seq<char>> {
    v.map_values(|l: Vec<char>| l@)
}

/// Feeding `a` and then `b` leaves the same state as feeding `a + b`.
pub proof fn lemma_feed_append(lines: Seq<Seq<char>>, pending: Seq<char>, a: Seq<char>, b: Seq<
    char,
>)
    ensures
        feed(lines, pending, a + b) == feed(feed(lines, pending, a).0, feed(lines, pending, a).1, b),
    decreases b.len(),
{
    if b.len() == 0 {
        assert(a + b =~= a);
    } else {
        assert((a + b).drop_last() =~= a + b.drop_last());
        assert((a + b).last() == b.last());
        lemma_feed_append(lines, pending, a, b.drop_last());
    }
}

/// Chunking invariance: however a stream is cut into chunks, feeding the
/// chunks one by one yields the same completed lines and the same pending
/// text as feeding the whole stream at once.
pub proof fn lemma_chunking_invariance(lines: Seq<Seq<char>>, pending: Seq<char>, chunks: Seq<
    Seq<char>,
>)
    ensures
        feed_chunks(lines, pending, chunks) == feed(lines, pending, joined(chunks)),
    decreases chunks.len(),
{
    if chunks.len() > 0 {
        lemma_chunking_invariance(lines, pending, chunks.drop_last());
        lemma_feed_append(lines, pending, joined(chunks.drop_last()), chunks.last());
    }
}

/// Lines completed before the text arrives stay in front, untouched.
pub proof fn lemma_feed_prefix(lines: Seq<Seq<char>>, pending: Seq<char>, t: Seq<char>)
    ensures
        feed(lines, pending, t).0 == lines + feed(Seq::empty(), pending, t).0,
        feed(lines, pending, t).1 == feed(Seq::empty(), pending, t).1,
    decreases t.len(),
{
    if t.len() > 0 {
        lemma_feed_prefix(lines, pending, t.drop_last());
        let p = feed(Seq::<Seq<char>>::empty(), pending, t.drop_last());
        assert((lines + p.0).push(trim_cr(p.1)) =~= lines + p.0.push(trim_cr(p.1)));
    } else {
        assert(lines + Seq::<Seq<char>>::empty() =~= lines);
    }
}

/// Chunking invariance for two successive calls of `split_lines`: the lines
/// of the first call followed by those of the second are the lines of one
/// call on both texts together, and the same text is left pending.
pub proof fn lemma_split_two_calls(pending: Seq<char>, a: Seq<char>, b: Seq<char>)
    ensures
        ({
            let first = feed(Seq::empty(), pending, a);
            let second = feed(Seq::empty(), first.1, b);
            let whole = feed(Seq::empty(), pending, a + b);
            &&& first.0 + second.0 == whole.0
            &&& second.1 == whole.1
        }),
{
    lemma_feed_append(Seq::empty(), pending, a, b);
    let first = feed(Seq::empty(), pending, a);
    lemma_feed_prefix(first.0, first.1, b);
}

pub open spec fn no_newline(s: Seq<char>) -> bool {
    forall|i: int| 0 <= i < s.len() ==> #[trigger] s[i] != '\n'
}

/// Completed lines never hold a newline, and neither does the pending text,
/// when none did before.
pub proof fn lemma_lines_newline_free(lines: Seq<Seq<char>>, pending: Seq<char>, t: Seq<char>)
    requires
        forall|i: int| 0 <= i < lines.len() ==> no_newline(#[trigger] lines[i]),
        no_newline(pending),
    ensures
        forall|i: int|
            0 <= i < feed(lines, pending, t).0.len() ==> no_newline(
                #[trigger] feed(lines, pending, t).0[i],
            ),
        no_newline(feed(lines, pending, t).1),
    decreases t.len(),
{
    if t.len() > 0 {
        lemma_lines_newline_free(lines, pending, t.drop_last());
        let (l, p) = feed(lines, pending, t.drop_last());
        lemma_trim_cr_prefix(p);
        if t.last() != '\n' {
            assert(no_newline(p.push(t.last()))) by {
                assert forall|i: int| 0 <= i < p.len() + 1 implies #[trigger] p.push(t.last())[i]
                    != '\n' by {
                    if i < p.len() {
                        assert(p.push(t.last())[i] == p[i]);
                    }
                }
            }
        } else {
            assert forall|i: int| 0 <= i < l.len() + 1 implies no_newline(
                #[trigger] l.push(trim_cr(p))[i],
            ) by {
                if i < l.len() {
                    assert(l.push(trim_cr(p))[i] == l[i]);
                } else {
                    assert forall|j: int| 0 <= j < trim_cr(p).len() implies #[trigger] trim_cr(
                        p,
                    )[j] != '\n' by {
                        assert(trim_cr(p)[j] == p[j]);
                    }
                }
            }
            assert(no_newline(Seq::<char>::empty()));
        }
    }
}

/// Trimming carriage returns keeps a prefix.
pub proof fn lemma_trim_cr_prefix(s: Seq<char>)
    ensures
        trim_cr(s).len() <= s.len(),
        forall|j: int| 0 <= j < trim_cr(s).len() ==> #[trigger] trim_cr(s)[j] == s[j],
    decreases s.len(),
{
    if s.len() > 0 && s.last() == '\r' {
        lemma_trim_cr_prefix(s.drop_last());
    }
}

/// A copy of `v` without its trailing carriage returns.
pub fn trim_trailing_cr(v: &Vec<char>) -> (r: Vec<char>)
    ensures
        r@ == trim_cr(v@),
{
    let mut hi: usize = v.len();
    assert(v@.take(hi as int) =~= v@);
    while hi > 0 && v[hi - 1] == '\r'
        invariant
            hi <= v.len(),
            trim_cr(v@) == trim_cr(v@.take(hi as int)),
        decreases hi,
    {
        assert(v@.take(hi as int).drop_last() =~= v@.take(hi - 1));
        hi = hi - 1;
    }
    let mut out: Vec<char> = Vec::new();
    let mut i: usize = 0;
    while i < hi
        invariant
            i <= hi <= v.len(),
            out@ =~= v@.take(i as int),
        decreases hi - i,
    {
        out.push(v[i]);
        i = i + 1;
    }
    out
}

/// Appends `text` to `pending` and returns the lines it completes, each
/// without its newline and trailing carriage returns; what follows the
/// last newline stays in `pending`.
pub fn split_lines(pending: &mut Vec<char>, text: &Vec<char>) -> (r: Vec<Vec<char>>)
    ensures
        (lines_view(r@), final(pending)@) == feed(Seq::empty(), old(pending)@, text@),
{
    let mut out: Vec<Vec<char>> = Vec::new();
    let mut i: usize = 0;
    assert(text@.take(0) =~= Seq::<char>::empty());
    assert(lines_view(out@) =~= Seq::<Seq<char>>::empty());
    while i < text.len()
        invariant
            i <= text.len(),
            (lines_view(out@), pending@) == feed(Seq::empty(), old(pending)@, text@.take(i as int)),
        decreases text.len() - i,
    {
        assert(text@.take(i + 1).drop_last() =~= text@.take(i as int));
        let c = text[i];
        if c == '\n' {
            let line = trim_trailing_cr(pending);
            let ghost before = lines_view(out@);
            out.push(line);
            assert(lines_view(out@) =~= before.push(line@));
            *pending = Vec::new();
            assert(pending@ =~= Seq::<char>::empty());
        } else {
            pending.push(c);
        }
        i = i + 1;
    }
    assert(text@.take(text.len() as int) =~= text@);
    out
}

} // verus!
