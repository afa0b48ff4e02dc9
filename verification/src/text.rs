//! Byte-level text: splitting input into lines and writing replies.
use vstd::prelude::*;
use vstd::string::StringSliceAdditionalSpecFns;

verus! {

/// A line feed or a carriage return.
pub open spec fn is_line_break(b: u8) -> bool {
    b == 0x0a || b == 0x0d
}

/// The pieces of `s` between line breaks, in order; two breaks in a row
/// give an empty piece, and there is always at least one piece.
pub open spec fn split_lines(s: Seq<u8>) -> Seq<Seq<u8>>
    decreases s.len(),
{
    if s.len() == 0 {
        seq![Seq::<u8>::empty()]
    } else {
        let init = split_lines(s.drop_last());
        if is_line_break(s.last()) {
            init.push(Seq::<u8>::empty())
        } else {
            init.update(init.len() - 1, init.last().push(s.last()))
        }
    }
}

/// There is always at least one piece.
pub proof fn lemma_split_lines_nonempty(s: Seq<u8>)
    ensures
        split_lines(s).len() >= 1,
    decreases s.len(),
{
    if s.len() > 0 {
        lemma_split_lines_nonempty(s.drop_last());
    }
}

/// The line breaks of `s`, in order.
pub open spec fn line_breaks(s: Seq<u8>) -> Seq<u8> {
    s.filter(|b: u8| b == 0x0a || b == 0x0d)
}

/// The pieces joined again, the `k`-th separator put between piece `k`
/// and piece `k + 1`.
pub open spec fn join_pieces(pieces: Seq<Seq<u8>>, separators: Seq<u8>) -> Seq<u8>
    decreases pieces.len(),
{
    if pieces.len() == 0 {
        Seq::empty()
    } else if pieces.len() == 1 {
        pieces[0]
    } else {
        join_pieces(pieces.drop_last(), separators.drop_last()) + seq![separators.last()]
            + pieces.last()
    }
}

/// Splitting loses nothing and adds nothing: there is one piece more than
/// there are line breaks, no piece holds a line feed or a carriage return,
/// and putting the breaks back between the pieces, in order, gives the
/// input again.
pub proof fn law_lines_rejoin_to_the_input(s: Seq<u8>)
    ensures
        split_lines(s).len() == line_breaks(s).len() + 1,
        forall|j: int, k: int|
            0 <= j < split_lines(s).len() && 0 <= k < split_lines(s)[j].len() ==> #[trigger] split_lines(s)[j][k]
                != 0x0a && split_lines(s)[j][k] != 0x0d,
        join_pieces(split_lines(s), line_breaks(s)) == s,
    decreases s.len(),
{
    reveal(Seq::filter);
    if s.len() == 0 {
        assert(join_pieces(split_lines(s), line_breaks(s)) =~= s);
    } else {
        let d = s.drop_last();
        law_lines_rejoin_to_the_input(d);
        let p = split_lines(d);
        let b = line_breaks(d);
        let c = s.last();
        assert(line_breaks(s) == if c == 0x0a || c == 0x0d { b.push(c) } else { b });
        if is_line_break(c) {
            let q = p.push(Seq::<u8>::empty());
            assert(q.drop_last() =~= p);
            assert(b.push(c).drop_last() =~= b);
            assert(join_pieces(q, b.push(c)) =~= s);
        } else {
            let q = p.update(p.len() - 1, p.last().push(c));
            if p.len() == 1 {
                assert(join_pieces(q, b) =~= s);
            } else {
                assert(q.drop_last() =~= p.drop_last());
                assert(q.last() == p.last().push(c));
                assert(join_pieces(p, b) == join_pieces(p.drop_last(), b.drop_last()) + seq![b.last()]
                    + p.last());
                assert(s =~= d.push(c));
                assert(join_pieces(q, b) =~= s);
            }
            assert forall|j: int, k: int|
                0 <= j < q.len() && 0 <= k < q[j].len() implies #[trigger] q[j][k] != 0x0a && q[j][k] != 0x0d by {
                if j < p.len() - 1 {
                    assert(q[j] == p[j]);
                } else if k < p.last().len() {
                    assert(q[j][k] == p[j][k]);
                }
            }
        }
    }
}

/// The first piece is everything before the first line break.
pub proof fn law_first_line_ends_at_the_first_break(a: Seq<u8>, rest: Seq<u8>)
    requires
        forall|k: int| 0 <= k < a.len() ==> #[trigger] a[k] != 0x0a && a[k] != 0x0d,
        rest.len() == 0 || rest[0] == 0x0a || rest[0] == 0x0d,
    ensures
        split_lines(a + rest)[0] == a,
    decreases rest.len(),
{
    lemma_no_break_is_one_piece(a);
    if rest.len() == 0 {
        assert(a + rest =~= a);
    } else if rest.len() == 1 {
        assert((a + rest).drop_last() =~= a);
    } else {
        law_first_line_ends_at_the_first_break(a, rest.drop_last());
        lemma_split_lines_nonempty(a + rest.drop_last());
        assert((a + rest).drop_last() =~= a + rest.drop_last());
        lemma_more_than_one_piece(a, rest.drop_last());
    }
}

/// Text without a line break is a single piece.
proof fn lemma_no_break_is_one_piece(a: Seq<u8>)
    requires
        forall|k: int| 0 <= k < a.len() ==> #[trigger] a[k] != 0x0a && a[k] != 0x0d,
    ensures
        split_lines(a) == seq![a],
    decreases a.len(),
{
    if a.len() == 0 {
        assert(a =~= Seq::<u8>::empty());
    } else {
        assert(a[a.len() - 1] != 0x0a && a[a.len() - 1] != 0x0d);
        assert forall|k: int| 0 <= k < a.drop_last().len() implies #[trigger] a.drop_last()[k] != 0x0a
            && a.drop_last()[k] != 0x0d by {
            assert(a.drop_last()[k] == a[k]);
        }
        lemma_no_break_is_one_piece(a.drop_last());
        assert(a.drop_last().push(a.last()) =~= a);
        assert(seq![a.drop_last()].update(0, a.drop_last().push(a.last())) =~= seq![a]);
    }
}

/// After a line break there are at least two pieces.
proof fn lemma_more_than_one_piece(a: Seq<u8>, rest: Seq<u8>)
    requires
        rest.len() > 0,
        rest[0] == 0x0a || rest[0] == 0x0d,
    ensures
        split_lines(a + rest).len() >= 2,
    decreases rest.len(),
{
    if rest.len() == 1 {
        assert((a + rest).drop_last() =~= a);
        lemma_split_lines_nonempty(a);
    } else {
        lemma_more_than_one_piece(a, rest.drop_last());
        assert((a + rest).drop_last() =~= a + rest.drop_last());
    }
}

/// The pieces of `buffer` between line breaks.
pub fn lines(buffer: &[u8]) -> (pieces: Vec<Vec<u8>>)
    ensures
        pieces@.map_values(|p: Vec<u8>| p@) == split_lines(buffer@),
{
    let mut done: Vec<Vec<u8>> = Vec::new();
    let mut cur: Vec<u8> = Vec::new();
    let mut i: usize = 0;
    assert(buffer@.take(0) =~= Seq::<u8>::empty());
    while i < buffer.len()
        invariant
            i <= buffer@.len(),
            done@.map_values(|p: Vec<u8>| p@).push(cur@) == split_lines(buffer@.take(i as int)),
        decreases buffer@.len() - i,
    {
        let ghost before = buffer@.take(i as int);
        assert(buffer@.take(i as int + 1).drop_last() =~= before);
        let b = buffer[i];
        if b == 0x0a || b == 0x0d {
            let mut next: Vec<u8> = Vec::new();
            std::mem::swap(&mut next, &mut cur);
            done.push(next);
            assert(done@.map_values(|p: Vec<u8>| p@) =~= split_lines(before));
        } else {
            cur.push(b);
            assert(done@.map_values(|p: Vec<u8>| p@).push(cur@) =~= split_lines(before).update(
                split_lines(before).len() - 1,
                split_lines(before).last().push(b),
            ));
        }
        i = i + 1;
    }
    assert(buffer@.take(i as int) =~= buffer@);
    done.push(cur);
    assert(done@.map_values(|p: Vec<u8>| p@) =~= split_lines(buffer@));
    done
}

/// The bytes of a text.
pub open spec fn text(s: &str) -> Seq<u8> {
    s.spec_bytes()
}

/// Appends `more` to `out`.
pub fn append_bytes(out: &mut Vec<u8>, more: &[u8])
    ensures
        final(out)@ == old(out)@ + more@,
{
    let mut i: usize = 0;
    while i < more.len()
        invariant
            i <= more@.len(),
            out@ == old(out)@ + more@.take(i as int),
        decreases more@.len() - i,
    {
        out.push(more[i]);
        i = i + 1;
        assert(out@ =~= old(out)@ + more@.take(i as int));
    }
    assert(more@.take(i as int) =~= more@);
}

/// Appends the bytes of `s` to `out`.
pub fn append_text(out: &mut Vec<u8>, s: &str)
    ensures
        final(out)@ == old(out)@ + text(s),
{
    append_bytes(out, s.as_bytes());
}

} // verus!
