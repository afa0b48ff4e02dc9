//! The echo service: every line a client sends comes back with its
//! characters (grapheme clusters) in reverse order.
use vstd::prelude::*;
use vstd::utf8::{decode_utf8, encode_utf8, valid_utf8};
use unicode_segmentation::UnicodeSegmentation;
use crate::text::{lines, split_lines};

verus! {

/// Whether a connection still runs.
#[derive(Clone, Copy, Debug, PartialEq, Eq, Structural)]
pub enum ConnectionState {
    Running,
    Closed,
}

/// The text that `String::from_utf8_lossy` makes of these bytes.
pub uninterp spec fn lossy_utf8(bytes: Seq<u8>) -> Seq<char>;

/// `String::from_utf8_lossy`: decodes the bytes, each invalid sequence
/// replaced by U+FFFD; bytes that are valid UTF-8 decode as they are, and
/// bytes that are not empty never give an empty text.  Beyond that, which text comes out
/// is left to the name `lossy_utf8`.
#[verifier::external_body]
fn decode_lossy(bytes: &[u8]) -> (s: String)
    ensures
        s@ == lossy_utf8(bytes@),
        valid_utf8(bytes@) ==> s@ == decode_utf8(bytes@),
        bytes@.len() > 0 ==> s@.len() > 0,
{
    String::from_utf8_lossy(bytes).into_owned()
}

/// The extended grapheme clusters that `unicode_segmentation` finds in a
/// text, in order.
pub uninterp spec fn grapheme_clusters(s: Seq<char>) -> Seq<Seq<char>>;

/// `UnicodeSegmentation::graphemes(s, true)`: the extended grapheme
/// clusters of `s`, in order, each as a string; they are consecutive
/// pieces of `s` and together make it up.  Where the cluster boundaries
/// fall is left to the name `grapheme_clusters`.
#[verifier::external_body]
fn extended_graphemes(s: &str) -> (clusters: Vec<String>)
    ensures
        clusters@.map_values(|g: String| g@) == grapheme_clusters(s@),
        clusters@.map_values(|g: String| g@).flatten() == s@,
{
    s.graphemes(true).map(|g| g.to_string()).collect()
}

/// The pieces of `gs` joined in reverse order.
pub open spec fn join_reversed(gs: Seq<Seq<char>>) -> Seq<char>
    decreases gs.len(),
{
    if gs.len() == 0 {
        Seq::empty()
    } else {
        gs.last() + join_reversed(gs.drop_last())
    }
}

/// The echo of one line: its text with the grapheme clusters reversed,
/// encoded as UTF-8.
pub open spec fn reverse_line(line: Seq<u8>) -> Seq<u8> {
    encode_utf8(join_reversed(grapheme_clusters(lossy_utf8(line))))
}

/// The echoes of the lines, leaving out the empty ones.
pub open spec fn echoes(ls: Seq<Seq<u8>>) -> Seq<Seq<u8>>
    decreases ls.len(),
{
    if ls.len() == 0 {
        Seq::empty()
    } else {
        let rest = echoes(ls.drop_last());
        let e = reverse_line(ls.last());
        if e.len() > 0 {
            rest.push(e)
        } else {
            rest
        }
    }
}

/// The pieces joined in reverse order are as long as the pieces joined
/// in order.
proof fn lemma_join_reversed_len(gs: Seq<Seq<char>>)
    ensures
        join_reversed(gs).len() == gs.flatten_alt().len(),
    decreases gs.len(),
{
    if gs.len() > 0 {
        lemma_join_reversed_len(gs.drop_last());
    }
}

/// Joining the pieces in reverse order is flattening the reversed pieces.
proof fn lemma_join_reversed_is_reverse_flatten(gs: Seq<Seq<char>>)
    ensures
        join_reversed(gs) == gs.reverse().flatten(),
    decreases gs.len(),
{
    if gs.len() > 0 {
        lemma_join_reversed_is_reverse_flatten(gs.drop_last());
        let r = gs.reverse();
        assert(r.first() == gs.last());
        assert(r.drop_first() =~= gs.drop_last().reverse());
    } else {
        assert(gs.reverse() =~= Seq::<Seq<char>>::empty());
    }
}

/// The echo of a line is the line's grapheme clusters taken from the last
/// to the first: the decoded text of the line, cut into clusters, the
/// sequence of clusters reversed, and the result encoded as UTF-8.
pub proof fn law_echo_is_the_clusters_in_reverse(line: Seq<u8>)
    ensures
        reverse_line(line) == encode_utf8(grapheme_clusters(lossy_utf8(line)).reverse().flatten()),
{
    lemma_join_reversed_is_reverse_flatten(grapheme_clusters(lossy_utf8(line)));
}

/// The number of non-empty lines.
pub open spec fn nonempty_lines(ls: Seq<Seq<u8>>) -> nat
    decreases ls.len(),
{
    if ls.len() == 0 {
        0
    } else if ls.last().len() > 0 {
        nonempty_lines(ls.drop_last()) + 1
    } else {
        nonempty_lines(ls.drop_last())
    }
}

/// The echo of one line: its grapheme clusters from the last to the first.
/// It is empty exactly when the line is, and the clusters it was cut into
/// make up the line's text.
pub fn reverse_graphemes(line: &[u8]) -> (echo: Vec<u8>)
    ensures
        echo@ == reverse_line(line@),
        echo@ == encode_utf8(grapheme_clusters(lossy_utf8(line@)).reverse().flatten()),
        grapheme_clusters(lossy_utf8(line@)).flatten() == lossy_utf8(line@),
        echo@.len() > 0 <==> line@.len() > 0,
{
    let text = decode_lossy(line);
    let clusters = extended_graphemes(text.as_str());
    let ghost gs = clusters@.map_values(|g: String| g@);
    let mut out = String::new();
    let mut i = clusters.len();
    assert(gs.take(i as int) =~= gs);
    while i > 0
        invariant
            i <= clusters@.len(),
            gs.len() == clusters@.len(),
            forall|k: int| 0 <= k < gs.len() ==> gs[k] == (#[trigger] clusters@[k])@,
            join_reversed(gs) == out@ + join_reversed(gs.take(i as int)),
        decreases i,
    {
        assert(gs.take(i as int).drop_last() =~= gs.take(i - 1));
        assert(gs.take(i as int).last() == clusters@[i - 1]@);
        out.append(clusters[i - 1].as_str());
        i = i - 1;
        assert(join_reversed(gs) =~= out@ + join_reversed(gs.take(i as int)));
    }
    assert(gs.take(0) =~= Seq::<Seq<char>>::empty());
    assert(out@ =~= join_reversed(gs));
    proof {
        lemma_join_reversed_len(gs);
        gs.lemma_flatten_and_flatten_alt_are_equivalent();
        if line@.len() == 0 {
            assert(valid_utf8(line@));
            assert(decode_utf8(line@) =~= Seq::<char>::empty());
        }
        if out@.len() > 0 {
            assert(encode_utf8(out@).len() > 0);
        } else {
            assert(out@ =~= Seq::<char>::empty());
        }
    }
    let bytes = out.as_str().as_bytes();
    let mut echo: Vec<u8> = Vec::new();
    crate::text::append_bytes(&mut echo, bytes);
    assert(echo@ =~= reverse_line(line@));
    proof {
        law_echo_is_the_clusters_in_reverse(line@);
    }
    echo
}

/// The lines that are not empty, in order.
pub open spec fn nonempty_only(ls: Seq<Seq<u8>>) -> Seq<Seq<u8>> {
    ls.filter(|l: Seq<u8>| l.len() > 0)
}

/// The echoes of the lines in what a client sent, empty ones left out:
/// every non-empty line is echoed, in the order the lines came.
pub fn echo_lines(buffer: &[u8]) -> (replies: Vec<Vec<u8>>)
    ensures
        replies@.map_values(|r: Vec<u8>| r@) == echoes(split_lines(buffer@)),
        replies@.len() == nonempty_lines(split_lines(buffer@)),
        replies@.map_values(|r: Vec<u8>| r@) == nonempty_only(split_lines(buffer@)).map_values(
            |l: Seq<u8>| reverse_line(l),
        ),
{
    let pieces = lines(buffer);
    let ghost ls = split_lines(buffer@);
    let mut replies: Vec<Vec<u8>> = Vec::new();
    let mut i: usize = 0;
    assert(ls.take(0) =~= Seq::<Seq<u8>>::empty());
    proof {
        reveal(Seq::filter);
    }
    assert(nonempty_only(ls.take(0)) =~= Seq::<Seq<u8>>::empty());
    while i < pieces.len()
        invariant
            i <= pieces@.len(),
            pieces@.map_values(|p: Vec<u8>| p@) == ls,
            replies@.map_values(|r: Vec<u8>| r@) == echoes(ls.take(i as int)),
            replies@.len() == nonempty_lines(ls.take(i as int)),
            replies@.map_values(|r: Vec<u8>| r@) == nonempty_only(ls.take(i as int)).map_values(
                |l: Seq<u8>| reverse_line(l),
            ),
        decreases pieces@.len() - i,
    {
        proof {
            reveal(Seq::filter);
        }
        assert(ls.take(i + 1).drop_last() =~= ls.take(i as int));
        assert(ls.take(i + 1).last() == pieces@[i as int]@);
        let echo = reverse_graphemes(pieces[i].as_slice());
        if echo.len() > 0 {
            replies.push(echo);
        }
        i = i + 1;
        assert(replies@.map_values(|r: Vec<u8>| r@) =~= echoes(ls.take(i as int)));
        assert(replies@.map_values(|r: Vec<u8>| r@) =~= nonempty_only(ls.take(i as int)).map_values(
            |l: Seq<u8>| reverse_line(l),
        ));
    }
    assert(ls.take(i as int) =~= ls);
    replies
}

} // verus!
