//! One finger transaction: read a query line, answer it.
use vstd::prelude::*;
use crate::rfc1288::{
    error_description, is_ascii_alphanumeric, law_local_user_is_named, law_remote_user_is_named,
    parse_request, query_opening, spec_parse_request, Request, RequestModel, AT, LOWER_W, SPACE,
    UPPER_W,
};
use crate::text::{
    append_bytes, append_text, is_line_break, lemma_split_lines_nonempty, lines, split_lines, text,
};

verus! {

/// How many bytes of a query a transaction reads at most.
pub const MAX_BUF_SIZE: usize = 512;

/// The ASCII encoding of a text of ASCII characters.
pub open spec fn ascii(s: Seq<char>) -> Seq<u8> {
    s.map_values(|c: char| c as u8)
}

/// The answer to a query line.
pub open spec fn transaction_reply(line: Seq<u8>) -> Seq<u8> {
    match spec_parse_request(line) {
        Ok(RequestModel::Remote(u, h)) => text("Remote Request: ") + u + text("@") + h,
        Ok(RequestModel::User(u)) => text("Local Request: ") + u,
        Ok(RequestModel::UserList) => text("List Request"),
        Err(e) => ascii(error_description(e)),
    }
}

/// `/W name@host` is answered `Remote Request: name@host`, the whole
/// host repeated as it came, dots and all.
pub proof fn law_remote_reply_repeats_the_whole_host(w: u8, u: Seq<u8>, h: Seq<u8>)
    requires
        w == UPPER_W || w == LOWER_W,
        forall|k: int| 0 <= k < u.len() ==> is_ascii_alphanumeric(#[trigger] u[k]),
        forall|k: int| 0 <= k < h.len() ==> #[trigger] h[k] != SPACE,
    ensures
        transaction_reply(query_opening(w) + u + seq![AT] + h) == text("Remote Request: ") + u + text(
            "@",
        ) + h,
{
    law_remote_user_is_named(w, u, h);
}

/// `/W name` is answered `Local Request: name`, the name repeated as it
/// came.
pub proof fn law_local_reply_repeats_the_name(w: u8, u: Seq<u8>)
    requires
        w == UPPER_W || w == LOWER_W,
        u.len() > 0,
        forall|k: int| 0 <= k < u.len() ==> is_ascii_alphanumeric(#[trigger] u[k]),
    ensures
        transaction_reply(query_opening(w) + u) == text("Local Request: ") + u,
{
    law_local_user_is_named(w, u);
}

/// What a transaction does once it has read `buffer`.
pub enum ReadOutcome {
    /// A whole line arrived: answer it with these bytes.
    Reply(Vec<u8>),
    /// The buffer filled up without a line break.
    BufferFull,
    /// Keep reading.
    NeedMore,
}

/// `s` holds a line break.
pub open spec fn has_line_break(s: Seq<u8>) -> bool {
    exists|k: int| 0 <= k < s.len() && is_line_break(#[trigger] s[k])
}

/// Appends the ASCII bytes of an error's description.
fn append_description(out: &mut Vec<u8>, e: crate::rfc1288::ErrorKind)
    ensures
        final(out)@ == old(out)@ + ascii(error_description(e)),
{
    let d = e.description();
    let mut i: usize = 0;
    proof {
        reveal_strlit("Protocol prefix not recognized");
        reveal_strlit("Protocol request does not meet specification");
    }
    let ghost chars = d@;
    assert(forall|k: int| 0 <= k < chars.len() ==> (#[trigger] chars[k] as u32) < 128);
    let bytes = d.as_bytes();
    proof {
        vstd::string::is_ascii_spec_bytes(d);
        assert(vstd::string::is_ascii(d));
        assert(bytes@ =~= ascii(chars));
    }
    append_bytes(out, bytes);
}

/// The answer to the query line `line`.
pub fn reply_to_line(line: &[u8]) -> (reply: Vec<u8>)
    ensures
        reply@ == transaction_reply(line@),
{
    let mut reply: Vec<u8> = Vec::new();
    match parse_request(line) {
        Ok(Request::Remote(u, h)) => {
            append_text(&mut reply, "Remote Request: ");
            append_bytes(&mut reply, u.as_slice());
            append_text(&mut reply, "@");
            append_bytes(&mut reply, h.as_slice());
        },
        Ok(Request::User(u)) => {
            append_text(&mut reply, "Local Request: ");
            append_bytes(&mut reply, u.as_slice());
        },
        Ok(Request::UserList) => {
            append_text(&mut reply, "List Request");
        },
        Err(e) => {
            append_description(&mut reply, e);
        },
    }
    assert(reply@ =~= transaction_reply(line@));
    reply
}

/// What to do after reading: answer the first line once a line break has
/// arrived, give up when the buffer is full, otherwise read on.
pub fn after_read(buffer: &[u8]) -> (outcome: ReadOutcome)
    ensures
        has_line_break(buffer@) ==> (outcome matches ReadOutcome::Reply(r) && r@
            == transaction_reply(split_lines(buffer@)[0])),
        !has_line_break(buffer@) && buffer@.len() >= MAX_BUF_SIZE ==> outcome is BufferFull,
        !has_line_break(buffer@) && buffer@.len() < MAX_BUF_SIZE ==> outcome is NeedMore,
{
    let mut i: usize = 0;
    while i < buffer.len()
        invariant
            i <= buffer@.len(),
            forall|k: int| 0 <= k < i ==> !is_line_break(#[trigger] buffer@[k]),
        decreases buffer@.len() - i,
    {
        if buffer[i] == 0x0a || buffer[i] == 0x0d {
            let mut pieces = lines(buffer);
            proof {
                lemma_split_lines_nonempty(buffer@);
                assert(pieces@.map_values(|p: Vec<u8>| p@)[0] == pieces@[0]@);
            }
            let line = pieces.swap_remove(0);
            return ReadOutcome::Reply(reply_to_line(line.as_slice()));
        }
        i = i + 1;
    }
    if buffer.len() >= MAX_BUF_SIZE {
        ReadOutcome::BufferFull
    } else {
        ReadOutcome::NeedMore
    }
}

} // verus!
