//! What the finger server answers to a query: the plan of the user asked
//! for, or a refusal.
use vstd::prelude::*;
use vstd::utf8::encode_utf8;
use crate::plan::{plan_error_text, PlanError};
use crate::rfc1288::{
    is_ascii_alphanumeric, law_local_user_is_named, parse_request, query_opening, spec_parse_request,
    ErrorKind, Request, RequestModel, LOWER_W, UPPER_W,
};
use crate::text::{
    append_bytes, append_text, law_first_line_ends_at_the_first_break, lemma_split_lines_nonempty, lines,
    split_lines, text,
};

verus! {

/// The name of an error, as it is shown in a reply.
pub open spec fn error_name(e: ErrorKind) -> Seq<u8> {
    match e {
        ErrorKind::BadProtocol => text("BadProtocol"),
        ErrorKind::BadRequest => text("BadRequest"),
    }
}

/// What to do about a query.
pub enum Action {
    /// Read the plan of this user, then reply with it.
    FetchPlan(Vec<u8>),
    /// Reply with these bytes.
    Reply(Vec<u8>),
}

/// The abstract value of an [`Action`].
pub enum ActionModel {
    FetchPlan(Seq<u8>),
    Reply(Seq<u8>),
}

impl View for Action {
    type V = ActionModel;

    open spec fn view(&self) -> ActionModel {
        match self {
            Action::FetchPlan(u) => ActionModel::FetchPlan(u@),
            Action::Reply(r) => ActionModel::Reply(r@),
        }
    }
}

/// What to do about the query on the first line of `buffer`: a local user
/// gets that user's plan; everything else is refused at once.
pub open spec fn monologue_action(buffer: Seq<u8>) -> ActionModel {
    match spec_parse_request(split_lines(buffer)[0]) {
        Ok(RequestModel::UserList) => ActionModel::Reply(
            text("User list is not supported by this server\r\n"),
        ),
        Ok(RequestModel::Remote(_, _)) => ActionModel::Reply(
            text("Remote listing is not supported by this server\r\n"),
        ),
        Ok(RequestModel::User(u)) => ActionModel::FetchPlan(u),
        Err(e) => ActionModel::Reply(text("Error: ") + error_name(e) + text("\r\n")),
    }
}

/// A query `/W name` on the first line fetches the plan of exactly that
/// user, whatever the name's length: every non-empty name of ASCII letters
/// and digits is passed on unchanged.
pub proof fn law_the_named_users_plan_is_fetched(w: u8, u: Seq<u8>, rest: Seq<u8>)
    requires
        w == UPPER_W || w == LOWER_W,
        u.len() > 0,
        forall|k: int| 0 <= k < u.len() ==> is_ascii_alphanumeric(#[trigger] u[k]),
        rest.len() == 0 || rest[0] == 0x0a || rest[0] == 0x0d,
    ensures
        monologue_action(query_opening(w) + u + rest) == ActionModel::FetchPlan(u),
{
    let q = query_opening(w) + u;
    assert forall|k: int| 0 <= k < q.len() implies #[trigger] q[k] != 0x0a && q[k] != 0x0d by {
        if k >= 3 {
            assert(q[k] == u[k - 3]);
        }
    }
    law_first_line_ends_at_the_first_break(q, rest);
    law_local_user_is_named(w, u);
}

/// The reply once the plan has been looked up: the plan itself, or the
/// message that says why there is none.
pub open spec fn plan_reply(fetched: Result<String, PlanError>) -> Seq<u8> {
    match fetched {
        Ok(plan) => encode_utf8(plan@),
        Err(e) => encode_utf8(plan_error_text(e)) + text("\r\n"),
    }
}

/// Appends the name of `e`.
fn append_error_name(out: &mut Vec<u8>, e: ErrorKind)
    ensures
        final(out)@ == old(out)@ + error_name(e),
{
    match e {
        ErrorKind::BadProtocol => append_text(out, "BadProtocol"),
        ErrorKind::BadRequest => append_text(out, "BadRequest"),
    }
}

/// Decides what to do about the query on the first line of what a client
/// sent.
pub fn monologue_step(buffer: &[u8]) -> (action: Action)
    ensures
        action@ == monologue_action(buffer@),
{
    let mut pieces = lines(buffer);
    proof {
        lemma_split_lines_nonempty(buffer@);
        assert(pieces@.map_values(|p: Vec<u8>| p@)[0] == pieces@[0]@);
    }
    let command = pieces.swap_remove(0);
    let mut reply: Vec<u8> = Vec::new();
    match parse_request(command.as_slice()) {
        Ok(Request::UserList) => {
            append_text(&mut reply, "User list is not supported by this server\r\n");
        },
        Ok(Request::Remote(_, _)) => {
            append_text(&mut reply, "Remote listing is not supported by this server\r\n");
        },
        Ok(Request::User(user)) => {
            return Action::FetchPlan(user);
        },
        Err(e) => {
            append_text(&mut reply, "Error: ");
            append_error_name(&mut reply, e);
            append_text(&mut reply, "\r\n");
        },
    }
    assert(ActionModel::Reply(reply@) == monologue_action(buffer@));
    Action::Reply(reply)
}

/// The reply to a local user's query, given what looking up the plan
/// gave.
pub fn reply_with_plan(fetched: &Result<String, PlanError>) -> (reply: Vec<u8>)
    ensures
        reply@ == plan_reply(*fetched),
{
    let mut reply: Vec<u8> = Vec::new();
    match fetched {
        Ok(plan) => {
            append_bytes(&mut reply, plan.as_str().as_bytes());
        },
        Err(e) => {
            let message = e.message();
            append_bytes(&mut reply, message.as_str().as_bytes());
            append_text(&mut reply, "\r\n");
        },
    }
    reply
}

} // verus!
