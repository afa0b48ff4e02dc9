//! Finger query parsing (RFC 1288, section 2.3).
//!
//! ```text
//!      {Q1}    ::= [{W}|{W}{S}{U}]{C}
//!      {Q2}    ::= [{W}{S}][{U}]{H}{C}
//!      {U}     ::= username
//!      {H}     ::= @hostname | @hostname{H}
//!      {W}     ::= /W
//!      {S}     ::= <SP> | <SP>{S}
//!      {C}     ::= <CRLF>
//! ```
//!
//! The query handed to the parser has its line ending already removed.
//! User names follow the Unix convention of ASCII letters and digits;
//! almost no checking is done on the host name.
use vstd::prelude::*;
use bytes::Bytes;

verus! {

/// A space.
pub const SPACE: u8 = 0x20;
/// The slash that opens a query.
pub const SLASH: u8 = 0x2f;
/// The separator between a user and a host.
pub const AT: u8 = 0x40;
/// The verbose switch, upper case.
pub const UPPER_W: u8 = 0x57;
/// The verbose switch, lower case.
pub const LOWER_W: u8 = 0x77;

/// Why a query was rejected.
#[derive(Clone, Copy, Debug, PartialEq, Eq, Structural)]
pub enum ErrorKind {
    /// The query does not begin with `/W` (or `/w`) followed by a space or
    /// nothing.
    BadProtocol,
    /// The user name is followed by something other than a space, the end,
    /// or `@`.
    BadRequest,
}

/// The text that describes an error.
pub open spec fn error_description(e: ErrorKind) -> Seq<char> {
    match e {
        ErrorKind::BadProtocol => "Protocol prefix not recognized"@,
        ErrorKind::BadRequest => "Protocol request does not meet specification"@,
    }
}

impl ErrorKind {
    /// The text that describes this error.
    pub fn description(&self) -> (text: &'static str)
        ensures
            text@ == error_description(*self),
    {
        match self {
            ErrorKind::BadProtocol => "Protocol prefix not recognized",
            ErrorKind::BadRequest => "Protocol request does not meet specification",
        }
    }
}

/// A parsed finger query.
#[derive(Debug, PartialEq)]
pub enum Request {
    /// `/W` alone: list the users.
    UserList,
    /// `/W user`: one local user.
    User(Vec<u8>),
    /// `/W user@host`: a user on another host.
    Remote(Vec<u8>, Vec<u8>),
}

/// The abstract value of a [`Request`].
pub enum RequestModel {
    UserList,
    User(Seq<u8>),
    Remote(Seq<u8>, Seq<u8>),
}

impl View for Request {
    type V = RequestModel;

    open spec fn view(&self) -> RequestModel {
        match self {
            Request::UserList => RequestModel::UserList,
            Request::User(u) => RequestModel::User(u@),
            Request::Remote(u, h) => RequestModel::Remote(u@, h@),
        }
    }
}

/// The classes of bytes that make up the parts of a query.
pub enum ByteClass {
    /// The separating spaces.
    Space,
    /// User names: ASCII digits and letters.
    Name,
    /// Host names: anything but a space.
    Host,
}

/// A byte that may appear in a Unix user name.
pub open spec fn is_name_byte(b: u8) -> bool {
    (0x30 <= b && b <= 0x39) || (0x41 <= b && b <= 0x5a) || (0x61 <= b && b <= 0x7a)
}

/// `b` belongs to the class `c`.
pub open spec fn in_class(c: ByteClass, b: u8) -> bool {
    match c {
        ByteClass::Space => b == SPACE,
        ByteClass::Name => is_name_byte(b),
        ByteClass::Host => b != SPACE,
    }
}

/// The end of the longest run of bytes of class `c` that starts at `i`.
pub open spec fn run_end(s: Seq<u8>, i: int, c: ByteClass) -> int
    decreases s.len() - i,
{
    if 0 <= i < s.len() && in_class(c, s[i]) {
        run_end(s, i + 1, c)
    } else {
        i
    }
}

/// The meaning of a query: the request it makes, or why it is rejected.
pub open spec fn spec_parse_request(s: Seq<u8>) -> Result<RequestModel, ErrorKind> {
    if s.len() < 2 || s[0] != SLASH || (s[1] != UPPER_W && s[1] != LOWER_W) {
        Err(ErrorKind::BadProtocol)
    } else if s.len() == 2 {
        Ok(RequestModel::UserList)
    } else if s[2] != SPACE {
        Err(ErrorKind::BadProtocol)
    } else {
        let u0 = run_end(s, 2, ByteClass::Space);
        if u0 == s.len() {
            Ok(RequestModel::UserList)
        } else {
            let u1 = run_end(s, u0, ByteClass::Name);
            let user = s.subrange(u0, u1);
            if u1 == s.len() || s[u1] == SPACE {
                Ok(RequestModel::User(user))
            } else if s[u1] != AT {
                Err(ErrorKind::BadRequest)
            } else {
                let h1 = run_end(s, u1 + 1, ByteClass::Host);
                Ok(RequestModel::Remote(user, s.subrange(u1 + 1, h1)))
            }
        }
    }
}

/// A parse result against its meaning.
pub open spec fn parse_result_matches(
    res: Result<Request, ErrorKind>,
    expected: Result<RequestModel, ErrorKind>,
) -> bool {
    match res {
        Ok(r) => expected == Ok::<RequestModel, ErrorKind>(r@),
        Err(e) => expected == Err::<RequestModel, ErrorKind>(e),
    }
}

/// A run ends where its class first fails to hold.
proof fn lemma_run_end_at(s: Seq<u8>, a: int, b: int, c: ByteClass)
    requires
        0 <= a <= b <= s.len(),
        forall|k: int| a <= k < b ==> in_class(c, #[trigger] s[k]),
        b == s.len() || !in_class(c, s[b]),
    ensures
        run_end(s, a, c) == b,
    decreases b - a,
{
    if a < b {
        lemma_run_end_at(s, a + 1, b, c);
    }
}

/// A run stays within the sequence and every byte in it has the class.
proof fn lemma_run_end_bounds(s: Seq<u8>, a: int, c: ByteClass)
    requires
        0 <= a <= s.len(),
    ensures
        a <= run_end(s, a, c) <= s.len(),
        forall|k: int| a <= k < run_end(s, a, c) ==> in_class(c, #[trigger] s[k]),
        run_end(s, a, c) == s.len() || !in_class(c, s[run_end(s, a, c)]),
    decreases s.len() - a,
{
    if a < s.len() && in_class(c, s[a]) {
        lemma_run_end_bounds(s, a + 1, c);
    }
}

fn is_unix_conventional(b: u8) -> (r: bool)
    ensures
        r == is_name_byte(b),
{
    (b >= 0x30 && b <= 0x39) || (b >= 0x41 && b <= 0x5a) || (b >= 0x61 && b <= 0x7a)
}

fn is_in_class(c: &ByteClass, b: u8) -> (r: bool)
    ensures
        r == in_class(*c, b),
{
    match c {
        ByteClass::Space => b == SPACE,
        ByteClass::Name => is_unix_conventional(b),
        ByteClass::Host => b != SPACE,
    }
}

/// The end of the run of bytes of class `c` that starts at `start`.
fn scan(buffer: &[u8], start: usize, c: ByteClass) -> (end: usize)
    requires
        start <= buffer@.len(),
    ensures
        end == run_end(buffer@, start as int, c),
{
    let mut i = start;
    while i < buffer.len() && is_in_class(&c, buffer[i])
        invariant
            start <= i <= buffer@.len(),
            forall|k: int| start <= k < i ==> in_class(c, #[trigger] buffer@[k]),
        decreases buffer@.len() - i,
    {
        i = i + 1;
    }
    proof {
        lemma_run_end_at(buffer@, start as int, i as int, c);
    }
    i
}

/// A copy of `buffer[from..to]`.
fn copy_range(buffer: &[u8], from: usize, to: usize) -> (v: Vec<u8>)
    requires
        from <= to <= buffer@.len(),
    ensures
        v@ == buffer@.subrange(from as int, to as int),
{
    let mut v: Vec<u8> = Vec::new();
    let mut i = from;
    while i < to
        invariant
            from <= i <= to <= buffer@.len(),
            v@ == buffer@.subrange(from as int, i as int),
        decreases to - i,
    {
        v.push(buffer[i]);
        i = i + 1;
        assert(v@ =~= buffer@.subrange(from as int, i as int));
    }
    v
}

/// Parses a finger query whose line ending has been removed.
pub fn parse_request(buffer: &[u8]) -> (res: Result<Request, ErrorKind>)
    ensures
        parse_result_matches(res, spec_parse_request(buffer@)),
{
    let len = buffer.len();
    if len < 2 {
        return Err(ErrorKind::BadProtocol);
    }
    if buffer[0] != SLASH {
        return Err(ErrorKind::BadProtocol);
    }
    if buffer[1] != UPPER_W && buffer[1] != LOWER_W {
        return Err(ErrorKind::BadProtocol);
    }
    if len == 2 {
        return Ok(Request::UserList);
    }
    if buffer[2] != SPACE {
        return Err(ErrorKind::BadProtocol);
    }
    let u0 = scan(buffer, 2, ByteClass::Space);
    proof {
        lemma_run_end_bounds(buffer@, 2, ByteClass::Space);
    }
    if u0 == len {
        return Ok(Request::UserList);
    }
    let u1 = scan(buffer, u0, ByteClass::Name);
    proof {
        lemma_run_end_bounds(buffer@, u0 as int, ByteClass::Name);
    }
    let user = copy_range(buffer, u0, u1);
    if u1 == len || buffer[u1] == SPACE {
        return Ok(Request::User(user));
    }
    if buffer[u1] != AT {
        return Err(ErrorKind::BadRequest);
    }
    let h1 = scan(buffer, u1 + 1, ByteClass::Host);
    proof {
        lemma_run_end_bounds(buffer@, u1 + 1, ByteClass::Host);
    }
    let host = copy_range(buffer, u1 + 1, h1);
    Ok(Request::Remote(user, host))
}

/// A run that starts inside `s` is the same in `s + t` until it reaches the
/// end of `s`.
proof fn lemma_run_end_append(s: Seq<u8>, t: Seq<u8>, i: int, c: ByteClass)
    requires
        0 <= i <= s.len(),
    ensures
        run_end(s, i, c) < s.len() ==> run_end(s + t, i, c) == run_end(s, i, c),
        run_end(s, i, c) == s.len() ==> run_end(s + t, i, c) == run_end(s + t, s.len() as int, c),
    decreases s.len() - i,
{
    if i < s.len() {
        assert((s + t)[i] == s[i]);
        if in_class(c, s[i]) {
            lemma_run_end_append(s, t, i + 1, c);
        }
    }
}

/// Spaces after a query never change its meaning.
pub proof fn law_trailing_spaces_are_ignored(s: Seq<u8>, t: Seq<u8>)
    requires
        forall|k: int| 0 <= k < t.len() ==> t[k] == SPACE,
    ensures
        spec_parse_request(s + t) == spec_parse_request(s),
{
    let st = s + t;
    if t.len() == 0 {
        assert(st =~= s);
        return;
    }
    assert(st[s.len() as int] == SPACE);
    lemma_run_end_at(st, s.len() as int, st.len() as int, ByteClass::Space);
    assert(run_end(st, s.len() as int, ByteClass::Name) == s.len());
    assert(run_end(st, s.len() as int, ByteClass::Host) == s.len());
    if s.len() < 2 {
        if s.len() == 1 {
            assert(st[1] == SPACE);
        } else {
            assert(st[0] == SPACE);
        }
        return;
    }
    assert(st[0] == s[0] && st[1] == s[1]);
    if s[0] != SLASH || (s[1] != UPPER_W && s[1] != LOWER_W) {
        return;
    }
    if s.len() == 2 {
        assert(st[2] == SPACE);
        return;
    }
    assert(st[2] == s[2]);
    if s[2] != SPACE {
        return;
    }
    lemma_run_end_bounds(s, 2, ByteClass::Space);
    lemma_run_end_append(s, t, 2, ByteClass::Space);
    let u0 = run_end(s, 2, ByteClass::Space);
    if u0 == s.len() {
        return;
    }
    lemma_run_end_bounds(s, u0, ByteClass::Name);
    lemma_run_end_append(s, t, u0, ByteClass::Name);
    let u1 = run_end(s, u0, ByteClass::Name);
    assert(st.subrange(u0, u1) =~= s.subrange(u0, u1));
    if u1 == s.len() {
        assert(st[u1] == SPACE);
        return;
    }
    assert(st[u1] == s[u1]);
    if s[u1] == SPACE || s[u1] != AT {
        return;
    }
    lemma_run_end_bounds(s, u1 + 1, ByteClass::Host);
    lemma_run_end_append(s, t, u1 + 1, ByteClass::Host);
    let h1 = run_end(s, u1 + 1, ByteClass::Host);
    assert(st.subrange(u1 + 1, h1) =~= s.subrange(u1 + 1, h1));
}

/// Once a query names a user (or a user at a host), whatever follows the
/// next space is ignored.
pub proof fn law_text_after_a_request_is_ignored(s: Seq<u8>, t: Seq<u8>)
    requires
        spec_parse_request(s) matches Ok(r) && !(r is UserList),
        t.len() > 0,
        t[0] == SPACE,
    ensures
        spec_parse_request(s + t) == spec_parse_request(s),
{
    let st = s + t;
    assert(st[s.len() as int] == SPACE);
    assert(run_end(st, s.len() as int, ByteClass::Name) == s.len());
    assert(run_end(st, s.len() as int, ByteClass::Host) == s.len());
    assert(st[0] == s[0] && st[1] == s[1] && st[2] == s[2]);
    lemma_run_end_bounds(s, 2, ByteClass::Space);
    lemma_run_end_append(s, t, 2, ByteClass::Space);
    let u0 = run_end(s, 2, ByteClass::Space);
    lemma_run_end_bounds(s, u0, ByteClass::Name);
    lemma_run_end_append(s, t, u0, ByteClass::Name);
    let u1 = run_end(s, u0, ByteClass::Name);
    assert(st.subrange(u0, u1) =~= s.subrange(u0, u1));
    if u1 == s.len() {
        return;
    }
    assert(st[u1] == s[u1]);
    if s[u1] == SPACE {
        return;
    }
    lemma_run_end_bounds(s, u1 + 1, ByteClass::Host);
    lemma_run_end_append(s, t, u1 + 1, ByteClass::Host);
    let h1 = run_end(s, u1 + 1, ByteClass::Host);
    assert(st.subrange(u1 + 1, h1) =~= s.subrange(u1 + 1, h1));
}

/// A query asks for the user list exactly when it is `/W` (or `/w`)
/// followed by nothing but spaces.
pub proof fn law_user_list_is_switch_and_spaces(s: Seq<u8>)
    ensures
        spec_parse_request(s) == Ok::<RequestModel, ErrorKind>(RequestModel::UserList) <==> (s.len()
            >= 2 && s[0] == SLASH && (s[1] == UPPER_W || s[1] == LOWER_W) && forall|k: int|
            2 <= k < s.len() ==> #[trigger] s[k] == SPACE),
{
    if s.len() > 2 && s[0] == SLASH && (s[1] == UPPER_W || s[1] == LOWER_W) {
        lemma_run_end_bounds(s, 2, ByteClass::Space);
        if forall|k: int| 2 <= k < s.len() ==> #[trigger] s[k] == SPACE {
            lemma_run_end_at(s, 2, s.len() as int, ByteClass::Space);
        }
    }
}

/// The verbose switch may be written `/W` or `/w`.
pub proof fn law_switch_case_is_ignored(s: Seq<u8>)
    requires
        s.len() >= 2,
    ensures
        spec_parse_request(s.update(1, LOWER_W)) == spec_parse_request(s.update(1, UPPER_W)),
{
    let a = s.update(1, LOWER_W);
    let b = s.update(1, UPPER_W);
    assert forall|i: int, c: ByteClass| 2 <= i <= s.len() implies run_end(a, i, c) == run_end(b, i, c) by {
        lemma_run_end_same_tail(a, b, i, c);
    }
    if s.len() > 2 {
        let u0 = run_end(a, 2, ByteClass::Space);
        lemma_run_end_bounds(a, 2, ByteClass::Space);
        if u0 < s.len() {
            lemma_run_end_bounds(a, u0, ByteClass::Name);
            let u1 = run_end(a, u0, ByteClass::Name);
            assert(a.subrange(u0, u1) =~= b.subrange(u0, u1));
            if u1 < s.len() {
                lemma_run_end_bounds(a, u1 + 1, ByteClass::Host);
                let h1 = run_end(a, u1 + 1, ByteClass::Host);
                assert(a.subrange(u1 + 1, h1) =~= b.subrange(u1 + 1, h1));
            }
        }
    }
}

/// Runs depend only on the bytes from where they start.
proof fn lemma_run_end_same_tail(a: Seq<u8>, b: Seq<u8>, i: int, c: ByteClass)
    requires
        a.len() == b.len(),
        0 <= i <= a.len(),
        forall|k: int| i <= k < a.len() ==> a[k] == b[k],
    ensures
        run_end(a, i, c) == run_end(b, i, c),
    decreases a.len() - i,
{
    if i < a.len() {
        lemma_run_end_same_tail(a, b, i + 1, c);
    }
}

/// A named user is a non-empty Unix-conventional name; a remote user is a
/// Unix-conventional name (possibly empty) and its host holds no space.
pub proof fn law_requests_are_well_formed(s: Seq<u8>)
    ensures
        spec_parse_request(s) matches Ok(RequestModel::User(u)) ==> u.len() > 0 && forall|k: int|
            0 <= k < u.len() ==> is_name_byte(#[trigger] u[k]),
        spec_parse_request(s) matches Ok(RequestModel::Remote(u, h)) ==> (forall|k: int|
            0 <= k < u.len() ==> is_name_byte(#[trigger] u[k])) && (forall|k: int|
            0 <= k < h.len() ==> #[trigger] h[k] != SPACE),
{
    if s.len() > 2 && s[0] == SLASH && (s[1] == UPPER_W || s[1] == LOWER_W) && s[2] == SPACE {
        lemma_run_end_bounds(s, 2, ByteClass::Space);
        let u0 = run_end(s, 2, ByteClass::Space);
        if u0 < s.len() {
            lemma_run_end_bounds(s, u0, ByteClass::Name);
            let u1 = run_end(s, u0, ByteClass::Name);
            assert(forall|k: int| 0 <= k < u1 - u0 ==> #[trigger] s.subrange(u0, u1)[k] == s[u0 + k]);
            if u1 < s.len() && s[u1] == AT {
                lemma_run_end_bounds(s, u1 + 1, ByteClass::Host);
                let h1 = run_end(s, u1 + 1, ByteClass::Host);
                assert(forall|k: int| 0 <= k < h1 - (u1 + 1) ==> #[trigger] s.subrange(u1 + 1, h1)[k] == s[u1 + 1 + k]);
            }
        }
    }
}

/// An ASCII digit (`0` to `9`) or an ASCII letter of either case (`A` to
/// `Z`, `a` to `z`).
pub open spec fn is_ascii_alphanumeric(b: u8) -> bool {
    ('0' as u8 <= b <= '9' as u8) || ('A' as u8 <= b <= 'Z' as u8) || ('a' as u8 <= b <= 'z' as u8)
}

/// The opening of a query: the slash, the switch `w` and one space.
pub open spec fn query_opening(w: u8) -> Seq<u8> {
    seq![SLASH, w, SPACE]
}

/// `/W name` (or `/w name`) names that local user, for every non-empty
/// name made of ASCII letters (either case) and digits.
pub proof fn law_local_user_is_named(w: u8, u: Seq<u8>)
    requires
        w == UPPER_W || w == LOWER_W,
        u.len() > 0,
        forall|k: int| 0 <= k < u.len() ==> is_ascii_alphanumeric(#[trigger] u[k]),
    ensures
        spec_parse_request(query_opening(w) + u) == Ok::<RequestModel, ErrorKind>(
            RequestModel::User(u),
        ),
{
    let s = query_opening(w) + u;
    assert(s[2] == SPACE);
    assert(s[3] == u[0]);
    lemma_run_end_at(s, 2, 3, ByteClass::Space);
    assert forall|k: int| 3 <= k < s.len() implies in_class(ByteClass::Name, #[trigger] s[k]) by {
        assert(s[k] == u[k - 3]);
    }
    lemma_run_end_at(s, 3, s.len() as int, ByteClass::Name);
    assert(s.subrange(3, s.len() as int) =~= u);
}

/// `/W name@host` (or `/w name@host`) names that user on that host, the
/// whole host kept, for every name of ASCII letters and digits (possibly
/// empty) and every host without a space.
pub proof fn law_remote_user_is_named(w: u8, u: Seq<u8>, h: Seq<u8>)
    requires
        w == UPPER_W || w == LOWER_W,
        forall|k: int| 0 <= k < u.len() ==> is_ascii_alphanumeric(#[trigger] u[k]),
        forall|k: int| 0 <= k < h.len() ==> #[trigger] h[k] != SPACE,
    ensures
        spec_parse_request(query_opening(w) + u + seq![AT] + h) == Ok::<RequestModel, ErrorKind>(
            RequestModel::Remote(u, h),
        ),
{
    let s = query_opening(w) + u + seq![AT] + h;
    let at: int = 3 + u.len() as int;
    assert(s[at] == AT);
    assert forall|k: int| 3 <= k < at implies #[trigger] s[k] == u[k - 3] by {}
    assert forall|k: int| at < k < s.len() implies #[trigger] s[k] == h[k - at - 1] by {}
    assert(s[2] == SPACE);
    if u.len() > 0 {
        assert(s[3] == u[0]);
    }
    lemma_run_end_at(s, 2, 3, ByteClass::Space);
    assert forall|k: int| 3 <= k < at implies in_class(ByteClass::Name, #[trigger] s[k]) by {
        assert(s[k] == u[k - 3]);
    }
    lemma_run_end_at(s, 3, at, ByteClass::Name);
    assert forall|k: int| at + 1 <= k < s.len() implies in_class(ByteClass::Host, #[trigger] s[k]) by {
        assert(s[k] == h[k - at - 1]);
    }
    lemma_run_end_at(s, at + 1, s.len() as int, ByteClass::Host);
    assert(s.subrange(3, at) =~= u);
    assert(s.subrange(at + 1, s.len() as int) =~= h);
}

#[verifier::external_type_specification]
#[verifier::external_body]
pub struct ExBytes(Bytes);

/// The bytes that a `bytes::Bytes` buffer holds.
pub uninterp spec fn bytes_content(b: Bytes) -> Seq<u8>;

/// `bytes::Bytes::as_ref`: the buffer's bytes as a slice, which hold what
/// the buffer holds.
#[verifier::external_body]
fn bytes_as_slice(buffer: &Bytes) -> (s: &[u8])
    ensures
        s@ == bytes_content(*buffer),
{
    buffer.as_ref()
}

/// Parses a finger query held in a `bytes::Bytes` buffer, its line ending
/// removed.
pub fn parse_rfc1288_request(buffer: &Bytes) -> (res: Result<Request, ErrorKind>)
    ensures
        parse_result_matches(res, spec_parse_request(bytes_content(*buffer))),
{
    parse_request(bytes_as_slice(buffer))
}

} // verus!
