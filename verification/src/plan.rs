//! Which `.plan` file is served for a user, and what is said when it
//! cannot be.
use vstd::prelude::*;

verus! {

/// The largest plan that is served, in bytes.
pub const MAX_PLANSIZE: u64 = 131072;

/// Why a user's plan cannot be served.
pub enum PlanError {
    /// The user name cannot be handed to the system (it holds a NUL).
    UnconvertibleName(String),
    /// The system knows no such user.
    NoSuchUser(String),
    /// The plan's metadata cannot be read.
    Inaccessible(String),
    /// The plan is not a regular file.
    NotAFile(String),
    /// The plan is larger than [`MAX_PLANSIZE`].
    TooLarge(String),
    /// The plan cannot be opened.
    CannotOpen(String),
    /// The plan cannot be read.
    Unreadable(String),
}

/// The message that describes an error.
pub open spec fn plan_error_text(e: PlanError) -> Seq<char> {
    match e {
        PlanError::UnconvertibleName(n) => "Could not convert username "@ + n@ + "?"@,
        PlanError::NoSuchUser(n) => "User "@ + n@ + " not found."@,
        PlanError::Inaccessible(p) => "Could not access user plan "@ + p@ + "."@,
        PlanError::NotAFile(p) => "Plan "@ + p@ + " is not a file, cannot be returned."@,
        PlanError::TooLarge(p) => "Plan "@ + p@ + " is too large to return."@,
        PlanError::CannotOpen(p) => "Could not access "@ + p@,
        PlanError::Unreadable(p) => "Plan "@ + p@ + " could not be read"@,
    }
}

fn framed(before: &str, subject: &String, after: &str) -> (text: String)
    ensures
        text@ == before@ + subject@ + after@,
{
    let mut text = String::from_str(before);
    text.append(subject.as_str());
    text.append(after);
    text
}

impl PlanError {
    /// The message that describes this error.
    pub fn message(&self) -> (text: String)
        ensures
            text@ == plan_error_text(*self),
    {
        match self {
            PlanError::UnconvertibleName(n) => framed("Could not convert username ", n, "?"),
            PlanError::NoSuchUser(n) => framed("User ", n, " not found."),
            PlanError::Inaccessible(p) => framed("Could not access user plan ", p, "."),
            PlanError::NotAFile(p) => framed("Plan ", p, " is not a file, cannot be returned."),
            PlanError::TooLarge(p) => framed("Plan ", p, " is too large to return."),
            PlanError::CannotOpen(p) => {
                let mut text = String::from_str("Could not access ");
                text.append(p.as_str());
                text
            },
            PlanError::Unreadable(p) => framed("Plan ", p, " could not be read"),
        }
    }
}

/// The path of the plan in a user's home directory.
pub fn plan_path(userpath: &str) -> (path: String)
    ensures
        path@ == userpath@ + "/"@ + ".plan"@,
{
    let mut path = String::from_str(userpath);
    path.append("/");
    path.append(".plan");
    path
}

/// Whether a file with this metadata may be served as a plan: it must be
/// a regular file of at most [`MAX_PLANSIZE`] bytes.
pub fn check_plan_file(planpath: &String, is_file: bool, len: u64) -> (res: Result<(), PlanError>)
    ensures
        !is_file ==> (res matches Err(PlanError::NotAFile(p)) && p@ == planpath@),
        is_file && len > MAX_PLANSIZE ==> (res matches Err(PlanError::TooLarge(p)) && p@
            == planpath@),
        is_file && len <= MAX_PLANSIZE ==> res is Ok,
{
    if !is_file {
        return Err(PlanError::NotAFile(planpath.clone()));
    }
    if len > MAX_PLANSIZE {
        return Err(PlanError::TooLarge(planpath.clone()));
    }
    Ok(())
}

} // verus!
