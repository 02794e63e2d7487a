//! The relay's sign-in rules: which accounts may write, and the session a
//! successful sign-in opens.
use vstd::prelude::*;
use vstd::string::StringExecFns;

verus! {

/// Seconds a session lasts: one day.
pub const SESSION_LIFETIME_SECS: i64 = 86400;

/// The claims of a session: the account's primary email, every verified
/// email of it, and when the session expires (Unix seconds).
#[derive(Debug, Clone, PartialEq, Eq)]
pub struct User {
    pub primary_email: String,
    pub emails: Vec<String>,
    pub exp: i64,
}

/// Why a request that needs a session is turned away.
#[derive(Debug, Clone, Copy, PartialEq, Eq)]
pub enum UserRejection {
    /// No valid session: the client is sent to sign in.
    NotAuthorized,
    /// The request could not be read.
    Error(&'static str),
    /// The session is valid but none of its emails is allowed.
    Forbidden,
}

/// One email of an account, as the identity provider lists it.
#[derive(Debug, Clone, PartialEq, Eq)]
pub struct GitHubEmail {
    pub email: String,
    pub verified: bool,
    pub primary: bool,
}

/// Some email of `emails` is in `allowed`.
pub open spec fn shares_an_email(emails: Seq<String>, allowed: Seq<String>) -> bool {
    exists|i: int, j: int| 0 <= i < emails.len() && 0 <= j < allowed.len() && #[trigger] emails[i]@ == #[trigger] allowed[j]@
}

/// Whether an account with these emails may write to the relay: at least
/// one of them is on the allowlist.
pub fn is_allowed(emails: &Vec<String>, allowed: &Vec<String>) -> (r: bool)
    ensures
        r == shares_an_email(emails@, allowed@),
{
    let mut j: usize = 0;
    while j < allowed.len()
        invariant
            j <= allowed@.len(),
            forall|i: int, k: int| 0 <= i < emails@.len() && 0 <= k < j ==> emails@[i]@ != allowed@[k]@,
        decreases allowed.len() - j,
    {
        let mut i: usize = 0;
        while i < emails.len()
            invariant
                j < allowed@.len(),
                i <= emails@.len(),
                forall|i2: int, k: int| 0 <= i2 < emails@.len() && 0 <= k < j ==> emails@[i2]@ != allowed@[k]@,
                forall|i2: int| 0 <= i2 < i ==> emails@[i2]@ != allowed@[j as int]@,
            decreases emails.len() - i,
        {
            if emails[i] == allowed[j] {
                return true;
            }
            i = i + 1;
        }
        j = j + 1;
    }
    false
}

/// Decides a request that needs a session, given the session's claims when
/// its cookie holds a valid, unexpired token (`None` otherwise).
pub fn check_session(session: Option<User>, allowed: &Vec<String>) -> (r: Result<User, UserRejection>)
    ensures
        session is None ==> r == Err::<User, UserRejection>(UserRejection::NotAuthorized),
        session matches Some(u) ==> (r is Ok <==> shares_an_email(u.emails@, allowed@)),
        session matches Some(u) ==> (r is Ok ==> r->Ok_0 == u),
        session is Some && r is Err ==> r == Err::<User, UserRejection>(UserRejection::Forbidden),
{
    match session {
        None => Err(UserRejection::NotAuthorized),
        Some(user) => {
            if is_allowed(&user.emails, allowed) {
                Ok(user)
            } else {
                Err(UserRejection::Forbidden)
            }
        },
    }
}

/// The verified emails of the list, in order.
pub open spec fn verified_emails(list: Seq<GitHubEmail>) -> Seq<Seq<char>>
    decreases list.len(),
{
    if list.len() == 0 {
        Seq::empty()
    } else if list.last().verified {
        verified_emails(list.drop_last()).push(list.last().email@)
    } else {
        verified_emails(list.drop_last())
    }
}

/// The first email of the list marked primary, if any.
pub open spec fn first_primary(list: Seq<GitHubEmail>) -> Option<Seq<char>>
    decreases list.len(),
{
    if list.len() == 0 {
        None
    } else {
        match first_primary(list.drop_last()) {
            Some(e) => Some(e),
            None => if list.last().primary {
                Some(list.last().email@)
            } else {
                None
            },
        }
    }
}

/// The session claims for an account whose emails the identity provider
/// listed: its verified emails, and as primary email the first one marked
/// primary, or else the first verified one. `None` when no email is
/// verified.
pub fn session_user(list: &Vec<GitHubEmail>, exp: i64) -> (r: Option<User>)
    ensures
        r is None <==> verified_emails(list@).len() == 0,
        r matches Some(u) ==> {
            &&& u.emails@.map_values(|e: String| e@) == verified_emails(list@)
            &&& u.primary_email@ == (match first_primary(list@) {
                Some(e) => e,
                None => verified_emails(list@)[0],
            })
            &&& u.exp == exp
        },
{
    let mut primary: Option<String> = None;
    let mut emails: Vec<String> = Vec::new();
    let mut i: usize = 0;
    while i < list.len()
        invariant
            i <= list@.len(),
            emails@.map_values(|e: String| e@) == verified_emails(list@.subrange(0, i as int)),
            primary matches Some(p) ==> first_primary(list@.subrange(0, i as int)) == Some(p@),
            primary is None ==> first_primary(list@.subrange(0, i as int)) is None,
        decreases list.len() - i,
    {
        let entry = &list[i];
        proof {
            assert(list@.subrange(0, i + 1).drop_last() =~= list@.subrange(0, i as int));
            assert(list@.subrange(0, i + 1).last() == list@[i as int]);
        }
        if entry.primary && primary.is_none() {
            primary = Some(entry.email.clone());
        }
        if entry.verified {
            let ghost before = emails@;
            emails.push(entry.email.clone());
            proof {
                assert(emails@.map_values(|e: String| e@) =~= before.map_values(|e: String| e@).push(entry.email@));
            }
        }
        i = i + 1;
    }
    proof {
        assert(list@.subrange(0, list@.len() as int) =~= list@);
    }
    if emails.len() == 0 {
        return None;
    }
    let primary_email = match primary {
        Some(p) => p,
        None => emails[0].clone(),
    };
    Some(User { primary_email, emails, exp })
}

/// When a session opened at `now` (Unix seconds) expires.
pub fn session_expiry(now: i64) -> (exp: i64)
    requires
        now <= i64::MAX - SESSION_LIFETIME_SECS,
    ensures
        exp == now + SESSION_LIFETIME_SECS,
{
    now + SESSION_LIFETIME_SECS
}

/// The `Set-Cookie` value that opens a session holding `token`, in the
/// cookie named `session`.
pub fn session_cookie(token: &str) -> (cookie: String)
    ensures
        cookie@ == "session="@ + token@ + "; SameSite=Lax; Path=/"@,
{
    let mut cookie = String::from_str("session=");
    cookie.append(token);
    cookie.append("; SameSite=Lax; Path=/");
    cookie
}

} // verus!
