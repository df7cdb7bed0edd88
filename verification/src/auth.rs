//! Who may edit: the identity that the gateway injects, and the double-submit CSRF token.
//!
//! The gateway in front of the server signs users in and names them in the headers `X-Auth-Subject`
//! and `X-Auth-Email`. A form must repeat the token that the page had set as a cookie.
use crate::text;
use vstd::prelude::*;

verus! {

/// The cookie that holds the CSRF token.
pub const CSRF_COOKIE: &'static str = "__Host-csrf";

/// What is shown in place of an e-mail address where there is no session.
pub const NO_EMAIL: &'static str = "—";

/// The attributes of the CSRF cookie.
pub const COOKIE_ATTRIBUTES: &'static str = "; Path=/; Secure; HttpOnly; SameSite=Strict";

/// What the headers of a request say about its sender.
#[derive(Debug)]
pub struct Session {
    /// The header `X-Auth-Subject`.
    pub subject: Option<String>,
    /// The header `X-Auth-Email`.
    pub email: Option<String>,
    /// The header `Cookie`.
    pub cookies: Option<String>,
}

/// Why a request may not edit.
#[derive(Clone, Copy, Debug, PartialEq, Eq, Structural)]
pub enum AuthError {
    /// The gateway named no user.
    NoIdentity,
    /// The form does not repeat the token of the cookie.
    TokenMismatch,
}

impl AuthError {
    /// The message that describes the refusal.
    pub open spec fn text(self) -> Seq<char> {
        match self {
            AuthError::NoIdentity => "sign in through the gateway"@,
            AuthError::TokenMismatch => "CSRF token mismatch"@,
        }
    }

    /// The message that describes the refusal.
    pub fn message(self) -> (r: String)
        ensures
            r@ == self.text(),
    {
        match self {
            AuthError::NoIdentity => "sign in through the gateway".to_string(),
            AuthError::TokenMismatch => "CSRF token mismatch".to_string(),
        }
    }
}

// ---------------------------------------------------------------------------
// Cookies
// ---------------------------------------------------------------------------

/// The value of the first of `parts` that sets the cookie `name`.
pub open spec fn find_cookie(parts: Seq<Seq<char>>, name: Seq<char>) -> Option<Seq<char>>
    decreases parts.len(),
{
    if parts.len() == 0 {
        None
    } else {
        let part = text::trimmed(parts[0]);
        match text::after_first(part, '=') {
            Some(value) => if text::before_first(part, '=') == name {
                Some(value)
            } else {
                find_cookie(parts.drop_first(), name)
            },
            None => find_cookie(parts.drop_first(), name),
        }
    }
}

/// The value of the cookie `name` in a `Cookie` header.
pub open spec fn cookie_of(header: Seq<char>, name: Seq<char>) -> Option<Seq<char>> {
    find_cookie(text::fields(header, ';'), name)
}

/// Reads a cookie; the first with the name counts.
pub fn cookie(header: &str, name: &str) -> (r: Option<String>)
    ensures
        match r {
            Some(v) => cookie_of(header@, name@) == Some(v@),
            None => cookie_of(header@, name@) is None,
        },
{
    let parts = text::split(header, ';');
    let ghost all = text::views(parts@);
    let mut i: usize = 0;
    assert(all.skip(0) == all);
    while i < parts.len()
        invariant
            i <= parts@.len(),
            all == text::views(parts@),
            all == text::fields(header@, ';'),
            find_cookie(all, name@) == find_cookie(all.skip(i as int), name@),
        decreases parts@.len() - i,
    {
        assert(all.skip(i as int)[0] == parts@[i as int]@);
        assert(all.skip(i as int).drop_first() == all.skip(i + 1));
        let part = text::trim(&parts[i]);
        if let Some(value) = text::after(&part, '=') {
            if text::same(&text::before(&part, '='), name) {
                return Some(value);
            }
        }
        i += 1;
    }
    None
}

/// The token in the CSRF cookie of the session, where it is set and not empty.
pub open spec fn csrf_token_of(session: Session) -> Option<Seq<char>> {
    match session.cookies {
        Some(header) => match cookie_of(header@, CSRF_COOKIE@) {
            Some(token) => if token.len() > 0 {
                Some(token)
            } else {
                None
            },
            None => None,
        },
        None => None,
    }
}

/// Reads the token in the CSRF cookie.
pub fn csrf_token(session: &Session) -> (r: Option<String>)
    ensures
        match r {
            Some(v) => csrf_token_of(*session) == Some(v@),
            None => csrf_token_of(*session) is None,
        },
{
    match &session.cookies {
        Some(header) => match cookie(header, CSRF_COOKIE) {
            Some(token) => {
                if token.as_str().is_empty() {
                    None
                } else {
                    Some(token)
                }
            },
            None => None,
        },
        None => None,
    }
}

/// The CSRF token of a page, and the cookie to set where the session has none yet.
#[derive(Debug)]
pub struct CsrfToken {
    pub token: String,
    pub set_cookie: Option<String>,
}

/// The header that sets the CSRF cookie to `token`.
pub open spec fn csrf_cookie_header(token: Seq<char>) -> Seq<char> {
    CSRF_COOKIE@ + "="@ + token + COOKIE_ATTRIBUTES@
}

/// Keeps the token of the session, or sets the fresh one.
pub fn ensure_csrf(session: &Session, fresh: &str) -> (r: CsrfToken)
    ensures
        match csrf_token_of(*session) {
            Some(token) => r.token@ == token && r.set_cookie is None,
            None => r.token@ == fresh@ && (r.set_cookie matches Some(c) && c@ == csrf_cookie_header(
                fresh@,
            )),
        },
{
    match csrf_token(session) {
        Some(token) => CsrfToken { token, set_cookie: None },
        None => {
            let mut header = CSRF_COOKIE.to_string();
            header.push_str("=");
            header.push_str(fresh);
            header.push_str(COOKIE_ATTRIBUTES);
            CsrfToken { token: fresh.to_string(), set_cookie: Some(header) }
        },
    }
}

// ---------------------------------------------------------------------------
// Identity
// ---------------------------------------------------------------------------

/// The value of a header without surrounding white space, where it is not blank.
pub open spec fn header_value(header: Option<String>) -> Option<Seq<char>> {
    match header {
        Some(v) => if text::trimmed(v@).len() > 0 {
            Some(text::trimmed(v@))
        } else {
            None
        },
        None => None,
    }
}

/// Reads a header that may be missing or blank.
fn nonblank(header: &Option<String>) -> (r: Option<String>)
    ensures
        match r {
            Some(v) => header_value(*header) == Some(v@),
            None => header_value(*header) is None,
        },
{
    match header {
        Some(v) => {
            let t = text::trim(v);
            if t.as_str().is_empty() {
                None
            } else {
                Some(t)
            }
        },
        None => None,
    }
}

/// The address that the dashboard shows.
pub open spec fn shown_email(session: Session) -> Seq<char> {
    match header_value(session.email) {
        Some(email) => email,
        None => NO_EMAIL@,
    }
}

/// The address that the dashboard shows, or a dash.
pub fn display_email(session: &Session) -> (r: String)
    ensures
        r@ == shown_email(*session),
{
    match nonblank(&session.email) {
        Some(email) => email,
        None => NO_EMAIL.to_string(),
    }
}

/// Whether `token` repeats the token of the CSRF cookie.
pub open spec fn repeats_token(session: Session, token: Seq<char>) -> bool {
    csrf_token_of(session) == Some(token)
}

/// The name under which the sender edits, or why the sender may not: the gateway must name a subject,
/// and the form must repeat the token of the cookie. The e-mail address is used where there is one.
pub open spec fn authorized(session: Session, token: Seq<char>) -> Result<Seq<char>, AuthError> {
    match header_value(session.subject) {
        None => Err(AuthError::NoIdentity),
        Some(subject) => if !repeats_token(session, token) {
            Err(AuthError::TokenMismatch)
        } else {
            match header_value(session.email) {
                Some(email) => Ok(email),
                None => Ok(subject),
            }
        },
    }
}

/// Checks that the sender of a form may edit, and gives the name to record.
pub fn authorize(session: &Session, token: &str) -> (r: Result<String, AuthError>)
    ensures
        match r {
            Ok(actor) => authorized(*session, token@) == Ok::<Seq<char>, AuthError>(actor@),
            Err(e) => authorized(*session, token@) == Err::<Seq<char>, AuthError>(e),
        },
{
    let subject = match nonblank(&session.subject) {
        Some(s) => s,
        None => {
            return Err(AuthError::NoIdentity);
        },
    };
    match csrf_token(session) {
        Some(t) => {
            if !text::same(&t, token) {
                return Err(AuthError::TokenMismatch);
            }
        },
        None => {
            return Err(AuthError::TokenMismatch);
        },
    }
    match nonblank(&session.email) {
        Some(email) => Ok(email),
        None => Ok(subject),
    }
}

} // verus!
