//! Laws of sessions: a form is accepted that repeats the token of its page, and no other.
use crate::auth;
use crate::auth::{AuthError, Session, CSRF_COOKIE};
use crate::laws::letters;
use crate::laws::names;
use crate::laws::pieces;
use crate::text;
use vstd::prelude::*;

verus! {

/// Whether `token` can stand in a cookie: not empty, without a semicolon and without white space at its
/// ends.
pub open spec fn is_token(token: Seq<char>) -> bool {
    token.len() > 0 && names::free_of(token, ';') && names::is_trimmed(token)
}

/// The parts of a text around the first `c` behind a text without it.
proof fn lemma_around_first(a: Seq<char>, b: Seq<char>, c: char)
    requires
        names::free_of(a, c),
    ensures
        text::before_first(a.push(c) + b, c) == a,
        text::after_first(a.push(c) + b, c) == Some(b),
    decreases a.len(),
{
    let s = a.push(c) + b;
    if a.len() == 0 {
        assert(s[0] == c);
        assert(s.drop_first() =~= b);
        assert(a =~= Seq::<char>::empty());
    } else {
        let rest = a.drop_first();
        assert(s[0] == a[0]);
        assert forall|i: int| 0 <= i < rest.len() implies #[trigger] rest[i] != c by {
            assert(rest[i] == a[i + 1]);
        }
        lemma_around_first(rest, b, c);
        assert(s.drop_first() =~= rest.push(c) + b);
        assert(seq![a[0]] + rest =~= a);
    }
}

/// A cookie reads back: a browser that holds the cookie alone sends its name, an equals sign and the
/// token, and the token is read from that.
pub proof fn lemma_cookie_reads_back(token: Seq<char>)
    requires
        is_token(token),
    ensures
        auth::cookie_of(CSRF_COOKIE@ + "="@ + token, CSRF_COOKIE@) == Some(token),
{
    reveal_strlit("__Host-csrf");
    reveal_strlit("=");
    let name = CSRF_COOKIE@;
    let header = name + "="@ + token;
    assert(header =~= name.push('=') + token);
    assert forall|i: int| 0 <= i < header.len() implies #[trigger] header[i] != ';' by {
        if i > name.len() {
            assert(header[i] == token[i - name.len() - 1]);
        }
    }
    names::lemma_single_field(header, ';');
    assert(header[0] == '_' && header.last() == token.last());
    names::lemma_trim_trimmed(header);
    lemma_around_first(name, token, '=');
    let parts = text::fields(header, ';');
    assert(parts[0] == header);
}

/// A form of a signed-in user that repeats the token of the cookie is accepted.
pub proof fn lemma_repeated_token_is_accepted(session: Session, token: Seq<char>)
    requires
        auth::header_value(session.subject) is Some,
        session.cookies matches Some(c) && c@ == CSRF_COOKIE@ + "="@ + token,
        is_token(token),
    ensures
        auth::authorized(session, token) is Ok,
{
    lemma_cookie_reads_back(token);
}

/// A form with any other token is refused.
pub proof fn lemma_other_token_is_refused(session: Session, token: Seq<char>, other: Seq<char>)
    requires
        auth::header_value(session.subject) is Some,
        session.cookies matches Some(c) && c@ == CSRF_COOKIE@ + "="@ + token,
        is_token(token),
        other != token,
    ensures
        auth::authorized(session, other) == Err::<Seq<char>, AuthError>(AuthError::TokenMismatch),
{
    lemma_cookie_reads_back(token);
}

/// Without an identity no form is accepted, whatever its token.
pub proof fn lemma_stranger_is_refused(session: Session, token: Seq<char>)
    requires
        auth::header_value(session.subject) is None,
    ensures
        auth::authorized(session, token) == Err::<Seq<char>, AuthError>(AuthError::NoIdentity),
{
}

/// An empty token is never accepted.
pub proof fn lemma_empty_token_is_refused(session: Session)
    ensures
        auth::authorized(session, Seq::<char>::empty()) is Err,
{
}

// ---------------------------------------------------------------------------
// What decides
// ---------------------------------------------------------------------------

/// Whether a header holds anything but white space, and `v` is that without the white space around it.
pub open spec fn says(header: Option<String>, v: Seq<char>) -> bool {
    header matches Some(h) && v.len() > 0 && v == text::trimmed(h@)
}

/// Whether a header is missing or blank.
pub open spec fn says_nothing(header: Option<String>) -> bool {
    header matches Some(h) ==> letters::is_blank(h@)
}

/// A header says what is left of it without the white space around it, where anything is.
pub proof fn lemma_header_means(header: Option<String>)
    ensures
        match auth::header_value(header) {
            Some(v) => says(header, v),
            None => says_nothing(header),
        },
{
    if let Some(h) = header {
        let t = text::trimmed(h@);
        letters::lemma_trimmed_means(h@);
        let (a, b) = choose|a: Seq<char>, b: Seq<char>|
            letters::is_blank(a) && letters::is_blank(b) && h@ == #[trigger] (a + t + b);
        if t.len() == 0 {
            assert forall|i: int| 0 <= i < h@.len() implies text::is_space(#[trigger] h@[i]) by {
                if i < a.len() {
                    assert(h@[i] == a[i]);
                } else {
                    assert(h@[i] == b[i - a.len()]);
                }
            }
        }
    }
}

/// Whether the part at `k` of a `Cookie` header is the first that sets `name`, and sets it to `value`.
pub open spec fn sets_cookie(
    parts: Seq<Seq<char>>,
    name: Seq<char>,
    value: Seq<char>,
    k: int,
) -> bool {
    &&& 0 <= k < parts.len()
    &&& text::trimmed(parts[k]) == name + seq!['='] + value
    &&& forall|j: int| 0 <= j < k ==> !is_setting(#[trigger] parts[j], name)
}

/// Whether a part of a `Cookie` header sets `name`.
pub open spec fn is_setting(part: Seq<char>, name: Seq<char>) -> bool {
    exists|value: Seq<char>| text::trimmed(part) == #[trigger] (name + seq!['='] + value)
}

/// A part sets the name before its first equals sign to what stands behind it.
proof fn lemma_setting(part: Seq<char>, name: Seq<char>)
    requires
        names::free_of(name, '='),
    ensures
        ({
            let t = text::trimmed(part);
            is_setting(part, name) <==> text::before_first(t, '=') == name && text::after_first(
                t,
                '=',
            ) is Some
        }),
        ({
            let t = text::trimmed(part);
            text::before_first(t, '=') == name ==> match text::after_first(t, '=') {
                Some(value) => t == name + seq!['='] + value,
                None => true,
            }
        }),
{
    let t = text::trimmed(part);
    pieces::lemma_around_first(t, '=');
    if is_setting(part, name) {
        let value = choose|value: Seq<char>| t == #[trigger] (name + seq!['='] + value);
        assert(t =~= name.push('=') + value);
        lemma_around_first(name, value, '=');
    }
}

/// A cookie has the value that the first part of the header with its name gives it.
pub proof fn lemma_cookie_means(header: Seq<char>, name: Seq<char>)
    requires
        names::free_of(name, '='),
    ensures
        ({
            let parts = text::fields(header, ';');
            match auth::cookie_of(header, name) {
                Some(value) => exists|k: int| #[trigger] sets_cookie(parts, name, value, k),
                None => forall|j: int|
                    0 <= j < parts.len() ==> !is_setting(#[trigger] parts[j], name),
            }
        }),
{
    lemma_find_cookie(text::fields(header, ';'), name);
}

/// The search goes through the parts in order.
proof fn lemma_find_cookie(parts: Seq<Seq<char>>, name: Seq<char>)
    requires
        names::free_of(name, '='),
    ensures
        match auth::find_cookie(parts, name) {
            Some(value) => exists|k: int| #[trigger] sets_cookie(parts, name, value, k),
            None => forall|j: int| 0 <= j < parts.len() ==> !is_setting(#[trigger] parts[j], name),
        },
    decreases parts.len(),
{
    if parts.len() > 0 {
        let rest = parts.drop_first();
        lemma_setting(parts[0], name);
        lemma_find_cookie(rest, name);
        if is_setting(parts[0], name) {
            let value = auth::find_cookie(parts, name).unwrap();
            assert(sets_cookie(parts, name, value, 0));
        } else {
            match auth::find_cookie(rest, name) {
                Some(value) => {
                    let k = choose|k: int| #[trigger] sets_cookie(rest, name, value, k);
                    assert forall|j: int| 0 <= j < k + 1 implies !is_setting(
                        #[trigger] parts[j],
                        name,
                    ) by {
                        if j > 0 {
                            assert(rest[j - 1] == parts[j]);
                        }
                    }
                    assert(sets_cookie(parts, name, value, k + 1));
                },
                None => {
                    assert forall|j: int| 0 <= j < parts.len() implies !is_setting(
                        #[trigger] parts[j],
                        name,
                    ) by {
                        if j > 0 {
                            assert(rest[j - 1] == parts[j]);
                        }
                    }
                },
            }
        }
    }
}

/// Whether the cookie of the session holds the token `token`.
pub open spec fn holds_token(session: Session, token: Seq<char>) -> bool {
    session.cookies matches Some(header) && token.len() > 0 && exists|k: int| #[trigger]
        sets_cookie(text::fields(header@, ';'), "__Host-csrf"@, token, k)
}

/// A form is accepted if and only if the gateway names a subject and the form repeats the token of the
/// cookie. The sender goes by the e-mail address where there is one, and otherwise by the subject.
pub proof fn lemma_authorized_means(session: Session, token: Seq<char>)
    ensures
        match auth::authorized(session, token) {
            Ok(actor) => {
                &&& !says_nothing(session.subject)
                &&& holds_token(session, token)
                &&& if says_nothing(session.email) {
                    says(session.subject, actor)
                } else {
                    says(session.email, actor)
                }
            },
            Err(AuthError::NoIdentity) => says_nothing(session.subject),
            Err(AuthError::TokenMismatch) => !says_nothing(session.subject) && !holds_token(
                session,
                token,
            ),
        },
{
    reveal_strlit("__Host-csrf");
    lemma_header_means(session.subject);
    lemma_header_means(session.email);
    lemma_says_once(session.subject);
    lemma_says_once(session.email);
    if let Some(header) = session.cookies {
        let parts = text::fields(header@, ';');
        let name = "__Host-csrf"@;
        lemma_cookie_means(header@, name);
        if holds_token(session, token) {
            let k = choose|k: int| #[trigger] sets_cookie(parts, name, token, k);
            assert(is_setting(parts[k], name));
            let value = auth::cookie_of(header@, name).unwrap();
            let m = choose|m: int| #[trigger] sets_cookie(parts, name, value, m);
            if k < m {
                assert(!is_setting(parts[k], name));
            }
            if m < k {
                assert(is_setting(parts[m], name)) by {
                    assert(text::trimmed(parts[m]) == name + seq!['='] + value);
                }
                assert(!is_setting(parts[m], name));
            }
            let n = name.len() as int;
            assert((name + seq!['='] + token).skip(n + 1) =~= token);
            assert((name + seq!['='] + value).skip(n + 1) =~= value);
        }
    }
}

/// A header does not say something and nothing.
proof fn lemma_says_once(header: Option<String>)
    ensures
        auth::header_value(header) is Some ==> !says_nothing(header),
{
    if let Some(h) = header {
        let t = text::trimmed(h@);
        letters::lemma_trimmed_means(h@);
        let (a, b) = choose|a: Seq<char>, b: Seq<char>|
            letters::is_blank(a) && letters::is_blank(b) && h@ == #[trigger] (a + t + b);
        if t.len() > 0 {
            assert(h@[a.len() as int] == t[0]);
            assert(!text::is_space(h@[a.len() as int]));
        }
    }
}

} // verus!
