//! Shared page rendering for the zone console.
//!
//! [`zones`] holds the editing operations, [`zones_view`] the markup of zones, history and test
//! queries, and [`calendar`] the dates. This module holds what all pages share: escaping, the app
//! bar, the footer and the page shell.
pub mod calendar;
pub mod zones;
pub mod zones_view;

pub use crate::handlers::calendar::fmt_date;

use crate::digits;
use crate::text;
use vstd::prelude::*;

verus! {

/// Where the stylesheet is served.
pub const APP_CSS_PATH: &'static str = "/assets/lodestar-20260908.css";

/// Cross-subdomain gateway logout.
pub const LOGOUT_URL: &'static str = "https://sso.w33d.xyz/_gw/auth/logout";

/// The brand mark.
pub const ICON_MARK: &'static str = r##"<svg viewBox="0 0 24 24" fill="none" stroke="currentColor" stroke-width="2" stroke-linecap="round" stroke-linejoin="round" aria-hidden="true"><path d="M12 3v4M12 17v4M3 12h4M17 12h4"/><circle cx="12" cy="12" r="3.5"/></svg>"##;

/// The icon of the app grid.
pub const ICON_GRID: &'static str = r##"<svg viewBox="0 0 24 24" fill="none" stroke="currentColor" stroke-width="2" stroke-linecap="round" stroke-linejoin="round" aria-hidden="true"><rect x="3" y="3" width="7" height="7" rx="1.5"/><rect x="14" y="3" width="7" height="7" rx="1.5"/><rect x="3" y="14" width="7" height="7" rx="1.5"/><rect x="14" y="14" width="7" height="7" rx="1.5"/></svg>"##;

/// The icon of a zone.
pub const ICON_GLOBE: &'static str = r##"<svg viewBox=\"0 0 24 24\" fill=\"none\" stroke=\"currentColor\" stroke-width=\"1.8\" stroke-linecap=\"round\" stroke-linejoin=\"round\" aria-hidden=\"true\"><circle cx=\"12\" cy=\"12\" r=\"8.5\"/><path d=\"M3.5 12h17\"/></svg>"##;

/// The icon of a test query.
pub const ICON_PLAY: &'static str = r##"<svg viewBox=\"0 0 24 24\" fill=\"none\" stroke=\"currentColor\" stroke-width=\"2\" stroke-linecap=\"round\" stroke-linejoin=\"round\" aria-hidden=\"true\"><path d=\"m6 4 14 8-14 8V4Z\"/></svg>"##;

/// The icon of an import.
pub const ICON_UPLOAD: &'static str = r##"<svg viewBox=\"0 0 24 24\" fill=\"none\" stroke=\"currentColor\" stroke-width=\"2\" stroke-linecap=\"round\" stroke-linejoin=\"round\" aria-hidden=\"true\"><path d=\"M12 20V8\"/><path d=\"m7 12 5-5 5 5\"/><path d=\"M4 4h16\"/></svg>"##;

/// The icon of a check.
pub const ICON_CHECK: &'static str = r##"<svg viewBox=\"0 0 24 24\" fill=\"none\" stroke=\"currentColor\" stroke-width=\"2.4\" stroke-linecap=\"round\" stroke-linejoin=\"round\" aria-hidden=\"true\"><path d=\"m4 12 5 5L20 6\"/></svg>"##;

/// The shared page footer.
pub const FOOTER: &'static str = r##"<footer class="v2-foot">
  <span class="v2-foot__lead">Steadholme Lodestar · dns.w33d.xyz · DNS :5353 UDP + TCP</span>
  <a href="https://audit.w33d.xyz">Watchtower</a>
  <a href="https://status.w33d.xyz">Status</a>
  <a href="https://w33d.xyz">All apps</a>
</footer>"##;

/// The address of the zones page.
pub const NAV_HREF: &'static str = "/";

/// The label of the zones page.
pub const NAV_LABEL: &'static str = "Zones";

/// The app bar up to the brand mark.
pub const BAR_OPEN: &'static str = r#"<header class="suitebar">
  <a class="suitebar__brand" href="/">
    <span class="brand-tile" aria-hidden="true">"#;

/// The app bar from the brand mark to the page pills.
pub const BAR_NAV: &'static str = r#"</span>
    <span class="suitebar__name"><b>Steadholme</b><span>Lodestar · authoritative DNS</span></span>
  </a>
  <span class="suitebar__host">dns.w33d.xyz</span>
  <nav class="surfaces" aria-label="Lodestar pages">"#;

/// The app bar from the page pills to the grid icon.
pub const BAR_APPS: &'static str = r#"</nav>
  <span class="suitebar__spacer"></span>
  <div class="suitebar__right">
    <a class="allapps" href="https://w33d.xyz">"#;

/// The app bar from the grid icon to the user chip.
pub const BAR_USER: &'static str = r#"<span>All apps</span></a>
    "#;

/// The app bar from the user chip to the logout link.
pub const BAR_LOGOUT: &'static str = r#"
    <a class="btn btn-ghost btn-sm" href=""#;

/// The app bar behind the logout link.
pub const BAR_CLOSE: &'static str = r#"">Log out</a>
  </div>
</header>"#;


/// The answer of the liveness probe.
pub fn healthz() -> (r: &'static str)
    ensures
        r@ == "ok"@,
{
    "ok"
}

// ---------------------------------------------------------------------------
// Escaping
// ---------------------------------------------------------------------------

/// What stands for `c` in HTML text and attributes.
pub open spec fn entity(c: char) -> Seq<char> {
    if c == '&' {
        "&amp;"@
    } else if c == '<' {
        "&lt;"@
    } else if c == '>' {
        "&gt;"@
    } else if c == '"' {
        "&quot;"@
    } else if c == '\'' {
        "&#x27;"@
    } else {
        seq![c]
    }
}

/// `s` with each of its characters as it stands in HTML.
pub open spec fn escaped(s: Seq<char>) -> Seq<char>
    decreases s.len(),
{
    if s.len() == 0 {
        Seq::<char>::empty()
    } else {
        escaped(s.drop_last()) + entity(s.last())
    }
}

/// Minimal HTML escaping for interpolation into text and attributes.
pub fn esc(s: &str) -> (r: String)
    ensures
        r@ == escaped(s@),
{
    let mut out = String::new();
    for c in it: s.chars()
        invariant
            it.seq() == s@,
            out@ == escaped(s@.take(it.index() as int)),
    {
        let ghost i = it.index() as int;
        let ghost before = out@;
        assert(s@.take(i + 1).drop_last() == s@.take(i));
        assert(s@.take(i + 1).last() == c);
        if c == '&' {
            out.push_str("&amp;");
        } else if c == '<' {
            out.push_str("&lt;");
        } else if c == '>' {
            out.push_str("&gt;");
        } else if c == '"' {
            out.push_str("&quot;");
        } else if c == '\'' {
            out.push_str("&#x27;");
        } else {
            out.push(c);
            assert(out@ == before + seq![c]);
        }
    }
    assert(s@.take(s@.len() as int) == s@);
    out
}

// ---------------------------------------------------------------------------
// The app bar
// ---------------------------------------------------------------------------

/// The upper-case form of a character, by the Unicode mapping of `char::to_uppercase`.
pub uninterp spec fn uppercase_of(c: char) -> Seq<char>;

/// `char::to_uppercase` gives the upper-case form of a character, which may be several characters.
/// The contract names the result; it does not spell out the Unicode table.
#[verifier::external_body]
fn to_uppercase(c: char) -> (r: String)
    ensures
        r@ == uppercase_of(c),
{
    c.to_uppercase().to_string()
}

/// The pill of a page: its label, marked where the page is the active one.
pub open spec fn pill(href: Seq<char>, label: Seq<char>, active: Seq<char>) -> Seq<char> {
    let (state, aria) = if href == active {
        (" is-active"@, r#" aria-current="page""#@)
    } else {
        (""@, ""@)
    };
    r#"<a class="surf"#@ + state + r#"" href=""#@ + href + r#"""#@ + aria + ">"@ + label + "</a>"@
}

/// The chip of a signed-in user with the initial `initial`.
pub open spec fn user_chip(initial: Seq<char>, email: Seq<char>) -> Seq<char> {
    r#"<span class="userchip"><span class="userchip__avatar" aria-hidden="true">"#@ + escaped(
        initial,
    ) + r#"</span><span class="user-email">"#@ + escaped(email) + "</span></span>"@
}

/// The chip where there is no session.
pub open spec fn no_chip() -> Seq<char> {
    r#"<span class="user-email user-email--none">— (no gateway session)</span>"#@
}

/// Whether `email` names a user.
pub open spec fn is_known(email: Option<Seq<char>>) -> bool {
    match email {
        Some(value) => value.len() > 0 && value != "—"@,
        None => false,
    }
}

/// The chip of the user with the address `email`, or of nobody.
pub open spec fn chip_for(email: Option<Seq<char>>) -> Seq<char> {
    if is_known(email) {
        user_chip(uppercase_of(email.unwrap()[0]), email.unwrap())
    } else {
        no_chip()
    }
}

/// The app bar with the page at `active` marked and the user chip `chip`.
pub open spec fn bar_with(active: Seq<char>, chip: Seq<char>) -> Seq<char> {
    BAR_OPEN@ + ICON_MARK@ + BAR_NAV@ + pill(NAV_HREF@, NAV_LABEL@, active) + BAR_APPS@ + ICON_GRID@
        + BAR_USER@ + chip + BAR_LOGOUT@ + LOGOUT_URL@ + BAR_CLOSE@
}

/// The view of an optional text.
pub open spec fn view_of(s: Option<&str>) -> Option<Seq<char>> {
    match s {
        Some(t) => Some(t@),
        None => None,
    }
}

/// Renders the pill of a page.
fn render_pill(href: &str, label: &str, active: &str) -> (r: String)
    ensures
        r@ == pill(href@, label@, active@),
{
    let here = text::same(href, active);
    let mut s = r#"<a class="surf"#.to_string();
    s.push_str(
        if here {
            " is-active"
        } else {
            ""
        },
    );
    s.push_str(r#"" href=""#);
    s.push_str(href);
    s.push_str(r#"""#);
    s.push_str(
        if here {
            r#" aria-current="page""#
        } else {
            ""
        },
    );
    s.push_str(">");
    s.push_str(label);
    s.push_str("</a>");
    s
}

/// Renders the chip of a signed-in user.
pub fn render_user_chip(initial: &str, email: &str) -> (r: String)
    ensures
        r@ == user_chip(initial@, email@),
{
    let mut s = r#"<span class="userchip"><span class="userchip__avatar" aria-hidden="true">"#
        .to_string();
    s.push_str(&esc(initial));
    s.push_str(r#"</span><span class="user-email">"#);
    s.push_str(&esc(email));
    s.push_str("</span></span>");
    s
}

/// Renders the app bar with a given user chip.
pub fn app_bar_with(active: &str, chip: &str) -> (r: String)
    ensures
        r@ == bar_with(active@, chip@),
{
    let mut s = BAR_OPEN.to_string();
    s.push_str(ICON_MARK);
    s.push_str(BAR_NAV);
    s.push_str(&render_pill(NAV_HREF, NAV_LABEL, active));
    s.push_str(BAR_APPS);
    s.push_str(ICON_GRID);
    s.push_str(BAR_USER);
    s.push_str(chip);
    s.push_str(BAR_LOGOUT);
    s.push_str(LOGOUT_URL);
    s.push_str(BAR_CLOSE);
    s
}

/// Renders the app bar: brand lockup, host and page pills; all apps, identity and log out.
pub fn app_bar(active: &str, email: Option<&str>) -> (r: String)
    ensures
        r@ == bar_with(active@, chip_for(view_of(email))),
{
    match email {
        Some(value) => {
            if !value.is_empty() && !text::same(value, "—") {
                let letters = text::to_chars(value);
                let chip = render_user_chip(&to_uppercase(letters[0]), value);
                return app_bar_with(active, &chip);
            }
        },
        None => {},
    }
    app_bar_with(
        active,
        r#"<span class="user-email user-email--none">— (no gateway session)</span>"#,
    )
}

// ---------------------------------------------------------------------------
// Pages
// ---------------------------------------------------------------------------

/// A page template with its theme, stylesheet, app bar and footer filled in.
pub open spec fn filled(
    template: Seq<char>,
    theme_attr: Seq<char>,
    color_scheme: Seq<char>,
    bar: Seq<char>,
) -> Seq<char> {
    let themed = text::replaced(
        text::replaced(template, "{{THEME_ATTR}}"@, theme_attr),
        "{{COLOR_SCHEME}}"@,
        color_scheme,
    );
    text::replaced(
        text::replaced(
            text::replaced(themed, "{{CSS_PATH}}"@, APP_CSS_PATH@),
            "{{APPBAR}}"@,
            bar,
        ),
        "{{FOOTER}}"@,
        FOOTER@,
    )
}

/// Fills the chrome of a page template with a given app bar.
fn fill(template: &str, theme_attr: &str, color_scheme: &str, bar: &str) -> (r: String)
    ensures
        r@ == filled(template@, theme_attr@, color_scheme@, bar@),
{
    proof {
        reveal_strlit("{{THEME_ATTR}}");
        reveal_strlit("{{COLOR_SCHEME}}");
        reveal_strlit("{{CSS_PATH}}");
        reveal_strlit("{{APPBAR}}");
        reveal_strlit("{{FOOTER}}");
    }
    let mut s = text::replace(template, "{{THEME_ATTR}}", theme_attr);
    s = text::replace(&s, "{{COLOR_SCHEME}}", color_scheme);
    s = text::replace(&s, "{{CSS_PATH}}", APP_CSS_PATH);
    s = text::replace(&s, "{{APPBAR}}", bar);
    text::replace(&s, "{{FOOTER}}", FOOTER)
}

/// Fills a page template's chrome placeholders: theme attributes, stylesheet, app bar and footer.
pub fn shell(
    template: &str,
    active: &str,
    theme_attr: &str,
    color_scheme: &str,
    email: Option<&str>,
) -> (r: String)
    ensures
        r@ == filled(
            template@,
            theme_attr@,
            color_scheme@,
            bar_with(active@, chip_for(view_of(email))),
        ),
{
    fill(template, theme_attr, color_scheme, &app_bar(active, email))
}

/// The canonical reason phrase of a status code, by the table of `http::StatusCode`.
pub uninterp spec fn reason_of(code: u16) -> Option<Seq<char>>;

/// `StatusCode::canonical_reason` gives the reason phrase of a status code, where it has one. The
/// contract names the result; it does not spell out the table. Codes outside 100 to 999 are no
/// status codes.
#[verifier::external_body]
fn canonical_reason(code: u16) -> (r: Option<String>)
    requires
        100 <= code <= 999,
    ensures
        match r {
            Some(s) => reason_of(code) == Some(s@),
            None => reason_of(code) is None,
        },
{
    let status = axum::http::StatusCode::from_u16(code).ok()?;
    status.canonical_reason().map(|s| s.to_string())
}

/// The error document of a status code with the heading `heading`.
pub open spec fn error_document(
    template: Seq<char>,
    code: u16,
    heading: Seq<char>,
    message: Seq<char>,
) -> Seq<char> {
    let page = filled(template, ""@, "light dark"@, bar_with("/"@, no_chip()));
    text::replaced(
        text::replaced(
            text::replaced(page, "{{STATUS}}"@, digits::decimal(code as nat)),
            "{{HEADING}}"@,
            escaped(heading),
        ),
        "{{MESSAGE}}"@,
        escaped(message),
    )
}

/// Renders the error document of a status code with a given heading.
pub fn error_page_with(template: &str, code: u16, heading: &str, message: &str) -> (r: String)
    ensures
        r@ == error_document(template@, code, heading@, message@),
{
    proof {
        reveal_strlit("{{STATUS}}");
        reveal_strlit("{{HEADING}}");
        reveal_strlit("{{MESSAGE}}");
    }
    let mut s = fill(template, "", "light dark", &app_bar("/", None));
    s = text::replace(&s, "{{STATUS}}", &digits::decimal_text(code as u64));
    s = text::replace(&s, "{{HEADING}}", &esc(heading));
    text::replace(&s, "{{MESSAGE}}", &esc(message))
}

/// Renders the branded error document as one status tile.
pub fn error_page(template: &str, code: u16, message: &str) -> (r: String)
    requires
        100 <= code <= 999,
    ensures
        r@ == error_document(
            template@,
            code,
            match reason_of(code) {
                Some(reason) => reason,
                None => "Error"@,
            },
            message@,
        ),
{
    match canonical_reason(code) {
        Some(reason) => error_page_with(template, code, &reason, message),
        None => error_page_with(template, code, "Error", message),
    }
}

} // verus!
