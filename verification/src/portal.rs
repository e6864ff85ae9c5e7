//! Small rules of the admin pages and the session credentials: where a user
//! lands after signing in, the gateway URL a setup page shows, and how a
//! conversation's gateway credential is named so a sweep can find the ones
//! whose conversations are gone.
use vstd::prelude::*;

verus! {

/// Where a user lands after signing in: the homepage once approved (or an
/// admin), otherwise the page that says the account is under review.
pub fn post_login_redirect(is_approved: bool, is_admin: bool) -> (to: &'static str)
    ensures
        to@ == (if is_approved || is_admin {
            "/"@
        } else {
            "/admin/pending"@
        }),
{
    if is_approved || is_admin {
        "/"
    } else {
        "/admin/pending"
    }
}

/// The gateway URL a setup page shows: the forwarded scheme (default
/// `http`) and the `Host` header (default `localhost:8080`).
pub open spec fn gateway_url_spec(proto: Option<Seq<char>>, host: Option<Seq<char>>) -> Seq<char> {
    (match proto {
        Some(p) => p,
        None => "http"@,
    }) + "://"@ + (match host {
        Some(h) => h,
        None => "localhost:8080"@,
    })
}

/// The gateway URL a setup page shows, from the request's headers (each
/// `None` when absent or not visible ASCII).
pub fn gateway_url(proto: Option<&str>, host: Option<&str>) -> (out: String)
    ensures
        out@ == gateway_url_spec(
            match proto {
                Some(p) => Some(p@),
                None => None,
            },
            match host {
                Some(h) => Some(h@),
                None => None,
            },
        ),
{
    let mut out = String::from_str(
        match proto {
            Some(p) => p,
            None => "http",
        },
    );
    out.append("://");
    out.append(
        match host {
            Some(h) => h,
            None => "localhost:8080",
        },
    );
    out
}

/// The prefix every conversation credential's name starts with.
pub open spec fn pat_prefix() -> Seq<char> {
    "pi-conversation "@
}

/// The name a conversation's gateway credential is issued under.
pub fn pat_name(conversation_id: &str) -> (out: String)
    ensures
        out@ == pat_prefix() + conversation_id@,
{
    let mut out = String::from_str("pi-conversation ");
    out.append(conversation_id);
    out
}

/// The credential names a sweep keeps: those of the live conversations, in
/// order; every other credential under the prefix is an orphan.
pub fn pat_names_to_keep(live: &Vec<String>) -> (out: Vec<String>)
    ensures
        out.len() == live.len(),
        forall|i: int| 0 <= i < out.len() ==> #[trigger] out@[i]@ == pat_prefix() + live@[i]@,
{
    let mut out: Vec<String> = Vec::new();
    let mut i: usize = 0;
    while i < live.len()
        invariant
            i <= live.len(),
            out.len() == i,
            forall|k: int| 0 <= k < i ==> #[trigger] out@[k]@ == pat_prefix() + live@[k]@,
        decreases live.len() - i,
    {
        out.push(pat_name(live[i].as_str()));
        i = i + 1;
    }
    out
}

/// What the pending page does.
pub enum PendingPage {
    /// The account needs no review: go to the homepage.
    Redirect(&'static str),
    /// Show the review notice with these details of the applicant.
    Show { display_name: String, company: String },
}

/// The pending page for a signed-in user: an approved account (or an admin)
/// is sent home; anyone else sees the name and company they applied with,
/// falling back to their username and no company when no application is on
/// file.
pub fn pending_page(is_approved: bool, is_admin: bool, username: &str, applicant: Option<(String, String)>) -> (p:
    PendingPage)
    ensures
        (is_approved || is_admin) ==> (p matches PendingPage::Redirect(to) && to@ == "/"@),
        !(is_approved || is_admin) ==> (p matches PendingPage::Show { display_name, company } && match applicant {
            Some(a) => display_name@ == a.0@ && company@ == a.1@,
            None => display_name@ == username@ && company@ == ""@,
        }),
{
    if is_approved || is_admin {
        return PendingPage::Redirect("/");
    }
    match applicant {
        Some(a) => PendingPage::Show { display_name: a.0, company: a.1 },
        None => {
            let company = String::new();
            proof {
                reveal_strlit("");
            }
            assert(company@ =~= ""@);
            PendingPage::Show { display_name: String::from_str(username), company }
        },
    }
}

/// Where the registration page sends a visitor who is already signed in;
/// nowhere for anyone else, who is shown the form.
pub fn register_redirect(signed_in: bool) -> (to: Option<&'static str>)
    ensures
        signed_in ==> (to matches Some(t) && t@ == "/admin/continue"@),
        !signed_in ==> to is None,
{
    if signed_in {
        Some("/admin/continue")
    } else {
        None
    }
}

} // verus!
