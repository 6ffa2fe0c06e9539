//! What the web pages decide: the forms they read, the records those forms make,
//! the client a page is about, and the fragments of HTML the handlers send back.

use vstd::prelude::*;
use crate::api::{is_bad_request, ApiError, ApiErrorView};
use crate::api::checks::{check_host_edit, check_new_source_id, fields_of, managed_hosts_message, manual_host, manual_host_fields, spec_check_new_source_id, Front, HostEdit};
use crate::api::model::ClientResponse;
use crate::api::validation::spec_validate_domain;
use crate::model::{HostDisposition, Source, SourceHost, Timestamp};
use crate::pauses::{pause_active, spec_pause_active};
use crate::text::{chars_of, push_all, push_char};

verus! {

/// The token of the page of clients to show.
pub struct ClientsQuery {
    pub next_token: Option<String>,
}

/// The token of the page of a client's blocked queries to show.
pub struct ClientDetailQuery {
    pub next_token: Option<String>,
}

/// A domain to allow from now on.
pub struct AllowlistRequest {
    pub domain: String,
}

/// The length of a pause, in seconds, as the form sends it.
pub struct StartPauseForm {
    pub duration_seconds: String,
}

/// The token of the page of sources to show.
pub struct SourcesQuery {
    pub next_token: Option<String>,
}

/// A new source, as the form sends it.
pub struct CreateSourceForm {
    pub id: String,
    pub disposition: String,
    pub url: Option<String>,
}

/// The token of the page of a source's hosts to show.
pub struct SourceDetailQuery {
    pub next_token: Option<String>,
}

/// A host to add to a source, as the form sends it.
pub struct AddHostForm {
    pub name: String,
    pub disposition: String,
}

/// The page with the form for a new source, and the error to show on it, if any.
pub struct NewSourceTemplate {
    pub error: Option<String>,
}

/// The form for a new source, as first shown: with no error.
pub fn new_source_form() -> (r: NewSourceTemplate)
    ensures
        r.error is None,
{
    NewSourceTemplate { error: None }
}

/// The message for a disposition the form names wrongly.
pub open spec fn invalid_disposition_message() -> Seq<char> {
    "Invalid disposition"@
}

/// Reads a disposition from a form field.
pub fn form_disposition(text: &str) -> (r: Result<HostDisposition, ApiError>)
    ensures
        match HostDisposition::spec_from_str(text@) {
            Some(d) => r == Ok::<HostDisposition, ApiError>(d),
            None => is_bad_request(r, invalid_disposition_message()),
        },
{
    match HostDisposition::from_str(text) {
        Ok(d) => Ok(d),
        Err(_) => Err(ApiError::BadRequest("Invalid disposition".to_string())),
    }
}

/// The URL of a form: an empty field is no URL.
pub open spec fn form_url(url: Option<String>) -> Option<String> {
    match url {
        Some(u) => if u@.len() == 0 {
            None
        } else {
            Some(u)
        },
        None => None,
    }
}

/// The source the form for a new source asks for, created at `now`. Refused when the
/// id is invalid or reserved, or else when the disposition is not one.
pub fn source_from_form(form: CreateSourceForm, now: Timestamp) -> (r: Result<Source, ApiError>)
    ensures
        match spec_check_new_source_id(form.id@) {
            Some(m) => is_bad_request(r, m),
            None => match HostDisposition::spec_from_str(form.disposition@) {
                None => is_bad_request(r, invalid_disposition_message()),
                Some(d) => r == Ok::<Source, ApiError>(
                    Source {
                        id: form.id,
                        url: form_url(form.url),
                        path: None,
                        disposition: d,
                        created_at: now,
                        updated_at: now,
                    },
                ),
            },
        },
{
    match check_new_source_id(form.id.as_str()) {
        Err(e) => {
            return Err(e);
        },
        Ok(()) => {},
    }
    let disposition = match form_disposition(form.disposition.as_str()) {
        Ok(d) => d,
        Err(e) => {
            return Err(e);
        },
    };
    let url = match form.url {
        Some(u) => if u.as_str().is_empty() {
            None
        } else {
            Some(u)
        },
        None => None,
    };
    Ok(Source { id: form.id, url, path: None, disposition, created_at: now, updated_at: now })
}

/// The entry the form for a new host of `source` asks for, added at `now`. Refused
/// for a source that is not managed by hand, else for a name the name check refuses,
/// else for a wrong disposition.
pub fn host_from_form(source: &Source, form: &AddHostForm, now: Timestamp) -> (r: Result<
    SourceHost,
    ApiError,
>)
    ensures
        !source.spec_is_manual() ==> is_bad_request(
            r,
            managed_hosts_message(HostEdit::Add, Front::Web),
        ),
        source.spec_is_manual() ==> match spec_validate_domain(form.name@) {
            Err(m) => is_bad_request(r, m),
            Ok(n) => match HostDisposition::spec_from_str(form.disposition@) {
                None => is_bad_request(r, invalid_disposition_message()),
                Some(d) => r matches Ok(h) && fields_of(h) == manual_host_fields(
                    n,
                    source.id@,
                    d,
                    now,
                ),
            },
        },
{
    match check_host_edit(source, HostEdit::Add, Front::Web) {
        Err(e) => {
            return Err(e);
        },
        Ok(()) => {},
    }
    let name = match crate::api::validation::validate_and_normalize_domain(form.name.as_str()) {
        Ok(n) => n,
        Err(e) => {
            return Err(e);
        },
    };
    let disposition = match form_disposition(form.disposition.as_str()) {
        Ok(d) => d,
        Err(e) => {
            return Err(e);
        },
    };
    Ok(
        SourceHost {
            name,
            source_id: source.id.clone(),
            disposition,
            created_at: now,
            updated_at: now,
        },
    )
}

/// The source that holds the domains allowed from the web pages.
pub open spec fn web_source_id() -> Seq<char> {
    "webmanaged"@
}

/// The entry that allowing a domain from the web pages adds at `now`: the domain's
/// fully qualified form, allowed, in the `webmanaged` source.
pub fn allowlist_host(req: &AllowlistRequest, now: Timestamp) -> (r: Result<SourceHost, ApiError>)
    ensures
        match spec_validate_domain(req.domain@) {
            Ok(n) => r matches Ok(h) && fields_of(h) == manual_host_fields(
                n,
                web_source_id(),
                HostDisposition::Allow,
                now,
            ),
            Err(m) => is_bad_request(r, m),
        },
{
    manual_host("webmanaged", req.domain.as_str(), HostDisposition::Allow, now)
}

/// The source that holds the domains allowed from the web pages, made at `now` when
/// the database has none: managed by hand, and allowing its hosts.
pub fn web_managed_source(now: Timestamp) -> (r: Source)
    ensures
        r.id@ == web_source_id(),
        r.url is None,
        r.path is None,
        r.disposition == HostDisposition::Allow,
        r.created_at == now,
        r.updated_at == now,
{
    Source {
        id: "webmanaged".to_string(),
        url: None,
        path: None,
        disposition: HostDisposition::Allow,
        created_at: now,
        updated_at: now,
    }
}

/// The first part of the notice that a domain is allowed.
pub open spec fn allowed_notice_head() -> Seq<char> {
    "<div class=\"p-4 border border-green-200 dark:border-green-800 rounded bg-green-50 dark:bg-green-900/20\">\n            <p class=\"text-green-800 dark:text-green-200\">\n                <strong class=\"font-mono\">"@
}

/// The last part of the notice that a domain is allowed.
pub open spec fn allowed_notice_tail() -> Seq<char> {
    "</strong> has been allowlisted permanently\n            </p>\n        </div>"@
}

/// The notice that `name` is allowed from now on.
pub fn allowed_notice(name: &str) -> (r: String)
    ensures
        r@ == allowed_notice_head() + name@ + allowed_notice_tail(),
{
    let mut s = String::new();
    push_all(
        &mut s,
        "<div class=\"p-4 border border-green-200 dark:border-green-800 rounded bg-green-50 dark:bg-green-900/20\">\n            <p class=\"text-green-800 dark:text-green-200\">\n                <strong class=\"font-mono\">",
    );
    push_all(&mut s, name);
    push_all(&mut s, "</strong> has been allowlisted permanently\n            </p>\n        </div>");
    s
}

/// The page of a source.
pub fn source_page(id: &str) -> (r: String)
    ensures
        r@ == "/sources/"@ + id@,
{
    let mut s = String::new();
    push_all(&mut s, "/sources/");
    push_all(&mut s, id);
    s
}

/// The client a client page is about.
pub enum ClientTarget {
    /// The client that asks for the page.
    Current,
    /// A client by the address text in the path.
    Address(String),
}

/// The client that the path of a client page names: `self` names the client that
/// asks, anything else is an address text.
pub fn client_target(path: &str) -> (r: ClientTarget)
    ensures
        match r {
            ClientTarget::Current => path@ == "self"@,
            ClientTarget::Address(a) => path@ != "self"@ && a@ == path@,
        },
{
    if crate::text::str_eq(path, "self") {
        ClientTarget::Current
    } else {
        ClientTarget::Address(path.to_string())
    }
}

/// Whether a request comes from htmx: its `HX-Request` header reads `true`.
pub fn is_htmx_value(header: Option<&str>) -> (r: bool)
    ensures
        r == match header {
            Some(v) => v@ == "true"@,
            None => false,
        },
{
    match header {
        Some(v) => crate::text::str_eq(v, "true"),
        None => false,
    }
}

/// The address text a proxy header names: the text before its first comma, trimmed.
pub fn forwarded_address(value: &str) -> (r: String)
    ensures
        r@ == crate::text::trim(value@.take(crate::text::index_of(value@, ',') as int)),
{
    let v = chars_of(value);
    let end = crate::text::find_from(&v, ',', 0);
    proof {
        crate::text::lemma_next_index_of_bounds(v@, ',', 0);
    }
    let first = crate::text::sub_chars(&v, 0, end);
    assert(first@ =~= value@.take(crate::text::index_of(value@, ',') as int));
    crate::text::string_from(&crate::text::trimmed(&first))
}

/// A client as the client list shows it: its pause, when its address could be read
/// (`pause` is then the end of its pause, if it has one), seen at `now`.
pub fn client_row(ip: String, last_seen: Timestamp, pause: Option<Option<Timestamp>>, now: Timestamp) -> (r: ClientResponse)
    ensures
        r.ip == ip,
        r.last_seen == last_seen,
        r.is_paused == match pause {
            Some(p) => Some(spec_pause_active(p, now)),
            None => None::<bool>,
        },
        r.pause_expires == match pause {
            Some(p) => p,
            None => None::<Timestamp>,
        },
{
    match pause {
        Some(p) => ClientResponse {
            ip,
            last_seen,
            is_paused: Some(pause_active(p, now)),
            pause_expires: p,
        },
        None => ClientResponse { ip, last_seen, is_paused: None, pause_expires: None },
    }
}

} // verus!
