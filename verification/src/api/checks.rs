//! What the handlers of the API and the web pages decide about a request: which
//! requests are refused and with what message, and the records they store.

use vstd::prelude::*;
use crate::api::{is_bad_request, ApiError, ApiErrorView};
use crate::api::model::CreateSourceRequest;
use crate::api::validation::{spec_valid_source_id, spec_validate_domain, validate_and_normalize_domain, validate_source_id};
use crate::model::{has_file_prefix, starts_with_file_prefix, HostDisposition, Source, SourceHost, Timestamp};
use crate::text::push_all;

verus! {

/// Where a request comes from: the JSON API or the web pages. Some messages differ.
#[derive(Debug, PartialEq, Eq, Structural, Clone, Copy)]
pub enum Front {
    Api,
    Web,
}

/// The message for a source id that names no source.
pub open spec fn not_found_message(id: Seq<char>) -> Seq<char> {
    "Source "@ + id + " not found"@
}

/// The error for a source id that names no source.
pub fn source_not_found(id: &str) -> (r: ApiError)
    ensures
        r@ == ApiErrorView::NotFound(not_found_message(id@)),
{
    let mut m = String::new();
    push_all(&mut m, "Source ");
    push_all(&mut m, id);
    push_all(&mut m, " not found");
    ApiError::NotFound(m)
}

/// The message for a source id with the reserved `file-` prefix.
pub open spec fn reserved_prefix_message() -> Seq<char> {
    "Source IDs starting with 'file-' are reserved for system-managed file sources"@
}

/// What the checks of a new source id give: the message of the first that fails.
pub open spec fn spec_check_new_source_id(id: Seq<char>) -> Option<Seq<char>> {
    if !spec_valid_source_id(id) {
        Some(
            if !crate::api::validation::source_id_length_ok(id) {
                "Source ID must be between 1 and 64 characters"@
            } else {
                "Source ID must contain only alphanumeric characters and hyphens"@
            },
        )
    } else if has_file_prefix(id) {
        Some(reserved_prefix_message())
    } else {
        None
    }
}

/// Checks the id of a source that a client creates: it must be a valid source id,
/// and the `file-` prefix is kept for sources made from list files.
pub fn check_new_source_id(id: &str) -> (r: Result<(), ApiError>)
    ensures
        match spec_check_new_source_id(id@) {
            None => r is Ok,
            Some(m) => is_bad_request(r, m),
        },
{
    match validate_source_id(id) {
        Err(e) => {
            return Err(e);
        },
        Ok(()) => {},
    }
    if starts_with_file_prefix(id) {
        return Err(
            ApiError::BadRequest(
                "Source IDs starting with 'file-' are reserved for system-managed file sources".to_string(),
            ),
        );
    }
    Ok(())
}

/// The source a client creates: no path, and both times set to `now`.
pub open spec fn client_source(id: String, url: Option<String>, d: HostDisposition, now: Timestamp) -> Source {
    Source { id, url, path: None, disposition: d, created_at: now, updated_at: now }
}

/// The source that a create request asks for, created at `now`; the request's path
/// is not taken. Refused when the id is invalid or reserved. A source with a URL is
/// then loaded at once.
pub fn source_from_request(req: CreateSourceRequest, now: Timestamp) -> (r: Result<Source, ApiError>)
    ensures
        match spec_check_new_source_id(req.id@) {
            None => r == Ok::<Source, ApiError>(client_source(req.id, req.url, req.disposition, now)),
            Some(m) => is_bad_request(r, m),
        },
{
    match check_new_source_id(req.id.as_str()) {
        Err(e) => Err(e),
        Ok(()) => Ok(
            Source {
                id: req.id,
                url: req.url,
                path: None,
                disposition: req.disposition,
                created_at: now,
                updated_at: now,
            },
        ),
    }
}

/// The message for deleting a file-managed source.
pub open spec fn file_managed_delete_message(front: Front) -> Seq<char> {
    match front {
        Front::Api => "Cannot delete file-managed sources via API. Remove the file from the directory instead."@,
        Front::Web => "Cannot delete file-managed sources. Remove the file from the directory instead."@,
    }
}

/// Checks that a source may be deleted by a client: a file-managed one may not.
pub fn check_deletable(source: &Source, front: Front) -> (r: Result<(), ApiError>)
    ensures
        source.spec_is_file_managed() ==> is_bad_request(r, file_managed_delete_message(front)),
        !source.spec_is_file_managed() ==> r is Ok,
{
    if source.is_file_managed() {
        match front {
            Front::Api => Err(
                ApiError::BadRequest(
                    "Cannot delete file-managed sources via API. Remove the file from the directory instead.".to_string(),
                ),
            ),
            Front::Web => Err(
                ApiError::BadRequest(
                    "Cannot delete file-managed sources. Remove the file from the directory instead.".to_string(),
                ),
            ),
        }
    } else {
        Ok(())
    }
}

/// The message for reloading a source managed by hand.
pub open spec fn manual_reload_message() -> Seq<char> {
    "Cannot reload manually-managed source (no URL or path defined)"@
}

/// Checks that a source may be reloaded: one managed by hand has nothing to reload from.
pub fn check_reloadable(source: &Source) -> (r: Result<(), ApiError>)
    ensures
        source.spec_is_manual() ==> is_bad_request(r, manual_reload_message()),
        !source.spec_is_manual() ==> r is Ok,
{
    if source.url.is_none() && source.path.is_none() {
        Err(
            ApiError::BadRequest(
                "Cannot reload manually-managed source (no URL or path defined)".to_string(),
            ),
        )
    } else {
        Ok(())
    }
}

/// A change to the hosts of a source.
#[derive(Debug, PartialEq, Eq, Structural, Clone, Copy)]
pub enum HostEdit {
    Add,
    Delete,
}

/// The message for changing by hand the hosts of a source that is loaded from a URL
/// or a file.
pub open spec fn managed_hosts_message(edit: HostEdit, front: Front) -> Seq<char> {
    match (edit, front) {
        (HostEdit::Add, Front::Api) => "Cannot manually add hosts to automatically-managed sources"@,
        (HostEdit::Delete, Front::Api) => "Cannot manually delete hosts from automatically-managed sources"@,
        (HostEdit::Add, Front::Web) => "Cannot manually add hosts to automatically-managed source"@,
        (HostEdit::Delete, Front::Web) => "Cannot manually delete hosts from automatically-managed source"@,
    }
}

/// Checks that a client may add or delete hosts of a source: only of one managed by
/// hand.
pub fn check_host_edit(source: &Source, edit: HostEdit, front: Front) -> (r: Result<(), ApiError>)
    ensures
        !source.spec_is_manual() ==> is_bad_request(r, managed_hosts_message(edit, front)),
        source.spec_is_manual() ==> r is Ok,
{
    if source.url.is_some() || source.path.is_some() {
        let m = match (edit, front) {
            (HostEdit::Add, Front::Api) => "Cannot manually add hosts to automatically-managed sources",
            (HostEdit::Delete, Front::Api) => "Cannot manually delete hosts from automatically-managed sources",
            (HostEdit::Add, Front::Web) => "Cannot manually add hosts to automatically-managed source",
            (HostEdit::Delete, Front::Web) => "Cannot manually delete hosts from automatically-managed source",
        };
        Err(ApiError::BadRequest(m.to_string()))
    } else {
        Ok(())
    }
}

/// The entry a client adds by hand: both times set to `now`.
pub open spec fn manual_host_fields(name: Seq<char>, source_id: Seq<char>, d: HostDisposition, now: Timestamp) -> (Seq<char>, Seq<char>, HostDisposition, Timestamp, Timestamp) {
    (name, source_id, d, now, now)
}

/// The fields of a host entry.
pub open spec fn fields_of(h: SourceHost) -> (Seq<char>, Seq<char>, HostDisposition, Timestamp, Timestamp) {
    (h.name@, h.source_id@, h.disposition, h.created_at, h.updated_at)
}

/// The entry for host `name` that a client adds by hand to `source_id` at `now`,
/// under the name's fully qualified form; refused as the name check refuses it.
pub fn manual_host(source_id: &str, name: &str, disposition: HostDisposition, now: Timestamp) -> (r: Result<SourceHost, ApiError>)
    ensures
        match spec_validate_domain(name@) {
            Ok(n) => r matches Ok(h) && fields_of(h) == manual_host_fields(n, source_id@, disposition, now),
            Err(m) => is_bad_request(r, m),
        },
{
    match validate_and_normalize_domain(name) {
        Ok(n) => Ok(
            SourceHost {
                name: n,
                source_id: source_id.to_string(),
                disposition,
                created_at: now,
                updated_at: now,
            },
        ),
        Err(e) => {
            proof {
                assert(e matches ApiError::BadRequest(_));
            }
            Err(e)
        },
    }
}

} // verus!
