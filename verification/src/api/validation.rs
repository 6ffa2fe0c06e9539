//! Checks on identifiers and names that API clients send.

use vstd::prelude::*;
use vstd::string::StringSliceAdditionalSpecFns;
use vstd::utf8::encode_utf8;
use crate::api::ApiError;
use crate::parse::is_alnum;
use crate::parser::{count_char, count_occurrences, starts_with_wildcard};
use crate::text::{chars_of, string_from};

verus! {

broadcast use vstd::string::group_string_axioms;

/// A source id is between 1 and 64 bytes long (in UTF-8).
pub open spec fn source_id_length_ok(id: Seq<char>) -> bool {
    id.len() > 0 && encode_utf8(id).len() <= 64
}

/// A source id holds only ASCII letters, digits and hyphens.
pub open spec fn source_id_chars_ok(id: Seq<char>) -> bool {
    forall|i: int| 0 <= i < id.len() ==> is_alnum(#[trigger] id[i]) || id[i] == '-'
}

/// A valid source id: 1 to 64 bytes of ASCII letters, digits and hyphens.
pub open spec fn spec_valid_source_id(id: Seq<char>) -> bool {
    source_id_length_ok(id) && source_id_chars_ok(id)
}

/// Checks a source id: an error for a bad length, else an error for a bad character.
pub fn validate_source_id(id: &str) -> (r: Result<(), ApiError>)
    ensures
        r is Ok <==> spec_valid_source_id(id@),
        !source_id_length_ok(id@) ==> (r matches Err(ApiError::BadRequest(m))
            && m@ == "Source ID must be between 1 and 64 characters"@),
        source_id_length_ok(id@) && !source_id_chars_ok(id@) ==> (r matches Err(
            ApiError::BadRequest(m),
        ) && m@ == "Source ID must contain only alphanumeric characters and hyphens"@),
{
    if id.is_empty() || id.as_bytes().len() > 64 {
        return Err(ApiError::BadRequest("Source ID must be between 1 and 64 characters".to_string()));
    }
    let v = chars_of(id);
    assert(id.spec_bytes() == encode_utf8(id@));
    let mut i: usize = 0;
    while i < v.len()
        invariant
            v@ == id@,
            source_id_length_ok(id@),
            i <= v.len(),
            forall|j: int| 0 <= j < i ==> is_alnum(#[trigger] v@[j]) || v@[j] == '-',
        decreases v.len() - i,
    {
        let c = v[i];
        if !(('a' <= c && c <= 'z') || ('A' <= c && c <= 'Z') || ('0' <= c && c <= '9') || c
            == '-') {
            return Err(
                ApiError::BadRequest(
                    "Source ID must contain only alphanumeric characters and hyphens".to_string(),
                ),
            );
        }
        i = i + 1;
    }
    Ok(())
}

/// A character the domain pattern allows after the optional `*.` (`[a-zA-Z0-9.-]`).
pub open spec fn is_domain_char(c: char) -> bool {
    is_alnum(c) || c == '.' || c == '-'
}

/// `name` with a `.` appended unless it ends with one.
pub open spec fn with_trailing_dot(name: Seq<char>) -> Seq<char> {
    if name.len() > 0 && name.last() == '.' {
        name
    } else {
        name.push('.')
    }
}

/// `n` without a leading `*.`.
pub open spec fn after_wildcard(n: Seq<char>) -> Seq<char> {
    if starts_with_wildcard(n) {
        n.subrange(2, n.len() as int)
    } else {
        n
    }
}

/// The domain pattern `(\*\.)?[a-zA-Z0-9.-]+\.` over the whole name: after an optional
/// leading `*.`, at least one allowed character and then a final `.`.
pub open spec fn matches_domain_pattern(n: Seq<char>) -> bool {
    let rest = after_wildcard(n);
    &&& rest.len() >= 2
    &&& rest.last() == '.'
    &&& forall|i: int| 0 <= i < rest.len() ==> is_domain_char(#[trigger] rest[i])
}

/// What `validate_and_normalize_domain` gives for a name, by error message or normal form.
pub open spec fn spec_validate_domain(name: Seq<char>) -> Result<Seq<char>, Seq<char>> {
    if name.len() == 0 {
        Err("Domain name cannot be empty"@)
    } else {
        let n = with_trailing_dot(name);
        if starts_with_wildcard(n) && count_char(n, '.') < 3 {
            Err("Wildcard domains must have at least 2 labels (e.g., *.example.com)"@)
        } else if !matches_domain_pattern(n) {
            Err("Domain name contains invalid characters"@)
        } else {
            Ok(n)
        }
    }
}

/// A name that validation accepts comes back fully qualified, and validating that form again
/// accepts it unchanged.
pub proof fn law_validated_domain_fixpoint(name: Seq<char>)
    requires
        spec_validate_domain(name) is Ok,
    ensures
        spec_validate_domain(name)->Ok_0.last() == '.',
        spec_validate_domain(spec_validate_domain(name)->Ok_0) == spec_validate_domain(name),
{
    let n = with_trailing_dot(name);
    assert(n.last() == '.');
    assert(with_trailing_dot(n) == n);
}

/// A character that a domain name may hold after its optional `*.`: an ASCII letter
/// or digit, `.` or `-`.
pub open spec fn allowed_domain_char(c: char) -> bool {
    ('a' <= c && c <= 'z') || ('A' <= c && c <= 'Z') || ('0' <= c && c <= '9') || c == '.' || c
        == '-'
}

/// Domain validation accepts exactly the names of ASCII letters, digits, `.` and `-`
/// (after an optional `*.`): a name that is no wildcard, made of those characters,
/// with at least one character before its final `.` (added when missing), is
/// accepted in that dotted form; and every name accepted holds only those
/// characters after its `*.`, and ends with `.`.
pub proof fn law_domain_characters(name: Seq<char>)
    ensures
        (name.len() > 0 && (forall|i: int| 0 <= i < name.len() ==> allowed_domain_char(#[trigger] name[i]))
            && (if name.last() == '.' { name.len() >= 2 } else { true })) ==> spec_validate_domain(name)
            == Ok::<Seq<char>, Seq<char>>(if name.last() == '.' {
            name
        } else {
            name.push('.')
        }),
        spec_validate_domain(name) matches Ok(n) ==> n.last() == '.' && forall|i: int|
            (if starts_with_wildcard(n) { 2int } else { 0int }) <= i < n.len() ==> allowed_domain_char(
                #[trigger] n[i],
            ),
{
    if name.len() > 0 {
        let n = with_trailing_dot(name);
        if forall|i: int| 0 <= i < name.len() ==> allowed_domain_char(#[trigger] name[i]) {
            assert(!starts_with_wildcard(n)) by {
                assert(n[0] == name[0]);
                assert(allowed_domain_char(name[0]));
            }
            assert(after_wildcard(n) == n);
            assert forall|i: int| 0 <= i < n.len() implies is_domain_char(#[trigger] n[i]) by {
                if i < name.len() {
                    assert(n[i] == name[i]);
                    assert(allowed_domain_char(name[i]));
                }
            }
        }
        if spec_validate_domain(name) is Ok {
            let rest = after_wildcard(n);
            assert forall|i: int|
                (if starts_with_wildcard(n) { 2int } else { 0int }) <= i < n.len() implies allowed_domain_char(
                #[trigger] n[i],
            ) by {
                let off = if starts_with_wildcard(n) { 2int } else { 0int };
                assert(n[i] == rest[i - off]);
                assert(is_domain_char(rest[i - off]));
            }
        }
    }
}

fn domain_pattern_chars(n: &Vec<char>) -> (r: bool)
    ensures
        r == matches_domain_pattern(n@),
{
    let start: usize = if n.len() >= 2 && n[0] == '*' && n[1] == '.' {
        2
    } else {
        0
    };
    let ghost rest = if starts_with_wildcard(n@) {
        n@.subrange(2, n@.len() as int)
    } else {
        n@
    };
    assert(rest =~= n@.subrange(start as int, n@.len() as int));
    if n.len() < start + 2 {
        return false;
    }
    assert(rest.last() == n@[n.len() - 1]);
    if n[n.len() - 1] != '.' {
        return false;
    }
    let mut i = start;
    while i < n.len()
        invariant
            start <= i <= n.len(),
            rest == n@.subrange(start as int, n@.len() as int),
            rest == after_wildcard(n@),
            rest.len() >= 2,
            rest.last() == '.',
            forall|j: int| 0 <= j < i - start ==> is_domain_char(#[trigger] rest[j]),
        decreases n.len() - i,
    {
        let c = n[i];
        if !(('a' <= c && c <= 'z') || ('A' <= c && c <= 'Z') || ('0' <= c && c <= '9') || c
            == '.' || c == '-') {
            assert(rest[i - start] == c);
            assert(!is_domain_char(rest[i - start]));
            return false;
        }
        assert(rest[i - start] == c);
        i = i + 1;
    }
    true
}

/// Checks a domain name that a client sends and gives its fully qualified form:
/// refused when empty, when a wildcard has fewer than two labels after it, or when
/// it does not match the domain pattern.
pub fn validate_and_normalize_domain(name: &str) -> (r: Result<String, ApiError>)
    ensures
        match r {
            Ok(n) => spec_validate_domain(name@) == Ok::<Seq<char>, Seq<char>>(n@),
            Err(ApiError::BadRequest(m)) => spec_validate_domain(name@) == Err::<
                Seq<char>,
                Seq<char>,
            >(m@),
            Err(_) => false,
        },
{
    let mut v = chars_of(name);
    if v.len() == 0 {
        return Err(ApiError::BadRequest("Domain name cannot be empty".to_string()));
    }
    if v[v.len() - 1] != '.' {
        v.push('.');
    }
    assert(v@ == with_trailing_dot(name@));
    if v.len() >= 2 && v[0] == '*' && v[1] == '.' {
        let dots = count_occurrences(&v, '.');
        if dots < 3 {
            return Err(
                ApiError::BadRequest(
                    "Wildcard domains must have at least 2 labels (e.g., *.example.com)".to_string(),
                ),
            );
        }
    }
    if !domain_pattern_chars(&v) {
        return Err(ApiError::BadRequest("Domain name contains invalid characters".to_string()));
    }
    Ok(string_from(&v))
}

} // verus!
