//! Secret vault rules: record names, workspace services, domain policies.
//!
//! Secrets are released only to exact HTTPS hosts of their policy.
use vstd::prelude::*;
use crate::text::{chars_of, contains, is_ascii_alnum, seq_eq, str_eq, trim};

verus! {

/// Why a vault operation was refused.
#[derive(Debug, Clone, Copy, PartialEq, Eq, Structural)]
pub enum VaultError {
    NotFound,
    Unavailable,
    InvalidRecord,
    DomainDenied,
}

impl VaultError {
    /// The text of the error.
    pub fn message(&self) -> (m: &'static str)
        ensures
            m@ == match self {
                VaultError::NotFound => "Secret was not found"@,
                VaultError::Unavailable => "Secure storage is unavailable or access was denied"@,
                VaultError::InvalidRecord => "Invalid secret name, record, or domain policy"@,
                VaultError::DomainDenied => "Secret is not permitted for this destination"@,
            },
    {
        match self {
            VaultError::NotFound => "Secret was not found",
            VaultError::Unavailable => "Secure storage is unavailable or access was denied",
            VaultError::InvalidRecord => "Invalid secret name, record, or domain policy",
            VaultError::DomainDenied => "Secret is not permitted for this destination",
        }
    }
}

/// A workspace id names a keychain service: ASCII letters, digits and dashes.
pub open spec fn valid_workspace_id(id: Seq<char>) -> bool {
    id.len() > 0 && forall|i: int| 0 <= i < id.len() ==> is_ascii_alnum(#[trigger] id[i]) || id[i] == '-'
}

/// A secret name: 1 to 128 ASCII letters, digits, underscores and dashes.
pub open spec fn valid_secret_name(name: Seq<char>) -> bool {
    0 < name.len() <= 128 && forall|i: int|
        0 <= i < name.len() ==> is_ascii_alnum(#[trigger] name[i]) || name[i] == '_' || name[i] == '-'
}

fn all_allowed(s: &[char], underscore: bool) -> (r: bool)
    ensures
        r == forall|i: int|
            0 <= i < s@.len() ==> is_ascii_alnum(#[trigger] s@[i]) || (underscore && s@[i] == '_')
                || s@[i] == '-',
{
    let mut i: usize = 0;
    while i < s.len()
        invariant
            i <= s.len(),
            forall|k: int|
                0 <= k < i ==> is_ascii_alnum(#[trigger] s@[k]) || (underscore && s@[k] == '_') || s@[k]
                    == '-',
        decreases s.len() - i,
    {
        let c = s[i];
        let ok = ('a' <= c && c <= 'z') || ('A' <= c && c <= 'Z') || ('0' <= c && c <= '9') || (
        underscore && c == '_') || c == '-';
        if !ok {
            return false;
        }
        i = i + 1;
    }
    true
}

/// Checks a secret name.
pub fn validate_name(name: &str) -> (r: Result<(), VaultError>)
    ensures
        r is Ok <==> valid_secret_name(name@),
        r matches Err(e) ==> e == VaultError::InvalidRecord,
{
    let chars = chars_of(name);
    if chars.len() == 0 || chars.len() > 128 || !all_allowed(&chars, true) {
        return Err(VaultError::InvalidRecord);
    }
    Ok(())
}

/// The keychain store of one workspace.
pub struct OsSecretStore {
    service: String,
}

impl OsSecretStore {
    pub closed spec fn service_name(self) -> Seq<char> {
        self.service@
    }

    /// The store of a workspace, as the service `dev.packetsmith.vault.v1.`
    /// followed by its id; ids other than ASCII letters, digits and dashes
    /// are refused.
    pub fn new(workspace_id: &str) -> (r: Result<Self, VaultError>)
        ensures
            match r {
                Ok(s) => valid_workspace_id(workspace_id@) && s.service_name()
                    == "dev.packetsmith.vault.v1."@ + workspace_id@,
                Err(e) => !valid_workspace_id(workspace_id@) && e == VaultError::InvalidRecord,
            },
    {
        let chars = chars_of(workspace_id);
        if chars.len() == 0 || !all_allowed(&chars, false) {
            return Err(VaultError::InvalidRecord);
        }
        let mut service = "dev.packetsmith.vault.v1.".to_owned();
        service.push_str(workspace_id);
        Ok(OsSecretStore { service })
    }

    /// The keychain service name.
    pub fn service(&self) -> (r: &str)
        ensures
            r@ == self.service_name(),
    {
        self.service.as_str()
    }
}

// ---------------------------------------------------------------------------
// Domain policies
// ---------------------------------------------------------------------------

/// The scheme, user name, whether a password is present, and the host that
/// `url::Url::parse` finds in a destination URL; `None` when it does not parse.
pub uninterp spec fn destination_parts(destination: Seq<char>) -> Option<
    (Seq<char>, Seq<char>, bool, Option<Seq<char>>),
>;

/// Parses a destination with `url::Url::parse` and takes its scheme, user
/// name, password presence and host; the result is named `destination_parts`.
#[verifier::external_body]
pub(crate) fn parse_destination(destination: &str) -> (r: Option<(String, String, bool, Option<String>)>)
    ensures
        match r {
            Some(p) => destination_parts(destination@) == Some(
                (
                    p.0@,
                    p.1@,
                    p.2,
                    match p.3 {
                        Some(h) => Some(h@),
                        None => None,
                    },
                ),
            ),
            None => destination_parts(destination@) is None,
        },
{
    url::Url::parse(destination).ok().map(
        |u| (u.scheme().to_owned(), u.username().to_owned(), u.password().is_some(), u.host_str().map(str::to_owned)),
    )
}

/// The host of the URL `https://` followed by a domain, as `url::Url::parse`
/// finds it.
pub open spec fn https_host(domain: Seq<char>) -> Option<Seq<char>> {
    match destination_parts("https://"@ + domain) {
        Some(p) => p.3,
        None => None,
    }
}

/// The host of `https://` followed by `domain`.
fn parse_https_host(domain: &str) -> (r: Option<String>)
    ensures
        match r {
            Some(h) => https_host(domain@) == Some(h@),
            None => https_host(domain@) is None,
        },
{
    let mut url = "https://".to_owned();
    url.push_str(domain);
    match parse_destination(url.as_str()) {
        Some(parts) => parts.3,
        None => None,
    }
}

/// Whether a domain is written plainly: not empty, without URL syntax
/// (`/ : @ ? # * % \`), surrounding white space, or a final dot.
pub open spec fn plain_domain(d: Seq<char>) -> bool {
    &&& d.len() > 0
    &&& forall|i: int|
        0 <= i < d.len() ==> !(#[trigger] d[i] == '/' || d[i] == ':' || d[i] == '@' || d[i] == '?'
            || d[i] == '#' || d[i] == '*' || d[i] == '%' || d[i] == '\\')
    &&& crate::text::trim_seq(d) == d
    &&& d.last() != '.'
}

fn no_url_syntax(d: &[char]) -> (r: bool)
    ensures
        r == forall|i: int|
            0 <= i < d@.len() ==> !(#[trigger] d@[i] == '/' || d@[i] == ':' || d@[i] == '@' || d@[i]
                == '?' || d@[i] == '#' || d@[i] == '*' || d@[i] == '%' || d@[i] == '\\'),
{
    let mut i: usize = 0;
    while i < d.len()
        invariant
            i <= d.len(),
            forall|k: int|
                0 <= k < i ==> !(#[trigger] d@[k] == '/' || d@[k] == ':' || d@[k] == '@' || d@[k]
                    == '?' || d@[k] == '#' || d@[k] == '*' || d@[k] == '%' || d@[k] == '\\'),
        decreases d.len() - i,
    {
        let c = d[i];
        if c == '/' || c == ':' || c == '@' || c == '?' || c == '#' || c == '*' || c == '%' || c
            == '\\' {
            return false;
        }
        i = i + 1;
    }
    true
}

/// The canonical host of a policy domain: a plainly written domain whose
/// `https://` URL has a host; anything else is an invalid record.
pub fn canonical_domain(domain: &str) -> (r: Result<String, VaultError>)
    ensures
        match r {
            Ok(h) => plain_domain(domain@) && https_host(domain@) == Some(h@),
            Err(e) => e == VaultError::InvalidRecord && (!plain_domain(domain@) || https_host(
                domain@,
            ) is None),
        },
{
    let d = chars_of(domain);
    let trimmed = trim(domain);
    if d.len() == 0 || !no_url_syntax(&d) || !str_eq(trimmed.as_str(), domain) || d[d.len() - 1]
        == '.' {
        return Err(VaultError::InvalidRecord);
    }
    match parse_https_host(domain) {
        Some(h) => Ok(h),
        None => Err(VaultError::InvalidRecord),
    }
}

/// The host a secret may be sent to: an `https` destination without user
/// information, with a host; anything else is denied.
pub open spec fn destination_host(destination: Seq<char>) -> Option<Seq<char>> {
    match destination_parts(destination) {
        Some((scheme, user, has_password, host)) => if scheme == "https"@ && user.len() == 0
            && !has_password {
            host
        } else {
            None
        },
        None => None,
    }
}

/// The host a destination may receive secrets at; anything that is not an
/// `https` URL without user information and with a host is denied.
pub fn destination_host_of(destination: &str) -> (r: Result<String, VaultError>)
    ensures
        match r {
            Ok(h) => destination_host(destination@) == Some(h@),
            Err(e) => e == VaultError::DomainDenied && destination_host(destination@) is None,
        },
{
    match parse_destination(destination) {
        Some((scheme, user, has_password, host)) => {
            if !str_eq(scheme.as_str(), "https") || !user.as_str().is_empty() || has_password {
                return Err(VaultError::DomainDenied);
            }
            match host {
                Some(h) => Ok(h),
                None => Err(VaultError::DomainDenied),
            }
        },
        None => Err(VaultError::DomainDenied),
    }
}

/// Whether a policy names the host exactly.
pub fn allows_host(allowed_domains: &Vec<String>, host: &str) -> (r: bool)
    ensures
        r == exists|i: int| 0 <= i < allowed_domains@.len() && (#[trigger] allowed_domains@[i])@ == host@,
{
    let mut i: usize = 0;
    while i < allowed_domains.len()
        invariant
            i <= allowed_domains.len(),
            forall|k: int| 0 <= k < i ==> (#[trigger] allowed_domains@[k])@ != host@,
        decreases allowed_domains.len() - i,
    {
        if str_eq(allowed_domains[i].as_str(), host) {
            return true;
        }
        i = i + 1;
    }
    false
}

/// Checks a destination against a policy: exact host match only, no
/// suffixes, wildcards or plain HTTP.
pub fn check_destination(destination: &str, allowed_domains: &Vec<String>) -> (r: Result<(), VaultError>)
    ensures
        r is Ok <==> (destination_host(destination@) matches Some(h) && exists|i: int|
            0 <= i < allowed_domains@.len() && (#[trigger] allowed_domains@[i])@ == h),
        r matches Err(e) ==> e == VaultError::DomainDenied,
{
    let host = destination_host_of(destination)?;
    if allows_host(allowed_domains, host.as_str()) {
        Ok(())
    } else {
        Err(VaultError::DomainDenied)
    }
}

// ---------------------------------------------------------------------------
// Records
// ---------------------------------------------------------------------------

/// The canonical host of a policy domain, if it has one.
pub open spec fn canonical_of(d: Seq<char>) -> Option<Seq<char>> {
    if plain_domain(d) {
        https_host(d)
    } else {
        None
    }
}

/// What the keychain holds for one secret: the value, the exact hosts it
/// may be sent to, and tags. Only version 1 exists.
pub struct VaultRecord {
    pub version: u32,
    pub value: String,
    pub allowed_domains: Vec<String>,
    pub tags: Vec<String>,
}

/// The record of a new secret: the name must be valid and every domain of
/// the policy is stored in canonical form. An empty policy denies every
/// destination.
pub fn new_record(
    name: &str,
    value: String,
    allowed_domains: &Vec<String>,
    tags: Vec<String>,
) -> (r: Result<VaultRecord, VaultError>)
    ensures
        match r {
            Ok(rec) => {
                &&& valid_secret_name(name@)
                &&& rec.version == 1
                &&& rec.value == value
                &&& rec.tags == tags
                &&& rec.allowed_domains@.len() == allowed_domains@.len()
                &&& forall|i: int|
                    0 <= i < allowed_domains@.len() ==> canonical_of(
                        #[trigger] allowed_domains@[i]@,
                    ) == Some(rec.allowed_domains@[i]@)
            },
            Err(e) => e == VaultError::InvalidRecord && (!valid_secret_name(name@) || exists|i: int|
                0 <= i < allowed_domains@.len() && canonical_of(#[trigger] allowed_domains@[i]@) is None),
        },
{
    validate_name(name)?;
    let mut domains: Vec<String> = Vec::new();
    let mut i: usize = 0;
    while i < allowed_domains.len()
        invariant
            i <= allowed_domains.len(),
            domains@.len() == i,
            forall|k: int|
                0 <= k < i ==> canonical_of(#[trigger] allowed_domains@[k]@) == Some(domains@[k]@),
        decreases allowed_domains.len() - i,
    {
        match canonical_domain(allowed_domains[i].as_str()) {
            Ok(h) => {
                domains.push(h);
            },
            Err(e) => {
                assert(canonical_of(allowed_domains@[i as int]@) is None);
                return Err(e);
            },
        }
        i = i + 1;
    }
    Ok(VaultRecord { version: 1, value, allowed_domains: domains, tags })
}

/// Checks a record read back from the keychain: version 1, and every domain
/// still canonical.
pub fn check_record(record: &VaultRecord) -> (r: Result<(), VaultError>)
    ensures
        r is Ok <==> (record.version == 1 && forall|i: int|
            0 <= i < record.allowed_domains@.len() ==> canonical_of(
                #[trigger] record.allowed_domains@[i]@,
            ) is Some),
        r matches Err(e) ==> e == VaultError::InvalidRecord,
{
    if record.version != 1 {
        return Err(VaultError::InvalidRecord);
    }
    let mut i: usize = 0;
    while i < record.allowed_domains.len()
        invariant
            i <= record.allowed_domains@.len(),
            forall|k: int| 0 <= k < i ==> canonical_of(#[trigger] record.allowed_domains@[k]@) is Some,
        decreases record.allowed_domains.len() - i,
    {
        if canonical_domain(record.allowed_domains[i].as_str()).is_err() {
            return Err(VaultError::InvalidRecord);
        }
        i = i + 1;
    }
    Ok(())
}

/// Number of UTF-16 code units of a text.
pub open spec fn utf16_len(s: Seq<char>) -> nat
    decreases s.len(),
{
    if s.len() == 0 {
        0
    } else {
        utf16_len(s.drop_last()) + if (s.last() as u32) >= 0x10000 {
            2nat
        } else {
            1nat
        }
    }
}

/// Longest encoded record the keychain takes, in UTF-16 code units (the
/// Windows credential limit is 2560 bytes).
pub const MAX_RECORD_UTF16_UNITS: usize = 1200;

/// Whether an encoded record fits the keychain.
pub fn fits_keychain(encoded: &str) -> (r: bool)
    ensures
        r == (utf16_len(encoded@) <= MAX_RECORD_UTF16_UNITS),
{
    let chars = chars_of(encoded);
    let mut count: usize = 0;
    let mut i: usize = 0;
    assert(chars@.take(0) =~= Seq::<char>::empty());
    while i < chars.len()
        invariant
            i <= chars@.len(),
            chars@ == encoded@,
            count == utf16_len(chars@.take(i as int)),
            count <= MAX_RECORD_UTF16_UNITS,
        decreases chars.len() - i,
    {
        assert(chars@.take(i + 1).drop_last() =~= chars@.take(i as int));
        let c = chars[i];
        if (c as u32) >= 0x10000 {
            count = count + 2;
        } else {
            count = count + 1;
        }
        if count > MAX_RECORD_UTF16_UNITS {
            proof {
                lemma_utf16_len_prefix(chars@, i + 1);
            }
            return false;
        }
        i = i + 1;
    }
    assert(chars@.take(i as int) =~= chars@);
    true
}

proof fn lemma_utf16_len_prefix(s: Seq<char>, n: int)
    requires
        0 <= n <= s.len(),
    ensures
        utf16_len(s.take(n)) <= utf16_len(s),
    decreases s.len() - n,
{
    if n < s.len() {
        lemma_utf16_len_prefix(s, n + 1);
        assert(s.take(n + 1).drop_last() =~= s.take(n));
    } else {
        assert(s.take(n) =~= s);
    }
}

} // verus!
