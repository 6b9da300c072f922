//! Tenant identities: UUID parsing and rendering, registry resolution, row
//! quotas and per-tenant dataset paths.

use vstd::prelude::*;
use crate::error::NebulaError;
use crate::hashing::hex_char;
use crate::text::{push_char, append_str, chars_of, decimal, decimal_string, owned, trim, trim_str};

verus! {

/// Root directory of the per-tenant dataset volumes.
pub const TENANT_DATASET_PREFIX: &'static str = "/mnt/forge/tenants";

/// Maximum number of dataset rows a tenant may hold.
pub const TENANT_ROW_QUOTA: usize = 50000;

/// The UUID namespace for URLs (RFC 9562), as a 128-bit big-endian value.
pub const NAMESPACE_URL: u128 = 0x6ba7b8119dad11d180b400c04fd430c8u128;

/// A tenant identity: a UUID held as its 128-bit big-endian value.
#[derive(Debug, Clone, Copy, PartialEq, Eq, Hash, PartialOrd, Ord)]
pub struct TenantId(pub u128);

// ---------------------------------------------------------------------------
// UUID rendering and parsing
// ---------------------------------------------------------------------------

/// Hex digit `k` (0 = most significant) of the 32 digits of `v`: the four
/// bits of `v` that start `4 * (31 - k)` bits from the least significant.
pub open spec fn uuid_nibble(v: u128, k: int) -> int {
    ((v >> ((124 - 4 * k) as u32)) & 15u128) as int
}

/// The 32 lowercase hex digits of `v`, most significant first.
pub open spec fn uuid_simple(v: u128) -> Seq<char> {
    Seq::new(32, |k: int| hex_char(uuid_nibble(v, k)))
}

/// The hyphenated lowercase form `8-4-4-4-12` of the UUID with value `v`.
pub open spec fn uuid_hyphenated(v: u128) -> Seq<char> {
    let s = uuid_simple(v);
    s.subrange(0, 8) + seq!['-'] + s.subrange(8, 12) + seq!['-'] + s.subrange(12, 16) + seq!['-']
        + s.subrange(16, 20) + seq!['-'] + s.subrange(20, 32)
}

/// The number of bytes of the UTF-8 encoding of `s`.
pub open spec fn utf8_len(s: Seq<char>) -> nat {
    vstd::utf8::encode_utf8(s).len()
}

/// The value that `uuid::Uuid::parse_str` reads from `s`, if it accepts `s`.
pub uninterp spec fn spec_uuid_parse(s: Seq<char>) -> Option<u128>;

/// Calls `uuid::Uuid::parse_str` and takes `as_u128` of an accepted value.
/// The result is named by `spec_uuid_parse`. The contract also states two
/// facts from the crate's source and documentation: the hyphenated form that
/// the crate prints is accepted back with the same value, and an input whose
/// UTF-8 length is not 32, 36, 38 or 45 bytes is refused.
#[verifier::external_body]
fn uuid_parse(s: &str) -> (r: Option<u128>)
    ensures
        r == spec_uuid_parse(s@),
        forall|v: u128| s@ == uuid_hyphenated(v) ==> r == Some(v),
        !(utf8_len(s@) == 32 || utf8_len(s@) == 36 || utf8_len(s@) == 38 || utf8_len(s@) == 45)
            ==> r is None,
{
    uuid::Uuid::parse_str(s).ok().map(|u| u.as_u128())
}

/// The hyphenated lowercase form of the UUID with value `v`, as `uuid`
/// prints it (`Display` delegates to `LowerHex`): 32 hex digits in groups of
/// 8, 4, 4, 4 and 12.
fn uuid_to_string(v: u128) -> (s: String)
    ensures
        s@ == uuid_hyphenated(v),
{
    let mut digits: Vec<char> = Vec::new();
    let mut k: u32 = 0;
    while k < 32
        invariant
            k <= 32,
            digits@ == uuid_simple(v).take(k as int),
        decreases 32 - k,
    {
        let shift: u32 = 124 - 4 * k;
        let nibble: u128 = (v >> shift) & 15u128;
        assert(((v >> shift) & 15u128) < 16) by (bit_vector);
        let c = crate::hashing::hex_char_exec(nibble as u8);
        proof {
            assert(uuid_nibble(v, k as int) == nibble as int);
            assert(uuid_simple(v).take(k + 1) =~= uuid_simple(v).take(k as int).push(c));
        }
        digits.push(c);
        k = k + 1;
    }
    assert(uuid_simple(v).take(32) =~= uuid_simple(v));
    let mut s = crate::text::string_of_range(&digits, 0, 8);
    push_char(&mut s, '-');
    append_str(&mut s, crate::text::string_of_range(&digits, 8, 12).as_str());
    push_char(&mut s, '-');
    append_str(&mut s, crate::text::string_of_range(&digits, 12, 16).as_str());
    push_char(&mut s, '-');
    append_str(&mut s, crate::text::string_of_range(&digits, 16, 20).as_str());
    push_char(&mut s, '-');
    append_str(&mut s, crate::text::string_of_range(&digits, 20, 32).as_str());
    s
}

/// The version-5 (SHA-1, name-based) UUID of `name` in `namespace`, as
/// `uuid::Uuid::new_v5` computes it.
pub uninterp spec fn spec_uuid_v5(namespace: u128, name: Seq<u8>) -> u128;

/// Calls `uuid::Uuid::new_v5`; the result is named by `spec_uuid_v5`.
#[verifier::external_body]
fn uuid_v5(namespace: u128, name: &[u8]) -> (r: u128)
    ensures
        r == spec_uuid_v5(namespace, name@),
{
    uuid::Uuid::new_v5(&uuid::Uuid::from_u128(namespace), name).as_u128()
}

impl TenantId {
    /// The lowercase hyphenated rendering of the id.
    pub fn to_hyphenated(&self) -> (s: String)
        ensures
            s@ == uuid_hyphenated(self.0),
    {
        uuid_to_string(self.0)
    }

    /// Parses a tenant id from any form that `uuid::Uuid::parse_str` accepts.
    /// The hyphenated rendering of an id parses back to that id.
    pub fn parse(raw: &str) -> (r: Option<TenantId>)
        ensures
            r == (match spec_uuid_parse(raw@) {
                Some(v) => Some(TenantId(v)),
                None => None,
            }),
            forall|t: TenantId| raw@ == uuid_hyphenated(t.0) ==> r == Some(t),
    {
        match uuid_parse(raw) {
            Some(v) => Some(TenantId(v)),
            None => None,
        }
    }
}

/// Why a tenant could not be resolved or admitted.
#[derive(Debug, Clone, PartialEq, Eq)]
pub enum TenantError {
    /// The raw tenant id is empty after trimming.
    Empty,
    /// The registry does not know the (trimmed) raw id.
    Unregistered(String),
    /// The tenant holds `rows` rows, at or above the quota.
    QuotaExceeded { tenant_id: TenantId, rows: usize },
}

/// The human-readable message of a tenant error.
pub open spec fn tenant_error_message(e: TenantError) -> Seq<char> {
    match e {
        TenantError::Empty => "tenant id is empty"@,
        TenantError::Unregistered(raw) => "tenant id is not registered: "@ + raw@,
        TenantError::QuotaExceeded { tenant_id, rows } => "tenant "@ + uuid_hyphenated(tenant_id.0)
            + " exceeded row quota with "@ + decimal(rows as nat) + " rows"@,
    }
}

impl TenantError {
    /// The human-readable message of the error.
    pub fn message(&self) -> (m: String)
        ensures
            m@ == tenant_error_message(*self),
    {
        match self {
            TenantError::Empty => owned("tenant id is empty"),
            TenantError::Unregistered(raw) => {
                let mut m = owned("tenant id is not registered: ");
                append_str(&mut m, raw.as_str());
                m
            },
            TenantError::QuotaExceeded { tenant_id, rows } => {
                let mut m = owned("tenant ");
                let id = tenant_id.to_hyphenated();
                append_str(&mut m, id.as_str());
                append_str(&mut m, " exceeded row quota with ");
                let n = decimal_string(*rows as u64);
                append_str(&mut m, n.as_str());
                append_str(&mut m, " rows");
                m
            },
        }
    }
}

/// The tenant directory, supplied by the deployment.
pub trait TenantRegistry {
    /// The tenant registered under `raw_id`, if any.
    fn lookup_tenant_uuid(&self, raw_id: &str) -> Result<Option<TenantId>, NebulaError>;

    /// The number of dataset rows the tenant currently holds.
    fn tenant_row_count(&self, tenant_id: TenantId) -> Result<usize, NebulaError>;
}

/// `lookup_tenant_uuid`, called on `registry` with `raw_id`, may answer
/// `answer`.
#[verifier::inline]
pub open spec fn tenant_looked_up<R: TenantRegistry>(
    registry: &R,
    raw_id: &str,
    answer: Result<Option<TenantId>, NebulaError>,
) -> bool {
    call_ensures(R::lookup_tenant_uuid, (registry, raw_id), answer)
}

/// `tenant_row_count`, called on `registry` with `tenant_id`, may answer
/// `answer`.
#[verifier::inline]
pub open spec fn rows_counted<R: TenantRegistry>(
    registry: &R,
    tenant_id: TenantId,
    answer: Result<usize, NebulaError>,
) -> bool {
    call_ensures(R::tenant_row_count, (registry, tenant_id), answer)
}

/// The quota check on the registry's answer to a row count: a failed count
/// is reported as the quota reached; a count at or above the quota is
/// refused with that count.
pub open spec fn quota_outcome(tenant_id: TenantId, count: Result<usize, NebulaError>) -> Result<
    (),
    TenantError,
> {
    match count {
        Err(_) => Err(TenantError::QuotaExceeded { tenant_id, rows: TENANT_ROW_QUOTA }),
        Ok(rows) => if rows >= TENANT_ROW_QUOTA {
            Err(TenantError::QuotaExceeded { tenant_id, rows })
        } else {
            Ok(())
        },
    }
}

/// A tenant's row usage.
#[derive(Debug, Clone, PartialEq, Eq)]
pub struct TenantSummary {
    pub tenant_id: TenantId,
    pub rows: usize,
    pub quota: usize,
}

/// Resolves a raw tenant id through the registry. The id is trimmed first; an
/// empty id is refused without asking the registry. The registry decides the
/// rest: a failed lookup and an unknown id are both reported as unregistered,
/// with the trimmed id.
pub fn resolve_tenant<R: TenantRegistry>(raw_id: &str, registry: &R) -> (r: Result<
    TenantId,
    TenantError,
>)
    ensures
        trim(raw_id@).len() == 0 <==> r == Err::<TenantId, TenantError>(TenantError::Empty),
        r matches Err(TenantError::Unregistered(t)) ==> t@ == trim(raw_id@) && t@.len() > 0,
        r matches Err(e) ==> (e is Empty || e is Unregistered),
        trim(raw_id@).len() > 0 ==> exists|
            t: &str,
            answer: Result<Option<TenantId>, NebulaError>,
        |
            #[trigger] tenant_looked_up(registry, t, answer) && t@ == trim(raw_id@) && match answer {
                Ok(Some(id)) => r == Ok::<TenantId, TenantError>(id),
                _ => r is Err,
            },
{
    let raw = trim_str(raw_id);
    if raw.as_str().is_empty() {
        return Err(TenantError::Empty);
    }
    match registry.lookup_tenant_uuid(raw.as_str()) {
        Ok(Some(id)) => Ok(id),
        _ => Err(TenantError::Unregistered(raw)),
    }
}

/// Checks the tenant's row count against `TENANT_ROW_QUOTA`. A failure to
/// count is reported as exceeding the quota, with the quota as the count.
pub fn enforce_quota<R: TenantRegistry>(tenant_id: TenantId, registry: &R) -> (r: Result<
    (),
    TenantError,
>)
    ensures
        r matches Err(e) ==> (e matches TenantError::QuotaExceeded { tenant_id: t, rows }
            && t == tenant_id && rows >= TENANT_ROW_QUOTA),
        exists|answer: Result<usize, NebulaError>|
            #[trigger] rows_counted(registry, tenant_id, answer) && r == quota_outcome(
                tenant_id,
                answer,
            ),
{
    let rows = match registry.tenant_row_count(tenant_id) {
        Ok(rows) => rows,
        Err(_) => return Err(TenantError::QuotaExceeded { tenant_id, rows: TENANT_ROW_QUOTA }),
    };
    if rows >= TENANT_ROW_QUOTA {
        return Err(TenantError::QuotaExceeded { tenant_id, rows });
    }
    Ok(())
}

/// The dataset file path of a tenant: `<prefix>/<uuid>/<file_name>`.
pub open spec fn tenant_dataset_path_spec(tenant_id: TenantId, file_name: Seq<char>) -> Seq<char> {
    TENANT_DATASET_PREFIX@ + seq!['/'] + uuid_hyphenated(tenant_id.0) + seq!['/'] + file_name
}

/// The dataset file path of a tenant under `prefix`: `<prefix>/<uuid>/<file_name>`.
pub open spec fn tenant_dataset_path_with_prefix_spec(
    tenant_id: TenantId,
    prefix: Seq<char>,
    file_name: Seq<char>,
) -> Seq<char> {
    prefix + seq!['/'] + uuid_hyphenated(tenant_id.0) + seq!['/'] + file_name
}

/// The dataset file path of a tenant under `prefix`.
pub fn tenant_dataset_path_with_prefix(tenant_id: TenantId, prefix: &str, file_name: &str) -> (p:
    String)
    ensures
        p@ == tenant_dataset_path_with_prefix_spec(tenant_id, prefix@, file_name@),
{
    let mut p = owned(prefix);
    push_char(&mut p, '/');
    let id = tenant_id.to_hyphenated();
    append_str(&mut p, id.as_str());
    push_char(&mut p, '/');
    append_str(&mut p, file_name);
    p
}

/// The dataset file path of a tenant under `TENANT_DATASET_PREFIX`.
pub fn tenant_dataset_path(tenant_id: TenantId, file_name: &str) -> (p: String)
    ensures
        p@ == tenant_dataset_path_spec(tenant_id, file_name@),
{
    tenant_dataset_path_with_prefix(tenant_id, TENANT_DATASET_PREFIX, file_name)
}

/// The UTF-8 bytes of `nebula://tenant/<raw_id>`.
pub open spec fn test_tenant_name(raw_id: Seq<char>) -> Seq<u8> {
    vstd::utf8::encode_utf8("nebula://tenant/"@ + raw_id)
}

/// A reproducible tenant id for a raw id: the version-5 UUID of
/// `nebula://tenant/<raw_id>` in the URL namespace.
pub fn deterministic_test_tenant(raw_id: &str) -> (t: TenantId)
    ensures
        t == TenantId(spec_uuid_v5(NAMESPACE_URL, test_tenant_name(raw_id@))),
{
    let mut name = owned("nebula://tenant/");
    append_str(&mut name, raw_id);
    TenantId(uuid_v5(NAMESPACE_URL, name.as_str().as_bytes()))
}

} // verus!
