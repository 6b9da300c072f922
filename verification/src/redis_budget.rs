//! The Redis budget store's logic: the Lua script that reserves tokens
//! atomically under the daily limit, the key that holds a tenant's usage, how
//! the script's reply reads, and which adjustment reconciles an estimate with
//! the exact usage. The connection itself belongs to the service's shell.

use vstd::prelude::*;
use crate::tenant_core::{uuid_hyphenated, TenantId};
use crate::text::{append_str, owned};

verus! {

/// The script run with `EVAL`: adds the estimate to the usage stored under
/// `KEYS[1]` when the sum stays within the limit `ARGV[1]`, returning the new
/// usage, and returns -1 without writing otherwise.
pub const RESERVE_LUA: &'static str = r#"
local current = tonumber(redis.call("GET", KEYS[1]) or "0")
local limit = tonumber(ARGV[1])
local estimated = tonumber(ARGV[2])
local next = current + estimated

if next <= limit then
  redis.call("SET", KEYS[1], next)
  return next
end

return -1
"#;

/// The default prefix of usage keys.
pub const DEFAULT_KEY_PREFIX: &'static str = "nebula:finops:budget";

/// The key of a tenant's daily usage: `<prefix>:<uuid>:daily_tokens_used`.
pub open spec fn usage_key_spec(prefix: Seq<char>, tenant_id: TenantId) -> Seq<char> {
    prefix + ":"@ + uuid_hyphenated(tenant_id.0) + ":daily_tokens_used"@
}

/// The key of a tenant's daily usage.
pub fn usage_key(prefix: &str, tenant_id: TenantId) -> (k: String)
    ensures
        k@ == usage_key_spec(prefix@, tenant_id),
{
    let mut k = owned(prefix);
    append_str(&mut k, ":");
    let id = tenant_id.to_hyphenated();
    append_str(&mut k, id.as_str());
    append_str(&mut k, ":daily_tokens_used");
    k
}

/// The usage after a reservation, from the script's reply: a negative reply
/// means the reservation was refused.
pub fn reservation_result(reply: i64) -> (r: Option<u64>)
    ensures
        reply < 0 ==> r is None,
        reply >= 0 ==> r == Some(reply as u64),
{
    if reply < 0 {
        None
    } else {
        Some(reply as u64)
    }
}

/// How a tenant's usage is corrected once the exact count is known.
#[derive(Debug, Clone, Copy, PartialEq, Eq)]
pub enum UsageAdjustment {
    Unchanged,
    Increment(u64),
    Decrement(u64),
}

/// The correction of an estimate: add what the exact count exceeds it by,
/// remove what it falls short by, nothing when they agree.
pub open spec fn adjustment_spec(estimated: u64, exact: u64) -> UsageAdjustment {
    if exact > estimated {
        UsageAdjustment::Increment((exact - estimated) as u64)
    } else if exact == estimated {
        UsageAdjustment::Unchanged
    } else {
        UsageAdjustment::Decrement((estimated - exact) as u64)
    }
}

/// The usage after a correction.
pub open spec fn apply_adjustment(used: int, a: UsageAdjustment) -> int {
    match a {
        UsageAdjustment::Unchanged => used,
        UsageAdjustment::Increment(d) => used + d,
        UsageAdjustment::Decrement(d) => used - d,
    }
}

/// The correction of an estimate once the exact count is known.
pub fn reconcile_adjustment(estimated: u64, exact: u64) -> (a: UsageAdjustment)
    ensures
        a == adjustment_spec(estimated, exact),
{
    if exact >= estimated {
        let delta = exact - estimated;
        if delta > 0 {
            UsageAdjustment::Increment(delta)
        } else {
            UsageAdjustment::Unchanged
        }
    } else {
        UsageAdjustment::Decrement(estimated - exact)
    }
}

/// Correcting a usage that counted the estimate gives the usage with the
/// exact count in its place.
pub proof fn law_reconcile_restores_exact(used: int, estimated: u64, exact: u64)
    ensures
        apply_adjustment(used, adjustment_spec(estimated, exact)) == used - estimated + exact,
{
}

} // verus!
