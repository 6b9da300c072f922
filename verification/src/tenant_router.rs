//! The tenant router: attaches a registered tenant to a telemetry triplet
//! from its `x-tenant-id` context entry, and drops triplets whose tenant is
//! missing or not registered.

use vstd::prelude::*;
use crate::error::NebulaError;
use crate::tenant_core::{
    deterministic_test_tenant, resolve_tenant, spec_uuid_v5, tenant_looked_up, test_tenant_name,
    TenantId, TenantRegistry, NAMESPACE_URL,
};
use crate::text::{str_eq, trim, trim_str};

verus! {

pub const INPUT_TOPIC: &'static str = "pulsar.telemetry.inference_triplets";
pub const OUTPUT_TOPIC: &'static str = "nebula.tenant.routed_triplets";

/// The context key that names the tenant.
pub const TENANT_HEADER: &'static str = "x-tenant-id";

/// Whether only registered tenants are routed.
#[derive(Debug, Clone, Copy, PartialEq, Eq)]
pub struct TenantRouterConfig {
    pub require_registered_tenant: bool,
}

impl TenantRouterConfig {
    /// Routing requires a registered tenant.
    pub fn default() -> (c: TenantRouterConfig)
        ensures
            c.require_registered_tenant,
    {
        TenantRouterConfig { require_registered_tenant: true }
    }
}

/// A prompt, its answer and context entries (name and value, names in
/// order, each once).
#[derive(Debug, Clone, PartialEq, Eq)]
pub struct TelemetryTriplet {
    pub prompt: String,
    pub answer: String,
    pub context: Vec<(String, String)>,
}

/// A triplet with the tenant it belongs to.
#[derive(Debug, Clone, PartialEq, Eq)]
pub struct TenantRoutedTriplet {
    pub tenant_id: TenantId,
    pub payload: TelemetryTriplet,
}

/// The value of the first context entry named `key`.
pub open spec fn context_get(context: Seq<(String, String)>, key: Seq<char>) -> Option<Seq<char>>
    decreases context.len(),
{
    if context.len() == 0 {
        None
    } else if context[0].0@ == key {
        Some(context[0].1@)
    } else {
        context_get(context.drop_first(), key)
    }
}

/// The tenant a triplet names: its `x-tenant-id` entry, unless blank.
pub open spec fn named_tenant(t: TelemetryTriplet) -> Option<Seq<char>> {
    match context_get(t.context@, TENANT_HEADER@) {
        Some(v) => if trim(v).len() > 0 { Some(v) } else { None },
        None => None,
    }
}

/// The value of the first context entry named `key`.
fn context_value(context: &Vec<(String, String)>, key: &str) -> (r: Option<String>)
    ensures
        match context_get(context@, key@) {
            None => r is None,
            Some(v) => r matches Some(s) && s@ == v,
        },
{
    let mut i: usize = 0;
    assert(context@.skip(0) =~= context@);
    while i < context.len()
        invariant
            i <= context@.len(),
            context_get(context@, key@) == context_get(context@.skip(i as int), key@),
        decreases context.len() - i,
    {
        proof {
            let s = context@.skip(i as int);
            assert(s[0] == context@[i as int]);
            assert(s.drop_first() =~= context@.skip(i + 1));
        }
        if str_eq(context[i].0.as_str(), key) {
            return Some(context[i].1.clone());
        }
        i = i + 1;
    }
    None
}

/// The routed triplet for the registry's answer to the lookup of its tenant:
/// routed to the tenant the registry names, dropped otherwise.
pub open spec fn routed_for(triplet: TelemetryTriplet, answer: Result<Option<TenantId>, NebulaError>) -> Option<
    TenantRoutedTriplet,
> {
    match answer {
        Ok(Some(id)) => Some(TenantRoutedTriplet { tenant_id: id, payload: triplet }),
        _ => None,
    }
}

/// Routes a triplet to its tenant through the registry. A triplet without a
/// tenant, or any triplet when registration is not required, is dropped; a
/// tenant the registry does not resolve drops the triplet too. Nothing here
/// fails.
pub fn route_tenant_triplet_with_registry<R: TenantRegistry>(
    triplet: TelemetryTriplet,
    config: &TenantRouterConfig,
    registry: &R,
) -> (r: Result<Option<TenantRoutedTriplet>, NebulaError>)
    ensures
        r is Ok,
        named_tenant(triplet) is None || !config.require_registered_tenant ==> r == Ok::<
            Option<TenantRoutedTriplet>,
            NebulaError,
        >(None),
        r matches Ok(Some(routed)) ==> routed.payload == triplet && named_tenant(triplet) is Some
            && config.require_registered_tenant,
        named_tenant(triplet) matches Some(v) ==> (config.require_registered_tenant ==> exists|
            t: &str,
            answer: Result<Option<TenantId>, NebulaError>,
        |
            #[trigger] tenant_looked_up(registry, t, answer) && t@ == trim(v) && r == Ok::<
                Option<TenantRoutedTriplet>,
                NebulaError,
            >(routed_for(triplet, answer))),
{
    proof {
        reveal_strlit("x-tenant-id");
    }
    let tenant = match context_value(&triplet.context, TENANT_HEADER) {
        Some(v) => {
            let t = trim_str(v.as_str());
            if t.as_str().is_empty() {
                None
            } else {
                Some(v)
            }
        },
        None => None,
    };
    let raw_tenant = match tenant {
        None => return Ok(None),
        Some(v) => v,
    };
    if !config.require_registered_tenant {
        return Ok(None);
    }
    let resolved = resolve_tenant(raw_tenant.as_str(), registry);
    match resolved {
        Ok(tenant_id) => Ok(Some(TenantRoutedTriplet { tenant_id, payload: triplet })),
        Err(_) => Ok(None),
    }
}

/// The registry built into the router: `default` and `acme`, with their
/// reproducible ids, and no rows.
pub struct StaticRegistry;

impl TenantRegistry for StaticRegistry {
    fn lookup_tenant_uuid(&self, raw_id: &str) -> (r: Result<Option<TenantId>, NebulaError>)
        ensures
            (raw_id@ == "default"@ || raw_id@ == "acme"@) ==> (r matches Ok(Some(t)) && t
                == TenantId(
                crate::tenant_core::spec_uuid_v5(
                    crate::tenant_core::NAMESPACE_URL,
                    crate::tenant_core::test_tenant_name(raw_id@),
                ),
            )),
            !(raw_id@ == "default"@ || raw_id@ == "acme"@) ==> r == Ok::<
                Option<TenantId>,
                NebulaError,
            >(None),
    {
        if str_eq(raw_id, "default") || str_eq(raw_id, "acme") {
            Ok(Some(deterministic_test_tenant(raw_id)))
        } else {
            Ok(None)
        }
    }

    fn tenant_row_count(&self, tenant_id: TenantId) -> (r: Result<usize, NebulaError>)
        ensures
            r == Ok::<usize, NebulaError>(0),
    {
        Ok(0)
    }
}

/// Whether the built-in registry knows the raw id.
pub open spec fn is_static_tenant(raw_id: Seq<char>) -> bool {
    raw_id == "default"@ || raw_id == "acme"@
}

/// Where the built-in registry routes a triplet: a required, named tenant
/// whose trimmed id is `default` or `acme` is routed to that id's
/// reproducible UUID; every other triplet is dropped.
pub open spec fn static_route(triplet: TelemetryTriplet, config: TenantRouterConfig) -> Option<
    TenantRoutedTriplet,
> {
    match named_tenant(triplet) {
        Some(v) => if config.require_registered_tenant && is_static_tenant(trim(v)) {
            Some(
                TenantRoutedTriplet {
                    tenant_id: TenantId(spec_uuid_v5(NAMESPACE_URL, test_tenant_name(trim(v)))),
                    payload: triplet,
                },
            )
        } else {
            None
        },
        None => None,
    }
}

/// Routes a triplet with the built-in registry.
pub fn route_tenant_triplet(triplet: TelemetryTriplet, config: &TenantRouterConfig) -> (r: Result<
    Option<TenantRoutedTriplet>,
    NebulaError,
>)
    ensures
        r == Ok::<Option<TenantRoutedTriplet>, NebulaError>(static_route(triplet, *config)),
{
    route_tenant_triplet_with_registry(triplet, config, &StaticRegistry)
}

} // verus!
