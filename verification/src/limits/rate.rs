//! Deterministic layered fixed-window rate limits over a shared counter ledger.
use vstd::prelude::*;

use crate::bytes::{compare_bytes, is_valid_identifier, valid_identifier, Precedence};
use crate::store::lemma_text_bytes_injective;

verus! {

/// Deployment contract for deterministic multi-instance counters.
pub const COUNTER_CONSISTENCY_MODEL: &'static str = "Every daemon limiter instance serving a tenant must share one linearizable CounterLedger. Windows are selected from authenticated request logical_time_ms, never an instance-local clock, and all applicable counters are checked and incremented in one transaction. Independent ledgers are unsupported because they would permit counter divergence.";

/// Stable operator-facing identifier of one configured limit.
#[derive(Debug, PartialEq, Eq, PartialOrd, Ord)]
pub struct LimitId {
    value: String,
}

impl View for LimitId {
    type V = Seq<char>;

    closed spec fn view(&self) -> Seq<char> {
        self.value@
    }
}

impl Clone for LimitId {
    fn clone(&self) -> (r: Self)
        ensures
            r == *self,
    {
        LimitId { value: self.value.clone() }
    }
}

impl LimitId {
    /// Creates a bounded operator-facing limit identifier.
    ///
    /// # Errors
    ///
    /// Returns `InvalidConfiguration` for an empty, over-255-byte, or NUL-bearing value.
    pub fn new(value: String) -> (r: Result<Self, Refusal>)
        ensures
            r is Ok <==> valid_identifier(value@),
            r matches Ok(id) ==> id@ == value@,
            r matches Err(e) ==> e is InvalidConfiguration,
    {
        if !is_valid_identifier(value.as_str()) {
            Err(Refusal::InvalidConfiguration)
        } else {
            Ok(LimitId { value })
        }
    }

    pub fn as_str(&self) -> (r: &str)
        ensures
            r@ == self@,
    {
        self.value.as_str()
    }

    fn same(&self, other: &LimitId) -> (r: bool)
        ensures
            r == (self@ == other@),
    {
        self.value == other.value
    }
}

/// Every independently configurable rate-limit dimension.
#[derive(Debug, PartialEq, Eq, PartialOrd, Ord)]
pub enum LimitScope {
    Tenant { tenant: String },
    Agent { tenant: String, agent: String },
    Session { tenant: String, session: String },
    Capability { tenant: String, capability: String },
    OperationClass { tenant: String, operation_class: String },
}

impl Clone for LimitScope {
    fn clone(&self) -> (r: Self)
        ensures
            r == *self,
    {
        match self {
            LimitScope::Tenant { tenant } => LimitScope::Tenant { tenant: tenant.clone() },
            LimitScope::Agent { tenant, agent } => LimitScope::Agent {
                tenant: tenant.clone(),
                agent: agent.clone(),
            },
            LimitScope::Session { tenant, session } => LimitScope::Session {
                tenant: tenant.clone(),
                session: session.clone(),
            },
            LimitScope::Capability { tenant, capability } => LimitScope::Capability {
                tenant: tenant.clone(),
                capability: capability.clone(),
            },
            LimitScope::OperationClass { tenant, operation_class } => LimitScope::OperationClass {
                tenant: tenant.clone(),
                operation_class: operation_class.clone(),
            },
        }
    }
}

/// The tenant a scope belongs to.
pub open spec fn scope_tenant(scope: LimitScope) -> Seq<char> {
    match scope {
        LimitScope::Tenant { tenant } => tenant@,
        LimitScope::Agent { tenant, .. } => tenant@,
        LimitScope::Session { tenant, .. } => tenant@,
        LimitScope::Capability { tenant, .. } => tenant@,
        LimitScope::OperationClass { tenant, .. } => tenant@,
    }
}

/// Whether a scope applies to a request: the tenant and the scope's own dimension agree.
pub open spec fn scope_matches(scope: LimitScope, request: RateRequest) -> bool {
    match scope {
        LimitScope::Tenant { tenant } => tenant@ == request.tenant@,
        LimitScope::Agent { tenant, agent } => tenant@ == request.tenant@ && agent@
            == request.agent@,
        LimitScope::Session { tenant, session } => tenant@ == request.tenant@ && session@
            == request.session@,
        LimitScope::Capability { tenant, capability } => tenant@ == request.tenant@ && capability@
            == request.capability@,
        LimitScope::OperationClass { tenant, operation_class } => tenant@ == request.tenant@
            && operation_class@ == request.operation_class@,
    }
}

/// Whether every component of a scope is a valid identifier.
pub open spec fn scope_valid(scope: LimitScope) -> bool {
    match scope {
        LimitScope::Tenant { tenant } => valid_identifier(tenant@),
        LimitScope::Agent { tenant, agent } => valid_identifier(tenant@) && valid_identifier(
            agent@,
        ),
        LimitScope::Session { tenant, session } => valid_identifier(tenant@) && valid_identifier(
            session@,
        ),
        LimitScope::Capability { tenant, capability } => valid_identifier(tenant@)
            && valid_identifier(capability@),
        LimitScope::OperationClass { tenant, operation_class } => valid_identifier(tenant@)
            && valid_identifier(operation_class@),
    }
}

impl LimitScope {
    fn tenant(&self) -> (r: &String)
        ensures
            r@ == scope_tenant(*self),
    {
        match self {
            LimitScope::Tenant { tenant } => tenant,
            LimitScope::Agent { tenant, .. } => tenant,
            LimitScope::Session { tenant, .. } => tenant,
            LimitScope::Capability { tenant, .. } => tenant,
            LimitScope::OperationClass { tenant, .. } => tenant,
        }
    }

    fn matches(&self, request: &RateRequest) -> (r: bool)
        ensures
            r == scope_matches(*self, *request),
    {
        match self {
            LimitScope::Tenant { tenant } => *tenant == request.tenant,
            LimitScope::Agent { tenant, agent } => *tenant == request.tenant && *agent
                == request.agent,
            LimitScope::Session { tenant, session } => *tenant == request.tenant && *session
                == request.session,
            LimitScope::Capability { tenant, capability } => *tenant == request.tenant
                && *capability == request.capability,
            LimitScope::OperationClass { tenant, operation_class } => *tenant == request.tenant
                && *operation_class == request.operation_class,
        }
    }

    fn valid(&self) -> (r: bool)
        ensures
            r == scope_valid(*self),
    {
        match self {
            LimitScope::Tenant { tenant } => is_valid_identifier(tenant.as_str()),
            LimitScope::Agent { tenant, agent } => is_valid_identifier(tenant.as_str())
                && is_valid_identifier(agent.as_str()),
            LimitScope::Session { tenant, session } => is_valid_identifier(tenant.as_str())
                && is_valid_identifier(session.as_str()),
            LimitScope::Capability { tenant, capability } => is_valid_identifier(tenant.as_str())
                && is_valid_identifier(capability.as_str()),
            LimitScope::OperationClass { tenant, operation_class } => is_valid_identifier(
                tenant.as_str(),
            ) && is_valid_identifier(operation_class.as_str()),
        }
    }
}

/// One finite fixed-window rate configuration.
#[derive(Debug, PartialEq, Eq)]
pub struct LimitConfig {
    pub id: LimitId,
    pub scope: LimitScope,
    pub limit: u64,
    pub window_ms: u64,
}

impl Clone for LimitConfig {
    fn clone(&self) -> (r: Self)
        ensures
            r == *self,
    {
        LimitConfig {
            id: self.id.clone(),
            scope: self.scope.clone(),
            limit: self.limit,
            window_ms: self.window_ms,
        }
    }
}

/// Complete authenticated request dimensions and authoritative logical time.
#[derive(Clone, Debug, PartialEq, Eq)]
pub struct RateRequest {
    pub tenant: String,
    pub agent: String,
    pub session: String,
    pub capability: String,
    pub operation_class: String,
    pub logical_time_ms: u64,
    pub cost: u64,
}

/// A valid request: a positive cost and every dimension a valid identifier.
pub open spec fn request_valid(request: RateRequest) -> bool {
    &&& request.cost > 0
    &&& valid_identifier(request.tenant@)
    &&& valid_identifier(request.agent@)
    &&& valid_identifier(request.session@)
    &&& valid_identifier(request.capability@)
    &&& valid_identifier(request.operation_class@)
}

impl RateRequest {
    fn valid(&self) -> (r: bool)
        ensures
            r == request_valid(*self),
    {
        self.cost > 0 && is_valid_identifier(self.tenant.as_str()) && is_valid_identifier(
            self.agent.as_str(),
        ) && is_valid_identifier(self.session.as_str()) && is_valid_identifier(
            self.capability.as_str(),
        ) && is_valid_identifier(self.operation_class.as_str())
    }
}

/// Exact fixed window selected deterministically from logical request time.
#[derive(Clone, Copy, Debug, PartialEq, Eq, Structural)]
pub struct Window {
    pub start_ms: u64,
    pub end_ms: u64,
}

/// Successful atomic application of every matching limit.
#[derive(Clone, Debug, PartialEq, Eq)]
pub struct Admission {
    pub applied_limits: Vec<LimitId>,
    pub ledger_revision: u64,
}

/// Current configuration and counter usage for one tenant limit.
#[derive(Clone, Debug, PartialEq, Eq)]
pub struct Utilization {
    pub config: LimitConfig,
    pub window: Window,
    pub used: u64,
    pub remaining: u64,
    pub ledger_revision: u64,
}

/// Typed refusal returned immediately instead of queuing excess work.
#[derive(Clone, Debug, PartialEq, Eq)]
pub enum Refusal {
    Exceeded { limit: Box<LimitConfig>, window: Window, remaining: u64, retry_after_ms: u64 },
    InvalidConfiguration,
    InvalidRequest,
    NoApplicableLimits,
    Arithmetic,
    CounterUnavailable,
}

/// The fixed window holding `time`, or `None` when its end overflows.
pub open spec fn window_of(time: u64, window_ms: u64) -> Option<Window> {
    let start = (time / window_ms) * window_ms;
    if start + window_ms > u64::MAX {
        None
    } else {
        Some(Window { start_ms: start as u64, end_ms: (start + window_ms) as u64 })
    }
}

fn window(logical_time_ms: u64, window_ms: u64) -> (r: Result<Window, Refusal>)
    requires
        window_ms > 0,
    ensures
        r matches Ok(w) ==> window_of(logical_time_ms, window_ms) == Some(w),
        r matches Err(e) ==> window_of(logical_time_ms, window_ms) is None && e is Arithmetic,
{
    let quotient = logical_time_ms / window_ms;
    assert(quotient * window_ms <= logical_time_ms) by (nonlinear_arith)
        requires
            quotient == logical_time_ms / window_ms,
            window_ms > 0,
    ;
    let start_ms = quotient * window_ms;
    if start_ms > u64::MAX - window_ms {
        return Err(Refusal::Arithmetic);
    }
    Ok(Window { start_ms, end_ms: start_ms + window_ms })
}

/// One counter: usage of a limit within its current window.
struct CounterEntry {
    limit: LimitId,
    window_start_ms: u64,
    used: u64,
}

/// The counters of every limiter instance serving a tenant; one transaction at a time.
///
/// Each limit holds at most one counter, for the window in which it was last charged.
pub struct CounterLedger {
    revision: u64,
    counters: Vec<CounterEntry>,
}

/// Usage recorded for `limit` in the window starting at `start`.
pub open spec fn used_in(counters: Map<Seq<char>, (u64, u64)>, limit: Seq<char>, start: u64) -> u64 {
    if counters.contains_key(limit) && counters[limit].0 == start {
        counters[limit].1
    } else {
        0
    }
}

impl CounterLedger {
    /// Counter per limit: the window start and the usage within it.
    pub closed spec fn counters(&self) -> Map<Seq<char>, (u64, u64)> {
        Map::new(
            |id: Seq<char>| exists|k: int| 0 <= k < self.counters@.len() && #[trigger] self.counters@[k].limit@ == id,
            |id: Seq<char>| {
                let k = choose|k: int| 0 <= k < self.counters@.len() && #[trigger] self.counters@[k].limit@ == id;
                (self.counters@[k].window_start_ms, self.counters@[k].used)
            },
        )
    }

    /// Number of committed transactions.
    pub closed spec fn revision(&self) -> u64 {
        self.revision
    }

    /// Invariant: at most one counter per limit.
    pub closed spec fn wf(&self) -> bool {
        forall|a: int, b: int|
            0 <= a < b < self.counters@.len() ==> #[trigger] self.counters@[a].limit@
                != #[trigger] self.counters@[b].limit@
    }

    /// A fresh ledger with no counters, to be shared by every limiter serving a tenant.
    pub fn shared() -> (r: Self)
        ensures
            r.wf(),
            r.revision() == 0,
            r.counters() == Map::<Seq<char>, (u64, u64)>::empty(),
    {
        let r = CounterLedger { revision: 0, counters: Vec::new() };
        assert(r.counters() =~= Map::<Seq<char>, (u64, u64)>::empty());
        r
    }

    fn position(&self, limit: &LimitId) -> (r: Option<usize>)
        requires
            self.wf(),
        ensures
            r is None ==> !self.counters().contains_key(limit@),
            r matches Some(k) ==> k < self.counters@.len() && self.counters@[k as int].limit@
                == limit@ && self.counters().contains_key(limit@) && self.counters()[limit@] == (
                self.counters@[k as int].window_start_ms,
                self.counters@[k as int].used,
            ),
    {
        let mut k: usize = 0;
        while k < self.counters.len()
            invariant
                self.wf(),
                k <= self.counters@.len(),
                forall|j: int| 0 <= j < k ==> #[trigger] self.counters@[j].limit@ != limit@,
            decreases self.counters@.len() - k,
        {
            if self.counters[k].limit.same(limit) {
                proof {
                    let c = choose|c: int|
                        0 <= c < self.counters@.len() && #[trigger] self.counters@[c].limit@
                            == limit@;
                    if c != k {
                        if c < k {
                            assert(self.counters@[c].limit@ != self.counters@[k as int].limit@);
                        } else {
                            assert(self.counters@[k as int].limit@ != self.counters@[c].limit@);
                        }
                    }
                }
                return Some(k);
            }
            k = k + 1;
        }
        None
    }

    fn used(&self, limit: &LimitId, start: u64) -> (r: u64)
        requires
            self.wf(),
        ensures
            r == used_in(self.counters(), limit@, start),
    {
        match self.position(limit) {
            Some(k) => if self.counters[k].window_start_ms == start {
                self.counters[k].used
            } else {
                0
            },
            None => 0,
        }
    }

    /// Records `used` for `limit` in the window starting at `start`, dropping older windows.
    fn set(&mut self, limit: &LimitId, start: u64, used: u64)
        requires
            old(self).wf(),
        ensures
            final(self).wf(),
            final(self).revision() == old(self).revision(),
            final(self).counters() == old(self).counters().insert(limit@, (start, used)),
    {
        let ghost before = self.counters();
        let ghost old_entries = self.counters@;
        match self.position(limit) {
            Some(k) => {
                self.counters.set(
                    k,
                    CounterEntry { limit: limit.clone(), window_start_ms: start, used },
                );
                proof {
                    assert forall|a: int, b: int|
                        0 <= a < b < self.counters@.len() implies #[trigger] self.counters@[a].limit@
                        != #[trigger] self.counters@[b].limit@ by {
                        assert(old_entries[a].limit@ != old_entries[b].limit@);
                    }
                    let m = before.insert(limit@, (start, used));
                    assert forall|id: Seq<char>| self.counters().contains_key(id) <==> m.contains_key(id) by {
                        if m.contains_key(id) && id != limit@ {
                            let j = choose|j: int| 0 <= j < old_entries.len() && #[trigger] old_entries[j].limit@ == id;
                            assert(self.counters@[j].limit@ == id);
                        }
                        if self.counters().contains_key(id) {
                            let j = choose|j: int| 0 <= j < self.counters@.len() && #[trigger] self.counters@[j].limit@ == id;
                            if j != k {
                                assert(old_entries[j].limit@ == id);
                            }
                        }
                        if id == limit@ {
                            assert(self.counters@[k as int].limit@ == id);
                        }
                    }
                    assert forall|id: Seq<char>| #[trigger] self.counters().contains_key(id) implies self.counters()[id] == m[id] by {
                        let j = choose|j: int| 0 <= j < self.counters@.len() && #[trigger] self.counters@[j].limit@ == id;
                        if j != k {
                            assert(old_entries[j].limit@ == id);
                            let c = choose|c: int| 0 <= c < old_entries.len() && #[trigger] old_entries[c].limit@ == id;
                            if c != j {
                                if c < j {
                                    assert(old_entries[c].limit@ != old_entries[j].limit@);
                                } else {
                                    assert(old_entries[j].limit@ != old_entries[c].limit@);
                                }
                            }
                            assert(id != limit@);
                        }
                    }
                    assert(self.counters() =~= m);
                }
            },
            None => {
                self.counters.push(CounterEntry { limit: limit.clone(), window_start_ms: start, used });
                proof {
                    let n = old_entries.len() as int;
                    assert forall|a: int, b: int|
                        0 <= a < b < self.counters@.len() implies #[trigger] self.counters@[a].limit@
                        != #[trigger] self.counters@[b].limit@ by {
                        if b == n {
                            assert(old_entries[a].limit@ == self.counters@[a].limit@);
                        } else {
                            assert(old_entries[a].limit@ != old_entries[b].limit@);
                        }
                    }
                    let m = before.insert(limit@, (start, used));
                    assert forall|id: Seq<char>| self.counters().contains_key(id) <==> m.contains_key(id) by {
                        if m.contains_key(id) && id != limit@ {
                            let j = choose|j: int| 0 <= j < old_entries.len() && #[trigger] old_entries[j].limit@ == id;
                            assert(self.counters@[j].limit@ == id);
                        }
                        if self.counters().contains_key(id) {
                            let j = choose|j: int| 0 <= j < self.counters@.len() && #[trigger] self.counters@[j].limit@ == id;
                            if j != n {
                                assert(old_entries[j].limit@ == id);
                            }
                        }
                        if id == limit@ {
                            assert(self.counters@[n].limit@ == id);
                        }
                    }
                    assert forall|id: Seq<char>| #[trigger] self.counters().contains_key(id) implies self.counters()[id] == m[id] by {
                        let j = choose|j: int| 0 <= j < self.counters@.len() && #[trigger] self.counters@[j].limit@ == id;
                        if j != n {
                            assert(old_entries[j].limit@ == id);
                            let c = choose|c: int| 0 <= c < old_entries.len() && #[trigger] old_entries[c].limit@ == id;
                            if c != j {
                                if c < j {
                                    assert(old_entries[c].limit@ != old_entries[j].limit@);
                                } else {
                                    assert(old_entries[j].limit@ != old_entries[c].limit@);
                                }
                            }
                        } else {
                            assert(self.counters@[n].limit@ == limit@);
                            if id != limit@ {
                                assert(false);
                            }
                        }
                    }
                    assert(self.counters() =~= m);
                }
            },
        }
    }
}

/// Deterministic layered limiter: configurations sorted by identifier with distinct identifiers.
#[derive(Clone, Debug)]
pub struct RateLimiter {
    configs: Vec<LimitConfig>,
}

/// A usable configuration: non-zero limit and window and a valid scope.
pub open spec fn config_usable(config: LimitConfig) -> bool {
    config.limit > 0 && config.window_ms > 0 && scope_valid(config.scope)
}

/// The configurations that apply to a request, in configuration order.
pub open spec fn applicable(configs: Seq<LimitConfig>, request: RateRequest) -> Seq<LimitConfig>
    decreases configs.len(),
{
    if configs.len() == 0 {
        Seq::empty()
    } else if scope_matches(configs.last().scope, request) {
        applicable(configs.drop_last(), request).push(configs.last())
    } else {
        applicable(configs.drop_last(), request)
    }
}

/// The refusal one applicable limit causes, if any.
pub open spec fn limit_refusal(
    config: LimitConfig,
    counters: Map<Seq<char>, (u64, u64)>,
    request: RateRequest,
) -> Option<Refusal> {
    match window_of(request.logical_time_ms, config.window_ms) {
        None => Some(Refusal::Arithmetic),
        Some(w) => {
            let used = used_in(counters, config.id@, w.start_ms);
            if used + request.cost > u64::MAX {
                Some(Refusal::Arithmetic)
            } else if used + request.cost > config.limit {
                Some(
                    Refusal::Exceeded {
                        limit: Box::new(config),
                        window: w,
                        remaining: if config.limit >= used {
                            (config.limit - used) as u64
                        } else {
                            0
                        },
                        retry_after_ms: if w.end_ms >= request.logical_time_ms {
                            (w.end_ms - request.logical_time_ms) as u64
                        } else {
                            0
                        },
                    },
                )
            } else {
                None
            }
        },
    }
}

/// The first refusal among applicable limits from position `i` on.
pub open spec fn first_refusal(
    limits: Seq<LimitConfig>,
    counters: Map<Seq<char>, (u64, u64)>,
    request: RateRequest,
    i: int,
) -> Option<Refusal>
    decreases limits.len() - i,
{
    if i < 0 || i >= limits.len() {
        None
    } else if limit_refusal(limits[i], counters, request) is Some {
        limit_refusal(limits[i], counters, request)
    } else {
        first_refusal(limits, counters, request, i + 1)
    }
}

/// Counters after charging the request to every applicable limit.
pub open spec fn charged(
    limits: Seq<LimitConfig>,
    counters: Map<Seq<char>, (u64, u64)>,
    request: RateRequest,
) -> Map<Seq<char>, (u64, u64)>
    decreases limits.len(),
{
    if limits.len() == 0 {
        counters
    } else {
        let c = limits.last();
        let start = window_of(request.logical_time_ms, c.window_ms).unwrap().start_ms;
        charged(limits.drop_last(), counters, request).insert(
            c.id@,
            (start, (used_in(counters, c.id@, start) + request.cost) as u64),
        )
    }
}

/// The refusal `admit_request` returns, if any.
pub open spec fn rate_refusal(
    configs: Seq<LimitConfig>,
    ledger: CounterLedger,
    request: RateRequest,
) -> Option<Refusal> {
    let limits = applicable(configs, request);
    if !request_valid(request) {
        Some(Refusal::InvalidRequest)
    } else if limits.len() == 0 {
        Some(Refusal::NoApplicableLimits)
    } else if ledger.revision() == u64::MAX {
        Some(Refusal::Arithmetic)
    } else {
        first_refusal(limits, ledger.counters(), request, 0)
    }
}

/// Identifiers of a sequence of configurations.
pub open spec fn config_ids(configs: Seq<LimitConfig>) -> Seq<LimitId> {
    configs.map_values(|c: LimitConfig| c.id)
}

/// Configurations in strictly increasing identifier order (hence distinct identifiers).
pub open spec fn ids_ascending(configs: Seq<LimitConfig>) -> bool {
    forall|a: int, b: int|
        0 <= a < b < configs.len() ==> string_lt(#[trigger] configs[a].id@, #[trigger] configs[b].id@)
}

/// Strict order of identifiers by their UTF-8 bytes.
pub open spec fn string_lt(a: Seq<char>, b: Seq<char>) -> bool {
    crate::bytes::lex_lt(crate::bytes::text_bytes(a), crate::bytes::text_bytes(b))
}

impl RateLimiter {
    /// The configured limits, sorted by identifier.
    pub closed spec fn configs(&self) -> Seq<LimitConfig> {
        self.configs@
    }

    /// Invariant: usable configurations with strictly increasing identifiers.
    pub closed spec fn wf(&self) -> bool {
        &&& ids_ascending(self.configs@)
        &&& forall|i: int| 0 <= i < self.configs@.len() ==> #[trigger] config_usable(self.configs@[i])
    }

    /// A well-formed limiter holds usable configurations in strictly increasing identifier order.
    pub proof fn lemma_wf(&self)
        requires
            self.wf(),
        ensures
            ids_ascending(self.configs()),
            forall|i: int| 0 <= i < self.configs().len() ==> #[trigger] config_usable(self.configs()[i]),
    {
    }

    /// Builds a limiter over an id-sorted configuration set.
    ///
    /// # Errors
    ///
    /// Returns `InvalidConfiguration` for an empty set, a duplicate `LimitId`, a zero limit or
    /// window, or a scope with an empty, oversized or NUL-bearing component.
    pub fn new(configs: Vec<LimitConfig>) -> (r: Result<Self, Refusal>)
        ensures
            r is Ok <==> configs@.len() > 0 && (forall|i: int|
                0 <= i < configs@.len() ==> #[trigger] config_usable(configs@[i])) && distinct_ids(
                configs@,
            ),
            r matches Err(e) ==> e is InvalidConfiguration,
            r matches Ok(l) ==> l.wf() && ids_ascending(l.configs()) && l.configs().len() == configs@.len()
                && forall|c: LimitConfig| #[trigger] l.configs().contains(c) <==> configs@.contains(c),
    {
        if configs.len() == 0 {
            return Err(Refusal::InvalidConfiguration);
        }
        let mut i: usize = 0;
        while i < configs.len()
            invariant
                i <= configs@.len(),
                forall|j: int| 0 <= j < i ==> #[trigger] config_usable(configs@[j]),
            decreases configs@.len() - i,
        {
            let c = &configs[i];
            if c.limit == 0 || c.window_ms == 0 || !c.scope.valid() {
                assert(!config_usable(configs@[i as int]));
                return Err(Refusal::InvalidConfiguration);
            }
            i = i + 1;
        }
        let mut a: usize = 0;
        while a < configs.len()
            invariant
                a <= configs@.len(),
                forall|x: int, y: int|
                    0 <= x < a && x < y < configs@.len() ==> #[trigger] configs@[x].id@
                        != #[trigger] configs@[y].id@,
            decreases configs@.len() - a,
        {
            let mut b: usize = a + 1;
            while b < configs.len()
                invariant
                    a < configs@.len(),
                    a + 1 <= b <= configs@.len(),
                    forall|x: int, y: int|
                        0 <= x < a && x < y < configs@.len() ==> #[trigger] configs@[x].id@
                            != #[trigger] configs@[y].id@,
                    forall|y: int| a < y < b ==> configs@[a as int].id@ != #[trigger] configs@[y].id@,
                decreases configs@.len() - b,
            {
                if configs[a].id.same(&configs[b].id) {
                    return Err(Refusal::InvalidConfiguration);
                }
                b = b + 1;
            }
            a = a + 1;
        }
        let mut sorted: Vec<LimitConfig> = Vec::new();
        let mut i: usize = 0;
        while i < configs.len()
            invariant
                i <= configs@.len(),
                distinct_ids(configs@),
                forall|j: int| 0 <= j < configs@.len() ==> #[trigger] config_usable(configs@[j]),
                sorted@.len() == i,
                ids_ascending(sorted@),
                forall|j: int| 0 <= j < sorted@.len() ==> #[trigger] config_usable(sorted@[j]),
                forall|c: LimitConfig| #[trigger] sorted@.contains(c) <==> configs@.take(i as int).contains(c),
            decreases configs@.len() - i,
        {
            let item = configs[i].clone();
            let ghost before = sorted@;
            proof {
                assert forall|j: int| 0 <= j < before.len() implies #[trigger] before[j].id@ != item.id@ by {
                    assert(before.contains(before[j]));
                    assert(configs@.take(i as int).contains(before[j]));
                    let k = choose|k: int| 0 <= k < i && #[trigger] configs@.take(i as int)[k] == before[j];
                    assert(configs@[k] == before[j]);
                }
            }
            let p = insertion_point(&sorted, &item);
            sorted.insert(p, item);
            proof {
                let n = sorted@;
                assert(n =~= before.insert(p as int, item));
                assert forall|x: int, y: int| 0 <= x < y < n.len() implies string_lt(
                    #[trigger] n[x].id@,
                    #[trigger] n[y].id@,
                ) by {
                    if y < p {
                        assert(string_lt(before[x].id@, before[y].id@));
                    } else if y == p {
                        assert(string_lt(before[x].id@, item.id@));
                    } else if x < p {
                        assert(string_lt(before[x].id@, item.id@));
                        assert(string_lt(item.id@, before[y - 1].id@));
                        lemma_string_lt_transitive(before[x].id@, item.id@, before[y - 1].id@);
                    } else if x == p {
                        assert(string_lt(item.id@, before[y - 1].id@));
                    } else {
                        assert(string_lt(before[x - 1].id@, before[y - 1].id@));
                    }
                }
                assert(configs@.take(i + 1) =~= configs@.take(i as int).push(item));
                assert forall|j: int| 0 <= j < n.len() implies #[trigger] config_usable(n[j]) by {
                    if j < p {
                        assert(n[j] == before[j]);
                    } else if j > p {
                        assert(n[j] == before[j - 1]);
                    }
                }
                assert forall|c: LimitConfig| #[trigger] n.contains(c) <==> configs@.take(i + 1).contains(c) by {
                    if n.contains(c) {
                        let k = choose|k: int| 0 <= k < n.len() && #[trigger] n[k] == c;
                        let pushed = configs@.take(i as int).push(item);
                        if k == p {
                            assert(pushed[i as int] == c);
                        } else {
                            if k < p {
                                assert(before[k] == c);
                            } else {
                                assert(before[k - 1] == c);
                            }
                            assert(before.contains(c));
                            assert(configs@.take(i as int).contains(c));
                            let m = choose|m: int| 0 <= m < i && #[trigger] configs@.take(i as int)[m] == c;
                            assert(pushed[m] == c);
                        }
                        assert(pushed.contains(c));
                    }
                    if configs@.take(i + 1).contains(c) {
                        let k = choose|k: int| 0 <= k < i + 1 && #[trigger] configs@.take(i + 1)[k] == c;
                        if k < i {
                            assert(configs@.take(i as int)[k] == c);
                            assert(configs@.take(i as int).contains(c));
                            assert(before.contains(c));
                            let m = choose|m: int| 0 <= m < before.len() && #[trigger] before[m] == c;
                            if m < p {
                                assert(n[m] == c);
                            } else {
                                assert(n[m + 1] == c);
                            }
                        } else {
                            assert(n[p as int] == c);
                        }
                    }
                }
            }
            i = i + 1;
        }
        proof {
            assert(configs@.take(configs@.len() as int) =~= configs@);
        }
        Ok(RateLimiter { configs: sorted })
    }
}

impl RateLimiter {
    /// Atomically checks and increments every applicable scope counter in `ledger`.
    ///
    /// # Errors
    ///
    /// Returns `InvalidRequest` for zero cost or a malformed dimension, `NoApplicableLimits`
    /// when no scope matches, `Exceeded` with the window and `retry_after_ms`, or `Arithmetic`
    /// on revision, counter or window overflow. A refusal leaves the ledger unchanged.
    pub fn admit_request(&self, ledger: &mut CounterLedger, request: &RateRequest) -> (r: Result<
        Admission,
        Refusal,
    >)
        requires
            self.wf(),
            old(ledger).wf(),
        ensures
            final(ledger).wf(),
            match rate_refusal(self.configs(), *old(ledger), *request) {
                Some(e) => r == Err::<Admission, Refusal>(e) && final(ledger).counters() == old(
                    ledger,
                ).counters() && final(ledger).revision() == old(ledger).revision(),
                None => {
                    let limits = applicable(self.configs(), *request);
                    &&& r matches Ok(a)
                    &&& ids_ascending(limits)
                    &&& a.applied_limits@ == config_ids(limits)
                    &&& a.ledger_revision == old(ledger).revision() + 1
                    &&& final(ledger).revision() == old(ledger).revision() + 1
                    &&& final(ledger).counters() == charged(limits, old(ledger).counters(), *request)
                },
            },
    {
        if !request.valid() {
            return Err(Refusal::InvalidRequest);
        }
        let ghost configs = self.configs@;
        let mut limits: Vec<LimitConfig> = Vec::new();
        let mut i: usize = 0;
        while i < self.configs.len()
            invariant
                configs == self.configs@,
                i <= configs.len(),
                limits@ == applicable(configs.take(i as int), *request),
            decreases configs.len() - i,
        {
            assert(configs.take(i + 1).drop_last() =~= configs.take(i as int));
            if self.configs[i].scope.matches(request) {
                limits.push(self.configs[i].clone());
            }
            i = i + 1;
        }
        assert(configs.take(i as int) =~= configs);
        if limits.len() == 0 {
            return Err(Refusal::NoApplicableLimits);
        }
        if ledger.revision == u64::MAX {
            return Err(Refusal::Arithmetic);
        }
        let ghost start = ledger.counters();
        proof {
            lemma_applicable_contains(configs, *request);
            assert forall|c: int| 0 <= c < limits@.len() implies #[trigger] config_usable(limits@[c]) by {
                assert(configs.contains(limits@[c]));
                let j = choose|j: int| 0 <= j < configs.len() && configs[j] == limits@[c];
                assert(config_usable(configs[j]));
            }
        }
        let mut k: usize = 0;
        while k < limits.len()
            invariant
                k <= limits@.len(),
                ledger.wf(),
                start == ledger.counters(),
                first_refusal(limits@, start, *request, 0) == first_refusal(
                    limits@,
                    start,
                    *request,
                    k as int,
                ),
                limits@ == applicable(configs, *request),
                configs == self.configs@,
                request_valid(*request),
                ledger.revision() != u64::MAX,
                *ledger == *old(ledger),
                forall|c: int| 0 <= c < limits@.len() ==> #[trigger] config_usable(limits@[c]),
            decreases limits@.len() - k,
        {
            assert(config_usable(limits@[k as int]));
            match check_limit(&limits[k], ledger, request) {
                Some(refusal) => {
                    assert(first_refusal(limits@, start, *request, k as int) == Some(refusal));
                    return Err(refusal);
                },
                None => {},
            }
            k = k + 1;
        }
        proof {
            lemma_applicable_ascending(configs, *request);
            lemma_first_refusal_none(limits@, start, *request, 0);
        }
        let mut k: usize = 0;
        while k < limits.len()
            invariant
                k <= limits@.len(),
                ledger.wf(),
                ledger.revision() == old(ledger).revision(),
                ledger.counters() == charged(limits@.take(k as int), start, *request),
                ids_ascending(limits@),
                forall|c: int| 0 <= c < limits@.len() ==> #[trigger] config_usable(limits@[c]),
                forall|c: int| 0 <= c < limits@.len() ==> (#[trigger] limit_refusal(limits@[c], start, *request)) is None,
            decreases limits@.len() - k,
        {
            let config = &limits[k];
            assert(config_usable(limits@[k as int]));
            assert(limit_refusal(limits@[k as int], start, *request) is None);
            let selected = match window(request.logical_time_ms, config.window_ms) {
                Ok(w) => w,
                Err(refusal) => {
                    return Err(refusal);
                },
            };
            proof {
                assert forall|c: int| 0 <= c < limits@.take(k as int).len() implies #[trigger] limits@.take(k as int)[c].id@ != config.id@ by {
                    assert(string_lt(limits@[c].id@, limits@[k as int].id@));
                    crate::bytes::lemma_lex_irreflexive(crate::bytes::text_bytes(limits@[k as int].id@));
                }
                lemma_charged_other(limits@.take(k as int), start, *request, config.id@);
            }
            let used = ledger.used(&config.id, selected.start_ms);
            let total = used + request.cost;
            ledger.set(&config.id, selected.start_ms, total);
            proof {
                assert(limits@.take(k + 1).drop_last() =~= limits@.take(k as int));
            }
            k = k + 1;
        }
        assert(limits@.take(k as int) =~= limits@);
        ledger.revision = ledger.revision + 1;
        let mut applied: Vec<LimitId> = Vec::new();
        let mut k: usize = 0;
        while k < limits.len()
            invariant
                k <= limits@.len(),
                applied@ == config_ids(limits@.take(k as int)),
            decreases limits@.len() - k,
        {
            applied.push(limits[k].id.clone());
            assert(config_ids(limits@.take(k + 1)) =~= config_ids(limits@.take(k as int)).push(limits@[k as int].id));
            k = k + 1;
        }
        assert(limits@.take(k as int) =~= limits@);
        Ok(Admission { applied_limits: applied, ledger_revision: ledger.revision })
    }

    /// Returns per-limit configuration and current-window utilization for one tenant.
    ///
    /// # Errors
    ///
    /// Returns `Arithmetic` if a configured window end overflows `u64`.
    pub fn utilization(
        &self,
        ledger: &CounterLedger,
        tenant: &str,
        logical_time_ms: u64,
    ) -> (r: Result<Vec<Utilization>, Refusal>)
        requires
            self.wf(),
            ledger.wf(),
        ensures
            match tenant_report(self.configs(), ledger.counters(), ledger.revision(), tenant@, logical_time_ms) {
                Ok(report) => r matches Ok(v) && v@ == report,
                Err(e) => r == Err::<Vec<Utilization>, Refusal>(e),
            },
            r matches Ok(v) ==> report_ascending(v@),
    {
        let ghost configs = self.configs@;
        let mut out: Vec<Utilization> = Vec::new();
        let mut i: usize = 0;
        while i < self.configs.len()
            invariant
                configs == self.configs@,
                self.wf(),
                ledger.wf(),
                i <= configs.len(),
                tenant_report(configs.take(i as int), ledger.counters(), ledger.revision(), tenant@, logical_time_ms) == Ok::<Seq<Utilization>, Refusal>(out@),
            decreases configs.len() - i,
        {
            assert(configs.take(i + 1).drop_last() =~= configs.take(i as int));
            let config = &self.configs[i];
            assert(config_usable(configs[i as int]));
            let same_tenant = crate::bytes::bytes_equal(
                config.scope.tenant().as_str().as_bytes(),
                tenant.as_bytes(),
            );
            proof {
                lemma_text_bytes_injective(scope_tenant(configs[i as int].scope), tenant@);
            }
            if same_tenant {
                let selected = match window(logical_time_ms, config.window_ms) {
                    Ok(w) => w,
                    Err(refusal) => {
                        proof {
                            assert(configs.take(i + 1).last() == configs[i as int]);
                            assert(scope_tenant(configs[i as int].scope) == tenant@);
                            lemma_tenant_report_err(configs, ledger.counters(), ledger.revision(), tenant@, logical_time_ms, i + 1);
                        }
                        return Err(refusal);
                    },
                };
                let used = ledger.used(&config.id, selected.start_ms);
                let remaining = if config.limit >= used { config.limit - used } else { 0 };
                out.push(Utilization {
                    config: config.clone(),
                    window: selected,
                    used,
                    remaining,
                    ledger_revision: ledger.revision,
                });
            }
            i = i + 1;
        }
        assert(configs.take(i as int) =~= configs);
        proof {
            lemma_tenant_report_ascending(configs, ledger.counters(), ledger.revision(), tenant@, logical_time_ms);
        }
        Ok(out)
    }
}

/// Report entries in strictly increasing limit identifier order.
pub open spec fn report_ascending(report: Seq<Utilization>) -> bool {
    forall|a: int, b: int|
        0 <= a < b < report.len() ==> string_lt(#[trigger] report[a].config.id@, #[trigger] report[b].config.id@)
}

proof fn lemma_tenant_report_ascending(
    configs: Seq<LimitConfig>,
    counters: Map<Seq<char>, (u64, u64)>,
    revision: u64,
    tenant: Seq<char>,
    time: u64,
)
    requires
        ids_ascending(configs),
    ensures
        tenant_report(configs, counters, revision, tenant, time) matches Ok(report) ==> {
            &&& report_ascending(report)
            &&& forall|x: int| 0 <= x < report.len() ==> configs.contains(#[trigger] report[x].config)
        },
    decreases configs.len(),
{
    if configs.len() > 0 {
        let front = configs.drop_last();
        assert(ids_ascending(front)) by {
            assert forall|a: int, b: int| 0 <= a < b < front.len() implies string_lt(
                #[trigger] front[a].id@,
                #[trigger] front[b].id@,
            ) by {
                assert(string_lt(configs[a].id@, configs[b].id@));
            }
        }
        lemma_tenant_report_ascending(front, counters, revision, tenant, time);
        if let Ok(report) = tenant_report(configs, counters, revision, tenant, time) {
            let rest = tenant_report(front, counters, revision, tenant, time)->Ok_0;
            assert forall|x: int| 0 <= x < report.len() implies configs.contains(#[trigger] report[x].config) by {
                if x < rest.len() {
                    assert(report[x] == rest[x]);
                    let k = choose|k: int| 0 <= k < front.len() && front[k] == rest[x].config;
                    assert(configs[k] == rest[x].config);
                } else {
                    assert(report[x].config == configs[configs.len() - 1]);
                }
            }
            assert forall|x: int, y: int| 0 <= x < y < report.len() implies string_lt(
                #[trigger] report[x].config.id@,
                #[trigger] report[y].config.id@,
            ) by {
                if y < rest.len() {
                    assert(report[x] == rest[x] && report[y] == rest[y]);
                } else {
                    assert(report[x] == rest[x]);
                    assert(report[y].config == configs[configs.len() - 1]);
                    let k = choose|k: int| 0 <= k < front.len() && front[k] == rest[x].config;
                    assert(string_lt(configs[k].id@, configs[configs.len() - 1].id@));
                }
            }
        }
    }
}

/// The utilization report of every limit scoped to `tenant`, in configuration order; the
/// first window overflow is reported instead.
pub open spec fn tenant_report(
    configs: Seq<LimitConfig>,
    counters: Map<Seq<char>, (u64, u64)>,
    revision: u64,
    tenant: Seq<char>,
    time: u64,
) -> Result<Seq<Utilization>, Refusal>
    decreases configs.len(),
{
    if configs.len() == 0 {
        Ok(Seq::empty())
    } else {
        match tenant_report(configs.drop_last(), counters, revision, tenant, time) {
            Err(e) => Err(e),
            Ok(report) => {
                let c = configs.last();
                if scope_tenant(c.scope) != tenant {
                    Ok(report)
                } else {
                    match window_of(time, c.window_ms) {
                        None => Err(Refusal::Arithmetic),
                        Some(w) => {
                            let used = used_in(counters, c.id@, w.start_ms);
                            Ok(
                                report.push(
                                    Utilization {
                                        config: c,
                                        window: w,
                                        used,
                                        remaining: if c.limit >= used {
                                            (c.limit - used) as u64
                                        } else {
                                            0
                                        },
                                        ledger_revision: revision,
                                    },
                                ),
                            )
                        },
                    }
                }
            },
        }
    }
}

proof fn lemma_tenant_report_err(
    configs: Seq<LimitConfig>,
    counters: Map<Seq<char>, (u64, u64)>,
    revision: u64,
    tenant: Seq<char>,
    time: u64,
    n: int,
)
    requires
        0 < n <= configs.len(),
        tenant_report(configs.take(n), counters, revision, tenant, time) is Err,
    ensures
        tenant_report(configs, counters, revision, tenant, time) == tenant_report(configs.take(n), counters, revision, tenant, time),
    decreases configs.len() - n,
{
    if n < configs.len() {
        assert(configs.take(n + 1).drop_last() =~= configs.take(n));
        lemma_tenant_report_err(configs, counters, revision, tenant, time, n + 1);
    } else {
        assert(configs.take(n) =~= configs);
    }
}

/// Evaluates one applicable limit against the current counters.
fn check_limit(config: &LimitConfig, ledger: &CounterLedger, request: &RateRequest) -> (r: Option<
    Refusal,
>)
    requires
        ledger.wf(),
        config.window_ms > 0,
    ensures
        r == limit_refusal(*config, ledger.counters(), *request),
{
    let selected = match window(request.logical_time_ms, config.window_ms) {
        Ok(w) => w,
        Err(refusal) => {
            return Some(refusal);
        },
    };
    let used = ledger.used(&config.id, selected.start_ms);
    if used > u64::MAX - request.cost {
        return Some(Refusal::Arithmetic);
    }
    let projected = used + request.cost;
    if projected > config.limit {
        let remaining = if config.limit >= used { config.limit - used } else { 0 };
        let retry_after_ms = if selected.end_ms >= request.logical_time_ms {
            selected.end_ms - request.logical_time_ms
        } else {
            0
        };
        return Some(
            Refusal::Exceeded {
                limit: Box::new(config.clone()),
                window: selected,
                remaining,
                retry_after_ms,
            },
        );
    }
    None
}

proof fn lemma_first_refusal_none(
    limits: Seq<LimitConfig>,
    counters: Map<Seq<char>, (u64, u64)>,
    request: RateRequest,
    i: int,
)
    requires
        0 <= i,
        first_refusal(limits, counters, request, i) is None,
    ensures
        forall|c: int| i <= c < limits.len() ==> (#[trigger] limit_refusal(limits[c], counters, request)) is None,
    decreases limits.len() - i,
{
    if i < limits.len() {
        lemma_first_refusal_none(limits, counters, request, i + 1);
    }
}

proof fn lemma_applicable_contains(configs: Seq<LimitConfig>, request: RateRequest)
    ensures
        forall|x: int| 0 <= x < applicable(configs, request).len() ==> configs.contains(
            #[trigger] applicable(configs, request)[x],
        ),
    decreases configs.len(),
{
    if configs.len() > 0 {
        lemma_applicable_contains(configs.drop_last(), request);
        let rest = applicable(configs.drop_last(), request);
        assert forall|x: int| 0 <= x < applicable(configs, request).len() implies configs.contains(
            #[trigger] applicable(configs, request)[x],
        ) by {
            let a = applicable(configs, request);
            if x < rest.len() {
                assert(a[x] == rest[x]);
                assert(configs.drop_last().contains(rest[x]));
                let k = choose|k: int| 0 <= k < configs.drop_last().len() && configs.drop_last()[k] == rest[x];
                assert(configs[k] == rest[x]);
            } else {
                assert(a[x] == configs.last());
                assert(configs[configs.len() - 1] == configs.last());
            }
        }
    }
}

/// Whether a scope names a request: its tenant, and for a narrower scope its agent,
/// session, capability or operation class, are the request's.
pub open spec fn names_request(scope: LimitScope, request: RateRequest) -> bool {
    &&& scope_tenant(scope) == request.tenant@
    &&& (scope matches LimitScope::Agent { agent, .. } ==> agent@ == request.agent@)
    &&& (scope matches LimitScope::Session { session, .. } ==> session@ == request.session@)
    &&& (scope matches LimitScope::Capability { capability, .. } ==> capability@ == request.capability@)
    &&& (scope matches LimitScope::OperationClass { operation_class, .. } ==> operation_class@
        == request.operation_class@)
}

/// Law: the limits charged for a request are exactly the configured limits whose scope
/// names it, in configuration order: a session's limit never charges another session, an
/// agent's never another agent, and no limit charges another tenant.
pub proof fn lemma_applicable_exactly(configs: Seq<LimitConfig>, request: RateRequest)
    ensures
        forall|x: int|
            0 <= x < applicable(configs, request).len() ==> configs.contains(#[trigger] applicable(configs, request)[x])
                && names_request(applicable(configs, request)[x].scope, request),
        forall|k: int|
            0 <= k < configs.len() && names_request(#[trigger] configs[k].scope, request) ==> applicable(
                configs,
                request,
            ).contains(configs[k]),
        forall|k: int|
            0 <= k < configs.len() && !names_request(#[trigger] configs[k].scope, request) ==> !applicable(
                configs,
                request,
            ).contains(configs[k]),
    decreases configs.len(),
{
    lemma_applicable_contains(configs, request);
    if configs.len() > 0 {
        let rest = configs.drop_last();
        lemma_applicable_exactly(rest, request);
        let a = applicable(configs, request);
        let ra = applicable(rest, request);
        assert forall|x: int| 0 <= x < a.len() implies names_request(#[trigger] a[x].scope, request) by {
            if x < ra.len() {
                assert(a[x] == ra[x]);
            } else {
                assert(a[x] == configs.last());
            }
        }
        assert forall|k: int| 0 <= k < configs.len() && names_request(#[trigger] configs[k].scope, request) implies a.contains(configs[k]) by {
            if k < rest.len() {
                assert(rest[k] == configs[k]);
                assert(ra.contains(configs[k]));
                let m = choose|m: int| 0 <= m < ra.len() && ra[m] == configs[k];
                assert(a[m] == ra[m]);
            } else {
                assert(configs[k] == configs.last());
                assert(a[a.len() - 1] == configs.last());
            }
        }
        assert forall|k: int|
            0 <= k < configs.len() && !names_request(#[trigger] configs[k].scope, request) implies !a.contains(configs[k]) by {
            if a.contains(configs[k]) {
                let m = choose|m: int| 0 <= m < a.len() && a[m] == configs[k];
                assert(names_request(a[m].scope, request));
            }
        }
    }
}

proof fn lemma_applicable_ascending(configs: Seq<LimitConfig>, request: RateRequest)
    requires
        ids_ascending(configs),
    ensures
        ids_ascending(applicable(configs, request)),
    decreases configs.len(),
{
    if configs.len() > 0 {
        let front = configs.drop_last();
        assert(ids_ascending(front)) by {
            assert forall|a: int, b: int| 0 <= a < b < front.len() implies string_lt(
                #[trigger] front[a].id@,
                #[trigger] front[b].id@,
            ) by {
                assert(string_lt(configs[a].id@, configs[b].id@));
            }
        }
        lemma_applicable_ascending(front, request);
        lemma_applicable_contains(front, request);
        let rest = applicable(front, request);
        let a = applicable(configs, request);
        if scope_matches(configs.last().scope, request) {
            assert forall|x: int, y: int| 0 <= x < y < a.len() implies string_lt(
                #[trigger] a[x].id@,
                #[trigger] a[y].id@,
            ) by {
                if y < rest.len() {
                    assert(a[x] == rest[x] && a[y] == rest[y]);
                } else {
                    assert(a[x] == rest[x]);
                    assert(front.contains(rest[x]));
                    let k = choose|k: int| 0 <= k < front.len() && front[k] == rest[x];
                    assert(string_lt(configs[k].id@, configs[configs.len() - 1].id@));
                }
            }
        }
    }
}

proof fn lemma_charged_other(
    limits: Seq<LimitConfig>,
    counters: Map<Seq<char>, (u64, u64)>,
    request: RateRequest,
    id: Seq<char>,
)
    requires
        forall|c: int| 0 <= c < limits.len() ==> #[trigger] limits[c].id@ != id,
    ensures
        charged(limits, counters, request).contains_key(id) == counters.contains_key(id),
        counters.contains_key(id) ==> charged(limits, counters, request)[id] == counters[id],
        used_in(charged(limits, counters, request), id, 0) == used_in(counters, id, 0),
        forall|s: u64| used_in(charged(limits, counters, request), id, s) == used_in(counters, id, s),
    decreases limits.len(),
{
    if limits.len() > 0 {
        lemma_charged_other(limits.drop_last(), counters, request, id);
        assert(limits[limits.len() - 1].id@ != id);
    }
}

/// The position at which `item` keeps `sorted` in increasing identifier order.
fn insertion_point(sorted: &Vec<LimitConfig>, item: &LimitConfig) -> (p: usize)
    requires
        ids_ascending(sorted@),
        forall|j: int| 0 <= j < sorted@.len() ==> #[trigger] sorted@[j].id@ != item.id@,
    ensures
        p <= sorted@.len(),
        forall|j: int| 0 <= j < p ==> string_lt(#[trigger] sorted@[j].id@, item.id@),
        forall|j: int| p <= j < sorted@.len() ==> string_lt(item.id@, #[trigger] sorted@[j].id@),
{
    let mut p: usize = 0;
    while p < sorted.len()
        invariant
            p <= sorted@.len(),
            ids_ascending(sorted@),
            forall|j: int| 0 <= j < sorted@.len() ==> #[trigger] sorted@[j].id@ != item.id@,
            forall|j: int| 0 <= j < p ==> string_lt(#[trigger] sorted@[j].id@, item.id@),
        decreases sorted@.len() - p,
    {
        let order = compare_bytes(sorted[p].id.as_str().as_bytes(), item.id.as_str().as_bytes());
        match order {
            Precedence::Before => {},
            _ => {
                proof {
                    lemma_text_bytes_injective(sorted@[p as int].id@, item.id@);
                    assert forall|j: int| p <= j < sorted@.len() implies string_lt(
                        item.id@,
                        #[trigger] sorted@[j].id@,
                    ) by {
                        if j > p {
                            assert(string_lt(sorted@[p as int].id@, sorted@[j].id@));
                            lemma_string_lt_transitive(item.id@, sorted@[p as int].id@, sorted@[j].id@);
                        }
                    }
                }
                return p;
            },
        }
        p = p + 1;
    }
    p
}

pub proof fn lemma_string_lt_transitive(a: Seq<char>, b: Seq<char>, c: Seq<char>)
    requires
        string_lt(a, b),
        string_lt(b, c),
    ensures
        string_lt(a, c),
{
    crate::bytes::lemma_lex_transitive(
        crate::bytes::text_bytes(a),
        crate::bytes::text_bytes(b),
        crate::bytes::text_bytes(c),
    );
}

/// Whether no two configurations share an identifier.
pub open spec fn distinct_ids(configs: Seq<LimitConfig>) -> bool {
    forall|a: int, b: int|
        0 <= a < b < configs.len() ==> #[trigger] configs[a].id@ != #[trigger] configs[b].id@
}


proof fn lemma_charged_hit(
    limits: Seq<LimitConfig>,
    counters: Map<Seq<char>, (u64, u64)>,
    request: RateRequest,
    k: int,
)
    requires
        ids_ascending(limits),
        0 <= k < limits.len(),
    ensures
        ({
            let c = limits[k];
            let start = window_of(request.logical_time_ms, c.window_ms).unwrap().start_ms;
            &&& charged(limits, counters, request).contains_key(c.id@)
            &&& charged(limits, counters, request)[c.id@] == (
                start,
                (used_in(counters, c.id@, start) + request.cost) as u64,
            )
        }),
    decreases limits.len(),
{
    let n = limits.len() - 1;
    if k < n {
        let front = limits.drop_last();
        assert(ids_ascending(front)) by {
            assert forall|a: int, b: int| 0 <= a < b < front.len() implies string_lt(
                #[trigger] front[a].id@,
                #[trigger] front[b].id@,
            ) by {
                assert(string_lt(limits[a].id@, limits[b].id@));
            }
        }
        assert(front[k] == limits[k]);
        lemma_charged_hit(front, counters, request, k);
        assert(string_lt(limits[k].id@, limits[n].id@));
        crate::bytes::lemma_lex_irreflexive(crate::bytes::text_bytes(limits[k].id@));
    }
}

/// Law: an admission that is not refused grows the current-window counter of each
/// applicable limit by exactly the request's cost, and leaves every counter of any other
/// limit as it was.
pub proof fn lemma_admission_charges(
    configs: Seq<LimitConfig>,
    counters: Map<Seq<char>, (u64, u64)>,
    request: RateRequest,
)
    requires
        ids_ascending(configs),
        first_refusal(applicable(configs, request), counters, request, 0) is None,
    ensures
        forall|k: int|
            0 <= k < applicable(configs, request).len() ==> {
                let c = #[trigger] applicable(configs, request)[k];
                let start = window_of(request.logical_time_ms, c.window_ms).unwrap().start_ms;
                used_in(charged(applicable(configs, request), counters, request), c.id@, start)
                    == used_in(counters, c.id@, start) + request.cost
            },
        forall|id: Seq<char>, start: u64|
            (forall|k: int| 0 <= k < applicable(configs, request).len() ==> #[trigger] applicable(configs, request)[k].id@ != id)
                ==> used_in(charged(applicable(configs, request), counters, request), id, start) == used_in(counters, id, start),
{
    let limits = applicable(configs, request);
    lemma_applicable_ascending(configs, request);
    lemma_first_refusal_none(limits, counters, request, 0);
    assert forall|k: int| 0 <= k < limits.len() implies {
        let c = #[trigger] limits[k];
        let start = window_of(request.logical_time_ms, c.window_ms).unwrap().start_ms;
        used_in(charged(limits, counters, request), c.id@, start) == used_in(counters, c.id@, start) + request.cost
    } by {
        lemma_charged_hit(limits, counters, request, k);
        assert(limit_refusal(limits[k], counters, request) is None);
    }
    assert forall|id: Seq<char>, start: u64|
        (forall|k: int| 0 <= k < limits.len() ==> #[trigger] limits[k].id@ != id) implies used_in(
        charged(limits, counters, request),
        id,
        start,
    ) == used_in(counters, id, start) by {
        lemma_charged_other(limits, counters, request, id);
    }
}

} // verus!
