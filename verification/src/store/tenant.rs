//! Values bound to one exact tenant scope.
use vstd::prelude::*;

use crate::store::TenantId;

verus! {

/// A value that cannot exist without one exact tenant scope.
#[derive(Debug)]
pub struct TenantScoped<T> {
    tenant: TenantId,
    value: T,
}

impl<T> TenantScoped<T> {
    /// The tenant scope.
    pub closed spec fn tenant_view(&self) -> Seq<char> {
        self.tenant@
    }

    /// The scoped value.
    pub closed spec fn value_view(&self) -> T {
        self.value
    }

    /// Binds a value to a tenant.
    pub fn new(tenant: TenantId, value: T) -> (r: Self)
        ensures
            r.tenant_view() == tenant@,
            r.value_view() == value,
    {
        TenantScoped { tenant, value }
    }

    /// The tenant scope.
    pub fn tenant(&self) -> (r: &TenantId)
        ensures
            r@ == self.tenant_view(),
    {
        &self.tenant
    }

    /// The scoped value.
    pub fn value(&self) -> (r: &T)
        ensures
            *r == self.value_view(),
    {
        &self.value
    }

    /// Splits into the tenant and the value.
    pub fn into_parts(self) -> (r: (TenantId, T))
        ensures
            r.0@ == self.tenant_view(),
            r.1 == self.value_view(),
    {
        (self.tenant, self.value)
    }
}

} // verus!
