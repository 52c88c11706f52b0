//! License state and the trial gate: a trial allows a fixed number of free
//! traces, a paid license (standalone or part of the wider premium bundle)
//! has no limit.
//!
//! This module owns the license values and every decision about them.
//! Reading and writing the license file, and asking the purchase service to
//! validate a key, are the surrounding binary's business: it hands the
//! answers here as plain values.

use vstd::prelude::*;

verus! {

/// How many traces a trial license allows.
pub const FREE_TRACE_LIMIT: u32 = 3;

#[derive(Debug, Clone, Copy, PartialEq, Eq, Structural)]
pub enum LicenseType {
    /// Free trial, limited to `FREE_TRACE_LIMIT` traces.
    Trial,
    /// Paid standalone license.
    Standalone,
    /// Part of the wider premium bundle.
    Premium,
}

/// The persisted license state.
#[derive(Debug, PartialEq, Eq)]
pub struct TraceLicense {
    pub license_key: Option<String>,
    pub license_type: LicenseType,
    pub email: Option<String>,
    pub activated_at: Option<String>,
    pub traces_used: u32,
}

impl Clone for TraceLicense {
    fn clone(&self) -> (r: Self)
        ensures
            r == *self,
    {
        TraceLicense {
            license_key: clone_opt_string(&self.license_key),
            license_type: self.license_type,
            email: clone_opt_string(&self.email),
            activated_at: clone_opt_string(&self.activated_at),
            traces_used: self.traces_used,
        }
    }
}

fn clone_opt_string(o: &Option<String>) -> (r: Option<String>)
    ensures
        r == *o,
{
    match o {
        Some(s) => Some(s.clone()),
        None => None,
    }
}

impl Default for TraceLicense {
    /// A fresh trial license: no key, no email, nothing used yet.
    fn default() -> (r: Self)
        ensures
            r.license_key is None,
            r.license_type == LicenseType::Trial,
            r.email is None,
            r.activated_at is None,
            r.traces_used == 0,
    {
        TraceLicense {
            license_key: None,
            license_type: LicenseType::Trial,
            email: None,
            activated_at: None,
            traces_used: 0,
        }
    }
}

impl TraceLicense {
    /// Whether another trace may start: a trial is limited, a paid license is
    /// not.
    pub open spec fn spec_can_trace(&self) -> bool {
        match self.license_type {
            LicenseType::Trial => self.traces_used < FREE_TRACE_LIMIT,
            LicenseType::Standalone => true,
            LicenseType::Premium => true,
        }
    }

    pub fn can_trace(&self) -> (r: bool)
        ensures
            r == self.spec_can_trace(),
    {
        match self.license_type {
            LicenseType::Trial => self.traces_used < FREE_TRACE_LIMIT,
            LicenseType::Standalone => true,
            LicenseType::Premium => true,
        }
    }

    /// How many traces are left: a count for a trial (zero once exhausted),
    /// nothing for a paid license, which is unlimited.
    pub fn remaining_traces(&self) -> (r: Option<u32>)
        ensures
            self.license_type == LicenseType::Trial && self.traces_used < FREE_TRACE_LIMIT
                ==> r == Some((FREE_TRACE_LIMIT - self.traces_used) as u32),
            self.license_type == LicenseType::Trial && self.traces_used >= FREE_TRACE_LIMIT
                ==> r == Some(0u32),
            self.license_type != LicenseType::Trial ==> r is None,
    {
        match self.license_type {
            LicenseType::Trial => {
                if self.traces_used < FREE_TRACE_LIMIT {
                    Some(FREE_TRACE_LIMIT - self.traces_used)
                } else {
                    Some(0)
                }
            },
            _ => None,
        }
    }

    /// Records one more used trace.
    pub fn increment_usage(&mut self)
        requires
            old(self).traces_used < u32::MAX,
        ensures
            final(self).traces_used == old(self).traces_used + 1,
            final(self).license_key == old(self).license_key,
            final(self).license_type == old(self).license_type,
            final(self).email == old(self).email,
            final(self).activated_at == old(self).activated_at,
    {
        self.traces_used = self.traces_used + 1;
    }
}

/// Whether the license is a paid one (standalone or premium bundle).
pub fn is_premium(license: &TraceLicense) -> (r: bool)
    ensures
        r == (license.license_type == LicenseType::Standalone || license.license_type
            == LicenseType::Premium),
{
    license.license_type == LicenseType::Standalone || license.license_type
        == LicenseType::Premium
}

/// Whether another trace may start under this license.
pub fn check_can_trace(license: &TraceLicense) -> (r: bool)
    ensures
        r == license.spec_can_trace(),
{
    license.can_trace()
}

/// Records one more used trace on the given license state; the caller
/// persists the result.
pub fn increment_trace_usage(license: &mut TraceLicense)
    requires
        old(license).traces_used < u32::MAX,
    ensures
        final(license).traces_used == old(license).traces_used + 1,
        final(license).license_key == old(license).license_key,
        final(license).license_type == old(license).license_type,
        final(license).email == old(license).email,
        final(license).activated_at == old(license).activated_at,
{
    license.increment_usage();
}

/// The state change of a successful activation: the validated key, the
/// buyer's email and the activation timestamp are recorded and the license
/// becomes a paid standalone one. The timestamp is taken as an argument: the
/// clock belongs to the surrounding binary.
pub fn apply_activation(license: TraceLicense, key: String, email: String, activated_at: String)
    -> (r: TraceLicense)
    ensures
        r.license_key == Some(key),
        r.license_type == LicenseType::Standalone,
        r.email == Some(email),
        r.activated_at == Some(activated_at),
        r.traces_used == license.traces_used,
{
    TraceLicense {
        license_key: Some(key),
        license_type: LicenseType::Standalone,
        email: Some(email),
        activated_at: Some(activated_at),
        traces_used: license.traces_used,
    }
}

/// The state change of finding an active premium bundle: the license kind is
/// raised to premium and everything else is kept.
pub fn apply_premium_grant(license: TraceLicense) -> (r: TraceLicense)
    ensures
        r.license_type == LicenseType::Premium,
        r.license_key == license.license_key,
        r.email == license.email,
        r.activated_at == license.activated_at,
        r.traces_used == license.traces_used,
{
    TraceLicense {
        license_key: license.license_key,
        license_type: LicenseType::Premium,
        email: license.email,
        activated_at: license.activated_at,
        traces_used: license.traces_used,
    }
}

/// The lowercase form of a string, as the standard library computes it.
pub uninterp spec fn lower_of(s: Seq<char>) -> Seq<char>;

/// Relies on str::to_lowercase: the result depends on the characters alone.
#[verifier::external_body]
fn lowercase(s: &str) -> (r: String)
    ensures
        r@ == lower_of(s@),
{
    s.to_lowercase()
}

/// Case-insensitive string equality, as used to hold a purchase record's
/// email against the applicant's.
pub fn emails_match(a: &str, b: &str) -> (r: bool)
    ensures
        r == (lower_of(a@) == lower_of(b@)),
{
    let la = lowercase(a);
    let lb = lowercase(b);
    la == lb
}

/// The decision at the heart of key validation, over the purchase service's
/// response as plain values: the key is accepted iff the service reported
/// success and, where it reported a purchase email, that email matches the
/// applicant's, case-insensitively.
pub fn license_accepted(success: bool, purchase_email: &Option<String>, email: &str) -> (r: bool)
    ensures
        r == (success && match purchase_email {
            Some(pe) => lower_of(pe@) == lower_of(email@),
            None => true,
        }),
{
    if !success {
        return false;
    }
    match purchase_email {
        Some(pe) => emails_match(pe.as_str(), email),
        None => true,
    }
}

/// Where a standalone license can be bought.
pub fn get_upgrade_url() -> (r: &'static str)
    ensures
        r@ == "https://eshuapps.gumroad.com/l/eshu-trace"@,
{
    "https://eshuapps.gumroad.com/l/eshu-trace"
}

/// Where the wider premium bundle can be bought.
pub fn get_eshu_premium_url() -> (r: &'static str)
    ensures
        r@ == "https://eshuapps.gumroad.com/l/eshu-premium"@,
{
    "https://eshuapps.gumroad.com/l/eshu-premium"
}

} // verus!
