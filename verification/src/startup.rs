//! What the application decides at start-up: whether services start
//! automatically, and which ones.

use crate::models::{AppSetting, ServiceDetail};
use crate::text::{eq_str, to_chars, trim, trim_ws};
use vstd::prelude::*;

verus! {

/// The setting key that switches service auto-start on.
pub open spec fn auto_start_key() -> Seq<char> {
    "services.auto_start_enabled"@
}

/// Some setting has the auto-start key with the value `true` (surrounding
/// whitespace ignored).
pub open spec fn auto_start_on(settings: Seq<AppSetting>) -> bool {
    exists|i: int|
        0 <= i < settings.len() && (#[trigger] settings[i]).key@ == auto_start_key() && trim(
            settings[i].value_json@,
        ) == "true"@
}

/// Whether services marked for auto-start should start now.
pub fn service_auto_start_enabled(settings: &[AppSetting]) -> (r: bool)
    ensures
        r == auto_start_on(settings@),
{
    let mut i: usize = 0;
    while i < settings.len()
        invariant
            i <= settings@.len(),
            forall|j: int|
                0 <= j < i ==> !((#[trigger] settings@[j]).key@ == auto_start_key() && trim(
                    settings@[j].value_json@,
                ) == "true"@),
        decreases settings.len() - i,
    {
        let s = &settings[i];
        let key = to_chars(s.key.as_str());
        if eq_str(key.as_slice(), "services.auto_start_enabled") {
            let v = to_chars(s.value_json.as_str());
            let t = trim_ws(v.as_slice());
            if eq_str(t.as_slice(), "true") {
                return true;
            }
        }
        i = i + 1;
    }
    false
}

/// The services that are both enabled and marked for auto-start, in order.
pub open spec fn auto_start_selection(services: Seq<ServiceDetail>) -> Seq<ServiceDetail>
    decreases services.len(),
{
    if services.len() == 0 {
        Seq::empty()
    } else {
        let rest = auto_start_selection(services.drop_last());
        let s = services.last();
        if s.enabled && s.auto_start {
            rest.push(s)
        } else {
            rest
        }
    }
}

/// Keeps the services that are enabled and marked for auto-start.
pub fn services_selected_for_auto_start(services: Vec<ServiceDetail>) -> (r: Vec<ServiceDetail>)
    ensures
        r@ == auto_start_selection(services@),
{
    let ghost all = services@;
    let n = services.len();
    let mut rest = services;
    let mut r: Vec<ServiceDetail> = Vec::new();
    let mut k: usize = 0;
    assert(all.skip(0) =~= all);
    while rest.len() > 0
        invariant
            k <= all.len(),
            all.len() == n,
            rest@ == all.skip(k as int),
            r@ == auto_start_selection(all.take(k as int)),
        decreases rest.len(),
    {
        let s = rest.remove(0);
        proof {
            assert(s == all[k as int]);
            assert(all.take(k + 1).drop_last() =~= all.take(k as int));
            assert(rest@ =~= all.skip(k + 1));
        }
        if s.enabled && s.auto_start {
            r.push(s);
        }
        k = k + 1;
    }
    assert(all.take(k as int) =~= all);
    r
}

} // verus!
