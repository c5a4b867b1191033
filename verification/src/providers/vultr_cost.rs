//! Vultr: the monthly cost of the whole fleet at its current size.

use super::{report, usage_account};
use crate::db::Account;
use crate::error::{CoreError, Result};
use crate::ids::ProviderId;
use crate::json::Json;
use crate::provider::RefreshReport;
use crate::text::{dec_string, str_eq, trim};
use vstd::prelude::*;

verus! {

use super::{is_complaint, is_provider_account, is_report};
use crate::order::{first_index, lemma_first_index};
use crate::text::{dec, opt_text, trimmed};

/// The account that the run-rate lands on, unless another is configured.
pub const DEFAULT_ACCOUNT_NAME: &'static str = "Vultr VPS hosting";

/// The settings of a fleet cost provider.
#[derive(Clone, Debug)]
pub struct VultrCostConfig {
    pub account_name: Option<String>,
}

impl core::default::Default for VultrCostConfig {
    fn default() -> (r: VultrCostConfig)
        ensures
            r.account_name is None,
    {
        VultrCostConfig { account_name: None }
    }
}

/// The account that the cost is stored on: the configured name without the white space
/// around it, unless that leaves nothing.
pub open spec fn account_name_of(configured: Option<Seq<char>>) -> Seq<char> {
    match configured {
        Some(s) => if trimmed(s).len() > 0 {
            trimmed(s)
        } else {
            "Vultr VPS hosting"@
        },
        None => "Vultr VPS hosting"@,
    }
}

/// The configured account name, trimmed, or else the default one.
pub fn account_name(configured: &Option<String>) -> (r: String)
    ensures
        r@ == account_name_of(opt_text(*configured)),
{
    match configured {
        Some(s) => {
            let t: String = trim(s.as_str());
            if t.as_str().unicode_len() > 0 {
                return t;
            }
        },
        None => {},
    }
    DEFAULT_ACCOUNT_NAME.to_owned()
}

/// One instance of the fleet.
#[derive(Clone, Debug)]
pub struct Instance {
    pub plan: String,
    pub label: String,
}

/// One plan of the catalog, with its monthly price in cents, or why its price is refused.
#[derive(Debug)]
pub struct Plan {
    pub id: String,
    pub monthly_cost: core::result::Result<i64, String>,
}

/// The fleet in a reply, or the complaint that it is missing.
pub fn fleet_of(reply: &Json) -> (r: Result<&Json>)
    ensures
        match (r, reply.at("instances"@)) {
            (Ok(v), Some(x)) => *v == x,
            (Err(e), None) => is_complaint(e, "vultr: response missing `instances` array"@),
            _ => false,
        },
{
    match reply.get("instances") {
        Some(v) => Ok(v),
        None => Err(CoreError::Rpc("vultr: response missing `instances` array".to_owned())),
    }
}

/// The catalog in a reply, or the complaint that it is missing.
pub fn catalog_of(reply: &Json) -> (r: Result<&Json>)
    ensures
        match (r, reply.at("plans"@)) {
            (Ok(v), Some(x)) => *v == x,
            (Err(e), None) => is_complaint(e, "vultr: response missing `plans` array"@),
            _ => false,
        },
{
    match reply.get("plans") {
        Some(v) => Ok(v),
        None => Err(CoreError::Rpc("vultr: response missing `plans` array".to_owned())),
    }
}

/// The first plan with an id, or the number of plans.
pub open spec fn plan_slot(plans: Seq<Plan>, id: Seq<char>) -> int {
    first_index(plans, |p: Plan| p.id@ == id)
}

/// What an instance costs in a month, or the complaint about it.
pub open spec fn cost_of(inst: Instance, plans: Seq<Plan>) -> core::result::Result<int, Seq<char>> {
    let k = plan_slot(plans, inst.plan@);
    if k < plans.len() {
        match plans[k].monthly_cost {
            Ok(cents) => Ok(cents as int),
            Err(e) => Err(e@),
        }
    } else {
        Err(
            "vultr: instance "@ + (if inst.label@.len() == 0 {
                "<unlabeled>"@
            } else {
                inst.label@
            }) + " on unknown plan "@ + inst.plan@,
        )
    }
}

/// What a fleet costs in a month, or the complaint about the first instance that has none.
pub open spec fn fleet_cost(instances: Seq<Instance>, plans: Seq<Plan>) -> core::result::Result<
    int,
    Seq<char>,
>
    decreases instances.len(),
{
    if instances.len() == 0 {
        Ok(0)
    } else {
        match fleet_cost(instances.drop_last(), plans) {
            Err(e) => Err(e),
            Ok(before) => match cost_of(instances.last(), plans) {
                Ok(cents) => Ok(before + cents),
                Err(e) => Err(e),
            },
        }
    }
}

/// Whether the running cost stays within the integers.
pub open spec fn cost_fits(instances: Seq<Instance>, plans: Seq<Plan>) -> bool {
    forall|k: int|
        0 <= k <= instances.len() ==> match #[trigger] fleet_cost(instances.take(k), plans) {
            Ok(n) => i64::MIN <= n <= i64::MAX,
            Err(_) => true,
        }
}

fn find_plan(plans: &Vec<Plan>, id: &str) -> (r: usize)
    ensures
        r == plan_slot(plans@, id@),
        r <= plans@.len(),
{
    let ghost p = |p: Plan| p.id@ == id@;
    let mut i: usize = 0;
    while i < plans.len()
        invariant
            i <= plans.len(),
            p == (|p: Plan| p.id@ == id@),
            forall|j: int| 0 <= j < i ==> !p(#[trigger] plans@[j]),
        decreases plans.len() - i,
    {
        if str_eq(plans[i].id.as_str(), id) {
            proof {
                lemma_first_index(plans@, p, i as int);
            }
            return i;
        }
        i = i + 1;
    }
    proof {
        lemma_first_index(plans@, p, i as int);
    }
    i
}

fn instance_cost(inst: &Instance, plans: &Vec<Plan>) -> (r: core::result::Result<i64, String>)
    ensures
        match (r, cost_of(*inst, plans@)) {
            (Ok(a), Ok(b)) => a == b,
            (Err(a), Err(b)) => a@ == b,
            _ => false,
        },
{
    let k: usize = find_plan(plans, inst.plan.as_str());
    if k < plans.len() {
        match &plans[k].monthly_cost {
            Ok(cents) => Ok(*cents),
            Err(e) => Err(e.clone()),
        }
    } else {
        let label: String = if inst.label.as_str().unicode_len() == 0 {
            "<unlabeled>".to_owned()
        } else {
            inst.label.clone()
        };
        Err(
            "vultr: instance ".to_owned().concat(label.as_str()).concat(
                " on unknown plan ",
            ).concat(inst.plan.as_str()),
        )
    }
}

/// A fleet that fails at one instance fails as a whole.
proof fn lemma_failure_stays(instances: Seq<Instance>, plans: Seq<Plan>, k: int)
    requires
        0 <= k <= instances.len(),
        fleet_cost(instances.take(k), plans) is Err,
    ensures
        fleet_cost(instances, plans) == fleet_cost(instances.take(k), plans),
    decreases instances.len() - k,
{
    if k < instances.len() {
        assert(instances.take(k + 1).drop_last() =~= instances.take(k));
        lemma_failure_stays(instances, plans, k + 1);
    } else {
        assert(instances.take(k) =~= instances);
    }
}

/// Whether the cost of a fleet can be added up.
pub fn can_total(instances: &Vec<Instance>, plans: &Vec<Plan>) -> (r: bool)
    ensures
        r == cost_fits(instances@, plans@),
{
    let mut total: i64 = 0;
    let mut i: usize = 0;
    assert(instances@.take(0) =~= Seq::<Instance>::empty());
    while i < instances.len()
        invariant
            i <= instances.len(),
            fleet_cost(instances@.take(i as int), plans@) == Ok::<int, Seq<char>>(total as int),
            forall|k: int|
                0 <= k <= i ==> match #[trigger] fleet_cost(instances@.take(k), plans@) {
                    Ok(n) => i64::MIN <= n <= i64::MAX,
                    Err(_) => true,
                },
        decreases instances.len() - i,
    {
        assert(instances@.take(i + 1).drop_last() =~= instances@.take(i as int));
        assert(instances@.take(i + 1).last() == instances@[i as int]);
        match instance_cost(&instances[i], plans) {
            Ok(cents) => match total.checked_add(cents) {
                Some(n) => {
                    total = n;
                },
                None => {
                    assert(fleet_cost(instances@.take(i + 1), plans@) is Ok);
                    return false;
                },
            },
            Err(_) => {
                assert forall|k: int| 0 <= k <= instances@.len() implies match #[trigger] fleet_cost(
                    instances@.take(k),
                    plans@,
                ) {
                    Ok(n) => i64::MIN <= n <= i64::MAX,
                    Err(_) => true,
                } by {
                    if k > i {
                        assert(instances@.take(k).take(i + 1) =~= instances@.take(i + 1));
                        lemma_failure_stays(instances@.take(k), plans@, i + 1);
                    }
                }
                return true;
            },
        }
        i = i + 1;
    }
    true
}

/// The monthly cost of a fleet in cents, and the number of its instances. An instance on a
/// plan that is not in the catalog is an error: leaving it out would understate the bill.
pub fn monthly_cost_cents(instances: &Vec<Instance>, plans: &Vec<Plan>) -> (r: Result<
    (i64, usize),
>)
    requires
        cost_fits(instances@, plans@),
    ensures
        match (r, fleet_cost(instances@, plans@)) {
            (Ok(pair), Ok(total)) => is_total(pair, total, instances@.len()),
            (Err(e), Err(why)) => is_complaint(e, why),
            _ => false,
        },
{
    let mut total: i64 = 0;
    let mut i: usize = 0;
    assert(instances@.take(0) =~= Seq::<Instance>::empty());
    while i < instances.len()
        invariant
            i <= instances.len(),
            cost_fits(instances@, plans@),
            fleet_cost(instances@.take(i as int), plans@) == Ok::<int, Seq<char>>(total as int),
        decreases instances.len() - i,
    {
        assert(instances@.take(i + 1).drop_last() =~= instances@.take(i as int));
        assert(instances@.take(i + 1).last() == instances@[i as int]);
        match instance_cost(&instances[i], plans) {
            Ok(cents) => {
                assert(fleet_cost(instances@.take(i + 1), plans@) is Ok);
                total = total + cents;
            },
            Err(e) => {
                proof {
                    lemma_failure_stays(instances@, plans@, i + 1);
                }
                return Err(CoreError::Rpc(e));
            },
        }
        i = i + 1;
    }
    assert(instances@.take(i as int) =~= instances@);
    Ok((total, instances.len()))
}

pub open spec fn is_total(pair: (i64, usize), total: int, count: nat) -> bool {
    pair.0 == total && pair.1 == count
}

/// A fleet has a cost exactly if each of its instances has one: none is left out.
pub proof fn law_no_instance_is_dropped(instances: Seq<Instance>, plans: Seq<Plan>)
    ensures
        fleet_cost(instances, plans) is Ok <==> forall|i: int|
            0 <= i < instances.len() ==> cost_of(#[trigger] instances[i], plans) is Ok,
    decreases instances.len(),
{
    if instances.len() > 0 {
        let d = instances.drop_last();
        law_no_instance_is_dropped(d, plans);
        if fleet_cost(instances, plans) is Ok {
            assert forall|i: int| 0 <= i < instances.len() implies cost_of(
                #[trigger] instances[i],
                plans,
            ) is Ok by {
                if i < d.len() {
                    assert(d[i] == instances[i]);
                }
            }
        } else {
            if fleet_cost(d, plans) is Err {
                let j = choose|j: int|
                    0 <= j < d.len() && cost_of(#[trigger] d[j], plans) is Err;
                assert(d[j] == instances[j]);
            } else {
                assert(cost_of(instances[instances.len() - 1], plans) is Err);
            }
        }
    }
}

/// The account that holds the cost.
pub fn cost_account(name: String, provider_id: ProviderId) -> (r: Account)
    ensures
        is_provider_account(
            r,
            name@,
            "subscription"@,
            None,
            None,
            "USD"@,
            provider_id,
            None,
            Some("monthly_cost"@),
        ),
{
    usage_account(name, "USD", provider_id, "monthly_cost")
}

/// The report of a refresh; `dollars` is the cost as it is shown.
pub fn cost_report(count: usize, dollars: &str) -> (r: RefreshReport)
    ensures
        is_report(
            r,
            "vultr_cost"@,
            1,
            Some(
                dec(count as nat) + " instance"@ + (if count == 1 {
                    ""@
                } else {
                    "s"@
                }) + " · $"@ + dollars@ + "/mo run-rate"@,
            ),
        ),
{
    let plural: &str = if count == 1 {
        ""
    } else {
        "s"
    };
    report(
        "vultr_cost",
        1,
        Some(
            dec_string(count as u64).concat(" instance").concat(plural).concat(" · $").concat(
                dollars,
            ).concat("/mo run-rate"),
        ),
    )
}

/// There is no feed of transactions: the cost is one figure.
pub fn no_feed() -> (r: RefreshReport)
    ensures
        is_report(r, "vultr_cost"@, 0, Some("vultr_cost: no transaction feed"@)),
{
    report("vultr_cost", 0, Some("vultr_cost: no transaction feed".to_owned()))
}

} // verus!
