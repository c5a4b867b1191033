//! Which providers there are.

use crate::db::{find_provider, ProviderRow};
use crate::ids::ProviderId;
use crate::text::str_eq;
use vstd::prelude::*;

verus! {

use crate::db::{is_provider, provider_slot};
use crate::order::{lemma_first_index, lemma_first_index_is_first};

/// The kinds of provider that can be built. A row of another kind would never be polled,
/// so it is refused when it is written.
pub const KNOWN_KINDS: [&'static str; 12] = [
    "manual",
    "plaid",
    "mercury",
    "stripe",
    "openrouter",
    "openai_usage",
    "scrapecreators",
    "postmark",
    "gold_spot",
    "vultr",
    "vultr_cost",
    "xmr_spot",
];

/// Whether a provider of a kind can be built.
pub open spec fn is_known_kind(kind: Seq<char>) -> bool {
    ||| kind == "manual"@
    ||| kind == "plaid"@
    ||| kind == "mercury"@
    ||| kind == "stripe"@
    ||| kind == "openrouter"@
    ||| kind == "openai_usage"@
    ||| kind == "scrapecreators"@
    ||| kind == "postmark"@
    ||| kind == "gold_spot"@
    ||| kind == "vultr"@
    ||| kind == "vultr_cost"@
    ||| kind == "xmr_spot"@
}

/// The list of kinds, as it is shown.
pub open spec fn kind_list() -> Seq<char> {
    "manual"@ + ", "@ + "plaid"@ + ", "@ + "mercury"@ + ", "@ + "stripe"@ + ", "@ + "openrouter"@
        + ", "@ + "openai_usage"@ + ", "@ + "scrapecreators"@ + ", "@ + "postmark"@ + ", "@
        + "gold_spot"@ + ", "@ + "vultr"@ + ", "@ + "vultr_cost"@ + ", "@ + "xmr_spot"@
}

/// Whether a provider of a kind can be built.
pub fn known_kind(kind: &str) -> (r: bool)
    ensures
        r == is_known_kind(kind@),
{
    let k: [&'static str; 12] = KNOWN_KINDS;
    assert(k@[0]@ == "manual"@ && k@[1]@ == "plaid"@ && k@[2]@ == "mercury"@ && k@[3]@ == "stripe"@
        && k@[4]@ == "openrouter"@ && k@[5]@ == "openai_usage"@ && k@[6]@ == "scrapecreators"@
        && k@[7]@ == "postmark"@ && k@[8]@ == "gold_spot"@ && k@[9]@ == "vultr"@ && k@[10]@
        == "vultr_cost"@ && k@[11]@ == "xmr_spot"@);
    str_eq(k[0], kind) || str_eq(k[1], kind) || str_eq(k[2], kind) || str_eq(k[3], kind) || str_eq(
        k[4],
        kind,
    ) || str_eq(k[5], kind) || str_eq(k[6], kind) || str_eq(k[7], kind) || str_eq(k[8], kind)
        || str_eq(k[9], kind) || str_eq(k[10], kind) || str_eq(k[11], kind)
}

/// The list of kinds, as it is shown.
pub fn known_kinds() -> (r: String)
    ensures
        r@ == kind_list(),
{
    let k: [&'static str; 12] = KNOWN_KINDS;
    assert(k@[0]@ == "manual"@ && k@[1]@ == "plaid"@ && k@[2]@ == "mercury"@ && k@[3]@ == "stripe"@
        && k@[4]@ == "openrouter"@ && k@[5]@ == "openai_usage"@ && k@[6]@ == "scrapecreators"@
        && k@[7]@ == "postmark"@ && k@[8]@ == "gold_spot"@ && k@[9]@ == "vultr"@ && k@[10]@
        == "vultr_cost"@ && k@[11]@ == "xmr_spot"@);
    k[0].to_owned().concat(", ").concat(k[1]).concat(", ").concat(k[2]).concat(", ").concat(
        k[3],
    ).concat(", ").concat(k[4]).concat(", ").concat(k[5]).concat(", ").concat(k[6]).concat(
        ", ",
    ).concat(k[7]).concat(", ").concat(k[8]).concat(", ").concat(k[9]).concat(", ").concat(
        k[10],
    ).concat(", ").concat(k[11])
}

/// The providers after the manual one is seeded: one that is there stays as it is, settings
/// and all; where there is none, the stub is added under a fresh id.
pub open spec fn is_seeded(
    after: Seq<ProviderRow>,
    before: Seq<ProviderRow>,
    fresh: ProviderId,
    id: ProviderId,
) -> bool {
    let k = provider_slot(before, "manual"@, "manual"@);
    if k < before.len() {
        after == before && id == before[k].id
    } else {
        &&& after.len() == before.len() + 1
        &&& after.drop_last() == before
        &&& is_manual_stub(after.last())
        &&& after.last().id == fresh
        &&& id == fresh
    }
}

/// Makes sure that the row of the manual provider is there, and gives its id.
pub fn seed_manual(rows: &mut Vec<ProviderRow>, fresh: ProviderId) -> (r: ProviderId)
    ensures
        is_seeded(final(rows)@, old(rows)@, fresh, r),
{
    let k: usize = find_provider(rows, "manual", "manual");
    if k < rows.len() {
        return rows[k].id;
    }
    let mut w: ProviderRow = ProviderRow::registry_stub("manual", "manual");
    w.id = fresh;
    rows.push(w);
    assert(rows@.drop_last() =~= old(rows)@);
    fresh
}

/// The manual provider always exists once it was seeded, and seeding again changes nothing.
pub proof fn law_manual_exists(
    after: Seq<ProviderRow>,
    before: Seq<ProviderRow>,
    fresh: ProviderId,
    id: ProviderId,
    again: Seq<ProviderRow>,
    other: ProviderId,
    second: ProviderId,
)
    requires
        is_seeded(after, before, fresh, id),
        is_seeded(again, after, other, second),
    ensures
        provider_slot(after, "manual"@, "manual"@) < after.len(),
        again == after,
        second == id,
{
    let p = |x: ProviderRow| is_provider(x, "manual"@, "manual"@);
    let k = provider_slot(before, "manual"@, "manual"@);
    lemma_first_index_is_first(before, p);
    if k == before.len() {
        assert forall|j: int| 0 <= j < k implies !p(#[trigger] after[j]) by {
            assert(after.drop_last()[j] == before[j]);
        }
        assert(p(after[k]));
        lemma_first_index(after, p, k);
    }
}

/// The row of the manual provider as it is seeded.
pub open spec fn is_manual_stub(w: ProviderRow) -> bool {
    &&& w.kind@ == "manual"@
    &&& w.label@ == "manual"@
    &&& w.config_json@ == "{}"@
    &&& w.secret_ref is None
    &&& w.poll_cadence@ == "manual"@
    &&& w.last_poll_at is None
    &&& w.last_status is None
}

} // verus!
