//! The human-readable summary line written once per completed cycle.

use vstd::prelude::*;
use vstd::string::StringExecFns;

use crate::reconcile::{CycleSummary, SummaryModel};
use crate::text::{dec_of, dec_string, display_names, join_or_dash};

verus! {

/// The summary line for one cycle, with the upstream fetch and store
/// round-trip timings in milliseconds.
pub open spec fn summary_message_spec(s: SummaryModel, http_ms: nat, store_ms: nat) -> Seq<char> {
    "servers: added="@ + dec_of(s.added as nat) + " ["@ + display_names(s.added_names) + "], removed="@
        + dec_of(s.removed as nat) + " ["@ + display_names(s.removed_names) + "], unchanged="@
        + dec_of(s.unchanged as nat) + " | online=["@ + display_names(s.online_now)
        + "] offline=["@ + display_names(s.offline_now) + "] (http="@ + dec_of(http_ms)
        + "ms, store="@ + dec_of(store_ms) + "ms)"@
}

/// Builds the cycle's summary line.
#[verifier::rlimit(30)]
pub fn summary_message(summary: &CycleSummary, http_ms: u128, store_ms: u128) -> (r: String)
    ensures
        r@ == summary_message_spec(summary@, http_ms as nat, store_ms as nat),
{
    let mut r = "servers: added=".to_owned();
    r.append(dec_string(summary.added as u128).as_str());
    r.append(" [");
    r.append(join_or_dash(&summary.added_names).as_str());
    r.append("], removed=");
    r.append(dec_string(summary.removed as u128).as_str());
    r.append(" [");
    r.append(join_or_dash(&summary.removed_names).as_str());
    r.append("], unchanged=");
    r.append(dec_string(summary.unchanged as u128).as_str());
    r.append(" | online=[");
    r.append(join_or_dash(&summary.online_now).as_str());
    r.append("] offline=[");
    r.append(join_or_dash(&summary.offline_now).as_str());
    r.append("] (http=");
    r.append(dec_string(http_ms).as_str());
    r.append("ms, store=");
    r.append(dec_string(store_ms).as_str());
    r.append("ms)");
    proof {
        assert(r@ =~= summary_message_spec(summary@, http_ms as nat, store_ms as nat));
    }
    r
}

} // verus!
