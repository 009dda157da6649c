//! What holds of a usage sync plan: every event is either imported once or
//! skipped for counting no token, never both and never twice.
use vstd::prelude::*;
use crate::session_usage::spec_plan;

verus! {

/// A sync plan accounts for every event exactly once: the rows and the
/// skipped events add up to the events; each row is a token-bearing event,
/// under that event's key; and the rows follow the events' order, so no
/// event is imported twice.
pub proof fn law_plan_accounts_for_each_event_once(keys: Seq<Seq<char>>, zero: Seq<bool>)
    requires
        keys.len() == zero.len(),
    ensures
        spec_plan(keys, zero).0.len() + spec_plan(keys, zero).1 == zero.len(),
        forall|j: int|
            0 <= j < spec_plan(keys, zero).0.len() ==> {
                let row = #[trigger] spec_plan(keys, zero).0[j];
                &&& 0 <= row.1 < zero.len()
                &&& !zero[row.1]
                &&& row.0 == keys[row.1]
            },
        forall|a: int, b: int|
            0 <= a < b < spec_plan(keys, zero).0.len() ==> spec_plan(keys, zero).0[a].1 < spec_plan(
                keys,
                zero,
            ).0[b].1,
    decreases zero.len(),
{
    if zero.len() > 0 {
        let k1 = keys.drop_last();
        let z1 = zero.drop_last();
        law_plan_accounts_for_each_event_once(k1, z1);
        let (rows, _) = spec_plan(k1, z1);
        assert forall|j: int| 0 <= j < rows.len() implies {
            &&& keys[rows[j].1] == k1[rows[j].1]
            &&& zero[rows[j].1] == z1[rows[j].1]
        } by {
            let row = rows[j];
            assert(0 <= row.1 < z1.len());
        }
    }
}

} // verus!
