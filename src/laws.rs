use vstd::prelude::*;
use crate::config::ConfigView;
use crate::store::{has_name, names_distinct, upsert_all, with_active, StoreView};

verus! {

/// Saving a store lists its entries in order; loading binds them in turn.
/// For a store whose names are distinct, which every store is, this gives
/// back the same names with the same records, in the same order.
pub proof fn lemma_reload_round_trip(s: StoreView)
    requires
        names_distinct(s),
    ensures
        upsert_all(s) == s,
    decreases s.len(),
{
    if s.len() > 0 {
        let p = s.drop_last();
        assert(names_distinct(p));
        lemma_reload_round_trip(p);
        assert(!has_name(p, s.last().0)) by {
            if has_name(p, s.last().0) {
                let i = choose|i: int| 0 <= i < p.len() && p[i].0 == s.last().0;
                assert(s[i].0 == s[s.len() - 1].0);
            }
        }
        assert(p.push(s.last()) =~= s);
    }
}

/// Turning the same names on (or off) a second time changes nothing more,
/// and which names are found does not depend on the flags: a name that is
/// present is reported found whatever its flag was.
pub proof fn lemma_set_active_idempotent(s: StoreView, names: Seq<Seq<char>>, active: bool)
    ensures
        with_active(with_active(s, names, active), names, active) == with_active(s, names, active),
        forall|n: Seq<char>| has_name(with_active(s, names, active), n) == has_name(s, n),
{
    let t = with_active(s, names, active);
    assert(with_active(t, names, active) =~= t);
    assert forall|n: Seq<char>| has_name(t, n) == has_name(s, n) by {
        if has_name(s, n) {
            let i = choose|i: int| 0 <= i < s.len() && s[i].0 == n;
            assert(t[i].0 == n);
        }
        if has_name(t, n) {
            let i = choose|i: int| 0 <= i < t.len() && t[i].0 == n;
            assert(s[i].0 == n);
        }
    }
}

/// Turning on `a` and an unknown `b` together still turns `a` on, and leaves
/// every other configuration as it was.
pub proof fn lemma_partial_success(s: StoreView, a: Seq<char>, b: Seq<char>)
    requires
        !has_name(s, b),
    ensures
        with_active(s, seq![a, b], true).len() == s.len(),
        forall|i: int|
            0 <= i < s.len() && (#[trigger] s[i]).0 == a ==> with_active(s, seq![a, b], true)[i] == (
            a,
            ConfigView { active: true, ..s[i].1 },
        ),
        forall|i: int|
            0 <= i < s.len() && (#[trigger] s[i]).0 != a ==> with_active(s, seq![a, b], true)[i] == s[i],
{
    let ns = seq![a, b];
    assert forall|i: int| 0 <= i < s.len() implies (ns.contains(s[i].0) <==> s[i].0 == a) by {
        assert(ns[0] == a);
        if ns.contains(s[i].0) {
            let k = choose|k: int| 0 <= k < ns.len() && ns[k] == s[i].0;
            if k == 1 {
                assert(has_name(s, b));
            }
        }
    }
}

} // verus!
