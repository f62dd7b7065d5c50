use vstd::prelude::*;

use crate::weight::Weighted;

verus! {

// The abstract state of a cache is a sequence of entries, each the identity
// of a key paired with the stored value, ordered from least recently to most
// recently inserted.

/// The sum of the weights of the values of a sequence of entries.
pub open spec fn total_weight<V: Weighted>(s: Seq<(Seq<u8>, V)>) -> nat
    decreases s.len(),
{
    if s.len() == 0 {
        0
    } else {
        s[0].1.spec_weight() as nat + total_weight(s.drop_first())
    }
}

/// No two entries share a key identity.
pub open spec fn distinct_keys<V>(s: Seq<(Seq<u8>, V)>) -> bool {
    forall|i: int, j: int| 0 <= i < j < s.len() ==> (#[trigger] s[i]).0 != (#[trigger] s[j]).0
}

/// Some entry carries the key identity `id`.
pub open spec fn has_key<V>(s: Seq<(Seq<u8>, V)>, id: Seq<u8>) -> bool {
    exists|i: int| 0 <= i < s.len() && (#[trigger] s[i]).0 == id
}

/// Discard entries from the least-recently-inserted end until a value of
/// weight `w` fits within the budget `cap`.
pub open spec fn evict_to_fit<V: Weighted>(s: Seq<(Seq<u8>, V)>, w: nat, cap: nat) -> Seq<
    (Seq<u8>, V),
>
    decreases s.len(),
{
    if s.len() > 0 && total_weight(s) + w > cap {
        evict_to_fit(s.drop_first(), w, cap)
    } else {
        s
    }
}

pub proof fn lemma_total_weight_push<V: Weighted>(s: Seq<(Seq<u8>, V)>, p: (Seq<u8>, V))
    ensures
        total_weight(s.push(p)) == total_weight(s) + p.1.spec_weight(),
    decreases s.len(),
{
    if s.len() == 0 {
        assert(s.push(p).drop_first() =~= Seq::<(Seq<u8>, V)>::empty());
        assert(s.push(p)[0] == p);
        assert(total_weight(Seq::<(Seq<u8>, V)>::empty()) == 0);
        assert(total_weight(s.push(p)) == p.1.spec_weight() as nat + total_weight(
            s.push(p).drop_first(),
        ));
    } else {
        assert(s.push(p).drop_first() =~= s.drop_first().push(p));
        lemma_total_weight_push(s.drop_first(), p);
        assert(s.push(p)[0] == s[0]);
        assert(total_weight(s.push(p)) == s[0].1.spec_weight() as nat + total_weight(
            s.drop_first().push(p),
        ));
        assert(total_weight(s) == s[0].1.spec_weight() as nat + total_weight(s.drop_first()));
    }
}

pub proof fn lemma_total_weight_remove<V: Weighted>(s: Seq<(Seq<u8>, V)>, i: int)
    requires
        0 <= i < s.len(),
    ensures
        total_weight(s.remove(i)) + s[i].1.spec_weight() == total_weight(s),
    decreases s.len(),
{
    if i == 0 {
        assert(s.remove(0) =~= s.drop_first());
    } else {
        assert(s.remove(i).drop_first() =~= s.drop_first().remove(i - 1));
        assert(s.remove(i)[0] == s[0]);
        assert(s.drop_first()[i - 1] == s[i]);
        lemma_total_weight_remove(s.drop_first(), i - 1);
    }
}

pub proof fn lemma_evict_to_fit_fits<V: Weighted>(s: Seq<(Seq<u8>, V)>, w: nat, cap: nat)
    requires
        w <= cap,
    ensures
        total_weight(evict_to_fit(s, w, cap)) + w <= cap,
    decreases s.len(),
{
    if s.len() > 0 && total_weight(s) + w > cap {
        lemma_evict_to_fit_fits(s.drop_first(), w, cap);
    }
}

pub proof fn lemma_evict_to_fit_absent<V: Weighted>(
    s: Seq<(Seq<u8>, V)>,
    w: nat,
    cap: nat,
    id: Seq<u8>,
)
    requires
        !has_key(s, id),
    ensures
        !has_key(evict_to_fit(s, w, cap), id),
    decreases s.len(),
{
    if s.len() > 0 && total_weight(s) + w > cap {
        assert(!has_key(s.drop_first(), id)) by {
            if has_key(s.drop_first(), id) {
                let i = choose|i: int|
                    0 <= i < s.drop_first().len() && (#[trigger] s.drop_first()[i]).0 == id;
                assert(s[i + 1].0 == id);
            }
        }
        lemma_evict_to_fit_absent(s.drop_first(), w, cap, id);
    }
}

} // verus!
