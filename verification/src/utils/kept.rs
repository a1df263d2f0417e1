//! What picking things out of a sequence, in order, comes to.

use vstd::prelude::*;

verus! {

/// What is picked out of a sequence grows with it.
pub proof fn lemma_kept_step<A, B>(s: Seq<A>, keep: spec_fn(A) -> bool, make: spec_fn(A) -> B)
    ensures
        s.len() == 0 ==> s.filter(keep).map_values(make) == Seq::<B>::empty(),
        s.len() > 0 ==> s.filter(keep).map_values(make) == {
            let before = s.drop_last().filter(keep).map_values(make);
            if keep(s.last()) {
                before.push(make(s.last()))
            } else {
                before
            }
        },
{
    reveal(Seq::filter);
    let all = s.filter(keep).map_values(make);
    if s.len() == 0 {
        assert(all =~= Seq::<B>::empty());
    } else {
        let before = s.drop_last().filter(keep);
        if keep(s.last()) {
            assert(all =~= before.map_values(make).push(make(s.last())));
        }
    }
}

/// Everything that is to be picked is, and nothing else.
pub proof fn lemma_kept_members<A, B>(s: Seq<A>, keep: spec_fn(A) -> bool, make: spec_fn(A) -> B)
    ensures
        forall|i: int|
            0 <= i < s.len() && keep(#[trigger] s[i]) ==> s.filter(keep).map_values(make).contains(
                make(s[i]),
            ),
        forall|x: B| #[trigger]
            s.filter(keep).map_values(make).contains(x) ==> exists|i: int|
                0 <= i < s.len() && keep(#[trigger] s[i]) && make(s[i]) == x,
    decreases s.len(),
{
    lemma_kept_step(s, keep, make);
    let all = s.filter(keep).map_values(make);
    if s.len() > 0 {
        let rest = s.drop_last();
        let before = rest.filter(keep).map_values(make);
        lemma_kept_members(rest, keep, make);
        assert forall|i: int| 0 <= i < s.len() && keep(#[trigger] s[i]) implies all.contains(
            make(s[i]),
        ) by {
            if i < rest.len() {
                assert(rest[i] == s[i]);
                let j = choose|j: int| 0 <= j < before.len() && before[j] == make(s[i]);
                assert(all[j] == make(s[i]));
            } else {
                assert(all[all.len() - 1] == make(s[i]));
            }
        }
        assert forall|x: B| #[trigger] all.contains(x) implies exists|i: int|
            0 <= i < s.len() && keep(#[trigger] s[i]) && make(s[i]) == x by {
            let j = choose|j: int| 0 <= j < all.len() && all[j] == x;
            if j < before.len() {
                assert(before[j] == x);
                assert(before.contains(x));
                let i = choose|i: int| 0 <= i < rest.len() && keep(#[trigger] rest[i]) && make(
                    rest[i],
                ) == x;
                assert(s[i] == rest[i]);
            } else {
                assert(s[s.len() - 1] == s.last());
            }
        }
    }
}

} // verus!
