//! Listing an event's matches in schedule order.

use vstd::prelude::*;

use crate::event::EventError;
use crate::storage_types::Match;

verus! {

/// The matches that were found, in the order their ids are listed.
pub open spec fn present_matches(fetched: Seq<Option<Match>>) -> Seq<Match>
    decreases fetched.len(),
{
    if fetched.len() == 0 {
        Seq::empty()
    } else {
        let rest = present_matches(fetched.drop_last());
        match fetched.last() {
            Some(m) => rest.push(m),
            None => rest,
        }
    }
}

/// `out` is `src` reordered by `perm` (`out[k] == src[perm[k]]`, with `perm`
/// a permutation) so that match times ascend, and matches with equal times
/// keep their relative order from `src`.
pub open spec fn is_stable_time_order(src: Seq<Match>, out: Seq<Match>, perm: Seq<int>) -> bool {
    &&& out.len() == src.len()
    &&& perm.len() == src.len()
    &&& forall|k: int| 0 <= k < out.len() ==> 0 <= #[trigger] perm[k] < src.len()
    &&& forall|k: int| 0 <= k < out.len() ==> #[trigger] out[k] == src[perm[k]]
    &&& forall|k: int, l: int| 0 <= k < l < out.len() ==> perm[k] != perm[l]
    &&& forall|k: int, l: int|
        0 <= k < l < out.len() ==> (#[trigger] out[k]).match_time <= (#[trigger] out[l]).match_time
    &&& forall|k: int, l: int|
        0 <= k < l < out.len() && (#[trigger] out[k]).match_time == (#[trigger] out[l]).match_time
            ==> perm[k] < perm[l]
}

/// `out` is the stable sort of `src` by ascending match time.
pub open spec fn is_stable_time_sort(src: Seq<Match>, out: Seq<Match>) -> bool {
    exists|perm: Seq<int>| is_stable_time_order(src, out, perm)
}

/// Sorts matches by `match_time` ascending with an insertion sort (stable).
fn sort_by_match_time(v: &mut Vec<Match>)
    ensures
        is_stable_time_sort(old(v)@, final(v)@),
{
    let ghost src = v@;
    let n = v.len();
    let ghost mut perm: Seq<int> = Seq::new(n as nat, |k: int| k);
    if n == 0 {
        assert(is_stable_time_order(src, v@, perm));
        return;
    }
    let mut i: usize = 1;
    while i < n
        invariant
            1 <= i <= n,
            n == src.len(),
            v@.len() == n,
            perm.len() == n,
            forall|k: int| 0 <= k < n ==> 0 <= #[trigger] perm[k] < n,
            forall|k: int| 0 <= k < n ==> #[trigger] v@[k] == src[perm[k]],
            forall|k: int, l: int| 0 <= k < l < n ==> perm[k] != perm[l],
            forall|k: int| i <= k < n ==> #[trigger] perm[k] == k,
            forall|k: int| 0 <= k < i ==> #[trigger] perm[k] < i,
            forall|k: int, l: int|
                0 <= k < l < i ==> (#[trigger] v@[k]).match_time <= (#[trigger] v@[l]).match_time,
            forall|k: int, l: int|
                0 <= k < l < i && (#[trigger] v@[k]).match_time == (#[trigger] v@[l]).match_time
                    ==> perm[k] < perm[l],
        decreases n - i,
    {
        let mut j: usize = i;
        while j > 0 && v[j - 1].match_time > v[j].match_time
            invariant
                0 <= j <= i < n,
                n == src.len(),
                v@.len() == n,
                perm.len() == n,
                forall|k: int| 0 <= k < n ==> 0 <= #[trigger] perm[k] < n,
                forall|k: int| 0 <= k < n ==> #[trigger] v@[k] == src[perm[k]],
                forall|k: int, l: int| 0 <= k < l < n ==> perm[k] != perm[l],
                forall|k: int| i < k < n ==> #[trigger] perm[k] == k,
                perm[j as int] == i,
                forall|k: int| 0 <= k <= i && k != j ==> #[trigger] perm[k] < i,
                forall|k: int, l: int|
                    0 <= k < l <= i && k != j && l != j ==> (#[trigger] v@[k]).match_time <= (
                    #[trigger] v@[l]).match_time,
                forall|k: int, l: int|
                    0 <= k < l <= i && k != j && l != j && (#[trigger] v@[k]).match_time == (
                    #[trigger] v@[l]).match_time ==> perm[k] < perm[l],
                forall|l: int| j < l <= i ==> v@[j as int].match_time < (#[trigger] v@[l]).match_time,
            decreases j,
        {
            let cur = v.remove(j);
            v.insert(j - 1, cur);
            proof {
                let pj = perm[j as int];
                let pjm = perm[j - 1];
                perm = perm.update(j - 1, pj).update(j as int, pjm);
            }
            j = j - 1;
        }
        proof {
            assert forall|k: int, l: int|
                0 <= k < l < i + 1 implies (#[trigger] v@[k]).match_time <= (
                #[trigger] v@[l]).match_time by {
                if l == j && k < j - 1 {
                    assert(v@[k].match_time <= v@[j - 1].match_time);
                }
            }
        }
        i = i + 1;
    }
    assert(is_stable_time_order(src, v@, perm));
}

/// Lists an event's matches sorted by `match_time` ascending.
///
/// `fetched` holds, for each match id listed for the event in creation
/// order, the match record if one is stored. Fails with `EventNotFound` when
/// the event does not exist; otherwise returns the stored matches, ordered
/// by match time, with matches at the same time kept in listing order.
pub fn list_event_matches(event_exists: bool, fetched: Vec<Option<Match>>) -> (r: Result<
    Vec<Match>,
    EventError,
>)
    ensures
        !event_exists ==> r == Err::<Vec<Match>, EventError>(EventError::EventNotFound),
        event_exists ==> r is Ok && is_stable_time_sort(present_matches(fetched@), r->Ok_0@),
{
    if !event_exists {
        return Err(EventError::EventNotFound);
    }
    let mut matches: Vec<Match> = Vec::new();
    let mut fetched = fetched;
    let ghost all = fetched@;
    // Walk the listing in order, keeping the matches that were found.
    let n = fetched.len();
    let mut i: usize = 0;
    while i < n
        invariant
            i <= n,
            n == all.len(),
            fetched@ == all.subrange(i as int, n as int),
            matches@ == present_matches(all.subrange(0, i as int)),
        decreases n - i,
    {
        let item = fetched.remove(0);
        proof {
            assert(all.subrange(0, i + 1).drop_last() =~= all.subrange(0, i as int));
            assert(item == all[i as int]);
            assert(fetched@ =~= all.subrange(i + 1, n as int));
        }
        match item {
            Some(m) => matches.push(m),
            None => {},
        }
        i = i + 1;
    }
    assert(all.subrange(0, n as int) =~= all);
    sort_by_match_time(&mut matches);
    Ok(matches)
}


/// The matches that were found are exactly the `Some` entries of the
/// listing, in order.
proof fn lemma_present_matches_are_the_found(fetched: Seq<Option<Match>>)
    ensures
        present_matches(fetched) == fetched.filter_map(|o: Option<Match>| o),
    decreases fetched.len(),
{
    if fetched.len() > 0 {
        lemma_present_matches_are_the_found(fetched.drop_last());
        let rest = fetched.drop_last().filter_map(|o: Option<Match>| o);
        match fetched.last() {
            Some(m) => {
                assert(rest.push(m) =~= rest + seq![m]);
            },
            None => {},
        }
    }
}

/// Some position of `perm` holds `j`.
spec fn reaches(perm: Seq<int>, j: int) -> bool {
    exists|k: int| 0 <= k < perm.len() && perm[k] == j
}

/// An injective reordering of `0..n` within `0..n` reaches every position.
proof fn lemma_permutation_onto(perm: Seq<int>, n: int)
    requires
        n >= 0,
        perm.len() == n,
        forall|k: int| 0 <= k < n ==> 0 <= #[trigger] perm[k] < n,
        forall|k: int, l: int| 0 <= k < l < n ==> perm[k] != perm[l],
    ensures
        forall|j: int| 0 <= j < n ==> #[trigger] reaches(perm, j),
{
    let dom = vstd::set_lib::set_int_range(0, n);
    vstd::set_lib::lemma_int_range(0, n);
    let f = |k: int| perm[k];
    let img = dom.map(f);
    assert(vstd::relations::injective_on(f, dom)) by {
        assert forall|x1: int, x2: int|
            dom.contains(x1) && dom.contains(x2) && #[trigger] f(x1) == #[trigger] f(x2) implies x1
            == x2 by {
            if x1 < x2 {
                assert(perm[x1] != perm[x2]);
            } else if x2 < x1 {
                assert(perm[x2] != perm[x1]);
            }
        }
    }
    vstd::set_lib::lemma_map_size(dom, img, f);
    assert(img.subset_of(dom)) by {
        assert forall|y: int| img.contains(y) implies dom.contains(y) by {
            let x = choose|x: int| dom.contains(x) && f(x) == y;
            assert(0 <= perm[x] < n);
        }
    }
    vstd::set_lib::lemma_subset_equality(img, dom);
    assert forall|j: int| 0 <= j < n implies #[trigger] reaches(perm, j) by {
        assert(dom.contains(j));
        assert(img.contains(j));
        let k = choose|k: int| dom.contains(k) && f(k) == j;
        assert(perm[k] == j);
    }
}

/// The listing of an event's matches holds every stored match and nothing
/// else: as many matches as there are found entries, each found match
/// (whatever its result state) appears in it, each listed match is one of
/// the found ones, and the matches are in ascending order of match time.
pub proof fn lemma_listing_holds_every_found_match(fetched: Seq<Option<Match>>, out: Seq<Match>)
    requires
        is_stable_time_sort(present_matches(fetched), out),
    ensures
        out.len() == fetched.filter_map(|o: Option<Match>| o).len(),
        forall|i: int|
            0 <= i < fetched.len() && (#[trigger] fetched[i]) is Some ==> out.contains(
                fetched[i]->0,
            ),
        forall|k: int| 0 <= k < out.len() ==> fetched.contains(Some(#[trigger] out[k])),
        forall|k: int, l: int|
            0 <= k < l < out.len() ==> out[k].match_time <= out[l].match_time,
{
    let found = fetched.filter_map(|o: Option<Match>| o);
    lemma_present_matches_are_the_found(fetched);
    let perm = choose|perm: Seq<int>| is_stable_time_order(found, out, perm);
    lemma_permutation_onto(perm, found.len() as int);
    assert forall|i: int| 0 <= i < fetched.len() && (#[trigger] fetched[i]) is Some implies out.contains(
        fetched[i]->0,
    ) by {
        let m = fetched[i]->0;
        assert(fetched.contains(fetched[i]));
        lemma_found_contains(fetched, i);
        assert(found.contains(m));
        let j = choose|j: int| 0 <= j < found.len() && found[j] == m;
        assert(reaches(perm, j));
        let k = choose|k: int| 0 <= k < perm.len() && perm[k] == j;
        assert(out[k] == found[perm[k]]);
    }
    assert forall|k: int| 0 <= k < out.len() implies fetched.contains(Some(#[trigger] out[k])) by {
        assert(out[k] == found[perm[k]]);
        assert(found.contains(out[k]));
        fetched.lemma_filter_map_contains(|o: Option<Match>| o, out[k]);
    }
}

proof fn lemma_found_contains(fetched: Seq<Option<Match>>, i: int)
    requires
        0 <= i < fetched.len(),
        fetched[i] is Some,
    ensures
        fetched.filter_map(|o: Option<Match>| o).contains(fetched[i]->0),
    decreases fetched.len(),
{
    let found = fetched.filter_map(|o: Option<Match>| o);
    let rest = fetched.drop_last();
    let rest_found = rest.filter_map(|o: Option<Match>| o);
    if i == fetched.len() - 1 {
        let m = fetched[i]->0;
        assert(found == rest_found + seq![m]);
        assert(found[rest_found.len() as int] == m);
    } else {
        lemma_found_contains(rest, i);
        assert(rest[i] == fetched[i]);
        let j = choose|j: int| 0 <= j < rest_found.len() && rest_found[j] == rest[i]->0;
        match fetched.last() {
            Some(m) => {
                assert(found == rest_found + seq![m]);
                assert(found[j] == rest_found[j]);
            },
            None => {
                assert(found == rest_found);
            },
        }
    }
}

} // verus!
