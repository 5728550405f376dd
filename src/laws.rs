//! Properties that relate the store's operations to one another, proved over the
//! spec functions that the operations' contracts use.
use vstd::prelude::*;
use vstd::seq_lib::group_to_multiset_ensures;
use crate::capability::Entity;
use crate::memory::{
    ascending, found, has_id, ids_unique, index_of, lemma_index_of, ordered, place_by_id, presence, removed, saved,
    updated, StoreError,
};
use crate::page::{Page, Sort};

verus! {

/// Saving an entity and then looking up its id gives back that entity; ids stay unique.
pub proof fn law_round_trip<E: Entity<u64>>(s: Seq<E>, e: E)
    requires
        ids_unique(s),
    ensures
        ids_unique(saved(s, e)),
        found(saved(s, e), e.id()) == Ok::<E, StoreError>(e),
{
    let t = saved(s, e);
    if has_id(s, e.id()) {
        let i = index_of(s, e.id());
        assert(ids_unique(t));
        lemma_index_of(t, i);
    } else {
        assert(ids_unique(t));
        lemma_index_of(t, s.len() as int);
    }
}

/// Updating one entity leaves every other entity's value and position as they were.
pub proof fn law_update_isolation<E: Entity<u64>>(s: Seq<E>, e: E, id: u64)
    requires
        ids_unique(s),
        id != e.id(),
    ensures
        ids_unique(updated(s, e)),
        updated(s, e).len() == s.len(),
        found(updated(s, e), id) == found(s, id),
        has_id(s, id) ==> has_id(updated(s, e), id) && index_of(updated(s, e), id) == index_of(
            s,
            id,
        ),
{
    let t = updated(s, e);
    assert(ids_unique(t));
    if has_id(s, id) {
        let i = index_of(s, id);
        lemma_index_of(t, i);
    } else {
        if has_id(t, id) {
            let j = index_of(t, id);
            assert(s[j].id() == id);
        }
    }
}

/// Once a removal by id succeeds, the id is no longer found and one entity fewer is stored.
pub proof fn law_delete_completeness<E: Entity<u64>>(s: Seq<E>, id: u64)
    requires
        ids_unique(s),
        presence(s, id) == Ok::<(), StoreError>(()),
    ensures
        ids_unique(removed(s, id)),
        removed(s, id).len() == s.len() - 1,
        found(removed(s, id), id) == Err::<E, StoreError>(StoreError::NotFound),
{
    let i = index_of(s, id);
    let t = removed(s, id);
    assert forall|k: int| 0 <= k < t.len() implies #[trigger] t[k] == s[if k < i {
        k
    } else {
        k + 1
    }] by {}
    assert(ids_unique(t));
    if has_id(t, id) {
        let j = index_of(t, id);
        assert(t[j] == s[if j < i {
            j
        } else {
            j + 1
        }]);
    }
}

/// The pages `0 .. count` of `s` for pages of `size` items, joined in order.
pub open spec fn pages_joined<A>(s: Seq<A>, size: u32, count: nat) -> Seq<A>
    decreases count,
{
    if count == 0 {
        Seq::empty()
    } else {
        pages_joined(s, size, (count - 1) as nat) + (Page {
            number: (count - 1) as u32,
            size,
        }).window(s)
    }
}

/// Number of pages of `size` items that a collection of `n` items needs: `ceil(n / size)`.
pub open spec fn pages_needed(n: nat, size: u32) -> nat
    recommends
        size > 0,
{
    ((n + size - 1) / (size as int)) as nat
}

proof fn lemma_pages_prefix<A>(s: Seq<A>, size: u32, count: nat)
    requires
        count <= u32::MAX + 1,
    ensures
        pages_joined(s, size, count) == s.subrange(
            0,
            if count * size < s.len() {
                count * size
            } else {
                s.len() as int
            },
        ),
    decreases count,
{
    if count == 0 {
        assert(pages_joined(s, size, count) =~= s.subrange(0, 0));
    } else {
        let c = (count - 1) as nat;
        lemma_pages_prefix(s, size, c);
        let page = Page { number: c as u32, size };
        assert(page.spec_offset() == c * size);
        assert(c * size + size == count * size && c * size <= count * size) by (nonlinear_arith)
            requires
                c + 1 == count,
        ;
        assert(pages_joined(s, size, count) =~= s.subrange(
            0,
            if count * size < s.len() {
                count * size
            } else {
                s.len() as int
            },
        ));
    }
}

/// For pages of a positive size, joining pages `0 .. ceil(n / size)` of a listing of
/// `n` items gives back the listing, each item once and in order.
pub proof fn law_pages_cover<A>(s: Seq<A>, size: u32)
    requires
        size > 0,
        pages_needed(s.len(), size) <= u32::MAX + 1,
    ensures
        pages_joined(s, size, pages_needed(s.len(), size)) == s,
{
    let n = s.len();
    let count = pages_needed(n, size);
    lemma_pages_prefix(s, size, count);
    let m = n + size - 1;
    assert(count * size >= n) by (nonlinear_arith)
        requires
            size > 0,
            count == m / (size as int),
            m == n + size - 1,
    {
        assert(m == (size as int) * (m / (size as int)) + m % (size as int));
        assert(m % (size as int) < size);
    }
    assert(s.subrange(0, n as int) =~= s);
}

proof fn lemma_place_len<E: Entity<u64>>(t: Seq<E>, e: E)
    ensures
        place_by_id(t, e).len() == t.len() + 1,
    decreases t.len(),
{
    if t.len() > 0 && e.id() >= t[0].id() {
        lemma_place_len(t.drop_first(), e);
    }
}

proof fn lemma_ascending_len<E: Entity<u64>>(s: Seq<E>)
    ensures
        ascending(s).len() == s.len(),
    decreases s.len(),
{
    if s.len() > 0 {
        lemma_ascending_len(s.drop_last());
        lemma_place_len(ascending(s.drop_last()), s.last());
    }
}

/// The descending listing is the ascending one reversed, in full and on a first page
/// that holds every entity.
pub proof fn law_sort_symmetry<E: Entity<u64>>(s: Seq<E>, size: u32)
    requires
        s.len() <= size,
    ensures
        ordered(s, Sort::DESCENDING) == ordered(s, Sort::ASCENDING).reverse(),
        (Page { number: 0, size }).window(ordered(s, Sort::DESCENDING)) == (Page {
            number: 0,
            size,
        }).window(ordered(s, Sort::ASCENDING)).reverse(),
{
    lemma_ascending_len(s);
    let asc = ascending(s);
    let desc = asc.reverse();
    let page = Page { number: 0, size };
    assert(desc.len() == asc.len());
    assert(page.window(asc) =~= asc);
    assert(page.window(desc) =~= desc);
}

/// Ids never decrease along `s`.
pub open spec fn sorted_by_id<E: Entity<u64>>(s: Seq<E>) -> bool {
    forall|i: int, j: int| 0 <= i < j < s.len() ==> #[trigger] s[i].id() <= #[trigger] s[j].id()
}

proof fn lemma_prepend_multiset<E>(a: E, r: Seq<E>)
    ensures
        (seq![a] + r).to_multiset() == r.to_multiset().insert(a),
{
    broadcast use group_to_multiset_ensures;
    broadcast use vstd::multiset::group_multiset_axioms;

    let empty = Seq::<E>::empty();
    assert(empty.push(a) =~= seq![a]);
    vstd::multiset::lemma_multiset_empty_len(empty.to_multiset());
    vstd::seq_lib::lemma_multiset_commutative(seq![a], r);
    assert((seq![a] + r).to_multiset() =~= r.to_multiset().insert(a));
}

proof fn lemma_place_multiset<E: Entity<u64>>(t: Seq<E>, e: E)
    ensures
        place_by_id(t, e).to_multiset() == t.to_multiset().insert(e),
    decreases t.len(),
{
    broadcast use vstd::multiset::group_multiset_axioms;

    if t.len() == 0 {
        lemma_prepend_multiset(e, t);
        assert(seq![e] + t =~= seq![e]);
    } else if e.id() < t[0].id() {
        lemma_prepend_multiset(e, t);
    } else {
        let rest = t.drop_first();
        lemma_place_multiset(rest, e);
        lemma_prepend_multiset(t[0], place_by_id(rest, e));
        lemma_prepend_multiset(t[0], rest);
        assert(seq![t[0]] + rest =~= t);
        assert(place_by_id(t, e).to_multiset() =~= t.to_multiset().insert(e));
    }
}

proof fn lemma_place_sorted<E: Entity<u64>>(t: Seq<E>, e: E)
    requires
        sorted_by_id(t),
    ensures
        sorted_by_id(place_by_id(t, e)),
    decreases t.len(),
{
    broadcast use group_to_multiset_ensures;

    let p = place_by_id(t, e);
    if t.len() > 0 && e.id() >= t[0].id() {
        let rest = t.drop_first();
        let q = place_by_id(rest, e);
        assert(sorted_by_id(rest)) by {
            assert forall|i: int, j: int| 0 <= i < j < rest.len() implies #[trigger] rest[i].id()
                <= #[trigger] rest[j].id() by {
                assert(rest[i] == t[i + 1] && rest[j] == t[j + 1]);
            }
        }
        lemma_place_sorted(rest, e);
        lemma_place_multiset(rest, e);
        assert forall|k: int| 0 <= k < q.len() implies t[0].id() <= #[trigger] q[k].id() by {
            let x = q[k];
            assert(q.contains(x));
            assert(q.to_multiset().count(x) > 0);
            if x != e {
                assert(rest.to_multiset().count(x) > 0);
                assert(rest.contains(x));
                let m = choose|m: int| 0 <= m < rest.len() && rest[m] == x;
                assert(t[m + 1] == x);
            }
        }
        assert forall|i: int, j: int| 0 <= i < j < p.len() implies #[trigger] p[i].id()
            <= #[trigger] p[j].id() by {
            assert(p[j] == q[j - 1]);
            if i > 0 {
                assert(p[i] == q[i - 1]);
            }
        }
    }
}

/// The ascending listing holds exactly the entities of `s`, with ids never decreasing.
pub proof fn law_ascending_sorted<E: Entity<u64>>(s: Seq<E>)
    ensures
        sorted_by_id(ascending(s)),
        ascending(s).to_multiset() == s.to_multiset(),
    decreases s.len(),
{
    broadcast use group_to_multiset_ensures;

    if s.len() == 0 {
    } else {
        let init = s.drop_last();
        law_ascending_sorted(init);
        lemma_place_sorted(ascending(init), s.last());
        lemma_place_multiset(ascending(init), s.last());
        assert(init.push(s.last()) =~= s);
    }
}

} // verus!
