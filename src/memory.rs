//! An in-memory backend: entities keyed by a `u64` id, kept in insertion order.
use vstd::prelude::*;
use crate::capability::{Create, Crud, Delete, Entity, Read, ReadWithPaginationAndSort, Update};
use crate::page::{Page, Sort};

verus! {

/// Failures of the in-memory store.
#[derive(Clone, Copy, Debug, PartialEq, Eq, Structural)]
pub enum StoreError {
    /// No entity with the requested id is stored.
    NotFound,
}

/// No two entities of `s` share an id.
pub open spec fn ids_unique<E: Entity<u64>>(s: Seq<E>) -> bool {
    forall|i: int, j: int|
        0 <= i < s.len() && 0 <= j < s.len() && i != j ==> #[trigger] s[i].id() != #[trigger] s[j].id()
}

/// Some entity of `s` has id `id`.
pub open spec fn has_id<E: Entity<u64>>(s: Seq<E>, id: u64) -> bool {
    exists|i: int| 0 <= i < s.len() && #[trigger] s[i].id() == id
}

/// The position of the entity with id `id` in `s` (meaningful when `has_id(s, id)`).
pub open spec fn index_of<E: Entity<u64>>(s: Seq<E>, id: u64) -> int {
    choose|i: int| 0 <= i < s.len() && #[trigger] s[i].id() == id
}

/// `t` with `e` placed before the first entity whose id exceeds that of `e`.
pub open spec fn place_by_id<E: Entity<u64>>(t: Seq<E>, e: E) -> Seq<E>
    decreases t.len(),
{
    if t.len() == 0 {
        seq![e]
    } else if e.id() < t[0].id() {
        seq![e] + t
    } else {
        seq![t[0]] + place_by_id(t.drop_first(), e)
    }
}

/// The entities of `s` in ascending order of id; entities with equal ids keep their
/// relative order.
pub open spec fn ascending<E: Entity<u64>>(s: Seq<E>) -> Seq<E>
    decreases s.len(),
{
    if s.len() == 0 {
        s
    } else {
        place_by_id(ascending(s.drop_last()), s.last())
    }
}

/// The entities of `s` ordered by id in the direction `sort`.
pub open spec fn ordered<E: Entity<u64>>(s: Seq<E>, sort: Sort) -> Seq<E> {
    match sort {
        Sort::ASCENDING => ascending(s),
        Sort::DESCENDING => ascending(s).reverse(),
    }
}

proof fn lemma_place_at<E: Entity<u64>>(t: Seq<E>, e: E, p: int)
    requires
        0 <= p <= t.len(),
        forall|k: int| 0 <= k < p ==> #[trigger] t[k].id() <= e.id(),
        p < t.len() ==> e.id() < t[p].id(),
    ensures
        place_by_id(t, e) == t.insert(p, e),
    decreases t.len(),
{
    if t.len() == 0 {
        assert(t.insert(p, e) =~= seq![e]);
    } else if e.id() < t[0].id() {
        assert(t.insert(p, e) =~= seq![e] + t);
    } else {
        let rest = t.drop_first();
        assert forall|k: int| 0 <= k < p - 1 implies #[trigger] rest[k].id() <= e.id() by {
            assert(rest[k] == t[k + 1]);
        }
        lemma_place_at(rest, e, p - 1);
        assert(t.insert(p, e) =~= seq![t[0]] + rest.insert(p - 1, e));
    }
}

/// `s` after saving `e`: the entity with the id of `e` is replaced in place, or `e`
/// is appended when there is none.
pub open spec fn saved<E: Entity<u64>>(s: Seq<E>, e: E) -> Seq<E> {
    if has_id(s, e.id()) {
        s.update(index_of(s, e.id()), e)
    } else {
        s.push(e)
    }
}

/// What a lookup of `id` in `s` gives.
pub open spec fn found<E: Entity<u64>>(s: Seq<E>, id: u64) -> Result<E, StoreError> {
    if has_id(s, id) {
        Ok(s[index_of(s, id)])
    } else {
        Err(StoreError::NotFound)
    }
}

/// The outcome of an operation that needs an entity with id `id` in `s`.
pub open spec fn presence<E: Entity<u64>>(s: Seq<E>, id: u64) -> Result<(), StoreError> {
    if has_id(s, id) {
        Ok(())
    } else {
        Err(StoreError::NotFound)
    }
}

/// `s` after updating with `e`: the entity with the id of `e` is replaced in place;
/// `s` is unchanged when there is none.
pub open spec fn updated<E: Entity<u64>>(s: Seq<E>, e: E) -> Seq<E> {
    if has_id(s, e.id()) {
        s.update(index_of(s, e.id()), e)
    } else {
        s
    }
}

/// `s` without the entity with id `id`; `s` itself when there is none.
pub open spec fn removed<E: Entity<u64>>(s: Seq<E>, id: u64) -> Seq<E> {
    if has_id(s, id) {
        s.remove(index_of(s, id))
    } else {
        s
    }
}

/// A process-local store holding entities in the order they were first saved.
pub struct MemoryStore<E: Entity<u64>> {
    items: Vec<E>,
}

impl<E: Entity<u64>> View for MemoryStore<E> {
    type V = Seq<E>;

    /// The stored entities, in insertion order.
    closed spec fn view(&self) -> Seq<E> {
        self.items@
    }
}

/// The entity at position `i` is the one that its id finds.
pub(crate) proof fn lemma_index_of<E: Entity<u64>>(s: Seq<E>, i: int)
    requires
        ids_unique(s),
        0 <= i < s.len(),
    ensures
        has_id(s, s[i].id()),
        index_of(s, s[i].id()) == i,
{
    assert(has_id(s, s[i].id()));
}

/// Position of the entity with id `id` in `items`, if any.
fn position<E: Entity<u64>>(items: &Vec<E>, id: u64) -> (r: Option<usize>)
    requires
        ids_unique(items@),
    ensures
        r is None <==> !has_id(items@, id),
        r matches Some(i) ==> i == index_of(items@, id) && i < items@.len(),
{
    let mut i: usize = 0;
    while i < items.len()
        invariant
            ids_unique(items@),
            i <= items@.len(),
            forall|k: int| 0 <= k < i ==> #[trigger] items@[k].id() != id,
        decreases items@.len() - i,
    {
        if items[i].get_id() == id {
            proof {
                lemma_index_of(items@, i as int);
            }
            return Some(i);
        }
        i += 1;
    }
    None
}

/// Returns a copy of `e` that is equal to it.
fn duplicate<E: Entity<u64>>(e: &E) -> (r: E)
    ensures
        r == *e,
{
    let r = e.clone();
    proof {
        E::lemma_clone_is_copy(*e, r);
    }
    r
}

impl<E: Entity<u64>> MemoryStore<E> {
    /// Ids are unique.
    #[verifier::type_invariant]
    spec fn inv(&self) -> bool {
        ids_unique(self.items@)
    }

    /// Creates an empty store.
    pub fn new() -> (r: Self)
        ensures
            r@ == Seq::<E>::empty(),
            ids_unique(r@),
    {
        let r = MemoryStore { items: Vec::new() };
        assert(r@ =~= Seq::<E>::empty());
        r
    }

    /// Number of stored entities.
    pub fn len(&self) -> (r: usize)
        ensures
            r == self@.len(),
    {
        self.items.len()
    }

    /// Stores `entity`, replacing in place the entity with the same id if there is one,
    /// else appending it.
    pub fn save(&mut self, entity: &E) -> (r: Result<(), StoreError>)
        ensures
            r is Ok,
            final(self)@ == saved(old(self)@, *entity),
            ids_unique(final(self)@),
    {
        proof {
            use_type_invariant(&*self);
        }
        let id = entity.get_id();
        let e = duplicate(entity);
        let mut items: Vec<E> = Vec::new();
        std::mem::swap(&mut items, &mut self.items);
        match position(&items, id) {
            Some(i) => {
                items.set(i, e);
            },
            None => {
                items.push(e);
                assert(forall|k: int| 0 <= k < old(self)@.len() ==> items@[k] == old(self)@[k]);
            },
        }
        self.items = items;
        Ok(())
    }

    /// Returns a copy of the entity with id `id`, or `NotFound`.
    pub fn find_by_id(&self, id: &u64) -> (r: Result<E, StoreError>)
        ensures
            r == found(self@, *id),
    {
        proof {
            use_type_invariant(self);
        }
        match position(&self.items, *id) {
            Some(i) => Ok(duplicate(&self.items[i])),
            None => Err(StoreError::NotFound),
        }
    }

    /// Replaces the stored entity that has the id of `entity`, keeping its position;
    /// `NotFound` if there is none.
    pub fn update(&mut self, entity: &E) -> (r: Result<(), StoreError>)
        ensures
            r == presence(old(self)@, entity.id()),
            final(self)@ == updated(old(self)@, *entity),
            ids_unique(final(self)@),
    {
        proof {
            use_type_invariant(&*self);
        }
        let id = entity.get_id();
        match position(&self.items, id) {
            Some(i) => {
                let e = duplicate(entity);
                let mut items: Vec<E> = Vec::new();
                std::mem::swap(&mut items, &mut self.items);
                items.set(i, e);
                self.items = items;
                Ok(())
            },
            None => Err(StoreError::NotFound),
        }
    }

    /// Removes the entity with id `id`; `NotFound` if there is none.
    pub fn remove_by_id(&mut self, id: &u64) -> (r: Result<(), StoreError>)
        ensures
            r == presence(old(self)@, *id),
            final(self)@ == removed(old(self)@, *id),
            ids_unique(final(self)@),
    {
        proof {
            use_type_invariant(&*self);
        }
        match position(&self.items, *id) {
            Some(i) => {
                let mut items: Vec<E> = Vec::new();
                std::mem::swap(&mut items, &mut self.items);
                items.remove(i);
                assert(forall|k: int|
                    0 <= k < items@.len() ==> #[trigger] items@[k] == old(self)@[if k < i {
                        k
                    } else {
                        k + 1
                    }]);
                self.items = items;
                Ok(())
            },
            None => Err(StoreError::NotFound),
        }
    }

    /// Removes the entity whose id is that of `entity`, whatever its other fields hold.
    pub fn remove(&mut self, entity: &E) -> (r: Result<(), StoreError>)
        ensures
            r == presence(old(self)@, entity.id()),
            final(self)@ == removed(old(self)@, entity.id()),
            ids_unique(final(self)@),
    {
        let id = entity.get_id();
        self.remove_by_id(&id)
    }

    /// Copies of the entities of `s` that fall on `page`.
    fn copy_window(s: &Vec<E>, page: &Page) -> (r: Vec<E>)
        ensures
            r@ == page.window(s@),
    {
        let len = s.len();
        let number = page.number as u64;
        let size = page.size as u64;
        assert(number * size + size <= u64::MAX) by (nonlinear_arith)
            requires
                number <= u32::MAX,
                size <= u32::MAX,
        ;
        let off: u64 = number * size;
        let end: u64 = off + size;
        let start: usize = if off < len as u64 {
            off as usize
        } else {
            len
        };
        let stop: usize = if end < len as u64 {
            end as usize
        } else {
            len
        };
        let mut r: Vec<E> = Vec::new();
        let mut k: usize = start;
        while k < stop
            invariant
                start <= k <= stop <= s@.len(),
                r@ == s@.subrange(start as int, k as int),
            decreases stop - k,
        {
            r.push(duplicate(&s[k]));
            k += 1;
            assert(r@ =~= s@.subrange(start as int, k as int));
        }
        assert(r@ =~= page.window(s@));
        r
    }

    /// Copies of the stored entities in ascending order of id.
    fn copy_ascending(&self) -> (r: Vec<E>)
        ensures
            r@ == ascending(self@),
    {
        let mut r: Vec<E> = Vec::new();
        let mut i: usize = 0;
        assert(self@.subrange(0, 0) =~= Seq::<E>::empty());
        while i < self.items.len()
            invariant
                i <= self@.len(),
                r@ == ascending(self@.subrange(0, i as int)),
            decreases self@.len() - i,
        {
            let e = duplicate(&self.items[i]);
            let id = e.get_id();
            let mut p: usize = 0;
            while p < r.len() && r[p].get_id() <= id
                invariant
                    p <= r@.len(),
                    forall|k: int| 0 <= k < p ==> #[trigger] r@[k].id() <= id,
                decreases r@.len() - p,
            {
                p += 1;
            }
            proof {
                lemma_place_at(r@, e, p as int);
                let next = self@.subrange(0, i + 1);
                assert(next.drop_last() =~= self@.subrange(0, i as int));
            }
            r.insert(p, e);
            i += 1;
        }
        assert(self@.subrange(0, self@.len() as int) =~= self@);
        r
    }

    /// `s` in reverse order.
    fn reversed(s: Vec<E>) -> (r: Vec<E>)
        ensures
            r@ == s@.reverse(),
    {
        let mut s = s;
        let ghost orig = s@;
        let mut r: Vec<E> = Vec::new();
        while s.len() > 0
            invariant
                s@ == orig.subrange(0, s@.len() as int),
                r@.len() + s@.len() == orig.len(),
                forall|k: int| 0 <= k < r@.len() ==> #[trigger] r@[k] == orig[orig.len() - 1 - k],
            decreases s@.len(),
        {
            let e = s.pop().unwrap();
            r.push(e);
        }
        assert(r@ =~= orig.reverse());
        r
    }

    /// The entities on `page` of the insertion-ordered listing.
    pub fn find_all_with_page(&self, page: &Page) -> (r: Result<Vec<E>, StoreError>)
        ensures
            r matches Ok(v) && v@ == page.window(self@),
    {
        Ok(Self::copy_window(&self.items, page))
    }

    /// The entities on `page` of the listing ordered by id in the direction `sort`.
    pub fn find_all_with_page_and_sort(&self, page: &Page, sort: &Sort) -> (r: Result<
        Vec<E>,
        StoreError,
    >)
        ensures
            r matches Ok(v) && v@ == page.window(ordered(self@, *sort)),
    {
        let asc = self.copy_ascending();
        let all = match sort {
            Sort::ASCENDING => asc,
            Sort::DESCENDING => Self::reversed(asc),
        };
        Ok(Self::copy_window(&all, page))
    }
}

impl<E: Entity<u64>> Create<u64, E> for MemoryStore<E> {
    type Error = StoreError;

    fn save(&mut self, entity: &E) -> Result<(), StoreError> {
        MemoryStore::save(self, entity)
    }
}

impl<E: Entity<u64>> Read<u64, E> for MemoryStore<E> {
    type Error = StoreError;

    fn find_by_id(&self, id: &u64) -> Result<E, StoreError> {
        MemoryStore::find_by_id(self, id)
    }
}

impl<E: Entity<u64>> ReadWithPaginationAndSort<u64, E> for MemoryStore<E> {
    type Error = StoreError;

    fn find_all_with_page(&self, page: &Page) -> Result<Vec<E>, StoreError> {
        MemoryStore::find_all_with_page(self, page)
    }

    fn find_all_with_page_and_sort(&self, page: &Page, sort: &Sort) -> Result<Vec<E>, StoreError> {
        MemoryStore::find_all_with_page_and_sort(self, page, sort)
    }
}

impl<E: Entity<u64>> Update<u64, E> for MemoryStore<E> {
    type Error = StoreError;

    fn update(&mut self, entity: &E) -> Result<(), StoreError> {
        MemoryStore::update(self, entity)
    }
}

impl<E: Entity<u64>> Delete<u64, E> for MemoryStore<E> {
    type Error = StoreError;

    fn remove_by_id(&mut self, id: &u64) -> Result<(), StoreError> {
        MemoryStore::remove_by_id(self, id)
    }

    fn remove(&mut self, entity: &E) -> Result<(), StoreError> {
        MemoryStore::remove(self, entity)
    }
}

impl<E: Entity<u64>> Crud<u64, E> for MemoryStore<E> {

}

} // verus!
