//! The in-memory index of embedding vectors, one per entity, keyed by the
//! entity's type and key. The index is generic in the vector it holds;
//! scoring and ranking by similarity are done by the caller on the entries
//! that `candidates` selects.
use vstd::prelude::*;

verus! {

/// The embedding vector of one entity.
#[derive(Debug, Clone)]
pub struct EmbeddingEntry<V> {
    pub entity_type: String,
    pub entity_key: String,
    pub vector: V,
}

/// The mathematical value of an [`EmbeddingEntry`].
pub struct EntryView<V> {
    pub entity_type: Seq<char>,
    pub entity_key: Seq<char>,
    pub vector: V,
}

impl<V> View for EmbeddingEntry<V> {
    type V = EntryView<V>;

    open spec fn view(&self) -> EntryView<V> {
        EntryView { entity_type: self.entity_type@, entity_key: self.entity_key@, vector: self.vector }
    }
}

/// The embedding vectors of the registry's entities, in insertion order.
pub struct EmbeddingIndex<V> {
    entries: Vec<EmbeddingEntry<V>>,
}

pub open spec fn entry_views<V>(es: Seq<EmbeddingEntry<V>>) -> Seq<EntryView<V>> {
    es.map_values(|e: EmbeddingEntry<V>| e@)
}

/// Whether entry `e` is the one of entity `t`/`k`.
pub open spec fn is_key<V>(e: EntryView<V>, t: Seq<char>, k: Seq<char>) -> bool {
    e.entity_type == t && e.entity_key == k
}

/// The position of the first entry of entity `t`/`k`, if any.
pub open spec fn position_of<V>(es: Seq<EntryView<V>>, t: Seq<char>, k: Seq<char>) -> Option<int>
    decreases es.len(),
{
    if es.len() == 0 {
        None
    } else {
        match position_of(es.drop_last(), t, k) {
            Some(i) => Some(i),
            None => if is_key(es.last(), t, k) {
                Some(es.len() - 1)
            } else {
                None
            },
        }
    }
}

/// The vector of entity `t`/`k`: that of its first entry, if any.
pub open spec fn lookup<V>(es: Seq<EntryView<V>>, t: Seq<char>, k: Seq<char>) -> Option<V> {
    match position_of(es, t, k) {
        Some(i) => Some(es[i].vector),
        None => None,
    }
}

/// The entries after setting the vector of entity `t`/`k` to `v`: the first
/// entry of that entity gets `v`, or a new entry is appended when there is
/// none.
pub open spec fn upserted<V>(es: Seq<EntryView<V>>, t: Seq<char>, k: Seq<char>, v: V) -> Seq<
    EntryView<V>,
> {
    match position_of(es, t, k) {
        Some(i) => es.update(i, EntryView { vector: v, ..es[i] }),
        None => es.push(EntryView { entity_type: t, entity_key: k, vector: v }),
    }
}

/// The entries without any entry of entity `t`/`k`, the others in order.
pub open spec fn removed<V>(es: Seq<EntryView<V>>, t: Seq<char>, k: Seq<char>) -> Seq<EntryView<V>>
    decreases es.len(),
{
    if es.len() == 0 {
        Seq::empty()
    } else {
        removed(es.drop_last(), t, k) + if is_key(es.last(), t, k) {
            Seq::empty()
        } else {
            seq![es.last()]
        }
    }
}

/// Whether entry `e` passes the type filter.
pub open spec fn passes(e_type: Seq<char>, type_filter: Option<Seq<char>>) -> bool {
    match type_filter {
        None => true,
        Some(t) => e_type == t,
    }
}

/// The positions, in order, of the entries that pass the type filter.
pub open spec fn matching_positions<V>(es: Seq<EntryView<V>>, type_filter: Option<Seq<char>>) -> Seq<
    usize,
>
    decreases es.len(),
{
    if es.len() == 0 {
        Seq::empty()
    } else {
        matching_positions(es.drop_last(), type_filter) + if passes(
            es.last().entity_type,
            type_filter,
        ) {
            seq![(es.len() - 1) as usize]
        } else {
            Seq::empty()
        }
    }
}

pub open spec fn opt_view(o: Option<&str>) -> Option<Seq<char>> {
    match o {
        Some(s) => Some(s@),
        None => None,
    }
}

impl<V> EmbeddingIndex<V> {
    /// The entries, in order.
    pub closed spec fn view(&self) -> Seq<EntryView<V>> {
        entry_views(self.entries@)
    }

    /// An empty index.
    pub fn new() -> (res: Self)
        ensures
            res.view() == Seq::<EntryView<V>>::empty(),
    {
        let res = EmbeddingIndex { entries: Vec::new() };
        assert(res.view() =~= Seq::<EntryView<V>>::empty());
        res
    }

    /// An index holding `entries`, in order.
    pub fn from_entries(entries: Vec<EmbeddingEntry<V>>) -> (res: Self)
        ensures
            res.view() == entry_views(entries@),
    {
        EmbeddingIndex { entries }
    }

    /// The number of entries.
    pub fn len(&self) -> (res: usize)
        ensures
            res == self.view().len(),
    {
        self.entries.len()
    }

    /// The entry at `i`.
    pub fn entry(&self, i: usize) -> (res: &EmbeddingEntry<V>)
        requires
            i < self.view().len(),
        ensures
            res@ == self.view()[i as int],
    {
        &self.entries[i]
    }

    /// The position of the first entry of entity `t`/`k`, if any.
    fn find(&self, t: &String, k: &String) -> (res: Option<usize>)
        ensures
            match res {
                Some(i) => position_of(self.view(), t@, k@) == Some(i as int),
                None => position_of(self.view(), t@, k@) is None,
            },
    {
        let ghost es = self.view();
        let mut i: usize = 0;
        while i < self.entries.len()
            invariant
                i <= self.entries.len(),
                es == self.view(),
                position_of(es.take(i as int), t@, k@) is None,
            decreases self.entries.len() - i,
        {
            assert(es.take(i + 1).drop_last() =~= es.take(i as int));
            if self.entries[i].entity_type == *t && self.entries[i].entity_key == *k {
                proof {
                    lemma_position_of_prefix(es, i + 1, t@, k@);
                }
                return Some(i);
            }
            i += 1;
        }
        assert(es.take(self.entries.len() as int) =~= es);
        None
    }

    /// Sets the vector of entity `entity_type`/`entity_key`: the first entry
    /// of that entity gets `vector`, or a new entry is appended.
    pub fn upsert(&mut self, entity_type: &str, entity_key: &str, vector: V)
        ensures
            final(self).view() == upserted(old(self).view(), entity_type@, entity_key@, vector),
    {
        let t = entity_type.to_owned();
        let k = entity_key.to_owned();
        match self.find(&t, &k) {
            Some(i) => {
                let ghost before = self.view();
                proof {
                    lemma_position_of(before, t@, k@);
                }
                self.entries[i].vector = vector;
                assert(self.view() =~= upserted(before, entity_type@, entity_key@, vector));
            },
            None => {
                let ghost before = self.view();
                self.entries.push(EmbeddingEntry { entity_type: t, entity_key: k, vector });
                assert(self.view() =~= upserted(before, entity_type@, entity_key@, vector));
            },
        }
    }

    /// Removes every entry of entity `entity_type`/`entity_key`, keeping the
    /// others in order.
    pub fn remove(&mut self, entity_type: &str, entity_key: &str)
        ensures
            final(self).view() == removed(old(self).view(), entity_type@, entity_key@),
    {
        let t = entity_type.to_owned();
        let k = entity_key.to_owned();
        let ghost es = self.view();
        let mut old_entries: Vec<EmbeddingEntry<V>> = Vec::new();
        std::mem::swap(&mut old_entries, &mut self.entries);
        assert(entry_views(old_entries@) == es);
        let mut kept: Vec<EmbeddingEntry<V>> = Vec::new();
        let mut rest = old_entries;
        // `rest` holds the entries not yet looked at, in order.
        let ghost n = es.len();
        assert(entry_views(kept@) =~= removed(es.take(0), t@, k@));
        while rest.len() > 0
            invariant
                n == es.len(),
                rest.len() <= n,
                entry_views(kept@) == removed(es.take(n - rest.len()), t@, k@),
                forall|j: int|
                    0 <= j < rest.len() ==> #[trigger] rest@[j]@ == es[n - rest.len() + j],
            decreases rest.len(),
        {
            let ghost i = n - rest.len();
            let ghost before_rest = rest@;
            let e = rest.remove(0);
            assert(e@ == es[i]);
            assert forall|j: int| 0 <= j < rest.len() implies #[trigger] rest@[j]@ == es[n
                - rest.len() + j] by {
                assert(rest@[j] == before_rest[j + 1]);
            }
            assert(es.take(i + 1).drop_last() =~= es.take(i));
            let ghost before = entry_views(kept@);
            if !(e.entity_type == t && e.entity_key == k) {
                kept.push(e);
                assert(entry_views(kept@) =~= before + seq![es[i]]);
            } else {
                assert(entry_views(kept@) =~= before + Seq::<EntryView<V>>::empty());
            }
        }
        assert(es.take(n as int) =~= es);
        self.entries = kept;
    }

    /// The positions, in order, of the entries of type `type_filter`, or of
    /// all entries when there is no filter.
    pub fn candidates(&self, type_filter: Option<&str>) -> (res: Vec<usize>)
        ensures
            res@ == matching_positions(self.view(), opt_view(type_filter)),
    {
        let ghost es = self.view();
        let filter: Option<String> = match type_filter {
            Some(f) => Some(f.to_owned()),
            None => None,
        };
        let mut res: Vec<usize> = Vec::new();
        let mut i: usize = 0;
        while i < self.entries.len()
            invariant
                i <= self.entries.len(),
                es == self.view(),
                res@ == matching_positions(es.take(i as int), opt_view(type_filter)),
                match filter {
                    Some(f) => opt_view(type_filter) == Some(f@),
                    None => opt_view(type_filter) is None,
                },
            decreases self.entries.len() - i,
        {
            assert(es.take(i + 1).drop_last() =~= es.take(i as int));
            let keep = match &filter {
                Some(f) => self.entries[i].entity_type == *f,
                None => true,
            };
            if keep {
                res.push(i);
            }
            i += 1;
        }
        assert(es.take(self.entries.len() as int) =~= es);
        res
    }
}

/// The position found holds an entry of the entity, and no entry before it
/// does.
pub proof fn lemma_position_of<V>(es: Seq<EntryView<V>>, t: Seq<char>, k: Seq<char>)
    ensures
        match position_of(es, t, k) {
            Some(i) => 0 <= i < es.len() && is_key(es[i], t, k) && forall|j: int|
                0 <= j < i ==> !is_key(#[trigger] es[j], t, k),
            None => forall|j: int| 0 <= j < es.len() ==> !is_key(#[trigger] es[j], t, k),
        },
    decreases es.len(),
{
    if es.len() > 0 {
        lemma_position_of(es.drop_last(), t, k);
        assert forall|j: int| 0 <= j < es.len() - 1 implies #[trigger] es[j] == es.drop_last()[j] by {}
    }
}

/// `position_of` on a prefix that ends with a matching entry and has none
/// before it finds that last entry.
proof fn lemma_position_of_prefix<V>(es: Seq<EntryView<V>>, n: int, t: Seq<char>, k: Seq<char>)
    requires
        0 < n <= es.len(),
        position_of(es.take(n - 1), t, k) is None,
        is_key(es[n - 1], t, k),
    ensures
        position_of(es, t, k) == Some(n - 1),
    decreases es.len(),
{
    assert(es.take(n).drop_last() =~= es.take(n - 1));
    if es.len() > n {
        assert(es.drop_last().take(n) =~= es.take(n));
        assert(es.drop_last().take(n - 1) =~= es.take(n - 1));
        lemma_position_of_prefix(es.drop_last(), n, t, k);
    } else {
        assert(es.take(n) =~= es);
    }
}

} // verus!

verus! {

/// Two entry sequences with the same entities at the same positions find
/// an entity at the same position.
proof fn lemma_position_of_same_keys<V>(
    a: Seq<EntryView<V>>,
    b: Seq<EntryView<V>>,
    t: Seq<char>,
    k: Seq<char>,
)
    requires
        a.len() == b.len(),
        forall|j: int| 0 <= j < a.len() ==> is_key(#[trigger] a[j], t, k) == is_key(b[j], t, k),
    ensures
        position_of(a, t, k) == position_of(b, t, k),
{
    lemma_position_of(a, t, k);
    lemma_position_of(b, t, k);
    if let Some(i) = position_of(a, t, k) {
        assert(is_key(b[i], t, k));
        if let Some(p) = position_of(b, t, k) {
            assert(is_key(a[p], t, k));
            if p < i {
                assert(!is_key(a[p], t, k));
            }
            if i < p {
                assert(!is_key(b[i], t, k));
            }
        }
    } else if let Some(p) = position_of(b, t, k) {
        assert(is_key(a[p], t, k));
    }
}

/// After `upserted`, looking the entity up gives the vector just set.
pub proof fn law_upsert_then_lookup<V>(es: Seq<EntryView<V>>, t: Seq<char>, k: Seq<char>, v: V)
    ensures
        lookup(upserted(es, t, k, v), t, k) == Some(v),
{
    let u = upserted(es, t, k, v);
    lemma_position_of(es, t, k);
    match position_of(es, t, k) {
        Some(i) => {
            lemma_position_of_same_keys(es, u, t, k);
        },
        None => {
            assert(u.drop_last() =~= es);
        },
    }
}

/// `upserted` leaves the vector of every other entity as it was.
pub proof fn law_upsert_keeps_others<V>(
    es: Seq<EntryView<V>>,
    t: Seq<char>,
    k: Seq<char>,
    v: V,
    t2: Seq<char>,
    k2: Seq<char>,
)
    requires
        t2 != t || k2 != k,
    ensures
        lookup(upserted(es, t, k, v), t2, k2) == lookup(es, t2, k2),
{
    let u = upserted(es, t, k, v);
    lemma_position_of(es, t, k);
    lemma_position_of(es, t2, k2);
    match position_of(es, t, k) {
        Some(i) => {
            lemma_position_of_same_keys(es, u, t2, k2);
            if let Some(p) = position_of(es, t2, k2) {
                assert(p != i);
            }
        },
        None => {
            assert(u.drop_last() =~= es);
        },
    }
}

/// Every candidate position is below the length, and they increase.
proof fn lemma_candidates_bounded<V>(es: Seq<EntryView<V>>, type_filter: Option<Seq<char>>)
    requires
        es.len() <= usize::MAX,
    ensures
        forall|j: int|
            0 <= j < matching_positions(es, type_filter).len() ==> #[trigger] matching_positions(
                es,
                type_filter,
            )[j] < es.len(),
        forall|j: int, k: int|
            0 <= j < k < matching_positions(es, type_filter).len() ==> #[trigger] matching_positions(
                es,
                type_filter,
            )[j] < #[trigger] matching_positions(es, type_filter)[k],
    decreases es.len(),
{
    if es.len() > 0 {
        let init = es.drop_last();
        lemma_candidates_bounded(init, type_filter);
        let m = matching_positions(es, type_filter);
        let mi = matching_positions(init, type_filter);
        let last = (es.len() - 1) as usize;
        assert(last as int == es.len() - 1);
        assert forall|j: int| 0 <= j < m.len() implies #[trigger] m[j] < es.len() by {
            if j < mi.len() {
                assert(m[j] == mi[j]);
            }
        }
        assert forall|j: int, k: int| 0 <= j < k < m.len() implies #[trigger] m[j] < #[trigger] m[k] by {
            assert(m[j] == mi[j]);
            if k < mi.len() {
                assert(m[k] == mi[k]);
            } else {
                assert(m[k] == last);
            }
        }
    }
}

/// Position `i` is a candidate exactly when its entity type is the one of
/// the filter, or there is no filter.
proof fn lemma_candidate<V>(es: Seq<EntryView<V>>, type_filter: Option<Seq<char>>, i: int)
    requires
        es.len() <= usize::MAX,
        0 <= i < es.len(),
    ensures
        matching_positions(es, type_filter).contains(i as usize) <==> (type_filter is None
            || es[i].entity_type == type_filter->0),
    decreases es.len(),
{
    let init = es.drop_last();
    let m = matching_positions(es, type_filter);
    let mi = matching_positions(init, type_filter);
    let last = (es.len() - 1) as usize;
    assert(last as int == es.len() - 1);
    assert((i as usize) as int == i);
    lemma_candidates_bounded(init, type_filter);
    let c = passes(es.last().entity_type, type_filter);
    if i < es.len() - 1 {
        lemma_candidate(init, type_filter, i);
        assert(es[i] == init[i]);
        if m.contains(i as usize) {
            let j = choose|j: int| 0 <= j < m.len() && m[j] == i as usize;
            if j < mi.len() {
                assert(mi[j] == m[j]);
            } else {
                assert(m[j] == last);
            }
        }
        if mi.contains(i as usize) {
            let j = choose|j: int| 0 <= j < mi.len() && mi[j] == i as usize;
            assert(m[j] == mi[j]);
        }
    } else {
        assert(es[i] == es.last());
        if m.contains(i as usize) {
            let j = choose|j: int| 0 <= j < m.len() && m[j] == i as usize;
            if j < mi.len() {
                assert(mi[j] == m[j]);
                assert(mi[j] < init.len());
            }
        }
        if c {
            assert(m[mi.len() as int] == last);
        }
    }
}

/// A position is a candidate exactly when it is a position of the entries
/// whose entity type is the one of the filter (every position, without a
/// filter); the candidates are positions of entries, in increasing order,
/// each once.
pub proof fn law_candidates_are_matching_entries<V>(es: Seq<EntryView<V>>, type_filter: Option<Seq<char>>)
    requires
        es.len() <= usize::MAX,
    ensures
        forall|i: int|
            0 <= i < es.len() ==> (#[trigger] matching_positions(es, type_filter).contains(i as usize)
                <==> (type_filter is None || es[i].entity_type == type_filter->0)),
        forall|j: int|
            0 <= j < matching_positions(es, type_filter).len() ==> #[trigger] matching_positions(
                es,
                type_filter,
            )[j] < es.len(),
        forall|j: int, k: int|
            0 <= j < k < matching_positions(es, type_filter).len() ==> #[trigger] matching_positions(
                es,
                type_filter,
            )[j] < #[trigger] matching_positions(es, type_filter)[k],
{
    lemma_candidates_bounded(es, type_filter);
    assert forall|i: int| 0 <= i < es.len() implies (#[trigger] matching_positions(
        es,
        type_filter,
    ).contains(i as usize) <==> (type_filter is None || es[i].entity_type == type_filter->0)) by {
        lemma_candidate(es, type_filter, i);
    }
}

/// No two entries belong to the same entity.
pub open spec fn unique_keys<V>(es: Seq<EntryView<V>>) -> bool {
    forall|i: int, j: int|
        0 <= i < j < es.len() ==> !(#[trigger] es[i].entity_type == #[trigger] es[j].entity_type
            && es[i].entity_key == es[j].entity_key)
}

/// In an index with one entry per entity, `upserted` keeps one entry per
/// entity: the entity's entry holds `v`; every other entry is unchanged and
/// in its place; the number of entries stays when the entity had an entry,
/// and otherwise grows by one, the new entry last.
pub proof fn law_upsert_unique_keys<V>(es: Seq<EntryView<V>>, t: Seq<char>, k: Seq<char>, v: V)
    requires
        unique_keys(es),
    ensures
        unique_keys(upserted(es, t, k, v)),
        match position_of(es, t, k) {
            Some(p) => {
                &&& upserted(es, t, k, v).len() == es.len()
                &&& is_key(upserted(es, t, k, v)[p], t, k)
                &&& upserted(es, t, k, v)[p].vector == v
                &&& forall|q: int|
                    0 <= q < es.len() && q != p ==> #[trigger] upserted(es, t, k, v)[q] == es[q]
                        && !is_key(es[q], t, k)
            },
            None => {
                &&& upserted(es, t, k, v).len() == es.len() + 1
                &&& upserted(es, t, k, v).drop_last() == es
                &&& upserted(es, t, k, v).last() == (EntryView { entity_type: t, entity_key: k, vector: v })
                &&& forall|q: int| 0 <= q < es.len() ==> !is_key(#[trigger] es[q], t, k)
            },
        },
{
    let u = upserted(es, t, k, v);
    lemma_position_of(es, t, k);
    match position_of(es, t, k) {
        Some(p) => {
            assert forall|q: int| 0 <= q < es.len() && q != p implies #[trigger] u[q] == es[q]
                && !is_key(es[q], t, k) by {
                if q < p {
                    assert(!(es[q].entity_type == es[p].entity_type && es[q].entity_key
                        == es[p].entity_key));
                } else {
                    assert(!(es[p].entity_type == es[q].entity_type && es[p].entity_key
                        == es[q].entity_key));
                }
            }
            assert forall|i: int, j: int| 0 <= i < j < u.len() implies !(#[trigger] u[i].entity_type
                == #[trigger] u[j].entity_type && u[i].entity_key == u[j].entity_key) by {
                assert(u[i].entity_type == es[i].entity_type && u[i].entity_key == es[i].entity_key);
                assert(u[j].entity_type == es[j].entity_type && u[j].entity_key == es[j].entity_key);
                assert(!(es[i].entity_type == es[j].entity_type && es[i].entity_key
                    == es[j].entity_key));
            }
        },
        None => {
            assert(u.drop_last() =~= es);
            assert forall|i: int, j: int| 0 <= i < j < u.len() implies !(#[trigger] u[i].entity_type
                == #[trigger] u[j].entity_type && u[i].entity_key == u[j].entity_key) by {
                if j == es.len() {
                    assert(!is_key(es[i], t, k));
                } else {
                    assert(!(es[i].entity_type == es[j].entity_type && es[i].entity_key
                        == es[j].entity_key));
                }
            }
        },
    }
}

/// `upserted` adds an entry exactly when the entity had none.
pub proof fn law_upsert_len<V>(es: Seq<EntryView<V>>, t: Seq<char>, k: Seq<char>, v: V)
    ensures
        upserted(es, t, k, v).len() == if lookup(es, t, k) is Some {
            es.len()
        } else {
            es.len() + 1
        },
{
    lemma_position_of(es, t, k);
}

/// After `removed`, the entity is gone and every other entity keeps its
/// vector.
pub proof fn law_remove_then_lookup<V>(
    es: Seq<EntryView<V>>,
    t: Seq<char>,
    k: Seq<char>,
    t2: Seq<char>,
    k2: Seq<char>,
)
    ensures
        lookup(removed(es, t, k), t2, k2) == if t2 == t && k2 == k {
            None
        } else {
            lookup(es, t2, k2)
        },
    decreases es.len(),
{
    if es.len() > 0 {
        let init = es.drop_last();
        let x = es.last();
        let r = removed(init, t, k);
        law_remove_then_lookup(init, t, k, t2, k2);
        if is_key(x, t, k) {
            assert(removed(es, t, k) =~= r);
        } else {
            assert(removed(es, t, k) =~= r.push(x));
            assert(r.push(x).drop_last() =~= r);
        }
        lemma_position_of(r, t2, k2);
        lemma_position_of(init, t2, k2);
    }
}

} // verus!

verus! {

/// A search request: the natural-language query, an optional entity type
/// (`service`, `table`, `queue`, `proto` or `http`) and an optional maximum
/// number of results.
#[derive(Debug, Clone, PartialEq)]
pub struct SearchParams {
    pub q: String,
    pub type_filter: Option<String>,
    pub limit: Option<usize>,
}

/// The number of results of a search over HTTP when none is asked for.
pub const DEFAULT_SEARCH_LIMIT: usize = 20;

impl SearchParams {
    /// The maximum number of results: the one asked for, else `default`.
    pub fn limit_or(&self, default: usize) -> (res: usize)
        ensures
            res == match self.limit {
                Some(l) => l,
                None => default,
            },
    {
        match self.limit {
            Some(l) => l,
            None => default,
        }
    }
}

} // verus!
