//! A cache of limited size that forgets what was not used for longest.
use vstd::prelude::*;

use crate::bytes::copy_bytes;
use crate::types::{CellOutput, CellOutputModel};
use crate::views::{HeaderModel, HeaderView, TransactionModel, TransactionView};

verus! {

/// What an entry is found by: a hash, and for a cell also the index of its output.
pub type CacheKey = ([u8; 32], u32);

/// What is kept.
#[derive(Debug, PartialEq, Eq)]
pub enum Entry {
    Transaction(TransactionView),
    /// A cell's output and its data.
    Cell(CellOutput, Vec<u8>),
    Header(HeaderView),
}

/// What an [`Entry`] holds.
pub enum EntryModel {
    Transaction(TransactionModel),
    Cell(CellOutputModel, Seq<u8>),
    Header(HeaderModel),
}

impl View for Entry {
    type V = EntryModel;

    open spec fn view(&self) -> EntryModel {
        match *self {
            Entry::Transaction(tx) => EntryModel::Transaction(tx@),
            Entry::Cell(output, data) => EntryModel::Cell(output@, data@),
            Entry::Header(header) => EntryModel::Header(header@),
        }
    }
}

impl Entry {
    /// A copy of the entry.
    pub fn copy(&self) -> (copied: Entry)
        ensures
            copied@ == self@,
    {
        match self {
            Entry::Transaction(tx) => Entry::Transaction(tx.copy()),
            Entry::Cell(output, data) => Entry::Cell(output.copy(), copy_bytes(data)),
            Entry::Header(header) => Entry::Header(header.copy()),
        }
    }
}

/// `lru::LruCache`, of which only what the functions below say is known.
#[verifier::external_type_specification]
#[verifier::external_body]
#[verifier::reject_recursive_types(K)]
#[verifier::reject_recursive_types(V)]
#[verifier::reject_recursive_types(S)]
pub struct ExLruCache<K, V, S>(lru::LruCache<K, V, S>);

/// `lru::DefaultHasher`, the hasher of a cache for which none is named.
#[verifier::external_type_specification]
#[verifier::external_body]
pub struct ExDefaultHasher(lru::DefaultHasher);

/// The entries of a cache, the one used last first.
pub uninterp spec fn lru_entries(cache: lru::LruCache<CacheKey, Entry>) -> Seq<
    (CacheKey, EntryModel),
>;

/// The number of entries that a cache was made for.
pub uninterp spec fn lru_capacity(cache: lru::LruCache<CacheKey, Entry>) -> nat;

/// An empty cache.
///
/// Calls `lru::LruCache::new`. The contract claims that the cache is empty and keeps the capacity.
/// The function reserves memory for all entries at once and panics where the size overflows, which
/// the bound on the capacity rules out.
#[verifier::external_body]
fn lru_new(capacity: usize) -> (cache: lru::LruCache<CacheKey, Entry>)
    requires
        capacity <= usize::MAX / 128,
    ensures
        lru_entries(cache) == Seq::<(CacheKey, EntryModel)>::empty(),
        lru_capacity(cache) == capacity,
{
    lru::LruCache::new(capacity)
}

/// Looks an entry up.
///
/// Calls `lru::LruCache::get`. The contract claims that an entry that is there is handed out and
/// moves to the front, and that nothing else changes.
#[verifier::external_body]
fn lru_get<'a>(cache: &'a mut lru::LruCache<CacheKey, Entry>, key: &CacheKey) -> (entry: Option<
    &'a Entry,
>)
    ensures
        lru_capacity(*final(cache)) == lru_capacity(*old(cache)),
        lru_entries(*final(cache)) == touched(lru_entries(*old(cache)), *key),
        match entry {
            Some(entry) => lru_entries(*old(cache)).contains((*key, entry@)),
            None => !holds(lru_entries(*old(cache)), *key),
        },
{
    cache.get(key)
}

/// Sets an entry.
///
/// Calls `lru::LruCache::put`. The contract claims that the entry stands at the front, that an
/// entry of the same key is replaced and handed back, that else the entry not used for longest
/// makes room where the cache is full, and that nothing changes where the cache was made for no
/// entries.
#[verifier::external_body]
fn lru_put(cache: &mut lru::LruCache<CacheKey, Entry>, key: CacheKey, entry: Entry) -> (previous:
    Option<Entry>)
    ensures
        lru_capacity(*final(cache)) == lru_capacity(*old(cache)),
        lru_entries(*final(cache)) == added(
            lru_entries(*old(cache)),
            lru_capacity(*old(cache)),
            key,
            entry@,
        ),
        match previous {
            Some(previous) => lru_entries(*old(cache)).contains((key, previous@)),
            None => !holds(lru_entries(*old(cache)), key),
        },
{
    cache.put(key, entry)
}

/// The key has an entry.
pub open spec fn holds(entries: Seq<(CacheKey, EntryModel)>, key: CacheKey) -> bool {
    exists|entry: EntryModel| entries.contains((key, entry))
}

/// The entry of a key.
pub open spec fn entry_of(entries: Seq<(CacheKey, EntryModel)>, key: CacheKey) -> EntryModel {
    choose|entry: EntryModel| entries.contains((key, entry))
}

/// The entries of the other keys, in their order.
pub open spec fn without(entries: Seq<(CacheKey, EntryModel)>, key: CacheKey) -> Seq<
    (CacheKey, EntryModel),
> {
    entries.filter(|row: (CacheKey, EntryModel)| row.0 != key)
}

/// The entries after one of them was used.
pub open spec fn touched(entries: Seq<(CacheKey, EntryModel)>, key: CacheKey) -> Seq<
    (CacheKey, EntryModel),
> {
    if holds(entries, key) {
        seq![(key, entry_of(entries, key))] + without(entries, key)
    } else {
        entries
    }
}

/// The entries after one was set.
pub open spec fn added(
    entries: Seq<(CacheKey, EntryModel)>,
    capacity: nat,
    key: CacheKey,
    entry: EntryModel,
) -> Seq<(CacheKey, EntryModel)> {
    if holds(entries, key) {
        seq![(key, entry)] + without(entries, key)
    } else if capacity == 0 {
        entries
    } else if entries.len() == capacity {
        seq![(key, entry)] + entries.drop_last()
    } else {
        seq![(key, entry)] + entries
    }
}

/// No key has two entries.
pub open spec fn unique(entries: Seq<(CacheKey, EntryModel)>) -> bool {
    forall|i: int, j: int| 0 <= i < j < entries.len() ==> entries[i].0 != entries[j].0
}

proof fn lemma_without(entries: Seq<(CacheKey, EntryModel)>, key: CacheKey)
    ensures
        forall|row: (CacheKey, EntryModel)| #[trigger]
            without(entries, key).contains(row) <==> entries.contains(row) && row.0 != key,
        without(entries, key).len() <= entries.len(),
        unique(entries) ==> unique(without(entries, key)),
        holds(entries, key) ==> without(entries, key).len() < entries.len(),
        unique(entries) && holds(entries, key) ==> without(entries, key).len() + 1
            == entries.len(),
        !holds(entries, key) ==> without(entries, key) == entries,
    decreases entries.len(),
{
    reveal(Seq::filter);
    if entries.len() > 0 {
        let before = entries.drop_last();
        let last = entries.last();
        lemma_without(before, key);
        let kept = without(before, key);
        assert(entries =~= before.push(last));
        assert forall|row: (CacheKey, EntryModel)| #[trigger]
            without(entries, key).contains(row) <==> entries.contains(row) && row.0 != key by {
            lemma_push_contains(before, last, row);
            lemma_push_contains(kept, last, row);
            assert(kept.contains(row) <==> before.contains(row) && row.0 != key);
        }
        assert forall|row: (CacheKey, EntryModel)| #[trigger]
            entries.contains(row) == (before.contains(row) || row == last) by {
            lemma_push_contains(before, last, row);
        }
        if last.0 != key {
            if unique(entries) {
                assert(unique(before));
                assert forall|i: int, j: int| 0 <= i < j < kept.push(last).len() implies kept.push(
                    last,
                )[i].0 != kept.push(last)[j].0 by {
                    if j == kept.len() {
                        assert(kept.contains(kept[i]));
                        let k = before.index_of(kept[i]);
                        assert(entries[k].0 != entries[entries.len() - 1].0);
                    }
                }
            }
        } else {
            assert(entries.contains((key, last.1)));
            if unique(entries) {
                assert(unique(before));
                assert(!holds(before, key)) by {
                    if holds(before, key) {
                        let k = before.index_of((key, entry_of(before, key)));
                        assert(entries[k].0 != entries[entries.len() - 1].0);
                    }
                }
            }
        }
        assert(holds(entries, key) <==> holds(before, key) || last.0 == key) by {
            if holds(entries, key) && last.0 != key {
                assert(before.contains((key, entry_of(entries, key))));
            }
            if holds(before, key) {
                assert(entries.contains((key, entry_of(before, key))));
            }
        }
    }
}

proof fn lemma_push_contains<A>(list: Seq<A>, item: A, x: A)
    ensures
        list.push(item).contains(x) == (list.contains(x) || x == item),
{
    if list.contains(x) {
        let i = list.index_of(x);
        assert(list.push(item)[i] == x);
    }
    assert(list.push(item)[list.len() as int] == item);
    if list.push(item).contains(x) && x != item {
        let i = list.push(item).index_of(x);
        assert(list[i] == x);
    }
}

/// An entry put before others.
proof fn lemma_front(
    front: (CacheKey, EntryModel),
    rest: Seq<(CacheKey, EntryModel)>,
)
    requires
        unique(rest),
        !holds(rest, front.0),
    ensures
        unique(seq![front] + rest),
        forall|row: (CacheKey, EntryModel)| #[trigger]
            (seq![front] + rest).contains(row) <==> row == front || rest.contains(row),
{
    let all = seq![front] + rest;
    assert forall|i: int, j: int| 0 <= i < j < all.len() implies all[i].0 != all[j].0 by {
        if i == 0 {
            assert(all[j] == rest[j - 1]);
            if rest[j - 1].0 == front.0 {
                assert(rest.contains((front.0, rest[j - 1].1)));
            }
        } else {
            assert(all[i] == rest[i - 1] && all[j] == rest[j - 1]);
        }
    }
    assert forall|row: (CacheKey, EntryModel)| #[trigger]
        all.contains(row) <==> row == front || rest.contains(row) by {
        assert(all[0] == front);
        if rest.contains(row) {
            assert(all[rest.index_of(row) + 1] == row);
        }
        if all.contains(row) && row != front {
            assert(rest[all.index_of(row) - 1] == row);
        }
    }
}

/// An entry of a list without repeated keys is the entry of its key.
proof fn lemma_entry_of(entries: Seq<(CacheKey, EntryModel)>, key: CacheKey, entry: EntryModel)
    requires
        unique(entries),
        entries.contains((key, entry)),
    ensures
        holds(entries, key),
        entry_of(entries, key) == entry,
{
    let other = entry_of(entries, key);
    assert(entries.contains((key, other)));
    let i = entries.index_of((key, entry));
    let j = entries.index_of((key, other));
    if i < j {
        assert(entries[i].0 != entries[j].0);
    } else if j < i {
        assert(entries[j].0 != entries[i].0);
    }
}

/// What a [`DepCache`] holds: the entries, the one used last first, and how many it may hold.
pub struct CacheModel {
    pub entries: Seq<(CacheKey, EntryModel)>,
    pub capacity: nat,
}

impl CacheModel {
    /// No key has two entries, and there are no more entries than may be.
    pub open spec fn wf(self) -> bool {
        unique(self.entries) && self.entries.len() <= self.capacity
    }

    /// The key has an entry.
    pub open spec fn holds(self, key: CacheKey) -> bool {
        holds(self.entries, key)
    }

    /// The entry of a key.
    pub open spec fn entry(self, key: CacheKey) -> EntryModel {
        entry_of(self.entries, key)
    }

    /// The cache after a key was looked up.
    pub open spec fn touch(self, key: CacheKey) -> CacheModel {
        CacheModel { entries: touched(self.entries, key), ..self }
    }

    /// The cache after an entry was set.
    pub open spec fn put(self, key: CacheKey, entry: EntryModel) -> CacheModel {
        CacheModel { entries: added(self.entries, self.capacity, key, entry), ..self }
    }
}

/// Looking a key up changes neither which keys have an entry nor what the entries are, and keeps
/// the cache within its size.
pub proof fn law_looking_up_keeps_the_entries(cache: CacheModel, key: CacheKey, other: CacheKey)
    requires
        cache.wf(),
    ensures
        cache.touch(key).wf(),
        cache.touch(key).holds(other) == cache.holds(other),
        cache.holds(other) ==> cache.touch(key).entry(other) == cache.entry(other),
        cache.touch(key).entries.len() == cache.entries.len(),
{
    if cache.holds(key) {
        let front = (key, cache.entry(key));
        let rest = without(cache.entries, key);
        lemma_without(cache.entries, key);
        assert(!holds(rest, key)) by {
            if holds(rest, key) {
                assert(rest.contains((key, entry_of(rest, key))));
            }
        }
        lemma_front(front, rest);
        let after = cache.touch(key).entries;
        if cache.holds(other) {
            let row = (other, cache.entry(other));
            assert(cache.entries.contains(row));
            if other == key {
                assert(after.contains(front));
            } else {
                assert(rest.contains(row));
            }
            assert(after.contains(row));
            lemma_entry_of(after, other, cache.entry(other));
        }
        if holds(after, other) {
            assert(after.contains((other, entry_of(after, other))));
            assert(cache.entries.contains((other, entry_of(after, other))));
        }
    }
}

/// An entry that is set is found afterwards, where the cache may hold any.
pub proof fn law_what_is_put_is_found(cache: CacheModel, key: CacheKey, entry: EntryModel)
    requires
        cache.wf(),
    ensures
        cache.put(key, entry).wf(),
        cache.capacity > 0 ==> cache.put(key, entry).holds(key) && cache.put(key, entry).entry(key)
            == entry,
        cache.capacity == 0 ==> cache.put(key, entry) == cache,
{
    lemma_put(cache, key, entry);
}

/// A cache that may hold no entry has none, whatever was put into it.
pub proof fn law_no_capacity_holds_nothing(cache: CacheModel, key: CacheKey)
    requires
        cache.wf(),
        cache.capacity == 0,
    ensures
        !cache.holds(key),
{
    assert(cache.entries =~= Seq::empty());
}

/// Setting an entry makes no other appear, and drops at most one other: where the cache is full
/// and the key is new, the one not used for longest.
pub proof fn law_putting_drops_only_the_oldest(
    cache: CacheModel,
    key: CacheKey,
    entry: EntryModel,
    other: CacheKey,
)
    requires
        cache.wf(),
        other != key,
    ensures
        cache.put(key, entry).holds(other) ==> cache.holds(other),
        cache.put(key, entry).holds(other) ==> cache.put(key, entry).entry(other) == cache.entry(
            other,
        ),
        cache.holds(other) && !cache.put(key, entry).holds(other) ==> {
            &&& !cache.holds(key)
            &&& cache.entries.len() == cache.capacity
            &&& cache.entries.last().0 == other
        },
{
    lemma_put(cache, key, entry);
    let after = cache.put(key, entry).entries;
    if holds(after, other) {
        let row = (other, entry_of(after, other));
        assert(after.contains(row));
        assert(cache.entries.contains(row));
        lemma_entry_of(cache.entries, other, row.1);
    }
    if cache.holds(other) {
        let row = (other, cache.entry(other));
        assert(cache.entries.contains(row));
        if !(!cache.holds(key) && cache.capacity > 0 && cache.entries.len() == cache.capacity
            && cache.entries.last() == row) {
            assert(after.contains(row));
        }
    }
}

/// A use of a cache.
pub enum CacheUse {
    /// A key was looked up.
    Look(CacheKey),
    /// The entry of a key was set.
    Put(CacheKey, EntryModel),
}

impl CacheUse {
    /// The key that is used.
    pub open spec fn key(self) -> CacheKey {
        match self {
            CacheUse::Look(key) => key,
            CacheUse::Put(key, _) => key,
        }
    }
}

impl CacheModel {
    /// The cache after these uses, one after the other.
    pub open spec fn after(self, uses: Seq<CacheUse>) -> CacheModel
        decreases uses.len(),
    {
        if uses.len() == 0 {
            self
        } else {
            let before = self.after(uses.drop_last());
            match uses.last() {
                CacheUse::Look(key) => before.touch(key),
                CacheUse::Put(key, entry) => before.put(key, entry),
            }
        }
    }

    /// The key was used last of all.
    pub open spec fn used_last(self, key: CacheKey) -> bool {
        self.entries.len() > 0 && self.entries[0].0 == key
    }
}

/// The keys that were used, but for one.
pub open spec fn other_keys(uses: Seq<CacheUse>, key: CacheKey) -> Set<CacheKey> {
    uses.map_values(|used: CacheUse| used.key()).to_set().remove(key)
}

/// A key that is looked up and has an entry, or whose entry is set in a cache that may hold any, is
/// the one used last.
pub proof fn law_a_used_key_is_the_last_used(cache: CacheModel, key: CacheKey, entry: EntryModel)
    requires
        cache.wf(),
    ensures
        cache.holds(key) ==> cache.touch(key).used_last(key),
        cache.capacity > 0 ==> cache.put(key, entry).used_last(key),
{
}

/// An entry stays as long as fewer other keys were used since it was used last than the cache may
/// hold entries; and it stays the same as long as it is not set anew.
pub proof fn law_an_entry_stays_while_few_others_are_used(
    cache: CacheModel,
    key: CacheKey,
    uses: Seq<CacheUse>,
)
    requires
        cache.wf(),
        cache.used_last(key),
        other_keys(uses, key).len() < cache.capacity,
    ensures
        cache.after(uses).holds(key),
        (forall|i: int| 0 <= i < uses.len() ==> !((#[trigger] uses[i]) is Put && uses[i].key() == key))
            ==> cache.after(uses).entry(key) == cache.entry(key),
{
    lemma_stays(cache, key, uses);
    let after = cache.after(uses);
    let at = choose|at: int| stands_at(after.entries, key, other_keys(uses, key), at);
    assert(after.entries.contains((key, after.entries[at].1)));
}

/// The key stands at this place, and before it stand none but these keys.
spec fn stands_at(
    entries: Seq<(CacheKey, EntryModel)>,
    key: CacheKey,
    others: Set<CacheKey>,
    at: int,
) -> bool {
    &&& 0 <= at < entries.len()
    &&& entries[at].0 == key
    &&& forall|i: int| 0 <= i < at ==> others.contains((#[trigger] entries[i]).0)
}

proof fn lemma_stays(cache: CacheModel, key: CacheKey, uses: Seq<CacheUse>)
    requires
        cache.wf(),
        cache.used_last(key),
        other_keys(uses, key).len() < cache.capacity,
    ensures
        cache.after(uses).wf(),
        cache.after(uses).capacity == cache.capacity,
        exists|at: int| stands_at(cache.after(uses).entries, key, other_keys(uses, key), at),
        (forall|i: int| 0 <= i < uses.len() ==> !((#[trigger] uses[i]) is Put && uses[i].key() == key))
            ==> cache.after(uses).entry(key) == cache.entry(key),
    decreases uses.len(),
{
    let others = other_keys(uses, key);
    if uses.len() == 0 {
        assert(stands_at(cache.entries, key, others, 0));
    } else {
        let earlier = uses.drop_last();
        let fewer = other_keys(earlier, key);
        let used = uses.last().key();
        lemma_other_keys(uses, key);
        vstd::set_lib::lemma_len_subset(fewer, others);
        lemma_stays(cache, key, earlier);
        let before = cache.after(earlier);
        let after = cache.after(uses);
        let at = choose|at: int| stands_at(before.entries, key, fewer, at);
        assert(before.entries.contains((key, before.entries[at].1)));
        assert(before.holds(key));
        match uses.last() {
            CacheUse::Look(_) => {
                law_looking_up_keeps_the_entries(before, used, key);
                if before.holds(used) {
                    lemma_moved_to_front(before.entries, used, before.entry(used), key, at, others);
                } else {
                    assert(stands_at(after.entries, key, others, at));
                }
            },
            CacheUse::Put(_, entry) => {
                law_what_is_put_is_found(before, used, entry);
                if before.holds(used) {
                    lemma_moved_to_front(before.entries, used, entry, key, at, others);
                } else {
                    if before.entries.len() == before.capacity && at == before.entries.len() - 1 {
                        lemma_full_of_others(before.entries, used, at, others);
                    }
                    assert(after.entries[at + 1] == before.entries[at]);
                    assert forall|i: int| 0 <= i < at + 1 implies others.contains(
                        (#[trigger] after.entries[i]).0,
                    ) by {
                        if i > 0 {
                            assert(after.entries[i] == before.entries[i - 1]);
                        }
                    }
                    assert(stands_at(after.entries, key, others, at + 1));
                }
            },
        }
        let there = choose|there: int| stands_at(after.entries, key, others, there);
        assert(after.entries.contains((key, after.entries[there].1)));
        assert(after.holds(key));
        if forall|i: int|
            0 <= i < uses.len() ==> !((#[trigger] uses[i]) is Put && uses[i].key() == key) {
            assert forall|i: int| 0 <= i < earlier.len() implies !((#[trigger] earlier[i]) is Put
                && earlier[i].key() == key) by {
                assert(earlier[i] == uses[i]);
            }
            assert(uses[uses.len() - 1] == uses.last());
            if let CacheUse::Put(_, entry) = uses.last() {
                law_putting_drops_only_the_oldest(before, used, entry, key);
            }
        }
    }
}

/// What one use more adds to the keys used.
proof fn lemma_other_keys(uses: Seq<CacheUse>, key: CacheKey)
    requires
        uses.len() > 0,
    ensures
        other_keys(uses, key).finite(),
        other_keys(uses.drop_last(), key).subset_of(other_keys(uses, key)),
        uses.last().key() != key ==> other_keys(uses, key).contains(uses.last().key()),
{
    let name = |used: CacheUse| used.key();
    let keys = uses.map_values(name);
    vstd::seq_lib::seq_to_set_is_finite(keys);
    assert(keys[uses.len() - 1] == uses.last().key());
    assert(keys.contains(uses.last().key()));
    let fewer = uses.drop_last().map_values(name);
    assert forall|k: CacheKey| fewer.contains(k) implies keys.contains(k) by {
        let i = fewer.index_of(k);
        assert(keys[i] == k);
    }
}

/// Where a key that has an entry is used, every other stands one place further back at most, behind
/// none but keys used.
proof fn lemma_moved_to_front(
    entries: Seq<(CacheKey, EntryModel)>,
    used: CacheKey,
    entry: EntryModel,
    key: CacheKey,
    at: int,
    others: Set<CacheKey>,
)
    requires
        unique(entries),
        holds(entries, used),
        stands_at(entries, key, others, at),
        used != key ==> others.contains(used),
    ensures
        exists|there: int|
            stands_at(seq![(used, entry)] + without(entries, used), key, others, there),
{
    let rest = without(entries, used);
    let moved = seq![(used, entry)] + rest;
    if used == key {
        assert(stands_at(moved, key, others, 0));
    } else {
        lemma_without_keeps_order(entries, used, key, at, others);
        let there = choose|there: int| stands_at(rest, key, others, there);
        assert(moved[there + 1] == rest[there]);
        assert forall|i: int| 0 <= i < there + 1 implies others.contains((#[trigger] moved[i]).0) by {
            if i > 0 {
                assert(moved[i] == rest[i - 1]);
            }
        }
        assert(stands_at(moved, key, others, there + 1));
    }
}

proof fn lemma_without_keeps_order(
    entries: Seq<(CacheKey, EntryModel)>,
    used: CacheKey,
    key: CacheKey,
    at: int,
    others: Set<CacheKey>,
)
    requires
        used != key,
        stands_at(entries, key, others, at),
    ensures
        exists|there: int| stands_at(without(entries, used), key, others, there),
    decreases entries.len(),
{
    reveal(Seq::filter);
    let before = entries.drop_last();
    let kept = without(before, used);
    if at < before.len() {
        assert forall|i: int| 0 <= i < at implies others.contains((#[trigger] before[i]).0) by {
            assert(before[i] == entries[i]);
        }
        assert(stands_at(before, key, others, at));
        lemma_without_keeps_order(before, used, key, at, others);
        let there = choose|there: int| stands_at(kept, key, others, there);
        let all = without(entries, used);
        assert forall|i: int| 0 <= i < there implies others.contains((#[trigger] all[i]).0) by {
            assert(all[i] == kept[i]);
        }
        assert(stands_at(all, key, others, there));
    } else {
        assert(without(entries, used) == kept.push(entries.last()));
        let all = kept.push(entries.last());
        lemma_without(before, used);
        assert forall|i: int| 0 <= i < kept.len() implies others.contains((#[trigger] all[i]).0) by {
            assert(kept.contains(kept[i]));
            let k = before.index_of(kept[i]);
            assert(entries[k] == kept[i]);
        }
        assert(stands_at(all, key, others, kept.len() as int));
    }
}

/// Entries of different keys, none of them this one and all of them among these: there are fewer
/// of them than keys.
proof fn lemma_full_of_others(
    entries: Seq<(CacheKey, EntryModel)>,
    used: CacheKey,
    at: int,
    others: Set<CacheKey>,
)
    requires
        unique(entries),
        0 <= at <= entries.len(),
        others.finite(),
        others.contains(used),
        !holds(entries, used),
        forall|i: int| 0 <= i < at ==> others.contains((#[trigger] entries[i]).0),
    ensures
        at < others.len(),
{
    let keys = Seq::new(at as nat, |i: int| entries[i].0);
    assert(keys.no_duplicates()) by {
        assert forall|i: int, j: int| 0 <= i < at && 0 <= j < at && i != j implies keys[i]
            != keys[j] by {
            if i < j {
                assert(entries[i].0 != entries[j].0);
            } else {
                assert(entries[j].0 != entries[i].0);
            }
        }
    }
    keys.unique_seq_to_set();
    let rest = others.remove(used);
    assert(keys.to_set().subset_of(rest)) by {
        assert forall|k: CacheKey| keys.to_set().contains(k) implies rest.contains(k) by {
            let i = keys.index_of(k);
            assert(others.contains(entries[i].0));
            if k == used {
                assert(entries.contains((used, entries[i].1)));
            }
        }
    }
    vstd::set_lib::lemma_len_subset(keys.to_set(), rest);
}

/// The rows after an entry was set.
proof fn lemma_put(cache: CacheModel, key: CacheKey, entry: EntryModel)
    requires
        cache.wf(),
    ensures
        cache.put(key, entry).wf(),
        cache.capacity == 0 ==> cache.put(key, entry) == cache,
        cache.capacity > 0 ==> cache.put(key, entry).holds(key) && cache.put(key, entry).entry(key)
            == entry,
        forall|row: (CacheKey, EntryModel)|
            row.0 != key && #[trigger] cache.put(key, entry).entries.contains(row)
                ==> cache.entries.contains(row),
        forall|row: (CacheKey, EntryModel)|
            row.0 != key && cache.entries.contains(row) && !(!cache.holds(key) && cache.capacity > 0
                && cache.entries.len() == cache.capacity && cache.entries.last() == row)
                ==> #[trigger] cache.put(key, entry).entries.contains(row),
        forall|row: (CacheKey, EntryModel)|
            row.0 == key && cache.capacity > 0 && #[trigger] cache.put(
                key,
                entry,
            ).entries.contains(row) ==> row.1 == entry,
{
    let entries = cache.entries;
    let after = cache.put(key, entry).entries;
    let front = (key, entry);
    if cache.capacity == 0 {
        assert(entries =~= Seq::empty());
        assert(!holds(entries, key));
        assert(after =~= entries);
    } else {
        let rest = if cache.holds(key) {
            without(entries, key)
        } else if entries.len() == cache.capacity {
            entries.drop_last()
        } else {
            entries
        };
        lemma_without(entries, key);
        assert forall|row: (CacheKey, EntryModel)| rest.contains(row) implies entries.contains(
            row,
        ) && row.0 != key by {
            if !cache.holds(key) {
                let i = rest.index_of(row);
                assert(entries[i] == row);
                if row.0 == key {
                    assert(entries.contains((key, row.1)));
                }
            }
        }
        assert(!holds(rest, key)) by {
            if holds(rest, key) {
                assert(rest.contains((key, entry_of(rest, key))));
            }
        }
        assert(unique(rest));
        lemma_front(front, rest);
        assert(after == seq![front] + rest);
        assert(after.contains(front));
        lemma_entry_of(after, key, entry);
        assert forall|row: (CacheKey, EntryModel)|
            row.0 != key && entries.contains(row) && !(!cache.holds(key) && cache.capacity > 0
                && entries.len() == cache.capacity && entries.last() == row) implies #[trigger]
        after.contains(row) by {
            if !cache.holds(key) && entries.len() == cache.capacity {
                let i = entries.index_of(row);
                assert(rest[i] == row);
            }
            assert(rest.contains(row));
        }
    }
}

/// A cache of transactions, cells or headers.
pub struct DepCache {
    inner: lru::LruCache<CacheKey, Entry>,
}

impl View for DepCache {
    type V = CacheModel;

    closed spec fn view(&self) -> CacheModel {
        CacheModel { entries: lru_entries(self.inner), capacity: lru_capacity(self.inner) }
    }
}

impl DepCache {
    /// An empty cache for this many entries.
    pub fn new(capacity: usize) -> (cache: DepCache)
        requires
            capacity <= usize::MAX / 128,
        ensures
            cache@.wf(),
            cache@ == (CacheModel { entries: Seq::empty(), capacity: capacity as nat }),
    {
        DepCache { inner: lru_new(capacity) }
    }

    /// Looks a key up and hands out a copy of its entry.
    pub fn get(&mut self, key: &CacheKey) -> (entry: Option<Entry>)
        requires
            old(self)@.wf(),
        ensures
            final(self)@.wf(),
            final(self)@ == old(self)@.touch(*key),
            match entry {
                Some(entry) => old(self)@.holds(*key) && entry@ == old(self)@.entry(*key),
                None => !old(self)@.holds(*key),
            },
    {
        proof {
            law_looking_up_keeps_the_entries(self@, *key, *key);
        }
        let ghost entries = self@.entries;
        match lru_get(&mut self.inner, key) {
            Some(entry) => {
                proof {
                    lemma_entry_of(entries, *key, entry@);
                }
                Some(entry.copy())
            },
            None => None,
        }
    }

    /// Sets the entry of a key.
    pub fn put(&mut self, key: CacheKey, entry: Entry)
        requires
            old(self)@.wf(),
        ensures
            final(self)@.wf(),
            final(self)@ == old(self)@.put(key, entry@),
    {
        proof {
            lemma_put(self@, key, entry@);
        }
        let _previous = lru_put(&mut self.inner, key, entry);
    }
}

/// An entry is told by the transaction, the cell or the header that it keeps.
pub proof fn law_an_entry_is_what_it_keeps(
    tx: TransactionView,
    output: CellOutput,
    data: Vec<u8>,
    header: HeaderView,
)
    ensures
        Entry::Transaction(tx)@ == EntryModel::Transaction(tx@),
        Entry::Cell(output, data)@ == EntryModel::Cell(output@, data@),
        Entry::Header(header)@ == EntryModel::Header(header@),
{
}

/// A key has an entry exactly where it stands among the entries, and where no key stands twice that
/// entry is its own.
pub proof fn law_an_entry_is_found_under_its_key(
    cache: CacheModel,
    key: CacheKey,
    entry: EntryModel,
    at: int,
)
    requires
        cache.wf(),
    ensures
        cache.holds(key) <==> exists|i: int|
            0 <= i < cache.entries.len() && (#[trigger] cache.entries[i]).0 == key,
        0 <= at < cache.entries.len() && cache.entries[at] == (key, entry) ==> cache.entry(key)
            == entry,
        forall|i: int, j: int|
            0 <= i < j < cache.entries.len() ==> cache.entries[i].0 != cache.entries[j].0,
        cache.entries.len() <= cache.capacity,
{
    if cache.holds(key) {
        let i = cache.entries.index_of((key, cache.entry(key)));
        assert(cache.entries[i].0 == key);
    }
    if exists|i: int| 0 <= i < cache.entries.len() && (#[trigger] cache.entries[i]).0 == key {
        let i = choose|i: int|
            0 <= i < cache.entries.len() && (#[trigger] cache.entries[i]).0 == key;
        assert(cache.entries.contains((key, cache.entries[i].1)));
    }
    if 0 <= at < cache.entries.len() && cache.entries[at] == (key, entry) {
        assert(cache.entries.contains((key, entry)));
        lemma_entry_of(cache.entries, key, entry);
    }
}

} // verus!
