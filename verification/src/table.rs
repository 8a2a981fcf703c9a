//! Small ordered tables and the traits their keys and values share.
use vstd::prelude::*;

verus! {

/// A value that can be duplicated without changing what it stands for.
pub trait Dup: View + Sized {
    fn dup(&self) -> (copy: Self)
        ensures
            copy@ == self@,
    ;
}

/// A value that can serve as a key: two keys are the same exactly when their views are.
pub trait Key: Dup {
    fn same(&self, other: &Self) -> (equal: bool)
        ensures
            equal == (self@ == other@),
    ;
}

impl Dup for u64 {
    fn dup(&self) -> (copy: Self) {
        *self
    }
}

impl Key for u64 {
    fn same(&self, other: &Self) -> (equal: bool) {
        *self == *other
    }
}

impl Dup for Vec<u8> {
    fn dup(&self) -> (copy: Self) {
        let copy = self.clone();
        assert(copy@ =~= self@);
        copy
    }
}

impl Dup for String {
    fn dup(&self) -> (copy: Self) {
        self.clone()
    }
}

/// The view of a value that may be absent.
pub open spec fn opt<T: View>(value: Option<T>) -> Option<T::V> {
    match value {
        Some(v) => Some(v@),
        None => None,
    }
}

/// The views of a sequence of values, one by one.
pub open spec fn views<T: View>(values: Seq<T>) -> Seq<T::V> {
    Seq::new(values.len(), |i: int| values[i]@)
}

pub proof fn lemma_views_push<T: View>(values: Seq<T>, value: T)
    ensures
        views(values.push(value)) == views(values).push(value@),
{
    assert(views(values.push(value)) =~= views(values).push(value@));
}

/// Copies a list, value by value.
pub fn dup_all<T: Dup>(values: &Vec<T>) -> (copy: Vec<T>)
    ensures
        views(copy@) == views(values@),
{
    let mut copy: Vec<T> = Vec::new();
    let mut i: usize = 0;
    while i < values.len()
        invariant
            i <= values.len(),
            copy.len() == i,
            forall|j: int| 0 <= j < i ==> (#[trigger] copy[j])@ == values[j]@,
        decreases values.len() - i,
    {
        copy.push(values[i].dup());
        i = i + 1;
    }
    assert(views(copy@) =~= views(values@));
    copy
}

/// Whether some entry of the table carries the key.
pub open spec fn has<K, V>(table: Seq<(K, V)>, key: K) -> bool {
    exists|i: int| 0 <= i < table.len() && (#[trigger] table[i]).0 == key
}

/// The position is that of the first entry that carries the key.
pub open spec fn first_at<K, V>(table: Seq<(K, V)>, key: K, i: int) -> bool {
    &&& 0 <= i < table.len()
    &&& table[i].0 == key
    &&& forall|j: int| 0 <= j < i ==> (#[trigger] table[j]).0 != key
}

/// The position of the first entry that carries the key, where there is one.
pub open spec fn pos<K, V>(table: Seq<(K, V)>, key: K) -> int {
    choose|i: int| first_at(table, key, i)
}

/// The value kept under the key, where there is one.
pub open spec fn at<K, V>(table: Seq<(K, V)>, key: K) -> V {
    table[pos(table, key)].1
}

/// The value kept under the key, if any.
pub open spec fn lookup<K, V>(table: Seq<(K, V)>, key: K) -> Option<V> {
    if has(table, key) {
        Some(at(table, key))
    } else {
        None
    }
}

/// The table with the value kept under the key: in place where the key is there already, else
/// as a new last entry.
pub open spec fn put<K, V>(table: Seq<(K, V)>, key: K, value: V) -> Seq<(K, V)> {
    if has(table, key) {
        table.update(pos(table, key), (key, value))
    } else {
        table.push((key, value))
    }
}

/// The table without the entries that carry the key.
pub open spec fn without<K, V>(table: Seq<(K, V)>, key: K) -> Seq<(K, V)> {
    table.filter(|e: (K, V)| e.0 != key)
}

/// The keys of the table, in order.
pub open spec fn keys<K, V>(table: Seq<(K, V)>) -> Seq<K> {
    Seq::new(table.len(), |i: int| table[i].0)
}

/// No two entries carry the same key.
pub open spec fn distinct<K, V>(table: Seq<(K, V)>) -> bool {
    forall|i: int, j: int|
        0 <= i < j < table.len() ==> (#[trigger] table[i]).0 != (#[trigger] table[j]).0
}

pub proof fn lemma_pos<K, V>(table: Seq<(K, V)>, key: K, i: int)
    requires
        first_at(table, key, i),
    ensures
        has(table, key),
        pos(table, key) == i,
{
    let p = pos(table, key);
    assert(first_at(table, key, p));
    if p < i {
        assert(table[p].0 != key);
    } else if i < p {
        assert(table[i].0 != key);
    }
}

/// A key that is there has a first entry.
pub proof fn lemma_has<K, V>(table: Seq<(K, V)>, key: K)
    requires
        has(table, key),
    ensures
        first_at(table, key, pos(table, key)),
{
    let i = choose|i: int| 0 <= i < table.len() && (#[trigger] table[i]).0 == key;
    lemma_first_below(table, key, i);
}

proof fn lemma_first_below<K, V>(table: Seq<(K, V)>, key: K, i: int)
    requires
        0 <= i < table.len(),
        table[i].0 == key,
    ensures
        exists|p: int| first_at(table, key, p),
    decreases i,
{
    if forall|j: int| 0 <= j < i ==> (#[trigger] table[j]).0 != key {
        assert(first_at(table, key, i));
    } else {
        let j = choose|j: int| 0 <= j < i && (#[trigger] table[j]).0 == key;
        lemma_first_below(table, key, j);
    }
}

/// One entry more at the end of a table is found exactly where its key was not there before.
pub proof fn lemma_lookup_push<K, V>(table: Seq<(K, V)>, entry: (K, V), key: K)
    ensures
        lookup(table.push(entry), key) == (if has(table, key) {
            lookup(table, key)
        } else if entry.0 == key {
            Some(entry.1)
        } else {
            None
        }),
{
    let more = table.push(entry);
    if has(table, key) {
        lemma_has(table, key);
        let p = pos(table, key);
        assert(more[p] == table[p]);
        assert(first_at(more, key, p)) by {
            assert forall|j: int| 0 <= j < p implies (#[trigger] more[j]).0 != key by {
                assert(table[j].0 != key);
            }
        }
        lemma_pos(more, key, p);
    } else if entry.0 == key {
        let p = table.len() as int;
        assert(first_at(more, key, p)) by {
            assert forall|j: int| 0 <= j < p implies (#[trigger] more[j]).0 != key by {
                assert(more[j] == table[j]);
            }
        }
        lemma_pos(more, key, p);
    } else {
        assert forall|j: int| 0 <= j < more.len() implies (#[trigger] more[j]).0 != key by {
            if j < table.len() {
                assert(more[j] == table[j]);
            }
        }
    }
}

/// Keeping a value under a key makes it what is found there, and changes what is found under no
/// other key.
pub proof fn lemma_lookup_put<K, V>(table: Seq<(K, V)>, key: K, value: V, other: K)
    ensures
        lookup(put(table, key, value), other) == (if other == key {
            Some(value)
        } else {
            lookup(table, other)
        }),
        has(put(table, key, value), other) == (other == key || has(table, other)),
{
    let after = put(table, key, value);
    if has(table, key) {
        lemma_has(table, key);
        let p = pos(table, key);
        if other == key {
            assert(first_at(after, key, p)) by {
                assert forall|j: int| 0 <= j < p implies (#[trigger] after[j]).0 != key by {
                    assert(after[j] == table[j]);
                }
            }
            lemma_pos(after, key, p);
        } else if has(table, other) {
            lemma_has(table, other);
            let q = pos(table, other);
            assert(after[q] == table[q]);
            assert(first_at(after, other, q)) by {
                assert forall|j: int| 0 <= j < q implies (#[trigger] after[j]).0 != other by {
                    assert(table[j].0 != other);
                }
            }
            lemma_pos(after, other, q);
        } else {
            assert forall|j: int| 0 <= j < after.len() implies (#[trigger] after[j]).0 != other by {
                assert(table[j].0 != other);
            }
        }
    } else {
        lemma_lookup_push(table, (key, value), other);
        lemma_lookup_push(table, (key, value), key);
    }
}

/// Keeping a value under a key makes no key occur twice.
pub proof fn lemma_put_distinct<K, V>(table: Seq<(K, V)>, key: K, value: V)
    requires
        distinct(table),
    ensures
        distinct(put(table, key, value)),
        put(table, key, value).len() <= table.len() + 1,
{
    let after = put(table, key, value);
    if has(table, key) {
        lemma_has(table, key);
        assert forall|i: int, j: int| 0 <= i < j < after.len() implies (#[trigger] after[i]).0 != (
        #[trigger] after[j]).0 by {
            assert(table[i].0 != table[j].0);
        }
    } else {
        assert forall|i: int, j: int| 0 <= i < j < after.len() implies (#[trigger] after[i]).0 != (
        #[trigger] after[j]).0 by {
            assert(table[i].0 != key);
            if j < table.len() {
                assert(table[i].0 != table[j].0);
            }
        }
    }
}

/// What is found under a key whose entries are all kept stays; under one whose entries all go,
/// nothing is found.
pub proof fn lemma_lookup_filter<K, V>(
    table: Seq<(K, V)>,
    wanted: spec_fn((K, V)) -> bool,
    key: K,
)
    ensures
        (forall|i: int|
            0 <= i < table.len() && (#[trigger] table[i]).0 == key ==> wanted(table[i])) ==> lookup(
            table.filter(wanted),
            key,
        ) == lookup(table, key),
        (forall|i: int|
            0 <= i < table.len() && (#[trigger] table[i]).0 == key ==> !wanted(table[i]))
            ==> lookup(table.filter(wanted), key) is None,
    decreases table.len(),
{
    reveal(Seq::filter);
    if table.len() > 0 {
        let front = table.drop_last();
        let last = table.last();
        lemma_lookup_filter(front, wanted, key);
        assert(table =~= front.push(last));
        assert(front.push(last)[front.len() as int] == last);
        assert(forall|i: int| 0 <= i < front.len() ==> #[trigger] front[i] == table[i]);
        lemma_lookup_push(front, last, key);
        lemma_lookup_push(front.filter(wanted), last, key);
        assert(lookup(front, key) is Some <==> has(front, key));
        assert(lookup(front.filter(wanted), key) is Some <==> has(front.filter(wanted), key));
    }
}

/// Dropping a key leaves nothing under it, and changes what is found under no other key.
pub proof fn lemma_lookup_without<K, V>(table: Seq<(K, V)>, key: K, other: K)
    ensures
        lookup(without(table, key), other) == (if other == key {
            None
        } else {
            lookup(table, other)
        }),
{
    lemma_lookup_filter(table, |e: (K, V)| e.0 != key, other);
}

/// Leaving entries out makes no key occur twice.
pub proof fn lemma_filter_distinct<K, V>(table: Seq<(K, V)>, wanted: spec_fn((K, V)) -> bool)
    requires
        distinct(table),
    ensures
        distinct(table.filter(wanted)),
    decreases table.len(),
{
    reveal(Seq::filter);
    if table.len() > 0 {
        let front = table.drop_last();
        let last = table.last();
        assert(distinct(front)) by {
            assert forall|i: int, j: int| 0 <= i < j < front.len() implies (#[trigger] front[i]).0
                != (#[trigger] front[j]).0 by {
                assert(table[i].0 != table[j].0);
            }
        }
        lemma_filter_distinct(front, wanted);
        let kept = front.filter(wanted);
        broadcast use vstd::seq_lib::group_filter_ensures;
        assert forall|i: int| 0 <= i < kept.len() implies (#[trigger] kept[i]).0 != last.0 by {
            assert(kept.contains(kept[i]));
            lemma_filter_from(front, wanted, i);
            let k = choose|k: int| 0 <= k < front.len() && front[k] == kept[i];
            assert(table[k].0 != table[table.len() - 1].0);
        }
    }
}

/// Dropping a key makes no key occur twice.
pub proof fn lemma_without_distinct<K, V>(table: Seq<(K, V)>, key: K)
    requires
        distinct(table),
    ensures
        distinct(without(table, key)),
{
    lemma_filter_distinct(table, |e: (K, V)| e.0 != key);
}

/// Each entry that is left once a key is dropped was there.
pub proof fn lemma_without_from<K, V>(table: Seq<(K, V)>, key: K, i: int)
    requires
        0 <= i < without(table, key).len(),
    ensures
        exists|k: int| 0 <= k < table.len() && table[k] == without(table, key)[i],
{
    lemma_filter_from(table, |e: (K, V)| e.0 != key, i);
}

/// Each entry that was kept was there.
pub proof fn lemma_filter_from<T>(values: Seq<T>, wanted: spec_fn(T) -> bool, i: int)
    requires
        0 <= i < values.filter(wanted).len(),
    ensures
        exists|k: int| 0 <= k < values.len() && values[k] == values.filter(wanted)[i],
        wanted(values.filter(wanted)[i]),
    decreases values.len(),
{
    reveal(Seq::filter);
    if values.len() > 0 {
        let front = values.drop_last();
        if i < front.filter(wanted).len() {
            lemma_filter_from(front, wanted, i);
            let k = choose|k: int| 0 <= k < front.len() && front[k] == front.filter(wanted)[i];
            assert(values[k] == values.filter(wanted)[i]);
        } else {
            assert(values[values.len() - 1] == values.filter(wanted)[i]);
        }
    }
}

/// The entries that some keys and their values make.
pub open spec fn paired<K: View, V: View>(keys: Seq<K>, values: Seq<V>) -> Seq<(K::V, V::V)> {
    Seq::new(keys.len(), |i: int| (keys[i]@, values[i]@))
}

/// Where no key of the entries occurs twice, no two of the keys are the same.
proof fn lemma_paired_distinct<K: View, V: View>(keys: Seq<K>, values: Seq<V>)
    requires
        distinct(paired(keys, values)),
    ensures
        forall|i: int, j: int|
            0 <= i < j < keys.len() ==> (#[trigger] keys[i])@ != (#[trigger] keys[j])@,
{
    let entries = paired(keys, values);
    assert forall|i: int, j: int| 0 <= i < j < keys.len() implies (#[trigger] keys[i])@ != (
    #[trigger] keys[j])@ by {
        assert(entries[i].0 != entries[j].0);
    }
}

/// A table that keeps its entries in the order in which their keys first came; no key occurs twice.
pub struct Table<K: View, V: View> {
    keys: Vec<K>,
    values: Vec<V>,
}

impl<K: View, V: View> View for Table<K, V> {
    type V = Seq<(K::V, V::V)>;

    closed spec fn view(&self) -> Self::V {
        paired(self.keys@, self.values@)
    }
}

impl<K: View, V: View> Table<K, V> {
    #[verifier::type_invariant]
    closed spec fn well_formed(self) -> bool {
        &&& self.keys@.len() == self.values@.len()
        &&& forall|i: int, j: int|
            0 <= i < j < self.keys@.len() ==> (#[trigger] self.keys@[i])@ != (
            #[trigger] self.keys@[j])@
    }
}

impl<K: Key, V: View> Table<K, V> {
    /// An empty table.
    pub fn new() -> (table: Self)
        ensures
            table@ == Seq::<(K::V, V::V)>::empty(),
    {
        let table = Table { keys: Vec::new(), values: Vec::new() };
        assert(table@ =~= Seq::<(K::V, V::V)>::empty());
        table
    }

    /// How many entries there are.
    pub fn len(&self) -> (n: usize)
        ensures
            n == self@.len(),
    {
        self.keys.len()
    }

    /// The key of the entry at a position.
    pub fn key_at(&self, i: usize) -> (key: &K)
        requires
            i < self@.len(),
        ensures
            key@ == self@[i as int].0,
    {
        &self.keys[i]
    }

    /// The value of the entry at a position.
    pub fn value_at(&self, i: usize) -> (value: &V)
        requires
            i < self@.len(),
        ensures
            value@ == self@[i as int].1,
    {
        proof {
            use_type_invariant(self);
        }
        &self.values[i]
    }

    /// The value of the entry at a position, to be changed in place.
    pub fn value_at_mut(&mut self, i: usize) -> (value: &mut V)
        requires
            i < old(self)@.len(),
        ensures
            value@ == old(self)@[i as int].1,
            final(self)@ == old(self)@.update(
                i as int,
                (old(self)@[i as int].0, final(value)@),
            ),
    {
        proof {
            use_type_invariant(&*self);
        }
        &mut self.values[i]
    }

    /// The position of the entry that carries the key; there is no other.
    pub fn find(&self, key: &K) -> (i: Option<usize>)
        ensures
            i is Some <==> has(self@, key@),
            i matches Some(p) ==> p < self@.len() && p == pos(self@, key@) && self@[p as int].0
                == key@,
            distinct(self@),
    {
        proof {
            use_type_invariant(self);
        }
        let mut i: usize = 0;
        while i < self.keys.len()
            invariant
                i <= self.keys.len(),
                distinct(self@),
                forall|j: int| 0 <= j < i ==> (#[trigger] self@[j]).0 != key@,
            decreases self.keys.len() - i,
        {
            if self.keys[i].same(key) {
                proof {
                    assert(self@[i as int].0 == key@);
                    lemma_pos(self@, key@, i as int);
                }
                return Some(i);
            }
            assert(self@[i as int].0 != key@);
            i = i + 1;
        }
        None
    }

    /// Whether the key is there.
    pub fn contains(&self, key: &K) -> (found: bool)
        ensures
            found == has(self@, key@),
    {
        self.find(key).is_some()
    }

    /// The value kept under the key.
    pub fn get(&self, key: &K) -> (value: Option<&V>)
        ensures
            value is Some <==> has(self@, key@),
            value matches Some(v) ==> v@ == at(self@, key@),
    {
        proof {
            use_type_invariant(self);
        }
        match self.find(key) {
            Some(i) => Some(&self.values[i]),
            None => None,
        }
    }

    /// The value kept under the key, to be changed in place.
    pub fn get_mut(&mut self, key: &K) -> (value: Option<&mut V>)
        ensures
            value is Some <==> has(old(self)@, key@),
            value is None ==> final(self)@ == old(self)@,
            value matches Some(v) ==> {
                &&& v@ == at(old(self)@, key@)
                &&& final(self)@ == old(self)@.update(
                    pos(old(self)@, key@),
                    (key@, final(v)@),
                )
            },
    {
        proof {
            use_type_invariant(&*self);
        }
        match self.find(key) {
            Some(i) => {
                Some(&mut self.values[i])
            },
            None => None,
        }
    }

    /// Takes the keys and the values out, and leaves the table empty.
    fn take_out(&mut self) -> (parts: (Vec<K>, Vec<V>))
        ensures
            paired(parts.0@, parts.1@) == old(self)@,
            parts.0@.len() == parts.1@.len(),
            distinct(paired(parts.0@, parts.1@)),
            final(self)@ == Seq::<(K::V, V::V)>::empty(),
    {
        proof {
            use_type_invariant(&*self);
        }
        let mut whole = Table::new();
        std::mem::swap(&mut whole, self);
        let Table { keys, values } = whole;
        (keys, values)
    }

    /// Keeps the value under the key, in place of what was there; says whether the key was there.
    pub fn insert(&mut self, key: K, value: V) -> (replaced: bool)
        ensures
            replaced == has(old(self)@, key@),
            final(self)@ == put(old(self)@, key@, value@),
            distinct(final(self)@),
    {
        proof {
            use_type_invariant(&*self);
        }
        let ghost before = self@;
        match self.find(&key) {
            Some(i) => {
                self.values[i] = value;
                assert(self@ =~= before.update(i as int, (key@, value@)));
                true
            },
            None => {
                let (mut keys, mut values) = self.take_out();
                keys.push(key);
                values.push(value);
                proof {
                    lemma_put_distinct(before, key@, value@);
                    assert(paired(keys@, values@) =~= before.push((key@, value@)));
                    lemma_paired_distinct(keys@, values@);
                }
                *self = Table { keys, values };
                assert(self@ =~= before.push((key@, value@)));
                false
            },
        }
    }

    /// Keeps the entries of which `keep` says so, in their order.
    pub(crate) fn retain<F: Fn(&K, &V) -> bool>(
        &mut self,
        keep: F,
        Ghost(wanted): Ghost<spec_fn((K::V, V::V)) -> bool>,
    )
        requires
            forall|k: &K, v: &V| #[trigger] call_requires(keep, (k, v)),
            forall|k: &K, v: &V, b: bool| #[trigger]
                call_ensures(keep, (k, v), b) ==> b == wanted((k@, v@)),
        ensures
            final(self)@ == old(self)@.filter(wanted),
            distinct(final(self)@),
    {
        let ghost before = self@;
        let (mut keys, mut values) = self.take_out();
        let mut i: usize = 0;
        let ghost mut seen: int = 0;
        assert(before.take(0).filter(wanted) =~= paired(keys@, values@).take(0));
        while i < keys.len()
            invariant
                i <= keys.len() == values.len(),
                0 <= seen <= before.len(),
                keys.len() - i == before.len() - seen,
                paired(keys@, values@).take(i as int) == before.take(seen).filter(wanted),
                paired(keys@, values@).skip(i as int) == before.skip(seen),
                forall|k: &K, v: &V| #[trigger] call_requires(keep, (k, v)),
                forall|k: &K, v: &V, b: bool| #[trigger]
                    call_ensures(keep, (k, v), b) ==> b == wanted((k@, v@)),
            decreases keys.len() - i,
        {
            let ghost all = paired(keys@, values@);
            proof {
                assert(all[i as int] == all.skip(i as int)[0]);
                assert(before[seen] == before.skip(seen)[0]);
                assert(before.take(seen + 1).drop_last() =~= before.take(seen));
                reveal_with_fuel(Seq::filter, 2);
            }
            if keep(&keys[i], &values[i]) {
                i = i + 1;
                assert(all.take(i as int) =~= all.take(i - 1).push(before[seen]));
            } else {
                keys.remove(i);
                values.remove(i);
                assert(paired(keys@, values@) =~= all.remove(i as int));
                assert(all.remove(i as int).take(i as int) =~= all.take(i as int));
            }
            proof {
                seen = seen + 1;
                assert(paired(keys@, values@).skip(i as int) =~= before.skip(seen)) by {
                    assert forall|j: int| 0 <= j < before.len() - seen implies paired(
                        keys@,
                        values@,
                    ).skip(i as int)[j] == before.skip(seen)[j] by {
                        assert(before.skip(seen - 1)[j + 1] == before[seen + j]);
                    }
                }
            }
        }
        proof {
            assert(paired(keys@, values@).take(i as int) =~= paired(keys@, values@));
            assert(before.take(seen) =~= before);
            lemma_filter_distinct(before, wanted);
            lemma_paired_distinct(keys@, values@);
        }
        *self = Table { keys, values };
    }

    /// Drops the entry that carries the key.
    pub fn remove(&mut self, key: &K)
        ensures
            final(self)@ == without(old(self)@, key@),
            distinct(final(self)@),
    {
        let ghost gone = key@;
        let other = |k: &K, v: &V| -> (b: bool)
            ensures
                b == (k@ != key@),
            { !k.same(key) };
        self.retain(other, Ghost(|e: (K::V, V::V)| e.0 != gone));
    }
}

} // verus!
