//! Interning: a store that hands out one small key per distinct value.

use vstd::prelude::*;
use std::collections::HashMap;

verus! {

/// A key handed out by an interner: a small copyable handle that stands for
/// the position at which its data was first interned.
pub trait InternKey: Copy {
    /// The position this key stands for.
    spec fn index(self) -> nat;

    /// The key that stands for position `index`.
    fn from_usize(index: usize) -> (key: Self)
        ensures
            key.index() == index,
    ;

    /// The position this key stands for.
    fn as_usize(self) -> (index: usize)
        ensures
            index == self.index(),
    ;

    /// Two keys that stand for the same position are the same key.
    proof fn index_injective(a: Self, b: Self)
        requires
            a.index() == b.index(),
        ensures
            a == b,
    ;
}

/// Two keys are the same exactly when they stand for the same position.
pub proof fn law_keys_injective<Key: InternKey>(a: Key, b: Key)
    ensures
        (a == b) <==> (a.index() == b.index()),
{
    if a.index() == b.index() {
        Key::index_injective(a, b);
    }
}

/// Data that can be interned. Two values are the same entry of a table
/// exactly when their views are equal.
pub trait InternData: View + Sized {
    /// Whether `self` and `other` are the same value.
    fn same(&self, other: &Self) -> (same: bool)
        ensures
            same == (self@ == other@),
    ;

    /// A copy of `self`.
    fn duplicate(&self) -> (copy: Self)
        ensures
            copy@ == self@,
    ;

    /// A number that goes with a value, by which it is looked for: values
    /// that are the same have the same number.
    spec fn hash_of(view: Self::V) -> u64;

    /// The number that goes with `self`.
    fn hash_data(&self) -> (code: u64)
        ensures
            code == Self::hash_of(self@),
    ;
}

/// Two numbers made into one.
pub open spec fn mix(a: u64, b: u64) -> u64 {
    ((a * 31 + b) % 0x1_0000_0000_0000_0000) as u64
}

/// Two numbers made into one.
pub fn mixed(a: u64, b: u64) -> (m: u64)
    ensures
        m == mix(a, b),
{
    ((a as u128 * 31 + b as u128) % 0x1_0000_0000_0000_0000u128) as u64
}

/// The number that goes with a text.
pub open spec fn hash_chars(chars: Seq<char>) -> u64
    decreases chars.len(),
{
    if chars.len() == 0 {
        0
    } else {
        mix(hash_chars(chars.drop_last()), chars.last() as u64)
    }
}

impl InternKey for usize {
    open spec fn index(self) -> nat {
        self as nat
    }

    fn from_usize(index: usize) -> (key: Self) {
        index
    }

    fn as_usize(self) -> (index: usize) {
        self
    }

    proof fn index_injective(a: Self, b: Self) {
    }
}

impl InternData for String {
    fn same(&self, other: &Self) -> (same: bool) {
        *self == *other
    }

    fn duplicate(&self) -> (copy: Self) {
        self.clone()
    }

    open spec fn hash_of(view: Seq<char>) -> u64 {
        hash_chars(view)
    }

    fn hash_data(&self) -> (code: u64) {
        let mut code: u64 = 0;
        for c in iter: self.as_str().chars()
            invariant
                iter.seq() == self@,
                code == hash_chars(self@.subrange(0, iter.index() as int)),
        {
            proof {
                let next = self@.subrange(0, iter.index() + 1);
                assert(next.drop_last() =~= self@.subrange(0, iter.index() as int));
            }
            code = mixed(code, c as u64);
        }
        proof {
            assert(self@.subrange(0, self@.len() as int) =~= self@);
        }
        code
    }
}

/// The position at which `data` stands in `entries` once it has been
/// interned there: where it already is, or else at the end.
pub open spec fn position_of<V>(entries: Seq<V>, data: V) -> int {
    if entries.contains(data) {
        entries.index_of(data)
    } else {
        entries.len() as int
    }
}

/// The entries of a table after `data` has been interned into `entries`.
pub open spec fn with_interned<V>(entries: Seq<V>, data: V) -> Seq<V> {
    if entries.contains(data) {
        entries
    } else {
        entries.push(data)
    }
}

/// Interning keeps what is there and adds at most one entry: `data` stands
/// at its position afterwards, every earlier entry stays where it was, and
/// still no entry stands twice.
pub proof fn lemma_interned<V>(entries: Seq<V>, data: V)
    requires
        entries.no_duplicates(),
    ensures
        with_interned(entries, data).no_duplicates(),
        0 <= position_of(entries, data) < with_interned(entries, data).len(),
        with_interned(entries, data)[position_of(entries, data)] == data,
        entries.len() <= with_interned(entries, data).len() <= entries.len() + 1,
        forall|i: int|
            0 <= i < entries.len() ==> #[trigger] with_interned(entries, data)[i] == entries[i],
{
    if entries.contains(data) {
        let at = entries.index_of(data);
        assert(entries[at] == data);
    } else {
        let longer = entries.push(data);
        assert forall|i: int, j: int| 0 <= i < longer.len() && 0 <= j < longer.len() && i != j
            implies longer[i] != longer[j] by {
            if i < entries.len() {
                assert(entries.contains(longer[i]));
            }
            if j < entries.len() {
                assert(entries.contains(longer[j]));
            }
        }
    }
}

/// Interning a value again gives the key that it was given first, whatever
/// has been interned in between, and a value that is there already leaves
/// the table as it is.
pub proof fn law_intern_idempotent<V>(entries: Seq<V>, data: V, between: Seq<V>)
    requires
        entries.no_duplicates(),
    ensures
        position_of(with_all_interned(with_interned(entries, data), between), data)
            == position_of(entries, data),
        with_interned(with_interned(entries, data), data) == with_interned(entries, data),
{
    lemma_interned(entries, data);
    lemma_all_interned(with_interned(entries, data), between);
    let first = with_interned(entries, data);
    let at = position_of(entries, data);
    let last = with_all_interned(first, between);
    assert(first[at] == data);
    assert(last[at] == data);
    assert(last.contains(data));
    assert(last[last.index_of(data)] == data);
    assert(first.contains(data));
}

/// The entries of a table after each value of `more` has been interned into
/// `entries`, in order.
pub open spec fn with_all_interned<V>(entries: Seq<V>, more: Seq<V>) -> Seq<V>
    decreases more.len(),
{
    if more.len() == 0 {
        entries
    } else {
        with_all_interned(with_interned(entries, more.first()), more.drop_first())
    }
}

/// Interning any number of values keeps every entry where it was, and still
/// no entry stands twice.
pub proof fn lemma_all_interned<V>(entries: Seq<V>, more: Seq<V>)
    requires
        entries.no_duplicates(),
    ensures
        with_all_interned(entries, more).no_duplicates(),
        entries.len() <= with_all_interned(entries, more).len(),
        forall|i: int|
            0 <= i < entries.len() ==> #[trigger] with_all_interned(entries, more)[i]
                == entries[i],
    decreases more.len(),
{
    if more.len() > 0 {
        lemma_interned(entries, more.first());
        lemma_all_interned(with_interned(entries, more.first()), more.drop_first());
    }
}

/// Interning the values of `more` and then `last` is interning one list.
pub proof fn lemma_all_interned_push<V>(entries: Seq<V>, more: Seq<V>, last: V)
    ensures
        with_all_interned(entries, more.push(last)) == with_interned(
            with_all_interned(entries, more),
            last,
        ),
    decreases more.len(),
{
    if more.len() == 0 {
        assert(more.push(last).drop_first() =~= Seq::<V>::empty());
        assert(more.push(last).first() == last);
        let once = with_interned(entries, last);
        assert(with_all_interned(once, Seq::<V>::empty()) == once);
    } else {
        assert(more.push(last).first() == more.first());
        assert(more.push(last).drop_first() =~= more.drop_first().push(last));
        lemma_all_interned_push(with_interned(entries, more.first()), more.drop_first(), last);
    }
}

/// Two values that differ are given keys that differ, in whichever order
/// they are interned and whatever is interned in between.
pub proof fn law_intern_injective<V>(entries: Seq<V>, first: V, between: Seq<V>, second: V)
    requires
        entries.no_duplicates(),
        first != second,
    ensures
        position_of(entries, first) != position_of(
            with_all_interned(with_interned(entries, first), between),
            second,
        ),
{
    let after_first = with_interned(entries, first);
    let at = position_of(entries, first);
    let later = with_all_interned(after_first, between);
    lemma_interned(entries, first);
    lemma_all_interned(after_first, between);
    lemma_interned(later, second);
    assert(later[at] == first);
    assert(with_interned(later, second)[at] == first);
}

/// Looking up the key that interning gave finds the value that was
/// interned, also after more has been interned.
pub proof fn law_intern_round_trip<V>(entries: Seq<V>, data: V, later: Seq<V>)
    requires
        entries.no_duplicates(),
    ensures
        0 <= position_of(entries, data) < with_all_interned(
            with_interned(entries, data),
            later,
        ).len(),
        with_all_interned(with_interned(entries, data), later)[position_of(entries, data)]
            == data,
{
    lemma_interned(entries, data);
    lemma_all_interned(with_interned(entries, data), later);
}

/// A store of values of type `Data`, each found again by its `Key`.
pub trait Interner<Key: InternKey, Data: InternData> {
    /// The values interned so far, in the order in which they first came.
    spec fn entries(&self) -> Seq<Data::V>;

    /// The store's invariant.
    spec fn wf(&self) -> bool;

    /// No value stands twice in a well-formed store.
    proof fn entries_distinct(&self)
        requires
            self.wf(),
        ensures
            self.entries().no_duplicates(),
    ;

    /// The key of `data`, which is added to the store if it is new.
    fn intern(&mut self, data: Data) -> (key: Key)
        requires
            old(self).wf(),
        ensures
            final(self).wf(),
            final(self).entries() == with_interned(old(self).entries(), data@),
            key.index() == position_of(old(self).entries(), data@),
    ;

    /// The value that `key` stands for.
    fn lookup(&self, key: Key) -> (data: Data)
        requires
            self.wf(),
            key.index() < self.entries().len(),
        ensures
            data@ == self.entries()[key.index() as int],
    ;
}

/// A single interner for one pair of key and data types. Values are kept in
/// the order in which they first came, and a key is the position of its value.
/// A value is looked for among the values that have its number, so that
/// interning takes about the same time however many values there are.
pub struct InternTable<Key: InternKey, Data: InternData> {
    values: Vec<Data>,
    index: HashMap<u64, Vec<usize>>,
    key: core::marker::PhantomData<Key>,
}

impl<Key: InternKey, Data: InternData> View for InternTable<Key, Data> {
    type V = Seq<Data::V>;

    closed spec fn view(&self) -> Seq<Data::V> {
        Seq::new(self.values@.len(), |i: int| self.values@[i]@)
    }
}

impl<Key: InternKey, Data: InternData> InternTable<Key, Data> {
    /// Whether each position is listed under the number of its value.
    spec fn positions_listed(&self) -> bool {
        forall|i: int|
            0 <= i < self@.len() ==> self.index@.contains_key(Data::hash_of(#[trigger] self@[i]))
                && self.index@[Data::hash_of(self@[i])]@.contains(i as usize)
    }

    /// Whether what is listed under a number is the position of a value
    /// with that number.
    spec fn lists_sound(&self) -> bool {
        forall|code: u64, at: int|
            self.index@.contains_key(code) && 0 <= at < self.index@[code]@.len() ==> {
                let position = #[trigger] self.index@[code]@[at];
                position < self@.len() && Data::hash_of(self@[position as int]) == code
            }
    }

    /// An empty table.
    pub fn new() -> (table: Self)
        ensures
            table.wf(),
            table@ == Seq::<Data::V>::empty(),
    {
        let table = InternTable {
            values: Vec::new(),
            index: HashMap::new(),
            key: core::marker::PhantomData,
        };
        assert(table@ =~= Seq::<Data::V>::empty());
        table
    }

    /// The number of values fits a machine word.
    pub proof fn lemma_len_fits(&self)
        ensures
            self@.len() <= usize::MAX,
    {
        assert(self.values@.len() == self.values.len());
    }

    /// The number of values interned so far.
    pub fn len(&self) -> (len: usize)
        ensures
            len == self@.len(),
    {
        self.values.len()
    }

    /// The position of the value equal to `data`, which has the number
    /// `code`, if there is one.
    fn find(&self, data: &Data, code: u64) -> (found: Option<usize>)
        requires
            self.wf(),
            code == Data::hash_of(data@),
        ensures
            match found {
                Some(i) => self@.contains(data@) && i == self@.index_of(data@),
                None => !self@.contains(data@),
            },
    {
        broadcast use vstd::std_specs::hash::group_hash_axioms;

        match self.index.get(&code) {
            None => {
                proof {
                    if self@.contains(data@) {
                        let at = choose|at: int| 0 <= at < self@.len() && self@[at] == data@;
                        assert(self.index@.contains_key(Data::hash_of(self@[at])));
                    }
                }
                None
            },
            Some(list) => {
                let mut at: usize = 0;
                while at < list.len()
                    invariant
                        self.wf(),
                        at <= list@.len(),
                        self.index@.contains_key(code),
                        self.index@[code] == *list,
                        self@.len() == self.values@.len(),
                        forall|j: int| 0 <= j < at ==> self@[list@[j] as int] != data@,
                    decreases list@.len() - at,
                {
                    let position = list[at];
                    assert(self.index@[code]@[at as int] == position);
                    if self.values[position].same(data) {
                        assert(self@[position as int] == data@);
                        return Some(position);
                    }
                    at += 1;
                }
                proof {
                    if self@.contains(data@) {
                        self.lemma_len_fits();
                        let i = choose|i: int| 0 <= i < self@.len() && self@[i] == data@;
                        assert(self.index@[Data::hash_of(self@[i])]@.contains(i as usize));
                        let j = choose|j: int| 0 <= j < list@.len() && list@[j] == i as usize;
                        assert(self@[list@[j] as int] != data@);
                    }
                }
                None
            },
        }
    }
}

impl<Key: InternKey, Data: InternData> Interner<Key, Data> for InternTable<Key, Data> {
    open spec fn entries(&self) -> Seq<Data::V> {
        self@
    }

    closed spec fn wf(&self) -> bool {
        &&& self@.no_duplicates()
        &&& self.positions_listed()
        &&& self.lists_sound()
    }

    proof fn entries_distinct(&self) {
    }

    fn intern(&mut self, data: Data) -> (key: Key) {
        broadcast use vstd::std_specs::hash::group_hash_axioms;

        let code = data.hash_data();
        match self.find(&data, code) {
            Some(i) => Key::from_usize(i),
            None => {
                let i = self.values.len();
                let ghost before = *self;
                self.values.push(data);
                let mut list = match self.index.remove(&code) {
                    Some(list) => list,
                    None => Vec::new(),
                };
                let ghost listed = list@;
                list.push(i);
                self.index.insert(code, list);
                proof {
                    assert(self@ =~= before@.push(data@));
                    assert forall|a: int, b: int|
                        0 <= a < self@.len() && 0 <= b < self@.len() && a != b implies self@[a]
                        != self@[b] by {
                        if a < before@.len() {
                            assert(before@.contains(self@[a]));
                        }
                        if b < before@.len() {
                            assert(before@.contains(self@[b]));
                        }
                    }
                    assert forall|p: int| 0 <= p < self@.len() implies self.index@.contains_key(
                        Data::hash_of(#[trigger] self@[p]),
                    ) && self.index@[Data::hash_of(self@[p])]@.contains(p as usize) by {
                        let h = Data::hash_of(self@[p]);
                        if p == i {
                            assert(self.index@[h]@[listed.len() as int] == i);
                        } else {
                            assert(before@[p] == self@[p]);
                            assert(before.index@[h]@.contains(p as usize));
                            if h == code {
                                let at = choose|at: int|
                                    0 <= at < listed.len() && listed[at] == p as usize;
                                assert(self.index@[h]@[at] == p as usize);
                            }
                        }
                    }
                    assert forall|h: u64, at: int|
                        self.index@.contains_key(h) && 0 <= at
                            < self.index@[h]@.len() implies {
                        let position = #[trigger] self.index@[h]@[at];
                        position < self@.len() && Data::hash_of(self@[position as int]) == h
                    } by {
                        if h == code {
                            if at < listed.len() {
                                assert(before.index@[h]@[at] == listed[at]);
                            }
                        } else {
                            assert(before.index@[h]@[at] == self.index@[h]@[at]);
                        }
                    }
                }
                Key::from_usize(i)
            },
        }
    }

    fn lookup(&self, key: Key) -> (data: Data) {
        self.values[key.as_usize()].duplicate()
    }
}

impl<Key: InternKey, Data: InternData> Default for InternTable<Key, Data> {
    fn default() -> (table: Self)
        ensures
            table.wf(),
            table@ == Seq::<Data::V>::empty(),
    {
        InternTable::new()
    }
}

} // verus!
