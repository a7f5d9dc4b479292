//! Lists of items kept under text keys, in the order the keys first came.

use vstd::prelude::*;

verus! {

/// The items recorded under one key.
pub struct Row<T> {
    pub key: String,
    pub items: Vec<T>,
}

/// Rows of items by key. The operations keep one row for each key; should
/// a key occur in several rows, the first of them counts.
pub struct Table<T> {
    pub rows: Vec<Row<T>>,
}

/// What a table holds: each key with its items, in row order.
pub type TableModel<T> = Seq<(Seq<char>, Seq<T>)>;

/// The first position below `upto` whose key is `key`.
pub open spec fn key_position<T>(m: TableModel<T>, key: Seq<char>, upto: int) -> Option<int>
    decreases upto,
{
    if upto <= 0 {
        None
    } else {
        match key_position(m, key, upto - 1) {
            Some(i) => Some(i),
            None => if m[upto - 1].0 == key {
                Some(upto - 1)
            } else {
                None
            },
        }
    }
}

/// The first position whose key is `key`.
pub open spec fn position_of<T>(m: TableModel<T>, key: Seq<char>) -> Option<int> {
    key_position(m, key, m.len() as int)
}

/// The items under `key`, if the table has the key.
pub open spec fn items_of<T>(m: TableModel<T>, key: Seq<char>) -> Option<Seq<T>> {
    match position_of(m, key) {
        Some(i) => Some(m[i].1),
        None => None,
    }
}

/// The table with the items under `key` replaced, or with a new last row for
/// a key it did not have.
pub open spec fn with_items<T>(m: TableModel<T>, key: Seq<char>, items: Seq<T>) -> TableModel<T> {
    match position_of(m, key) {
        Some(i) => m.update(i, (key, items)),
        None => m.push((key, items)),
    }
}

/// What `key_position` finds is the first match, and it finds one whenever
/// there is one.
pub proof fn lemma_key_position<T>(m: TableModel<T>, key: Seq<char>, upto: int)
    requires
        0 <= upto <= m.len(),
    ensures
        match key_position(m, key, upto) {
            Some(i) => 0 <= i < upto && m[i].0 == key && forall|j: int|
                0 <= j < i ==> (#[trigger] m[j]).0 != key,
            None => forall|j: int| 0 <= j < upto ==> (#[trigger] m[j]).0 != key,
        },
    decreases upto,
{
    if upto > 0 {
        lemma_key_position(m, key, upto - 1);
    }
}

/// A match at `i` with none before it is what `position_of` finds.
pub proof fn lemma_position_found<T>(m: TableModel<T>, key: Seq<char>, i: int)
    requires
        0 <= i < m.len(),
        m[i].0 == key,
        forall|j: int| 0 <= j < i ==> (#[trigger] m[j]).0 != key,
    ensures
        position_of(m, key) == Some(i),
{
    lemma_key_position(m, key, m.len() as int);
}

/// Without a match anywhere `position_of` finds nothing.
pub proof fn lemma_position_absent<T>(m: TableModel<T>, key: Seq<char>)
    requires
        forall|j: int| 0 <= j < m.len() ==> (#[trigger] m[j]).0 != key,
    ensures
        position_of(m, key) is None,
{
    lemma_key_position(m, key, m.len() as int);
}

/// The texts of a list of strings.
pub open spec fn texts(list: Seq<String>) -> Seq<Seq<char>> {
    Seq::new(list.len(), |i: int| list[i]@)
}

/// A vector with the same items.
pub fn copy_items<T: Copy>(items: &Vec<T>) -> (r: Vec<T>)
    ensures
        r@ == items@,
{
    let mut r: Vec<T> = Vec::new();
    let mut i: usize = 0;
    while i < items.len()
        invariant
            i <= items@.len(),
            r@ == items@.take(i as int),
        decreases items@.len() - i,
    {
        r.push(items[i]);
        assert(r@ =~= items@.take(i + 1));
        i += 1;
    }
    assert(items@.take(items@.len() as int) =~= items@);
    r
}

/// Whether `text` is among the texts of `list`.
pub fn has_text(list: &Vec<String>, text: &String) -> (b: bool)
    ensures
        b == texts(list@).contains(text@),
{
    let mut i: usize = 0;
    while i < list.len()
        invariant
            i <= list@.len(),
            forall|j: int| 0 <= j < i ==> (#[trigger] texts(list@)[j]) != text@,
        decreases list@.len() - i,
    {
        if list[i] == *text {
            assert(texts(list@)[i as int] == text@);
            return true;
        }
        i += 1;
    }
    false
}

impl<T> View for Table<T> {
    type V = TableModel<T>;

    open spec fn view(&self) -> TableModel<T> {
        Seq::new(self.rows@.len(), |i: int| (self.rows@[i].key@, self.rows@[i].items@))
    }
}

impl<T> Table<T> {
    /// A table without rows.
    pub fn new() -> (t: Table<T>)
        ensures
            t@ == Seq::<(Seq<char>, Seq<T>)>::empty(),
    {
        let t = Table { rows: Vec::new() };
        assert(t@ =~= Seq::<(Seq<char>, Seq<T>)>::empty());
        t
    }

    /// The number of rows.
    pub fn len(&self) -> (n: usize)
        ensures
            n == self@.len(),
    {
        self.rows.len()
    }

    /// The row that counts for `key`.
    pub fn find(&self, key: &String) -> (r: Option<usize>)
        ensures
            r matches Some(i) ==> i < self@.len() && position_of(self@, key@) == Some(i as int),
            r is None ==> position_of(self@, key@) is None,
    {
        let mut i: usize = 0;
        while i < self.rows.len()
            invariant
                i <= self.rows@.len(),
                forall|j: int| 0 <= j < i ==> (#[trigger] self@[j]).0 != key@,
            decreases self.rows@.len() - i,
        {
            if self.rows[i].key == *key {
                proof {
                    lemma_position_found(self@, key@, i as int);
                }
                return Some(i);
            }
            i += 1;
        }
        proof {
            lemma_position_absent(self@, key@);
        }
        None
    }

    /// The items under `key`.
    pub fn get(&self, key: &String) -> (r: Option<&Vec<T>>)
        ensures
            r matches Some(items) ==> items_of(self@, key@) == Some(items@),
            r is None ==> items_of(self@, key@) is None,
    {
        match self.find(key) {
            Some(i) => Some(&self.rows[i].items),
            None => None,
        }
    }

    /// Puts `items` under `key`, in place of what the key had.
    pub fn put(&mut self, key: String, items: Vec<T>)
        ensures
            final(self)@ == with_items(old(self)@, key@, items@),
    {
        let found = self.find(&key);
        let ghost before = self@;
        let ghost k = key@;
        let ghost its = items@;
        match found {
            Some(i) => {
                proof {
                    lemma_key_position(before, k, before.len() as int);
                }
                self.rows.set(i, Row { key, items });
                assert(self@ =~= before.update(i as int, (k, its)));
            },
            None => {
                self.rows.push(Row { key, items });
                assert(self@ =~= before.push((k, its)));
            },
        }
    }
}

/// The table with `item` added after the items under `key`; a key the
/// table did not have gets a new last row.
pub open spec fn with_item<T>(m: TableModel<T>, key: Seq<char>, item: T) -> TableModel<T> {
    match position_of(m, key) {
        Some(i) => m.update(i, (key, m[i].1.push(item))),
        None => m.push((key, seq![item])),
    }
}

impl<T> Table<T> {
    /// Adds `item` after the items under `key`.
    pub fn append(&mut self, key: String, item: T)
        ensures
            final(self)@ == with_item(old(self)@, key@, item),
    {
        let found = self.find(&key);
        let ghost before = self@;
        let ghost k = key@;
        match found {
            Some(i) => {
                proof {
                    lemma_key_position(before, k, before.len() as int);
                }
                self.rows[i].items.push(item);
                assert(self@ =~= before.update(i as int, (k, before[i as int].1.push(item))));
            },
            None => {
                let mut items: Vec<T> = Vec::new();
                items.push(item);
                self.rows.push(Row { key, items });
                assert(self@ =~= before.push((k, seq![item])));
            },
        }
    }
}

} // verus!
