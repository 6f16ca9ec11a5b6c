//! Grouping the rows of a result by a pair of names, so that a lookup does not have to walk all
//! rows.

use vstd::hash_map::StringHashMap;
use vstd::prelude::*;
use vstd::string::*;

use crate::text::{decimal, is_digit, lemma_decimal, push_decimal, to_chars};

verus! {

/// A pair of names.
pub type Key = (Seq<char>, Seq<char>);

/// The indices below `n` at which `keys` holds `key`, in increasing order.
pub open spec fn rows_with(keys: Seq<Key>, key: Key, n: int) -> Seq<usize>
    decreases n,
{
    if n <= 0 {
        Seq::empty()
    } else if keys[n - 1] == key {
        rows_with(keys, key, n - 1).push((n - 1) as usize)
    } else {
        rows_with(keys, key, n - 1)
    }
}

/// The rows of `key`, in order.
pub open spec fn group_of(keys: Seq<Key>, key: Key) -> Seq<usize> {
    rows_with(keys, key, keys.len() as int)
}

/// One text for a pair of names: the length of the first, a colon, and both names.
pub open spec fn pair_text(key: Key) -> Seq<char> {
    decimal(key.0.len()) + seq![':'] + key.0 + key.1
}

/// Different pairs have different texts.
proof fn lemma_pair_text_injective(a: Key, b: Key)
    requires
        pair_text(a) == pair_text(b),
    ensures
        a == b,
{
    let s = pair_text(a);
    let da = decimal(a.0.len());
    let db = decimal(b.0.len());
    lemma_decimal(a.0.len());
    lemma_decimal(b.0.len());
    assert(s[da.len() as int] == ':');
    assert(s[db.len() as int] == ':');
    if da.len() < db.len() {
        assert(s[da.len() as int] == db[da.len() as int]);
        assert(is_digit(db[da.len() as int]));
    }
    if db.len() < da.len() {
        assert(s[db.len() as int] == da[db.len() as int]);
        assert(is_digit(da[db.len() as int]));
    }
    assert(da =~= s.take(da.len() as int));
    assert(db =~= s.take(db.len() as int));
    assert(a.0.len() == b.0.len());
    let start = da.len() as int + 1;
    let mid = start + a.0.len();
    assert(a.0 =~= s.subrange(start, mid));
    assert(b.0 =~= s.subrange(start, mid));
    assert(a.1 =~= s.skip(mid));
    assert(b.1 =~= s.skip(mid));
}

fn pair_of(first: &str, second: &str) -> (r: String)
    ensures
        r@ == pair_text((first@, second@)),
{
    let chars = to_chars(first);
    let mut r = String::new();
    push_decimal(&mut r, chars.len() as u128);
    r.push(':');
    r.append(first);
    r.append(second);
    assert(r@ =~= pair_text((first@, second@)));
    r
}

/// Rows grouped by a pair of names.
pub struct RowGroups {
    index: StringHashMap<usize>,
    rows: Vec<Vec<usize>>,
    keys: Ghost<Seq<Key>>,
}

impl RowGroups {
    /// The key of every row, in order.
    pub closed spec fn keys(&self) -> Seq<Key> {
        self.keys@
    }

    /// The index leads each pair to its rows, and no two pairs to the same ones.
    pub closed spec fn is_well_formed(&self) -> bool {
        &&& forall|key: Key|
            self.index@.contains_key(#[trigger] pair_text(key)) ==> {
                &&& self.index@[pair_text(key)] < self.rows@.len()
                &&& self.rows@[self.index@[pair_text(key)] as int]@ == group_of(self.keys@, key)
            }
        &&& forall|key: Key|
            !self.index@.contains_key(#[trigger] pair_text(key)) ==> group_of(
                self.keys@,
                key,
            ).len() == 0
        &&& forall|a: Key, b: Key|
            self.index@.contains_key(#[trigger] pair_text(a)) && self.index@.contains_key(
                #[trigger] pair_text(b),
            ) && self.index@[pair_text(a)] == self.index@[pair_text(b)] ==> a == b
    }

    /// No rows at all.
    pub fn new() -> (r: RowGroups)
        ensures
            r.is_well_formed(),
            r.keys() == Seq::<Key>::empty(),
    {
        RowGroups { index: StringHashMap::new(), rows: Vec::new(), keys: Ghost(Seq::empty()) }
    }

    /// Adds the next row.
    pub fn add_row(&mut self, first: &str, second: &str, row: usize)
        requires
            old(self).is_well_formed(),
            row == old(self).keys().len(),
        ensures
            final(self).is_well_formed(),
            final(self).keys() == old(self).keys().push((first@, second@)),
    {
        let text = pair_of(first, second);
        let ghost key = (first@, second@);
        let ghost old_keys = self.keys@;
        let ghost new_keys = old_keys.push(key);
        let ghost old_index = self.index@;
        let ghost old_rows = self.rows@;
        proof {
            assert forall|k: Key| #[trigger] group_of(new_keys, k) == (if k == key {
                group_of(old_keys, k).push(row)
            } else {
                group_of(old_keys, k)
            }) by {
                lemma_rows_with_prefix(old_keys, new_keys, k, old_keys.len() as int);
            }
            assert forall|k: Key| #[trigger] pair_text(k) == text@ implies k == key by {
                lemma_pair_text_injective(k, key);
            }
        }
        match self.index.get(text.as_str()) {
            Some(found) => {
                let i: usize = *found;
                self.rows[i].push(row);
                self.keys = Ghost(new_keys);
                proof {
                    assert(self.rows@[i as int]@ == old_rows[i as int]@.push(row));
                    assert forall|k: Key|
                        self.index@.contains_key(#[trigger] pair_text(k)) implies {
                        &&& self.index@[pair_text(k)] < self.rows@.len()
                        &&& self.rows@[self.index@[pair_text(k)] as int]@ == group_of(
                            self.keys@,
                            k,
                        )
                    } by {
                        assert(group_of(new_keys, k) == (if k == key {
                            group_of(old_keys, k).push(row)
                        } else {
                            group_of(old_keys, k)
                        }));
                        if k != key {
                            assert(old_index[pair_text(k)] != i);
                        }
                    }
                    assert forall|k: Key|
                        !self.index@.contains_key(#[trigger] pair_text(k)) implies group_of(
                        self.keys@,
                        k,
                    ).len() == 0 by {
                        assert(group_of(new_keys, k) == (if k == key {
                            group_of(old_keys, k).push(row)
                        } else {
                            group_of(old_keys, k)
                        }));
                    }
                }
            },
            None => {
                let i: usize = self.rows.len();
                let mut rows: Vec<usize> = Vec::new();
                rows.push(row);
                self.rows.push(rows);
                self.index.insert(text, i);
                self.keys = Ghost(new_keys);
                proof {
                    assert(group_of(old_keys, key) =~= Seq::<usize>::empty());
                    assert forall|k: Key|
                        self.index@.contains_key(#[trigger] pair_text(k)) implies {
                        &&& self.index@[pair_text(k)] < self.rows@.len()
                        &&& self.rows@[self.index@[pair_text(k)] as int]@ == group_of(
                            self.keys@,
                            k,
                        )
                    } by {
                        assert(group_of(new_keys, k) == (if k == key {
                            group_of(old_keys, k).push(row)
                        } else {
                            group_of(old_keys, k)
                        }));
                    }
                    assert forall|k: Key|
                        !self.index@.contains_key(#[trigger] pair_text(k)) implies group_of(
                        self.keys@,
                        k,
                    ).len() == 0 by {
                        assert(group_of(new_keys, k) == (if k == key {
                            group_of(old_keys, k).push(row)
                        } else {
                            group_of(old_keys, k)
                        }));
                    }
                }
            },
        }
    }

    /// The rows of a pair, in order.
    pub fn rows_of(&self, first: &str, second: &str) -> (r: Vec<usize>)
        requires
            self.is_well_formed(),
        ensures
            r@ == group_of(self.keys(), (first@, second@)),
    {
        let text = pair_of(first, second);
        let ghost key = (first@, second@);
        assert(text@ == pair_text(key));
        match self.index.get(text.as_str()) {
            Some(found) => {
                let source: &Vec<usize> = &self.rows[*found];
                let mut r: Vec<usize> = Vec::new();
                let mut i: usize = 0;
                while i < source.len()
                    invariant
                        i <= source@.len(),
                        r@ == source@.take(i as int),
                    decreases source@.len() - i,
                {
                    r.push(source[i]);
                    i = i + 1;
                    assert(r@ =~= source@.take(i as int));
                }
                assert(source@.take(i as int) =~= source@);
                r
            },
            None => {
                assert(group_of(self.keys(), key) =~= Seq::<usize>::empty());
                Vec::new()
            },
        }
    }
}

proof fn lemma_rows_with_prefix(shorter: Seq<Key>, longer: Seq<Key>, key: Key, n: int)
    requires
        0 <= n <= shorter.len() <= longer.len(),
        forall|i: int| 0 <= i < shorter.len() ==> shorter[i] == longer[i],
    ensures
        rows_with(longer, key, n) == rows_with(shorter, key, n),
    decreases n,
{
    if n > 0 {
        lemma_rows_with_prefix(shorter, longer, key, n - 1);
    }
}

/// The rows of a pair are rows, and theirs is that pair.
pub proof fn lemma_group_rows(keys: Seq<Key>, key: Key, n: int, i: int)
    requires
        0 <= n <= keys.len(),
        keys.len() <= usize::MAX,
        0 <= i < rows_with(keys, key, n).len(),
    ensures
        rows_with(keys, key, n)[i] < n,
        keys[rows_with(keys, key, n)[i] as int] == key,
    decreases n,
{
    if n > 0 {
        if i < rows_with(keys, key, n - 1).len() {
            lemma_group_rows(keys, key, n - 1, i);
        }
    }
}

} // verus!
