use vstd::prelude::*;

use crate::rows::Agent;
use crate::rows::Chat;
use crate::rows::Contact;
use crate::rows::ContactGroup;
use crate::rows::ContactUserLink;
use crate::rows::Conversation;
use crate::rows::Message;
use crate::rows::User;

verus! {

/// Rows addressed by a single numeric primary key.
pub trait Keyed: Sized {
    /// The row's primary key, for contracts.
    spec fn key_spec(&self) -> u64;

    /// The row's primary key.
    fn key(&self) -> (k: u64)
        ensures
            k == self.key_spec(),
    ;
}

impl Keyed for User {
    open spec fn key_spec(&self) -> u64 {
        self.id
    }

    fn key(&self) -> u64 {
        self.id
    }
}

impl Keyed for Chat {
    open spec fn key_spec(&self) -> u64 {
        self.id
    }

    fn key(&self) -> u64 {
        self.id
    }
}

impl Keyed for Conversation {
    open spec fn key_spec(&self) -> u64 {
        self.id
    }

    fn key(&self) -> u64 {
        self.id
    }
}

impl Keyed for Message {
    open spec fn key_spec(&self) -> u64 {
        self.id
    }

    fn key(&self) -> u64 {
        self.id
    }
}

impl Keyed for ContactGroup {
    open spec fn key_spec(&self) -> u64 {
        self.id
    }

    fn key(&self) -> u64 {
        self.id
    }
}

impl Keyed for ContactUserLink {
    open spec fn key_spec(&self) -> u64 {
        self.id
    }

    fn key(&self) -> u64 {
        self.id
    }
}

impl Keyed for Contact {
    open spec fn key_spec(&self) -> u64 {
        self.id
    }

    fn key(&self) -> u64 {
        self.id
    }
}

impl Keyed for Agent {
    open spec fn key_spec(&self) -> u64 {
        self.id
    }

    fn key(&self) -> u64 {
        self.id
    }
}

/// Some row of `rows` has primary key `key`.
pub open spec fn has_key<T: Keyed>(rows: Seq<T>, key: u64) -> bool {
    exists|i: int| 0 <= i < rows.len() && (#[trigger] rows[i].key_spec()) == key
}

/// All primary keys in `rows` are pairwise distinct.
pub open spec fn keys_unique<T: Keyed>(rows: Seq<T>) -> bool {
    forall|i: int, j: int|
        0 <= i < j < rows.len() ==> rows[i].key_spec() != rows[j].key_spec()
}

/// All primary keys in `rows` lie below `bound`.
pub open spec fn keys_below<T: Keyed>(rows: Seq<T>, bound: u64) -> bool {
    forall|i: int| 0 <= i < rows.len() ==> (#[trigger] rows[i].key_spec()) < bound
}

/// Index of the row of `rows` with primary key `key`, if any.
pub fn find_key<T: Keyed>(rows: &Vec<T>, key: u64) -> (r: Option<usize>)
    ensures
        match r {
            Some(i) => i < rows@.len() && rows@[i as int].key_spec() == key,
            None => !has_key(rows@, key),
        },
{
    let n = rows.len();
    let mut i: usize = 0;
    while i < n
        invariant
            i <= n,
            n == rows@.len(),
            forall|k: int| 0 <= k < i ==> (#[trigger] rows@[k].key_spec()) != key,
        decreases n - i,
    {
        if rows[i].key() == key {
            return Some(i);
        }
        i += 1;
    }
    None
}

/// Appending a row changes `has_key` in the obvious way.
pub broadcast proof fn lemma_has_key_push<T: Keyed>(rows: Seq<T>, x: T, key: u64)
    ensures
        #[trigger] has_key(rows.push(x), key) <==> (has_key(rows, key) || x.key_spec() == key),
{
    if has_key(rows, key) {
        let i = choose|i: int| 0 <= i < rows.len() && rows[i].key_spec() == key;
        assert(rows.push(x)[i].key_spec() == key);
    }
    if x.key_spec() == key {
        assert(rows.push(x)[rows.len() as int].key_spec() == key);
    }
    if has_key(rows.push(x), key) {
        let i = choose|i: int| 0 <= i < rows.push(x).len() && rows.push(x)[i].key_spec() == key;
        if i < rows.len() {
            assert(rows[i].key_spec() == key);
        }
    }
}

/// Appending a row with a fresh key keeps keys unique.
pub broadcast proof fn lemma_keys_unique_push<T: Keyed>(rows: Seq<T>, x: T)
    requires
        keys_unique(rows),
        !has_key(rows, x.key_spec()),
    ensures
        #[trigger] keys_unique(rows.push(x)),
{
    assert forall|i: int, j: int| 0 <= i < j < rows.push(x).len() implies rows.push(x)[i].key_spec()
        != rows.push(x)[j].key_spec() by {
        if j < rows.len() {
            assert(rows[i].key_spec() != rows[j].key_spec());
        } else {
            assert(rows.push(x)[i] == rows[i]);
            assert(!(rows[i].key_spec() == x.key_spec()));
        }
    }
}

/// Appending a row below the bound keeps all keys below the bound.
pub broadcast proof fn lemma_keys_below_push<T: Keyed>(rows: Seq<T>, x: T, bound: u64)
    ensures
        #[trigger] keys_below(rows.push(x), bound) <==> (keys_below(rows, bound) && x.key_spec()
            < bound),
{
    if keys_below(rows, bound) && x.key_spec() < bound {
        assert forall|i: int| 0 <= i < rows.push(x).len() implies rows.push(x)[i].key_spec()
            < bound by {
            if i < rows.len() {
                assert(rows[i].key_spec() < bound);
            }
        }
    }
    if keys_below(rows.push(x), bound) {
        assert forall|i: int| 0 <= i < rows.len() implies rows[i].key_spec() < bound by {
            assert(rows.push(x)[i].key_spec() < bound);
        }
        assert(rows.push(x)[rows.len() as int].key_spec() < bound);
    }
}

/// Index of the row with key `key`; meaningful when the key exists and
/// keys are unique.
pub open spec fn key_index<T: Keyed>(rows: Seq<T>, key: u64) -> int {
    choose|i: int| 0 <= i < rows.len() && (#[trigger] rows[i].key_spec()) == key
}

/// The row with key `key`.
pub open spec fn row_of<T: Keyed>(rows: Seq<T>, key: u64) -> T {
    rows[key_index(rows, key)]
}

/// With unique keys, `key_index` recovers the position of each row.
pub proof fn lemma_key_index<T: Keyed>(rows: Seq<T>, i: int)
    requires
        keys_unique(rows),
        0 <= i < rows.len(),
    ensures
        has_key(rows, rows[i].key_spec()),
        key_index(rows, rows[i].key_spec()) == i,
        row_of(rows, rows[i].key_spec()) == rows[i],
{
    assert(rows[i].key_spec() == rows[i].key_spec());
    let key = rows[i].key_spec();
    assert(has_key(rows, key));
    let j = key_index(rows, key);
    assert(0 <= j < rows.len() && rows[j].key_spec() == key);
    if i != j {
        assert(rows[i].key_spec() != rows[j].key_spec());
    }
}

/// Replacing a row by one with the same key leaves `has_key` unchanged.
pub broadcast proof fn lemma_has_key_update<T: Keyed>(rows: Seq<T>, i: int, x: T, key: u64)
    requires
        0 <= i < rows.len(),
        x.key_spec() == rows[i].key_spec(),
    ensures
        #[trigger] has_key(rows.update(i, x), key) <==> has_key(rows, key),
{
    if has_key(rows, key) {
        let w = choose|w: int| 0 <= w < rows.len() && rows[w].key_spec() == key;
        if w == i {
            assert(rows.update(i, x)[i].key_spec() == key);
        } else {
            assert(rows.update(i, x)[w].key_spec() == key);
        }
    }
    if has_key(rows.update(i, x), key) {
        let w = choose|w: int|
            0 <= w < rows.update(i, x).len() && rows.update(i, x)[w].key_spec() == key;
        if w == i {
            assert(rows[i].key_spec() == key);
        } else {
            assert(rows[w].key_spec() == key);
        }
    }
}

/// Replacing a row by one with the same key keeps keys unique.
pub broadcast proof fn lemma_keys_unique_update<T: Keyed>(rows: Seq<T>, i: int, x: T)
    requires
        0 <= i < rows.len(),
        x.key_spec() == rows[i].key_spec(),
        keys_unique(rows),
    ensures
        #[trigger] keys_unique(rows.update(i, x)),
{
    assert forall|p: int, q: int| 0 <= p < q < rows.update(i, x).len() implies rows.update(
        i,
        x,
    )[p].key_spec() != rows.update(i, x)[q].key_spec() by {
        assert(rows[p].key_spec() != rows[q].key_spec());
    }
}

/// Replacing a row by one with the same key keeps keys below the bound.
pub broadcast proof fn lemma_keys_below_update<T: Keyed>(rows: Seq<T>, i: int, x: T, bound: u64)
    requires
        0 <= i < rows.len(),
        x.key_spec() == rows[i].key_spec(),
        keys_below(rows, bound),
    ensures
        #[trigger] keys_below(rows.update(i, x), bound),
{
    assert forall|p: int| 0 <= p < rows.update(i, x).len() implies rows.update(
        i,
        x,
    )[p].key_spec() < bound by {
        assert(rows[p].key_spec() < bound);
    }
}

/// Removing a row removes exactly its key.
pub broadcast proof fn lemma_has_key_remove<T: Keyed>(rows: Seq<T>, i: int, key: u64)
    requires
        0 <= i < rows.len(),
        keys_unique(rows),
    ensures
        #[trigger] has_key(rows.remove(i), key) <==> (has_key(rows, key) && rows[i].key_spec()
            != key),
{
    if has_key(rows.remove(i), key) {
        let w = choose|w: int| 0 <= w < rows.remove(i).len() && rows.remove(i)[w].key_spec() == key;
        if w < i {
            assert(rows[w].key_spec() == key);
            assert(rows[w].key_spec() != rows[i].key_spec() || w == i);
        } else {
            assert(rows[w + 1].key_spec() == key);
        }
        assert(has_key(rows, key));
    }
    if has_key(rows, key) && rows[i].key_spec() != key {
        let w = choose|w: int| 0 <= w < rows.len() && rows[w].key_spec() == key;
        if w < i {
            assert(rows.remove(i)[w].key_spec() == key);
        } else {
            assert(w > i);
            assert(rows.remove(i)[w - 1].key_spec() == key);
        }
    }
}

/// Removing a row keeps keys unique and below any bound they were below.
pub broadcast proof fn lemma_keys_remove<T: Keyed>(rows: Seq<T>, i: int, bound: u64)
    requires
        0 <= i < rows.len(),
    ensures
        keys_unique(rows) ==> #[trigger] keys_unique(rows.remove(i)),
        keys_below(rows, bound) ==> #[trigger] keys_below(rows.remove(i), bound),
{
    if keys_unique(rows) {
        assert forall|p: int, q: int| 0 <= p < q < rows.remove(i).len() implies rows.remove(
            i,
        )[p].key_spec() != rows.remove(i)[q].key_spec() by {
            let p2: int = if p < i { p } else { p + 1 };
            let q2: int = if q < i { q } else { q + 1 };
            assert(rows[p2].key_spec() != rows[q2].key_spec());
        }
    }
    if keys_below(rows, bound) {
        assert forall|p: int| 0 <= p < rows.remove(i).len() implies rows.remove(
            i,
        )[p].key_spec() < bound by {
            let p2: int = if p < i { p } else { p + 1 };
            assert(rows[p2].key_spec() < bound);
        }
    }
}

/// A table whose keys are unique and all below `bound` has at most
/// `bound` rows.
pub proof fn lemma_keys_len_bound<T: Keyed>(rows: Seq<T>, bound: u64)
    requires
        keys_unique(rows),
        keys_below(rows, bound),
    ensures
        rows.len() <= bound,
{
    broadcast use vstd::set::group_set_axioms;

    let keys = rows.map_values(|t: T| t.key_spec() as int);
    assert(keys.no_duplicates()) by {
        assert forall|i: int, j: int|
            0 <= i < keys.len() && 0 <= j < keys.len() && i != j implies keys[i] != keys[j] by {
            if i < j {
                assert(rows[i].key_spec() != rows[j].key_spec());
            } else {
                assert(rows[j].key_spec() != rows[i].key_spec());
            }
        }
    }
    keys.unique_seq_to_set();
    let range = vstd::set_lib::set_int_range(0, bound as int);
    assert(keys.to_set().subset_of(range)) by {
        assert forall|x: int| keys.to_set().contains(x) implies range.contains(x) by {
            let i = choose|i: int| 0 <= i < keys.len() && keys[i] == x;
            assert(rows[i].key_spec() < bound);
        }
    }
    vstd::set_lib::lemma_int_range(0, bound as int);
    vstd::set_lib::lemma_len_subset(keys.to_set(), range);
}

/// Every row of a filtered table is one of the unfiltered table's rows,
/// and any
/// projection that was pairwise distinct stays pairwise distinct.
pub proof fn lemma_filter_distinct_by<T, K>(rows: Seq<T>, pred: spec_fn(T) -> bool, f: spec_fn(T) -> K)
    requires
        forall|i: int, j: int| 0 <= i < j < rows.len() ==> f(rows[i]) != f(rows[j]),
    ensures
        forall|i: int|
            0 <= i < rows.filter(pred).len() ==> rows.contains(#[trigger] rows.filter(pred)[i]),
        forall|i: int, j: int|
            0 <= i < j < rows.filter(pred).len() ==> f(rows.filter(pred)[i]) != f(
                rows.filter(pred)[j],
            ),
    decreases rows.len(),
{
    reveal(Seq::filter);
    if rows.len() > 0 {
        let dl = rows.drop_last();
        let last = rows.last();
        assert forall|i: int, j: int| 0 <= i < j < dl.len() implies f(dl[i]) != f(dl[j]) by {
            assert(f(rows[i]) != f(rows[j]));
        }
        lemma_filter_distinct_by(dl, pred, f);
        let fd = dl.filter(pred);
        let fr = rows.filter(pred);
        assert forall|i: int| 0 <= i < fd.len() implies rows.contains(fd[i]) by {
            assert(dl.contains(fd[i]));
            let w = choose|w: int| 0 <= w < dl.len() && dl[w] == fd[i];
            assert(rows[w] == fd[i]);
        }
        if pred(last) {
            assert(fr == fd.push(last));
            assert(rows.contains(last)) by {
                assert(rows[rows.len() - 1] == last);
            }
            assert forall|i: int, j: int| 0 <= i < j < fr.len() implies f(fr[i]) != f(fr[j]) by {
                if j < fr.len() - 1 {
                    assert(f(fd[i]) != f(fd[j]));
                } else {
                    assert(fr[i] == fd[i]);
                    assert(dl.contains(fd[i]));
                    let w = choose|w: int| 0 <= w < dl.len() && dl[w] == fd[i];
                    assert(f(rows[w]) != f(rows[rows.len() - 1]));
                }
            }
        } else {
            assert(fr == fd);
        }
    }
}

/// Filtering a table with unique keys below a bound gives a table with
/// unique keys below the bound.
pub proof fn lemma_filter_table<T: Keyed>(rows: Seq<T>, pred: spec_fn(T) -> bool, bound: u64)
    requires
        keys_unique(rows),
        keys_below(rows, bound),
    ensures
        keys_unique(rows.filter(pred)),
        keys_below(rows.filter(pred), bound),
        forall|i: int|
            0 <= i < rows.filter(pred).len() ==> rows.contains(#[trigger] rows.filter(pred)[i]),
{
    let f = |t: T| t.key_spec();
    assert forall|i: int, j: int| 0 <= i < j < rows.len() implies f(rows[i]) != f(rows[j]) by {
        assert(rows[i].key_spec() != rows[j].key_spec());
    }
    lemma_filter_distinct_by(rows, pred, f);
    assert forall|i: int, j: int|
        0 <= i < j < rows.filter(pred).len() implies rows.filter(pred)[i].key_spec()
        != rows.filter(pred)[j].key_spec() by {
        assert(f(rows.filter(pred)[i]) != f(rows.filter(pred)[j]));
    }
    assert forall|i: int| 0 <= i < rows.filter(pred).len() implies (
    #[trigger] rows.filter(pred)[i].key_spec()) < bound by {
        assert(rows.contains(rows.filter(pred)[i]));
        let w = choose|w: int| 0 <= w < rows.len() && rows[w] == rows.filter(pred)[i];
        assert(rows[w].key_spec() < bound);
    }
}

/// The push, update, and remove lemmas about primary keys, used
/// throughout the store.
pub broadcast group group_key_lemmas {
    lemma_has_key_push,
    lemma_keys_unique_push,
    lemma_keys_below_push,
    lemma_has_key_update,
    lemma_keys_unique_update,
    lemma_keys_below_update,
    lemma_has_key_remove,
    lemma_keys_remove,
}


} // verus!
