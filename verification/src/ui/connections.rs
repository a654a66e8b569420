//! The connection status table: one status line per device address.
//!
//! It is kept as an association list whose keys never repeat; `as_map` gives
//! its meaning as a map from address to status.
use vstd::prelude::*;
use crate::ui::model::pairs_view;

verus! {

pub type Table = Seq<(Seq<char>, Seq<char>)>;

/// Index of the first entry whose key is `k`.
pub open spec fn key_index(c: Table, k: Seq<char>) -> Option<nat>
    decreases c.len(),
{
    if c.len() == 0 {
        None
    } else if c[0].0 == k {
        Some(0)
    } else {
        match key_index(c.drop_first(), k) {
            Some(i) => Some(i + 1),
            None => None,
        }
    }
}

pub open spec fn keys_unique(c: Table) -> bool {
    forall|i: int, j: int|
        0 <= i < c.len() && 0 <= j < c.len() && i != j ==> (#[trigger] c[i]).0 != (
        #[trigger] c[j]).0
}

/// Set the status of `k`, replacing an earlier one.
pub open spec fn table_insert(c: Table, k: Seq<char>, v: Seq<char>) -> Table {
    match key_index(c, k) {
        Some(i) => c.update(i as int, (k, v)),
        None => c.push((k, v)),
    }
}

/// Forget the status of `k`.
pub open spec fn table_remove(c: Table, k: Seq<char>) -> Table {
    match key_index(c, k) {
        Some(i) => c.remove(i as int),
        None => c,
    }
}

/// The table as a map from address to status.
pub open spec fn as_map(c: Table) -> Map<Seq<char>, Seq<char>> {
    Map::new(|k: Seq<char>| key_index(c, k) is Some, |k: Seq<char>| c[key_index(c, k)->0 as int].1)
}

/// `key_index` finds the first entry with the key, and nothing before it has that key.
pub proof fn lemma_key_index(c: Table, k: Seq<char>)
    ensures
        match key_index(c, k) {
            Some(i) => i < c.len() && c[i as int].0 == k && forall|j: int|
                0 <= j < i ==> (#[trigger] c[j]).0 != k,
            None => forall|j: int| 0 <= j < c.len() ==> (#[trigger] c[j]).0 != k,
        },
    decreases c.len(),
{
    if c.len() > 0 && c[0].0 != k {
        lemma_key_index(c.drop_first(), k);
        assert forall|j: int| 1 <= j < c.len() implies (#[trigger] c[j]).0 == c.drop_first()[j
            - 1].0 by {}
    }
}

/// The index of `k` is determined by where `k` occurs when keys do not repeat.
pub proof fn lemma_key_index_at(c: Table, k: Seq<char>, i: int)
    requires
        keys_unique(c),
        0 <= i < c.len(),
        c[i].0 == k,
    ensures
        key_index(c, k) == Some(i as nat),
{
    lemma_key_index(c, k);
}

/// Setting a status keeps keys unique and acts on the map as `Map::insert`.
pub proof fn lemma_table_insert(c: Table, k: Seq<char>, v: Seq<char>)
    requires
        keys_unique(c),
    ensures
        keys_unique(table_insert(c, k, v)),
        as_map(table_insert(c, k, v)) == as_map(c).insert(k, v),
{
    lemma_key_index(c, k);
    let r = table_insert(c, k, v);
    assert forall|i: int, j: int|
        0 <= i < r.len() && 0 <= j < r.len() && i != j implies (#[trigger] r[i]).0 != (
        #[trigger] r[j]).0 by {
        if i < c.len() && j < c.len() {
        }
    }
    assert forall|q: Seq<char>| #[trigger] as_map(r).contains_key(q) <==> as_map(
        c,
    ).insert(k, v).contains_key(q) by {
        lemma_key_index(c, q);
        lemma_key_index(r, q);
        if as_map(c).contains_key(q) {
            let i = key_index(c, q)->0 as int;
            assert(r[i].0 == q);
        }
        if q == k {
            match key_index(c, k) {
                Some(i) => assert(r[i as int].0 == k),
                None => assert(r[c.len() as int].0 == k),
            }
        }
    }
    assert forall|q: Seq<char>| #[trigger] as_map(r).contains_key(q) implies as_map(r)[q] == as_map(
        c,
    ).insert(k, v)[q] by {
        lemma_key_index(c, q);
        lemma_key_index(r, q);
        let ri = key_index(r, q)->0 as int;
        if q == k {
            match key_index(c, k) {
                Some(i) => lemma_key_index_at(r, k, i as int),
                None => lemma_key_index_at(r, k, c.len() as int),
            }
        } else {
            let ci = key_index(c, q)->0 as int;
            assert(r[ci].0 == q);
            lemma_key_index_at(r, q, ci);
        }
    }
    assert(as_map(r) =~= as_map(c).insert(k, v));
}

/// Forgetting a status keeps keys unique and acts on the map as `Map::remove`.
pub proof fn lemma_table_remove(c: Table, k: Seq<char>)
    requires
        keys_unique(c),
    ensures
        keys_unique(table_remove(c, k)),
        as_map(table_remove(c, k)) == as_map(c).remove(k),
{
    lemma_key_index(c, k);
    let r = table_remove(c, k);
    match key_index(c, k) {
        Some(i) => {
            let i = i as int;
            assert forall|a: int| 0 <= a < r.len() implies #[trigger] r[a] == (if a < i {
                c[a]
            } else {
                c[a + 1]
            }) by {}
            assert forall|a: int, b: int|
                0 <= a < r.len() && 0 <= b < r.len() && a != b implies (#[trigger] r[a]).0 != (
            #[trigger] r[b]).0 by {
                let ca = if a < i {
                    a
                } else {
                    a + 1
                };
                let cb = if b < i {
                    b
                } else {
                    b + 1
                };
                assert(r[a] == c[ca] && r[b] == c[cb]);
            }
            assert forall|q: Seq<char>| #[trigger] as_map(r).contains_key(q) <==> as_map(
                c,
            ).remove(k).contains_key(q) by {
                lemma_key_index(c, q);
                lemma_key_index(r, q);
                if as_map(r).contains_key(q) {
                    let ri = key_index(r, q)->0 as int;
                    let ci = if ri < i {
                        ri
                    } else {
                        ri + 1
                    };
                    assert(c[ci].0 == q);
                    assert(c[i].0 == k);
                }
                if as_map(c).remove(k).contains_key(q) {
                    let ci = key_index(c, q)->0 as int;
                    if ci < i {
                        assert(r[ci].0 == q);
                    } else {
                        assert(r[ci - 1].0 == q);
                    }
                }
            }
            assert forall|q: Seq<char>| #[trigger] as_map(r).contains_key(q) implies as_map(r)[q]
                == as_map(c).remove(k)[q] by {
                lemma_key_index(c, q);
                lemma_key_index(r, q);
                let ri = key_index(r, q)->0 as int;
                let ci = if ri < i {
                    ri
                } else {
                    ri + 1
                };
                assert(c[ci].0 == q);
                lemma_key_index_at(c, q, ci);
            }
            assert(as_map(r) =~= as_map(c).remove(k));
        },
        None => {
            assert(as_map(r) =~= as_map(c).remove(k));
        },
    }
}

/// Position of the entry for `k`, if any.
pub fn find_key(c: &Vec<(String, String)>, k: &String) -> (r: Option<usize>)
    ensures
        match r {
            Some(i) => key_index(pairs_view(c@), k@) == Some(i as nat) && i < c@.len(),
            None => key_index(pairs_view(c@), k@) is None,
        },
{
    let ghost cv = pairs_view(c@);
    proof {
        lemma_key_index(cv, k@);
    }
    let mut i: usize = 0;
    while i < c.len()
        invariant
            i <= c@.len(),
            cv == pairs_view(c@),
            forall|j: int| 0 <= j < i ==> (#[trigger] cv[j]).0 != k@,
        decreases c.len() - i,
    {
        if c[i].0 == *k {
            assert(cv[i as int].0 == k@);
            proof {
                lemma_key_index(cv, k@);
            }
            return Some(i);
        }
        i = i + 1;
    }
    None
}

/// Set the status of address `k`.
pub fn table_set(c: &mut Vec<(String, String)>, k: String, v: String)
    ensures
        pairs_view(final(c)@) == table_insert(pairs_view(old(c)@), k@, v@),
{
    let ghost before = pairs_view(c@);
    match find_key(c, &k) {
        Some(i) => {
            let ghost kv = k@;
            let ghost vv = v@;
            c.set(i, (k, v));
            assert(pairs_view(c@) =~= before.update(i as int, (kv, vv)));
        },
        None => {
            let ghost kv = k@;
            let ghost vv = v@;
            c.push((k, v));
            assert(pairs_view(c@) =~= before.push((kv, vv)));
        },
    }
}

/// Forget the status of address `k`.
pub fn table_unset(c: &mut Vec<(String, String)>, k: &String)
    ensures
        pairs_view(final(c)@) == table_remove(pairs_view(old(c)@), k@),
{
    let ghost before = pairs_view(c@);
    match find_key(c, k) {
        Some(i) => {
            c.remove(i);
            assert(pairs_view(c@) =~= before.remove(i as int));
        },
        None => {},
    }
}

} // verus!
