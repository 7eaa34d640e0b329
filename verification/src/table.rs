//! Order-preserving string-keyed tables.
//!
//! The dynamic value's field map, the interpreter's symbol and argument
//! tables, the collected pass and edge maps, and the pass registry are all
//! small string-keyed maps whose iteration order must be deterministic:
//! node identifiers are handed out in table order when the graph is built.
//! A table is a vector of key/value pairs with pairwise-distinct keys;
//! inserting an existing key replaces its value in place, so a key keeps
//! its position.

use vstd::prelude::*;

verus! {

/// Keys are pairwise distinct.
pub open spec fn table_wf<V>(s: Seq<(String, V)>) -> bool {
    forall|i: int, j: int| 0 <= i < j < s.len() ==> s[i].0@ != s[j].0@
}

/// Whether some entry has key `k`.
pub open spec fn table_contains<V>(s: Seq<(String, V)>, k: Seq<char>) -> bool {
    exists|i: int| 0 <= i < s.len() && s[i].0@ == k
}

/// The index of the entry with key `k`, meaningful when `table_contains(s, k)`.
pub open spec fn table_index_of<V>(s: Seq<(String, V)>, k: Seq<char>) -> int {
    choose|i: int| 0 <= i < s.len() && s[i].0@ == k
}

/// The value stored under key `k`, meaningful when `table_contains(s, k)`.
pub open spec fn table_get<V>(s: Seq<(String, V)>, k: Seq<char>) -> V {
    s[table_index_of(s, k)].1
}

/// Insertion as a sequence transformation: replaces in place, or appends.
pub open spec fn table_spec_insert<V>(s: Seq<(String, V)>, key: String, value: V) -> Seq<
    (String, V),
> {
    if table_contains(s, key@) {
        s.update(table_index_of(s, key@), (key, value))
    } else {
        s.push((key, value))
    }
}

/// The keys of a table, in order, as character sequences.
pub open spec fn table_keys<V>(s: Seq<(String, V)>) -> Seq<Seq<char>> {
    Seq::new(s.len(), |i: int| s[i].0@)
}

/// A key occurs among `table_keys` exactly when the table contains it, and
/// insertion extends the key sequence exactly when the key is new.
pub proof fn lemma_table_keys_insert<V>(s: Seq<(String, V)>, key: String, value: V)
    requires
        table_wf(s),
    ensures
        table_keys(s).contains(key@) == table_contains(s, key@),
        table_contains(s, key@) ==> table_keys(table_spec_insert(s, key, value)) == table_keys(s),
        !table_contains(s, key@) ==> table_keys(table_spec_insert(s, key, value)) == table_keys(
            s,
        ).push(key@),
{
    assert(table_keys(s).contains(key@) == table_contains(s, key@)) by {
        if table_contains(s, key@) {
            let i = table_index_of(s, key@);
            assert(table_keys(s)[i] == key@);
        }
        if table_keys(s).contains(key@) {
            let i = choose|i: int| 0 <= i < table_keys(s).len() && table_keys(s)[i] == key@;
            assert(s[i].0@ == key@);
        }
    }
    if table_contains(s, key@) {
        assert(table_keys(table_spec_insert(s, key, value)) =~= table_keys(s));
    } else {
        assert(table_keys(table_spec_insert(s, key, value)) =~= table_keys(s).push(key@));
    }
}

/// Looks a key up, returning a reference to its value if present.
pub fn table_lookup<'a, V>(entries: &'a Vec<(String, V)>, key: &String) -> (r: Option<&'a V>)
    requires
        table_wf(entries@),
    ensures
        match r {
            Some(v) => table_contains(entries@, key@) && *v == table_get(entries@, key@),
            None => !table_contains(entries@, key@),
        },
{
    let n = entries.len();
    for i in 0..n
        invariant
            n == entries@.len(),
            table_wf(entries@),
            forall|j: int| 0 <= j < i ==> entries@[j].0@ != key@,
    {
        if entries[i].0 == *key {
            proof {
                assert(table_contains(entries@, key@));
                let w = table_index_of(entries@, key@);
                assert(0 <= w < entries@.len() && entries@[w].0@ == key@);
                assert(w == i as int);
            }
            return Some(&entries[i].1);
        }
    }
    None
}

/// Stores `value` under `key`. An existing entry with the same key is
/// replaced in place; otherwise the entry is appended.
pub fn table_insert<V>(entries: &mut Vec<(String, V)>, key: String, value: V)
    requires
        table_wf(old(entries)@),
    ensures
        table_wf(final(entries)@),
        final(entries)@ == table_spec_insert(old(entries)@, key, value),
        table_contains(old(entries)@, key@) ==> final(entries)@ == old(entries)@.update(
            table_index_of(old(entries)@, key@),
            (key, value),
        ),
        !table_contains(old(entries)@, key@) ==> final(entries)@ == old(entries)@.push(
            (key, value),
        ),
        table_contains(final(entries)@, key@),
        table_get(final(entries)@, key@) == value,
        forall|k: Seq<char>|
            k != key@ ==> #[trigger] table_contains(final(entries)@, k) == table_contains(
                old(entries)@,
                k,
            ),
        forall|k: Seq<char>|
            k != key@ && table_contains(old(entries)@, k) ==> table_get(final(entries)@, k)
                == table_get(old(entries)@, k),
{
    let n = entries.len();
    for i in 0..n
        invariant
            n == entries@.len(),
            table_wf(entries@),
            entries@ == old(entries)@,
            forall|j: int| 0 <= j < i ==> entries@[j].0@ != key@,
    {
        if entries[i].0 == *&key {
            entries[i] = (key, value);
            proof {
                assert(entries@ =~= old(entries)@.update(i as int, entries@[i as int]));
                lemma_table_update(old(entries)@, entries@, i as int, key@);
            }
            return ;
        }
    }
    entries.push((key, value));
    proof {
        lemma_table_push(old(entries)@, entries@, key@);
    }
}

/// Keys of an abstract (view-level) table are pairwise distinct.
pub open spec fn kv_wf<V>(s: Seq<(Seq<char>, V)>) -> bool {
    forall|i: int, j: int| 0 <= i < j < s.len() ==> s[i].0 != s[j].0
}

/// Whether some view-level entry has key `k`.
pub open spec fn kv_contains<V>(s: Seq<(Seq<char>, V)>, k: Seq<char>) -> bool {
    exists|i: int| 0 <= i < s.len() && s[i].0 == k
}

/// The index of the view-level entry with key `k`, meaningful when present.
pub open spec fn kv_index_of<V>(s: Seq<(Seq<char>, V)>, k: Seq<char>) -> int {
    choose|i: int| 0 <= i < s.len() && s[i].0 == k
}

/// The value stored under key `k`, meaningful when present.
pub open spec fn kv_get<V>(s: Seq<(Seq<char>, V)>, k: Seq<char>) -> V {
    s[kv_index_of(s, k)].1
}

/// Insertion at the view level: replaces in place, or appends.
pub open spec fn kv_insert<V>(s: Seq<(Seq<char>, V)>, k: Seq<char>, v: V) -> Seq<(Seq<char>, V)> {
    if kv_contains(s, k) {
        s.update(kv_index_of(s, k), (k, v))
    } else {
        s.push((k, v))
    }
}

/// Replacing the entry at the index of its own key keeps the table
/// well-formed, keeps every other key's value, and leaves lookups of the
/// replaced key at the new value.
proof fn lemma_table_update<V>(pre: Seq<(String, V)>, post: Seq<(String, V)>, i: int, k: Seq<char>)
    requires
        table_wf(pre),
        0 <= i < pre.len(),
        pre[i].0@ == k,
        post == pre.update(i, post[i]),
        post[i].0@ == k,
    ensures
        table_wf(post),
        table_contains(post, k),
        table_get(post, k) == post[i].1,
        forall|k2: Seq<char>| k2 != k ==> #[trigger] table_contains(post, k2) == table_contains(pre, k2),
        forall|k2: Seq<char>|
            k2 != k && table_contains(pre, k2) ==> table_get(post, k2) == table_get(pre, k2),
{
    assert(table_contains(post, k));
    assert(table_index_of(post, k) == i) by {
        let w = table_index_of(post, k);
        assert(0 <= w < post.len() && post[w].0@ == k);
    }
    assert forall|k2: Seq<char>| k2 != k implies #[trigger] table_contains(post, k2)
        == table_contains(pre, k2) by {
        if table_contains(pre, k2) {
            let w = table_index_of(pre, k2);
            assert(post[w].0@ == k2);
        }
        if table_contains(post, k2) {
            let w = choose|w: int| 0 <= w < post.len() && post[w].0@ == k2;
            assert(pre[w].0@ == k2);
        }
    }
    assert forall|k2: Seq<char>| k2 != k && table_contains(pre, k2) implies table_get(post, k2)
        == table_get(pre, k2) by {
        let w = table_index_of(pre, k2);
        assert(post[w].0@ == k2);
        let w2 = table_index_of(post, k2);
        assert(pre[w2].0@ == k2);
        assert(w2 == w);
    }
}

/// Appending an entry whose key is absent keeps the table well-formed and
/// keeps every existing key's value.
proof fn lemma_table_push<V>(pre: Seq<(String, V)>, post: Seq<(String, V)>, k: Seq<char>)
    requires
        table_wf(pre),
        !table_contains(pre, k),
        post.len() == pre.len() + 1,
        post == pre.push(post.last()),
        post.last().0@ == k,
    ensures
        table_wf(post),
        table_contains(post, k),
        table_get(post, k) == post.last().1,
        forall|k2: Seq<char>| k2 != k ==> #[trigger] table_contains(post, k2) == table_contains(pre, k2),
        forall|k2: Seq<char>|
            k2 != k && table_contains(pre, k2) ==> table_get(post, k2) == table_get(pre, k2),
{
    let n = pre.len() as int;
    assert(table_wf(post)) by {
        assert forall|i: int, j: int| 0 <= i < j < post.len() implies post[i].0@ != post[j].0@ by {
            if j < n {
                assert(pre[i].0@ != pre[j].0@);
            } else {
                assert(post[i] == pre[i]);
                if post[i].0@ == k {
                    assert(table_contains(pre, k));
                }
            }
        }
    }
    assert(post[n].0@ == k);
    assert(table_index_of(post, k) == n) by {
        let w = table_index_of(post, k);
        assert(0 <= w < post.len() && post[w].0@ == k);
        if w < n {
            assert(pre[w].0@ == k);
        }
    }
    assert forall|k2: Seq<char>| k2 != k implies #[trigger] table_contains(post, k2)
        == table_contains(pre, k2) by {
        if table_contains(pre, k2) {
            let w = table_index_of(pre, k2);
            assert(post[w].0@ == k2);
        }
        if table_contains(post, k2) {
            let w = choose|w: int| 0 <= w < post.len() && post[w].0@ == k2;
            assert(w < n);
            assert(pre[w].0@ == k2);
        }
    }
    assert forall|k2: Seq<char>| k2 != k && table_contains(pre, k2) implies table_get(post, k2)
        == table_get(pre, k2) by {
        let w = table_index_of(pre, k2);
        assert(post[w].0@ == k2);
        let w2 = table_index_of(post, k2);
        assert(w2 < n);
        assert(pre[w2].0@ == k2);
        assert(w2 == w);
    }
}

} // verus!
