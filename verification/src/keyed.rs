//! Entries kept in ascending key order with one entry per key: the shape of
//! a `BTreeMap<String, V>` once it is walked, and of a JSON object whose
//! keys are unique. vstd's specifications of `BTreeMap` hold only where the
//! key type obeys its comparison laws (`key_obeys_cmp_spec`), which vstd does
//! not establish for `String`; so the entries live in a `Vec` whose order is
//! the stated invariant.
use crate::text::{lemma_text_lt_total, lemma_text_lt_transitive, same_text, text_less, text_lt};
use vstd::prelude::*;

verus! {

/// Keys strictly ascend under `String`'s order.
pub open spec fn keys_sorted<V>(s: Seq<(String, V)>) -> bool {
    forall|i: int, j: int| 0 <= i < j < s.len() ==> text_lt(#[trigger] s[i].0@, #[trigger] s[j].0@)
}

pub open spec fn key_at<V>(s: Seq<(String, V)>, k: Seq<char>, i: int) -> bool {
    0 <= i < s.len() && s[i].0@ == k
}

pub open spec fn has_key<V>(s: Seq<(String, V)>, k: Seq<char>) -> bool {
    exists|i: int| key_at(s, k, i)
}

/// The value filed under key `k`, if any.
pub open spec fn lookup<V>(s: Seq<(String, V)>, k: Seq<char>) -> Option<V> {
    if has_key(s, k) {
        Some(s[choose|i: int| key_at(s, k, i)].1)
    } else {
        None
    }
}

/// In sorted entries, each entry is what its key looks up.
pub proof fn lemma_lookup_at<V>(s: Seq<(String, V)>, i: int)
    requires
        keys_sorted(s),
        0 <= i < s.len(),
    ensures
        lookup(s, s[i].0@) == Some(s[i].1),
{
    assert(key_at(s, s[i].0@, i));
    let c = choose|c: int| key_at(s, s[i].0@, c);
    lemma_text_lt_total(s[i].0@, s[i].0@);
    if c < i {
        assert(text_lt(s[c].0@, s[i].0@));
    } else if c > i {
        assert(text_lt(s[i].0@, s[c].0@));
    }
}

/// Files `value` under `key`. An entry already filed under `key` is
/// replaced when `replace` holds and kept otherwise.
pub fn upsert<V>(entries: &mut Vec<(String, V)>, key: String, value: V, replace: bool)
    requires
        keys_sorted(old(entries)@),
    ensures
        keys_sorted(final(entries)@),
        lookup(final(entries)@, key@) == (if has_key(old(entries)@, key@) && !replace {
            lookup(old(entries)@, key@)
        } else {
            Some(value)
        }),
        forall|k: Seq<char>| k != key@ ==> lookup(final(entries)@, k) == lookup(old(entries)@, k),
{
    let ghost s = entries@;
    let n = entries.len();
    let mut i: usize = 0;
    while i < n && text_less(entries[i].0.as_str(), key.as_str())
        invariant
            n == entries@.len(),
            entries@ == s,
            i <= n,
            forall|q: int| 0 <= q < i ==> text_lt(#[trigger] s[q].0@, key@),
        decreases n - i,
    {
        i = i + 1;
    }
    proof {
        // every entry from `i` on is not below `key`
        assert forall|q: int| i <= q < n implies !text_lt(#[trigger] s[q].0@, key@) by {
            if i < n && q > i {
                assert(text_lt(s[i as int].0@, s[q].0@));
                lemma_text_lt_transitive(s[q].0@, key@, s[i as int].0@);
                assert(!text_lt(s[i as int].0@, key@));
                if text_lt(s[q].0@, key@) {
                    lemma_text_lt_total(key@, s[i as int].0@);
                    lemma_text_lt_transitive(s[i as int].0@, s[q].0@, key@);
                }
            }
        }
    }
    if i < n && same_text(entries[i].0.as_str(), key.as_str()) {
        proof {
            lemma_lookup_at(s, i as int);
        }
        if replace {
            entries.set(i, (key, value));
            proof {
                let t = entries@;
                assert forall|a: int, b: int| 0 <= a < b < t.len() implies text_lt(
                    #[trigger] t[a].0@,
                    #[trigger] t[b].0@,
                ) by {
                    assert(text_lt(s[a].0@, s[b].0@));
                }
                lemma_lookup_at(t, i as int);
                assert forall|k: Seq<char>| k != key@ implies lookup(t, k) == lookup(s, k) by {
                    if has_key(s, k) {
                        let c = choose|c: int| key_at(s, k, c);
                        lemma_lookup_at(s, c);
                        assert(key_at(t, k, c));
                        lemma_lookup_at(t, c);
                    }
                    if has_key(t, k) {
                        let c = choose|c: int| key_at(t, k, c);
                        assert(key_at(s, k, c));
                    }
                }
            }
        }
    } else {
        proof {
            if i < n {
                lemma_text_lt_total(s[i as int].0@, key@);
                assert(text_lt(key@, s[i as int].0@));
            }
            assert(!has_key(s, key@)) by {
                if has_key(s, key@) {
                    let c = choose|c: int| key_at(s, key@, c);
                    lemma_text_lt_total(key@, key@);
                    if c < i {
                        assert(text_lt(s[c].0@, key@));
                    } else if c > i {
                        assert(text_lt(s[i as int].0@, s[c].0@));
                        lemma_text_lt_transitive(key@, s[i as int].0@, s[c].0@);
                    }
                }
            }
        }
        entries.insert(i, (key, value));
        proof {
            let t = entries@;
            assert(t =~= s.insert(i as int, (key, value)));
            assert forall|a: int, b: int| 0 <= a < b < t.len() implies text_lt(
                #[trigger] t[a].0@,
                #[trigger] t[b].0@,
            ) by {
                if b < i {
                    assert(text_lt(s[a].0@, s[b].0@));
                } else if b == i {
                    assert(text_lt(s[a].0@, key@));
                } else if a == i {
                    assert(text_lt(key@, s[i as int].0@));
                    if b - 1 > i {
                        assert(text_lt(s[i as int].0@, s[b - 1].0@));
                        lemma_text_lt_transitive(key@, s[i as int].0@, s[b - 1].0@);
                    }
                } else if a < i {
                    assert(text_lt(s[a].0@, key@));
                    assert(text_lt(key@, s[i as int].0@));
                    lemma_text_lt_transitive(s[a].0@, key@, s[i as int].0@);
                    if b - 1 > i {
                        assert(text_lt(s[i as int].0@, s[b - 1].0@));
                        lemma_text_lt_transitive(s[a].0@, s[i as int].0@, s[b - 1].0@);
                    }
                } else {
                    assert(text_lt(s[a - 1].0@, s[b - 1].0@));
                }
            }
            lemma_lookup_at(t, i as int);
            assert forall|k: Seq<char>| k != key@ implies lookup(t, k) == lookup(s, k) by {
                if has_key(s, k) {
                    let c = choose|c: int| key_at(s, k, c);
                    lemma_lookup_at(s, c);
                    let d = if c < i {
                        c
                    } else {
                        c + 1
                    };
                    assert(key_at(t, k, d));
                    lemma_lookup_at(t, d);
                }
                if has_key(t, k) {
                    let c = choose|c: int| key_at(t, k, c);
                    if c < i {
                        assert(key_at(s, k, c));
                    } else if c > i {
                        assert(key_at(s, k, c - 1));
                    }
                }
            }
        }
    }
}

} // verus!
