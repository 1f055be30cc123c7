//! Timestamps and the merging of variable sets.
use vstd::prelude::*;

use crate::clock::{unix_millis, unix_secs};
use crate::strmap::{insert_entry, lemma_find_key, lemma_lookup_insert, lookup, Entries};
use crate::text::{chars_eq, chars_of, dec, dec_string, pairs_view};

verus! {

/// The current time as whole seconds since the Unix epoch, in decimal.
pub fn timestamp_seconds() -> (r: String)
    ensures
        exists|n: u64| r@ == dec(n as nat),
{
    let secs = unix_secs();
    dec_string(secs)
}

/// The current time as milliseconds since the Unix epoch, cut to 64 bits.
pub fn timestamp_millis() -> u64 {
    let ms = unix_millis();
    #[verifier::truncate]
    (ms as u64)
}

/// The variables obtained by overlaying `overlay` on `base`, one pair after
/// another: a key already present takes the new value in place, a new key
/// is appended.
pub open spec fn merged(overlay: Entries, base: Entries) -> Entries
    decreases overlay.len(),
{
    if overlay.len() == 0 {
        base
    } else {
        let m = merged(overlay.drop_last(), base);
        insert_entry(m, overlay.last().0, overlay.last().1)
    }
}

/// The value of the last pair with key `k`, if any.
pub open spec fn last_value(m: Entries, k: Seq<char>) -> Option<Seq<char>>
    decreases m.len(),
{
    if m.len() == 0 {
        None
    } else if m.last().0 == k {
        Some(m.last().1)
    } else {
        last_value(m.drop_last(), k)
    }
}

/// The index of the first pair with key `key`, if any.
fn key_position(v: &Vec<(String, String)>, key: &[char]) -> (r: Option<usize>)
    ensures
        match r {
            Some(i) => i < v@.len() && pairs_view(v@)[i as int].0 == key@ && forall|q: int|
                0 <= q < i ==> pairs_view(v@)[q].0 != key@,
            None => forall|q: int| 0 <= q < v@.len() ==> pairs_view(v@)[q].0 != key@,
        },
{
    let mut k: usize = 0;
    while k < v.len()
        invariant
            k <= v@.len(),
            forall|q: int| 0 <= q < k ==> pairs_view(v@)[q].0 != key@,
        decreases v.len() - k,
    {
        let name = chars_of(v[k].0.as_str());
        if chars_eq(&name, key) {
            return Some(k);
        }
        k = k + 1;
    }
    None
}

/// Merges collection variables into environment variables; collection
/// variables take precedence.
pub fn merge_variables(
    collection_vars: &[(String, String)],
    env_vars: &[(String, String)],
) -> (r: Vec<(String, String)>)
    ensures
        pairs_view(r@) == merged(pairs_view(collection_vars@), pairs_view(env_vars@)),
{
    let mut out: Vec<(String, String)> = Vec::new();
    let mut i: usize = 0;
    while i < env_vars.len()
        invariant
            i <= env_vars@.len(),
            pairs_view(out@) == pairs_view(env_vars@).take(i as int),
        decreases env_vars.len() - i,
    {
        let ghost before = out@;
        let a = env_vars[i].0.clone();
        let b = env_vars[i].1.clone();
        out.push((a, b));
        proof {
            assert(pairs_view(out@) =~= pairs_view(before).push((env_vars@[i as int].0@, env_vars@[i as int].1@)));
            assert(pairs_view(env_vars@).take(i as int + 1) =~= pairs_view(env_vars@).take(i as int).push((env_vars@[i as int].0@, env_vars@[i as int].1@)));
        }
        i = i + 1;
    }
    proof {
        assert(pairs_view(env_vars@).take(i as int) =~= pairs_view(env_vars@));
    }
    let ghost base = pairs_view(env_vars@);
    let ghost over = pairs_view(collection_vars@);
    let mut j: usize = 0;
    proof {
        assert(over.take(0) =~= Seq::<(Seq<char>, Seq<char>)>::empty());
    }
    while j < collection_vars.len()
        invariant
            j <= collection_vars@.len(),
            base == pairs_view(env_vars@),
            over == pairs_view(collection_vars@),
            pairs_view(out@) == merged(over.take(j as int), base),
        decreases collection_vars.len() - j,
    {
        let key = chars_of(collection_vars[j].0.as_str());
        let ghost m = pairs_view(out@);
        proof {
            lemma_find_key(m, key@);
            let t = over.take(j as int + 1);
            assert(t.drop_last() =~= over.take(j as int));
            assert(t.last() == over[j as int]);
        }
        let found = key_position(&out, &key);
        let entry = (collection_vars[j].0.clone(), collection_vars[j].1.clone());
        match found {
            Some(pos) => {
                proof {
                    assert(crate::strmap::find_key(m, key@) == pos) by {
                        let f = crate::strmap::find_key(m, key@);
                        if f < 0 || f > pos {
                            assert(m[pos as int].0 == key@);
                        }
                    }
                }
                out.set(pos, entry);
                proof {
                    assert(pairs_view(out@) =~= m.update(pos as int, over[j as int]));
                }
            },
            None => {
                proof {
                    assert(crate::strmap::find_key(m, key@) < 0) by {
                        if crate::strmap::find_key(m, key@) >= 0 {
                            assert(m[crate::strmap::find_key(m, key@)].0 == key@);
                        }
                    }
                }
                out.push(entry);
                proof {
                    assert(pairs_view(out@) =~= m.push(over[j as int]));
                }
            },
        }
        j = j + 1;
    }
    proof {
        assert(over.take(j as int) =~= over);
    }
    out
}

/// Collection variables take precedence over environment variables: after
/// merging, a key set by the collection reads as its last value there, any
/// other key reads as in the environment.
pub proof fn lemma_merge_precedence(collection: Entries, env: Entries, k: Seq<char>)
    ensures
        lookup(merged(collection, env), k) == match last_value(collection, k) {
            Some(v) => Some(v),
            None => lookup(env, k),
        },
    decreases collection.len(),
{
    if collection.len() > 0 {
        lemma_merge_precedence(collection.drop_last(), env, k);
        lemma_lookup_insert(
            merged(collection.drop_last(), env),
            collection.last().0,
            collection.last().1,
            k,
        );
    }
}

} // verus!
