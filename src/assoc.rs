//! Association lists: members keyed by strings, in the order in which each key
//! was first stored.
use vstd::prelude::*;

verus! {

/// No two members of `members` share a key.
pub open spec fn keys_distinct<V>(members: Seq<(Seq<char>, V)>) -> bool {
    forall|i: int, j: int|
        0 <= i < members.len() && 0 <= j < members.len() && i != j ==> members[i].0 != members[j].0
}

/// `i` is the first index of a member with key `key`.
pub open spec fn is_first_key<V>(members: Seq<(Seq<char>, V)>, key: Seq<char>, i: int) -> bool {
    &&& 0 <= i < members.len()
    &&& members[i].0 == key
    &&& forall|j: int| 0 <= j < i ==> members[j].0 != key
}

/// The value of the first member with key `key`, if any.
pub open spec fn lookup<V>(members: Seq<(Seq<char>, V)>, key: Seq<char>) -> Option<V> {
    if exists|i: int| is_first_key(members, key, i) {
        Some(members[choose|i: int| is_first_key(members, key, i)].1)
    } else {
        None
    }
}

/// The members after `(key, value)` is stored: the first member with that key
/// takes the new value in place, otherwise the member is added at the end.
pub open spec fn insert_member<V>(members: Seq<(Seq<char>, V)>, key: Seq<char>, value: V) -> Seq<
    (Seq<char>, V),
> {
    if exists|i: int| is_first_key(members, key, i) {
        members.update(choose|i: int| is_first_key(members, key, i), (key, value))
    } else {
        members.push((key, value))
    }
}

pub open spec fn assoc_view<V: View>(members: Seq<(String, V)>) -> Seq<(Seq<char>, V::V)> {
    members.map_values(|m: (String, V)| (m.0@, m.1@))
}

proof fn lemma_first_key_unique<V>(members: Seq<(Seq<char>, V)>, key: Seq<char>, i: int, j: int)
    requires
        is_first_key(members, key, i),
        is_first_key(members, key, j),
    ensures
        i == j,
{
}

/// Storing keeps the keys distinct.
pub proof fn lemma_insert_keeps_keys_distinct<V>(members: Seq<(Seq<char>, V)>, key: Seq<char>, value: V)
    requires
        keys_distinct(members),
    ensures
        keys_distinct(insert_member(members, key, value)),
{
    assert forall|j: int| 0 <= j < members.len() && members[j].0 == key implies is_first_key(
        members,
        key,
        j,
    ) by {}
    let r = insert_member(members, key, value);
    if exists|i: int| is_first_key(members, key, i) {
        let c = choose|i: int| is_first_key(members, key, i);
        assert(r == members.update(c, (key, value)));
        assert forall|i: int, j: int| 0 <= i < r.len() && 0 <= j < r.len() && i != j implies r[i].0
            != r[j].0 by {
            if i != c && j != c {
                assert(r[i] == members[i] && r[j] == members[j]);
            }
        }
    } else {
        assert(r == members.push((key, value)));
        assert forall|i: int, j: int| 0 <= i < r.len() && 0 <= j < r.len() && i != j implies r[i].0
            != r[j].0 by {
            if i < members.len() && j < members.len() {
                assert(r[i] == members[i] && r[j] == members[j]);
            } else if i < members.len() {
                if members[i].0 == key {
                    assert(is_first_key(members, key, i));
                }
            } else if j < members.len() {
                if members[j].0 == key {
                    assert(is_first_key(members, key, j));
                }
            }
        }
    }
}

/// Index of the first member with key `key`, if any.
fn find_key<V: View>(members: &Vec<(String, V)>, key: &String) -> (r: Option<usize>)
    ensures
        match r {
            Some(i) => is_first_key(assoc_view(members@), key@, i as int),
            None => !exists|i: int| is_first_key(assoc_view(members@), key@, i),
        },
{
    let ghost view = assoc_view(members@);
    let mut i: usize = 0;
    while i < members.len()
        invariant
            view == assoc_view(members@),
            i <= members.len(),
            forall|j: int| 0 <= j < i ==> view[j].0 != key@,
        decreases members.len() - i,
    {
        if members[i].0 == *key {
            return Some(i);
        }
        i += 1;
    }
    None
}

/// Stores `value` under `key`, as [`insert_member`] says.
pub fn assoc_insert<V: View>(members: &mut Vec<(String, V)>, key: String, value: V)
    ensures
        assoc_view(final(members)@) == insert_member(assoc_view(old(members)@), key@, value@),
{
    let ghost view = assoc_view(members@);
    let ghost k = key@;
    let ghost v = value@;
    match find_key(members, &key) {
        Some(i) => {
            proof {
                let c = choose|c: int| is_first_key(view, k, c);
                lemma_first_key_unique(view, k, c, i as int);
            }
            members.set(i, (key, value));
            assert(assoc_view(members@) =~= view.update(i as int, (k, v)));
        },
        None => {
            members.push((key, value));
            assert(assoc_view(members@) =~= view.push((k, v)));
        },
    }
}

/// The value stored under `key`, if any.
pub fn assoc_get<'a, V: View>(members: &'a Vec<(String, V)>, key: &str) -> (r: Option<&'a V>)
    ensures
        match lookup(assoc_view(members@), key@) {
            Some(v) => r matches Some(x) && x@ == v,
            None => r is None,
        },
{
    let wanted = String::from_str(key);
    let ghost view = assoc_view(members@);
    match find_key(members, &wanted) {
        Some(i) => {
            proof {
                let c = choose|c: int| is_first_key(view, key@, c);
                lemma_first_key_unique(view, key@, c, i as int);
            }
            Some(&members[i].1)
        },
        None => None,
    }
}

} // verus!
