//! Who may join a session.
use crate::buffer::same_bytes;
use vstd::prelude::*;

verus! {

/// A public key.
pub type Key = [u8; 32];

/// Whether a key is in a list.
pub open spec fn listed(keys: Seq<Key>, key: Key) -> bool {
    exists|i: int| 0 <= i < keys.len() && (#[trigger] keys[i])@ == key@
}

/// Whether a peer may join: where there is a list, if it is on the list; where there is none, if it
/// is the peer that has just shown that it knows the code.
pub open spec fn may_join(allowed: Option<Seq<Key>>, authenticated: Option<Key>, remote: Key) -> bool {
    match allowed {
        Some(keys) => listed(keys, remote),
        None => authenticated matches Some(key) && key@ == remote@,
    }
}

/// The list as a mathematical value.
pub open spec fn key_list(allowed: Option<Vec<Key>>) -> Option<Seq<Key>> {
    match allowed {
        Some(keys) => Some(keys@),
        None => None,
    }
}

fn is_listed(keys: &Vec<Key>, key: &Key) -> (r: bool)
    ensures
        r == listed(keys@, *key),
{
    let n: usize = keys.len();
    let mut i: usize = 0;
    while i < n
        invariant
            i <= n,
            n == keys@.len(),
            forall|j: int| 0 <= j < i ==> (#[trigger] keys@[j])@ != key@,
        decreases n - i,
    {
        if same_bytes(&keys[i], key) {
            assert(keys@[i as int]@ == key@);
            return true;
        }
        i += 1;
    }
    false
}

/// Whether a peer may join.
pub fn is_authorized(allowed: &Option<Vec<Key>>, authenticated: &Option<Key>, remote: &Key) -> (r:
    bool)
    ensures
        r == may_join(key_list(*allowed), *authenticated, *remote),
{
    match allowed {
        Some(keys) => is_listed(keys, remote),
        None => match authenticated {
            Some(key) => same_bytes(key, remote),
            None => false,
        },
    }
}

/// The keys that were given, and those that were read from a file after them. Where there is a file,
/// there is a list.
pub fn merge_allowed(given: Option<Vec<Key>>, from_file: Option<Vec<Key>>) -> (r: Option<Vec<Key>>)
    ensures
        key_list(r) == (match (key_list(given), key_list(from_file)) {
            (Some(a), Some(b)) => Some(a + b),
            (None, Some(b)) => Some(b),
            (a, None) => a,
        }),
{
    match from_file {
        Some(mut more) => {
            let mut keys: Vec<Key> = match given {
                Some(keys) => keys,
                None => Vec::new(),
            };
            keys.append(&mut more);
            proof {
                assert(Seq::<Key>::empty() + from_file->Some_0@ =~= from_file->Some_0@);
            }
            Some(keys)
        },
        None => given,
    }
}

/// With a list, knowing the code does not help a peer that is not on it.
pub proof fn lemma_list_decides(keys: Seq<Key>, a: Option<Key>, b: Option<Key>, remote: Key)
    ensures
        may_join(Some(keys), a, remote) == may_join(Some(keys), b, remote),
{
}

/// An empty list lets nobody join.
pub proof fn lemma_empty_list_lets_nobody_join(authenticated: Option<Key>, remote: Key)
    ensures
        !may_join(Some(Seq::empty()), authenticated, remote),
{
}

/// Without a list, at most one peer may join: the one that has shown that it knows the code.
pub proof fn lemma_one_peer_without_list(authenticated: Option<Key>, a: Key, b: Key)
    requires
        may_join(None, authenticated, a),
        may_join(None, authenticated, b),
    ensures
        a@ == b@,
        authenticated is Some,
{
}

/// A list of one key lets just the peer with this key join, and a list made of two lets join whom
/// either of them lets join.
pub proof fn lemma_lists_add_up(
    a: Seq<Key>,
    b: Seq<Key>,
    key: Key,
    authenticated: Option<Key>,
    remote: Key,
)
    ensures
        may_join(Some(seq![key]), authenticated, remote) <==> key@ == remote@,
        may_join(Some(a + b), authenticated, remote) <==> may_join(Some(a), authenticated, remote)
            || may_join(Some(b), authenticated, remote),
{
    assert(seq![key][0] == key);
    let all = a + b;
    if listed(all, remote) {
        let i = choose|i: int| 0 <= i < all.len() && (#[trigger] all[i])@ == remote@;
        if i < a.len() {
            assert(a[i] == all[i]);
        } else {
            assert(b[i - a.len()] == all[i]);
        }
    }
    if listed(a, remote) {
        let i = choose|i: int| 0 <= i < a.len() && (#[trigger] a[i])@ == remote@;
        assert(all[i] == a[i]);
    }
    if listed(b, remote) {
        let i = choose|i: int| 0 <= i < b.len() && (#[trigger] b[i])@ == remote@;
        assert(all[a.len() + i] == b[i]);
    }
}

/// Without a list, the peer that has shown that it knows the code may join, and nobody where none has.
pub proof fn lemma_the_code_opens_the_door(key: Key, remote: Key)
    ensures
        may_join(None, Some(key), remote) <==> key@ == remote@,
        !may_join(None, None, remote),
{
}

/// The list is the keys that were given, and no list is no list.
pub proof fn lemma_list_is_the_keys(keys: Vec<Key>)
    ensures
        key_list(Some(keys)) == Some(keys@),
        key_list(None) is None,
{
}

} // verus!
