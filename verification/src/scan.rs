//! The scan of a store by prefix, as a value: the engine hands the keys out
//! one by one, and this module shows that what it hands out is determined by
//! what the store holds.

use crate::engine::{bytes_before, is_prefix_scan};
use vstd::prelude::*;
use vstd::utf8::*;

verus! {

/// The keys of `entries` that begin with `prefix`, in ascending byte order.
pub open spec fn prefix_scan(entries: Map<Seq<u8>, Seq<u8>>, prefix: Seq<u8>) -> Seq<Seq<u8>> {
    choose|keys: Seq<Seq<u8>>| is_prefix_scan(entries, prefix, keys)
}

/// The keys of `entries` that begin with `prefix` can be listed: there is a
/// scan of `entries` by `prefix`. It is so for every store that the engine
/// has scanned.
pub open spec fn has_scan(entries: Map<Seq<u8>, Seq<u8>>, prefix: Seq<u8>) -> bool {
    exists|keys: Seq<Seq<u8>>| is_prefix_scan(entries, prefix, keys)
}

/// Every key of `entries` that begins with `prefix` is UTF-8 text.
pub open spec fn keys_are_text(entries: Map<Seq<u8>, Seq<u8>>, prefix: Seq<u8>) -> bool {
    forall|key: Seq<u8>|
        entries.contains_key(key) && prefix.is_prefix_of(key) ==> #[trigger] valid_utf8(key)
}

/// The texts that the given keys encode.
pub open spec fn decoded(keys: Seq<Seq<u8>>) -> Seq<Seq<char>> {
    Seq::new(keys.len(), |i: int| decode_utf8(keys[i]))
}

/// No byte string comes before itself.
pub proof fn lemma_before_irreflexive(a: Seq<u8>)
    ensures
        !bytes_before(a, a),
    decreases a.len(),
{
    if a.len() > 0 {
        lemma_before_irreflexive(a.drop_first());
    }
}

/// Of two byte strings, at most one comes before the other.
pub proof fn lemma_before_asymmetric(a: Seq<u8>, b: Seq<u8>)
    ensures
        !(bytes_before(a, b) && bytes_before(b, a)),
    decreases a.len(),
{
    if a.len() > 0 && b.len() > 0 && a[0] == b[0] {
        lemma_before_asymmetric(a.drop_first(), b.drop_first());
    }
}

/// Keys in strictly ascending order.
pub open spec fn ascending(keys: Seq<Seq<u8>>) -> bool {
    forall|i: int, j: int|
        0 <= i < j < keys.len() ==> bytes_before(#[trigger] keys[i], #[trigger] keys[j])
}

/// Two ascending sequences with the same members are the same sequence.
pub proof fn lemma_ascending_unique(a: Seq<Seq<u8>>, b: Seq<Seq<u8>>)
    requires
        ascending(a),
        ascending(b),
        forall|key: Seq<u8>| a.contains(key) <==> b.contains(key),
    ensures
        a == b,
    decreases a.len(),
{
    if a.len() == 0 {
        if b.len() > 0 {
            assert(b.contains(b[0]));
            assert(a.contains(b[0]));
        }
        assert(a =~= b);
    } else {
        assert(a.contains(a[0]));
        assert(b.contains(a[0]));
        let j = choose|j: int| 0 <= j < b.len() && b[j] == a[0];
        assert(b.contains(b[0]));
        assert(a.contains(b[0]));
        let i = choose|i: int| 0 <= i < a.len() && a[i] == b[0];
        if j > 0 {
            assert(bytes_before(b[0], b[j]));
            if i > 0 {
                assert(bytes_before(a[0], a[i]));
                lemma_before_asymmetric(a[0], b[0]);
            } else {
                lemma_before_irreflexive(a[0]);
            }
        }
        assert(a[0] == b[0]);
        let at = a.drop_first();
        let bt = b.drop_first();
        assert forall|key: Seq<u8>| at.contains(key) <==> bt.contains(key) by {
            if at.contains(key) {
                let k = choose|k: int| 0 <= k < at.len() && at[k] == key;
                assert(a[k + 1] == key);
                assert(bytes_before(a[0], a[k + 1]));
                lemma_before_irreflexive(a[0]);
                assert(a.contains(key));
                assert(b.contains(key));
                let m = choose|m: int| 0 <= m < b.len() && b[m] == key;
                assert(m > 0);
                assert(bt[m - 1] == key);
            }
            if bt.contains(key) {
                let k = choose|k: int| 0 <= k < bt.len() && bt[k] == key;
                assert(b[k + 1] == key);
                assert(bytes_before(b[0], b[k + 1]));
                lemma_before_irreflexive(b[0]);
                assert(b.contains(key));
                assert(a.contains(key));
                let m = choose|m: int| 0 <= m < a.len() && a[m] == key;
                assert(m > 0);
                assert(at[m - 1] == key);
            }
        }
        assert(ascending(at)) by {
            assert forall|p: int, q: int| 0 <= p < q < at.len() implies bytes_before(
                #[trigger] at[p],
                #[trigger] at[q],
            ) by {
                assert(bytes_before(a[p + 1], a[q + 1]));
            }
        }
        assert(ascending(bt)) by {
            assert forall|p: int, q: int| 0 <= p < q < bt.len() implies bytes_before(
                #[trigger] bt[p],
                #[trigger] bt[q],
            ) by {
                assert(bytes_before(b[p + 1], b[q + 1]));
            }
        }
        lemma_ascending_unique(at, bt);
        assert(a =~= seq![a[0]] + at);
        assert(b =~= seq![b[0]] + bt);
    }
}

/// A store has one scan by a prefix: whatever sequence of keys is a scan of
/// `entries` by `prefix` is `prefix_scan(entries, prefix)`.
pub proof fn lemma_scan_unique(entries: Map<Seq<u8>, Seq<u8>>, prefix: Seq<u8>, keys: Seq<Seq<u8>>)
    requires
        is_prefix_scan(entries, prefix, keys),
    ensures
        keys == prefix_scan(entries, prefix),
{
    let chosen = prefix_scan(entries, prefix);
    assert(is_prefix_scan(entries, prefix, chosen));
    assert forall|key: Seq<u8>| keys.contains(key) <==> chosen.contains(key) by {
        if keys.contains(key) {
            let i = choose|i: int| 0 <= i < keys.len() && keys[i] == key;
            assert(entries.contains_key(keys[i]) && prefix.is_prefix_of(keys[i]));
        }
        if chosen.contains(key) {
            let i = choose|i: int| 0 <= i < chosen.len() && chosen[i] == key;
            assert(entries.contains_key(chosen[i]) && prefix.is_prefix_of(chosen[i]));
        }
    }
    lemma_ascending_unique(keys, chosen);
}

} // verus!
