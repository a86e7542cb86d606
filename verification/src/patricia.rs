//! The mathematics of the binary Patricia-Merkle trie.
//!
//! A trie of height `h` files values under keys of `h` bits. It is a leaf,
//! a binary node with a subtrie for either value of the next bit, or an edge
//! that stands for a run of nodes with one child each and carries the bits
//! that lead through them. A well-formed trie holds no zero value, no empty
//! subtrie and no edge below an edge: so the keys and values that a trie
//! holds decide its shape, and with it its hash.

use crate::felt::{bits_value, modulus};
use crate::hash::pedersen;
use vstd::prelude::*;

verus! {

/// A trie as a value of mathematics.
pub ghost enum Tree {
    /// A value.
    Leaf(nat),
    /// The subtries of the keys that go on with a clear bit and with a set
    /// bit.
    Binary(Box<Tree>, Box<Tree>),
    /// The one subtrie of the keys that go on with the given bits.
    Edge(Seq<bool>, Box<Tree>),
}

/// Whether a trie of height `h` is well formed.
pub open spec fn wf(t: Tree, h: nat) -> bool
    decreases t,
{
    match t {
        Tree::Leaf(v) => h == 0 && v != 0,
        Tree::Binary(l, r) => h > 0 && wf(*l, (h - 1) as nat) && wf(*r, (h - 1) as nat),
        Tree::Edge(p, c) => 1 <= p.len() <= h && wf(*c, (h - p.len()) as nat) && !(*c is Edge),
    }
}

/// Whether a trie of height `h` that may be empty is well formed.
pub open spec fn wf_opt(t: Option<Tree>, h: nat) -> bool {
    t matches Some(t) ==> wf(t, h)
}

/// The two halves of a trie: what it holds under the keys that begin with a
/// clear bit, and under those that begin with a set bit.
pub open spec fn split(t: Option<Tree>) -> (Option<Tree>, Option<Tree>) {
    match t {
        Some(Tree::Binary(l, r)) => (Some(*l), Some(*r)),
        Some(Tree::Edge(p, c)) => {
            let rest = if p.len() <= 1 {
                *c
            } else {
                Tree::Edge(p.drop_first(), c)
            };
            if p.len() > 0 && p[0] {
                (None, Some(rest))
            } else {
                (Some(rest), None)
            }
        },
        _ => (None, None),
    }
}

/// A trie under one more bit: an edge with that bit, grown into the trie
/// where it is an edge itself.
pub open spec fn prepend(bit: bool, t: Tree) -> Tree {
    match t {
        Tree::Edge(p, c) => Tree::Edge(seq![bit] + p, c),
        _ => Tree::Edge(seq![bit], Box::new(t)),
    }
}

/// The trie of two halves.
pub open spec fn join(l: Option<Tree>, r: Option<Tree>) -> Option<Tree> {
    match (l, r) {
        (None, None) => None,
        (Some(l), Some(r)) => Some(Tree::Binary(Box::new(l), Box::new(r))),
        (Some(l), None) => Some(prepend(false, l)),
        (None, Some(r)) => Some(prepend(true, r)),
    }
}

/// The half of a trie that a bit leads into.
pub open spec fn half(t: Option<Tree>, bit: bool) -> Option<Tree> {
    if bit {
        split(t).1
    } else {
        split(t).0
    }
}

/// The value that a trie holds under a key, if it holds one.
pub open spec fn lookup(t: Option<Tree>, key: Seq<bool>) -> Option<nat>
    decreases key.len(),
{
    if key.len() == 0 {
        match t {
            Some(Tree::Leaf(v)) => Some(v),
            _ => None,
        }
    } else {
        lookup(half(t, key[0]), key.drop_first())
    }
}

/// The trie with a value set under a key. To set zero is to take the key
/// out.
pub open spec fn update(t: Option<Tree>, key: Seq<bool>, v: nat) -> Option<Tree>
    decreases key.len(),
{
    if key.len() == 0 {
        if v == 0 {
            None
        } else {
            Some(Tree::Leaf(v))
        }
    } else if key[0] {
        join(split(t).0, update(split(t).1, key.drop_first(), v))
    } else {
        join(update(split(t).0, key.drop_first(), v), split(t).1)
    }
}

/// The hash of a trie: a leaf's is its value, a binary node's the Pedersen
/// hash of its children's, an edge's the Pedersen hash of its child's and
/// the number of its path, plus the length of the path in the field.
pub open spec fn hash(t: Tree) -> nat
    decreases t,
{
    match t {
        Tree::Leaf(v) => v,
        Tree::Binary(l, r) => pedersen(hash(*l), hash(*r)),
        Tree::Edge(p, c) => (pedersen(hash(*c), bits_value(p)) + p.len()) % modulus(),
    }
}

/// The hash of a trie that may be empty: zero for the empty one.
pub open spec fn root_hash(t: Option<Tree>) -> nat {
    match t {
        Some(t) => hash(t),
        None => 0,
    }
}

/// The halves of a well-formed trie are well formed, and one of them holds
/// something.
pub proof fn lemma_split_wf(t: Tree, h: nat)
    requires
        wf(t, h),
        h > 0,
    ensures
        wf_opt(split(Some(t)).0, (h - 1) as nat),
        wf_opt(split(Some(t)).1, (h - 1) as nat),
        split(Some(t)).0 is Some || split(Some(t)).1 is Some,
        join(split(Some(t)).0, split(Some(t)).1) == Some(t),
{
    match t {
        Tree::Leaf(v) => {},
        Tree::Binary(l, r) => {},
        Tree::Edge(p, c) => {
            if p.len() <= 1 {
                assert(seq![p[0]] =~= p);
            } else {
                assert(seq![p[0]] + p.drop_first() =~= p);
            }
        },
    }
}

/// The trie of two well-formed halves is well formed, and its halves are
/// those two.
pub proof fn lemma_join_wf(l: Option<Tree>, r: Option<Tree>, h: nat)
    requires
        h > 0,
        wf_opt(l, (h - 1) as nat),
        wf_opt(r, (h - 1) as nat),
    ensures
        wf_opt(join(l, r), h),
        split(join(l, r)) == (l, r),
{
    match (l, r) {
        (None, None) => {},
        (Some(a), Some(b)) => {},
        (Some(a), None) => {
            lemma_prepend(false, a, h);
        },
        (None, Some(b)) => {
            lemma_prepend(true, b, h);
        },
    }
}

proof fn lemma_prepend(bit: bool, t: Tree, h: nat)
    requires
        h > 0,
        wf(t, (h - 1) as nat),
    ensures
        wf(prepend(bit, t), h),
        half(Some(prepend(bit, t)), bit) == Some(t),
        half(Some(prepend(bit, t)), !bit) is None,
{
    match t {
        Tree::Edge(p, c) => {
            let q = seq![bit] + p;
            assert(q.drop_first() =~= p);
            assert(q[0] == bit);
        },
        _ => {
            let q = seq![bit];
            assert(q[0] == bit);
        },
    }
}

/// The empty trie holds nothing.
pub proof fn lemma_lookup_empty(key: Seq<bool>)
    ensures
        lookup(None, key) is None,
    decreases key.len(),
{
    if key.len() > 0 {
        lemma_lookup_empty(key.drop_first());
    }
}

/// A well-formed trie holds a value under some key.
pub proof fn lemma_holds_something(t: Tree, h: nat) -> (key: Seq<bool>)
    requires
        wf(t, h),
    ensures
        key.len() == h,
        lookup(Some(t), key) is Some,
    decreases h,
{
    if h == 0 {
        Seq::empty()
    } else {
        lemma_split_wf(t, h);
        let bit = split(Some(t)).0 is None;
        let side = half(Some(t), bit);
        let rest = lemma_holds_something(side->0, (h - 1) as nat);
        let key = seq![bit] + rest;
        assert(key.drop_first() =~= rest);
        assert(key[0] == bit);
        key
    }
}

/// Two well-formed tries of one height that hold the same values under
/// the same keys are one trie.
pub proof fn lemma_canonical(a: Option<Tree>, b: Option<Tree>, h: nat)
    requires
        wf_opt(a, h),
        wf_opt(b, h),
        forall|key: Seq<bool>| key.len() == h ==> lookup(a, key) == lookup(b, key),
    ensures
        a == b,
    decreases h,
{
    if a is None || b is None {
        if a is Some {
            let key = lemma_holds_something(a->0, h);
            lemma_lookup_empty(key);
        }
        if b is Some {
            let key = lemma_holds_something(b->0, h);
            lemma_lookup_empty(key);
        }
    } else if h == 0 {
        let key = Seq::<bool>::empty();
        assert(lookup(a, key) == lookup(b, key));
    } else {
        lemma_split_wf(a->0, h);
        lemma_split_wf(b->0, h);
        let below = (h - 1) as nat;
        assert forall|key: Seq<bool>| key.len() == below implies lookup(half(a, false), key)
            == lookup(half(b, false), key) by {
            let longer = seq![false] + key;
            assert(longer.drop_first() =~= key);
            assert(lookup(a, longer) == lookup(b, longer));
        }
        assert forall|key: Seq<bool>| key.len() == below implies lookup(half(a, true), key)
            == lookup(half(b, true), key) by {
            let longer = seq![true] + key;
            assert(longer.drop_first() =~= key);
            assert(lookup(a, longer) == lookup(b, longer));
        }
        lemma_canonical(half(a, false), half(b, false), below);
        lemma_canonical(half(a, true), half(b, true), below);
    }
}

/// Setting a value in a well-formed trie leaves it well formed.
pub proof fn lemma_update_wf(t: Option<Tree>, key: Seq<bool>, v: nat)
    requires
        wf_opt(t, key.len()),
    ensures
        wf_opt(update(t, key, v), key.len()),
    decreases key.len(),
{
    if key.len() > 0 {
        let h = key.len();
        if t is Some {
            lemma_split_wf(t->0, h);
        }
        let (l, r) = split(t);
        if key[0] {
            lemma_update_wf(r, key.drop_first(), v);
            lemma_join_wf(l, update(r, key.drop_first(), v), h);
        } else {
            lemma_update_wf(l, key.drop_first(), v);
            lemma_join_wf(update(l, key.drop_first(), v), r, h);
        }
    }
}

/// After a value is set under a key, the trie holds that value under the
/// key, nothing where the value is zero, and under every other key what it
/// held before.
pub proof fn lemma_update_lookup(t: Option<Tree>, key: Seq<bool>, v: nat, other: Seq<bool>)
    requires
        wf_opt(t, key.len()),
        other.len() == key.len(),
    ensures
        lookup(update(t, key, v), other) == if other == key {
            if v == 0 {
                None
            } else {
                Some(v)
            }
        } else {
            lookup(t, other)
        },
    decreases key.len(),
{
    if key.len() == 0 {
        assert(other =~= key);
    } else {
        let h = key.len();
        if t is Some {
            lemma_split_wf(t->0, h);
        }
        let (l, r) = split(t);
        let rest = key.drop_first();
        if key[0] {
            lemma_update_wf(r, rest, v);
            lemma_join_wf(l, update(r, rest, v), h);
            if other[0] {
                lemma_update_lookup(r, rest, v, other.drop_first());
            }
        } else {
            lemma_update_wf(l, rest, v);
            lemma_join_wf(update(l, rest, v), r, h);
            if !other[0] {
                lemma_update_lookup(l, rest, v, other.drop_first());
            }
        }
        if other.drop_first() == rest && other[0] == key[0] {
            assert forall|i: int| 0 <= i < key.len() implies other[i] == key[i] by {
                if i > 0 {
                    assert(other[i] == other.drop_first()[i - 1]);
                    assert(key[i] == rest[i - 1]);
                }
            }
            assert(other =~= key);
        }
    }
}

/// Values set under two different keys can be set in either order.
pub proof fn lemma_updates_commute(
    t: Option<Tree>,
    h: nat,
    key1: Seq<bool>,
    v1: nat,
    key2: Seq<bool>,
    v2: nat,
)
    requires
        wf_opt(t, h),
        key1.len() == h,
        key2.len() == h,
        key1 != key2,
    ensures
        update(update(t, key1, v1), key2, v2) == update(update(t, key2, v2), key1, v1),
{
    let a1 = update(t, key1, v1);
    let a = update(a1, key2, v2);
    let b1 = update(t, key2, v2);
    let b = update(b1, key1, v1);
    lemma_update_wf(t, key1, v1);
    lemma_update_wf(a1, key2, v2);
    lemma_update_wf(t, key2, v2);
    lemma_update_wf(b1, key1, v1);
    assert forall|key: Seq<bool>| key.len() == h implies lookup(a, key) == lookup(b, key) by {
        lemma_update_lookup(t, key1, v1, key);
        lemma_update_lookup(a1, key2, v2, key);
        lemma_update_lookup(t, key2, v2, key);
        lemma_update_lookup(b1, key1, v1, key);
    }
    lemma_canonical(a, b, h);
}

/// Setting under a key the value that a trie holds there, or zero where it
/// holds none, leaves the trie as it is.
pub proof fn lemma_update_same(t: Option<Tree>, key: Seq<bool>)
    requires
        wf_opt(t, key.len()),
    ensures
        update(
            t,
            key,
            match lookup(t, key) {
                Some(v) => v,
                None => 0,
            },
        ) == t,
{
    let v = match lookup(t, key) {
        Some(v) => v,
        None => 0nat,
    };
    lemma_update_wf(t, key, v);
    lemma_stored_values_are_not_zero(t, key);
    assert forall|other: Seq<bool>| other.len() == key.len() implies lookup(
        update(t, key, v),
        other,
    ) == lookup(t, other) by {
        lemma_update_lookup(t, key, v, other);
    }
    lemma_canonical(update(t, key, v), t, key.len());
}

/// A value that is set under a key that holds nothing and then taken out
/// again leaves the trie as if it had never been set.
pub proof fn lemma_set_then_delete(t: Option<Tree>, key: Seq<bool>, v: nat)
    requires
        wf_opt(t, key.len()),
        lookup(t, key) is None,
    ensures
        update(update(t, key, v), key, 0) == t,
{
    let set = update(t, key, v);
    let back = update(set, key, 0);
    lemma_update_wf(t, key, v);
    lemma_update_wf(set, key, 0);
    assert forall|other: Seq<bool>| other.len() == key.len() implies lookup(back, other) == lookup(
        t,
        other,
    ) by {
        lemma_update_lookup(t, key, v, other);
        lemma_update_lookup(set, key, 0, other);
    }
    lemma_canonical(back, t, key.len());
}

/// A well-formed trie holds no zero.
pub proof fn lemma_stored_values_are_not_zero(t: Option<Tree>, key: Seq<bool>)
    requires
        wf_opt(t, key.len()),
    ensures
        lookup(t, key) != Some(0nat),
    decreases key.len(),
{
    if key.len() > 0 {
        if t is Some {
            lemma_split_wf(t->0, key.len());
        }
        lemma_stored_values_are_not_zero(half(t, key[0]), key.drop_first());
    }
}

/// What an edge holds under a key: what its child holds under the rest of
/// the key where the key begins with the edge's path, else nothing.
pub proof fn lemma_lookup_edge(p: Seq<bool>, c: Tree, key: Seq<bool>)
    requires
        1 <= p.len() <= key.len(),
    ensures
        lookup(Some(Tree::Edge(p, Box::new(c))), key) == if key.subrange(0, p.len() as int) == p {
            lookup(Some(c), key.subrange(p.len() as int, key.len() as int))
        } else {
            None
        },
    decreases p.len(),
{
    let t = Some(Tree::Edge(p, Box::new(c)));
    let rest = key.drop_first();
    let head = key.subrange(0, p.len() as int);
    if key[0] != p[0] {
        lemma_lookup_empty(rest);
        assert(head[0] == key[0]);
    } else if p.len() == 1 {
        assert(rest =~= key.subrange(1, key.len() as int));
        assert(head =~= seq![key[0]]);
        assert(p =~= seq![p[0]]);
    } else {
        lemma_lookup_edge(p.drop_first(), c, rest);
        assert(rest.subrange(p.len() - 1, rest.len() as int) =~= key.subrange(
            p.len() as int,
            key.len() as int,
        ));
        let rest_head = rest.subrange(0, p.len() - 1);
        assert(rest_head =~= head.drop_first());
        if head == p {
            assert(rest_head == p.drop_first());
        }
        if rest_head == p.drop_first() {
            assert forall|i: int| 0 <= i < p.len() implies head[i] == p[i] by {
                if i > 0 {
                    assert(head[i] == rest_head[i - 1]);
                    assert(p[i] == p.drop_first()[i - 1]);
                }
            }
            assert(head =~= p);
        }
    }
}

/// What a binary node holds under a key: what the child that the first bit
/// leads to holds under the rest.
pub proof fn lemma_lookup_binary(l: Tree, r: Tree, key: Seq<bool>)
    requires
        key.len() >= 1,
    ensures
        lookup(Some(Tree::Binary(Box::new(l), Box::new(r))), key) == lookup(
            Some(if key[0] {
                r
            } else {
                l
            }),
            key.subrange(1, key.len() as int),
        ),
{
    assert(key.drop_first() =~= key.subrange(1, key.len() as int));
}

/// The height of a trie: the number of bits of the keys under which it
/// files its values.
pub open spec fn height(t: Tree) -> nat
    decreases t,
{
    match t {
        Tree::Leaf(v) => 0,
        Tree::Binary(l, r) => height(*l) + 1,
        Tree::Edge(p, c) => p.len() + height(*c),
    }
}

/// A trie is well formed at its own height only.
pub proof fn lemma_wf_height(t: Tree, h: nat)
    requires
        wf(t, h),
    ensures
        h == height(t),
    decreases t,
{
    match t {
        Tree::Leaf(v) => {},
        Tree::Binary(l, r) => {
            lemma_wf_height(*l, (h - 1) as nat);
        },
        Tree::Edge(p, c) => {
            lemma_wf_height(*c, (h - p.len()) as nat);
        },
    }
}

/// A change to a trie: a key and the value to set under it, zero to take
/// the key out.
pub type Change = (Seq<bool>, nat);

/// The trie after a string of changes, made one after another.
pub open spec fn apply(t: Option<Tree>, changes: Seq<Change>) -> Option<Tree>
    decreases changes.len(),
{
    if changes.len() == 0 {
        t
    } else {
        update(apply(t, changes.drop_last()), changes.last().0, changes.last().1)
    }
}

/// The value that the last change to a key sets, if any change is to the
/// key.
pub open spec fn last_set(changes: Seq<Change>, key: Seq<bool>) -> Option<nat>
    decreases changes.len(),
{
    if changes.len() == 0 {
        None
    } else if changes.last().0 == key {
        Some(changes.last().1)
    } else {
        last_set(changes.drop_last(), key)
    }
}

/// Whether every change is to a key of `h` bits.
pub open spec fn keys_have_length(changes: Seq<Change>, h: nat) -> bool {
    forall|i: int| 0 <= i < changes.len() ==> (#[trigger] changes[i]).0.len() == h
}

/// What a value set under a key makes the trie hold there.
pub open spec fn held(v: nat) -> Option<nat> {
    if v == 0 {
        None
    } else {
        Some(v)
    }
}

/// A well-formed trie stays well formed under changes, and holds under a
/// key what the last change to the key set, or what it held before where
/// no change is to the key.
pub proof fn lemma_apply(t: Option<Tree>, h: nat, changes: Seq<Change>, key: Seq<bool>)
    requires
        wf_opt(t, h),
        keys_have_length(changes, h),
        key.len() == h,
    ensures
        wf_opt(apply(t, changes), h),
        lookup(apply(t, changes), key) == match last_set(changes, key) {
            Some(v) => held(v),
            None => lookup(t, key),
        },
    decreases changes.len(),
{
    if changes.len() > 0 {
        let before = changes.drop_last();
        assert(keys_have_length(before, h)) by {
            assert forall|i: int| 0 <= i < before.len() implies (#[trigger] before[i]).0.len()
                == h by {
                assert(before[i] == changes[i]);
            }
        }
        lemma_apply(t, h, before, key);
        let last = changes.last();
        assert(last == changes[changes.len() - 1]);
        lemma_update_wf(apply(t, before), last.0, last.1);
        lemma_update_lookup(apply(t, before), last.0, last.1, key);
    }
}

/// Two strings of changes after which every key holds the same make the
/// same trie of a trie, and so the same root.
pub proof fn lemma_trie_determinism(
    t: Option<Tree>,
    h: nat,
    changes1: Seq<Change>,
    changes2: Seq<Change>,
)
    requires
        wf_opt(t, h),
        keys_have_length(changes1, h),
        keys_have_length(changes2, h),
        forall|key: Seq<bool>|
            key.len() == h ==> last_set(changes1, key) == last_set(changes2, key),
    ensures
        apply(t, changes1) == apply(t, changes2),
        root_hash(apply(t, changes1)) == root_hash(apply(t, changes2)),
{
    let a = apply(t, changes1);
    let b = apply(t, changes2);
    assert forall|key: Seq<bool>| key.len() == h implies lookup(a, key) == lookup(b, key) by {
        lemma_apply(t, h, changes1, key);
        lemma_apply(t, h, changes2, key);
    }
    lemma_apply(t, h, changes1, Seq::new(h, |i: int| false));
    lemma_apply(t, h, changes2, Seq::new(h, |i: int| false));
    lemma_canonical(a, b, h);
}

/// Whether no two changes set one key to two values.
pub open spec fn consistent(changes: Seq<Change>) -> bool {
    forall|i: int, j: int|
        0 <= i < changes.len() && 0 <= j < changes.len() && (#[trigger] changes[i]).0 == (
        #[trigger] changes[j]).0 ==> changes[i].1 == changes[j].1
}

/// Where no two changes set one key to two values, the last change to a
/// key sets the value that any change to the key sets.
pub proof fn lemma_last_set_consistent(changes: Seq<Change>, key: Seq<bool>)
    requires
        consistent(changes),
    ensures
        last_set(changes, key) matches Some(v) ==> changes.contains((key, v)),
        last_set(changes, key) is None ==> forall|i: int|
            0 <= i < changes.len() ==> (#[trigger] changes[i]).0 != key,
        forall|v: nat| changes.contains((key, v)) ==> last_set(changes, key) == Some(v),
    decreases changes.len(),
{
    if changes.len() > 0 {
        let before = changes.drop_last();
        let n = changes.len() - 1;
        assert(consistent(before)) by {
            assert forall|i: int, j: int|
                0 <= i < before.len() && 0 <= j < before.len() && (#[trigger] before[i]).0 == (
                #[trigger] before[j]).0 implies before[i].1 == before[j].1 by {
                assert(before[i] == changes[i] && before[j] == changes[j]);
            }
        }
        lemma_last_set_consistent(before, key);
        if changes.last().0 == key {
            assert(changes[n] == (key, changes.last().1));
            assert forall|v: nat| changes.contains((key, v)) implies last_set(changes, key)
                == Some(v) by {
                let i = choose|i: int| 0 <= i < changes.len() && changes[i] == (key, v);
                assert(changes[i].0 == changes[n].0);
            }
        } else {
            if let Some(v) = last_set(changes, key) {
                let i = choose|i: int| 0 <= i < before.len() && before[i] == (key, v);
                assert(changes[i] == (key, v));
            }
            assert forall|i: int| 0 <= i < changes.len() && last_set(changes, key)
                is None implies (#[trigger] changes[i]).0 != key by {
                if i < n {
                    assert(before[i] == changes[i]);
                }
            }
            assert forall|v: nat| changes.contains((key, v)) implies last_set(changes, key)
                == Some(v) by {
                let i = choose|i: int| 0 <= i < changes.len() && changes[i] == (key, v);
                assert(i < n);
                assert(before[i] == (key, v));
            }
        }
    }
}

/// The same changes in any order make the same trie of a trie, and so the
/// same root, where no two of them set one key to two values.
pub proof fn lemma_order_of_changes(
    t: Option<Tree>,
    h: nat,
    changes1: Seq<Change>,
    changes2: Seq<Change>,
)
    requires
        wf_opt(t, h),
        keys_have_length(changes1, h),
        consistent(changes1),
        forall|c: Change| changes1.contains(c) <==> changes2.contains(c),
    ensures
        apply(t, changes1) == apply(t, changes2),
        root_hash(apply(t, changes1)) == root_hash(apply(t, changes2)),
{
    assert(keys_have_length(changes2, h)) by {
        assert forall|i: int| 0 <= i < changes2.len() implies (#[trigger] changes2[i]).0.len()
            == h by {
            assert(changes2.contains(changes2[i]));
            let j = choose|j: int| 0 <= j < changes1.len() && changes1[j] == changes2[i];
        }
    }
    assert(consistent(changes2)) by {
        assert forall|i: int, j: int|
            0 <= i < changes2.len() && 0 <= j < changes2.len() && (#[trigger] changes2[i]).0 == (
            #[trigger] changes2[j]).0 implies changes2[i].1 == changes2[j].1 by {
            assert(changes2.contains(changes2[i]));
            assert(changes2.contains(changes2[j]));
            let a = choose|a: int| 0 <= a < changes1.len() && changes1[a] == changes2[i];
            let b = choose|b: int| 0 <= b < changes1.len() && changes1[b] == changes2[j];
            assert(changes1[a].0 == changes1[b].0);
        }
    }
    assert forall|key: Seq<bool>| key.len() == h implies last_set(changes1, key) == last_set(
        changes2,
        key,
    ) by {
        lemma_last_set_consistent(changes1, key);
        lemma_last_set_consistent(changes2, key);
        match last_set(changes1, key) {
            Some(v) => {
                assert(changes2.contains((key, v)));
            },
            None => {
                if let Some(v) = last_set(changes2, key) {
                    assert(changes1.contains((key, v)));
                    let i = choose|i: int| 0 <= i < changes1.len() && changes1[i] == (key, v);
                    assert(changes1[i].0 == key);
                }
            },
        }
    }
    lemma_trie_determinism(t, h, changes1, changes2);
}

} // verus!
