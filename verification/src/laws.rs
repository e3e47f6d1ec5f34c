//! What holds of every store: how lookups, bindings and removals relate.

use vstd::prelude::*;
use crate::context::{bound_at, resolve, resolve_all, store_set, store_unset, StoreView};
use crate::path::PathView;

verus! {

/// The keys that some directory on the way up from `from` binds.
pub open spec fn visible_keys(store: StoreView, from: PathView) -> Set<Seq<char>> {
    Set::new(
        |key: Seq<char>|
            exists|depth: int|
                0 <= depth <= from.depth() && #[trigger] bound_at(store, from.ancestor(depth), key),
    )
}

/// An ancestor of an ancestor is an ancestor, and a path is its own ancestor
/// at its own depth.
pub proof fn lemma_ancestors(from: PathView, below: int, above: int)
    requires
        0 <= above <= below <= from.depth(),
    ensures
        from.ancestor(below).ancestor(above) == from.ancestor(above),
        from.ancestor(below).depth() == below,
        from.ancestor(from.depth() as int) == from,
{
    assert(from.segments.take(below).take(above) =~= from.segments.take(above));
    assert(from.segments.take(from.depth() as int) =~= from.segments);
}

/// A lookup passes the directories that do not bind the key: it gives what a
/// lookup from the first ancestor that may bind it gives.
pub proof fn lemma_resolve_passes_unbound(
    store: StoreView,
    from: PathView,
    upto: int,
    key: Seq<char>,
)
    requires
        0 <= upto <= from.depth(),
        forall|depth: int|
            upto < depth <= from.depth() ==> !#[trigger] bound_at(store, from.ancestor(depth), key),
    ensures
        resolve(store, from, key) == resolve(store, from.ancestor(upto), key),
    decreases from.depth(),
{
    lemma_ancestors(from, upto, upto);
    if upto < from.depth() {
        let parent = from.ancestor(from.depth() - 1);
        lemma_ancestors(from, from.depth() - 1, upto);
        assert forall|depth: int| upto < depth <= parent.depth() implies !#[trigger] bound_at(
            store,
            parent.ancestor(depth),
            key,
        ) by {
            lemma_ancestors(from, from.depth() - 1, depth);
        }
        lemma_resolve_passes_unbound(store, parent, upto, key);
    }
}

/// Two stores that agree on a key along the way up give the same lookup.
pub proof fn lemma_resolve_same_chain(
    a: StoreView,
    b: StoreView,
    from: PathView,
    key: Seq<char>,
)
    requires
        forall|depth: int|
            0 <= depth <= from.depth() ==> (#[trigger] bound_at(a, from.ancestor(depth), key)
                == bound_at(b, from.ancestor(depth), key)) && (bound_at(
                a,
                from.ancestor(depth),
                key,
            ) ==> a[from.ancestor(depth)][key] == b[from.ancestor(depth)][key]),
    ensures
        resolve(a, from, key) == resolve(b, from, key),
    decreases from.depth(),
{
    lemma_ancestors(from, from.depth() as int, 0);
    assert(bound_at(a, from.ancestor(from.depth() as int), key) == bound_at(
        b,
        from.ancestor(from.depth() as int),
        key,
    ));
    if !bound_at(a, from, key) && from.depth() > 0 {
        let parent = from.ancestor(from.depth() - 1);
        lemma_ancestors(from, from.depth() - 1, 0);
        assert forall|depth: int| 0 <= depth <= parent.depth() implies (#[trigger] bound_at(
            a,
            parent.ancestor(depth),
            key,
        ) == bound_at(b, parent.ancestor(depth), key)) && (bound_at(a, parent.ancestor(depth), key)
            ==> a[parent.ancestor(depth)][key] == b[parent.ancestor(depth)][key]) by {
            lemma_ancestors(from, from.depth() - 1, depth);
            assert(bound_at(a, from.ancestor(depth), key) == bound_at(
                b,
                from.ancestor(depth),
                key,
            ));
        }
        lemma_resolve_same_chain(a, b, parent, key);
    }
}

/// A lookup gives the value of the nearest directory on the way up that
/// binds the key, whatever the directories farther up bind, and so do all
/// visible values taken together.
pub proof fn law_nearest_binding_is_seen(
    store: StoreView,
    from: PathView,
    near: int,
    key: Seq<char>,
)
    requires
        0 <= near <= from.depth(),
        bound_at(store, from.ancestor(near), key),
        forall|depth: int|
            near < depth <= from.depth() ==> !#[trigger] bound_at(store, from.ancestor(depth), key),
    ensures
        resolve(store, from, key) == Some(store[from.ancestor(near)][key]),
        resolve_all(store, from).contains_key(key),
        resolve_all(store, from)[key] == store[from.ancestor(near)][key],
{
    lemma_resolve_passes_unbound(store, from, near, key);
    law_all_values_agree_with_lookup(store, from, key);
}

/// A lookup finds nothing exactly where no directory on the way up binds the
/// key.
pub proof fn law_unbound_key_is_absent(
    store: StoreView,
    from: PathView,
    key: Seq<char>,
)
    ensures
        resolve(store, from, key) is None <==> !visible_keys(store, from).contains(key),
    decreases from.depth(),
{
    lemma_ancestors(from, from.depth() as int, 0);
    if !bound_at(store, from, key) && from.depth() > 0 {
        let parent = from.ancestor(from.depth() - 1);
        law_unbound_key_is_absent(store, parent, key);
        lemma_ancestors(from, from.depth() - 1, 0);
        if visible_keys(store, parent).contains(key) {
            let depth = choose|depth: int|
                0 <= depth <= parent.depth() && #[trigger] bound_at(
                    store,
                    parent.ancestor(depth),
                    key,
                );
            lemma_ancestors(from, from.depth() - 1, depth);
        }
        if visible_keys(store, from).contains(key) {
            let depth = choose|depth: int|
                0 <= depth <= from.depth() && #[trigger] bound_at(store, from.ancestor(depth), key);
            lemma_ancestors(from, from.depth() - 1, depth);
        }
    }
}

/// A value bound at a directory is what a lookup of its key gives from that
/// directory and from every directory below it, as long as no directory
/// between the two binds the key itself.
pub proof fn law_bound_value_reaches_descendants(
    store: StoreView,
    dir: PathView,
    from: PathView,
    key: Seq<char>,
    value: Seq<char>,
)
    requires
        dir.contains(from),
        forall|depth: int|
            dir.depth() < depth <= from.depth() ==> !#[trigger] bound_at(
                store,
                from.ancestor(depth),
                key,
            ),
    ensures
        resolve(store_set(store, dir, key, value), from, key) == Some(value),
{
    let after = store_set(store, dir, key, value);
    let near = dir.depth() as int;
    assert forall|depth: int| near < depth <= from.depth() implies !#[trigger] bound_at(
        after,
        from.ancestor(depth),
        key,
    ) by {
        lemma_ancestors(from, depth, depth);
        assert(!bound_at(store, from.ancestor(depth), key));
    }
    law_nearest_binding_is_seen(after, from, near, key);
}

/// Where a directory on the way up binds a key, binding the same key at a
/// directory farther up changes neither what a lookup of the key gives nor
/// what the key has among all visible values.
pub proof fn law_nearer_shadows_farther(
    store: StoreView,
    from: PathView,
    near: int,
    far: int,
    key: Seq<char>,
    value: Seq<char>,
)
    requires
        0 <= far < near <= from.depth(),
        bound_at(store, from.ancestor(near), key),
    ensures
        resolve(store_set(store, from.ancestor(far), key, value), from, key) == resolve(
            store,
            from,
            key,
        ),
        resolve(store, from, key) is Some,
        resolve_all(store_set(store, from.ancestor(far), key, value), from).contains_key(key),
        resolve_all(store_set(store, from.ancestor(far), key, value), from)[key] == resolve_all(
            store,
            from,
        )[key],
    decreases from.depth(),
{
    let after = store_set(store, from.ancestor(far), key, value);
    lemma_ancestors(from, from.depth() as int, far);
    lemma_ancestors(from, near, near);
    if !bound_at(store, from, key) {
        let parent = from.ancestor(from.depth() - 1);
        lemma_ancestors(from, from.depth() - 1, far);
        lemma_ancestors(from, from.depth() - 1, near);
        law_nearer_shadows_farther(store, parent, near, far, key, value);
    }
    law_all_values_agree_with_lookup(store, from, key);
    law_all_values_agree_with_lookup(after, from, key);
}

/// Among all visible values a key has exactly what a lookup of it gives.
pub proof fn law_all_values_agree_with_lookup(
    store: StoreView,
    from: PathView,
    key: Seq<char>,
)
    ensures
        match resolve(store, from, key) {
            Some(value) => resolve_all(store, from).contains_key(key) && resolve_all(store, from)[key]
                == value,
            None => !resolve_all(store, from).contains_key(key),
        },
    decreases from.depth(),
{
    if from.depth() > 0 {
        law_all_values_agree_with_lookup(store, from.ancestor(from.depth() - 1), key);
    }
}

/// The keys among all visible values are the keys that some directory on the
/// way up binds, each once: there are as many visible values as distinct keys
/// along the way.
pub proof fn law_all_values_hold_visible_keys(
    store: StoreView,
    from: PathView,
)
    ensures
        resolve_all(store, from).dom() == visible_keys(store, from),
        resolve_all(store, from).len() == visible_keys(store, from).len(),
{
    assert forall|key: Seq<char>|
        resolve_all(store, from).dom().contains(key) <==> visible_keys(store, from).contains(
            key,
        ) by {
        law_all_values_agree_with_lookup(store, from, key);
        law_unbound_key_is_absent(store, from, key);
    }
    assert(resolve_all(store, from).dom() =~= visible_keys(store, from));
}

/// Unbinding a key at a directory takes away that one binding and no other.
pub proof fn law_remove_touches_one_binding(
    store: StoreView,
    dir: PathView,
    key: Seq<char>,
    other_dir: PathView,
    other_key: Seq<char>,
)
    ensures
        !bound_at(store_unset(store, dir, key), dir, key),
        other_dir != dir || other_key != key ==> bound_at(
            store_unset(store, dir, key),
            other_dir,
            other_key,
        ) == bound_at(store, other_dir, other_key),
        (other_dir != dir || other_key != key) && bound_at(store, other_dir, other_key)
            ==> store_unset(store, dir, key)[other_dir][other_key] == store[other_dir][other_key],
{
}

/// After a key is unbound at a directory, a lookup of it from that directory
/// or from one below it, with no directory between the two binding the key,
/// gives what a lookup from the directory above gave: the value of the next
/// ancestor that binds the key, or nothing.
pub proof fn law_removed_value_falls_through(
    store: StoreView,
    dir: PathView,
    from: PathView,
    key: Seq<char>,
)
    requires
        dir.contains(from),
        forall|depth: int|
            dir.depth() < depth <= from.depth() ==> !#[trigger] bound_at(
                store,
                from.ancestor(depth),
                key,
            ),
    ensures
        resolve(store_unset(store, dir, key), from, key) == if dir.depth() == 0 {
            None
        } else {
            resolve(store, dir.ancestor(dir.depth() - 1), key)
        },
{
    let after = store_unset(store, dir, key);
    let near = dir.depth() as int;
    lemma_ancestors(from, near, near);
    assert forall|depth: int| near < depth <= from.depth() implies !#[trigger] bound_at(
        after,
        from.ancestor(depth),
        key,
    ) by {
        lemma_ancestors(from, depth, depth);
        assert(!bound_at(store, from.ancestor(depth), key));
    }
    lemma_resolve_passes_unbound(after, from, near, key);
    if near > 0 {
        let above = dir.ancestor(near - 1);
        lemma_ancestors(dir, near, near - 1);
        assert forall|depth: int| 0 <= depth <= above.depth() implies (#[trigger] bound_at(
            after,
            above.ancestor(depth),
            key,
        ) == bound_at(store, above.ancestor(depth), key)) && (bound_at(
            after,
            above.ancestor(depth),
            key,
        ) ==> after[above.ancestor(depth)][key] == store[above.ancestor(depth)][key]) by {
            lemma_ancestors(above, depth, depth);
        }
        lemma_resolve_same_chain(after, store, above, key);
    }
}

} // verus!
