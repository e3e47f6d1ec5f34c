//! The store: values bound to directories, and lookups that walk upward from
//! a working directory.

use vstd::prelude::*;
use crate::entries::{
    distinct_keys, has_key, lemma_map_of_entry, lemma_map_of_keys, lemma_map_of_push,
    lemma_map_of_remove, map_of,
};
use crate::path::{
    lemma_text_round_trip, lemma_text_tells_paths_apart, path_of_text, DirPath, PathView,
};
use crate::values::ValueMap;

verus! {

/// The mathematical value of a store: what each directory binds.
pub type StoreView = Map<PathView, Map<Seq<char>, Seq<char>>>;

/// A store written out: each directory's text with its key-value pairs.
pub type Listing = Vec<(String, Vec<(String, String)>)>;

/// The mathematical value of a `Listing`.
pub type ListingView = Seq<(Seq<char>, Seq<(Seq<char>, Seq<char>)>)>;

/// Whether a directory of a store binds a key.
pub open spec fn bound_at(store: StoreView, dir: PathView, key: Seq<char>) -> bool {
    store.contains_key(dir) && store[dir].contains_key(key)
}

/// What a directory of a store binds itself: nothing where the store has no
/// entry for it.
pub open spec fn own_values(store: StoreView, dir: PathView) -> Map<Seq<char>, Seq<char>> {
    if store.contains_key(dir) {
        store[dir]
    } else {
        Map::empty()
    }
}

/// The value of a key as seen from a directory: that of the nearest directory
/// on the way up, the directory itself included, that binds the key.
pub open spec fn resolve(store: StoreView, from: PathView, key: Seq<char>) -> Option<Seq<char>>
    decreases from.segments.len(),
{
    if bound_at(store, from, key) {
        Some(store[from][key])
    } else {
        match from.parent() {
            Some(above) => resolve(store, above, key),
            None => None,
        }
    }
}

/// Everything that is visible from a directory: what the directories on the
/// way up bind, laid over one another from the top down, so that a nearer
/// directory's value replaces a farther one's.
pub open spec fn resolve_all(store: StoreView, from: PathView) -> Map<Seq<char>, Seq<char>>
    decreases from.segments.len(),
{
    match from.parent() {
        Some(above) => resolve_all(store, above).union_prefer_right(own_values(store, from)),
        None => own_values(store, from),
    }
}

/// A store after a key was bound at a directory. Nothing else changes.
pub open spec fn store_set(store: StoreView, dir: PathView, key: Seq<char>, value: Seq<char>) -> StoreView {
    store.insert(dir, own_values(store, dir).insert(key, value))
}

/// A store after a key was unbound at a directory. Nothing else changes, and
/// a store without an entry for the directory stays as it is.
pub open spec fn store_unset(store: StoreView, dir: PathView, key: Seq<char>) -> StoreView {
    if store.contains_key(dir) {
        store.insert(dir, store[dir].remove(key))
    } else {
        store
    }
}

/// The entries that a listing denotes: each directory's text read as a path,
/// each sequence of key-value pairs read as a mapping.
pub open spec fn listing_entries(listing: ListingView) -> Seq<
    (PathView, Map<Seq<char>, Seq<char>>),
> {
    listing.map_values(
        |entry: (Seq<char>, Seq<(Seq<char>, Seq<char>)>)| (path_of_text(entry.0), map_of(entry.1)),
    )
}

/// The store that a listing denotes. A later entry replaces an earlier one
/// for the same directory, and a later pair an earlier one with the same key.
pub open spec fn store_of_listing(listing: ListingView) -> StoreView {
    map_of(listing_entries(listing))
}

/// Whether an entry of a listing writes out a directory entry.
spec fn listing_entry_of(written: (String, Vec<(String, String)>), held: (DirPath, ValueMap)) -> bool {
    &&& held.0@.clean()
    &&& written.0@ == held.0@.text()
    &&& distinct_keys(written.1.deep_view())
    &&& map_of(written.1.deep_view()) == held.1@
}

/// The mathematical values of a sequence of directory entries.
pub open spec fn entry_views(entries: Seq<(DirPath, ValueMap)>) -> Seq<
    (PathView, Map<Seq<char>, Seq<char>>),
> {
    entries.map_values(|entry: (DirPath, ValueMap)| (entry.0@, entry.1@))
}

/// The bindings of every directory. Each directory is held once.
#[derive(Debug)]
pub struct ContextData {
    context: Vec<(DirPath, ValueMap)>,
}

impl View for ContextData {
    type V = StoreView;

    closed spec fn view(&self) -> StoreView {
        map_of(entry_views(self.context@))
    }
}

/// Finds the entry of the ancestor of `path` that keeps its first `depth`
/// names.
fn position_at(entries: &Vec<(DirPath, ValueMap)>, path: &DirPath, depth: usize) -> (found: Option<
    usize,
>)
    requires
        depth <= path@.depth(),
    ensures
        match found {
            Some(index) => index < entries.len() && entries[index as int].0@ == path@.ancestor(
                depth as int,
            ),
            None => !has_key(entry_views(entries@), path@.ancestor(depth as int)),
        },
{
    let mut i: usize = 0;
    while i < entries.len()
        invariant
            i <= entries.len(),
            depth <= path@.depth(),
            forall|k: int| 0 <= k < i ==> entries[k].0@ != path@.ancestor(depth as int),
        decreases entries.len() - i,
    {
        if entries[i].0.is_ancestor_at(path, depth) {
            return Some(i);
        }
        i = i + 1;
    }
    None
}

impl ContextData {
    #[verifier::type_invariant]
    spec fn well_formed(self) -> bool {
        distinct_keys(entry_views(self.context@))
    }

    /// The store without any directory.
    pub fn new() -> (data: ContextData)
        ensures
            data@ == StoreView::empty(),
    {
        let data = ContextData { context: Vec::new() };
        data
    }

    /// What the ancestor of `path` that keeps its first `depth` names binds,
    /// if the store has an entry for it.
    pub(crate) fn values_at(&self, path: &DirPath, depth: usize) -> (values: Option<&ValueMap>)
        requires
            depth <= path@.depth(),
        ensures
            match values {
                Some(found) => self@.contains_key(path@.ancestor(depth as int)) && self@[path@.ancestor(
                    depth as int,
                )] == found@,
                None => !self@.contains_key(path@.ancestor(depth as int)),
            },
    {
        proof {
            use_type_invariant(self);
            lemma_map_of_keys(entry_views(self.context@));
        }
        match position_at(&self.context, path, depth) {
            Some(index) => {
                proof {
                    lemma_map_of_entry(entry_views(self.context@), index as int);
                }
                Some(&self.context[index].1)
            },
            None => None,
        }
    }

    /// What a directory binds itself, if the store has an entry for it.
    pub fn get(&self, path: &DirPath) -> (values: Option<&ValueMap>)
        ensures
            match values {
                Some(found) => self@.contains_key(path@) && self@[path@] == found@,
                None => !self@.contains_key(path@),
            },
    {
        assert(path@.ancestor(path@.depth() as int).segments =~= path@.segments);
        self.values_at(path, path.depth())
    }

    /// Gives a directory its bindings, replacing those it had.
    pub fn insert(&mut self, path: DirPath, values: ValueMap)
        ensures
            final(self)@ == old(self)@.insert(path@, values@),
    {
        proof {
            use_type_invariant(&*self);
        }
        let mut entries: Vec<(DirPath, ValueMap)> = Vec::new();
        std::mem::swap(&mut entries, &mut self.context);
        let ghost before = entry_views(entries@);
        assert(path@.ancestor(path@.depth() as int).segments =~= path@.segments);
        match position_at(&entries, &path, path.depth()) {
            Some(index) => {
                proof {
                    lemma_map_of_remove(before, index as int);
                }
                entries.remove(index);
                assert(entry_views(entries@) =~= before.remove(index as int));
            },
            None => {},
        }
        let ghost kept = entry_views(entries@);
        proof {
            lemma_map_of_push(kept, path@, values@);
        }
        entries.push((path, values));
        assert(entry_views(entries@) =~= kept.push((path@, values@)));
        self.context = entries;
    }

    /// Binds a key at a directory, replacing what it was bound to there.
    pub fn set(&mut self, path: &DirPath, key: String, value: String)
        ensures
            final(self)@ == store_set(old(self)@, path@, key@, value@),
    {
        proof {
            use_type_invariant(&*self);
        }
        let mut entries: Vec<(DirPath, ValueMap)> = Vec::new();
        std::mem::swap(&mut entries, &mut self.context);
        let ghost before = entry_views(entries@);
        proof {
            lemma_map_of_keys(before);
            assert(path@.ancestor(path@.depth() as int).segments =~= path@.segments);
        }
        let (dir, mut values) = match position_at(&entries, path, path.depth()) {
            Some(index) => {
                proof {
                    lemma_map_of_remove(before, index as int);
                    lemma_map_of_entry(before, index as int);
                }
                let entry = entries.remove(index);
                assert(entry_views(entries@) =~= before.remove(index as int));
                entry
            },
            None => (path.clone(), ValueMap::new()),
        };
        values.insert(key, value);
        let ghost kept = entry_views(entries@);
        proof {
            lemma_map_of_push(kept, dir@, values@);
            assert(map_of(kept).insert(dir@, values@) =~= store_set(
                map_of(before),
                path@,
                key@,
                value@,
            ));
        }
        entries.push((dir, values));
        assert(entry_views(entries@) =~= kept.push((dir@, values@)));
        self.context = entries;
    }

    /// Unbinds a key at a directory. Where the store has no entry for the
    /// directory, or the directory does not bind the key, nothing changes.
    pub fn unset(&mut self, path: &DirPath, key: &str)
        ensures
            final(self)@ == store_unset(old(self)@, path@, key@),
    {
        proof {
            use_type_invariant(&*self);
        }
        let mut entries: Vec<(DirPath, ValueMap)> = Vec::new();
        std::mem::swap(&mut entries, &mut self.context);
        let ghost before = entry_views(entries@);
        proof {
            lemma_map_of_keys(before);
            assert(path@.ancestor(path@.depth() as int).segments =~= path@.segments);
        }
        match position_at(&entries, path, path.depth()) {
            Some(index) => {
                proof {
                    lemma_map_of_remove(before, index as int);
                    lemma_map_of_entry(before, index as int);
                }
                let (dir, mut values) = entries.remove(index);
                assert(entry_views(entries@) =~= before.remove(index as int));
                values.remove(key);
                let ghost kept = entry_views(entries@);
                proof {
                    lemma_map_of_push(kept, dir@, values@);
                    assert(map_of(kept).insert(dir@, values@) =~= store_unset(
                        map_of(before),
                        path@,
                        key@,
                    ));
                }
                entries.push((dir, values));
                assert(entry_views(entries@) =~= kept.push((dir@, values@)));
            },
            None => {},
        }
        self.context = entries;
    }

    /// The store as a listing: each directory's text with its entries. No
    /// text occurs twice, nor a key within one directory, and reading the
    /// listing gives the store back.
    pub fn to_listing(&self) -> (listing: Listing)
        ensures
            store_of_listing(listing.deep_view()) == self@,
            distinct_keys(listing.deep_view()),
            forall|i: int|
                0 <= i < listing.len() ==> distinct_keys((#[trigger] listing.deep_view()[i]).1),
    {
        proof {
            use_type_invariant(self);
        }
        let mut listing: Listing = Vec::new();
        let mut i: usize = 0;
        while i < self.context.len()
            invariant
                i <= self.context.len(),
                listing.len() == i,
                forall|k: int| 0 <= k < i ==> listing_entry_of(#[trigger] listing[k], self.context[k]),
            decreases self.context.len() - i,
        {
            let dir = &self.context[i].0;
            proof {
                use_type_invariant(dir);
            }
            let text = dir.to_text();
            let pairs = self.context[i].1.to_pairs();
            listing.push((text, pairs));
            i = i + 1;
        }
        proof {
            let given = listing.deep_view();
            let held = entry_views(self.context@);
            assert forall|k: int| 0 <= k < given.len() implies #[trigger] listing_entries(given)[k]
                == held[k] by {
                assert(given[k].0 == self.context[k].0@.text());
                lemma_text_round_trip(self.context[k].0@);
            }
            assert(listing_entries(given) =~= held);
            assert forall|a: int, b: int| 0 <= a < b < given.len() implies (#[trigger] given[a]).0 != (
            #[trigger] given[b]).0 by {
                assert(held[a].0 != held[b].0);
                if given[a].0 == given[b].0 {
                    lemma_text_tells_paths_apart(self.context[a].0@, self.context[b].0@);
                }
            }
        }
        listing
    }

    /// The store that a listing denotes.
    pub fn from_listing(listing: &Listing) -> (data: ContextData)
        ensures
            data@ == store_of_listing(listing.deep_view()),
    {
        let ghost given = listing_entries(listing.deep_view());
        let mut data = ContextData::new();
        let mut i: usize = 0;
        while i < listing.len()
            invariant
                i <= listing.len(),
                given == listing_entries(listing.deep_view()),
                data@ == map_of(given.take(i as int)),
            decreases listing.len() - i,
        {
            proof {
                assert(given.take(i + 1).drop_last() =~= given.take(i as int));
                assert(given[i as int] == (
                    path_of_text(listing[i as int].0@),
                    map_of(listing[i as int].1.deep_view()),
                ));
            }
            let dir = DirPath::parse(listing[i].0.as_str());
            let values = ValueMap::from_pairs(&listing[i].1);
            data.insert(dir, values);
            i = i + 1;
        }
        assert(given.take(given.len() as int) =~= given);
        data
    }
}

/// A store together with the file that backs it and the working directory
/// from which it is read and at which it is changed.
#[derive(Debug)]
pub struct Context {
    data: ContextData,
    config_path: String,
    pwd: DirPath,
}

/// The mathematical value of a `Context`.
pub struct ContextView {
    /// What each directory binds.
    pub data: StoreView,
    /// The path of the backing file.
    pub config_path: Seq<char>,
    /// The working directory.
    pub pwd: PathView,
}

impl View for Context {
    type V = ContextView;

    closed spec fn view(&self) -> ContextView {
        ContextView { data: self.data@, config_path: self.config_path@, pwd: self.pwd@ }
    }
}

impl Context {
    /// A context over the given bindings.
    pub fn new(data: ContextData, config_path: String, pwd: DirPath) -> (context: Context)
        ensures
            context@ == (ContextView { data: data@, config_path: config_path@, pwd: pwd@ }),
    {
        Context { data, config_path, pwd }
    }

    /// Everything that is visible from the working directory.
    pub fn get_value_all(&self) -> (values: ValueMap)
        ensures
            values@ == resolve_all(self@.data, self@.pwd),
    {
        let depth = self.pwd.depth();
        let mut values = ValueMap::new();
        if let Some(own) = self.data.values_at(&self.pwd, 0) {
            values.overlay(own);
        }
        let mut reached: usize = 0;
        while reached < depth
            invariant
                reached <= depth == self.pwd@.depth(),
                values@ == resolve_all(self.data@, self.pwd@.ancestor(reached as int)),
            decreases depth - reached,
        {
            reached = reached + 1;
            let ghost above = values@;
            proof {
                assert(self.pwd@.ancestor(reached as int).ancestor(reached - 1) =~= self.pwd@.ancestor(
                    reached - 1,
                )) by {
                    assert(self.pwd@.segments.take(reached as int).take(reached - 1)
                        =~= self.pwd@.segments.take(reached - 1));
                }
            }
            if let Some(own) = self.data.values_at(&self.pwd, reached) {
                values.overlay(own);
            }
            assert(values@ =~= above.union_prefer_right(
                own_values(self.data@, self.pwd@.ancestor(reached as int)),
            ));
        }
        assert(self.pwd@.ancestor(depth as int) =~= self.pwd@) by {
            assert(self.pwd@.segments.take(depth as int) =~= self.pwd@.segments);
        }
        values
    }

    /// The value of a key as seen from the working directory.
    pub fn get_value(&self, key: &str) -> (value: Option<&String>)
        ensures
            match value {
                Some(text) => resolve(self@.data, self@.pwd, key@) == Some(text@),
                None => resolve(self@.data, self@.pwd, key@) is None,
            },
    {
        let mut depth = self.pwd.depth();
        assert(self.pwd@.ancestor(depth as int) =~= self.pwd@) by {
            assert(self.pwd@.segments.take(depth as int) =~= self.pwd@.segments);
        }
        loop
            invariant
                depth <= self.pwd@.depth(),
                resolve(self.data@, self.pwd@, key@) == resolve(
                    self.data@,
                    self.pwd@.ancestor(depth as int),
                    key@,
                ),
            decreases depth,
        {
            if let Some(own) = self.data.values_at(&self.pwd, depth) {
                if let Some(text) = own.get(key) {
                    return Some(text);
                }
            }
            if depth == 0 {
                return None;
            }
            proof {
                assert(self.pwd@.ancestor(depth as int).ancestor(depth - 1) =~= self.pwd@.ancestor(
                    depth - 1,
                )) by {
                    assert(self.pwd@.segments.take(depth as int).take(depth - 1)
                        =~= self.pwd@.segments.take(depth - 1));
                }
            }
            depth = depth - 1;
        }
    }

    /// Binds a key at the working directory.
    pub fn set_value(&mut self, key: String, value: String)
        ensures
            final(self)@ == (ContextView {
                data: store_set(old(self)@.data, old(self)@.pwd, key@, value@),
                ..old(self)@
            }),
    {
        self.data.set(&self.pwd, key, value);
    }

    /// Unbinds a key at the working directory. What the directories above
    /// bind stays visible.
    pub fn remove_value(&mut self, key: &str)
        ensures
            final(self)@ == (ContextView {
                data: store_unset(old(self)@.data, old(self)@.pwd, key@),
                ..old(self)@
            }),
    {
        self.data.unset(&self.pwd, key);
    }

    /// The path of the backing file.
    pub fn config_path(&self) -> (path: &String)
        ensures
            path@ == self@.config_path,
    {
        &self.config_path
    }

    /// The working directory.
    pub fn pwd(&self) -> (pwd: &DirPath)
        ensures
            pwd@ == self@.pwd,
    {
        &self.pwd
    }

    /// The bindings of every directory.
    pub fn data(&self) -> (data: &ContextData)
        ensures
            data@ == self@.data,
    {
        &self.data
    }
}

} // verus!
