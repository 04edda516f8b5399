//! The executable index: for each command name, the first directory along
//! the search path that holds an entry of that name.
use vstd::prelude::*;

use crate::text::{split_on, split_str, views};

verus! {

/// What one directory of the search path lists: its path and its entry names.
pub type ListingView = (Seq<char>, Seq<Seq<char>>);

/// The directory of the first entry named `name`, in insertion order.
pub open spec fn lookup_in(entries: Seq<(Seq<char>, Seq<char>)>, name: Seq<char>) -> Option<
    Seq<char>,
>
    decreases entries.len(),
{
    if entries.len() == 0 {
        None
    } else if entries[0].0 == name {
        Some(entries[0].1)
    } else {
        lookup_in(entries.drop_first(), name)
    }
}

/// The first directory, in search-path order, whose listing holds `name`.
pub open spec fn first_dir(listings: Seq<ListingView>, name: Seq<char>) -> Option<Seq<char>>
    decreases listings.len(),
{
    if listings.len() == 0 {
        None
    } else {
        match first_dir(listings.drop_last(), name) {
            Some(d) => Some(d),
            None => if listings.last().1.contains(name) {
                Some(listings.last().0)
            } else {
                None
            },
        }
    }
}

/// The listings as character sequences.
pub open spec fn listing_views(listings: Seq<(String, Vec<String>)>) -> Seq<ListingView> {
    listings.map_values(|l: (String, Vec<String>)| (l.0@, views(l.1@)))
}

/// The directories named by a search-path value, in order: the pieces
/// between its `:` separators.
pub open spec fn search_path_dirs(path: Seq<char>) -> Seq<Seq<char>> {
    split_on(path, ':')
}

pub proof fn lemma_lookup_in_none(entries: Seq<(Seq<char>, Seq<char>)>, name: Seq<char>)
    ensures
        lookup_in(entries, name) is None <==> forall|i: int|
            0 <= i < entries.len() ==> (#[trigger] entries[i]).0 != name,
    decreases entries.len(),
{
    if entries.len() > 0 {
        lemma_lookup_in_none(entries.drop_first(), name);
        assert forall|i: int| 1 <= i < entries.len() implies entries[i] == entries.drop_first()[i
            - 1] by {}
        if lookup_in(entries, name) is None {
            assert forall|i: int| 0 <= i < entries.len() implies (#[trigger] entries[i]).0
                != name by {
                if i > 0 {
                    assert(entries.drop_first()[i - 1] == entries[i]);
                }
            }
        }
    }
}

pub proof fn lemma_lookup_in_push(
    entries: Seq<(Seq<char>, Seq<char>)>,
    p: (Seq<char>, Seq<char>),
    name: Seq<char>,
)
    ensures
        lookup_in(entries.push(p), name) == match lookup_in(entries, name) {
            Some(d) => Some(d),
            None => if p.0 == name {
                Some(p.1)
            } else {
                None
            },
        },
    decreases entries.len(),
{
    assert(entries.push(p)[0] == if entries.len() > 0 {
        entries[0]
    } else {
        p
    });
    if entries.len() > 0 {
        assert(entries.push(p).drop_first() =~= entries.drop_first().push(p));
        lemma_lookup_in_push(entries.drop_first(), p, name);
    } else {
        assert(entries.push(p).drop_first() =~= entries);
    }
}

proof fn lemma_first_dir_absent(listings: Seq<ListingView>, name: Seq<char>)
    requires
        forall|k: int| 0 <= k < listings.len() ==> !(#[trigger] listings[k]).1.contains(name),
    ensures
        first_dir(listings, name) is None,
    decreases listings.len(),
{
    if listings.len() > 0 {
        assert(!listings[listings.len() - 1].1.contains(name));
        lemma_first_dir_absent(listings.drop_last(), name);
    }
}

/// A name resolves to the earliest directory of the search path that lists
/// it: a later directory that lists the same name never replaces it.
pub proof fn lemma_earliest_directory_wins(listings: Seq<ListingView>, name: Seq<char>, i: int)
    requires
        0 <= i < listings.len(),
        listings[i].1.contains(name),
        forall|k: int| 0 <= k < i ==> !(#[trigger] listings[k]).1.contains(name),
    ensures
        first_dir(listings, name) == Some(listings[i].0),
        forall|j: int|
            i < j < listings.len() && (#[trigger] listings[j]).1.contains(name) && listings[j].0
                != listings[i].0 ==> first_dir(listings, name) != Some(listings[j].0),
    decreases listings.len(),
{
    let prefix = listings.drop_last();
    if i == listings.len() - 1 {
        assert forall|k: int| 0 <= k < prefix.len() implies !(#[trigger] prefix[k]).1.contains(
            name,
        ) by {
            assert(prefix[k] == listings[k]);
        }
        lemma_first_dir_absent(prefix, name);
    } else {
        assert(prefix[i] == listings[i]);
        assert forall|k: int| 0 <= k < i implies !(#[trigger] prefix[k]).1.contains(name) by {
            assert(prefix[k] == listings[k]);
        }
        lemma_earliest_directory_wins(prefix, name, i);
    }
}

/// Maps each command name to the directory where it was first found.
pub struct ExecutableIndex {
    entries: Vec<(String, String)>,
}

impl View for ExecutableIndex {
    type V = Seq<(Seq<char>, Seq<char>)>;

    closed spec fn view(&self) -> Seq<(Seq<char>, Seq<char>)> {
        self.entries@.map_values(|e: (String, String)| (e.0@, e.1@))
    }
}

impl ExecutableIndex {
    /// At most one entry per name.
    pub open spec fn wf(&self) -> bool {
        forall|i: int, j: int|
            0 <= i < j < self@.len() ==> (#[trigger] self@[i]).0 != (#[trigger] self@[j]).0
    }

    /// The directory that `name` resolves to, if any.
    pub open spec fn resolve(&self, name: Seq<char>) -> Option<Seq<char>> {
        lookup_in(self@, name)
    }

    /// An index with no entries.
    pub fn new() -> (r: Self)
        ensures
            r.wf(),
            forall|name: Seq<char>| r.resolve(name) is None,
    {
        ExecutableIndex { entries: Vec::new() }
    }

    /// Builds the index from the listings of the search-path directories,
    /// in search-path order.
    pub fn build(listings: &Vec<(String, Vec<String>)>) -> (r: Self)
        ensures
            r.wf(),
            forall|name: Seq<char>| #[trigger]
                r.resolve(name) == first_dir(listing_views(listings@), name),
    {
        let mut index = ExecutableIndex::new();
        let n = listings.len();
        let mut i: usize = 0;
        while i < n
            invariant
                n == listings@.len(),
                i <= n,
                index.wf(),
                forall|name: Seq<char>| #[trigger]
                    index.resolve(name) == first_dir(listing_views(listings@).take(i as int), name),
            decreases n - i,
        {
            let ghost prev = index;
            let ghost t = listing_views(listings@).take(i + 1);
            assert(t.drop_last() =~= listing_views(listings@).take(i as int));
            assert(t.last() == (listings@[i as int].0@, views(listings@[i as int].1@)));
            index.add_directory(&listings[i].0, &listings[i].1);
            assert forall|name: Seq<char>| #[trigger]
                index.resolve(name) == first_dir(t, name) by {
                assert(prev.resolve(name) == first_dir(t.drop_last(), name));
            }
            i = i + 1;
        }
        assert(listing_views(listings@).take(n as int) =~= listing_views(listings@));
        index
    }

    /// Looks `name` up by exact match.
    pub fn lookup(&self, name: &String) -> (r: Option<String>)
        ensures
            r matches Some(d) ==> self.resolve(name@) == Some(d@),
            r is None ==> self.resolve(name@) is None,
    {
        let n = self.entries.len();
        let mut i: usize = 0;
        assert(self@.skip(0) =~= self@);
        while i < n
            invariant
                n == self@.len(),
                i <= n,
                lookup_in(self@, name@) == lookup_in(self@.skip(i as int), name@),
            decreases n - i,
        {
            assert(self@.skip(i as int)[0] == self@[i as int]);
            assert(self@.skip(i as int).drop_first() =~= self@.skip(i + 1));
            if self.entries[i].0 == *name {
                return Some(self.entries[i].1.clone());
            }
            i = i + 1;
        }
        None
    }

    /// Adds the entries of one more directory of the search path: each name
    /// that the index lacks now resolves to `dir`; names it has keep their
    /// directory.
    pub fn add_directory(&mut self, dir: &String, names: &Vec<String>)
        requires
            old(self).wf(),
        ensures
            final(self).wf(),
            forall|name: Seq<char>|
                #[trigger] final(self).resolve(name) == match old(self).resolve(name) {
                    Some(d) => Some(d),
                    None => if views(names@).contains(name) {
                        Some(dir@)
                    } else {
                        None
                    },
                },
    {
        let n = names.len();
        let mut i: usize = 0;
        while i < n
            invariant
                n == names@.len(),
                i <= n,
                self.wf(),
                forall|name: Seq<char>|
                    #[trigger] self.resolve(name) == match old(self).resolve(name) {
                        Some(d) => Some(d),
                        None => if views(names@).take(i as int).contains(name) {
                            Some(dir@)
                        } else {
                            None
                        },
                    },
            decreases n - i,
        {
            let name = &names[i];
            let ghost before = self@;
            let ghost prev = *self;
            assert(views(names@).take(i + 1) =~= views(names@).take(i as int).push(name@));
            if self.lookup(name).is_none() {
                self.entries.push((name.clone(), dir.clone()));
                proof {
                    assert(self@ =~= before.push((name@, dir@)));
                    lemma_lookup_in_none(before, name@);
                    assert forall|name2: Seq<char>| #[trigger]
                        self.resolve(name2) == match old(self).resolve(name2) {
                            Some(d) => Some(d),
                            None => if views(names@).take(i + 1).contains(name2) {
                                Some(dir@)
                            } else {
                                None
                            },
                        } by {
                        assert(prev.resolve(name2) == lookup_in(before, name2));
                        lemma_lookup_in_push(before, (name@, dir@), name2);
                        assert(views(names@).take(i + 1)[i as int] == name@);
                        if views(names@).take(i + 1).contains(name2) && name2 != name@ {
                            let k = choose|k: int|
                                0 <= k < i + 1 && #[trigger] views(names@).take(i + 1)[k] == name2;
                            assert(views(names@).take(i as int)[k] == name2);
                        }
                    }
                }
            } else {
                proof {
                    assert forall|name2: Seq<char>| #[trigger]
                        self.resolve(name2) == match old(self).resolve(name2) {
                            Some(d) => Some(d),
                            None => if views(names@).take(i + 1).contains(name2) {
                                Some(dir@)
                            } else {
                                None
                            },
                        } by {
                        assert(prev.resolve(name2) == self.resolve(name2));
                        assert(views(names@).take(i + 1)[i as int] == name@);
                        if views(names@).take(i + 1).contains(name2) && name2 != name@ {
                            let k = choose|k: int|
                                0 <= k < i + 1 && #[trigger] views(names@).take(i + 1)[k] == name2;
                            assert(views(names@).take(i as int)[k] == name2);
                        }
                    }
                }
            }
            i = i + 1;
        }
        assert(views(names@).take(n as int) =~= views(names@));
    }
}

/// The directories of a search-path value, split at each `:`.
pub fn split_search_path(path: &str) -> (r: Vec<String>)
    ensures
        views(r@) == search_path_dirs(path@),
{
    split_str(path, ':')
}

} // verus!
