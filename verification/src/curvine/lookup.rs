//! Which block locations have to be asked for.
use vstd::hash_map::StringHashMap;
use vstd::prelude::*;

verus! {

/// Where the block locations of a file come from.
#[derive(Debug, Clone, Copy, PartialEq, Eq)]
pub enum Lookup {
    /// The cluster has to be asked.
    Fetch,
    /// They are those of an earlier file, at this position.
    Reuse(usize),
}

/// The texts of some paths.
pub open spec fn texts(paths: Seq<String>) -> Seq<Seq<char>> {
    Seq::new(paths.len(), |i: int| paths[i]@)
}

/// The position of the first path that is the same as the one at `i`.
pub open spec fn first_use(paths: Seq<Seq<char>>, i: int) -> int {
    paths.index_of_first(paths[i])->0
}

/// A path is asked for where it stands first, and reused from there wherever it
/// stands again.
pub open spec fn lookup(paths: Seq<Seq<char>>, i: int) -> Lookup {
    if first_use(paths, i) == i {
        Lookup::Fetch
    } else {
        Lookup::Reuse(first_use(paths, i) as usize)
    }
}

/// The first use of a path comes no later than the path, and is the same path,
/// which nothing before it is.
proof fn lemma_first_use(paths: Seq<Seq<char>>, i: int)
    requires
        0 <= i < paths.len(),
    ensures
        0 <= first_use(paths, i) <= i,
        paths[first_use(paths, i)] == paths[i],
        forall|j: int| 0 <= j < first_use(paths, i) ==> #[trigger] paths[j] != paths[i],
{
    paths.index_of_first_ensures(paths[i]);
}

/// A path is asked for if it stands nowhere before, and only then. Else it is
/// reused from where it stands first, which is before.
pub proof fn law_lookup_is_of_the_first_use(paths: Seq<Seq<char>>, i: int)
    requires
        0 <= i < paths.len(),
        paths.len() <= usize::MAX,
    ensures
        lookup(paths, i) is Fetch <==> forall|j: int| 0 <= j < i ==> #[trigger] paths[j] != paths[i],
        lookup(paths, i) matches Lookup::Reuse(first) ==> {
            &&& first < i
            &&& paths[first as int] == paths[i]
            &&& forall|j: int| 0 <= j < first ==> #[trigger] paths[j] != paths[i]
        },
{
    lemma_first_use(paths, i);
}

/// Says for each path whether its block locations have to be asked for, or are
/// those of an earlier file: repeated paths are asked for once.
pub fn block_lookups(paths: &Vec<String>) -> (lookups: Vec<Lookup>)
    ensures
        lookups@.len() == paths@.len(),
        forall|i: int| 0 <= i < paths@.len() ==> #[trigger] lookups@[i] == lookup(texts(paths@), i),
        forall|i: int|
            0 <= i < paths@.len() ==> (#[trigger] lookups@[i] is Fetch <==> forall|j: int|
                0 <= j < i ==> #[trigger] paths@[j]@ != paths@[i]@),
        forall|i: int|
            0 <= i < paths@.len() ==> (#[trigger] lookups@[i] matches Lookup::Reuse(first) ==> {
                &&& first < i
                &&& paths@[first as int]@ == paths@[i]@
                &&& forall|j: int| 0 <= j < first ==> #[trigger] paths@[j]@ != paths@[i]@
            }),
{
    let ghost keys = texts(paths@);
    let mut cache: StringHashMap<usize> = StringHashMap::new();
    let mut lookups: Vec<Lookup> = Vec::with_capacity(paths.len());
    let mut i: usize = 0;
    while i < paths.len()
        invariant
            i <= paths@.len(),
            keys == texts(paths@),
            lookups@.len() == i,
            forall|j: int| 0 <= j < i ==> #[trigger] lookups@[j] == lookup(keys, j),
            forall|j: int| 0 <= j < i ==> cache@.contains_key(#[trigger] keys[j]),
            forall|key: Seq<char>| #[trigger]
                cache@.contains_key(key) ==> {
                    &&& cache@[key] < i
                    &&& keys[cache@[key] as int] == key
                    &&& first_use(keys, cache@[key] as int) == cache@[key]
                },
        decreases paths@.len() - i,
    {
        let path: &str = paths[i].as_str();
        proof {
            assert(path@ == keys[i as int]);
            lemma_first_use(keys, i as int);
        }
        let found: Option<usize> = match cache.get(path) {
            Some(first) => Some(*first),
            None => None,
        };
        match found {
            Some(first) => {
                proof {
                    lemma_first_use(keys, first as int);
                }
                lookups.push(Lookup::Reuse(first));
            },
            None => {
                lookups.push(Lookup::Fetch);
                cache.insert(paths[i].clone(), i);
            },
        }
        i += 1;
    }
    proof {
        assert forall|k: int| 0 <= k < paths@.len() implies {
            &&& #[trigger] lookups@[k] is Fetch <==> forall|j: int|
                0 <= j < k ==> #[trigger] paths@[j]@ != paths@[k]@
            &&& lookups@[k] matches Lookup::Reuse(first) ==> {
                &&& first < k
                &&& paths@[first as int]@ == paths@[k]@
                &&& forall|j: int| 0 <= j < first ==> #[trigger] paths@[j]@ != paths@[k]@
            }
        } by {
            law_lookup_is_of_the_first_use(keys, k);
            assert(forall|j: int|
                #![trigger keys[j]]
                #![trigger paths@[j]@]
                0 <= j < keys.len() ==> keys[j] == paths@[j]@);
            assert(lookups@[k] == lookup(keys, k));
        }
    }
    lookups
}

/// No path is asked for twice, and none is left out: of all the positions of a
/// path, exactly one asks, and the others point there.
pub proof fn law_each_path_is_asked_for_once(paths: Seq<Seq<char>>, i: int, j: int)
    requires
        0 <= i < paths.len(),
        0 <= j < paths.len(),
        paths.len() <= usize::MAX,
    ensures
        paths[i] == paths[j] && lookup(paths, i) == Lookup::Fetch && lookup(paths, j)
            == Lookup::Fetch ==> i == j,
        lookup(paths, i) matches Lookup::Reuse(first) ==> {
            &&& 0 <= first < i
            &&& paths[first as int] == paths[i]
            &&& lookup(paths, first as int) == Lookup::Fetch
        },
{
    lemma_first_use(paths, i);
    lemma_first_use(paths, j);
    lemma_first_use(paths, first_use(paths, i));
}

/// The positions of the paths that are asked for.
pub open spec fn asked_for(paths: Seq<Seq<char>>) -> Set<int> {
    Set::new(|i: int| 0 <= i < paths.len() && lookup(paths, i) == Lookup::Fetch)
}

/// The cluster is asked as often as there are different paths.
pub proof fn law_one_question_for_each_path(paths: Seq<Seq<char>>)
    ensures
        asked_for(paths).finite(),
        asked_for(paths).len() == paths.to_set().len(),
{
    let path = |i: int| paths[i];
    let asked = asked_for(paths);
    vstd::set_lib::lemma_int_range(0, paths.len() as int);
    vstd::set_lib::lemma_len_subset(asked, vstd::set_lib::set_int_range(0, paths.len() as int));
    assert forall|i: int, j: int|
        asked.contains(i) && asked.contains(j) && #[trigger] path(i) == #[trigger] path(j) implies i
        == j by {
        lemma_first_use(paths, i);
        lemma_first_use(paths, j);
    }
    assert forall|text: Seq<char>| #[trigger]
        paths.to_set().contains(text) implies asked.map(path).contains(text) by {
        let i = choose|i: int| 0 <= i < paths.len() && paths[i] == text;
        lemma_first_use(paths, i);
        let first = first_use(paths, i);
        lemma_first_use(paths, first);
        assert(asked.contains(first) && path(first) == text);
    }
    assert(asked.map(path) =~= paths.to_set());
    vstd::set_lib::lemma_map_size(asked, paths.to_set(), path);
}

} // verus!
