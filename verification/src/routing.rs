use vstd::prelude::*;
use vstd::string::StringExecFns;

verus! {

/// Position of `path` among `paths`, if it is there.
pub open spec fn index_of(paths: Seq<Seq<char>>, path: Seq<char>) -> Option<int> {
    if exists|i: int| 0 <= i < paths.len() && #[trigger] paths[i] == path {
        Some(choose|i: int| 0 <= i < paths.len() && #[trigger] paths[i] == path)
    } else {
        None
    }
}

/// The endpoint that answers `path`: the one registered for `path`, else the
/// one registered for `"*"`, else none.
pub open spec fn route(paths: Seq<Seq<char>>, path: Seq<char>) -> Option<int> {
    match index_of(paths, path) {
        Some(i) => Some(i),
        None => index_of(paths, "*"@),
    }
}

/// The text of each path.
pub open spec fn path_texts(paths: Seq<String>) -> Seq<Seq<char>> {
    paths.map_values(|p: String| p@)
}

/// No path appears twice.
pub open spec fn distinct_paths(paths: Seq<Seq<char>>) -> bool {
    forall|i: int, j: int|
        0 <= i < j < paths.len() ==> #[trigger] paths[i] != #[trigger] paths[j]
}

/// The paths that endpoints are registered for, each once, numbered in the
/// order of their first registration.
pub struct EndpointTable {
    paths: Vec<String>,
}

/// Among distinct paths, a path has only one position.
pub proof fn lemma_index_of_distinct(paths: Seq<Seq<char>>, i: int)
    requires
        distinct_paths(paths),
        0 <= i < paths.len(),
    ensures
        index_of(paths, paths[i]) == Some(i),
{
    let j = choose|j: int| 0 <= j < paths.len() && #[trigger] paths[j] == paths[i];
    if j != i {
        if j < i {
            assert(paths[j] != paths[i]);
        } else {
            assert(paths[i] != paths[j]);
        }
    }
}

/// A registered path is answered by its own endpoint.
pub proof fn lemma_route_registered(paths: Seq<Seq<char>>, i: int)
    requires
        distinct_paths(paths),
        0 <= i < paths.len(),
    ensures
        route(paths, paths[i]) == Some(i),
{
    lemma_index_of_distinct(paths, i);
}

/// A path that is not registered is answered by the endpoint of `"*"` where
/// there is one, and by none otherwise.
pub proof fn lemma_route_fallback(paths: Seq<Seq<char>>, path: Seq<char>)
    requires
        distinct_paths(paths),
        forall|i: int| 0 <= i < paths.len() ==> #[trigger] paths[i] != path,
    ensures
        route(paths, path) == index_of(paths, "*"@),
{
}

impl EndpointTable {
    /// The registered paths, by number.
    pub closed spec fn spec_paths(&self) -> Seq<Seq<char>> {
        path_texts(self.paths@)
    }

    #[verifier::type_invariant]
    closed spec fn paths_distinct(self) -> bool {
        distinct_paths(path_texts(self.paths@))
    }

    /// A table with no endpoint.
    pub fn new() -> (res: EndpointTable)
        ensures
            res.spec_paths() == Seq::<Seq<char>>::empty(),
    {
        let res = EndpointTable { paths: Vec::new() };
        assert(res.spec_paths() =~= Seq::<Seq<char>>::empty());
        res
    }

    /// Number of registered paths.
    pub fn len(&self) -> (res: usize)
        ensures
            res == self.spec_paths().len(),
    {
        self.paths.len()
    }

    /// The number of `path`, if it is registered.
    pub fn find(&self, path: &str) -> (res: Option<usize>)
        ensures
            match index_of(self.spec_paths(), path@) {
                Some(i) => res matches Some(r) && r == i,
                None => res is None,
            },
    {
        proof {
            use_type_invariant(self);
        }
        let wanted = String::from_str(path);
        let mut i: usize = 0;
        while i < self.paths.len()
            invariant
                i <= self.paths.len(),
                wanted@ == path@,
                distinct_paths(self.spec_paths()),
                forall|k: int| 0 <= k < i ==> #[trigger] self.spec_paths()[k] != path@,
            decreases self.paths.len() - i,
        {
            if self.paths[i] == wanted {
                proof {
                    lemma_index_of_distinct(self.spec_paths(), i as int);
                }
                return Some(i);
            }
            i += 1;
        }
        None
    }

    /// Registers `path` and gives its number: the number it has where it was
    /// registered before, else the next number.
    pub fn add(&mut self, path: &str) -> (res: usize)
        ensures
            index_of(old(self).spec_paths(), path@) matches Some(i) ==> res == i,
            index_of(old(self).spec_paths(), path@) is Some ==> final(self).spec_paths() == old(self).spec_paths(),
            index_of(old(self).spec_paths(), path@) is None ==> res == old(self).spec_paths().len(),
            index_of(old(self).spec_paths(), path@) is None ==> final(self).spec_paths() == old(self).spec_paths().push(path@),
    {
        match self.find(path) {
            Some(i) => {
                assert(self.spec_paths() == old(self).spec_paths());
                i
            },
            None => {
                proof {
                    use_type_invariant(&*self);
                }
                assert(index_of(old(self).spec_paths(), path@) is None);
                let ghost before = self.spec_paths();
                let n = self.paths.len();
                let mut paths: Vec<String> = Vec::new();
                std::mem::swap(&mut paths, &mut self.paths);
                paths.push(String::from_str(path));
                assert(path_texts(paths@) =~= before.push(path@));
                assert forall|i: int, j: int| 0 <= i < j < before.len() + 1 implies
                    #[trigger] before.push(path@)[i] != #[trigger] before.push(path@)[j] by {
                    if j == before.len() {
                        assert(before.push(path@)[i] == before[i]);
                    }
                }
                std::mem::swap(&mut paths, &mut self.paths);
                assert(self.spec_paths() =~= before.push(path@));
                n
            },
        }
    }

    /// The number of the endpoint that answers `path`: the one registered for
    /// `path`, else the one for `"*"`, else none.
    pub fn resolve(&self, path: &str) -> (res: Option<usize>)
        ensures
            match route(self.spec_paths(), path@) {
                Some(i) => res matches Some(r) && r == i,
                None => res is None,
            },
    {
        match self.find(path) {
            Some(i) => Some(i),
            None => self.find("*"),
        }
    }

    /// The registered paths, by number.
    pub fn paths(&self) -> (res: &Vec<String>)
        ensures
            path_texts(res@) == self.spec_paths(),
    {
        &self.paths
    }

    /// A table with the same paths.
    pub fn duplicate(&self) -> (res: EndpointTable)
        ensures
            res.spec_paths() == self.spec_paths(),
    {
        proof {
            use_type_invariant(self);
        }
        let mut paths: Vec<String> = Vec::new();
        let mut i: usize = 0;
        while i < self.paths.len()
            invariant
                i <= self.paths.len(),
                paths@.len() == i,
                path_texts(paths@) == self.spec_paths().take(i as int),
            decreases self.paths.len() - i,
        {
            let ghost before = paths@;
            let path = self.paths[i].clone();
            assert(path@ == self.spec_paths()[i as int]);
            paths.push(path);
            assert(paths@ == before.push(path));
            assert forall|k: int| 0 <= k < i + 1 implies #[trigger] path_texts(paths@)[k]
                == self.spec_paths().take(i + 1)[k] by {
                assert(path_texts(paths@)[k] == paths@[k]@);
                if k < i {
                    assert(paths@[k] == before[k]);
                    assert(path_texts(before)[k] == before[k]@);
                    assert(path_texts(before)[k] == self.spec_paths().take(i as int)[k]);
                }
            }
            assert(path_texts(paths@) =~= self.spec_paths().take(i + 1));
            i += 1;
        }
        assert(self.spec_paths().take(i as int) =~= self.spec_paths());
        EndpointTable { paths }
    }
}


} // verus!
