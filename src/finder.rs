//! Resolving a requested name into the existing programs it may stand for.
use crate::extension::{has_executable_extension, Expansion, expand_all, expand_one};
use crate::filter::{filter_valid, kept};
use crate::path::{
    component_count, has_separator, is_absolute, joined, split_list, split_on, to_absolute, views,
    join,
};
use vstd::prelude::*;

verus! {

/// Decides whether a path is a valid, runnable target.
pub trait Checker {
    fn is_valid(&self, path: &str) -> bool;
}

/// The one failure of a lookup: a bare name was given but no search list.
#[derive(Debug, Clone, Copy, PartialEq, Eq, Structural)]
pub enum Error {
    CannotFindBinaryPath,
}

/// The characters of an optional string.
pub open spec fn opt_view(s: Option<&str>) -> Option<Seq<char>> {
    match s {
        Some(x) => Some(x@),
        None => None,
    }
}

/// One candidate per search-list directory, in list order: the directory joined
/// with the name.
pub open spec fn search_list_candidates(name: Seq<char>, dirs: Seq<Seq<char>>) -> Seq<Seq<char>> {
    dirs.map_values(|d: Seq<char>| joined(d, name))
}

/// The candidates before expansion: for a name with more than one component, the
/// name resolved against `cwd`; for a bare name, one per entry of the search list
/// split at `delim`; none (`None`) for a bare name without a search list.
pub open spec fn raw_candidates(
    name: Seq<char>,
    paths: Option<Seq<char>>,
    cwd: Seq<char>,
    delim: char,
) -> Option<Seq<Seq<char>>> {
    if component_count(name) > 1 {
        Some(seq![joined(cwd, name)])
    } else {
        match paths {
            Some(p) => Some(search_list_candidates(name, split_on(p, delim))),
            None => None,
        }
    }
}

/// A name with more than one component gives exactly one candidate before
/// expansion: the name itself when absolute, else the working directory joined
/// with it.
pub proof fn path_name_gives_one_candidate(
    name: Seq<char>,
    paths: Option<Seq<char>>,
    cwd: Seq<char>,
    delim: char,
)
    requires
        component_count(name) > 1,
    ensures
        raw_candidates(name, paths, cwd, delim) == Some(
            seq![
                if is_absolute(name) {
                    name
                } else {
                    joined(cwd, name)
                },
            ],
        ),
{
}

/// A bare name and a search list of `n` directories give exactly `n` candidates
/// before expansion, the `i`-th being the `i`-th directory joined with the name.
pub proof fn bare_name_gives_one_candidate_per_directory(
    name: Seq<char>,
    list: Seq<char>,
    cwd: Seq<char>,
    delim: char,
)
    requires
        component_count(name) <= 1,
    ensures
        raw_candidates(name, Some(list), cwd, delim) matches Some(c) && c.len() == split_on(
            list,
            delim,
        ).len() && forall|i: int|
            0 <= i < c.len() ==> #[trigger] c[i] == joined(split_on(list, delim)[i], name),
{
}

/// A bare name without a search list gives no candidates: the lookup is refused.
pub proof fn bare_name_without_search_list_is_refused(
    name: Seq<char>,
    cwd: Seq<char>,
    delim: char,
)
    requires
        component_count(name) <= 1,
    ensures
        raw_candidates(name, None, cwd, delim) == None::<Seq<Seq<char>>>,
{
}

/// Finds programs the way a shell does.
pub struct Finder {
    /// The character between the directories of a search list.
    pub list_delimiter: char,
    /// How candidates are expanded with executable suffixes.
    pub expansion: Expansion,
}

impl Finder {
    /// The candidates, after expansion, that a lookup of `name` considers.
    pub open spec fn expanded_candidates(
        &self,
        name: Seq<char>,
        paths: Option<Seq<char>>,
        cwd: Seq<char>,
    ) -> Option<Seq<Seq<char>>> {
        match raw_candidates(name, paths, cwd, self.list_delimiter) {
            Some(c) => Some(self.expansion.expand(c)),
            None => None,
        }
    }

    /// A finder for platforms where runnability does not depend on a suffix:
    /// search lists are separated by `:` and candidates are not expanded.
    pub fn new() -> (r: Finder)
        ensures
            r.list_delimiter == ':',
            r.expansion == Expansion::Unchanged,
    {
        Finder { list_delimiter: ':', expansion: Expansion::Unchanged }
    }

    /// A finder for platforms where a program must carry one of the suffixes of
    /// `table`.
    pub fn with_extensions(list_delimiter: char, table: Vec<String>) -> (r: Finder)
        ensures
            r.list_delimiter == list_delimiter,
            r.expansion == Expansion::Suffixes(table),
    {
        Finder { list_delimiter, expansion: Expansion::Suffixes(table) }
    }

    /// Expands each candidate in turn with this finder's executable suffixes.
    pub fn append_extension(&self, paths: Vec<String>) -> (r: Vec<String>)
        ensures
            views(r@) == self.expansion.expand(views(paths@)),
    {
        match &self.expansion {
            Expansion::Unchanged => paths,
            Expansion::Suffixes(table) => {
                let ghost t = views(table@);
                let mut out: Vec<String> = Vec::new();
                let mut i: usize = 0;
                assert(views(out@) =~= Seq::<Seq<char>>::empty());
                assert(views(paths@).subrange(0, 0) =~= Seq::<Seq<char>>::empty());
                while i < paths.len()
                    invariant
                        i <= paths@.len(),
                        t == views(table@),
                        views(out@) == expand_all(views(paths@).subrange(0, i as int), t),
                    decreases paths@.len() - i,
                {
                    let p = &paths[i];
                    let ghost before = views(out@);
                    assert(views(paths@).subrange(0, i as int + 1).drop_last() == views(
                        paths@,
                    ).subrange(0, i as int));
                    assert(views(paths@)[i as int] == p@);
                    if has_executable_extension(p.as_str(), table) {
                        out.push(p.clone());
                        assert(views(out@) =~= before + expand_one(p@, t));
                    } else {
                        let mut k: usize = 0;
                        assert(views(out@) =~= before + t.subrange(0, 0).map_values(
                            |e: Seq<char>| p@ + e,
                        ));
                        while k < table.len()
                            invariant
                                k <= table@.len(),
                                t == views(table@),
                                views(out@) == before + t.subrange(0, k as int).map_values(
                                    |e: Seq<char>| p@ + e,
                                ),
                            decreases table@.len() - k,
                        {
                            let mut q = p.clone();
                            q.append(table[k].as_str());
                            let ghost mid = views(out@);
                            out.push(q);
                            assert(views(out@) =~= mid.push(q@));
                            assert(t.subrange(0, k as int + 1).map_values(|e: Seq<char>| p@ + e)
                                =~= t.subrange(0, k as int).map_values(|e: Seq<char>| p@ + e).push(
                                p@ + t[k as int],
                            ));
                            k = k + 1;
                        }
                        assert(t.subrange(0, k as int) == t);
                    }
                    i = i + 1;
                }
                assert(views(paths@).subrange(0, i as int) == views(paths@));
                out
            },
        }
    }

    /// The candidates for a name that holds a separator: the name resolved
    /// against `cwd`, then expanded.
    pub fn cwd_search_candidates(&self, binary_name: &str, cwd: &str) -> (r: Vec<String>)
        ensures
            views(r@) == self.expansion.expand(seq![joined(cwd@, binary_name@)]),
    {
        let path = to_absolute(binary_name, cwd);
        let mut one: Vec<String> = Vec::new();
        one.push(path);
        assert(views(one@) =~= seq![joined(cwd@, binary_name@)]);
        self.append_extension(one)
    }

    /// The candidates for a bare name: each directory of `paths` joined with the
    /// name, in order, then expanded.
    pub fn path_search_candidates(&self, binary_name: &str, paths: &Vec<String>) -> (r: Vec<
        String,
    >)
        ensures
            views(r@) == self.expansion.expand(
                search_list_candidates(binary_name@, views(paths@)),
            ),
    {
        let mut joined_paths: Vec<String> = Vec::new();
        let mut i: usize = 0;
        while i < paths.len()
            invariant
                i <= paths@.len(),
                views(joined_paths@) =~= search_list_candidates(
                    binary_name@,
                    views(paths@).subrange(0, i as int),
                ),
            decreases paths@.len() - i,
        {
            let ghost before = views(joined_paths@);
            let q = join(paths[i].as_str(), binary_name);
            joined_paths.push(q);
            assert(views(joined_paths@) =~= before.push(q@));
            i = i + 1;
        }
        assert(views(paths@).subrange(0, i as int) == views(paths@));
        self.append_extension(joined_paths)
    }

    /// The candidates, in priority order, that a lookup of `binary_name`
    /// considers; fails when the name is bare and no search list is given.
    pub fn candidates(&self, binary_name: &str, paths: Option<&str>, cwd: &str) -> (r: Result<
        Vec<String>,
        Error,
    >)
        ensures
            match self.expanded_candidates(binary_name@, opt_view(paths), cwd@) {
                Some(c) => match r {
                    Ok(v) => views(v@) == c,
                    Err(_) => false,
                },
                None => r == Err::<Vec<String>, Error>(Error::CannotFindBinaryPath),
            },
    {
        if has_separator(binary_name) {
            Ok(self.cwd_search_candidates(binary_name, cwd))
        } else {
            match paths {
                Some(p) => {
                    let dirs = split_list(p, self.list_delimiter);
                    Ok(self.path_search_candidates(binary_name, &dirs))
                },
                None => Err(Error::CannotFindBinaryPath),
            }
        }
    }

    /// Looks `binary_name` up and keeps, in priority order, the candidates that
    /// `binary_checker` accepts; fails when the name is bare and no search list
    /// is given.
    pub fn find<C: Checker>(
        &self,
        binary_name: &str,
        paths: Option<&str>,
        cwd: &str,
        binary_checker: C,
    ) -> (r: Result<Vec<String>, Error>)
        ensures
            match self.expanded_candidates(binary_name@, opt_view(paths), cwd@) {
                Some(c) => match r {
                    Ok(v) => exists|verdicts: Seq<bool>|
                        verdicts.len() == c.len() && views(v@) == kept(c, verdicts),
                    Err(_) => false,
                },
                None => r == Err::<Vec<String>, Error>(Error::CannotFindBinaryPath),
            },
    {
        let cands = match self.candidates(binary_name, paths, cwd) {
            Ok(c) => c,
            Err(e) => {
                return Err(e);
            },
        };
        let mut verdicts: Vec<bool> = Vec::new();
        let mut i: usize = 0;
        while i < cands.len()
            invariant
                i <= cands@.len(),
                verdicts@.len() == i,
            decreases cands@.len() - i,
        {
            let ok = binary_checker.is_valid(cands[i].as_str());
            verdicts.push(ok);
            i = i + 1;
        }
        let found = filter_valid(&cands, &verdicts);
        assert(verdicts@.len() == views(cands@).len());
        Ok(found)
    }
}

} // verus!
