//! The search for the workspaces that a linter's files belong to: the
//! directories to look from, and what each answer does to them.
use vstd::prelude::*;
use indexmap::IndexSet;
use crate::path::RelPath;
use crate::path_set::paths_view;
use crate::step::LinterStep;
use crate::indexed::{path_set_items, new_path_set, insert_path, reverse_path_set};

verus! {

/// Whether `d` lies in `base` (or is `base`), component by component.
pub open spec fn is_under(d: Seq<Seq<char>>, base: Seq<Seq<char>>) -> bool {
    base.len() <= d.len() && d.take(base.len() as int) == base
}

/// The directories of `dirs` that do not lie in `base`, in order.
pub open spec fn dirs_not_under(dirs: Seq<Seq<Seq<char>>>, base: Seq<Seq<char>>) -> Seq<Seq<Seq<char>>>
    decreases dirs.len(),
{
    if dirs.len() == 0 {
        Seq::empty()
    } else {
        let rest = dirs_not_under(dirs.drop_last(), base);
        if is_under(dirs.last(), base) {
            rest
        } else {
            rest.push(dirs.last())
        }
    }
}

/// The directories that hold the given files, in order; a path without
/// any component has no directory and is left out.
pub open spec fn parent_dirs(files: Seq<Seq<Seq<char>>>) -> Seq<Seq<Seq<char>>>
    decreases files.len(),
{
    if files.len() == 0 {
        Seq::empty()
    } else {
        let rest = parent_dirs(files.drop_last());
        if files.last().len() == 0 {
            rest
        } else {
            rest.push(files.last().drop_last())
        }
    }
}

/// A search for the workspaces of some files: the directories still to
/// look up from (the last one next), the file that marks a workspace, and
/// the workspaces found so far, in the order they were found.
pub struct WorkspaceSearch {
    indicator: String,
    dirs: Vec<RelPath>,
    workspaces: IndexSet<RelPath>,
}

impl WorkspaceSearch {
    pub closed spec fn indicator_view(self) -> Seq<char> {
        self.indicator@
    }

    pub closed spec fn pending(self) -> Seq<Seq<Seq<char>>> {
        paths_view(self.dirs@)
    }

    pub closed spec fn found_so_far(self) -> Seq<Seq<Seq<char>>> {
        path_set_items(self.workspaces)
    }

    /// The file that marks a workspace.
    pub fn indicator(&self) -> (res: &str)
        ensures
            res@ == self.indicator_view(),
    {
        self.indicator.as_str()
    }

    /// The next directory to look up from, taken off the list; `None` when
    /// the search is over. The caller looks for the indicator file there
    /// and in each directory above, and reports the first it finds with
    /// `found`.
    pub fn next_dir(&mut self) -> (res: Option<RelPath>)
        ensures
            final(self).indicator_view() == old(self).indicator_view(),
            final(self).found_so_far() == old(self).found_so_far(),
            old(self).pending().len() == 0 ==> (res is None && final(self).pending() == old(self).pending()),
            old(self).pending().len() > 0 ==> (res matches Some(d)
                && d@ == old(self).pending().last()
                && final(self).pending() == old(self).pending().drop_last()),
    {
        let ghost before = self.dirs@;
        let res = self.dirs.pop();
        proof {
            if before.len() > 0 {
                assert(paths_view(self.dirs@) =~= paths_view(before).drop_last());
            }
        }
        res
    }

    /// Takes in the answer for `dir`: the indicator file found from it, if
    /// any. A found workspace is kept, and the directories that lie in
    /// the parent of `dir` need no search of their own any more.
    pub fn found(&mut self, dir: &RelPath, workspace: Option<RelPath>)
        ensures
            final(self).indicator_view() == old(self).indicator_view(),
            workspace is None ==> (final(self).pending() == old(self).pending()
                && final(self).found_so_far() == old(self).found_so_far()),
            workspace matches Some(w) ==> ({
                &&& final(self).found_so_far() == (if old(self).found_so_far().contains(w@) {
                    old(self).found_so_far()
                } else {
                    old(self).found_so_far().push(w@)
                })
                &&& final(self).pending() == (if dir@.len() > 0 {
                    dirs_not_under(old(self).pending(), dir@.drop_last())
                } else {
                    old(self).pending()
                })
            }),
    {
        if let Some(w) = workspace {
            if let Some(base) = dir.parent() {
                let mut kept: Vec<RelPath> = Vec::new();
                let n = self.dirs.len();
                let mut i: usize = 0;
                let ghost all = paths_view(self.dirs@);
                while i < n
                    invariant
                        n == self.dirs@.len(),
                        all == paths_view(self.dirs@),
                        i <= n,
                        paths_view(kept@) == dirs_not_under(all.take(i as int), base@),
                    decreases n - i,
                {
                    proof {
                        assert(all.take(i + 1).drop_last() =~= all.take(i as int));
                        assert(all.take(i + 1).last() == self.dirs@[i as int]@);
                    }
                    if !self.dirs[i].starts_with(&base) {
                        let ghost prev = kept@;
                        kept.push(self.dirs[i].duplicate());
                        assert(paths_view(kept@) =~= paths_view(prev).push(self.dirs@[i as int]@));
                    }
                    i = i + 1;
                }
                assert(all.take(n as int) =~= all);
                self.dirs = kept;
            }
            insert_path(&mut self.workspaces, w);
        }
    }

    /// The workspaces found, in file order: the search looks up from the
    /// last file's directory first, so the workspaces come out in the
    /// opposite order to the one they were found in.
    pub fn into_workspaces(self) -> (res: IndexSet<RelPath>)
        ensures
            path_set_items(res) == self.found_so_far().reverse(),
    {
        let mut ws = self.workspaces;
        reverse_path_set(&mut ws);
        ws
    }
}

impl LinterStep {
    /// Starts the search for the workspaces of `files`: `None` when the
    /// linter names no workspace indicator; otherwise a search that looks
    /// up from the directory of each file (the last file's first).
    pub fn workspaces_for_files(&self, files: &[RelPath]) -> (res: Option<WorkspaceSearch>)
        ensures
            self.workspace_indicator is None ==> res is None,
            self.workspace_indicator matches Some(ind) ==> (res matches Some(search)
                && search.indicator_view() == ind@
                && search.pending() == parent_dirs(paths_view(files@))
                && search.found_so_far() == Seq::<Seq<Seq<char>>>::empty()
                && (forall|i: int| 0 <= i < files@.len() && files@[i]@.len() > 0
                    ==> search.pending().contains(#[trigger] files@[i]@.drop_last()))
                && (forall|j: int| 0 <= j < search.pending().len()
                    ==> exists|i: int| 0 <= i < files@.len() && files@[i]@.len() > 0
                        && #[trigger] search.pending()[j] == files@[i]@.drop_last())),
    {
        match &self.workspace_indicator {
            None => None,
            Some(ind) => {
                let mut dirs: Vec<RelPath> = Vec::new();
                let n = files.len();
                let mut i: usize = 0;
                let ghost all = paths_view(files@);
                while i < n
                    invariant
                        n == files@.len(),
                        all == paths_view(files@),
                        i <= n,
                        paths_view(dirs@) == parent_dirs(all.take(i as int)),
                    decreases n - i,
                {
                    proof {
                        assert(all.take(i + 1).drop_last() =~= all.take(i as int));
                        assert(all.take(i + 1).last() == files@[i as int]@);
                    }
                    if let Some(p) = files[i].parent() {
                        let ghost prev = dirs@;
                        dirs.push(p);
                        assert(paths_view(dirs@) =~= paths_view(prev).push(files@[i as int]@.drop_last()));
                    }
                    i = i + 1;
                }
                assert(all.take(n as int) =~= all);
                proof {
                    lemma_parent_dirs(all);
                    assert forall|i: int| 0 <= i < files@.len() && files@[i]@.len() > 0
                        implies parent_dirs(all).contains(#[trigger] files@[i]@.drop_last()) by {
                        assert(all[i] == files@[i]@);
                    }
                    assert forall|j: int| 0 <= j < parent_dirs(all).len()
                        implies exists|i: int| 0 <= i < files@.len() && files@[i]@.len() > 0
                            && #[trigger] parent_dirs(all)[j] == files@[i]@.drop_last() by {
                        let i = choose|i: int| 0 <= i < all.len() && all[i].len() > 0 && parent_dirs(all)[j] == all[i].drop_last();
                        assert(all[i] == files@[i]@);
                    }
                }
                Some(WorkspaceSearch { indicator: ind.clone(), dirs, workspaces: new_path_set() })
            },
        }
    }
}

/// The directories to search are exactly the parents of the files that
/// have a component: every such file puts its parent (the empty path, the
/// root, for a file at the root) on the list, and nothing else is there.
pub proof fn lemma_parent_dirs(files: Seq<Seq<Seq<char>>>)
    ensures
        forall|i: int| 0 <= i < files.len() && files[i].len() > 0
            ==> parent_dirs(files).contains(#[trigger] files[i].drop_last()),
        forall|j: int| 0 <= j < parent_dirs(files).len()
            ==> exists|i: int| 0 <= i < files.len() && files[i].len() > 0
                && #[trigger] parent_dirs(files)[j] == files[i].drop_last(),
        parent_dirs(files).len() <= files.len(),
    decreases files.len(),
{
    if files.len() > 0 {
        let init = files.drop_last();
        lemma_parent_dirs(init);
        let rest = parent_dirs(init);
        let last = files.len() - 1;
        assert forall|i: int| 0 <= i < files.len() && files[i].len() > 0
            implies parent_dirs(files).contains(#[trigger] files[i].drop_last()) by {
            if i < last {
                assert(init[i] == files[i]);
                assert(rest.contains(init[i].drop_last()));
                let k = choose|k: int| 0 <= k < rest.len() && rest[k] == init[i].drop_last();
                if files.last().len() > 0 {
                    assert(parent_dirs(files)[k] == rest[k]);
                }
            } else {
                assert(parent_dirs(files)[rest.len() as int] == files[i].drop_last());
            }
        }
        assert forall|j: int| 0 <= j < parent_dirs(files).len()
            implies exists|i: int| 0 <= i < files.len() && files[i].len() > 0
                && #[trigger] parent_dirs(files)[j] == files[i].drop_last() by {
            if j < rest.len() {
                assert(parent_dirs(files)[j] == rest[j]);
                let i = choose|i: int| 0 <= i < init.len() && init[i].len() > 0 && rest[j] == init[i].drop_last();
                assert(files[i] == init[i]);
            } else {
                assert(parent_dirs(files)[j] == files[last].drop_last());
            }
        }
    }
}

/// After a workspace is found from `dir`, no directory left to search lies
/// in the parent of `dir`, and every directory left was there before.
pub proof fn lemma_found_prunes(dirs: Seq<Seq<Seq<char>>>, base: Seq<Seq<char>>)
    ensures
        forall|i: int| 0 <= i < dirs_not_under(dirs, base).len() ==> !is_under(#[trigger] dirs_not_under(dirs, base)[i], base),
        forall|i: int| 0 <= i < dirs_not_under(dirs, base).len() ==> dirs.contains(#[trigger] dirs_not_under(dirs, base)[i]),
        dirs_not_under(dirs, base).len() <= dirs.len(),
    decreases dirs.len(),
{
    if dirs.len() > 0 {
        lemma_found_prunes(dirs.drop_last(), base);
        let rest = dirs_not_under(dirs.drop_last(), base);
        assert forall|i: int| 0 <= i < dirs_not_under(dirs, base).len() implies dirs.contains(#[trigger] dirs_not_under(dirs, base)[i]) by {
            if i < rest.len() {
                assert(dirs_not_under(dirs, base)[i] == rest[i]);
                let k = choose|k: int| 0 <= k < dirs.drop_last().len() && dirs.drop_last()[k] == rest[i];
                assert(dirs[k] == rest[i]);
            } else {
                assert(dirs[dirs.len() - 1] == dirs.last());
            }
        }
    }
}

} // verus!
