//! The repository-side logic of `hk`: the protocol that puts unstaged
//! changes aside before hooks run and brings them back afterwards, the
//! patch that holds them, and the file lists that git reports.
use vstd::prelude::*;
use crate::path::RelPath;
use crate::path_set::{PathSet, paths_view};
use crate::text::{decimal_string, decimal_text, lemma_decimal_digits, remove_all, without_all};

verus! {

// ---------------------------------------------------------------- patch file

#[verifier::external_type_specification]
#[verifier::external_body]
pub struct ExRandomError(getrandom::Error);

/// `getrandom::u32`: a random number from the system, or the error that
/// kept the system from giving one. Nothing is stated of the number.
#[verifier::external_body]
fn random_u32() -> (res: Result<u32, getrandom::Error>) {
    getrandom::u32()
}

/// The first eight characters of `s` (all of it when it is shorter).
pub open spec fn first_eight(s: Seq<char>) -> Seq<char> {
    if s.len() <= 8 {
        s
    } else {
        s.take(8)
    }
}

/// The name of the patch file for a repository whose directory's parent
/// is called `dir_name`, tagged with the random number `tag`:
/// `<dir_name>-<first eight digits of tag>.patch`.
pub open spec fn patch_name(dir_name: Seq<char>, tag: u32) -> Seq<char> {
    dir_name + seq!['-'] + first_eight(decimal_text(tag as nat)) + seq!['.', 'p', 'a', 't', 'c', 'h']
}

/// The patch file name for `dir_name` and the tag `tag`.
pub fn patch_file_name(dir_name: &str, tag: u32) -> (res: String)
    ensures
        res@ == patch_name(dir_name@, tag),
{
    let digits = decimal_string(tag as u64);
    let ds = digits.as_str();
    let n = ds.unicode_len();
    let short = if n <= 8 { ds } else { ds.substring_char(0, 8) };
    let mut out = String::new();
    out.append(dir_name);
    out.append("-");
    out.append(short);
    out.append(".patch");
    proof {
        reveal_strlit("-");
        reveal_strlit(".patch");
        assert(short@ == first_eight(decimal_text(tag as nat)));
        assert(out@ =~= patch_name(dir_name@, tag));
    }
    out
}

/// A patch file name is the directory name, a dash, one to eight decimal
/// digits and `.patch`.
pub proof fn lemma_patch_name_shape(dir_name: Seq<char>, tag: u32)
    ensures
        ({
            let name = patch_name(dir_name, tag);
            let digits = first_eight(decimal_text(tag as nat));
            &&& name == dir_name + seq!['-'] + digits + seq!['.', 'p', 'a', 't', 'c', 'h']
            &&& 1 <= digits.len() <= 8
            &&& forall|i: int| 0 <= i < digits.len() ==> '0' <= #[trigger] digits[i] <= '9'
        }),
{
    lemma_decimal_digits(tag as nat);
    let d = decimal_text(tag as nat);
    assert forall|i: int| 0 <= i < first_eight(d).len() implies '0' <= #[trigger] first_eight(d)[i] <= '9' by {
        assert(first_eight(d)[i] == d[i]);
    }
}

/// A fresh patch file name for `dir_name`, tagged with a random number
/// (zero when the system gives none).
pub fn new_patch_file_name(dir_name: &str) -> (res: String)
    ensures
        exists|tag: u32| res@ == patch_name(dir_name@, tag),
{
    let tag = match random_u32() {
        Ok(t) => t,
        Err(_) => 0,
    };
    patch_file_name(dir_name, tag)
}

/// The name of a repository's patch file: made once, on first use, and
/// the same for the rest of the repository's life.
pub struct PatchFileName {
    name: Option<String>,
}

impl PatchFileName {
    /// The name made so far, if any.
    pub closed spec fn chosen(self) -> Option<Seq<char>> {
        match self.name {
            Some(n) => Some(n@),
            None => None,
        }
    }

    /// No name made yet.
    pub fn new() -> (res: PatchFileName)
        ensures
            res.chosen() is None,
    {
        PatchFileName { name: None }
    }

    /// The patch file name: the one made before, or else a fresh one for
    /// `dir_name`, which is kept from then on.
    pub fn get(&mut self, dir_name: &str) -> (res: String)
        ensures
            old(self).chosen() matches Some(n) ==> (res@ == n && final(self).chosen() == old(self).chosen()),
            old(self).chosen() is None ==> ((exists|tag: u32| res@ == patch_name(dir_name@, tag))
                && final(self).chosen() == Some(res@)),
    {
        match &self.name {
            Some(n) => n.clone(),
            None => {
                let n = new_patch_file_name(dir_name);
                self.name = Some(n.clone());
                n
            },
        }
    }
}

/// The name of the directory that holds the work tree `root`: the name
/// that patch files are called after. `None` when `root` has fewer than
/// two components.
pub fn repo_dir_name(root: &RelPath) -> (res: Option<String>)
    ensures
        root@.len() >= 2 ==> (res matches Some(n) && n@ == root@[root@.len() - 2]),
        root@.len() < 2 ==> res is None,
{
    match root.parent() {
        Some(p) => p.file_name(),
        None => None,
    }
}

// ----------------------------------------------------------------- diff text

/// The bytes a printed diff line adds to a patch: its origin marker when
/// it is `+`, `-` or a space, then its content.
pub open spec fn line_bytes(origin: char, content: Seq<u8>) -> Seq<u8> {
    if origin == '+' {
        seq![43u8] + content
    } else if origin == '-' {
        seq![45u8] + content
    } else if origin == ' ' {
        seq![32u8] + content
    } else {
        content
    }
}

/// What `String::from_utf8_lossy` makes of some bytes.
pub uninterp spec fn lossy_text(bytes: Seq<u8>) -> Seq<char>;

/// `String::from_utf8_lossy`, made an owned string: the bytes read as
/// UTF-8, each invalid sequence replaced by U+FFFD; so some bytes never
/// give an empty text.
#[verifier::external_body]
fn utf8_lossy(bytes: &[u8]) -> (res: String)
    ensures
        res@ == lossy_text(bytes@),
        bytes@.len() > 0 ==> res@.len() > 0,
{
    String::from_utf8_lossy(bytes).into_owned()
}

/// The text of a patch as a diff prints it, line by line.
pub struct DiffText {
    bytes: Vec<u8>,
}

impl View for DiffText {
    type V = Seq<u8>;

    closed spec fn view(&self) -> Seq<u8> {
        self.bytes@
    }
}

impl DiffText {
    /// No line yet.
    pub fn new() -> (res: DiffText)
        ensures
            res@ == Seq::<u8>::empty(),
    {
        DiffText { bytes: Vec::new() }
    }

    /// Adds one printed line.
    pub fn push_line(&mut self, origin: char, content: &[u8])
        ensures
            final(self)@ == old(self)@ + line_bytes(origin, content@),
    {
        if origin == '+' {
            self.bytes.push(43u8);
        } else if origin == '-' {
            self.bytes.push(45u8);
        } else if origin == ' ' {
            self.bytes.push(32u8);
        }
        let ghost mid = self.bytes@;
        let n = content.len();
        let mut i: usize = 0;
        while i < n
            invariant
                n == content@.len(),
                i <= n,
                self.bytes@ == mid + content@.take(i as int),
            decreases n - i,
        {
            self.bytes.push(content[i]);
            assert(content@.take(i + 1) =~= content@.take(i as int).push(content@[i as int]));
            i = i + 1;
        }
        assert(content@.take(n as int) =~= content@);
    }

    /// The patch, when there is one to keep: none when the index could not
    /// be written or the diff printed nothing.
    pub fn into_patch(self, index_written: bool) -> (res: Option<String>)
        ensures
            res is None <==> (!index_written || self@.len() == 0),
            res matches Some(p) ==> (p@ == lossy_text(self@) && p@.len() > 0),
    {
        if !index_written || self.bytes.len() == 0 {
            None
        } else {
            Some(utf8_lossy(self.bytes.as_slice()))
        }
    }
}

// ---------------------------------------------------------- stash protocol

/// Unstaged changes put aside: as a patch, or as a git stash entry
/// (the bytes of its object id).
pub enum Stash {
    Patch(String),
    GitStash(Vec<u8>),
}

/// Where the stashing protocol stands.
#[derive(Debug, Clone, Copy, PartialEq, Eq, Structural)]
pub enum StashPhase {
    Idle,
    ListingUnstaged,
    SavingGitStash,
    BuildingPatch,
    WritingPatch,
    CheckingOut,
}

/// How a stashing run ended.
#[derive(Debug, Clone, Copy, PartialEq, Eq, Structural)]
pub enum StashOutcome {
    /// Stashing is off, or the repository has no commit yet.
    Skipped,
    /// There are no unstaged changes.
    NoUnstagedChanges,
    /// Nothing could be put aside.
    NothingStashed,
    /// The unstaged changes are put aside and removed from the work tree.
    Stashed,
}

/// What the repository reported back.
pub enum StashEvent {
    /// The number of unstaged files.
    UnstagedListed(usize),
    /// The id of the saved git stash, or none when there was nothing to save.
    GitStashSaved(Option<Vec<u8>>),
    /// The patch of the unstaged changes, or none when there is none to keep.
    PatchBuilt(Option<String>),
    /// The patch file was written (or the failure was reported).
    PatchFileWritten,
    /// The work tree was reset to the index.
    CheckedOut,
}

/// What the repository is to do next.
pub enum StashAction {
    /// List the unstaged files.
    ListUnstaged,
    /// Save a git stash of the unstaged changes, untracked files included.
    SaveGitStash,
    /// Print the diff from the index to the work tree and write the index.
    BuildPatch,
    /// Write this patch to the patch file.
    WritePatch(String),
    /// Reset the work tree to the index, removing untracked files.
    CheckoutIndex,
    /// The run is over.
    Finish(StashOutcome),
    /// The event does not fit the current phase; nothing changed.
    Ignored,
}

/// What bringing the changes back asks of the repository.
pub enum PopAction {
    /// Nothing was put aside.
    Nothing,
    /// Apply this patch to the work tree.
    ApplyPatch(String),
    /// Pop the newest git stash entry, restoring the index too.
    PopGitStash,
}

/// Whether a run is to stash at all: when forced or enabled, and only in
/// a repository whose head can be read.
pub open spec fn stash_wanted(force: bool, enabled: bool, head_ok: bool) -> bool {
    (force || enabled) && head_ok
}

/// A repository whose head cannot be read is never stashed, whatever
/// `force` and `enabled` say; with a readable head, stashing happens
/// exactly when it is forced or enabled.
pub proof fn lemma_stash_wanted(force: bool, enabled: bool, head_ok: bool)
    ensures
        !head_ok ==> !stash_wanted(force, enabled, head_ok),
        head_ok ==> (stash_wanted(force, enabled, head_ok) <==> (force || enabled)),
        stash_wanted(force, enabled, head_ok) ==> head_ok,
{
}

/// The phase, the stash and the action after `event`.
pub open spec fn after_event(
    phase: StashPhase,
    use_git: bool,
    stash: Option<Stash>,
    event: StashEvent,
) -> (StashPhase, Option<Stash>, StashAction) {
    match (phase, event) {
        (StashPhase::ListingUnstaged, StashEvent::UnstagedListed(n)) => if n == 0 {
            (StashPhase::Idle, stash, StashAction::Finish(StashOutcome::NoUnstagedChanges))
        } else if use_git {
            (StashPhase::SavingGitStash, stash, StashAction::SaveGitStash)
        } else {
            (StashPhase::BuildingPatch, stash, StashAction::BuildPatch)
        },
        (StashPhase::SavingGitStash, StashEvent::GitStashSaved(saved)) => match saved {
            None => (StashPhase::Idle, None, StashAction::Finish(StashOutcome::NothingStashed)),
            Some(id) => (StashPhase::CheckingOut, Some(Stash::GitStash(id)), StashAction::CheckoutIndex),
        },
        (StashPhase::BuildingPatch, StashEvent::PatchBuilt(patch)) => match patch {
            None => (StashPhase::Idle, None, StashAction::Finish(StashOutcome::NothingStashed)),
            Some(p) => (StashPhase::WritingPatch, Some(Stash::Patch(p)), StashAction::WritePatch(p)),
        },
        (StashPhase::WritingPatch, StashEvent::PatchFileWritten) => (
            StashPhase::CheckingOut,
            stash,
            StashAction::CheckoutIndex,
        ),
        (StashPhase::CheckingOut, StashEvent::CheckedOut) => (
            StashPhase::Idle,
            stash,
            StashAction::Finish(StashOutcome::Stashed),
        ),
        _ => (phase, stash, StashAction::Ignored),
    }
}

/// What popping asks for, given the stash.
pub open spec fn pop_action_for(stash: Option<Stash>) -> PopAction {
    match stash {
        None => PopAction::Nothing,
        Some(Stash::Patch(p)) => PopAction::ApplyPatch(p),
        Some(Stash::GitStash(_)) => PopAction::PopGitStash,
    }
}

/// The stashing protocol of one repository: its phase, whether it stashes
/// with git or with a patch, and what it has put aside.
pub struct StashState {
    phase: StashPhase,
    use_git: bool,
    stash: Option<Stash>,
}

impl StashState {
    pub closed spec fn phase(self) -> StashPhase {
        self.phase
    }

    pub closed spec fn uses_git(self) -> bool {
        self.use_git
    }

    pub closed spec fn stash(self) -> Option<Stash> {
        self.stash
    }

    /// Nothing put aside, no run under way.
    pub fn new() -> (res: StashState)
        ensures
            res.phase() == StashPhase::Idle,
            res.stash() is None,
    {
        StashState { phase: StashPhase::Idle, use_git: false, stash: None }
    }

    /// Whether something is put aside.
    pub fn has_stash(&self) -> (res: bool)
        ensures
            res == self.stash() is Some,
    {
        self.stash.is_some()
    }

    /// The current phase.
    pub fn current_phase(&self) -> (res: StashPhase)
        ensures
            res == self.phase(),
    {
        self.phase
    }

    /// Starts a run. `force` stashes even when stashing is not `enabled`;
    /// `use_git` picks a git stash over a patch; `head_ok` says whether
    /// the repository's head can be read (it cannot before the first
    /// commit).
    pub fn begin(&mut self, force: bool, enabled: bool, use_git: bool, head_ok: bool) -> (res: StashAction)
        ensures
            final(self).uses_git() == use_git,
            final(self).stash() == old(self).stash(),
            stash_wanted(force, enabled, head_ok) ==> (final(self).phase() == StashPhase::ListingUnstaged
                && res == StashAction::ListUnstaged),
            !stash_wanted(force, enabled, head_ok) ==> (final(self).phase() == StashPhase::Idle
                && res == StashAction::Finish(StashOutcome::Skipped)),
            !head_ok ==> (final(self).phase() == StashPhase::Idle
                && res == StashAction::Finish(StashOutcome::Skipped)),
            !force && !enabled ==> res == StashAction::Finish(StashOutcome::Skipped),
            head_ok && (force || enabled) ==> res == StashAction::ListUnstaged,
    {
        self.use_git = use_git;
        if (!force && !enabled) || !head_ok {
            self.phase = StashPhase::Idle;
            StashAction::Finish(StashOutcome::Skipped)
        } else {
            self.phase = StashPhase::ListingUnstaged;
            StashAction::ListUnstaged
        }
    }

    /// Takes in what the repository reported and says what to do next.
    pub fn on_event(&mut self, event: StashEvent) -> (res: StashAction)
        ensures
            (final(self).phase(), final(self).stash(), res) == after_event(
                old(self).phase(),
                old(self).uses_git(),
                old(self).stash(),
                event,
            ),
            final(self).uses_git() == old(self).uses_git(),
    {
        match (self.phase, event) {
            (StashPhase::ListingUnstaged, StashEvent::UnstagedListed(n)) => {
                if n == 0 {
                    self.phase = StashPhase::Idle;
                    StashAction::Finish(StashOutcome::NoUnstagedChanges)
                } else if self.use_git {
                    self.phase = StashPhase::SavingGitStash;
                    StashAction::SaveGitStash
                } else {
                    self.phase = StashPhase::BuildingPatch;
                    StashAction::BuildPatch
                }
            },
            (StashPhase::SavingGitStash, StashEvent::GitStashSaved(saved)) => match saved {
                None => {
                    self.phase = StashPhase::Idle;
                    self.stash = None;
                    StashAction::Finish(StashOutcome::NothingStashed)
                },
                Some(id) => {
                    self.phase = StashPhase::CheckingOut;
                    self.stash = Some(Stash::GitStash(id));
                    StashAction::CheckoutIndex
                },
            },
            (StashPhase::BuildingPatch, StashEvent::PatchBuilt(patch)) => match patch {
                None => {
                    self.phase = StashPhase::Idle;
                    self.stash = None;
                    StashAction::Finish(StashOutcome::NothingStashed)
                },
                Some(p) => {
                    let copy = p.clone();
                    self.phase = StashPhase::WritingPatch;
                    self.stash = Some(Stash::Patch(p));
                    StashAction::WritePatch(copy)
                },
            },
            (StashPhase::WritingPatch, StashEvent::PatchFileWritten) => {
                self.phase = StashPhase::CheckingOut;
                StashAction::CheckoutIndex
            },
            (StashPhase::CheckingOut, StashEvent::CheckedOut) => {
                self.phase = StashPhase::Idle;
                StashAction::Finish(StashOutcome::Stashed)
            },
            _ => StashAction::Ignored,
        }
    }

    /// Takes what was put aside and says how to bring it back; afterwards
    /// nothing is put aside.
    pub fn pop(&mut self) -> (res: PopAction)
        ensures
            res == pop_action_for(old(self).stash()),
            final(self).stash() is None,
            final(self).phase() == old(self).phase(),
            final(self).uses_git() == old(self).uses_git(),
    {
        let taken = self.stash.take();
        match taken {
            None => PopAction::Nothing,
            Some(Stash::Patch(p)) => PopAction::ApplyPatch(p),
            Some(Stash::GitStash(_)) => PopAction::PopGitStash,
        }
    }
}

/// While a patch is being written or the work tree reset, something is
/// put aside.
pub open spec fn stash_consistent(phase: StashPhase, stash: Option<Stash>) -> bool {
    (phase == StashPhase::WritingPatch || phase == StashPhase::CheckingOut) ==> stash is Some
}

/// Every event keeps the protocol consistent: the work tree is only ever
/// reset while something is put aside, and a run that ends as `Stashed`
/// leaves something put aside.
pub proof fn lemma_event_keeps_consistency(
    phase: StashPhase,
    use_git: bool,
    stash: Option<Stash>,
    event: StashEvent,
)
    requires
        stash_consistent(phase, stash),
    ensures
        ({
            let (next, kept, action) = after_event(phase, use_git, stash, event);
            &&& stash_consistent(next, kept)
            &&& action == StashAction::CheckoutIndex ==> kept is Some
            &&& action == StashAction::Finish(StashOutcome::Stashed) ==> kept is Some
        }),
{
}

/// A patch run from start to end puts the patch aside and removes the
/// changes; popping afterwards applies exactly that patch, and popping
/// again does nothing.
pub proof fn lemma_patch_round_trip(stash: Option<Stash>, unstaged: usize, patch: String)
    requires
        unstaged > 0,
    ensures
        ({
            let (p1, s1, a1) = after_event(StashPhase::ListingUnstaged, false, stash, StashEvent::UnstagedListed(unstaged));
            let (p2, s2, a2) = after_event(p1, false, s1, StashEvent::PatchBuilt(Some(patch)));
            let (p3, s3, a3) = after_event(p2, false, s2, StashEvent::PatchFileWritten);
            let (p4, s4, a4) = after_event(p3, false, s3, StashEvent::CheckedOut);
            &&& a1 == StashAction::BuildPatch
            &&& a2 == StashAction::WritePatch(patch)
            &&& a3 == StashAction::CheckoutIndex
            &&& a4 == StashAction::Finish(StashOutcome::Stashed)
            &&& p4 == StashPhase::Idle
            &&& pop_action_for(s4) == PopAction::ApplyPatch(patch)
            &&& pop_action_for(None) == PopAction::Nothing
        }),
{
}

/// A git-stash run from start to end saves the stash and removes the
/// changes; popping afterwards pops that stash entry.
pub proof fn lemma_git_stash_round_trip(stash: Option<Stash>, unstaged: usize, id: Vec<u8>)
    requires
        unstaged > 0,
    ensures
        ({
            let (p1, s1, a1) = after_event(StashPhase::ListingUnstaged, true, stash, StashEvent::UnstagedListed(unstaged));
            let (p2, s2, a2) = after_event(p1, true, s1, StashEvent::GitStashSaved(Some(id)));
            let (p3, s3, a3) = after_event(p2, true, s2, StashEvent::CheckedOut);
            &&& a1 == StashAction::SaveGitStash
            &&& a2 == StashAction::CheckoutIndex
            &&& a3 == StashAction::Finish(StashOutcome::Stashed)
            &&& p3 == StashPhase::Idle
            &&& pop_action_for(s3) == PopAction::PopGitStash
        }),
{
}

/// With no unstaged files a run ends at once and removes nothing.
pub proof fn lemma_clean_tree_is_left_alone(use_git: bool, stash: Option<Stash>)
    ensures
        after_event(StashPhase::ListingUnstaged, use_git, stash, StashEvent::UnstagedListed(0))
            == (StashPhase::Idle, stash, StashAction::Finish(StashOutcome::NoUnstagedChanges)),
{
}

// ------------------------------------------------------------- references

/// The name of the remote-tracking reference of `branch` on `remote`.
pub open spec fn remote_ref_name(remote: Seq<char>, branch: Seq<char>) -> Seq<char> {
    seq!['r', 'e', 'f', 's', '/', 'r', 'e', 'm', 'o', 't', 'e', 's', '/'] + remote + seq!['/'] + branch
}

/// `refs/remotes/<remote>/<branch>`: the reference that tracks `branch`
/// on `remote`.
pub fn remote_branch_ref(remote: &str, branch: &str) -> (res: String)
    ensures
        res@ == remote_ref_name(remote@, branch@),
{
    let mut out = String::new();
    out.append("refs/remotes/");
    out.append(remote);
    out.append("/");
    out.append(branch);
    proof {
        reveal_strlit("refs/remotes/");
        reveal_strlit("/");
        assert(out@ =~= remote_ref_name(remote@, branch@));
    }
    out
}

/// The pathspecs to add to the index, each with every occurrence of the
/// work tree's root taken out, so that absolute paths become relative.
pub fn root_relative_pathspecs(pathspecs: &[&str], root: &str) -> (res: Vec<String>)
    ensures
        res@.len() == pathspecs@.len(),
        forall|i: int| 0 <= i < pathspecs@.len() ==> #[trigger] res@[i]@ == without_all(pathspecs@[i]@, root@),
{
    let mut out: Vec<String> = Vec::new();
    let n = pathspecs.len();
    let mut i: usize = 0;
    while i < n
        invariant
            n == pathspecs@.len(),
            i <= n,
            out@.len() == i,
            forall|j: int| 0 <= j < i ==> #[trigger] out@[j]@ == without_all(pathspecs@[j]@, root@),
        decreases n - i,
    {
        out.push(remove_all(pathspecs[i], root));
        i = i + 1;
    }
    out
}

// ------------------------------------------------------------- file lists

/// Records a delta of a diff between the tree and the work tree: its new
/// path joins the set unless the delta deletes the file.
pub fn record_delta(files: &mut PathSet, deleted: bool, new_path: Option<RelPath>)
    ensures
        final(files)@ == (if !deleted && new_path is Some {
            old(files)@.insert(new_path->0@)
        } else {
            old(files)@
        }),
{
    if deleted {
        return;
    }
    if let Some(p) = new_path {
        files.insert(p);
    }
}

/// Records a changed line of a diff between two refs: the new path of its
/// file joins the set when the file exists in the work tree.
pub fn record_changed_line(files: &mut PathSet, new_path: Option<RelPath>, exists: bool)
    ensures
        final(files)@ == (if exists && new_path is Some {
            old(files)@.insert(new_path->0@)
        } else {
            old(files)@
        }),
{
    if !exists {
        return;
    }
    if let Some(p) = new_path {
        files.insert(p);
    }
}

/// The paths of the status entries that have one, in order.
pub open spec fn present(entries: Seq<Option<RelPath>>) -> Seq<Seq<Seq<char>>>
    decreases entries.len(),
{
    if entries.len() == 0 {
        Seq::empty()
    } else {
        let rest = present(entries.drop_last());
        match entries.last() {
            Some(p) => rest.push(p@),
            None => rest,
        }
    }
}

/// The paths of the status entries that have one and exist in the work
/// tree, in order.
pub open spec fn present_and_existing(entries: Seq<(Option<RelPath>, bool)>) -> Seq<Seq<Seq<char>>>
    decreases entries.len(),
{
    if entries.len() == 0 {
        Seq::empty()
    } else {
        let rest = present_and_existing(entries.drop_last());
        match entries.last() {
            (Some(p), true) => rest.push(p@),
            _ => rest,
        }
    }
}

/// The paths that status entries name, in order (the unstaged files).
pub fn present_paths(entries: &Vec<Option<RelPath>>) -> (res: Vec<RelPath>)
    ensures
        paths_view(res@) == present(entries@),
{
    let mut out: Vec<RelPath> = Vec::new();
    let n = entries.len();
    let mut i: usize = 0;
    while i < n
        invariant
            n == entries@.len(),
            i <= n,
            paths_view(out@) == present(entries@.take(i as int)),
        decreases n - i,
    {
        proof {
            assert(entries@.take(i + 1).drop_last() =~= entries@.take(i as int));
        }
        match &entries[i] {
            Some(p) => {
                let ghost before = out@;
                out.push(p.duplicate());
                assert(paths_view(out@) =~= paths_view(before).push(p@));
            },
            None => {},
        }
        i = i + 1;
    }
    assert(entries@.take(n as int) =~= entries@);
    out
}

/// The paths that status entries name and that exist in the work tree, in
/// order (the staged files).
pub fn existing_paths(entries: &Vec<(Option<RelPath>, bool)>) -> (res: Vec<RelPath>)
    ensures
        paths_view(res@) == present_and_existing(entries@),
{
    let mut out: Vec<RelPath> = Vec::new();
    let n = entries.len();
    let mut i: usize = 0;
    while i < n
        invariant
            n == entries@.len(),
            i <= n,
            paths_view(out@) == present_and_existing(entries@.take(i as int)),
        decreases n - i,
    {
        proof {
            assert(entries@.take(i + 1).drop_last() =~= entries@.take(i as int));
        }
        let (path, exists) = &entries[i];
        if *exists {
            match path {
                Some(p) => {
                    let ghost before = out@;
                    out.push(p.duplicate());
                    assert(paths_view(out@) =~= paths_view(before).push(p@));
                },
                None => {},
            }
        }
        i = i + 1;
    }
    assert(entries@.take(n as int) =~= entries@);
    out
}

} // verus!
