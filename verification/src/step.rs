//! Steps of a hook: what a step runs for each run type, which profiles
//! turn it on or off, and where its workspaces are.
use vstd::prelude::*;
use indexmap::{IndexMap, IndexSet};
use std::path::PathBuf;
use crate::path::string_views;
use crate::indexed::{outside_of, inside_of, string_set_items, new_string_set, insert_string, string_set_difference, string_set_intersection};

verus! {

/// What kind of file a step is about.
#[derive(Debug, Clone, PartialEq, Eq)]
pub enum FileKind {
    Text,
    Binary,
    Executable,
    NotExecutable,
    Symlink,
    NotSymlink,
}

/// The three ways a linter can check.
#[derive(Debug, Clone, Copy, PartialEq, Eq, Structural)]
pub enum CheckType {
    Check,
    ListFiles,
    Diff,
}

/// Whether a step checks (and how) or fixes.
#[derive(Debug, Clone, Copy, PartialEq, Eq, Structural)]
pub enum RunType {
    Check(CheckType),
    Fix,
}

/// A step that runs one command.
#[derive(Debug)]
pub struct RunStep {
    pub step_type: Option<String>,
    pub name: String,
    pub profiles: Option<Vec<String>>,
    pub glob: Option<Vec<String>>,
    pub dir: Option<String>,
    pub run: String,
    pub exclusive: bool,
    pub interactive: bool,
    pub depends: Vec<String>,
    pub env: IndexMap<String, String>,
    pub stage: Option<Vec<String>>,
}

/// A step that runs a linter, with separate commands to check and to fix.
#[derive(Debug)]
pub struct LinterStep {
    pub step_type: Option<String>,
    pub name: String,
    pub profiles: Option<Vec<String>>,
    pub exclusive: bool,
    pub interactive: bool,
    pub depends: Vec<String>,
    pub check_first: bool,
    pub batch: bool,
    pub stomp: bool,
    pub glob: Option<Vec<String>>,
    pub check: Option<String>,
    pub check_diff: Option<String>,
    pub check_list_files: Option<String>,
    pub fix: Option<String>,
    pub workspace_indicator: Option<String>,
    pub prefix: Option<String>,
    pub dir: Option<String>,
    pub env: IndexMap<String, String>,
    pub root: Option<PathBuf>,
    pub stage: Option<Vec<String>>,
    pub linter_dependencies: IndexMap<String, Vec<String>>,
}

/// A profile entry that turns a profile off: it starts with `!`.
pub open spec fn negated(p: Seq<char>) -> bool {
    p.len() > 0 && p[0] == '!'
}

/// The entries that turn profiles on, in order.
pub open spec fn enabled_names(ps: Seq<Seq<char>>) -> Seq<Seq<char>>
    decreases ps.len(),
{
    if ps.len() == 0 {
        Seq::empty()
    } else if negated(ps.last()) {
        enabled_names(ps.drop_last())
    } else {
        enabled_names(ps.drop_last()).push(ps.last())
    }
}

/// The profiles that entries turn off, without their `!`, in order.
pub open spec fn disabled_names(ps: Seq<Seq<char>>) -> Seq<Seq<char>>
    decreases ps.len(),
{
    if ps.len() == 0 {
        Seq::empty()
    } else if negated(ps.last()) {
        disabled_names(ps.drop_last()).push(ps.last().drop_first())
    } else {
        disabled_names(ps.drop_last())
    }
}

/// The values of `s`, each at its first place, the later copies left out:
/// what inserting them one by one into an insertion-ordered set leaves.
pub open spec fn unique_in_order(s: Seq<Seq<char>>) -> Seq<Seq<char>>
    decreases s.len(),
{
    if s.len() == 0 {
        Seq::empty()
    } else {
        let rest = unique_in_order(s.drop_last());
        if rest.contains(s.last()) {
            rest
        } else {
            rest.push(s.last())
        }
    }
}

/// A step with these profile entries may run while the profiles in
/// `active` are on: each entry `p` needs `p` on, each entry `!p` needs `p`
/// off. A step without profile entries always may.
pub open spec fn step_allowed(profiles: Option<Seq<Seq<char>>>, active: Seq<Seq<char>>) -> bool {
    match profiles {
        None => true,
        Some(ps) => entries_allow(ps, active),
    }
}

/// Each entry `p` has `p` on and each entry `!p` has `p` off.
pub open spec fn entries_allow(ps: Seq<Seq<char>>, active: Seq<Seq<char>>) -> bool {
    forall|i: int| 0 <= i < ps.len() ==> (if negated(#[trigger] ps[i]) {
        !active.contains(ps[i].drop_first())
    } else {
        active.contains(ps[i])
    })
}

/// The views of an optional list of strings.
pub open spec fn opt_strings_view(o: Option<Vec<String>>) -> Option<Seq<Seq<char>>> {
    match o {
        Some(v) => Some(string_views(v@)),
        None => None,
    }
}

/// What an optional set holds.
pub open spec fn opt_set_items(o: Option<IndexSet<String>>) -> Option<Seq<Seq<char>>> {
    match o {
        Some(s) => Some(string_set_items(s)),
        None => None,
    }
}

/// The enabled and disabled profile lists pass a step exactly when no
/// listed enabled profile is off and no listed disabled profile is on.
pub open spec fn lists_allow(
    enabled: Option<Seq<Seq<char>>>,
    disabled: Option<Seq<Seq<char>>>,
    active: Seq<Seq<char>>,
) -> bool {
    &&& all_inside(enabled, active)
    &&& none_inside(disabled, active)
}

/// Every value of `e` is among `active`.
pub open spec fn each_inside(e: Seq<Seq<char>>, active: Seq<Seq<char>>) -> bool {
    forall|i: int| 0 <= i < e.len() ==> active.contains(#[trigger] e[i])
}

/// No value of `d` is among `active`.
pub open spec fn each_outside(d: Seq<Seq<char>>, active: Seq<Seq<char>>) -> bool {
    forall|i: int| 0 <= i < d.len() ==> !active.contains(#[trigger] d[i])
}

/// Every listed value (if there is a list) is among `active`.
pub open spec fn all_inside(list: Option<Seq<Seq<char>>>, active: Seq<Seq<char>>) -> bool {
    match list {
        Some(e) => each_inside(e, active),
        None => true,
    }
}

/// No listed value (if there is a list) is among `active`.
pub open spec fn none_inside(list: Option<Seq<Seq<char>>>, active: Seq<Seq<char>>) -> bool {
    match list {
        Some(d) => each_outside(d, active),
        None => true,
    }
}

/// Membership in `unique_in_order(s)` is membership in `s`.
pub proof fn lemma_unique_in_order_contains(s: Seq<Seq<char>>, x: Seq<char>)
    ensures
        unique_in_order(s).contains(x) <==> s.contains(x),
    decreases s.len(),
{
    if s.len() > 0 {
        lemma_unique_in_order_contains(s.drop_last(), x);
        let rest = unique_in_order(s.drop_last());
        if s.contains(x) && x != s.last() {
            let k = choose|k: int| 0 <= k < s.len() && s[k] == x;
            assert(s.drop_last()[k] == x);
        }
        if s.drop_last().contains(x) {
            let k = choose|k: int| 0 <= k < s.drop_last().len() && s.drop_last()[k] == x;
            assert(s[k] == x);
        }
        if x == s.last() {
            assert(s[s.len() - 1] == x);
            if !rest.contains(x) {
                assert(rest.push(x)[rest.len() as int] == x);
            }
        }
        if rest.contains(x) && !rest.contains(s.last()) {
            let k = choose|k: int| 0 <= k < rest.len() && rest[k] == x;
            assert(rest.push(s.last())[k] == x);
        }
        if rest.push(s.last()).contains(x) && x != s.last() {
            let k = choose|k: int| 0 <= k < rest.len() + 1 && rest.push(s.last())[k] == x;
            assert(rest[k] == x);
        }
    }
}

/// Membership in `enabled_names(ps)`.
pub proof fn lemma_enabled_names_contains(ps: Seq<Seq<char>>, x: Seq<char>)
    ensures
        enabled_names(ps).contains(x) <==> exists|i: int| 0 <= i < ps.len() && !negated(ps[i]) && ps[i] == x,
    decreases ps.len(),
{
    if ps.len() > 0 {
        let init = ps.drop_last();
        lemma_enabled_names_contains(init, x);
        let rest = enabled_names(init);
        if exists|i: int| 0 <= i < ps.len() && !negated(ps[i]) && ps[i] == x {
            let i = choose|i: int| 0 <= i < ps.len() && !negated(ps[i]) && ps[i] == x;
            if i < ps.len() - 1 {
                assert(init[i] == x);
                if !negated(ps.last()) {
                    let k = choose|k: int| 0 <= k < rest.len() && rest[k] == x;
                    assert(rest.push(ps.last())[k] == x);
                }
            } else {
                assert(rest.push(ps.last())[rest.len() as int] == x);
            }
        }
        if enabled_names(ps).contains(x) {
            if !negated(ps.last()) {
                let k = choose|k: int| 0 <= k < rest.len() + 1 && rest.push(ps.last())[k] == x;
                if k < rest.len() {
                    assert(rest[k] == x);
                    let i = choose|i: int| 0 <= i < init.len() && !negated(init[i]) && init[i] == x;
                    assert(ps[i] == x);
                } else {
                    assert(ps[ps.len() - 1] == x);
                }
            } else {
                let i = choose|i: int| 0 <= i < init.len() && !negated(init[i]) && init[i] == x;
                assert(ps[i] == x);
            }
        }
    }
}

/// Membership in `disabled_names(ps)`.
pub proof fn lemma_disabled_names_contains(ps: Seq<Seq<char>>, x: Seq<char>)
    ensures
        disabled_names(ps).contains(x) <==> exists|i: int| 0 <= i < ps.len() && negated(ps[i]) && ps[i].drop_first() == x,
    decreases ps.len(),
{
    if ps.len() > 0 {
        let init = ps.drop_last();
        lemma_disabled_names_contains(init, x);
        let rest = disabled_names(init);
        if exists|i: int| 0 <= i < ps.len() && negated(ps[i]) && ps[i].drop_first() == x {
            let i = choose|i: int| 0 <= i < ps.len() && negated(ps[i]) && ps[i].drop_first() == x;
            if i < ps.len() - 1 {
                assert(init[i] == ps[i]);
                if negated(ps.last()) {
                    let k = choose|k: int| 0 <= k < rest.len() && rest[k] == x;
                    assert(rest.push(ps.last().drop_first())[k] == x);
                }
            } else {
                assert(rest.push(ps.last().drop_first())[rest.len() as int] == x);
            }
        }
        if disabled_names(ps).contains(x) {
            if negated(ps.last()) {
                let k = choose|k: int| 0 <= k < rest.len() + 1 && rest.push(ps.last().drop_first())[k] == x;
                if k < rest.len() {
                    assert(rest[k] == x);
                    let i = choose|i: int| 0 <= i < init.len() && negated(init[i]) && init[i].drop_first() == x;
                    assert(ps[i] == init[i]);
                } else {
                    assert(ps[ps.len() - 1].drop_first() == x);
                }
            } else {
                let i = choose|i: int| 0 <= i < init.len() && negated(init[i]) && init[i].drop_first() == x;
                assert(ps[i] == init[i]);
            }
        }
    }
}

/// An insertion-ordered set holds each value once.
pub proof fn lemma_unique_in_order_no_duplicates(s: Seq<Seq<char>>)
    ensures
        unique_in_order(s).no_duplicates(),
    decreases s.len(),
{
    if s.len() > 0 {
        lemma_unique_in_order_no_duplicates(s.drop_last());
        let rest = unique_in_order(s.drop_last());
        if !rest.contains(s.last()) {
            let r = rest.push(s.last());
            assert forall|i: int, j: int| 0 <= i < r.len() && 0 <= j < r.len() && i != j implies r[i] != r[j] by {
                if i < rest.len() && j < rest.len() {
                    assert(r[i] == rest[i] && r[j] == rest[j]);
                } else if i < rest.len() {
                    assert(r[i] == rest[i]);
                } else if j < rest.len() {
                    assert(r[j] == rest[j]);
                }
            }
        }
    }
}

/// The profiles an entry list turns on are the entries without `!`, each
/// once; none of them starts with `!`. The profiles it turns off are the
/// entries with `!`, the `!` taken away, each once.
pub proof fn lemma_profile_sets_shape(ps: Seq<Seq<char>>, x: Seq<char>)
    ensures
        unique_in_order(enabled_names(ps)).no_duplicates(),
        unique_in_order(disabled_names(ps)).no_duplicates(),
        unique_in_order(enabled_names(ps)).contains(x) <==> exists|i: int| 0 <= i < ps.len() && !negated(ps[i]) && ps[i] == x,
        unique_in_order(disabled_names(ps)).contains(x) <==> exists|i: int| 0 <= i < ps.len() && negated(ps[i]) && ps[i].drop_first() == x,
        unique_in_order(enabled_names(ps)).contains(x) ==> !negated(x),
{
    lemma_unique_in_order_no_duplicates(enabled_names(ps));
    lemma_unique_in_order_no_duplicates(disabled_names(ps));
    lemma_unique_in_order_contains(enabled_names(ps), x);
    lemma_unique_in_order_contains(disabled_names(ps), x);
    lemma_enabled_names_contains(ps, x);
    lemma_disabled_names_contains(ps, x);
}

/// Whether a profile entry starts with `!`.
fn is_negated(s: &String) -> (res: bool)
    ensures
        res == negated(s@),
{
    let st = s.as_str();
    st.unicode_len() > 0 && st.get_char(0) == '!'
}

/// A profile entry without its leading `!`.
fn strip_negation(s: &String) -> (res: String)
    requires
        negated(s@),
    ensures
        res@ == s@.drop_first(),
{
    let st = s.as_str();
    let n = st.unicode_len();
    let rest = st.substring_char(1, n);
    proof {
        broadcast use vstd::string::to_string_from_display_ensures_for_str;
        assert(rest@ =~= s@.drop_first());
    }
    rest.to_string()
}

/// The profiles that the entries turn on (`negated == false`) or off
/// (`negated == true`, with the `!` taken away), each once, in order.
fn collect_profiles(profiles: &Vec<String>, want_negated: bool) -> (res: IndexSet<String>)
    ensures
        string_set_items(res) == (if want_negated {
            unique_in_order(disabled_names(string_views(profiles@)))
        } else {
            unique_in_order(enabled_names(string_views(profiles@)))
        }),
{
    let ghost ps = string_views(profiles@);
    let mut set = new_string_set();
    let n = profiles.len();
    let mut i: usize = 0;
    while i < n
        invariant
            n == profiles@.len(),
            ps == string_views(profiles@),
            i <= n,
            string_set_items(set) == (if want_negated {
                unique_in_order(disabled_names(ps.take(i as int)))
            } else {
                unique_in_order(enabled_names(ps.take(i as int)))
            }),
        decreases n - i,
    {
        let entry = &profiles[i];
        let neg = is_negated(entry);
        proof {
            assert(ps.take(i + 1).drop_last() =~= ps.take(i as int));
            assert(ps.take(i + 1).last() == entry@);
        }
        if neg && want_negated {
            let name = strip_negation(entry);
            insert_string(&mut set, name);
            proof {
                let names = disabled_names(ps.take(i as int));
                assert(disabled_names(ps.take(i + 1)) == names.push(entry@.drop_first()));
                assert(names.push(entry@.drop_first()).drop_last() =~= names);
            }
        } else if !neg && !want_negated {
            insert_string(&mut set, entry.clone());
            proof {
                let names = enabled_names(ps.take(i as int));
                assert(enabled_names(ps.take(i + 1)) == names.push(entry@));
                assert(names.push(entry@).drop_last() =~= names);
            }
        }
        i = i + 1;
    }
    assert(ps.take(n as int) =~= ps);
    set
}

/// Whether a step with these enabled and disabled profile sets may run
/// while the profiles in `active` are on.
pub fn is_profile_enabled(
    enabled: Option<IndexSet<String>>,
    disabled: Option<IndexSet<String>>,
    active: &IndexSet<String>,
) -> (res: bool)
    ensures
        res == lists_allow(opt_set_items(enabled), opt_set_items(disabled), string_set_items(*active)),
{
    let ghost act = string_set_items(*active);
    if let Some(en) = &enabled {
        let missing = string_set_difference(en, active);
        let ghost e = string_set_items(*en);
        let ghost pred = outside_of(act);
        if missing.len() > 0 {
            proof {
                e.lemma_filter_pred(pred, 0);
                assert(string_views(missing@)[0] == e.filter(pred)[0]);
                let x = e.filter(pred)[0];
                assert(e.filter(pred).contains(x));
                lemma_filter_member(e, pred, x);
                let k = choose|k: int| 0 <= k < e.len() && e[k] == x;
                assert(!act.contains(e[k]));
                assert(opt_set_items(enabled) == Some(e));


            }
            return false;
        }
        proof {
            assert forall|i: int| 0 <= i < e.len() implies act.contains(#[trigger] e[i]) by {
                if !act.contains(e[i]) {
                    e.lemma_filter_contains(pred, i);
                }
            }
        }
    }
    if let Some(dis) = &disabled {
        let clash = string_set_intersection(dis, active);
        let ghost d = string_set_items(*dis);
        let ghost pred = inside_of(act);
        if clash.len() > 0 {
            proof {
                d.lemma_filter_pred(pred, 0);
                let x = d.filter(pred)[0];
                assert(d.filter(pred).contains(x));
                lemma_filter_member(d, pred, x);
                let k = choose|k: int| 0 <= k < d.len() && d[k] == x;
                assert(act.contains(d[k]));
                assert(opt_set_items(disabled) == Some(d));
            }
            return false;
        }
        proof {
            assert forall|i: int| 0 <= i < d.len() implies !act.contains(#[trigger] d[i]) by {
                if act.contains(d[i]) {
                    d.lemma_filter_contains(pred, i);
                }
            }
        }
    }
    true
}

/// Whatever a filter keeps comes from the filtered sequence.
proof fn lemma_filter_member(s: Seq<Seq<char>>, pred: spec_fn(Seq<char>) -> bool, x: Seq<char>)
    requires
        s.filter(pred).contains(x),
    ensures
        s.contains(x),
    decreases s.len(),
{
    reveal(Seq::filter);
    if s.len() > 0 {
        if x != s.last() {
            let init = s.drop_last();
            if pred(s.last()) {
                let f = init.filter(pred);
                let k = choose|k: int| 0 <= k < f.len() + 1 && f.push(s.last())[k] == x;
                assert(f[k] == x);
            }
            lemma_filter_member(init, pred, x);
            let k = choose|k: int| 0 <= k < init.len() && init[k] == x;
            assert(s[k] == x);
        } else {
            assert(s[s.len() - 1] == x);
        }
    }
}

/// With its profile entries listed, a step may run exactly when its
/// enabled profile set is all on and its disabled profile set all off.
pub proof fn lemma_profile_sets_decide(ps: Seq<Seq<char>>, act: Seq<Seq<char>>)
    ensures
        lists_allow(
            Some(unique_in_order(enabled_names(ps))),
            Some(unique_in_order(disabled_names(ps))),
            act,
        ) == step_allowed(Some(ps), act),
{
    let en = unique_in_order(enabled_names(ps));
    let dis = unique_in_order(disabled_names(ps));
    if lists_allow(Some(en), Some(dis), act) {
        assert forall|i: int| 0 <= i < ps.len() implies (if negated(#[trigger] ps[i]) {
            !act.contains(ps[i].drop_first())
        } else {
            act.contains(ps[i])
        }) by {
            if negated(ps[i]) {
                let x = ps[i].drop_first();
                lemma_disabled_names_contains(ps, x);
                lemma_unique_in_order_contains(disabled_names(ps), x);
                let j = choose|j: int| 0 <= j < dis.len() && dis[j] == x;
                assert(!act.contains(dis[j]));
            } else {
                let x = ps[i];
                lemma_enabled_names_contains(ps, x);
                lemma_unique_in_order_contains(enabled_names(ps), x);
                let j = choose|j: int| 0 <= j < en.len() && en[j] == x;
                assert(act.contains(en[j]));
            }
        }
    }
    if step_allowed(Some(ps), act) {
        assert forall|j: int| 0 <= j < en.len() implies act.contains(#[trigger] en[j]) by {
            let x = en[j];
            assert(en.contains(x));
            lemma_unique_in_order_contains(enabled_names(ps), x);
            lemma_enabled_names_contains(ps, x);
            let i = choose|i: int| 0 <= i < ps.len() && !negated(ps[i]) && ps[i] == x;
            assert(!negated(ps[i]));
        }
        assert forall|j: int| 0 <= j < dis.len() implies !act.contains(#[trigger] dis[j]) by {
            let x = dis[j];
            assert(dis.contains(x));
            lemma_unique_in_order_contains(disabled_names(ps), x);
            lemma_disabled_names_contains(ps, x);
            let i = choose|i: int| 0 <= i < ps.len() && negated(ps[i]) && ps[i].drop_first() == x;
            assert(negated(ps[i]));
        }
    }
}

/// The view of an optional string.
pub open spec fn opt_string_view(o: Option<String>) -> Option<Seq<char>> {
    match o {
        Some(s) => Some(s@),
        None => None,
    }
}

/// The view of an optional string slice.
pub open spec fn opt_str_view(o: Option<&str>) -> Option<Seq<char>> {
    match o {
        Some(s) => Some(s@),
        None => None,
    }
}

/// `first` when there is one, else `second`.
pub open spec fn or_else(first: Option<Seq<char>>, second: Option<Seq<char>>) -> Option<Seq<char>> {
    if first is Some {
        first
    } else {
        second
    }
}

/// The command a linter runs for a run type: checking uses `check`; a
/// diff or file-list check uses its own command when there is one and
/// `check` otherwise; fixing uses `fix` when there is one and `check`
/// otherwise.
pub open spec fn command_for(
    check: Option<Seq<char>>,
    check_diff: Option<Seq<char>>,
    check_list_files: Option<Seq<char>>,
    fix: Option<Seq<char>>,
    run_type: RunType,
) -> Option<Seq<char>> {
    match run_type {
        RunType::Check(CheckType::Check) => check,
        RunType::Check(CheckType::Diff) => or_else(check_diff, check),
        RunType::Check(CheckType::ListFiles) => or_else(check_list_files, check),
        RunType::Fix => or_else(fix, check),
    }
}

/// The run type a linter can serve when asked for `run_type`: a check
/// becomes a plain check when there is a check command and a fix when
/// there is only a fix command; a fix stays a fix.
pub open spec fn run_type_for(run_type: RunType, has_check: bool, has_fix: bool) -> Option<RunType> {
    match run_type {
        RunType::Check(_) => if has_check {
            Some(RunType::Check(CheckType::Check))
        } else if has_fix {
            Some(RunType::Fix)
        } else {
            None
        },
        RunType::Fix => Some(RunType::Fix),
    }
}

fn opt_as_str(o: &Option<String>) -> (res: Option<&str>)
    ensures
        opt_str_view(res) == opt_string_view(*o),
{
    match o {
        Some(s) => Some(s.as_str()),
        None => None,
    }
}

impl RunStep {
    /// Names the step; an interactive step becomes exclusive.
    pub fn init(&mut self, name: &str)
        ensures
            final(self).name@ == name@,
            final(self).exclusive == (old(self).exclusive || old(self).interactive),
            final(self).interactive == old(self).interactive,
            final(self).step_type == old(self).step_type,
            final(self).profiles == old(self).profiles,
            final(self).glob == old(self).glob,
            final(self).dir == old(self).dir,
            final(self).run == old(self).run,
            final(self).depends == old(self).depends,
            final(self).env == old(self).env,
            final(self).stage == old(self).stage,
    {
        proof {
            broadcast use vstd::string::to_string_from_display_ensures_for_str;
        }
        self.name = name.to_string();
        if self.interactive {
            self.exclusive = true;
        }
    }

    /// Whether the step may run while the profiles in `active` are on.
    pub fn is_profile_enabled(&self, active: &IndexSet<String>) -> (res: bool)
        ensures
            res == step_allowed(opt_strings_view(self.profiles), string_set_items(*active)),
    {
        let res = is_profile_enabled(self.enabled_profiles(), self.disabled_profiles(), active);
        proof {
            if self.profiles is Some {
                lemma_profile_sets_decide(string_views(self.profiles->0@), string_set_items(*active));
            }
        }
        res
    }

    /// The profiles that turn the step on, each once, in order.
    pub fn enabled_profiles(&self) -> (res: Option<IndexSet<String>>)
        ensures
            self.profiles is None ==> res is None,
            self.profiles matches Some(ps) ==> (res matches Some(set)
                && string_set_items(set) == unique_in_order(enabled_names(string_views(ps@)))),
    {
        match &self.profiles {
            Some(ps) => Some(collect_profiles(ps, false)),
            None => None,
        }
    }

    /// The profiles that turn the step off, without their `!`, each once,
    /// in order.
    pub fn disabled_profiles(&self) -> (res: Option<IndexSet<String>>)
        ensures
            self.profiles is None ==> res is None,
            self.profiles matches Some(ps) ==> (res matches Some(set)
                && string_set_items(set) == unique_in_order(disabled_names(string_views(ps@)))),
    {
        match &self.profiles {
            Some(ps) => Some(collect_profiles(ps, true)),
            None => None,
        }
    }
}

impl LinterStep {
    /// Names the step; an interactive step becomes exclusive.
    pub fn init(&mut self, name: &str)
        ensures
            final(self).name@ == name@,
            final(self).exclusive == (old(self).exclusive || old(self).interactive),
            final(self).interactive == old(self).interactive,
            final(self).step_type == old(self).step_type,
            final(self).profiles == old(self).profiles,
            final(self).glob == old(self).glob,
            final(self).check == old(self).check,
            final(self).check_diff == old(self).check_diff,
            final(self).check_list_files == old(self).check_list_files,
            final(self).fix == old(self).fix,
            final(self).workspace_indicator == old(self).workspace_indicator,
            final(self).prefix == old(self).prefix,
            final(self).dir == old(self).dir,
            final(self).stage == old(self).stage,
            final(self).depends == old(self).depends,
            final(self).check_first == old(self).check_first,
            final(self).batch == old(self).batch,
            final(self).stomp == old(self).stomp,
            final(self).env == old(self).env,
            final(self).root == old(self).root,
            final(self).linter_dependencies == old(self).linter_dependencies,
    {
        proof {
            broadcast use vstd::string::to_string_from_display_ensures_for_str;
        }
        self.name = name.to_string();
        if self.interactive {
            self.exclusive = true;
        }
    }

    /// The command to run for `run_type`, if the linter has one.
    pub fn run_cmd(&self, run_type: RunType) -> (res: Option<&str>)
        ensures
            opt_str_view(res) == command_for(
                opt_string_view(self.check),
                opt_string_view(self.check_diff),
                opt_string_view(self.check_list_files),
                opt_string_view(self.fix),
                run_type,
            ),
            run_type == RunType::Check(CheckType::Check) ==> opt_str_view(res) == opt_string_view(self.check),
            run_type == RunType::Check(CheckType::Diff) && self.check_diff is Some
                ==> opt_str_view(res) == opt_string_view(self.check_diff),
            run_type == RunType::Check(CheckType::ListFiles) && self.check_list_files is Some
                ==> opt_str_view(res) == opt_string_view(self.check_list_files),
            run_type == RunType::Fix && self.fix is Some ==> opt_str_view(res) == opt_string_view(self.fix),
            run_type is Check && self.check is None && (run_type == RunType::Check(CheckType::Check)
                || (run_type == RunType::Check(CheckType::Diff) && self.check_diff is None)
                || (run_type == RunType::Check(CheckType::ListFiles) && self.check_list_files is None))
                ==> res is None,
    {
        let check = opt_as_str(&self.check);
        match run_type {
            RunType::Check(CheckType::Check) => check,
            RunType::Check(CheckType::Diff) => match &self.check_diff {
                Some(c) => Some(c.as_str()),
                None => check,
            },
            RunType::Check(CheckType::ListFiles) => match &self.check_list_files {
                Some(c) => Some(c.as_str()),
                None => check,
            },
            RunType::Fix => match &self.fix {
                Some(f) => Some(f.as_str()),
                None => check,
            },
        }
    }

    /// The run type the linter serves when asked for `run_type`.
    pub fn available_run_type(&self, run_type: RunType) -> (res: Option<RunType>)
        ensures
            res == run_type_for(run_type, self.check is Some, self.fix is Some),
            run_type == RunType::Fix ==> res == Some(RunType::Fix),
            run_type is Check && self.check is Some ==> res == Some(RunType::Check(CheckType::Check)),
            run_type is Check && self.check is None && self.fix is Some ==> res == Some(RunType::Fix),
            run_type is Check && self.check is None && self.fix is None ==> res is None,
    {
        match (run_type, self.check.is_some(), self.fix.is_some()) {
            (RunType::Check(_), true, _) => Some(RunType::Check(CheckType::Check)),
            (RunType::Fix, _, _) => Some(RunType::Fix),
            (_, false, true) => Some(RunType::Fix),
            _ => None,
        }
    }

    /// The profiles that turn the step on, each once, in order.
    pub fn enabled_profiles(&self) -> (res: Option<IndexSet<String>>)
        ensures
            self.profiles is None ==> res is None,
            self.profiles matches Some(ps) ==> (res matches Some(set)
                && string_set_items(set) == unique_in_order(enabled_names(string_views(ps@)))),
    {
        match &self.profiles {
            Some(ps) => Some(collect_profiles(ps, false)),
            None => None,
        }
    }

    /// The profiles that turn the step off, without their `!`, each once,
    /// in order.
    pub fn disabled_profiles(&self) -> (res: Option<IndexSet<String>>)
        ensures
            self.profiles is None ==> res is None,
            self.profiles matches Some(ps) ==> (res matches Some(set)
                && string_set_items(set) == unique_in_order(disabled_names(string_views(ps@)))),
    {
        match &self.profiles {
            Some(ps) => Some(collect_profiles(ps, true)),
            None => None,
        }
    }

    /// Whether the step may run while the profiles in `active` are on.
    pub fn is_profile_enabled(&self, active: &IndexSet<String>) -> (res: bool)
        ensures
            res == step_allowed(opt_strings_view(self.profiles), string_set_items(*active)),
    {
        let res = is_profile_enabled(self.enabled_profiles(), self.disabled_profiles(), active);
        proof {
            if self.profiles is Some {
                lemma_profile_sets_decide(string_views(self.profiles->0@), string_set_items(*active));
            }
        }
        res
    }
}

/// A linter with a check or a fix command has a command for whatever run
/// type it serves.
pub proof fn lemma_served_run_type_has_command(
    check: Option<Seq<char>>,
    check_diff: Option<Seq<char>>,
    check_list_files: Option<Seq<char>>,
    fix: Option<Seq<char>>,
    run_type: RunType,
)
    requires
        check is Some || fix is Some,
    ensures
        run_type_for(run_type, check is Some, fix is Some) matches Some(served)
            ==> command_for(check, check_diff, check_list_files, fix, served) is Some,
        run_type_for(run_type, check is Some, fix is Some) is Some,
{
}

/// A step without profile entries always runs; an entry `!p` keeps the
/// step from running while `p` is on; an entry `p` keeps it from running
/// while `p` is off.
pub proof fn lemma_profile_entries(ps: Seq<Seq<char>>, active: Seq<Seq<char>>, i: int)
    requires
        0 <= i < ps.len(),
    ensures
        step_allowed(None, active),
        negated(ps[i]) && active.contains(ps[i].drop_first()) ==> !step_allowed(Some(ps), active),
        !negated(ps[i]) && !active.contains(ps[i]) ==> !step_allowed(Some(ps), active),
{
}

/// A check never runs the fix command: a plain check runs exactly the
/// check command (none without one); a diff or file-list check runs its own
/// command when there is one and the check command otherwise. A fix runs
/// the fix command when there is one and the check command otherwise.
pub proof fn lemma_command_choice(
    check: Option<Seq<char>>,
    check_diff: Option<Seq<char>>,
    check_list_files: Option<Seq<char>>,
    fix: Option<Seq<char>>,
)
    ensures
        command_for(check, check_diff, check_list_files, fix, RunType::Check(CheckType::Check)) == check,
        command_for(check, check_diff, check_list_files, fix, RunType::Check(CheckType::Diff))
            == (if check_diff is Some { check_diff } else { check }),
        command_for(check, check_diff, check_list_files, fix, RunType::Check(CheckType::ListFiles))
            == (if check_list_files is Some { check_list_files } else { check }),
        command_for(check, check_diff, check_list_files, fix, RunType::Fix)
            == (if fix is Some { fix } else { check }),
        forall|k: CheckType| #[trigger] command_for(check, check_diff, check_list_files, fix, RunType::Check(k))
            == command_for(check, check_diff, check_list_files, None, RunType::Check(k)),
{
    assert forall|k: CheckType| #[trigger] command_for(check, check_diff, check_list_files, fix, RunType::Check(k))
        == command_for(check, check_diff, check_list_files, None, RunType::Check(k)) by {
        match k {
            CheckType::Check => {},
            CheckType::Diff => {},
            CheckType::ListFiles => {},
        }
    }
}

/// A fix is always served as a fix, whatever commands the linter has; a
/// check is served as a plain check when there is a check command, as a fix
/// when there is only a fix command, and not at all otherwise.
pub proof fn lemma_run_type_choice(has_check: bool, has_fix: bool, k: CheckType)
    ensures
        run_type_for(RunType::Fix, has_check, has_fix) == Some(RunType::Fix),
        has_check ==> run_type_for(RunType::Check(k), has_check, has_fix) == Some(RunType::Check(CheckType::Check)),
        !has_check && has_fix ==> run_type_for(RunType::Check(k), has_check, has_fix) == Some(RunType::Fix),
        !has_check && !has_fix ==> run_type_for(RunType::Check(k), has_check, has_fix) is None,
{
}

} // verus!
