use vstd::prelude::*;
use crate::manifest::{distinct_names, Dependency};
use crate::paths::{join_path, joined};

verus! {

/// The order in which the embers of a build are built, and where the build of
/// the root ember ends up.
///
/// Embers are built in the order in which the root ember's scope and its
/// dependencies were listed; the output is the directory of the root ember,
/// or the build directory itself while the root has not been built.
pub struct BuildQueue {
    pending: Vec<u64>,
    root: u64,
    build_path: String,
    output_path: String,
}

impl BuildQueue {
    /// The embers still to build, in build order.
    pub closed spec fn remaining(&self) -> Seq<u64> {
        self.pending@.reverse()
    }

    pub closed spec fn root(&self) -> u64 {
        self.root
    }

    pub closed spec fn build_dir(&self) -> Seq<char> {
        self.build_path@
    }

    pub closed spec fn output(&self) -> Seq<char> {
        self.output_path@
    }

    /// Starts a build of `root`, whose scope and dependencies are listed in
    /// `order`, into the directory `build_path`.
    pub fn new(order: Vec<u64>, root: u64, build_path: &str) -> (res: BuildQueue)
        ensures
            res.remaining() == order@,
            res.root() == root,
            res.build_dir() == build_path@,
            res.output() == build_path@,
    {
        let mut pending: Vec<u64> = Vec::new();
        let mut i: usize = order.len();
        while i > 0
            invariant
                i <= order@.len(),
                pending@ == order@.skip(i as int).reverse(),
            decreases i,
        {
            i = i - 1;
            pending.push(order[i]);
            assert(pending@ =~= order@.skip(i as int).reverse());
        }
        assert(order@.skip(0) =~= order@);
        proof {
            lemma_reverse_reverse(order@);
        }
        BuildQueue {
            pending,
            root,
            build_path: String::from_str(build_path),
            output_path: String::from_str(build_path),
        }
    }

    /// The next ember to build, if any is left.
    pub fn next_ember(&mut self) -> (res: Option<u64>)
        ensures
            old(self).remaining().len() == 0 ==> res is None && final(self).remaining() == old(
                self,
            ).remaining(),
            old(self).remaining().len() > 0 ==> res == Some(old(self).remaining()[0])
                && final(self).remaining() == old(self).remaining().drop_first(),
            final(self).root() == old(self).root(),
            final(self).build_dir() == old(self).build_dir(),
            final(self).output() == old(self).output(),
    {
        let res = self.pending.pop();
        proof {
            if old(self).pending@.len() > 0 {
                assert(self.pending@.reverse() =~= old(self).pending@.reverse().drop_first());
            }
        }
        res
    }

    /// The directory an ember with the given original id is built into.
    pub fn ember_build_path(&self, original_id: &str) -> (res: String)
        ensures
            res@ == joined(self.build_dir(), original_id@),
    {
        join_path(self.build_path.as_str(), original_id)
    }

    /// Records that `ember` was built into `path`; the root's directory becomes
    /// the output.
    pub fn record_built(&mut self, ember: u64, path: String)
        ensures
            final(self).remaining() == old(self).remaining(),
            final(self).root() == old(self).root(),
            final(self).build_dir() == old(self).build_dir(),
            final(self).output() == if ember == old(self).root() {
                path@
            } else {
                old(self).output()
            },
    {
        if ember == self.root {
            self.output_path = path;
        }
    }

    /// Where the build of the root ember is.
    pub fn output_path(&self) -> (res: &str)
        ensures
            res@ == self.output(),
    {
        self.output_path.as_str()
    }
}

proof fn lemma_reverse_reverse(s: Seq<u64>)
    ensures
        s.reverse().reverse() == s,
{
    assert(s.reverse().reverse() =~= s);
}

/// A time stamp, in nanoseconds since the Unix epoch.
pub type Timestamp = i128;

/// The latest of the given times, if there are any.
pub open spec fn is_latest(times: Seq<Timestamp>, t: Timestamp) -> bool {
    times.contains(t) && forall|i: int| 0 <= i < times.len() ==> times[i] <= t
}

/// The latest time is unique: it is one of the times and none is later.
pub proof fn law_latest_is_the_maximum(times: Seq<Timestamp>, t: Timestamp, u: Timestamp)
    requires
        is_latest(times, t),
    ensures
        forall|i: int| 0 <= i < times.len() ==> times[i] <= t,
        exists|i: int| 0 <= i < times.len() && times[i] == t,
        is_latest(times, u) ==> u == t,
{
    if is_latest(times, u) {
        let i = choose|i: int| 0 <= i < times.len() && times[i] == u;
        let j = choose|j: int| 0 <= j < times.len() && times[j] == t;
        assert(times[i] <= t && times[j] <= u);
    }
}

/// The latest of the modification times of an ember's files.
pub fn latest_modification(times: &Vec<Timestamp>) -> (res: Option<Timestamp>)
    ensures
        res is None <==> times@.len() == 0,
        res matches Some(t) ==> is_latest(times@, t),
{
    if times.len() == 0 {
        return None;
    }
    let mut best = times[0];
    let mut i: usize = 1;
    assert(times@.take(1)[0] == best);
    while i < times.len()
        invariant
            1 <= i <= times@.len(),
            times@.take(i as int).contains(best),
            forall|j: int| 0 <= j < i ==> times@[j] <= best,
        decreases times.len() - i,
    {
        if times[i] > best {
            best = times[i];
            assert(times@.take(i + 1)[i as int] == best);
        } else {
            proof {
                let k = choose|k: int| 0 <= k < i && times@.take(i as int)[k] == best;
                assert(times@.take(i + 1)[k] == best);
            }
        }
        i = i + 1;
    }
    assert(times@.take(i as int) =~= times@);
    Some(best)
}

/// An ember is skipped when it was built before and none of its files has
/// changed since: both times are known and the latest change is earlier than
/// the last build.
pub open spec fn skips_build(last_build: Option<Timestamp>, last_modified: Option<Timestamp>) -> bool {
    match (last_build, last_modified) {
        (Some(built), Some(modified)) => modified < built,
        _ => false,
    }
}

/// A build is skipped only when both times are known and every change came
/// strictly before the last build; a change at the very time of the build, or
/// any unknown time, means building again.
pub proof fn law_skip_only_when_built_after_every_change(
    last_build: Option<Timestamp>,
    last_modified: Option<Timestamp>,
)
    ensures
        skips_build(last_build, last_modified) <==> (last_build matches Some(b) && (last_modified matches Some(
            m,
        ) && m < b)),
        last_build is None ==> !skips_build(last_build, last_modified),
        last_modified is None ==> !skips_build(last_build, last_modified),
{
}

/// Whether an ember's build is up to date and can be skipped.
pub fn should_skip_build(last_build: Option<Timestamp>, last_modified: Option<Timestamp>) -> (res: bool)
    ensures
        res == skips_build(last_build, last_modified),
{
    match (last_build, last_modified) {
        (Some(built), Some(modified)) => modified < built,
        _ => false,
    }
}

/// Index of the last entry named `name` in a list of (name, original id).
pub open spec fn last_entry_for(local: Seq<(String, String)>, name: Seq<char>) -> Option<int>
    decreases local.len(),
{
    if local.len() == 0 {
        None
    } else if local.last().0@ == name {
        Some(local.len() - 1)
    } else {
        last_entry_for(local.drop_last(), name)
    }
}

proof fn lemma_last_entry_for(local: Seq<(String, String)>, name: Seq<char>)
    ensures
        last_entry_for(local, name) matches Some(i) ==> 0 <= i < local.len(),
    decreases local.len(),
{
    if local.len() > 0 {
        lemma_last_entry_for(local.drop_last(), name);
    }
}

fn find_last_entry(local: &Vec<(String, String)>, name: &String) -> (res: Option<usize>)
    ensures
        res matches Some(j) ==> j < local@.len() && last_entry_for(local@, name@) == Some(j as int),
        res is None ==> last_entry_for(local@, name@) is None,
{
    proof {
        lemma_last_entry_for(local@, name@);
    }
    let mut i: usize = local.len();
    assert(local@.take(i as int) =~= local@);
    while i > 0
        invariant
            i <= local@.len(),
            last_entry_for(local@, name@) == last_entry_for(local@.take(i as int), name@),
        decreases i,
    {
        assert(local@.take(i as int).drop_last() =~= local@.take(i - 1));
        if local[i - 1].0 == *name {
            assert(last_entry_for(local@.take(i as int), name@) == Some(i - 1));
            return Some(i - 1);
        }
        i = i - 1;
    }
    None
}

/// The path of a dependency after the local rewrite: a dependency that is
/// built alongside (found by its name among `local`, the last entry counting)
/// is found in the sibling directory `../{original id}`.
pub open spec fn rewritten_path(local: Seq<(String, String)>, name: Seq<char>, path: Seq<char>) -> Seq<char> {
    match last_entry_for(local, name) {
        Some(i) => joined(".."@, local[i].1@),
        None => path,
    }
}

pub open spec fn dependency_path(d: Dependency) -> Seq<char> {
    match d {
        Dependency::Path { path } => path@,
    }
}

/// The last entry for a name decides where its dependency is built: adding an
/// entry for a name points that name's dependency at `../{id}` of the new
/// entry, and leaves every other name as it was; a name not listed keeps its
/// path.
pub proof fn law_last_local_entry_counts(
    local: Seq<(String, String)>,
    entry: (String, String),
    name: Seq<char>,
    path: Seq<char>,
)
    ensures
        entry.0@ == name ==> rewritten_path(local.push(entry), name, path) == joined(".."@, entry.1@),
        entry.0@ != name ==> rewritten_path(local.push(entry), name, path) == rewritten_path(
            local,
            name,
            path,
        ),
        rewritten_path(Seq::empty(), name, path) == path,
{
    assert(local.push(entry).drop_last() =~= local);
    lemma_last_entry_for(local, name);
    if let Some(i) = last_entry_for(local, name) {
        assert(local.push(entry)[i] == local[i]);
    }
}

/// Rewriting dependency paths keeps the dependencies a map by name: names are
/// neither changed nor repeated.
pub proof fn law_rewrite_keeps_names_distinct(
    before: Seq<(String, Dependency)>,
    after: Seq<(String, Dependency)>,
)
    requires
        distinct_names(before),
        after.len() == before.len(),
        forall|i: int| 0 <= i < before.len() ==> (#[trigger] after[i]).0 == before[i].0,
    ensures
        distinct_names(after),
{
    assert forall|i: int, j: int|
        0 <= i < after.len() && 0 <= j < after.len() && i != j implies (#[trigger] after[i]).0@
        != (#[trigger] after[j]).0@ by {
        assert(after[i].0 == before[i].0);
        assert(after[j].0 == before[j].0);
        assert(before[i].0@ != before[j].0@);
    }
}

/// Points the dependencies of a locally built ember at the directories their
/// embers are built into, next to its own. `local` lists the embers built
/// alongside by name; where a name is listed twice the last entry counts, as
/// when the list is collected into a map.
pub fn rewrite_dependency_paths(deps: &mut Vec<(String, Dependency)>, local: &Vec<(String, String)>)
    ensures
        final(deps)@.len() == old(deps)@.len(),
        forall|i: int|
            0 <= i < old(deps)@.len() ==> (#[trigger] final(deps)@[i]).0 == old(deps)@[i].0
                && dependency_path(final(deps)@[i].1) == rewritten_path(
                local@,
                old(deps)@[i].0@,
                dependency_path(old(deps)@[i].1),
            ),
{
    let up = "..";
    proof {
        reveal_strlit("..");
    }
    let mut out: Vec<(String, Dependency)> = Vec::new();
    let mut i: usize = 0;
    while i < deps.len()
        invariant
            i <= deps@.len(),
            up@ == ".."@,
            out@.len() == i,
            forall|j: int|
                0 <= j < i ==> (#[trigger] out@[j]).0 == deps@[j].0 && dependency_path(out@[j].1)
                    == rewritten_path(local@, deps@[j].0@, dependency_path(deps@[j].1)),
        decreases deps.len() - i,
    {
        let name = deps[i].0.clone();
        proof {
            lemma_last_entry_for(local@, name@);
        }
        let found = find_last_entry(local, &name);
        let dep = match found {
            Some(j) => {
                let p = join_path(up, local[j].1.as_str());
                assert(p@ == rewritten_path(local@, name@, dependency_path(deps@[i as int].1)));
                Dependency::Path { path: p }
            },
            None => match &deps[i].1 {
                Dependency::Path { path } => {
                    let p = path.clone();
                    assert(p@ == rewritten_path(local@, name@, dependency_path(deps@[i as int].1)));
                    Dependency::Path { path: p }
                },
            },
        };
        out.push((name, dep));
        i = i + 1;
    }
    *deps = out;
}

} // verus!
