//! Path-scope locking: normalized paths, overlap detection between
//! path sets, and a registry of task scopes with unique identifiers.
//!
//! This guards a different resource than the document store — directory
//! trees claimed by tasks — and is purely an in-memory decision
//! structure: expanding glob patterns against the real filesystem is
//! the caller's work, and the results are handed in as resolved paths.

use vstd::prelude::*;

verus! {

/// One step of a path before normalization.
#[derive(Clone, Debug)]
pub enum PathPart {
    /// A `.` component: no effect.
    Cur,
    /// A `..` component: removes the previous named component.
    Parent,
    /// A named component.
    Name(String),
}

/// A normalized path: its named components in order.
#[derive(Debug)]
pub struct LockPath {
    pub parts: Vec<String>,
}

/// The models of a sequence of components.
pub open spec fn views_of_strings(ss: Seq<String>) -> Seq<Seq<char>> {
    ss.map_values(|s: String| s@)
}

pub broadcast proof fn lemma_views_of_strings_len(ss: Seq<String>)
    ensures
        #[trigger] views_of_strings(ss).len() == ss.len(),
{
}

impl View for LockPath {
    type V = Seq<Seq<char>>;

    open spec fn view(&self) -> Seq<Seq<char>> {
        views_of_strings(self.parts@)
    }
}

impl LockPath {
    /// Wraps already-normalized components.
    pub fn from_parts(parts: Vec<String>) -> (r: LockPath)
        ensures
            r@ == views_of_strings(parts@),
    {
        LockPath { parts }
    }

    /// A structural copy.
    pub fn duplicate(&self) -> (r: LockPath)
        ensures
            r@ == self@,
    {
        let mut parts: Vec<String> = Vec::new();
        let mut i: usize = 0;
        while i < self.parts.len()
            invariant
                i <= self.parts.len(),
                views_of_strings(parts@) == views_of_strings(self.parts@).take(i as int),
            decreases self.parts.len() - i,
        {
            let elem = self.parts[i].clone();
            let ghost before = parts@;
            parts.push(elem);
            proof {
                lemma_views_of_strings_len(before);
                lemma_views_of_strings_len(self.parts@);
                assert(before.len() == i as int);
                assert forall|k: int| 0 <= k < i + 1 implies views_of_strings(parts@)[k]
                    == views_of_strings(self.parts@).take(i + 1)[k] by {
                    if k < i {
                        assert(parts@[k] == before[k]);
                        assert(views_of_strings(before)[k] == views_of_strings(
                            self.parts@,
                        ).take(i as int)[k]);
                    }
                }
                assert(views_of_strings(parts@) =~= views_of_strings(self.parts@).take(i + 1));
            }
            i += 1;
        }
        proof {
            assert(views_of_strings(self.parts@).take(self.parts@.len() as int) =~= self@);
        }
        LockPath { parts }
    }
}

/// The effect of one component on a normalized prefix.
pub open spec fn norm_step(acc: Seq<Seq<char>>, p: PathPart) -> Seq<Seq<char>> {
    match p {
        PathPart::Cur => acc,
        PathPart::Parent => if acc.len() > 0 {
            acc.drop_last()
        } else {
            acc
        },
        PathPart::Name(s) => acc.push(s@),
    }
}

/// Normalization: `.` components vanish, `..` components remove what
/// precedes them, names accumulate in order.
pub open spec fn spec_normalize(parts: Seq<PathPart>) -> Seq<Seq<char>>
    decreases parts.len(),
{
    if parts.len() == 0 {
        Seq::empty()
    } else {
        norm_step(spec_normalize(parts.drop_last()), parts.last())
    }
}

/// Component-wise prefix: `a` is the whole of `b`'s first components.
pub open spec fn is_prefix_of(a: Seq<Seq<char>>, b: Seq<Seq<char>>) -> bool {
    a.len() <= b.len() && a == b.take(a.len() as int)
}

/// Two normalized paths overlap when they are equal or one lies under
/// the other.
pub open spec fn paths_overlap(a: Seq<Seq<char>>, b: Seq<Seq<char>>) -> bool {
    is_prefix_of(a, b) || is_prefix_of(b, a)
}

/// Whether some path of `a` overlaps some path of `b`.
pub open spec fn sets_overlap(a: Seq<Seq<Seq<char>>>, b: Seq<Seq<Seq<char>>>) -> bool {
    exists|i: int, j: int|
        0 <= i < a.len() && 0 <= j < b.len() && paths_overlap(a[i], b[j])
}

/// The models of a sequence of paths.
pub open spec fn views_of_paths(ps: Seq<LockPath>) -> Seq<Seq<Seq<char>>> {
    ps.map_values(|p: LockPath| p@)
}

/// The failures of the scope registry.
#[derive(Debug)]
pub enum PathLockError {
    /// Two claimed paths overlap: one equals or contains the other.
    Overlap(LockPath, LockPath),
    /// A glob pattern could not be expanded.
    InvalidGlob(String),
}

/// Resolves `.` and `..` against the components of an absolute path.
pub fn normalize_path(parts: &Vec<PathPart>) -> (r: LockPath)
    ensures
        r@ == spec_normalize(parts@),
{
    let mut out: Vec<String> = Vec::new();
    let mut i: usize = 0;
    while i < parts.len()
        invariant
            i <= parts.len(),
            views_of_strings(out@) == spec_normalize(parts@.take(i as int)),
        decreases parts.len() - i,
    {
        proof {
            assert(parts@.take(i + 1).drop_last() =~= parts@.take(i as int));
            assert(parts@.take(i + 1).last() == parts@[i as int]);
        }
        match &parts[i] {
            PathPart::Cur => {
            },
            PathPart::Parent => {
                if out.len() > 0 {
                    out.pop();
                    proof {
                        assert(views_of_strings(out@) =~= spec_normalize(parts@.take(i as int)).drop_last());
                    }
                }
            },
            PathPart::Name(s) => {
                out.push(s.clone());
                proof {
                    assert(views_of_strings(out@) =~= spec_normalize(parts@.take(i as int)).push(s@));
                }
            },
        }
        i += 1;
    }
    proof {
        assert(parts@.take(parts@.len() as int) =~= parts@);
    }
    LockPath { parts: out }
}

/// Whether `prefix` is a component-wise prefix of `p`.
fn starts_with(p: &LockPath, prefix: &LockPath) -> (r: bool)
    ensures
        r == is_prefix_of(prefix@, p@),
{
    if prefix.parts.len() > p.parts.len() {
        proof {
            assert(!is_prefix_of(prefix@, p@));
        }
        return false;
    }
    let mut i: usize = 0;
    while i < prefix.parts.len()
        invariant
            i <= prefix.parts.len() <= p.parts.len(),
            forall|k: int| 0 <= k < i ==> prefix@[k] == p@[k],
        decreases prefix.parts.len() - i,
    {
        if !p.parts[i].eq(&prefix.parts[i]) {
            proof {
                assert(prefix@[i as int] != p@[i as int]);
                assert(p@.take(prefix@.len() as int)[i as int] == p@[i as int]);
            }
            return false;
        }
        i += 1;
    }
    proof {
        assert(prefix@ =~= p@.take(prefix@.len() as int));
    }
    true
}

/// Whether two normalized paths are equal or nested.
fn overlaps(a: &LockPath, b: &LockPath) -> (r: bool)
    ensures
        r == paths_overlap(a@, b@),
{
    starts_with(a, b) || starts_with(b, a)
}

/// One task's claimed scope.
#[derive(Debug)]
pub struct TaskScope {
    pub id: String,
    pub glob_patterns: Vec<String>,
    pub resolved_paths: Vec<LockPath>,
    pub locked: bool,
}

/// No two registered scopes share an identifier.
pub open spec fn unique_ids(ss: Seq<TaskScope>) -> bool {
    forall|i: int, j: int| 0 <= i < j < ss.len() ==> ss[i].id@ != ss[j].id@
}

/// The scopes whose identifier is not `id`, in order.
pub open spec fn scopes_without(ss: Seq<TaskScope>, id: Seq<char>) -> Seq<TaskScope>
    decreases ss.len(),
{
    if ss.len() == 0 {
        Seq::empty()
    } else if ss[0].id@ == id {
        scopes_without(ss.skip(1), id)
    } else {
        seq![ss[0]] + scopes_without(ss.skip(1), id)
    }
}

/// The registry of task scopes.
pub struct PathLockManager {
    pub scopes: Vec<TaskScope>,
}

impl PathLockManager {
    /// Registered scopes have pairwise distinct identifiers.
    pub open spec fn wf(&self) -> bool {
        unique_ids(self.scopes@)
    }

    pub fn new() -> (r: Self)
        ensures
            r.scopes@.len() == 0,
            r.wf(),
    {
        PathLockManager { scopes: Vec::new() }
    }

    /// Finds one overlapping pair between two path sets, if any exists.
    pub fn has_overlap(paths1: &Vec<LockPath>, paths2: &Vec<LockPath>) -> (r: Option<
        (LockPath, LockPath),
    >)
        ensures
            r is Some <==> sets_overlap(views_of_paths(paths1@), views_of_paths(paths2@)),
            (r matches Some(p) ==> paths_overlap(p.0@, p.1@)),
            (r matches Some(p) ==> exists|i: int, j: int|
                0 <= i < paths1@.len() && 0 <= j < paths2@.len() && p.0@ == paths1@[i]@ && p.1@
                    == paths2@[j]@),
    {
        let mut i: usize = 0;
        while i < paths1.len()
            invariant
                i <= paths1.len(),
                forall|a: int, b: int|
                    0 <= a < i && 0 <= b < paths2@.len() ==> !paths_overlap(
                        views_of_paths(paths1@)[a],
                        views_of_paths(paths2@)[b],
                    ),
            decreases paths1.len() - i,
        {
            let mut j: usize = 0;
            while j < paths2.len()
                invariant
                    i < paths1.len(),
                    j <= paths2.len(),
                    forall|b: int| 0 <= b < j ==> !paths_overlap(
                        views_of_paths(paths1@)[i as int],
                        views_of_paths(paths2@)[b],
                    ),
                decreases paths2.len() - j,
            {
                if overlaps(&paths1[i], &paths2[j]) {
                    let p1 = paths1[i].duplicate();
                    let p2 = paths2[j].duplicate();
                    proof {
                        assert(views_of_paths(paths1@)[i as int] == paths1@[i as int]@);
                        assert(views_of_paths(paths2@)[j as int] == paths2@[j as int]@);
                        assert(paths_overlap(
                            views_of_paths(paths1@)[i as int],
                            views_of_paths(paths2@)[j as int],
                        ));
                        assert(sets_overlap(views_of_paths(paths1@), views_of_paths(paths2@)));
                    }
                    return Some((p1, p2));
                }
                j += 1;
            }
            i += 1;
        }
        proof {
            assert(!sets_overlap(views_of_paths(paths1@), views_of_paths(paths2@)));
        }
        None
    }

    /// Registers a scope after checking it against every existing one.
    /// An overlap is refused unless `allow_override` is set; a refused
    /// registration changes nothing. Registering an identifier again
    /// replaces its previous scope.
    pub fn add_scope(
        &mut self,
        task_id: &str,
        patterns: Vec<String>,
        resolved: Vec<LockPath>,
        allow_override: bool,
    ) -> (r: Result<(), PathLockError>)
        requires
            old(self).wf(),
        ensures
            final(self).wf(),
            (r matches Err(e) ==> *final(self) == *old(self) && !allow_override && e is Overlap
                && (exists|k: int|
                    0 <= k < old(self).scopes@.len() && sets_overlap(
                        views_of_paths(resolved@),
                        views_of_paths(old(self).scopes@[k].resolved_paths@),
                    ))),
            (r matches Err(e) ==> (e matches PathLockError::Overlap(a, b) && paths_overlap(
                a@,
                b@,
            ))),
            r is Ok ==> final(self).scopes@.len() == scopes_without(
                old(self).scopes@,
                task_id@,
            ).len() + 1,
            r is Ok ==> final(self).scopes@.drop_last() == scopes_without(
                old(self).scopes@,
                task_id@,
            ),
            r is Ok ==> (final(self).scopes@.last().id@ == task_id@
                && final(self).scopes@.last().glob_patterns == patterns
                && final(self).scopes@.last().resolved_paths == resolved
                && final(self).scopes@.last().locked == true),
    {
        let mut k: usize = 0;
        while k < self.scopes.len()
            invariant
                k <= self.scopes.len(),
                *self == *old(self),
                unique_ids(self.scopes@),
            decreases self.scopes.len() - k,
        {
            if !allow_override {
                match Self::has_overlap(&resolved, &self.scopes[k].resolved_paths) {
                    Some((p1, p2)) => {
                        return Err(PathLockError::Overlap(p1, p2));
                    },
                    None => {
                    },
                }
            }
            k += 1;
        }
        self.remove_scope(task_id);
        let scope = TaskScope {
            id: task_id.to_owned(),
            glob_patterns: patterns,
            resolved_paths: resolved,
            locked: true,
        };
        self.scopes.push(scope);
        proof {
            assert(self.scopes@.drop_last() =~= scopes_without(old(self).scopes@, task_id@));
        }
        Ok(())
    }

    /// Unregisters a scope; unknown identifiers change nothing.
    pub fn remove_scope(&mut self, task_id: &str)
        requires
            old(self).wf(),
        ensures
            final(self).wf(),
            final(self).scopes@ == scopes_without(old(self).scopes@, task_id@),
            forall|k: int|
                0 <= k < final(self).scopes@.len() ==> #[trigger] final(self).scopes@[k].id@
                    != task_id@,
    {
        let needle: String = task_id.to_owned();
        let mut i: usize = 0;
        proof {
            assert(self.scopes@.take(0) =~= Seq::<TaskScope>::empty());
            assert(self.scopes@.skip(0) =~= self.scopes@);
            assert(Seq::<TaskScope>::empty() + scopes_without(self.scopes@, task_id@)
                =~= scopes_without(self.scopes@, task_id@));
        }
        while i < self.scopes.len()
            invariant
                i <= self.scopes.len(),
                needle@ == task_id@,
                unique_ids(self.scopes@),
                forall|k: int| 0 <= k < i ==> #[trigger] self.scopes@[k].id@ != task_id@,
                scopes_without(old(self).scopes@, task_id@) == self.scopes@.take(i as int)
                    + scopes_without(self.scopes@.skip(i as int), task_id@),
            decreases self.scopes.len() - i,
        {
            let ghost pre = self.scopes@;
            proof {
                assert(pre.skip(i as int)[0] == pre[i as int]);
                assert(pre.skip(i as int).skip(1) =~= pre.skip(i as int + 1));
            }
            if self.scopes[i].id.eq(&needle) {
                self.scopes.remove(i);
                proof {
                    assert(self.scopes@ =~= pre.take(i as int) + pre.skip(i as int + 1));
                    assert(self.scopes@.take(i as int) =~= pre.take(i as int));
                    assert(self.scopes@.skip(i as int) =~= pre.skip(i as int + 1));
                    assert(unique_ids(self.scopes@)) by {
                        assert forall|a: int, b: int|
                            0 <= a < b < self.scopes@.len() implies self.scopes@[a].id@
                            != self.scopes@[b].id@ by {
                            let a2: int = if a < i { a } else { a + 1 };
                            let b2: int = if b < i { b } else { b + 1 };
                            assert(self.scopes@[a] == pre[a2]);
                            assert(self.scopes@[b] == pre[b2]);
                        }
                    }
                }
            } else {
                proof {
                    assert(scopes_without(pre.skip(i as int), task_id@) == seq![pre[i as int]]
                        + scopes_without(pre.skip(i as int + 1), task_id@));
                    assert(pre.take(i as int) + (seq![pre[i as int]] + scopes_without(
                        pre.skip(i as int + 1),
                        task_id@,
                    )) =~= pre.take(i + 1) + scopes_without(pre.skip(i as int + 1), task_id@));
                }
                i += 1;
            }
        }
        proof {
            assert(self.scopes@.take(i as int) =~= self.scopes@);
            assert(scopes_without(self.scopes@.skip(i as int), task_id@) == Seq::<
                TaskScope,
            >::empty());
            assert(self.scopes@ + Seq::<TaskScope>::empty() =~= self.scopes@);
        }
    }

    /// The identifiers of every registered scope whose claimed paths
    /// overlap the given set, in registration order.
    pub fn find_conflicts(&self, paths: &Vec<LockPath>) -> (r: Vec<String>)
        ensures
            views_of_strings(r@) == conflict_ids(self.scopes@, views_of_paths(paths@)),
    {
        let mut out: Vec<String> = Vec::new();
        let mut i: usize = 0;
        while i < self.scopes.len()
            invariant
                i <= self.scopes.len(),
                views_of_strings(out@) == conflict_ids(
                    self.scopes@.take(i as int),
                    views_of_paths(paths@),
                ),
            decreases self.scopes.len() - i,
        {
            proof {
                assert(self.scopes@.take(i + 1).drop_last() =~= self.scopes@.take(i as int));
                assert(self.scopes@.take(i + 1).last() == self.scopes@[i as int]);
            }
            if Self::has_overlap(paths, &self.scopes[i].resolved_paths).is_some() {
                out.push(self.scopes[i].id.clone());
                proof {
                    assert(views_of_strings(out@) =~= conflict_ids(
                        self.scopes@.take(i as int),
                        views_of_paths(paths@),
                    ).push(self.scopes@[i as int].id@));
                }
            }
            i += 1;
        }
        proof {
            assert(self.scopes@.take(self.scopes@.len() as int) =~= self.scopes@);
        }
        out
    }
}

/// The identifiers of the scopes in `ss` that overlap `paths`.
pub open spec fn conflict_ids(ss: Seq<TaskScope>, paths: Seq<Seq<Seq<char>>>) -> Seq<Seq<char>>
    decreases ss.len(),
{
    if ss.len() == 0 {
        Seq::empty()
    } else if sets_overlap(paths, views_of_paths(ss.last().resolved_paths@)) {
        conflict_ids(ss.drop_last(), paths).push(ss.last().id@)
    } else {
        conflict_ids(ss.drop_last(), paths)
    }
}

} // verus!
