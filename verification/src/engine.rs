//! The traversal engine: which directories a run expands, which files it
//! reports, and the driver that drains the task queue until quiescence.

use vstd::prelude::*;
use vstd::pervasive::unreached;
use crate::entries::{classify, Action};
use crate::paths::{is_dot, join_seq, valid_dir_path, valid_name};
use crate::paths::{lemma_join_injective, lemma_join_len, lemma_join_valid};
use crate::queue::TaskQueue;
use crate::volume::Volume;

verus! {

/// Directory `d` is expanded by a traversal of `v` rooted at `root`: it is
/// the root itself, or a subdirectory entry of some expanded directory that
/// the volume opens.  A directory whose open fails is still expanded (a
/// worker receives it and gives up on it); its children are not.
pub open spec fn is_expanded(v: Volume, root: Seq<char>, d: Seq<char>) -> bool
    decreases d.len(),
{
    ||| d == root
    ||| exists|i: int, j: int|
        {
            &&& #[trigger] v.dir_child(i, j)
            &&& v.dirs@[i].path@.len() < d.len()
            &&& d == join_seq(v.dirs@[i].path@, v.dirs@[i].entries@[j].name@)
            &&& is_expanded(v, root, v.dirs@[i].path@)
        }
}

/// Path `f` names a regular file that the traversal reaches: a file entry
/// of an expanded directory that the volume opens.
pub open spec fn is_reachable_file(v: Volume, root: Seq<char>, f: Seq<char>) -> bool {
    exists|i: int, j: int|
        {
            &&& #[trigger] v.file_child(i, j)
            &&& is_expanded(v, root, v.dirs@[i].path@)
            &&& f == join_seq(v.dirs@[i].path@, v.dirs@[i].entries@[j].name@)
        }
}

/// Directory `d` is expanded but its open fails: one contained subtree
/// error.
pub open spec fn is_failed_dir(v: Volume, root: Seq<char>, d: Seq<char>) -> bool {
    is_expanded(v, root, d) && !v.opens(d)
}

/// The directories a run has discovered: those already drained plus those
/// still queued.
pub open spec fn discovered(done: Set<Seq<char>>, q: Seq<Seq<char>>) -> Set<Seq<char>> {
    done.union(q.to_set())
}

/// What the driver knows of every discovered directory path.
pub open spec fn task_sound(v: Volume, root: Seq<char>, d: Seq<char>) -> bool {
    &&& is_expanded(v, root, d)
    &&& valid_dir_path(d)
    &&& (d == root || d.len() > root.len())
}

/// `d` is the path of a subdirectory entry of some drained directory.
pub open spec fn child_of_drained(v: Volume, done: Set<Seq<char>>, d: Seq<char>) -> bool {
    exists|i: int, j: int|
        {
            &&& #[trigger] v.dir_child(i, j)
            &&& done.contains(v.dirs@[i].path@)
            &&& d == join_seq(v.dirs@[i].path@, v.dirs@[i].entries@[j].name@)
        }
}

/// `d` is a subdirectory entry of a drained directory, or one of the first
/// `jcur` entries of directory `di`, the one being expanded right now.
pub open spec fn child_seen(v: Volume, done: Set<Seq<char>>, di: int, jcur: int, d: Seq<char>) -> bool {
    exists|i: int, j: int|
        {
            &&& #[trigger] v.dir_child(i, j)
            &&& (done.contains(v.dirs@[i].path@) || (i == di && j < jcur))
            &&& d == join_seq(v.dirs@[i].path@, v.dirs@[i].entries@[j].name@)
        }
}

/// `f` is a file entry of some drained directory.
pub open spec fn file_of_drained(v: Volume, done: Set<Seq<char>>, f: Seq<char>) -> bool {
    exists|i: int, j: int|
        {
            &&& #[trigger] v.file_child(i, j)
            &&& done.contains(v.dirs@[i].path@)
            &&& f == join_seq(v.dirs@[i].path@, v.dirs@[i].entries@[j].name@)
        }
}

/// `f` is a file entry of a drained directory, or one of the first `jcur`
/// entries of directory `di`, the one being expanded right now.
pub open spec fn file_seen(v: Volume, done: Set<Seq<char>>, di: int, jcur: int, f: Seq<char>) -> bool {
    exists|i: int, j: int|
        {
            &&& #[trigger] v.file_child(i, j)
            &&& (done.contains(v.dirs@[i].path@) || (i == di && j < jcur))
            &&& f == join_seq(v.dirs@[i].path@, v.dirs@[i].entries@[j].name@)
        }
}

/// How many of the first `k` listings of the volume name a directory that
/// has not been drained yet: the termination measure of the driver.
pub open spec fn undrained_dirs(v: Volume, done: Set<Seq<char>>, k: int) -> nat
    decreases k,
{
    if k <= 0 {
        0
    } else {
        undrained_dirs(v, done, k - 1) + (if done.contains(v.dirs@[k - 1].path@) {
            0nat
        } else {
            1nat
        })
    }
}

/// Draining a path that names no listing leaves the measure unchanged.
proof fn lemma_undrained_insert_absent(v: Volume, done: Set<Seq<char>>, t: Seq<char>, k: int)
    requires
        forall|i: int| 0 <= i < k ==> (#[trigger] v.dirs@[i].path@) != t,
    ensures
        undrained_dirs(v, done.insert(t), k) == undrained_dirs(v, done, k),
    decreases k,
{
    if k > 0 {
        lemma_undrained_insert_absent(v, done, t, k - 1);
    }
}

/// Draining the path of listing `di` decreases the measure by one.
proof fn lemma_undrained_insert_present(
    v: Volume,
    done: Set<Seq<char>>,
    t: Seq<char>,
    di: int,
    k: int,
)
    requires
        v.wf(),
        0 <= di < k,
        k <= v.dirs@.len(),
        v.dirs@[di].path@ == t,
        !done.contains(t),
    ensures
        undrained_dirs(v, done.insert(t), k) + 1 == undrained_dirs(v, done, k),
    decreases k,
{
    if k - 1 == di {
        assert forall|i: int| 0 <= i < k - 1 implies (#[trigger] v.dirs@[i].path@) != t by {
            assert(v.dirs@[i].path@ != v.dirs@[di].path@);
        }
        lemma_undrained_insert_absent(v, done, t, k - 1);
    } else {
        assert(v.dirs@[k - 1].path@ != v.dirs@[di].path@);
        lemma_undrained_insert_present(v, done, t, di, k - 1);
    }
}

/// Appending a fresh element extends the element set by exactly that value.
proof fn lemma_push_to_set<A>(q: Seq<A>, x: A)
    ensures
        q.push(x).to_set() == q.to_set().insert(x),
{
    assert forall|d: A| q.push(x).to_set().contains(d) implies q.to_set().insert(x).contains(d) by {
        let i = choose|i: int| 0 <= i < q.push(x).len() && q.push(x)[i] == d;
        if i < q.len() {
            assert(q[i] == d);
        }
    }
    assert forall|d: A| q.to_set().insert(x).contains(d) implies q.push(x).to_set().contains(d) by {
        if d == x {
            assert(q.push(x)[q.len() as int] == d);
        } else {
            let i = choose|i: int| 0 <= i < q.len() && q[i] == d;
            assert(q.push(x)[i] == d);
        }
    }
    assert(q.push(x).to_set() =~= q.to_set().insert(x));
}

/// Appending an element not yet present keeps a sequence duplicate-free.
proof fn lemma_push_no_dup<A>(q: Seq<A>, x: A)
    requires
        q.no_duplicates(),
        !q.contains(x),
    ensures
        q.push(x).no_duplicates(),
{
}

/// Removing the last element of a duplicate-free sequence removes exactly
/// that value from its element set.
proof fn lemma_drop_last_to_set<A>(q: Seq<A>)
    requires
        q.len() > 0,
        q.no_duplicates(),
    ensures
        !q.drop_last().contains(q.last()),
        q.to_set() == q.drop_last().to_set().insert(q.last()),
    decreases q.len(),
{
    assert(q =~= q.drop_last().push(q.last()));
    lemma_push_to_set(q.drop_last(), q.last());
}

/// Once the queue has drained, every directory the traversal expands has in
/// fact been drained: the drained set contains the root and is closed under
/// taking subdirectory entries, and `is_expanded` is the least such set.
pub proof fn lemma_expanded_is_drained(
    v: Volume,
    root: Seq<char>,
    done: Set<Seq<char>>,
    d: Seq<char>,
)
    requires
        done.contains(root),
        forall|i: int, j: int|
            #[trigger] v.dir_child(i, j) && done.contains(v.dirs@[i].path@) ==> done.contains(
                join_seq(v.dirs@[i].path@, v.dirs@[i].entries@[j].name@),
            ),
        is_expanded(v, root, d),
    ensures
        done.contains(d),
    decreases d.len(),
{
    if d != root {
        let (i, j) = choose|i: int, j: int|
            {
                &&& #[trigger] v.dir_child(i, j)
                &&& v.dirs@[i].path@.len() < d.len()
                &&& d == join_seq(v.dirs@[i].path@, v.dirs@[i].entries@[j].name@)
                &&& is_expanded(v, root, v.dirs@[i].path@)
            };
        lemma_expanded_is_drained(v, root, done, v.dirs@[i].path@);
    }
}

/// What one traversal run reports: the full paths of the regular files it
/// reached, and the paths of the directories whose open failed.
pub struct TraversalOutcome {
    pub files: Vec<String>,
    pub failed: Vec<String>,
}

impl TraversalOutcome {
    /// The summary count of failed subtrees reported at the end of a run.
    pub fn failed_count(&self) -> (n: usize)
        ensures
            n == self.failed.deep_view().len(),
    {
        self.failed.len()
    }
}

/// Drains the task queue until quiescence, expanding one directory per
/// step: exactly what the worker pool does concurrently, stated as one
/// sequential driver so that the outcome is pinned down as a function of
/// the volume and the root alone.
///
/// The run reports every regular file reachable from the root exactly once,
/// whatever order the queue hands tasks out in, and reports one failure per
/// expanded directory whose open fails without abandoning the rest of the
/// tree.
#[verifier::loop_isolation(false)]
pub fn traverse(vol: &Volume, root: &String) -> (out: TraversalOutcome)
    requires
        vol.wf(),
        valid_dir_path(root@),
    ensures
        out.files.deep_view().no_duplicates(),
        forall|f: Seq<char>| #[trigger]
            out.files.deep_view().contains(f) <==> is_reachable_file(*vol, root@, f),
        out.failed.deep_view().no_duplicates(),
        forall|d: Seq<char>| #[trigger]
            out.failed.deep_view().contains(d) <==> is_failed_dir(*vol, root@, d),
{
    let mut queue = TaskQueue::new();
    let mut files: Vec<String> = Vec::new();
    let mut failed: Vec<String> = Vec::new();
    let ghost mut done: Set<Seq<char>> = Set::<Seq<char>>::empty();
    queue.enqueue(root.clone());
    proof {
        lemma_push_to_set(Seq::<Seq<char>>::empty(), root@);
        assert(queue.tasks() =~= Seq::<Seq<char>>::empty().push(root@));
        assert(files.deep_view() =~= Seq::<Seq<char>>::empty());
        assert(failed.deep_view() =~= Seq::<Seq<char>>::empty());
    }
    while !queue.is_quiescent()
        invariant
            queue.wf(),
            !queue.is_closed(),
            queue.in_flight() == queue.tasks().len(),
            queue.tasks().no_duplicates(),
            forall|k: int|
                0 <= k < queue.tasks().len() ==> !done.contains(#[trigger] queue.tasks()[k]),
            discovered(done, queue.tasks()).contains(root@),
            forall|d: Seq<char>| #[trigger]
                discovered(done, queue.tasks()).contains(d) ==> task_sound(*vol, root@, d),
            forall|d: Seq<char>| #[trigger]
                discovered(done, queue.tasks()).contains(d) && d != root@ ==> child_of_drained(
                    *vol,
                    done,
                    d,
                ),
            forall|i: int, j: int| #[trigger]
                vol.dir_child(i, j) && done.contains(vol.dirs@[i].path@) ==> discovered(
                    done,
                    queue.tasks(),
                ).contains(join_seq(vol.dirs@[i].path@, vol.dirs@[i].entries@[j].name@)),
            files.deep_view().no_duplicates(),
            forall|f: Seq<char>| #[trigger]
                files.deep_view().contains(f) <==> file_of_drained(*vol, done, f),
            failed.deep_view().no_duplicates(),
            forall|d: Seq<char>| #[trigger]
                failed.deep_view().contains(d) <==> (done.contains(d) && !vol.opens(d)),
        decreases undrained_dirs(*vol, done, vol.dirs@.len() as int), queue.tasks().len(),
    {
        let ghost q_before = queue.tasks();
        let t = match queue.dequeue() {
            Some(t) => t,
            None => unreached(),
        };
        let ghost tv = t@;
        proof {
            lemma_drop_last_to_set(q_before);
            assert(q_before.to_set().contains(tv));
            assert(discovered(done, q_before).contains(tv));
            assert(!done.contains(tv));
            assert(task_sound(*vol, root@, tv));
        }
        match vol.open_dir(&t) {
            None => {
                queue.mark_done();
                let ghost fd0 = failed.deep_view();
                proof {
                    assert(!fd0.contains(tv));
                }
                failed.push(t);
                proof {
                    assert(failed.deep_view() =~= fd0.push(tv));
                    lemma_push_no_dup(fd0, tv);
                    lemma_push_to_set(fd0, tv);
                    assert forall|i: int| 0 <= i < vol.dirs@.len() implies (
                    #[trigger] vol.dirs@[i].path@) != tv by {
                        if vol.dirs@[i].path@ == tv {
                            assert(vol.opens(tv));
                        }
                    }
                    lemma_undrained_insert_absent(*vol, done, tv, vol.dirs@.len() as int);
                    let ghost done1 = done.insert(tv);
                    assert(discovered(done1, queue.tasks()) =~= discovered(done, q_before));
                    assert forall|k: int| 0 <= k < queue.tasks().len() implies !done1.contains(
                        #[trigger] queue.tasks()[k],
                    ) by {
                        assert(queue.tasks()[k] == q_before[k]);
                        assert(q_before[k] != q_before[q_before.len() - 1]);
                    }
                    assert forall|d: Seq<char>| #[trigger]
                        discovered(done1, queue.tasks()).contains(d) && d != root@ implies
                    child_of_drained(*vol, done1, d) by {
                        assert(discovered(done, q_before).contains(d));
                        assert(child_of_drained(*vol, done, d));
                        let (i2, j2) = choose|i2: int, j2: int|
                            {
                                &&& #[trigger] vol.dir_child(i2, j2)
                                &&& done.contains(vol.dirs@[i2].path@)
                                &&& d == join_seq(
                                    vol.dirs@[i2].path@,
                                    vol.dirs@[i2].entries@[j2].name@,
                                )
                            };
                        assert(done1.contains(vol.dirs@[i2].path@));
                    }
                    assert forall|i2: int, j2: int| #[trigger]
                        vol.dir_child(i2, j2) && done1.contains(vol.dirs@[i2].path@) implies
                    discovered(done1, queue.tasks()).contains(
                        join_seq(vol.dirs@[i2].path@, vol.dirs@[i2].entries@[j2].name@),
                    ) by {
                        assert(vol.dirs@[i2].path@ != tv);
                        assert(done.contains(vol.dirs@[i2].path@));
                        assert(discovered(done, q_before).contains(
                            join_seq(vol.dirs@[i2].path@, vol.dirs@[i2].entries@[j2].name@),
                        ));
                    }
                    assert forall|f: Seq<char>| #[trigger]
                        files.deep_view().contains(f) implies file_of_drained(*vol, done1, f) by {
                        assert(file_of_drained(*vol, done, f));
                        let (i2, j2) = choose|i2: int, j2: int|
                            {
                                &&& #[trigger] vol.file_child(i2, j2)
                                &&& done.contains(vol.dirs@[i2].path@)
                                &&& f == join_seq(
                                    vol.dirs@[i2].path@,
                                    vol.dirs@[i2].entries@[j2].name@,
                                )
                            };
                        assert(done1.contains(vol.dirs@[i2].path@));
                    }
                    assert forall|f: Seq<char>| file_of_drained(*vol, done1, f) implies #[trigger]
                    files.deep_view().contains(f) by {
                        let (i2, j2) = choose|i2: int, j2: int|
                            {
                                &&& #[trigger] vol.file_child(i2, j2)
                                &&& done1.contains(vol.dirs@[i2].path@)
                                &&& f == join_seq(
                                    vol.dirs@[i2].path@,
                                    vol.dirs@[i2].entries@[j2].name@,
                                )
                            };
                        assert(vol.dirs@[i2].path@ != tv);
                        assert(done.contains(vol.dirs@[i2].path@));
                        assert(file_of_drained(*vol, done, f));
                    }
                    assert forall|d: Seq<char>| #[trigger]
                        failed.deep_view().contains(d) implies (done1.contains(d) && !vol.opens(
                        d,
                    )) by {
                        if d != tv {
                            let i = choose|i: int|
                                0 <= i < failed.deep_view().len() && failed.deep_view()[i] == d;
                            assert(fd0[i] == d);
                            assert(fd0.contains(d));
                        } else {
                            assert(!vol.opens(tv));
                        }
                    }
                    assert forall|d: Seq<char>| done1.contains(d) && !vol.opens(d) implies
                    #[trigger] failed.deep_view().contains(d) by {
                        if d == tv {
                            assert(failed.deep_view()[fd0.len() as int] == tv);
                            assert(failed.deep_view().contains(d));
                        } else {
                            assert(done.contains(d));
                            assert(fd0.contains(d));
                            let i = choose|i: int| 0 <= i < fd0.len() && fd0[i] == d;
                            assert(failed.deep_view()[i] == d);
                            assert(failed.deep_view().contains(d));
                        }
                    }
                    done = done1;
                }
            },
            Some(di) => {
                let ghost dii = di as int;
                proof {
                    assert forall|d: Seq<char>| #[trigger]
                        discovered(done, queue.tasks()).contains(d) implies discovered(
                        done,
                        q_before,
                    ).contains(d) by {
                        if queue.tasks().to_set().contains(d) {
                            assert(q_before.to_set().contains(d));
                        }
                    }
                    assert(discovered(done, q_before) =~= discovered(
                        done,
                        queue.tasks(),
                    ).insert(tv));
                    assert forall|k: int| 0 <= k < queue.tasks().len() implies
                    queue.tasks()[k] != tv by {
                        assert(queue.tasks()[k] == q_before[k]);
                        assert(q_before[k] != q_before[q_before.len() - 1]);
                    }
                    assert forall|d: Seq<char>| #[trigger]
                        discovered(done, queue.tasks()).contains(d) && d != root@ implies
                    child_seen(*vol, done, dii, 0, d) by {
                        assert(child_of_drained(*vol, done, d));
                        let (i2, j2) = choose|i2: int, j2: int|
                            {
                                &&& #[trigger] vol.dir_child(i2, j2)
                                &&& done.contains(vol.dirs@[i2].path@)
                                &&& d == join_seq(
                                    vol.dirs@[i2].path@,
                                    vol.dirs@[i2].entries@[j2].name@,
                                )
                            };
                        assert(vol.dir_child(i2, j2) && (done.contains(vol.dirs@[i2].path@) || (
                        i2 == dii && j2 < 0)) && d == join_seq(
                            vol.dirs@[i2].path@,
                            vol.dirs@[i2].entries@[j2].name@,
                        ));
                    }
                    assert forall|f: Seq<char>| #[trigger]
                        files.deep_view().contains(f) implies file_seen(*vol, done, dii, 0, f) by {
                        assert(file_of_drained(*vol, done, f));
                        let (i2, j2) = choose|i2: int, j2: int|
                            {
                                &&& #[trigger] vol.file_child(i2, j2)
                                &&& done.contains(vol.dirs@[i2].path@)
                                &&& f == join_seq(
                                    vol.dirs@[i2].path@,
                                    vol.dirs@[i2].entries@[j2].name@,
                                )
                            };
                        assert(vol.file_child(i2, j2) && (done.contains(vol.dirs@[i2].path@) || (
                        i2 == dii && j2 < 0)) && f == join_seq(
                            vol.dirs@[i2].path@,
                            vol.dirs@[i2].entries@[j2].name@,
                        ));
                    }
                    assert forall|f: Seq<char>| file_seen(*vol, done, dii, 0, f) implies #[trigger]
                    files.deep_view().contains(f) by {
                        let (i2, j2) = choose|i2: int, j2: int|
                            {
                                &&& #[trigger] vol.file_child(i2, j2)
                                &&& (done.contains(vol.dirs@[i2].path@) || (i2 == dii && j2 < 0))
                                &&& f == join_seq(
                                    vol.dirs@[i2].path@,
                                    vol.dirs@[i2].entries@[j2].name@,
                                )
                            };
                        assert(file_of_drained(*vol, done, f));
                    }
                }
                let dir = &vol.dirs[di];
                let m = dir.entries.len();
                let mut j: usize = 0;
                while j < m
                    invariant
                        0 <= j <= m,
                        queue.wf(),
                        !queue.is_closed(),
                        queue.in_flight() == queue.tasks().len() + 1,
                        queue.tasks().no_duplicates(),
                        forall|k: int|
                            0 <= k < queue.tasks().len() ==> !done.contains(
                                #[trigger] queue.tasks()[k],
                            ) && queue.tasks()[k] != tv,
                        discovered(done, queue.tasks()).contains(root@) || tv == root@,
                        forall|d: Seq<char>| #[trigger]
                            discovered(done, queue.tasks()).contains(d) ==> task_sound(
                                *vol,
                                root@,
                                d,
                            ),
                        forall|d: Seq<char>| #[trigger]
                            discovered(done, queue.tasks()).contains(d) && d != root@
                                ==> child_seen(*vol, done, dii, j as int, d),
                        forall|i2: int, j2: int| #[trigger]
                            vol.dir_child(i2, j2) && done.contains(vol.dirs@[i2].path@)
                                ==> discovered(done, queue.tasks()).insert(tv).contains(
                                join_seq(vol.dirs@[i2].path@, vol.dirs@[i2].entries@[j2].name@),
                            ),
                        forall|j2: int|
                            0 <= j2 < j && #[trigger] vol.dir_child(dii, j2)
                                ==> queue.tasks().to_set().contains(
                                join_seq(tv, vol.dirs@[dii].entries@[j2].name@),
                            ),
                        files.deep_view().no_duplicates(),
                        forall|f: Seq<char>| #[trigger]
                            files.deep_view().contains(f) <==> file_seen(
                                *vol,
                                done,
                                dii,
                                j as int,
                                f,
                            ),
                    decreases m - j,
                {
                    let e = &dir.entries[j];
                    let ghost nv = e.name@;
                    let act = classify(&t, e);
                    match act {
                        Action::Expand(c) => {
                            let ghost cv = c@;
                            let ghost q_cur = queue.tasks();
                            proof {
                                assert(vol.dir_child(dii, j as int));
                                lemma_join_len(tv, nv);
                                lemma_join_valid(tv, nv);
                                assert(cv != tv);
                                assert(cv.len() > root@.len());
                                assert(cv != root@);
                                if discovered(done, q_cur).contains(cv) {
                                    assert(child_seen(*vol, done, dii, j as int, cv));
                                    let (i2, j2) = choose|i2: int, j2: int|
                                        {
                                            &&& #[trigger] vol.dir_child(i2, j2)
                                            &&& (done.contains(vol.dirs@[i2].path@) || (i2 == dii
                                                && j2 < j))
                                            &&& cv == join_seq(
                                                vol.dirs@[i2].path@,
                                                vol.dirs@[i2].entries@[j2].name@,
                                            )
                                        };
                                    lemma_join_injective(
                                        tv,
                                        nv,
                                        vol.dirs@[i2].path@,
                                        vol.dirs@[i2].entries@[j2].name@,
                                    );
                                    assert(vol.dirs@[i2].path@ == tv);
                                    if done.contains(vol.dirs@[i2].path@) {
                                        assert(false);
                                    } else {
                                        assert(i2 == dii && j2 < j);
                                        assert(vol.dirs@[dii].entries@[j2].name@ == nv);
                                        assert(false);
                                    }
                                }
                                assert(!q_cur.contains(cv));
                                lemma_push_no_dup(q_cur, cv);
                                lemma_push_to_set(q_cur, cv);
                            }
                            // Reading the pending count bounds it by the
                            // machine word, which keeps the in-flight
                            // counter's increment in range.
                            let _cap = queue.pending();
                            queue.enqueue(c);
                            proof {
                                assert(discovered(done, queue.tasks()) =~= discovered(
                                    done,
                                    q_cur,
                                ).insert(cv));
                                assert forall|d: Seq<char>|
                                    discovered(done, q_cur).insert(tv).contains(d) implies
                                discovered(done, queue.tasks()).insert(tv).contains(d) by {}
                                assert forall|d: Seq<char>| #[trigger]
                                    discovered(done, queue.tasks()).contains(d) && d != root@
                                    implies child_seen(*vol, done, dii, j + 1, d) by {
                                    if d == cv {
                                        assert(vol.dir_child(dii, j as int));
                                        assert(d == join_seq(
                                            vol.dirs@[dii].path@,
                                            vol.dirs@[dii].entries@[j as int].name@,
                                        ));
                                    } else {
                                        assert(discovered(done, q_cur).contains(d));
                                        let (i2, j2) = choose|i2: int, j2: int|
                                            {
                                                &&& #[trigger] vol.dir_child(i2, j2)
                                                &&& (done.contains(vol.dirs@[i2].path@) || (i2
                                                    == dii && j2 < j))
                                                &&& d == join_seq(
                                                    vol.dirs@[i2].path@,
                                                    vol.dirs@[i2].entries@[j2].name@,
                                                )
                                            };
                                        assert(vol.dir_child(i2, j2) && (done.contains(
                                            vol.dirs@[i2].path@,
                                        ) || (i2 == dii && j2 < j + 1)) && d == join_seq(
                                            vol.dirs@[i2].path@,
                                            vol.dirs@[i2].entries@[j2].name@,
                                        ));
                                    }
                                }
                                assert(task_sound(*vol, root@, cv)) by {
                                    assert(is_expanded(*vol, root@, tv));
                                    assert(vol.dirs@[dii].path@.len() < cv.len());
                                    assert(is_expanded(*vol, root@, cv));
                                }
                                assert forall|f: Seq<char>| #[trigger]
                                    files.deep_view().contains(f) implies file_seen(
                                    *vol,
                                    done,
                                    dii,
                                    j + 1,
                                    f,
                                ) by {
                                    assert(file_seen(*vol, done, dii, j as int, f));
                                    let (i2, j2) = choose|i2: int, j2: int|
                                        {
                                            &&& #[trigger] vol.file_child(i2, j2)
                                            &&& (done.contains(vol.dirs@[i2].path@) || (i2 == dii
                                                && j2 < j))
                                            &&& f == join_seq(
                                                vol.dirs@[i2].path@,
                                                vol.dirs@[i2].entries@[j2].name@,
                                            )
                                        };
                                    assert(vol.file_child(i2, j2) && (done.contains(
                                        vol.dirs@[i2].path@,
                                    ) || (i2 == dii && j2 < j + 1)) && f == join_seq(
                                        vol.dirs@[i2].path@,
                                        vol.dirs@[i2].entries@[j2].name@,
                                    ));
                                }
                                assert forall|f: Seq<char>|
                                    file_seen(*vol, done, dii, j + 1, f) implies #[trigger]
                                files.deep_view().contains(f) by {
                                    let (i2, j2) = choose|i2: int, j2: int|
                                        {
                                            &&& #[trigger] vol.file_child(i2, j2)
                                            &&& (done.contains(vol.dirs@[i2].path@) || (i2 == dii
                                                && j2 < j + 1))
                                            &&& f == join_seq(
                                                vol.dirs@[i2].path@,
                                                vol.dirs@[i2].entries@[j2].name@,
                                            )
                                        };
                                    if i2 == dii && j2 == j as int && !done.contains(
                                        vol.dirs@[i2].path@,
                                    ) {
                                        assert(false);
                                    }
                                    assert(file_seen(*vol, done, dii, j as int, f));
                                }
                            }
                        },
                        Action::Report(f) => {
                            let ghost fv = f@;
                            let ghost fs0 = files.deep_view();
                            proof {
                                assert(vol.file_child(dii, j as int));
                                lemma_join_len(tv, nv);
                                lemma_join_valid(tv, nv);
                                if fs0.contains(fv) {
                                    assert(file_seen(*vol, done, dii, j as int, fv));
                                    let (i2, j2) = choose|i2: int, j2: int|
                                        {
                                            &&& #[trigger] vol.file_child(i2, j2)
                                            &&& (done.contains(vol.dirs@[i2].path@) || (i2 == dii
                                                && j2 < j))
                                            &&& fv == join_seq(
                                                vol.dirs@[i2].path@,
                                                vol.dirs@[i2].entries@[j2].name@,
                                            )
                                        };
                                    lemma_join_injective(
                                        tv,
                                        nv,
                                        vol.dirs@[i2].path@,
                                        vol.dirs@[i2].entries@[j2].name@,
                                    );
                                    assert(vol.dirs@[i2].path@ == tv);
                                    if done.contains(vol.dirs@[i2].path@) {
                                        assert(false);
                                    } else {
                                        assert(i2 == dii && j2 < j);
                                        assert(vol.dirs@[dii].entries@[j2].name@ == nv);
                                        assert(false);
                                    }
                                }
                                lemma_push_no_dup(fs0, fv);
                            }
                            files.push(f);
                            proof {
                                assert(files.deep_view() =~= fs0.push(fv));
                                lemma_push_to_set(fs0, fv);
                                assert forall|f2: Seq<char>| #[trigger]
                                    files.deep_view().contains(f2) implies file_seen(
                                    *vol,
                                    done,
                                    dii,
                                    j + 1,
                                    f2,
                                ) by {
                                    if f2 == fv {
                                        assert(vol.file_child(dii, j as int));
                                    } else {
                                        assert(fs0.contains(f2));
                                        assert(file_seen(*vol, done, dii, j as int, f2));
                                        let (i2, j2) = choose|i2: int, j2: int|
                                            {
                                                &&& #[trigger] vol.file_child(i2, j2)
                                                &&& (done.contains(vol.dirs@[i2].path@) || (i2
                                                    == dii && j2 < j))
                                                &&& f2 == join_seq(
                                                    vol.dirs@[i2].path@,
                                                    vol.dirs@[i2].entries@[j2].name@,
                                                )
                                            };
                                        assert(vol.file_child(i2, j2) && (done.contains(
                                            vol.dirs@[i2].path@,
                                        ) || (i2 == dii && j2 < j + 1)) && f2 == join_seq(
                                            vol.dirs@[i2].path@,
                                            vol.dirs@[i2].entries@[j2].name@,
                                        ));
                                    }
                                }
                                assert forall|f2: Seq<char>|
                                    file_seen(*vol, done, dii, j + 1, f2) implies #[trigger]
                                files.deep_view().contains(f2) by {
                                    let (i2, j2) = choose|i2: int, j2: int|
                                        {
                                            &&& #[trigger] vol.file_child(i2, j2)
                                            &&& (done.contains(vol.dirs@[i2].path@) || (i2 == dii
                                                && j2 < j + 1))
                                            &&& f2 == join_seq(
                                                vol.dirs@[i2].path@,
                                                vol.dirs@[i2].entries@[j2].name@,
                                            )
                                        };
                                    if i2 == dii && j2 == j as int && !done.contains(
                                        vol.dirs@[i2].path@,
                                    ) {
                                        assert(vol.dirs@[dii].path@ == tv);
                                        assert(vol.dirs@[dii].entries@[j as int].name@ == nv);
                                        assert(f2 == join_seq(tv, nv));
                                        assert(fv == join_seq(tv, nv));
                                        assert(f2 == fv);
                                        assert(files.deep_view()[fs0.len() as int] == fv);
                                        assert(files.deep_view().contains(f2));
                                    } else {
                                        assert(file_seen(*vol, done, dii, j as int, f2));
                                        assert(fs0.contains(f2));
                                        let ii = choose|ii: int|
                                            0 <= ii < fs0.len() && fs0[ii] == f2;
                                        assert(files.deep_view()[ii] == f2);
                                        assert(files.deep_view().contains(f2));
                                    }
                                }
                            }
                        },
                        Action::Ignore => {
                            proof {
                                assert(!vol.dir_child(dii, j as int));
                                assert(!vol.file_child(dii, j as int));
                                assert forall|d: Seq<char>| #[trigger]
                                    discovered(done, queue.tasks()).contains(d) && d != root@
                                    implies child_seen(*vol, done, dii, j + 1, d) by {
                                    assert(child_seen(*vol, done, dii, j as int, d));
                                    let (i2, j2) = choose|i2: int, j2: int|
                                        {
                                            &&& #[trigger] vol.dir_child(i2, j2)
                                            &&& (done.contains(vol.dirs@[i2].path@) || (i2 == dii
                                                && j2 < j))
                                            &&& d == join_seq(
                                                vol.dirs@[i2].path@,
                                                vol.dirs@[i2].entries@[j2].name@,
                                            )
                                        };
                                    assert(vol.dir_child(i2, j2) && (done.contains(
                                        vol.dirs@[i2].path@,
                                    ) || (i2 == dii && j2 < j + 1)) && d == join_seq(
                                        vol.dirs@[i2].path@,
                                        vol.dirs@[i2].entries@[j2].name@,
                                    ));
                                }
                                assert forall|f2: Seq<char>| #[trigger]
                                    files.deep_view().contains(f2) implies file_seen(
                                    *vol,
                                    done,
                                    dii,
                                    j + 1,
                                    f2,
                                ) by {
                                    assert(file_seen(*vol, done, dii, j as int, f2));
                                    let (i2, j2) = choose|i2: int, j2: int|
                                        {
                                            &&& #[trigger] vol.file_child(i2, j2)
                                            &&& (done.contains(vol.dirs@[i2].path@) || (i2 == dii
                                                && j2 < j))
                                            &&& f2 == join_seq(
                                                vol.dirs@[i2].path@,
                                                vol.dirs@[i2].entries@[j2].name@,
                                            )
                                        };
                                    assert(vol.file_child(i2, j2) && (done.contains(
                                        vol.dirs@[i2].path@,
                                    ) || (i2 == dii && j2 < j + 1)) && f2 == join_seq(
                                        vol.dirs@[i2].path@,
                                        vol.dirs@[i2].entries@[j2].name@,
                                    ));
                                }
                                assert forall|f2: Seq<char>|
                                    file_seen(*vol, done, dii, j + 1, f2) implies #[trigger]
                                files.deep_view().contains(f2) by {
                                    let (i2, j2) = choose|i2: int, j2: int|
                                        {
                                            &&& #[trigger] vol.file_child(i2, j2)
                                            &&& (done.contains(vol.dirs@[i2].path@) || (i2 == dii
                                                && j2 < j + 1))
                                            &&& f2 == join_seq(
                                                vol.dirs@[i2].path@,
                                                vol.dirs@[i2].entries@[j2].name@,
                                            )
                                        };
                                    if i2 == dii && j2 == j as int && !done.contains(
                                        vol.dirs@[i2].path@,
                                    ) {
                                        assert(false);
                                    }
                                    assert(file_seen(*vol, done, dii, j as int, f2));
                                }
                            }
                        },
                    }
                    j = j + 1;
                }
                queue.mark_done();
                proof {
                    let ghost done1 = done.insert(tv);
                    lemma_undrained_insert_present(*vol, done, tv, dii, vol.dirs@.len() as int);
                    assert(discovered(done1, queue.tasks()) =~= discovered(
                        done,
                        queue.tasks(),
                    ).insert(tv));
                    assert forall|i2: int, j2: int| #[trigger]
                        vol.dir_child(i2, j2) && done1.contains(vol.dirs@[i2].path@) implies
                    discovered(done1, queue.tasks()).contains(
                        join_seq(vol.dirs@[i2].path@, vol.dirs@[i2].entries@[j2].name@),
                    ) by {
                        if !done.contains(vol.dirs@[i2].path@) {
                            assert(vol.dirs@[i2].path@ == tv);
                            if i2 != dii {
                                if i2 < dii {
                                    assert(vol.dirs@[i2].path@ != vol.dirs@[dii].path@);
                                } else {
                                    assert(vol.dirs@[dii].path@ != vol.dirs@[i2].path@);
                                }
                            }
                            assert(i2 == dii);
                            assert(queue.tasks().to_set().contains(
                                join_seq(tv, vol.dirs@[dii].entries@[j2].name@),
                            ));
                        } else {
                            assert(discovered(done, queue.tasks()).insert(tv).contains(
                                join_seq(vol.dirs@[i2].path@, vol.dirs@[i2].entries@[j2].name@),
                            ));
                        }
                    }
                    assert forall|d: Seq<char>| #[trigger]
                        discovered(done1, queue.tasks()).contains(d) && d != root@ implies
                    child_of_drained(*vol, done1, d) by {
                        if d == tv {
                            assert(discovered(done, q_before).contains(tv));
                            assert(child_of_drained(*vol, done, tv));
                            let (i2, j2) = choose|i2: int, j2: int|
                                {
                                    &&& #[trigger] vol.dir_child(i2, j2)
                                    &&& done.contains(vol.dirs@[i2].path@)
                                    &&& d == join_seq(
                                        vol.dirs@[i2].path@,
                                        vol.dirs@[i2].entries@[j2].name@,
                                    )
                                };
                            assert(done1.contains(vol.dirs@[i2].path@));
                        } else {
                            assert(discovered(done, queue.tasks()).contains(d));
                            assert(child_seen(*vol, done, dii, m as int, d));
                            let (i2, j2) = choose|i2: int, j2: int|
                                {
                                    &&& #[trigger] vol.dir_child(i2, j2)
                                    &&& (done.contains(vol.dirs@[i2].path@) || (i2 == dii && j2
                                        < m))
                                    &&& d == join_seq(
                                        vol.dirs@[i2].path@,
                                        vol.dirs@[i2].entries@[j2].name@,
                                    )
                                };
                            if !done.contains(vol.dirs@[i2].path@) {
                                assert(i2 == dii);
                                assert(vol.dirs@[i2].path@ == tv);
                            }
                            assert(done1.contains(vol.dirs@[i2].path@));
                        }
                    }
                    assert forall|f: Seq<char>| #[trigger]
                        files.deep_view().contains(f) implies file_of_drained(*vol, done1, f) by {
                        assert(file_seen(*vol, done, dii, m as int, f));
                        let (i2, j2) = choose|i2: int, j2: int|
                            {
                                &&& #[trigger] vol.file_child(i2, j2)
                                &&& (done.contains(vol.dirs@[i2].path@) || (i2 == dii && j2 < m))
                                &&& f == join_seq(
                                    vol.dirs@[i2].path@,
                                    vol.dirs@[i2].entries@[j2].name@,
                                )
                            };
                        if !done.contains(vol.dirs@[i2].path@) {
                            assert(i2 == dii);
                            assert(vol.dirs@[i2].path@ == tv);
                        }
                        assert(done1.contains(vol.dirs@[i2].path@));
                    }
                    assert forall|f: Seq<char>| file_of_drained(*vol, done1, f) implies #[trigger]
                    files.deep_view().contains(f) by {
                        let (i2, j2) = choose|i2: int, j2: int|
                            {
                                &&& #[trigger] vol.file_child(i2, j2)
                                &&& done1.contains(vol.dirs@[i2].path@)
                                &&& f == join_seq(
                                    vol.dirs@[i2].path@,
                                    vol.dirs@[i2].entries@[j2].name@,
                                )
                            };
                        if !done.contains(vol.dirs@[i2].path@) {
                            assert(vol.dirs@[i2].path@ == tv);
                            if i2 != dii {
                                if i2 < dii {
                                    assert(vol.dirs@[i2].path@ != vol.dirs@[dii].path@);
                                } else {
                                    assert(vol.dirs@[dii].path@ != vol.dirs@[i2].path@);
                                }
                            }
                            assert(i2 == dii && j2 < m);
                        }
                        assert(file_seen(*vol, done, dii, m as int, f));
                    }
                    assert forall|d: Seq<char>| #[trigger]
                        failed.deep_view().contains(d) implies (done1.contains(d) && !vol.opens(
                        d,
                    )) by {}
                    assert forall|d: Seq<char>| done1.contains(d) && !vol.opens(d) implies
                    #[trigger] failed.deep_view().contains(d) by {
                        if d == tv {
                            assert(vol.dirs@[dii].path@ == tv);
                            assert(vol.opens(tv));
                        }
                    }
                    done = done1;
                }
            },
        }
    }
    queue.close();
    proof {
        assert(queue.tasks().len() == 0);
        assert(discovered(done, queue.tasks()) =~= done);
        assert(done.contains(root@));
        assert forall|f: Seq<char>| #[trigger] files.deep_view().contains(f) implies
        is_reachable_file(*vol, root@, f) by {
            let (i2, j2) = choose|i2: int, j2: int|
                {
                    &&& #[trigger] vol.file_child(i2, j2)
                    &&& done.contains(vol.dirs@[i2].path@)
                    &&& f == join_seq(vol.dirs@[i2].path@, vol.dirs@[i2].entries@[j2].name@)
                };
            assert(discovered(done, queue.tasks()).contains(vol.dirs@[i2].path@));
            assert(is_expanded(*vol, root@, vol.dirs@[i2].path@));
        }
        assert forall|f: Seq<char>| is_reachable_file(*vol, root@, f) implies #[trigger]
        files.deep_view().contains(f) by {
            let (i2, j2) = choose|i2: int, j2: int|
                {
                    &&& #[trigger] vol.file_child(i2, j2)
                    &&& is_expanded(*vol, root@, vol.dirs@[i2].path@)
                    &&& f == join_seq(vol.dirs@[i2].path@, vol.dirs@[i2].entries@[j2].name@)
                };
            assert forall|i3: int, j3: int|
                #[trigger] vol.dir_child(i3, j3) && done.contains(vol.dirs@[i3].path@) implies
            done.contains(join_seq(vol.dirs@[i3].path@, vol.dirs@[i3].entries@[j3].name@)) by {
                assert(discovered(done, queue.tasks()).contains(
                    join_seq(vol.dirs@[i3].path@, vol.dirs@[i3].entries@[j3].name@),
                ));
            }
            lemma_expanded_is_drained(*vol, root@, done, vol.dirs@[i2].path@);
            assert(file_of_drained(*vol, done, f));
        }
        assert forall|d: Seq<char>| #[trigger] failed.deep_view().contains(d) implies
        is_failed_dir(*vol, root@, d) by {
            assert(discovered(done, queue.tasks()).contains(d));
        }
        assert forall|d: Seq<char>| is_failed_dir(*vol, root@, d) implies #[trigger]
        failed.deep_view().contains(d) by {
            assert forall|i3: int, j3: int|
                #[trigger] vol.dir_child(i3, j3) && done.contains(vol.dirs@[i3].path@) implies
            done.contains(join_seq(vol.dirs@[i3].path@, vol.dirs@[i3].entries@[j3].name@)) by {
                assert(discovered(done, queue.tasks()).contains(
                    join_seq(vol.dirs@[i3].path@, vol.dirs@[i3].entries@[j3].name@),
                ));
            }
            lemma_expanded_is_drained(*vol, root@, done, d);
        }
    }
    TraversalOutcome { files, failed }
}

/// Schedule independence: two runs that each report every reachable file
/// exactly once report the same multiset of paths, so the output does not
/// depend on the worker count or on the order the queue hands tasks out in.
pub proof fn lemma_schedule_independent(a: Seq<Seq<char>>, b: Seq<Seq<char>>)
    requires
        a.no_duplicates(),
        b.no_duplicates(),
        a.to_set() == b.to_set(),
    ensures
        a.to_multiset() == b.to_multiset(),
{
    broadcast use vstd::seq_lib::group_to_multiset_ensures;

    a.lemma_multiset_has_no_duplicates();
    b.lemma_multiset_has_no_duplicates();
    assert forall|x: Seq<char>| a.to_multiset().count(x) == b.to_multiset().count(x) by {
        if a.contains(x) {
            assert(a.to_set().contains(x));
            assert(b.contains(x));
            assert(a.to_multiset().count(x) == 1 && b.to_multiset().count(x) == 1);
        } else {
            assert(!b.to_set().contains(x));
            assert(a.to_multiset().count(x) == 0 && b.to_multiset().count(x) == 0);
        }
    }
    assert(a.to_multiset() =~= b.to_multiset());
}

/// The self and parent entries are never expanded as directory tasks and
/// never reported as file paths, in trees of any depth: no path formed by
/// joining `.` or `..` onto a directory ever comes out of the traversal.
pub proof fn lemma_dots_excluded(v: Volume, root: Seq<char>, d: Seq<char>, n: Seq<char>)
    requires
        v.wf(),
        valid_dir_path(d),
        is_dot(n),
        join_seq(d, n) != root,
    ensures
        !is_expanded(v, root, join_seq(d, n)),
        !is_reachable_file(v, root, join_seq(d, n)),
{
    assert(valid_name(n)) by {
        if n == seq!['.'] {
            assert(forall|i: int| 0 <= i < n.len() ==> n[i] != '/');
        } else {
            assert(forall|i: int| 0 <= i < n.len() ==> n[i] != '/');
        }
    }
    let s = join_seq(d, n);
    if is_expanded(v, root, s) {
        let (i, j) = choose|i: int, j: int|
            {
                &&& #[trigger] v.dir_child(i, j)
                &&& v.dirs@[i].path@.len() < s.len()
                &&& s == join_seq(v.dirs@[i].path@, v.dirs@[i].entries@[j].name@)
                &&& is_expanded(v, root, v.dirs@[i].path@)
            };
        lemma_join_injective(d, n, v.dirs@[i].path@, v.dirs@[i].entries@[j].name@);
        assert(is_dot(v.dirs@[i].entries@[j].name@));
        assert(false);
    }
    if is_reachable_file(v, root, s) {
        let (i, j) = choose|i: int, j: int|
            {
                &&& #[trigger] v.file_child(i, j)
                &&& is_expanded(v, root, v.dirs@[i].path@)
                &&& s == join_seq(v.dirs@[i].path@, v.dirs@[i].entries@[j].name@)
            };
        lemma_join_injective(d, n, v.dirs@[i].path@, v.dirs@[i].entries@[j].name@);
        assert(is_dot(v.dirs@[i].entries@[j].name@));
        assert(false);
    }
}

} // verus!
