//! The process tree of a sandbox, from the parent links that `/proc`
//! shows.  Reading `/proc` is the caller's work: it hands over each
//! process's directory name and `stat` line.

use vstd::prelude::*;
use vstd::set_lib::{lemma_int_range, lemma_len_subset, set_int_range};
use crate::text::{last_index_of, lemma_last_index_of, rfind_char, chars_of, parse_u32, parse_unsigned, split_whitespace, seq_views, slice_chars, words};

verus! {

/// One process: its id and its parent's id.
#[derive(Clone, Copy)]
pub struct ProcEntry {
    pub pid: u32,
    pub ppid: u32,
}

/// The parent id in a `/proc/<pid>/stat` line: the second field after the
/// last `)` (the end of the command name), as a `u32`.
pub open spec fn stat_ppid(stat: Seq<char>) -> Option<u32> {
    match last_index_of(stat, ')') {
        None => None,
        Some(k) => {
            let fields = words(stat.subrange(k + 1, stat.len() as int));
            if fields.len() > 1 {
                match crate::text::parse_unsigned(fields[1], u32::MAX as nat) {
                    Some(v) => Some(v as u32),
                    None => None,
                }
            } else {
                None
            }
        },
    }
}

/// The parent id in a `/proc/<pid>/stat` line.
pub fn parse_stat_ppid(stat: &str) -> (r: Option<u32>)
    ensures
        r == stat_ppid(stat@),
{
    let v = chars_of(stat);
    match rfind_char(&v, ')') {
        None => None,
        Some(k) => {
            proof {
                lemma_last_index_of(v@, ')');
            }
            let after = slice_chars(&v, k + 1, v.len());
            let fields = split_whitespace(&after);
            if fields.len() > 1 {
                proof {
                    assert(seq_views(fields@)[1] == fields@[1]@);
                }
                parse_u32(&fields[1])
            } else {
                None
            }
        },
    }
}

/// The entry of a `/proc` directory named `name` (a process id) whose
/// `stat` line is `stat`, when both parse.
pub fn parse_proc_entry(name: &str, stat: &str) -> (r: Option<ProcEntry>)
    ensures
        match r {
            Some(e) => parse_unsigned(name@, u32::MAX as nat) == Some(e.pid as nat) && stat_ppid(
                stat@,
            ) == Some(e.ppid),
            None => parse_unsigned(name@, u32::MAX as nat) is None || stat_ppid(stat@) is None,
        },
{
    let nv = chars_of(name);
    match parse_u32(&nv) {
        None => None,
        Some(pid) => match parse_stat_ppid(stat) {
            None => None,
            Some(ppid) => Some(ProcEntry { pid, ppid }),
        },
    }
}

/// The first process, in the order of `entries`, whose parent is `ppid`.
pub open spec fn first_child(entries: Seq<ProcEntry>, ppid: u32) -> Option<u32>
    decreases entries.len(),
{
    if entries.len() == 0 {
        None
    } else if entries[0].ppid == ppid {
        Some(entries[0].pid)
    } else {
        first_child(entries.drop_first(), ppid)
    }
}

/// A direct child of `ppid`: the first process listed whose parent it is.
pub fn get_direct_child(ppid: u32, entries: &Vec<ProcEntry>) -> (r: Option<u32>)
    ensures
        r == first_child(entries@, ppid),
{
    let mut i: usize = 0;
    assert(entries@.skip(0) =~= entries@);
    while i < entries.len()
        invariant
            i <= entries.len(),
            first_child(entries@, ppid) == first_child(entries@.skip(i as int), ppid),
        decreases entries.len() - i,
    {
        proof {
            assert(entries@.skip(i as int).drop_first() =~= entries@.skip(i + 1));
            assert(entries@.skip(i as int)[0] == entries@[i as int]);
        }
        if entries[i].ppid == ppid {
            return Some(entries[i].pid);
        }
        i += 1;
    }
    None
}

fn contains_u32(v: &Vec<u32>, x: u32) -> (r: bool)
    ensures
        r == v@.contains(x),
{
    let mut i: usize = 0;
    while i < v.len()
        invariant
            i <= v.len(),
            forall|k: int| 0 <= k < i ==> v@[k] != x,
        decreases v.len() - i,
    {
        if v[i] == x {
            return true;
        }
        i += 1;
    }
    false
}

/// No process id occurs twice.
pub open spec fn distinct(r: Seq<u32>) -> bool {
    forall|i: int, j: int| 0 <= i < j < r.len() ==> r[i] != r[j]
}

/// `r[k]` is a process whose parent is listed before it.
pub open spec fn has_earlier_parent(r: Seq<u32>, k: int, entries: Seq<ProcEntry>) -> bool {
    exists|e: int, j: int|
        0 <= e < entries.len() && 0 <= j < k && entries[e].pid == r[k] && entries[e].ppid == r[j]
}

/// Every process after the first is listed after its parent.
pub open spec fn parents_first(r: Seq<u32>, entries: Seq<ProcEntry>) -> bool {
    forall|k: int| 1 <= k < r.len() ==> #[trigger] has_earlier_parent(r, k, entries)
}

/// Every child of a listed process is listed.
pub open spec fn children_included(r: Seq<u32>, entries: Seq<ProcEntry>) -> bool {
    forall|e: int|
        0 <= e < entries.len() && r.contains(#[trigger] entries[e].ppid) ==> r.contains(
            entries[e].pid,
        )
}

/// The process tree of `root`: `root` first, each process once, each other
/// process listed after its parent, and every child of a listed process
/// listed.
pub open spec fn is_process_tree(r: Seq<u32>, root: u32, entries: Seq<ProcEntry>) -> bool {
    &&& r.len() >= 1
    &&& r[0] == root
    &&& distinct(r)
    &&& parents_first(r, entries)
    &&& children_included(r, entries)
}

/// The processes of the tree rooted at `root` (`root` included), found by a
/// depth-first walk of the parent links.
pub fn get_process_tree(root: u32, entries: &Vec<ProcEntry>) -> (r: Vec<u32>)
    ensures
        is_process_tree(r@, root, entries@),
{
    let n = entries.len();
    let mut pids: Vec<u32> = Vec::new();
    pids.push(root);
    let mut stack: Vec<u32> = Vec::new();
    stack.push(root);
    let ghost mut processed: Set<u32> = Set::empty();
    let ghost mut used: Set<int> = Set::empty();
    proof {
        lemma_int_range(0, n as int);
    }
    while stack.len() > 0
        invariant
            n == entries.len(),
            pids.len() >= 1,
            pids@[0] == root,
            distinct(pids@),
            parents_first(pids@, entries@),
            forall|s: int| 0 <= s < stack.len() ==> pids@.contains(#[trigger] stack@[s]),
            forall|x: u32| pids@.contains(x) ==> stack@.contains(x) || processed.contains(x),
            forall|e: int|
                0 <= e < n && processed.contains(#[trigger] entries@[e].ppid) ==> pids@.contains(
                    entries@[e].pid,
                ),
            used.finite(),
            used.subset_of(set_int_range(0, n as int)),
            set_int_range(0, n as int).finite(),
            set_int_range(0, n as int).len() == n,
            used.len() + 1 == pids.len(),
            forall|u: int| used.contains(u) ==> pids@.contains(entries@[u].pid),
        decreases (n + 1 - pids.len()) + stack.len(),
    {
        proof {
            lemma_len_subset(used, set_int_range(0, n as int));
        }
        let ghost stack_before = stack@;
        let curr = stack.pop().unwrap();
        let ghost stack_after_pop = stack@;
        let ghost pids_at_pop = pids@;
        proof {
            assert(stack_before =~= stack_after_pop.push(curr));
            assert(pids@.contains(curr)) by {
                assert(pids@.contains(stack_before[stack_before.len() - 1]));
            }
            assert forall|x: u32| pids_at_pop.contains(x) && x != curr implies stack_after_pop.contains(x) || processed.contains(x) by {
                if stack_before.contains(x) {
                    let s = choose|s: int| 0 <= s < stack_before.len() && stack_before[s] == x;
                    assert(s < stack_after_pop.len());
                    assert(stack_after_pop[s] == x);
                }
            }
            assert forall|s: int| 0 <= s < stack.len() implies pids@.contains(#[trigger] stack@[s]) by {
                assert(stack@[s] == stack_before[s]);
            }
            assert(pids@.subrange(0, pids_at_pop.len() as int) =~= pids_at_pop);
            assert(stack@.subrange(0, stack_after_pop.len() as int) =~= stack_after_pop);
        }
        let mut e: usize = 0;
        while e < n
            invariant
                n == entries.len(),
                e <= n,
                pids.len() >= 1,
                pids@[0] == root,
                pids_at_pop.contains(curr),
                pids@.len() >= pids_at_pop.len(),
                pids@.subrange(0, pids_at_pop.len() as int) == pids_at_pop,
                distinct(pids@),
                parents_first(pids@, entries@),
                forall|s: int| 0 <= s < stack.len() ==> pids@.contains(#[trigger] stack@[s]),
                stack@.len() >= stack_after_pop.len(),
                stack@.subrange(0, stack_after_pop.len() as int) == stack_after_pop,
                forall|k: int| pids_at_pop.len() <= k < pids.len() ==> stack@.contains(#[trigger] pids@[k]),
                forall|x: u32| pids_at_pop.contains(x) && x != curr ==> stack_after_pop.contains(x) || processed.contains(x),
                forall|e2: int|
                    0 <= e2 < n && processed.contains(#[trigger] entries@[e2].ppid) ==> pids@.contains(
                        entries@[e2].pid,
                    ),
                forall|e2: int| 0 <= e2 < e && entries@[e2].ppid == curr ==> pids@.contains(#[trigger] entries@[e2].pid),
                used.finite(),
                used.subset_of(set_int_range(0, n as int)),
                set_int_range(0, n as int).finite(),
                set_int_range(0, n as int).len() == n,
                used.len() + 1 == pids.len(),
                forall|u: int| used.contains(u) ==> pids@.contains(entries@[u].pid),
                stack.len() + pids_at_pop.len() == stack_after_pop.len() + pids.len(),
            decreases n - e,
        {
            let child = entries[e].pid;
            if entries[e].ppid == curr && !contains_u32(&pids, child) {
                let ghost old_pids = pids@;
                let ghost old_stack = stack@;
                pids.push(child);
                stack.push(child);
                proof {
                    assert(!used.contains(e as int));
                    used = used.insert(e as int);
                    let j = choose|j: int| 0 <= j < old_pids.len() && old_pids[j] == curr;
                    assert(pids@[j] == curr);
                    assert(pids@[old_pids.len() as int] == child);
                    assert forall|k: int| 1 <= k < pids.len() implies #[trigger] has_earlier_parent(pids@, k, entries@) by {
                        if k == old_pids.len() {
                            assert(entries@[e as int].pid == pids@[k] && entries@[e as int].ppid == pids@[j]);
                        } else {
                            assert(pids@[k] == old_pids[k]);
                            assert(has_earlier_parent(old_pids, k, entries@));
                            let (e2, j2) = choose|e2: int, j2: int|
                                0 <= e2 < entries@.len() && 0 <= j2 < k && entries@[e2].pid == old_pids[k]
                                    && entries@[e2].ppid == old_pids[j2];
                            assert(pids@[j2] == old_pids[j2]);
                        }
                    }
                    assert(distinct(pids@)) by {
                        assert(!old_pids.contains(child));
                        assert forall|i: int, j2: int| 0 <= i < j2 < pids.len() implies pids@[i] != pids@[j2] by {
                            if j2 == old_pids.len() {
                                assert(pids@[i] == old_pids[i]);
                            } else {
                                assert(pids@[i] == old_pids[i] && pids@[j2] == old_pids[j2]);
                            }
                        }
                    }
                    assert forall|x: u32| old_pids.contains(x) implies pids@.contains(x) by {
                        let k = choose|k: int| 0 <= k < old_pids.len() && old_pids[k] == x;
                        assert(pids@[k] == x);
                    }
                    assert forall|s: int| 0 <= s < stack.len() implies pids@.contains(#[trigger] stack@[s]) by {
                        if s < old_stack.len() {
                            assert(stack@[s] == old_stack[s]);
                        } else {
                            assert(pids@[old_pids.len() as int] == child);
                        }
                    }
                    assert(stack@.subrange(0, stack_after_pop.len() as int) =~= stack_after_pop);
                    assert(pids@.subrange(0, pids_at_pop.len() as int) =~= pids_at_pop) by {
                        assert(old_pids.subrange(0, pids_at_pop.len() as int) == pids_at_pop);
                    }
                    assert forall|k: int| pids_at_pop.len() <= k < pids.len() implies stack@.contains(#[trigger] pids@[k]) by {
                        if k < old_pids.len() {
                            assert(old_stack.contains(old_pids[k]));
                            let s = choose|s: int| 0 <= s < old_stack.len() && old_stack[s] == old_pids[k];
                            assert(stack@[s] == old_stack[s]);
                        } else {
                            assert(stack@[stack@.len() - 1] == child);
                        }
                    }
                    assert(used.subset_of(set_int_range(0, n as int)));
                }
            }
            e += 1;
        }
        proof {
            processed = processed.insert(curr);
            assert forall|x: u32| pids@.contains(x) implies stack@.contains(x) || processed.contains(x) by {
                let k = choose|k: int| 0 <= k < pids.len() && pids@[k] == x;
                if k < pids_at_pop.len() {
                    assert(pids_at_pop[k] == x);
                    if x != curr {
                        if stack_after_pop.contains(x) {
                            let s = choose|s: int| 0 <= s < stack_after_pop.len() && stack_after_pop[s] == x;
                            assert(stack@[s] == x);
                        }
                    }
                }
            }
        }
    }
    proof {
        assert forall|e: int|
            0 <= e < n && pids@.contains(#[trigger] entries@[e].ppid) implies pids@.contains(entries@[e].pid) by {
            assert(stack@.len() == 0);
            let x = entries@[e].ppid;
            assert(!stack@.contains(x));
            assert(processed.contains(x));
        }
    }
    pids
}

/// The order in which to signal the tree of `root`: the tree listed leaves
/// first, each process before its parent, so that no child is orphaned
/// before its turn.
pub fn kill_order(root: u32, entries: &Vec<ProcEntry>) -> (r: Vec<u32>)
    ensures
        is_process_tree(r@.reverse(), root, entries@),
{
    let tree = get_process_tree(root, entries);
    let n = tree.len();
    let mut r: Vec<u32> = Vec::new();
    let mut i: usize = 0;
    while i < n
        invariant
            n == tree.len(),
            i <= n,
            r.len() == i,
            forall|k: int| 0 <= k < i ==> r@[k] == tree@[n - 1 - k],
        decreases n - i,
    {
        r.push(tree[n - 1 - i]);
        i += 1;
    }
    assert(r@.reverse() =~= tree@);
    r
}

} // verus!
