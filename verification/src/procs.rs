//! Process snapshots. A snapshot is a point-in-time set of the names of the
//! running processes: identity is by name only, so several processes with
//! the same name count as one running application, and duplicates collapse.

use vstd::prelude::*;

verus! {

/// One running process as the enumerator reports it.
pub struct ProcessInfo {
    pub pid: u32,
    pub name: String,
    pub exe_path: String,
}

/// The set of names a list of name strings stands for.
pub open spec fn names_set(v: Seq<String>) -> Set<Seq<char>> {
    Set::new(|n: Seq<char>| exists|i: int| 0 <= i < v.len() && v[i]@ == n)
}

/// Whether `name` occurs in the list.
pub fn contains_name(v: &Vec<String>, name: &String) -> (r: bool)
    ensures
        r == names_set(v@).contains(name@),
{
    let mut j: usize = 0;
    while j < v.len()
        invariant
            0 <= j <= v@.len(),
            forall|k: int| 0 <= k < j ==> v@[k]@ != name@,
        decreases v@.len() - j,
    {
        if v[j] == *name {
            return true;
        }
        j += 1;
    }
    false
}

/// The snapshot a process list stands for: every process name exactly once,
/// in order of first occurrence.
pub fn snapshot_names(procs: &Vec<ProcessInfo>) -> (r: Vec<String>)
    ensures
        forall|n: Seq<char>|
            names_set(r@).contains(n) == (exists|i: int|
                0 <= i < procs@.len() && procs@[i].name@ == n),
        forall|i: int, j: int| 0 <= i < j < r@.len() ==> r@[i]@ != r@[j]@,
{
    let mut r: Vec<String> = Vec::new();
    let mut j: usize = 0;
    while j < procs.len()
        invariant
            0 <= j <= procs@.len(),
            forall|n: Seq<char>|
                names_set(r@).contains(n) == (exists|i: int| 0 <= i < j && procs@[i].name@ == n),
            forall|a: int, b: int| 0 <= a < b < r@.len() ==> r@[a]@ != r@[b]@,
        decreases procs@.len() - j,
    {
        let seen = contains_name(&r, &procs[j].name);
        let ghost r0 = r@;
        if !seen {
            r.push(procs[j].name.clone());
            proof {
                assert forall|n: Seq<char>|
                    names_set(r@).contains(n) == (exists|i: int|
                        0 <= i < j + 1 && procs@[i].name@ == n) by {
                    if names_set(r@).contains(n) {
                        let k = choose|k: int| 0 <= k < r@.len() && r@[k]@ == n;
                        if k < r@.len() - 1 {
                            assert(r0[k]@ == n);
                            assert(names_set(r0).contains(n));
                        } else {
                            assert(procs@[j as int].name@ == n);
                        }
                    }
                    if exists|i: int| 0 <= i < j + 1 && procs@[i].name@ == n {
                        let i = choose|i: int| 0 <= i < j + 1 && procs@[i].name@ == n;
                        if i < j {
                            assert(names_set(r0).contains(n));
                            let k = choose|k: int| 0 <= k < r0.len() && r0[k]@ == n;
                            assert(r@[k]@ == n);
                        } else {
                            assert(r@[r@.len() - 1]@ == n);
                        }
                    }
                }
            }
        } else {
            proof {
                assert forall|n: Seq<char>|
                    names_set(r@).contains(n) == (exists|i: int|
                        0 <= i < j + 1 && procs@[i].name@ == n) by {
                    if exists|i: int| 0 <= i < j + 1 && procs@[i].name@ == n {
                        let i = choose|i: int| 0 <= i < j + 1 && procs@[i].name@ == n;
                        if i == j {
                            assert(names_set(r@).contains(procs@[j as int].name@));
                        }
                    }
                }
            }
        }
        j += 1;
    }
    r
}

} // verus!
