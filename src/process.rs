use vstd::prelude::*;
use crate::breakpoint::{parse_unsigned, parse_unsigned_in};

verus! {

/// A process as listed by the system: its id, its parent's id and the
/// command that started it.
pub struct Process {
    pub pid: usize,
    pub ppid: usize,
    pub command: String,
}

impl Process {
    pub fn new(pid: usize, ppid: usize, command: String) -> (r: Process)
        ensures
            r.pid == pid,
            r.ppid == ppid,
            r.command@ == command@,
    {
        Process { pid, ppid, command }
    }
}

/// The names among the first `n` of `names` that are decimal numbers, as
/// numbers, in order.
pub open spec fn numbers_upto(names: Seq<String>, n: int) -> Seq<usize>
    decreases n,
{
    if n <= 0 {
        Seq::empty()
    } else {
        match parse_unsigned(names[n - 1]@, 10) {
            Some(v) => numbers_upto(names, n - 1).push(v as usize),
            None => numbers_upto(names, n - 1),
        }
    }
}

pub open spec fn ascending(s: Seq<usize>) -> bool {
    forall|i: int, j: int| 0 <= i < j < s.len() ==> s[i] <= s[j]
}

proof fn lemma_insert_to_multiset(s: Seq<usize>, pos: int, v: usize)
    requires
        0 <= pos <= s.len(),
    ensures
        s.insert(pos, v).to_multiset() =~= s.to_multiset().insert(v),
{
    let t = s.insert(pos, v);
    s.insert_ensures(pos, v);
    assert(t.remove(pos) =~= s);
    t.to_multiset_ensures();
    assert(t.contains(v)) by {
        assert(t[pos] == v);
    }
}

/// The file descriptor numbers named by the entries of a process's
/// descriptor directory: the entries that are decimal numbers, ascending.
pub fn fd_numbers(names: &Vec<String>) -> (r: Vec<usize>)
    ensures
        ascending(r@),
        r@.to_multiset() == numbers_upto(names@, names@.len() as int).to_multiset(),
{
    let mut out: Vec<usize> = Vec::new();
    let mut i: usize = 0;
    proof {
        Seq::<usize>::empty().to_multiset_ensures();
        assert(out@.to_multiset() =~= numbers_upto(names@, 0).to_multiset());
    }
    while i < names.len()
        invariant
            i <= names.len(),
            ascending(out@),
            out@.to_multiset() == numbers_upto(names@, i as int).to_multiset(),
        decreases names.len() - i,
    {
        match parse_unsigned_in(names[i].as_str(), 10) {
            None => {},
            Some(v) => {
                let mut pos: usize = 0;
                while pos < out.len() && out[pos] <= v
                    invariant
                        pos <= out.len(),
                        forall|k: int| 0 <= k < pos ==> out@[k] <= v,
                    decreases out.len() - pos,
                {
                    pos += 1;
                }
                let ghost before = out@;
                out.insert(pos, v);
                proof {
                    before.insert_ensures(pos as int, v);
                    lemma_insert_to_multiset(before, pos as int, v);
                    numbers_upto(names@, i as int).to_multiset_ensures();
                    assert forall|a: int, b: int| 0 <= a < b < out@.len() implies out@[a] <= out@[b] by {
                        if b < pos {
                        } else if b == pos {
                            assert(out@[a] == before[a]);
                        } else if a < pos {
                            assert(out@[b] == before[b - 1]);
                            assert(out@[a] == before[a]);
                            if pos < before.len() {
                                assert(before[pos as int] > v);
                                assert(before[pos as int] <= before[b - 1]);
                            }
                        } else if a == pos {
                            assert(out@[b] == before[b - 1]);
                            assert(before[pos as int] > v);
                            assert(before[pos as int] <= before[b - 1]);
                        } else {
                            assert(out@[b] == before[b - 1]);
                            assert(out@[a] == before[a - 1]);
                        }
                    }
                }
            },
        }
        i += 1;
    }
    out
}

} // verus!
