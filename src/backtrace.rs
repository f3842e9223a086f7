use vstd::prelude::*;
use crate::symbols::{SymbolTable, function_index, covering_row};
use crate::trace::peek_word;

verus! {

/// Upper bound on the frames one backtrace reports, so that a corrupt
/// chain of frame pointers cannot make the walk run forever.
pub const MAX_FRAMES: usize = 1024;

/// One frame of a backtrace.
pub struct Frame {
    pub function: String,
    pub file: String,
    pub line: usize,
}

/// Words of the traced process's stack, read from a captured image of
/// address/word pairs, or from the live process `pid` for addresses the
/// image does not hold.
pub struct StackMemory {
    pub pid: Option<i32>,
    pub words: Vec<(usize, usize)>,
}

/// The word the image gives for `addr` (the first pair for it), among the
/// first `n` pairs.
pub open spec fn image_word_upto(ws: Seq<(usize, usize)>, addr: int, n: int) -> Option<usize>
    decreases n,
{
    if n <= 0 {
        None
    } else {
        match image_word_upto(ws, addr, n - 1) {
            Some(w) => Some(w),
            None => if ws[n - 1].0 == addr {
                Some(ws[n - 1].1)
            } else {
                None
            },
        }
    }
}

pub open spec fn image_word(ws: Seq<(usize, usize)>, addr: int) -> Option<usize> {
    image_word_upto(ws, addr, ws.len() as int)
}

/// Whether the symbol table attributes `pc` to a function and a source line.
pub open spec fn resolves(t: SymbolTable, pc: int) -> bool {
    function_index(t.functions@, pc) is Some && covering_row(t.lines@, pc) is Some
}

/// Whether `pc` lies in the program's entry function, where a walk ends.
pub open spec fn in_entry_function(t: SymbolTable, pc: int) -> bool {
    function_index(t.functions@, pc) matches Some(i) && t.functions@[i].name@ == "main"@
}

/// Whether `f` describes the code at `pc`.
pub open spec fn frame_at(t: SymbolTable, pc: int, f: Frame) -> bool {
    &&& function_index(t.functions@, pc) matches Some(i)
    &&& covering_row(t.lines@, pc) matches Some(j)
    &&& f.function@ == t.functions@[i].name@
    &&& f.file@ == t.lines@[j].file@
    &&& f.line == t.lines@[j].number
}

/// Whether `frames` describe, in order, the code at the addresses `pcs`.
pub open spec fn frames_at(t: SymbolTable, pcs: Seq<int>, frames: Seq<Frame>) -> bool {
    &&& pcs.len() == frames.len()
    &&& forall|i: int| 0 <= i < pcs.len() ==> frame_at(t, pcs[i], #[trigger] frames[i])
}

/// The code addresses of the frames found by walking saved frame pointers
/// from instruction pointer `pc` and frame base `fp`: each frame is
/// reported if it resolves; the walk ends after the entry function, at an
/// address that does not resolve, at a slot that cannot be read, or when
/// `fuel` frames have been reported. The caller's return address is the
/// word at `fp + 8` and its frame base the word at `fp`.
pub open spec fn frame_pcs(t: SymbolTable, ws: Seq<(usize, usize)>, pc: int, fp: int, fuel: nat) -> Seq<int>
    decreases fuel,
{
    if fuel == 0 || !resolves(t, pc) {
        seq![]
    } else if in_entry_function(t, pc) || fp + 8 > usize::MAX {
        seq![pc]
    } else {
        match (image_word(ws, fp + 8), image_word(ws, fp)) {
            (Some(ret), Some(up)) => seq![pc] + frame_pcs(t, ws, ret as int, up as int, (fuel - 1) as nat),
            _ => seq![pc],
        }
    }
}

proof fn lemma_image_word_stable(ws: Seq<(usize, usize)>, addr: int, k: int, m: int)
    requires
        0 <= k <= m,
        image_word_upto(ws, addr, k) is Some,
    ensures
        image_word_upto(ws, addr, m) == image_word_upto(ws, addr, k),
    decreases m - k,
{
    if m > k {
        lemma_image_word_stable(ws, addr, k, m - 1);
    }
}

proof fn lemma_image_word_prefix(s: Seq<(usize, usize)>, t: Seq<(usize, usize)>, addr: int, k: int)
    requires
        0 <= k <= s.len(),
        k <= t.len(),
        forall|i: int| 0 <= i < k ==> s[i] == t[i],
    ensures
        image_word_upto(s, addr, k) == image_word_upto(t, addr, k),
    decreases k,
{
    if k > 0 {
        lemma_image_word_prefix(s, t, addr, k - 1);
    }
}

/// Adding a pair at the end of an image changes no address it already
/// gives a word for, and gives the new word for an address it lacked.
proof fn lemma_image_word_push(s: Seq<(usize, usize)>, x: (usize, usize), addr: int)
    ensures
        image_word(s.push(x), addr) == (match image_word(s, addr) {
            Some(w) => Some(w),
            None => if x.0 == addr {
                Some(x.1)
            } else {
                None
            },
        }),
{
    lemma_image_word_prefix(s.push(x), s, addr, s.len() as int);
}

/// Whether `ws2` gives the same word as `ws` at every address of `looked`.
pub open spec fn agrees_on(ws2: Seq<(usize, usize)>, ws: Seq<(usize, usize)>, looked: Set<int>) -> bool {
    forall|a: int| looked.contains(a) ==> #[trigger] image_word(ws2, a) == image_word(ws, a)
}

/// Whether `frames` are the frames of the walk from `pc` and `fp` over the
/// stack image `ws`.
pub open spec fn walked_from(t: SymbolTable, ws: Seq<(usize, usize)>, pc: usize, fp: usize, frames: Seq<Frame>) -> bool {
    frames_at(t, frame_pcs(t, ws, pc as int, fp as int, MAX_FRAMES as nat), frames)
}

/// The word at `addr`: from the words known so far, else read from the live
/// process, if there is one, and then added to the known words.
fn load_word(mem: &StackMemory, known: &mut Vec<(usize, usize)>, addr: usize) -> (r: Option<usize>)
    ensures
        r == image_word(final(known)@, addr as int),
        final(known)@ == old(known)@ || (image_word(old(known)@, addr as int) is None && r is Some
            && final(known)@ == old(known)@.push((addr, r->0))),
        mem.pid is None ==> final(known)@ == old(known)@,
{
    let mut i: usize = 0;
    while i < known.len()
        invariant
            i <= known.len(),
            image_word_upto(known@, addr as int, i as int) is None,
        decreases known.len() - i,
    {
        if known[i].0 == addr {
            proof {
                lemma_image_word_stable(known@, addr as int, i + 1, known@.len() as int);
            }
            return Some(known[i].1);
        }
        i += 1;
    }
    match mem.pid {
        Some(pid) => match peek_word(pid, addr) {
            Ok(w) => {
                proof {
                    lemma_image_word_push(known@, (addr, w), addr as int);
                }
                known.push((addr, w));
                Some(w)
            },
            Err(_) => None,
        },
        None => None,
    }
}

/// The frame describing the code at `pc`, if the table resolves it, and
/// whether it lies in the entry function.
pub fn frame_for(table: &SymbolTable, pc: usize) -> (r: Option<(Frame, bool)>)
    ensures
        r is Some <==> resolves(*table, pc as int),
        r matches Some(p) ==> frame_at(*table, pc as int, p.0) && p.1 == in_entry_function(
            *table,
            pc as int,
        ),
{
    proof {
        reveal_strlit("main");
    }
    match table.function_index_for_address(pc) {
        None => None,
        Some(fi) => match table.line_index_for_address(pc) {
            None => None,
            Some(li) => {
                let name = table.functions[fi].name.clone();
                let entry = crate::command::same_text(name.as_str(), "main");
                let frame = Frame {
                    function: name,
                    file: table.lines[li].file.clone(),
                    line: table.lines[li].number,
                };
                Some((frame, entry))
            },
        },
    }
}

/// Walks the chain of saved frame pointers starting at instruction pointer
/// `pc` and frame base `fp`, describing each frame with `table`. The result
/// is exactly the frames of `frame_pcs` over an image that extends
/// `mem.words` with the words read from the live process, and over
/// `mem.words` itself when there is no live process. The walk ends after the
/// entry function, at an address the table does not resolve (no further
/// frame can be attributed), at a slot that cannot be read, or after
/// `MAX_FRAMES` frames.
pub fn walk_frames(table: &SymbolTable, mem: &StackMemory, pc: usize, fp: usize) -> (r: Vec<Frame>)
    ensures
        mem.pid is None ==> walked_from(*table, mem.words@, pc, fp, r@),
        exists|ws: Seq<(usize, usize)>|
            ws.len() >= mem.words@.len() && ws.subrange(0, mem.words@.len() as int) == mem.words@
                && #[trigger] walked_from(*table, ws, pc, fp, r@),
        r@.len() <= MAX_FRAMES,
        resolves(*table, pc as int) <==> r@.len() > 0,
        r@.len() > 0 ==> frame_at(*table, pc as int, r@[0]),
        forall|i: int| 0 <= i < r@.len() - 1 ==> (#[trigger] r@[i]).function@ != "main"@,
{
    proof {
        reveal_strlit("main");
    }
    let mut known: Vec<(usize, usize)> = Vec::new();
    let mut c: usize = 0;
    while c < mem.words.len()
        invariant
            c <= mem.words.len(),
            known@ == mem.words@.subrange(0, c as int),
        decreases mem.words.len() - c,
    {
        known.push(mem.words[c]);
        assert(known@ =~= mem.words@.subrange(0, c + 1));
        c += 1;
    }
    assert(known@ =~= mem.words@);
    let mut frames: Vec<Frame> = Vec::new();
    let mut cur_pc = pc;
    let mut cur_fp = fp;
    let mut fuel: usize = MAX_FRAMES;
    let ghost mut pcs: Seq<int> = seq![];
    let ghost mut looked: Set<int> = Set::empty();
    assert forall|ws2: Seq<(usize, usize)>| agrees_on(ws2, known@, looked) implies frame_pcs(
        *table,
        ws2,
        pc as int,
        fp as int,
        MAX_FRAMES as nat,
    ) == pcs + #[trigger] frame_pcs(*table, ws2, cur_pc as int, cur_fp as int, fuel as nat) by {
        assert(pcs + frame_pcs(*table, ws2, cur_pc as int, cur_fp as int, fuel as nat) =~= frame_pcs(
            *table,
            ws2,
            cur_pc as int,
            cur_fp as int,
            fuel as nat,
        ));
    }
    while fuel > 0
        invariant
            fuel <= MAX_FRAMES,
            known@.len() >= mem.words@.len(),
            known@.subrange(0, mem.words@.len() as int) == mem.words@,
            mem.pid is None ==> known@ == mem.words@,
            forall|a: int| looked.contains(a) ==> (#[trigger] image_word(known@, a)) is Some,
            forall|ws2: Seq<(usize, usize)>| agrees_on(ws2, known@, looked) ==> frame_pcs(
                *table,
                ws2,
                pc as int,
                fp as int,
                MAX_FRAMES as nat,
            ) == pcs + #[trigger] frame_pcs(*table, ws2, cur_pc as int, cur_fp as int, fuel as nat),
            frames@.len() == MAX_FRAMES - fuel,
            frames_at(*table, pcs, frames@),
            frames@.len() > 0 ==> frame_at(*table, pc as int, frames@[0]) && resolves(*table, pc as int),
            frames@.len() == 0 ==> cur_pc == pc,
            forall|i: int| 0 <= i < frames@.len() ==> (#[trigger] frames@[i]).function@ != "main"@,
        decreases fuel,
    {
        let ghost k0 = known@;
        assert(agrees_on(k0, k0, looked));
        let ghost all = frame_pcs(*table, k0, pc as int, fp as int, MAX_FRAMES as nat);
        let ghost rest = frame_pcs(*table, k0, cur_pc as int, cur_fp as int, fuel as nat);
        assert(all == pcs + rest);
        match frame_for(table, cur_pc) {
            None => {
                assert(rest == Seq::<int>::empty());
                assert(pcs + rest =~= pcs);
                assert(walked_from(*table, known@, pc, fp, frames@));
                return frames;
            },
            Some(found) => {
                let (frame, entry) = found;
                proof {
                    pcs = pcs.push(cur_pc as int);
                }
                let ghost before = frames@;
                let is_main = entry;
                frames.push(frame);
                assert(frames_at(*table, pcs, frames@)) by {
                    assert forall|i: int| 0 <= i < pcs.len() implies frame_at(
                        *table,
                        pcs[i],
                        #[trigger] frames@[i],
                    ) by {
                        if i < pcs.len() - 1 {
                            assert(frames@[i] == before[i]);
                        }
                    }
                }
                if is_main || cur_fp > usize::MAX - 8 {
                    assert(rest == seq![cur_pc as int]);
                    assert(pcs =~= pcs.drop_last() + rest);
                    assert(walked_from(*table, known@, pc, fp, frames@));
                    return frames;
                }
                assert(frames@.last().function@ != "main"@);
                assert forall|i: int| 0 <= i < frames@.len() implies (#[trigger] frames@[i]).function@
                    != "main"@ by {
                    if i < frames@.len() - 1 {
                        assert(frames@[i] == before[i]);
                    }
                }
                let ret = load_word(mem, &mut known, cur_fp + 8);
                let ghost k1 = known@;
                let up = load_word(mem, &mut known, cur_fp);
                let ghost k2 = known@;
                proof {
                    // Words known before stay as they were.
                    assert forall|a: int| #[trigger] image_word(k0, a) is Some implies image_word(k2, a)
                        == image_word(k0, a) by {
                        if k1 != k0 {
                            lemma_image_word_push(k0, k1.last(), a);
                            assert(k1 == k0.push(k1.last()));
                        }
                        if k2 != k1 {
                            lemma_image_word_push(k1, k2.last(), a);
                            assert(k2 == k1.push(k2.last()));
                        }
                    }
                    if k2 != k1 {
                        lemma_image_word_push(k1, k2.last(), (cur_fp + 8) as int);
                        assert(k2 == k1.push(k2.last()));
                    }
                    if k1 != k0 {
                        assert(k1 == k0.push(k1.last()));
                        assert(k1.subrange(0, mem.words@.len() as int) =~= k0.subrange(0, mem.words@.len() as int));
                    }
                    if k2 != k1 {
                        assert(k2 == k1.push(k2.last()));
                        assert(k2.subrange(0, mem.words@.len() as int) =~= k1.subrange(0, mem.words@.len() as int));
                    }
                    assert(agrees_on(k2, k0, looked));
                }
                match (ret, up) {
                    (Some(r), Some(u)) => {
                        proof {
                            let new_looked = looked.insert((cur_fp + 8) as int).insert(cur_fp as int);
                            assert forall|ws2: Seq<(usize, usize)>| agrees_on(ws2, k2, new_looked) implies frame_pcs(
                                *table,
                                ws2,
                                pc as int,
                                fp as int,
                                MAX_FRAMES as nat,
                            ) == pcs + #[trigger] frame_pcs(*table, ws2, r as int, u as int, (fuel - 1) as nat) by {
                                assert(agrees_on(ws2, k0, looked)) by {
                                    assert forall|a: int| looked.contains(a) implies #[trigger] image_word(ws2, a)
                                        == image_word(k0, a) by {
                                        assert(new_looked.contains(a));
                                        assert(image_word(ws2, a) == image_word(k2, a));
                                    }
                                }
                                assert(image_word(ws2, (cur_fp + 8) as int) == Some(r)) by {
                                    assert(new_looked.contains((cur_fp + 8) as int));
                                }
                                assert(image_word(ws2, cur_fp as int) == Some(u)) by {
                                    assert(new_looked.contains(cur_fp as int));
                                }
                                let old_pcs = pcs.drop_last();
                                assert(frame_pcs(*table, ws2, cur_pc as int, cur_fp as int, fuel as nat) == seq![
                                    cur_pc as int,
                                ] + frame_pcs(*table, ws2, r as int, u as int, (fuel - 1) as nat));
                                assert(old_pcs + (seq![cur_pc as int] + frame_pcs(
                                    *table,
                                    ws2,
                                    r as int,
                                    u as int,
                                    (fuel - 1) as nat,
                                )) =~= pcs + frame_pcs(*table, ws2, r as int, u as int, (fuel - 1) as nat));
                            }
                            assert forall|a: int| new_looked.contains(a) implies (#[trigger] image_word(
                                k2,
                                a,
                            )) is Some by {
                                if looked.contains(a) {
                                    assert(image_word(k2, a) == image_word(k0, a));
                                }
                            }
                            looked = new_looked;
                        }
                        cur_pc = r;
                        cur_fp = u;
                    },
                    _ => {
                        proof {
                            let rest2 = frame_pcs(*table, k2, cur_pc as int, cur_fp as int, fuel as nat);
                            assert(rest2 == seq![cur_pc as int]);
                            assert(pcs =~= pcs.drop_last() + rest2);
                        }
                        assert(walked_from(*table, known@, pc, fp, frames@));
                        return frames;
                    },
                }
            },
        }
        fuel -= 1;
    }
    proof {
        assert(agrees_on(known@, known@, looked));
        assert(frame_pcs(*table, known@, cur_pc as int, cur_fp as int, 0) == Seq::<int>::empty());
        assert(pcs + Seq::<int>::empty() =~= pcs);
    }
    assert(walked_from(*table, known@, pc, fp, frames@));
    frames
}

/// Walking a call chain `main -> g -> f` while stopped in `f` reports the
/// frames of `f`, `g` and `main`, in that order, and ends at `main`: `f`'s
/// saved slots hold `g`'s return address and frame base, and `g`'s hold
/// those of `main`.
pub proof fn lemma_walk_call_chain(
    t: SymbolTable,
    ws: Seq<(usize, usize)>,
    pc_f: usize,
    fp_f: usize,
    pc_g: usize,
    fp_g: usize,
    pc_main: usize,
    fp_main: usize,
)
    requires
        resolves(t, pc_f as int),
        resolves(t, pc_g as int),
        resolves(t, pc_main as int),
        !in_entry_function(t, pc_f as int),
        !in_entry_function(t, pc_g as int),
        in_entry_function(t, pc_main as int),
        fp_f + 8 <= usize::MAX,
        fp_g + 8 <= usize::MAX,
        image_word(ws, fp_f + 8) == Some(pc_g),
        image_word(ws, fp_f as int) == Some(fp_g),
        image_word(ws, fp_g + 8) == Some(pc_main),
        image_word(ws, fp_g as int) == Some(fp_main),
    ensures
        frame_pcs(t, ws, pc_f as int, fp_f as int, MAX_FRAMES as nat) == seq![
            pc_f as int,
            pc_g as int,
            pc_main as int,
        ],
{
    let n = MAX_FRAMES as nat;
    assert(frame_pcs(t, ws, pc_main as int, fp_main as int, (n - 2) as nat) == seq![pc_main as int]);
    assert(frame_pcs(t, ws, pc_g as int, fp_g as int, (n - 1) as nat) =~= seq![pc_g as int, pc_main as int]);
    assert(frame_pcs(t, ws, pc_f as int, fp_f as int, n) =~= seq![
        pc_f as int,
        pc_g as int,
        pc_main as int,
    ]);
}

} // verus!
