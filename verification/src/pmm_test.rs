//! The frame allocator's boot self-test: take frames, check they differ,
//! give them back.
use vstd::prelude::*;
use crate::pmm::{count_true, lemma_count_none, lemma_count_update, PMMState, MAX_FRAMES, PAGE_SIZE};

verus! {

/// Frames the self-test takes.
pub const TEST_FRAMES: usize = 128;

/// Free frames other than frame 0, which is never handed out.
pub open spec fn usable_free(m: PMMState) -> int {
    m.free_count() - (if m@[0] { 1int } else { 0int })
}

proof fn lemma_some_free(m: PMMState)
    requires
        m.wf(),
        usable_free(m) > 0,
    ensures
        exists|g: int| 1 <= g < MAX_FRAMES && #[trigger] m@[g],
{
    m.lemma_wf();
    if forall|g: int| 1 <= g < MAX_FRAMES ==> !#[trigger] m@[g] {
        let v = m@.update(0, false);
        assert forall|i: int| 0 <= i < v.len() implies !v[i] by {
            if i >= 1 { assert(!m@[i]); }
        }
        lemma_count_none(v);
        lemma_count_update(m@, 0, false);
    }
}

/// Take `TEST_FRAMES` frames, check that no two are the same, and give them
/// all back; returns whether the test passed. It always passes, and the frame
/// map ends as it began: freeing what was allocated undoes the allocation.
pub fn test_pmm_basic(pmm: &mut PMMState) -> (passed: bool)
    requires
        old(pmm).wf(),
        usable_free(*old(pmm)) >= TEST_FRAMES,
    ensures
        passed,
        final(pmm).wf(),
        final(pmm)@ == old(pmm)@,
        final(pmm).free_count() == old(pmm).free_count(),
        final(pmm).total() == old(pmm).total(),
{
    let mut pages = [0usize; 128];
    let ghost mut frames: Seq<int> = Seq::empty();
    let mut i: usize = 0;
    while i < TEST_FRAMES
        invariant
            i <= TEST_FRAMES,
            pmm.wf(),
            old(pmm).wf(),
            pmm.total() == old(pmm).total(),
            pmm.free_count() + i == old(pmm).free_count(),
            frames.len() == i,
            forall|k: int| 0 <= k < i ==> 1 <= #[trigger] frames[k] < MAX_FRAMES && old(pmm)@[frames[k]],
            forall|k: int| 0 <= k < i ==> pages[k] == #[trigger] frames[k] * 4096,
            forall|k: int, l: int| 0 <= k < l < i ==> #[trigger] frames[k] != #[trigger] frames[l],
            forall|g: int| 0 <= g < MAX_FRAMES ==> #[trigger] pmm@[g] == (old(pmm)@[g] && !frames.contains(g)),
            usable_free(*old(pmm)) >= TEST_FRAMES,
        decreases TEST_FRAMES - i,
    {
        proof {
            assert(!frames.contains(0)) by {
                if frames.contains(0) {
                    let k = choose|k: int| 0 <= k < frames.len() && frames[k] == 0;
                    assert(1 <= frames[k]);
                }
            }
            assert(pmm@[0] == old(pmm)@[0]);
            lemma_some_free(*pmm);
        }
        let ghost before = *pmm;
        let p = pmm.alloc_frame();
        if p == 0 {
            return false;
        }
        pages[i] = p;
        proof {
            before.lemma_wf();
            pmm.lemma_wf();
            old(pmm).lemma_wf();
            let f = (p / PAGE_SIZE) as int;
            assert(p == f * 4096);
            assert(before@[f]);
            assert(!frames.contains(f));
            let nf = frames.push(f);
            assert forall|g: int| 0 <= g < MAX_FRAMES implies #[trigger] pmm@[g] == (old(pmm)@[g] && !nf.contains(g)) by {
                assert(before@[g] == (old(pmm)@[g] && !frames.contains(g)));
                if g == f {
                    assert(nf[frames.len() as int] == f);
                }
                if nf.contains(g) && g != f {
                    let k = choose|k: int| 0 <= k < nf.len() && nf[k] == g;
                    assert(frames[k] == g);
                }
                if frames.contains(g) {
                    let k = choose|k: int| 0 <= k < frames.len() && frames[k] == g;
                    assert(nf[k] == g);
                }
            }
            frames = nf;
        }
        i = i + 1;
    }
    proof {
        assert forall|k: int, l: int| 0 <= k < l < 128 implies #[trigger] pages[k] != #[trigger] pages[l] by {
            assert(frames[k] != frames[l]);
        }
    }
    let mut a: usize = 0;
    while a < TEST_FRAMES
        invariant
            a <= TEST_FRAMES,
            forall|k: int, l: int| 0 <= k < l < 128 ==> #[trigger] pages[k] != #[trigger] pages[l],
        decreases TEST_FRAMES - a,
    {
        let mut b: usize = a + 1;
        while b < TEST_FRAMES
            invariant
                a < b <= TEST_FRAMES,
                forall|k: int, l: int| 0 <= k < l < 128 ==> #[trigger] pages[k] != #[trigger] pages[l],
            decreases TEST_FRAMES - b,
        {
            if pages[a] == pages[b] {
                return false;
            }
            b = b + 1;
        }
        a = a + 1;
    }
    let mut j: usize = 0;
    assert(frames.subrange(0, 128) =~= frames);
    while j < TEST_FRAMES
        invariant
            j <= TEST_FRAMES,
            pmm.wf(),
            old(pmm).wf(),
            pmm.total() == old(pmm).total(),
            pmm.free_count() + TEST_FRAMES == old(pmm).free_count() + j,
            frames.len() == 128,
            forall|k: int| 0 <= k < 128 ==> 1 <= #[trigger] frames[k] < MAX_FRAMES && old(pmm)@[frames[k]],
            forall|k: int| 0 <= k < 128 ==> pages[k] == #[trigger] frames[k] * 4096,
            forall|k: int, l: int| 0 <= k < l < 128 ==> #[trigger] frames[k] != #[trigger] frames[l],
            forall|g: int| 0 <= g < MAX_FRAMES ==> #[trigger] pmm@[g] == (old(pmm)@[g] && !frames.subrange(j as int, 128).contains(g)),
        decreases TEST_FRAMES - j,
    {
        let ghost before = *pmm;
        let p = pages[j];
        let ghost f = frames[j as int];
        assert(p / PAGE_SIZE == f) by (nonlinear_arith) requires p == f * 4096, 0 <= f;
        proof {
            assert(frames.subrange(j as int, 128).contains(f)) by {
                assert(frames.subrange(j as int, 128)[0] == f);
            }
            assert(!before@[f]);
        }
        pmm.free_frame(p);
        proof {
            before.lemma_wf();
            pmm.lemma_wf();
            old(pmm).lemma_wf();
            let rest = frames.subrange(j + 1, 128);
            assert forall|g: int| 0 <= g < MAX_FRAMES implies #[trigger] pmm@[g] == (old(pmm)@[g] && !rest.contains(g)) by {
                let prev = frames.subrange(j as int, 128);
                if rest.contains(g) {
                    let k = choose|k: int| 0 <= k < rest.len() && rest[k] == g;
                    assert(prev[k + 1] == g);
                    assert(frames[j + 1 + k] != frames[j as int]);
                }
                if g != f && prev.contains(g) {
                    let k = choose|k: int| 0 <= k < prev.len() && prev[k] == g;
                    assert(k != 0);
                    assert(rest[k - 1] == g);
                }
            }
        }
        j = j + 1;
    }
    proof {
        pmm.lemma_wf();
        old(pmm).lemma_wf();
        assert forall|g: int| 0 <= g < MAX_FRAMES implies pmm@[g] == old(pmm)@[g] by {
            assert(!frames.subrange(128, 128).contains(g));
        }
        assert(pmm@ =~= old(pmm)@);
    }
    true
}

} // verus!
