//! Ordered submission of independently recorded command batches.
//!
//! Each recording pass finishes its commands with an integer priority;
//! the aggregator collects all batches of the frame, sorts them by
//! priority with a stable sort (ties keep producer order) and hands
//! back the one sequence the device queue must receive.  Priority is
//! the sole ordering contract between passes: a lower number is
//! submitted earlier.

use vstd::prelude::*;

verus! {

/// Priority of the pass that clears the frame: before geometry.
pub const CLEAR_PASS_PRIORITY: u32 = 1000;

/// Priority of the batched solid-geometry pass.
pub const SOLID_PASS_PRIORITY: u32 = 2000;

/// A finished, priority-tagged unit of recorded GPU work.  The
/// recorded buffer itself is held by the embedding program under the
/// handle carried here.
#[derive(Clone, Copy, PartialEq, Eq, Structural, Debug)]
pub struct Commands {
    pub priority: u32,
    /// Handle of the recorded command buffer.
    pub inner: u64,
}

/// Batches stand in ascending priority.
pub open spec fn sorted_by_priority(s: Seq<Commands>) -> bool {
    forall|i: int, j: int| 0 <= i < j < s.len() ==> s[i].priority <= s[j].priority
}

/// Selects batches of one priority, in order.
pub open spec fn pri_pred(p: u32) -> spec_fn(Commands) -> bool {
    |c: Commands| c.priority == p
}

pub open spec fn with_priority(s: Seq<Commands>, p: u32) -> Seq<Commands> {
    s.filter(pri_pred(p))
}

proof fn lemma_with_priority_add(a: Seq<Commands>, b: Seq<Commands>, p: u32)
    ensures
        with_priority(a + b, p) == with_priority(a, p) + with_priority(b, p),
{
    Seq::filter_distributes_over_add(a, b, pri_pred(p));
}

proof fn lemma_with_priority_one(c: Commands, p: u32)
    ensures
        with_priority(seq![c], p) == if c.priority == p {
            seq![c]
        } else {
            Seq::<Commands>::empty()
        },
{
    reveal_with_fuel(Seq::filter, 2);
    assert(seq![c].drop_last() =~= Seq::<Commands>::empty());
}

proof fn lemma_with_priority_none(s: Seq<Commands>, p: u32)
    requires
        forall|i: int| 0 <= i < s.len() ==> s[i].priority != p,
    ensures
        with_priority(s, p) == Seq::<Commands>::empty(),
    decreases s.len(),
{
    reveal_with_fuel(Seq::filter, 2);
    if s.len() > 0 {
        assert forall|i: int| 0 <= i < s.drop_last().len() implies s.drop_last()[i].priority
            != p by {
            assert(s.drop_last()[i] == s[i]);
        }
        lemma_with_priority_none(s.drop_last(), p);
        assert(!pri_pred(p)(s.last()));
    }
}

/// Stable sort on priority: the result is ascending, and within each
/// priority the producers' order is kept — the result's subsequence of
/// any priority equals the input's.  Those two facts pin the result
/// sequence completely.
pub fn sort_by_priority(commands: Vec<Commands>) -> (r: Vec<Commands>)
    ensures
        sorted_by_priority(r@),
        r@.len() == commands@.len(),
        forall|p: u32| with_priority(r@, p) == with_priority(commands@, p),
{
    let mut out: Vec<Commands> = Vec::new();
    let mut k: usize = 0;
    while k < commands.len()
        invariant
            k <= commands@.len(),
            out@.len() == k,
            sorted_by_priority(out@),
            forall|p: u32| with_priority(out@, p) == with_priority(commands@.take(k as int), p),
        decreases commands@.len() - k,
    {
        let c = commands[k];
        let mut j: usize = out.len();
        while j > 0 && out[j - 1].priority > c.priority
            invariant
                j <= out@.len(),
                forall|m: int| j <= m < out@.len() ==> out@[m].priority > c.priority,
            decreases j,
        {
            j = j - 1;
        }
        let ghost prev = out@;
        let ghost jj = j as int;
        out.insert(j, c);
        proof {
            let front = prev.subrange(0, jj);
            let back = prev.subrange(jj, prev.len() as int);
            assert(out@ =~= front + seq![c] + back);
            assert(prev =~= front + back);
            // Ascending order is kept: everything before the insertion
            // point is no greater, everything after is strictly greater.
            assert forall|a: int, b: int| 0 <= a < b < out@.len() implies out@[a].priority
                <= out@[b].priority by {
                if a < jj {
                    assert(out@[a] == prev[a]);
                }
                if b < jj {
                    assert(out@[b] == prev[b]);
                }
                if a > jj {
                    assert(out@[a] == prev[a - 1]);
                }
                if b > jj {
                    assert(out@[b] == prev[b - 1]);
                }
                if jj > 0 {
                    assert(prev[jj - 1].priority <= c.priority);
                }
            }
            // Each priority class grows by exactly the inserted batch,
            // at its end, or not at all.
            assert(commands@.take((k + 1) as int).drop_last() =~= commands@.take(k as int));
            assert(commands@.take((k + 1) as int) =~= commands@.take(k as int) + seq![c]);
            assert forall|p: u32| with_priority(out@, p) == with_priority(
                commands@.take((k + 1) as int),
                p,
            ) by {
                lemma_with_priority_add(front + seq![c], back, p);
                lemma_with_priority_add(front, seq![c], p);
                lemma_with_priority_add(front, back, p);
                lemma_with_priority_add(commands@.take(k as int), seq![c], p);
                lemma_with_priority_one(c, p);
                if c.priority == p {
                    assert forall|i: int| 0 <= i < back.len() implies back[i].priority != p by {
                        assert(back[i] == prev[jj + i]);
                    }
                    lemma_with_priority_none(back, p);
                    assert(with_priority(out@, p) =~= with_priority(prev, p) + seq![c]);
                } else {
                    assert(with_priority(out@, p) =~= with_priority(prev, p));
                }
            }
        }
        k = k + 1;
    }
    proof {
        assert(commands@.take(commands@.len() as int) =~= commands@);
    }
    out
}

/// Submission report: the frame's commands were executed.
pub struct Submit {
    /// How long preparing the frame took, nanoseconds.
    pub duration: u64,
}

/// Task fixing the device submission order for the frame's collected
/// batches.  The embedding program submits the returned sequence as
/// one call, then blocks until the device confirms completion; the
/// task value itself is the token that submission happened.
#[derive(Default)]
pub struct SubmitCommands {}

impl SubmitCommands {
    pub fn run(&mut self, commands: Vec<Commands>) -> (r: Vec<Commands>)
        ensures
            sorted_by_priority(r@),
            r@.len() == commands@.len(),
            forall|p: u32| with_priority(r@, p) == with_priority(commands@, p),
    {
        sort_by_priority(commands)
    }
}

/// Task consuming the frame target after submission.  Taking the
/// `SubmitCommands` token by value keeps presentation after the
/// frame's commands are confirmed complete.
#[derive(Default)]
pub struct PresentFrame {}

impl PresentFrame {
    pub fn run(&mut self, frame: crate::gpu::Frame, submitted: SubmitCommands) -> (r: Submit)
        ensures
            r.duration == frame.delta,
    {
        let _ = submitted;
        Submit { duration: frame.delta() }
    }
}

} // verus!
