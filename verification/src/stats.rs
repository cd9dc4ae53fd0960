//! The running tally of a sweep.

use crate::binary64::Binary64;
use crate::executor::ExecutionResult;
use crate::result_processor::{law_pass_means_within_the_bound, verdict_of, Deviation, Verdict};
use vstd::prelude::*;

verus! {

/// Counts, results and deviations of the cases so far.
pub struct RunState {
    pub passes: usize,
    pub fails: usize,
    pub errors: usize,
    pub results: Vec<ExecutionResult>,
    /// The identity and deviation of each case that was graded.
    pub deltas: Vec<(String, Binary64)>,
}

/// The exit code of a sweep with these counts: 2 with any error, else 1 with any
/// failure, else 0.
pub open spec fn exit_code_for(fails: int, errors: int) -> int {
    if errors > 0 {
        2
    } else if fails > 0 {
        1
    } else {
        0
    }
}

/// `after` is `before` with one more case: its verdict is counted, its result kept,
/// and its deviation kept where it was graded.
pub open spec fn took_in(before: RunState, after: RunState, result: ExecutionResult, deviation: Deviation) -> bool {
    &&& counts_one_more(before, after, verdict_of(result.error is Some, deviation))
    &&& after.results@ == before.results@.push(result)
    &&& if result.error is Some {
        after.deltas@ == before.deltas@
    } else {
        &&& after.deltas@.len() == before.deltas@.len() + 1
        &&& after.deltas@.drop_last() == before.deltas@
        &&& after.deltas@.last().0@ == result.summary.case_id@
        &&& after.deltas@.last().1 == deviation.delta_pcm
    }
}

/// The count of `v` is one higher after than before, and the others are the same.
pub open spec fn counts_one_more(before: RunState, after: RunState, v: Verdict) -> bool {
    &&& after.passes == before.passes + (if v == Verdict::Pass {
        1int
    } else {
        0int
    })
    &&& after.fails == before.fails + (if v == Verdict::Fail {
        1int
    } else {
        0int
    })
    &&& after.errors == before.errors + (if v == Verdict::Error {
        1int
    } else {
        0int
    })
}

impl RunState {
    /// Every result is counted once, and every graded one has its deviation.
    pub open spec fn wf(self) -> bool {
        &&& self.passes + self.fails + self.errors == self.results@.len()
        &&& self.passes + self.fails == self.deltas@.len()
    }

    /// The counts are those of the verdicts.
    pub open spec fn counts(self, verdicts: Seq<Verdict>) -> bool {
        &&& self.passes == verdicts.to_multiset().count(Verdict::Pass)
        &&& self.fails == verdicts.to_multiset().count(Verdict::Fail)
        &&& self.errors == verdicts.to_multiset().count(Verdict::Error)
    }

    /// Takes the result of a case into the tally.
    pub fn record(&mut self, result: ExecutionResult, deviation: &Deviation)
        requires
            old(self).wf(),
        ensures
            final(self).wf(),
            took_in(*old(self), *final(self), result, *deviation),
    {
        let verdict = Verdict::classify(&result, deviation);
        if result.error.is_none() {
            self.deltas.push((result.summary.case_id.clone(), deviation.delta_pcm));
            proof {
                assert(self.deltas@.drop_last() =~= old(self).deltas@);
            }
        }
        self.results.push(result);
        let count: usize = self.results.len();
        assert(self.passes + self.fails + self.errors + 1 == count);
        match verdict {
            Verdict::Pass => {
                self.passes += 1;
            },
            Verdict::Fail => {
                self.fails += 1;
            },
            Verdict::Error => {
                self.errors += 1;
            },
        }
    }

    /// The exit code of the sweep.
    pub fn exit_code(&self) -> (r: i32)
        ensures
            r == exit_code_for(self.fails as int, self.errors as int),
    {
        if self.errors > 0 {
            2
        } else if self.fails > 0 {
            1
        } else {
            0
        }
    }

    /// The number of cases so far.
    pub fn total(&self) -> (r: usize)
        requires
            self.passes + self.fails + self.errors <= usize::MAX,
        ensures
            r == self.passes + self.fails + self.errors,
            self.wf() ==> r == self.results@.len(),
    {
        self.passes + self.fails + self.errors
    }
}

impl Default for RunState {
    fn default() -> (r: Self)
        ensures
            r.wf(),
            r.passes == 0 && r.fails == 0 && r.errors == 0,
            r.results@.len() == 0,
            r.deltas@.len() == 0,
    {
        RunState { passes: 0, fails: 0, errors: 0, results: Vec::new(), deltas: Vec::new() }
    }
}

/// Recording a case with a verdict adds that verdict to those counted.
pub proof fn law_record_counts_the_verdict(before: RunState, after: RunState, verdicts: Seq<Verdict>, v: Verdict)
    requires
        before.counts(verdicts),
        counts_one_more(before, after, v),
    ensures
        after.counts(verdicts.push(v)),
{
    broadcast use vstd::seq_lib::group_to_multiset_ensures;

    assert(verdicts.push(v).to_multiset() =~= verdicts.to_multiset().insert(v));
}

/// The counts and the exit code of a sweep do not depend on the order in which
/// its cases finish.
pub proof fn law_tally_ignores_order(a: RunState, b: RunState, va: Seq<Verdict>, vb: Seq<Verdict>)
    requires
        a.counts(va),
        b.counts(vb),
        va.to_multiset() == vb.to_multiset(),
    ensures
        a.passes == b.passes,
        a.fails == b.fails,
        a.errors == b.errors,
        exit_code_for(a.fails as int, a.errors as int) == exit_code_for(b.fails as int, b.errors as int),
{
}

/// A sweep exits with 0 exactly where every case passed.
pub proof fn law_clean_exit_means_all_passed(s: RunState)
    requires
        s.wf(),
    ensures
        exit_code_for(s.fails as int, s.errors as int) == 0 <==> s.passes == s.results@.len(),
        exit_code_for(s.fails as int, s.errors as int) == 2 <==> s.errors > 0,
{
}

/// `states` are the tallies of a sweep that takes in `results` one by one.
pub open spec fn takes_in_all(
    states: Seq<RunState>,
    results: Seq<ExecutionResult>,
    deviations: Seq<Deviation>,
) -> bool {
    &&& states.len() == results.len() + 1
    &&& deviations.len() == results.len()
    &&& states[0].wf() && states[0].results@.len() == 0
    &&& forall|i: int|
        0 <= i < results.len() ==> took_in(#[trigger] states[i], states[i + 1], results[i], deviations[i])
}

/// A sweep counts every case once, a case that could not be loaded or run among
/// them: one with an error makes the sweep exit with 2.
pub proof fn law_sweep_counts_every_case(
    states: Seq<RunState>,
    results: Seq<ExecutionResult>,
    deviations: Seq<Deviation>,
)
    requires
        takes_in_all(states, results, deviations),
    ensures
        ({
            let s = states.last();
            &&& s.wf()
            &&& s.results@ == results
            &&& s.passes + s.fails + s.errors == results.len()
            &&& (exists|i: int| 0 <= i < results.len() && (#[trigger] results[i]).error is Some) ==> s.errors >= 1
                && exit_code_for(s.fails as int, s.errors as int) == 2
        }),
    decreases results.len(),
{
    let s = states.last();
    if results.len() > 0 {
        let last = results.len() - 1;
        assert forall|i: int| 0 <= i < last implies took_in(
            #[trigger] states.drop_last()[i],
            states.drop_last()[i + 1],
            results.drop_last()[i],
            deviations.drop_last()[i],
        ) by {
            assert(took_in(states[i], states[i + 1], results[i], deviations[i]));
        }
        law_sweep_counts_every_case(states.drop_last(), results.drop_last(), deviations.drop_last());
        let before = states.drop_last().last();
        assert(before == states[last]);
        assert(took_in(states[last], states[last + 1], results[last], deviations[last]));
        assert(s == states[last + 1]);
        assert(results =~= results.drop_last().push(results[last]));
        if exists|i: int| 0 <= i < results.len() && (#[trigger] results[i]).error is Some {
            let i = choose|i: int| 0 <= i < results.len() && (#[trigger] results[i]).error is Some;
            if i < last {
                assert(results.drop_last()[i].error is Some);
            }
        }
    } else {
        assert(s.results@ =~= results);
    }
}

/// The exit code of a sweep: 2 exactly where some case has an error, 1 exactly where
/// none has and some case failed, else 0.
pub proof fn law_exit_code_tells_the_worst_grade(s: &RunState, r: i32)
    requires
        call_ensures(RunState::exit_code, (s,), r),
    ensures
        r == 2 <==> s.errors > 0,
        r == 1 <==> s.errors == 0 && s.fails > 0,
        r == 0 <==> s.errors == 0 && s.fails == 0,
{
}

/// Taking in a result raises the count of its grade by one and no other: errors
/// where it has an error, else passes where its deviation is at most its bound, else
/// fails. The result is kept last, and a graded one has its deviation kept under its
/// own name.
pub proof fn law_result_is_counted_by_its_grade(
    s: &mut RunState,
    result: ExecutionResult,
    deviation: &Deviation,
    bound: Binary64,
)
    requires
        call_ensures(RunState::record, (s, result, deviation), ()),
        call_ensures(Deviation::bound_pcm, (deviation,), bound),
    ensures
        ({
            let within = !deviation.delta_pcm.nan() && -bound.scaled() <= deviation.delta_pcm.scaled()
                <= bound.scaled();
            &&& result.error is Some ==> final(s).errors == old(s).errors + 1 && final(s).passes == old(s).passes
                && final(s).fails == old(s).fails && final(s).deltas@ == old(s).deltas@
            &&& result.error is None && within ==> final(s).passes == old(s).passes + 1 && final(s).fails
                == old(s).fails && final(s).errors == old(s).errors
            &&& result.error is None && !within ==> final(s).fails == old(s).fails + 1 && final(s).passes
                == old(s).passes && final(s).errors == old(s).errors
        }),
        final(s).results@ == old(s).results@.push(result),
        result.error is None ==> final(s).deltas@.len() == old(s).deltas@.len() + 1
            && final(s).deltas@.last().0@ == result.summary.case_id@ && final(s).deltas@.last().1
            == deviation.delta_pcm,
{
    law_pass_means_within_the_bound(*deviation, bound);
}

} // verus!
