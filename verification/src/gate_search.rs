//! Local search over gates: which gates are tried with which values, what stays, and when the
//! correction and the mask of the model are saved, refitted and restored.

use crate::figure::{at_most, less};
use crate::ternary_gates::{candidates, gate_candidates, spectrum_rejects, GateChoice, GateMode};
use vstd::prelude::*;

verus! {

/// Refit steps with a candidate in place, where the spectrum is guarded.
pub const CANDIDATE_REFIT: usize = 16;

/// Refit steps after a gate has got a better value.
pub const SETTLED_REFIT: usize = 12;

/// The rate of both, in thousandths.
pub const SEARCH_RATE: usize = 8;

/// What a search does besides trying gates.
#[derive(Debug, Clone, Copy, PartialEq, Eq, Structural)]
pub struct SearchRules {
    /// Whether the correction of the spectrum path and the mask are saved before a gate is tried,
    /// refitted where a better value is found, and restored elsewhere.
    pub corrects: bool,
    /// The largest spectrum error, where it is guarded: candidates are refitted before they are
    /// measured.
    pub spectrum: Option<u64>,
}

/// A gate whose candidates are being tried.
#[derive(Debug, Clone, Copy, PartialEq, Eq, Structural)]
pub struct OpenGate {
    pub gate: usize,
    /// The value that it had before.
    pub own: i8,
    /// How many candidates have been tried.
    pub tried: usize,
    /// The best value so far and its loss.
    pub best: GateChoice,
    /// Whether a candidate is in place and has yet to be measured.
    pub pending: bool,
}

/// What to do next in a search.
#[derive(Debug, Clone, Copy, PartialEq, Eq, Structural)]
pub enum SearchStep {
    /// A candidate is in place. Save the correction and the mask first where asked, refit for some
    /// steps, and measure.
    Try { gate: usize, value: i8, save: bool, refit_steps: usize },
    /// A gate has a better value: refit for some steps, and measure the mel error anew.
    Settle { gate: usize, value: i8, refit_steps: usize },
    /// A gate keeps its own value: restore the correction and the mask where asked.
    Keep { gate: usize, restore: bool },
    /// No gate is left to try.
    Done,
}

/// What became of a candidate.
#[derive(Debug, Clone, Copy, PartialEq, Eq, Structural)]
pub enum TrialVerdict {
    /// It is the best so far, and stays in place until the next.
    Taken,
    /// A gate has its own value again: restore the correction and the mask where asked.
    Rejected { restore: bool },
}

/// The errors measured with a candidate in place, as the bits of doubles. The mel error and the loss
/// count only where the spectrum error is accepted.
#[derive(Debug, Clone, Copy, PartialEq, Eq, Structural)]
pub struct Trial {
    pub spectrum: u64,
    pub mel: u64,
    pub loss: u64,
}

/// A search at one moment.
pub struct SearchState {
    pub gates: Seq<i8>,
    /// The gates that are still to be tried, in order.
    pub picks: Seq<usize>,
    pub rules: SearchRules,
    /// The loss that a candidate has to beat.
    pub baseline: u64,
    /// The largest mel error of a candidate.
    pub mel_limit: u64,
    pub open: Option<OpenGate>,
}

/// Which gate is being tried, or the next one.
pub open spec fn opened(s: SearchState) -> Option<OpenGate> {
    match s.open {
        Some(o) => Some(o),
        None => if s.picks.len() == 0 {
            None
        } else {
            let own = s.gates[s.picks[0] as int];
            Some(
                OpenGate {
                    gate: s.picks[0],
                    own,
                    tried: 0,
                    best: GateChoice { gate: own, loss: s.baseline },
                    pending: false,
                },
            )
        },
    }
}

/// The search with the next candidate in place, or with the best value where all have been tried.
pub open spec fn search_advanced(s: SearchState) -> (SearchState, SearchStep) {
    match opened(s) {
        None => (s, SearchStep::Done),
        Some(o) => {
            let all = candidates(o.own);
            let picks = if s.open is None {
                s.picks.drop_first()
            } else {
                s.picks
            };
            if o.tried < all.len() {
                let value = all[o.tried as int];
                (
                    SearchState {
                        gates: s.gates.update(o.gate as int, value),
                        picks,
                        open: Some(
                            OpenGate { tried: (o.tried + 1) as usize, pending: true, ..o },
                        ),
                        ..s
                    },
                    SearchStep::Try {
                        gate: o.gate,
                        value,
                        save: s.rules.corrects && o.tried == 0,
                        refit_steps: if s.rules.spectrum is Some {
                            CANDIDATE_REFIT
                        } else {
                            0
                        },
                    },
                )
            } else {
                let gates = s.gates.update(o.gate as int, o.best.gate);
                if o.best.gate != o.own {
                    (
                        SearchState { gates, picks, baseline: o.best.loss, open: None, ..s },
                        SearchStep::Settle {
                            gate: o.gate,
                            value: o.best.gate,
                            refit_steps: if s.rules.corrects {
                                SETTLED_REFIT
                            } else {
                                0
                            },
                        },
                    )
                } else {
                    (
                        SearchState { gates, picks, open: None, ..s },
                        SearchStep::Keep { gate: o.gate, restore: s.rules.corrects },
                    )
                }
            }
        },
    }
}

/// Whether a candidate in place is better than the best so far: its spectrum error is accepted, its
/// loss is smaller, and its mel error is within the limit.
pub open spec fn better(s: SearchState, o: OpenGate, t: Trial) -> bool {
    &&& s.rules.spectrum matches Some(limit) ==> !less(limit, t.spectrum)
    &&& less(t.loss, o.best.loss)
    &&& at_most(t.mel, s.mel_limit)
}

/// The search after the candidate in place has been measured.
pub open spec fn search_judged(s: SearchState, t: Trial) -> SearchState {
    match s.open {
        Some(o) if o.pending => if better(s, o, t) {
            SearchState {
                open: Some(
                    OpenGate {
                        best: GateChoice { gate: s.gates[o.gate as int], loss: t.loss },
                        pending: false,
                        ..o
                    },
                ),
                ..s
            }
        } else {
            SearchState {
                gates: s.gates.update(o.gate as int, o.own),
                open: Some(OpenGate { pending: false, ..o }),
                ..s
            }
        },
        _ => s,
    }
}

/// A local search over the gates of a model.
#[derive(Debug)]
pub struct GateSearch {
    gates: Vec<i8>,
    picks: Vec<usize>,
    at: usize,
    rules: SearchRules,
    baseline: u64,
    mel_limit: u64,
    open: Option<OpenGate>,
}

impl GateSearch {
    /// The search as it stands.
    pub closed spec fn state(&self) -> SearchState {
        SearchState {
            gates: self.gates@,
            picks: self.picks@.skip(self.at as int),
            rules: self.rules,
            baseline: self.baseline,
            mel_limit: self.mel_limit,
            open: self.open,
        }
    }

    /// Whether every gate in question exists.
    pub closed spec fn well_formed(&self) -> bool {
        &&& self.at <= self.picks.len()
        &&& forall|i: int| 0 <= i < self.picks.len() ==> (#[trigger] self.picks@[i]) < self.gates.len()
        &&& self.open matches Some(o) ==> o.gate < self.gates.len() && o.tried <= candidates(
            o.own,
        ).len()
    }

    /// Whether a candidate is in place and has yet to be measured.
    pub open spec fn pending(&self) -> bool {
        self.state().open matches Some(o) && o.pending
    }

    /// Starts a search over some gates, from the loss and the mel limit of the model as it is.
    pub fn new(
        gates: Vec<i8>,
        picks: Vec<usize>,
        rules: SearchRules,
        baseline: u64,
        mel_limit: u64,
    ) -> (r: GateSearch)
        requires
            forall|i: int| 0 <= i < picks@.len() ==> (#[trigger] picks@[i]) < gates@.len(),
        ensures
            r.well_formed(),
            r.state() == (SearchState {
                gates: gates@,
                picks: picks@,
                rules,
                baseline,
                mel_limit,
                open: None,
            }),
    {
        let r = GateSearch { gates, picks, at: 0, rules, baseline, mel_limit, open: None };
        assert(r.picks@.skip(0) =~= picks@);
        r
    }

    /// Goes on: puts the next candidate in place, or closes a gate whose candidates have all been
    /// tried.
    pub fn advance(&mut self) -> (r: SearchStep)
        requires
            old(self).well_formed(),
            !old(self).pending(),
        ensures
            final(self).well_formed(),
            (final(self).state(), r) == search_advanced(old(self).state()),
    {
        let ghost before = *self;
        let o = match self.open {
            Some(o) => o,
            None => {
                if self.at >= self.picks.len() {
                    return SearchStep::Done;
                }
                let gate: usize = self.picks[self.at];
                let own = self.gates[gate];
                assert(self.picks@.skip(self.at as int).drop_first() =~= self.picks@.skip(
                    self.at + 1,
                ));
                self.at = self.at + 1;
                OpenGate {
                    gate,
                    own,
                    tried: 0,
                    best: GateChoice { gate: own, loss: self.baseline },
                    pending: false,
                }
            },
        };
        assert(opened(before.state()) == Some(o));
        let all = gate_candidates(o.own);
        if o.tried < all.len() {
            let value = all[o.tried];
            self.gates.set(o.gate, value);
            self.open = Some(OpenGate { tried: o.tried + 1, pending: true, ..o });
            let refit_steps: usize = if self.rules.spectrum.is_some() {
                CANDIDATE_REFIT
            } else {
                0
            };
            SearchStep::Try {
                gate: o.gate,
                value,
                save: self.rules.corrects && o.tried == 0,
                refit_steps,
            }
        } else {
            self.gates.set(o.gate, o.best.gate);
            self.open = None;
            if o.best.gate != o.own {
                self.baseline = o.best.loss;
                let refit_steps: usize = if self.rules.corrects {
                    SETTLED_REFIT
                } else {
                    0
                };
                SearchStep::Settle { gate: o.gate, value: o.best.gate, refit_steps }
            } else {
                SearchStep::Keep { gate: o.gate, restore: self.rules.corrects }
            }
        }
    }

    /// Decides whether the candidate in place is the best so far.
    pub fn judge(&mut self, t: Trial) -> (r: TrialVerdict)
        requires
            old(self).well_formed(),
            old(self).pending(),
        ensures
            final(self).well_formed(),
            final(self).state() == search_judged(old(self).state(), t),
            r == if better(old(self).state(), old(self).state().open->0, t) {
                TrialVerdict::Taken
            } else {
                TrialVerdict::Rejected { restore: old(self).state().rules.corrects }
            },
    {
        match self.open {
            Some(o) => {
                let mut best = o.best;
                let value = self.gates[o.gate];
                if !spectrum_rejects(self.rules.spectrum, t.spectrum) && best.consider(
                    GateChoice { gate: value, loss: t.loss },
                    t.mel,
                    self.mel_limit,
                ) {
                    self.open = Some(OpenGate { best, pending: false, ..o });
                    TrialVerdict::Taken
                } else {
                    self.gates.set(o.gate, o.own);
                    self.open = Some(OpenGate { pending: false, ..o });
                    TrialVerdict::Rejected { restore: self.rules.corrects }
                }
            },
            None => TrialVerdict::Taken,
        }
    }

    /// Takes over the mel limit that was measured after a gate got a better value.
    pub fn settled(&mut self, mel_limit: u64)
        requires
            old(self).well_formed(),
        ensures
            final(self).well_formed(),
            final(self).state() == (SearchState { mel_limit, ..old(self).state() }),
    {
        self.mel_limit = mel_limit;
    }

    /// The gates of the model as they stand.
    pub fn gates(&self) -> (r: &Vec<i8>)
        ensures
            r@ == self.state().gates,
    {
        &self.gates
    }
}

/// What happens to a model while its gates are searched.
pub enum SearchEvent {
    Advance,
    Judge { trial: Trial },
    Settled { mel_limit: u64 },
}

/// The search after one event; it goes on only when nothing is pending.
pub open spec fn search_next(s: SearchState, e: SearchEvent) -> SearchState {
    match e {
        SearchEvent::Advance => if s.open matches Some(o) && o.pending {
            s
        } else {
            search_advanced(s).0
        },
        SearchEvent::Judge { trial } => search_judged(s, trial),
        SearchEvent::Settled { mel_limit } => SearchState { mel_limit, ..s },
    }
}

/// The search after some events.
pub open spec fn search_run(s: SearchState, events: Seq<SearchEvent>) -> SearchState
    decreases events.len(),
{
    if events.len() == 0 {
        s
    } else {
        search_next(search_run(s, events.drop_last()), events.last())
    }
}

/// A gate's own value, skip, forward or reverse.
pub open spec fn searched_value(now: i8, own: i8) -> bool {
    now == own || now == GateMode::Skip.code() || now == GateMode::Forward.code() || now
        == GateMode::Reverse.code()
}

/// Whether a loss is another one or less.
pub open spec fn not_worse(now: u64, before: u64) -> bool {
    now == before || less(now, before)
}

spec fn search_kept(s: SearchState, start: SearchState) -> bool {
    &&& s.gates.len() == start.gates.len()
    &&& forall|i: int|
        0 <= i < start.gates.len() ==> searched_value(#[trigger] s.gates[i], start.gates[i])
    &&& forall|i: int|
        0 <= i < start.gates.len() && !start.picks.contains(i as usize) ==> #[trigger] s.gates[i]
            == start.gates[i]
    &&& forall|i: int| 0 <= i < s.picks.len() ==> start.picks.contains(#[trigger] s.picks[i])
    &&& not_worse(s.baseline, start.baseline)
    &&& s.open matches Some(o) ==> {
        &&& start.picks.contains(o.gate)
        &&& searched_value(o.own, start.gates[o.gate as int])
        &&& searched_value(o.best.gate, start.gates[o.gate as int])
        &&& not_worse(o.best.loss, s.baseline)
    }
}

proof fn lemma_candidates(own: i8, k: int)
    requires
        0 <= k < candidates(own).len(),
    ensures
        searched_value(candidates(own)[k], own),
        forall|other: i8| searched_value(candidates(own)[k], other),
{
    let all = seq![GateMode::Skip.code(), GateMode::Forward.code(), GateMode::Reverse.code()];
    let c = candidates(own)[k];
    let keep = crate::ternary_gates::others(own);
    all.lemma_filter_contains_rev(keep, c);
}

/// However the trials of a search turn out, and whenever it ends, the model has as many gates as
/// before, only picked gates have changed, every gate has its old value or one of the three that are
/// tried, and the loss to beat has not risen.
pub proof fn searching_only_improves(start: SearchState, events: Seq<SearchEvent>)
    requires
        start.open is None,
        start.gates.len() <= usize::MAX,
        forall|i: int|
            0 <= i < start.picks.len() ==> (#[trigger] start.picks[i]) < start.gates.len(),
    ensures
        ({
            let s = search_run(start, events);
            &&& s.gates.len() == start.gates.len()
            &&& forall|i: int|
                0 <= i < start.gates.len() ==> searched_value(
                    #[trigger] s.gates[i],
                    start.gates[i],
                )
            &&& forall|i: int|
                0 <= i < start.gates.len() && !start.picks.contains(i as usize)
                    ==> #[trigger] s.gates[i] == start.gates[i]
            &&& not_worse(s.baseline, start.baseline)
        }),
{
    lemma_search_kept(start, events);
}

proof fn lemma_search_kept(start: SearchState, events: Seq<SearchEvent>)
    requires
        start.open is None,
        start.gates.len() <= usize::MAX,
        forall|i: int|
            0 <= i < start.picks.len() ==> (#[trigger] start.picks[i]) < start.gates.len(),
    ensures
        search_kept(search_run(start, events), start),
    decreases events.len(),
{
    if events.len() == 0 {
        assert forall|i: int| 0 <= i < start.picks.len() implies start.picks.contains(
            #[trigger] start.picks[i],
        ) by {}
    } else {
        lemma_search_kept(start, events.drop_last());
        let s = search_run(start, events.drop_last());
        let next = search_run(start, events);
        match events.last() {
            SearchEvent::Advance => {
                if !(s.open matches Some(o) && o.pending) {
                    match opened(s) {
                        None => {},
                        Some(o) => {
                            if s.open is None {
                                assert(start.picks.contains(s.picks[0]));
                                assert(s.gates[o.gate as int] == o.own);
                            }
                            assert(start.picks.contains(o.gate));
                            let at = choose|at: int|
                                0 <= at < start.picks.len() && start.picks[at] == o.gate;
                            assert(start.picks[at] < start.gates.len());
                            if o.tried < candidates(o.own).len() {
                                lemma_candidates(o.own, o.tried as int);
                            }
                        },
                    }
                }
            },
            SearchEvent::Judge { trial } => {
                match s.open {
                    Some(o) => {
                        let at = choose|at: int|
                            0 <= at < start.picks.len() && start.picks[at] == o.gate;
                        assert(start.picks[at] < start.gates.len());
                        assert(searched_value(
                            s.gates[o.gate as int],
                            start.gates[o.gate as int],
                        ));
                    },
                    None => {},
                }
            },
            SearchEvent::Settled { mel_limit } => {},
        }
    }
}

} // verus!
