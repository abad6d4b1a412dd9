//! Attaching to the control block: a state machine that walks the candidate
//! regions in order, pass after pass, until a bind succeeds.
//!
//! The caller performs each action (a bind attempt, after an optional sleep)
//! and hands the outcome back.

use vstd::prelude::*;

verus! {

/// The sleep, in milliseconds, before the next attempt after a bind error
/// other than "not found".
pub const BACKOFF_MS: u64 = 300;

/// What a bind attempt on one region reported.
#[derive(Clone, Copy, Debug, PartialEq, Eq, Structural)]
pub enum BindOutcome {
    /// The control block was found in the region and the channel is bound.
    Bound,
    /// No control block in this region: try the next one at once.
    NotFound,
    /// Any other error, such as the target being unreachable for a moment.
    Failed,
}

/// What the caller does next.
#[derive(Clone, Copy, Debug, PartialEq, Eq, Structural)]
pub enum AttachAction {
    /// Sleep `backoff_ms` milliseconds, then try to bind in candidate `region`.
    Bind { region: usize, backoff_ms: u64 },
    /// The channel is bound; it was found in candidate `region`.
    Attached { region: usize },
    /// There is no candidate region: every pass is empty.
    Idle,
}

/// The abstract state of an attacher.
pub struct AttachState {
    pub n_regions: nat,
    pub cursor: nat,
    pub attached: bool,
}

/// The region after `cursor`, wrapping to the first at the end of a pass.
pub open spec fn next_region(cursor: nat, n_regions: nat) -> nat {
    if cursor + 1 >= n_regions {
        0
    } else {
        cursor + 1
    }
}

/// The state after an outcome, and the action that follows it.
pub open spec fn step(s: AttachState, outcome: BindOutcome) -> (AttachState, AttachAction) {
    let next = next_region(s.cursor, s.n_regions);
    match outcome {
        BindOutcome::Bound => (
            AttachState { attached: true, ..s },
            AttachAction::Attached { region: s.cursor as usize },
        ),
        BindOutcome::NotFound => (
            AttachState { cursor: next, ..s },
            AttachAction::Bind { region: next as usize, backoff_ms: 0 },
        ),
        BindOutcome::Failed => (
            AttachState { cursor: next, ..s },
            AttachAction::Bind { region: next as usize, backoff_ms: BACKOFF_MS },
        ),
    }
}

/// The actions that follow a sequence of outcomes, up to and including the
/// first `Attached`; outcomes after it are not read.
pub open spec fn attach_trace(s: AttachState, outcomes: Seq<BindOutcome>) -> Seq<AttachAction>
    decreases outcomes.len(),
{
    if outcomes.len() == 0 {
        Seq::empty()
    } else {
        let (t, a) = step(s, outcomes[0]);
        if a is Attached {
            seq![a]
        } else {
            seq![a] + attach_trace(t, outcomes.drop_first())
        }
    }
}

/// The state of a fresh attacher over `n_regions` candidates.
pub open spec fn initial(n_regions: nat) -> AttachState {
    AttachState { n_regions, cursor: 0, attached: false }
}

/// The first action of a fresh attacher.
pub open spec fn first_action(n_regions: nat) -> AttachAction {
    if n_regions == 0 {
        AttachAction::Idle
    } else {
        AttachAction::Bind { region: 0, backoff_ms: 0 }
    }
}

/// `k` outcomes of "not found" followed by one success.
pub open spec fn not_found_then_bound(k: nat) -> Seq<BindOutcome> {
    Seq::new(k, |i: int| BindOutcome::NotFound).push(BindOutcome::Bound)
}

/// `k` outcomes of "not found".
pub open spec fn never_found(k: nat) -> Seq<BindOutcome> {
    Seq::new(k, |i: int| BindOutcome::NotFound)
}

/// The number of outcomes that are errors other than "not found".
pub open spec fn failures(outcomes: Seq<BindOutcome>) -> nat
    decreases outcomes.len(),
{
    if outcomes.len() == 0 {
        0
    } else {
        (if outcomes[0] == BindOutcome::Failed { 1nat } else { 0nat }) + failures(outcomes.drop_first())
    }
}

/// The number of actions that sleep before their bind.
pub open spec fn backoffs(actions: Seq<AttachAction>) -> nat
    decreases actions.len(),
{
    if actions.len() == 0 {
        0
    } else {
        (if actions[0] matches AttachAction::Bind { backoff_ms, .. } && backoff_ms > 0 {
            1nat
        } else {
            0nat
        }) + backoffs(actions.drop_first())
    }
}

proof fn lemma_not_found_then_bound_from(s: AttachState, k: nat)
    requires
        s.n_regions > 0,
        s.cursor + k < s.n_regions,
        !s.attached,
    ensures
        attach_trace(s, not_found_then_bound(k)) == Seq::new(
            k,
            |i: int| AttachAction::Bind { region: (s.cursor + i + 1) as usize, backoff_ms: 0 },
        ).push(AttachAction::Attached { region: (s.cursor + k) as usize }),
    decreases k,
{
    let outs = not_found_then_bound(k);
    let expected = Seq::new(
        k,
        |i: int| AttachAction::Bind { region: (s.cursor + i + 1) as usize, backoff_ms: 0 },
    ).push(AttachAction::Attached { region: (s.cursor + k) as usize });
    if k == 0 {
        assert(outs[0] == BindOutcome::Bound);
        assert(attach_trace(s, outs) =~= expected);
    } else {
        assert(outs[0] == BindOutcome::NotFound);
        let t = AttachState { cursor: s.cursor + 1, ..s };
        assert(step(s, outs[0]).0 == t);
        assert(outs.drop_first() =~= not_found_then_bound((k - 1) as nat));
        lemma_not_found_then_bound_from(t, (k - 1) as nat);
        assert(attach_trace(s, outs) =~= expected);
    }
}

/// Where the first `k` candidates report "not found" and the next one binds,
/// the attacher tries the candidates in order without sleeping and ends
/// attached to candidate `k`: `k + 1` binds in all, counting the first action.
pub proof fn lemma_attach_after_not_found(n_regions: nat, k: nat)
    requires
        k < n_regions,
    ensures
        first_action(n_regions) == (AttachAction::Bind { region: 0, backoff_ms: 0 }),
        attach_trace(initial(n_regions), not_found_then_bound(k)) == Seq::new(
            k,
            |i: int| AttachAction::Bind { region: (i + 1) as usize, backoff_ms: 0 },
        ).push(AttachAction::Attached { region: k as usize }),
{
    lemma_not_found_then_bound_from(initial(n_regions), k);
    assert(Seq::new(
        k,
        |i: int| AttachAction::Bind { region: (0 + i + 1) as usize, backoff_ms: 0 },
    ) =~= Seq::new(k, |i: int| AttachAction::Bind { region: (i + 1) as usize, backoff_ms: 0 }));
}

/// Where every candidate reports "not found", the attacher never ends and
/// never sleeps: each outcome is followed by another bind, without backoff,
/// on the next candidate of the pass, wrapping round after the last.
pub proof fn lemma_never_found_keeps_trying(s: AttachState, k: nat)
    requires
        s.n_regions > 0,
        s.cursor < s.n_regions,
        !s.attached,
    ensures
        attach_trace(s, never_found(k)).len() == k,
        forall|i: int|
            0 <= i < k ==> (#[trigger] attach_trace(s, never_found(k))[i] matches AttachAction::Bind {
                region,
                backoff_ms,
            } && backoff_ms == 0 && region < s.n_regions),
    decreases k,
{
    if k > 0 {
        let outs = never_found(k);
        let t = step(s, BindOutcome::NotFound).0;
        assert(outs.drop_first() =~= never_found((k - 1) as nat));
        lemma_never_found_keeps_trying(t, (k - 1) as nat);
        let r = attach_trace(s, outs);
        let rest = attach_trace(t, never_found((k - 1) as nat));
        assert(r == seq![step(s, BindOutcome::NotFound).1] + rest);
        assert forall|i: int| 0 <= i < k implies (#[trigger] r[i] matches AttachAction::Bind {
            region,
            backoff_ms,
        } && backoff_ms == 0 && region < s.n_regions) by {
            if i > 0 {
                assert(r[i] == rest[i - 1]);
            }
        }
    }
}

/// Before the channel is bound, the attacher sleeps once for each error
/// other than "not found", and never otherwise.
pub proof fn lemma_backoff_per_failure(s: AttachState, outcomes: Seq<BindOutcome>)
    requires
        forall|i: int| 0 <= i < outcomes.len() ==> outcomes[i] != BindOutcome::Bound,
    ensures
        backoffs(attach_trace(s, outcomes)) == failures(outcomes),
    decreases outcomes.len(),
{
    if outcomes.len() > 0 {
        let (t, a) = step(s, outcomes[0]);
        let rest = outcomes.drop_first();
        assert forall|i: int| 0 <= i < rest.len() implies rest[i] != BindOutcome::Bound by {
            assert(rest[i] == outcomes[i + 1]);
        }
        lemma_backoff_per_failure(t, rest);
        let r = attach_trace(s, outcomes);
        assert(r == seq![a] + attach_trace(t, rest));
        assert(r.drop_first() =~= attach_trace(t, rest));
    }
}

/// An attacher over a fixed number of candidate regions.
pub struct ChannelAttacher {
    n_regions: usize,
    cursor: usize,
    attached: bool,
}

impl ChannelAttacher {
    pub closed spec fn view(&self) -> AttachState {
        AttachState { n_regions: self.n_regions as nat, cursor: self.cursor as nat, attached: self.attached }
    }

    pub closed spec fn wf(&self) -> bool {
        self.n_regions == 0 || self.cursor < self.n_regions
    }

    /// A fresh attacher over `n_regions` candidates, at the first of them.
    pub fn new(n_regions: usize) -> (r: ChannelAttacher)
        ensures
            r.wf(),
            r@ == initial(n_regions as nat),
    {
        ChannelAttacher { n_regions, cursor: 0, attached: false }
    }

    /// The first action: a bind on the first candidate, without sleeping, or
    /// `Idle` where there is none.
    pub fn start(&self) -> (a: AttachAction)
        ensures
            a == first_action(self@.n_regions),
    {
        if self.n_regions == 0 {
            AttachAction::Idle
        } else {
            AttachAction::Bind { region: 0, backoff_ms: 0 }
        }
    }

    /// Whether a bind has succeeded.
    pub fn is_attached(&self) -> (b: bool)
        ensures
            b == self@.attached,
    {
        self.attached
    }

    /// Takes the outcome of the bind on the current candidate and gives the
    /// next action: "not found" moves on to the next candidate at once, any
    /// other error moves on after a sleep of `BACKOFF_MS`, and success ends.
    /// After the last candidate the pass starts over from the first.
    pub fn on_outcome(&mut self, outcome: BindOutcome) -> (a: AttachAction)
        requires
            old(self).wf(),
            old(self)@.n_regions > 0,
            !old(self)@.attached,
        ensures
            final(self).wf(),
            (final(self)@, a) == step(old(self)@, outcome),
    {
        match outcome {
            BindOutcome::Bound => {
                self.attached = true;
                AttachAction::Attached { region: self.cursor }
            },
            _ => {
                self.cursor = if self.cursor + 1 >= self.n_regions {
                    0
                } else {
                    self.cursor + 1
                };
                let backoff_ms: u64 = if outcome == BindOutcome::Failed {
                    BACKOFF_MS
                } else {
                    0
                };
                AttachAction::Bind { region: self.cursor, backoff_ms }
            },
        }
    }
}

} // verus!
