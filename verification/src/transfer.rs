//! Carrying out a sequence of actions, one at a time, until it is done or
//! the bus fails.

use vstd::prelude::*;
use crate::error::DisplayError;
use crate::hardware::{ops, Action, Op};

verus! {

/// What the host reports before it asks for the next step.
#[derive(Clone, Copy, Debug, PartialEq, Eq, Structural)]
pub enum Event {
    /// Nothing has gone wrong: the previous action, if there was one, was
    /// carried out.
    Proceed,
    /// The bus write that was just attempted failed.
    BusFault,
}

/// What the host has to do next.
#[derive(Debug, PartialEq, Eq)]
pub enum Step<'a> {
    /// Carry out the action, then ask again.
    Perform(&'a Action),
    /// Nothing is left to do: the operation as a whole has ended so.
    Done(Result<(), DisplayError>),
}

/// A [`Step`] as a mathematical value.
pub enum StepView {
    Perform(Op),
    Done(Result<(), DisplayError>),
}

impl<'a> View for Step<'a> {
    type V = StepView;

    open spec fn view(&self) -> StepView {
        match *self {
            Step::Perform(action) => StepView::Perform(action@),
            Step::Done(result) => StepView::Done(result),
        }
    }
}

/// A [`Transfer`] as a mathematical value.
pub struct TransferView {
    /// Everything the transfer is to carry out.
    pub plan: Seq<Op>,
    /// How many operations of the plan have been handed out.
    pub issued: nat,
    /// Whether a bus fault has ended the transfer.
    pub aborted: bool,
}

impl TransferView {
    pub open spec fn wf(self) -> bool {
        self.issued <= self.plan.len()
    }

    /// The state after `event`, and the step that answers it. A bus fault
    /// ends the transfer for good; short of that the operations of the plan
    /// are handed out one by one, in order, and then the transfer has
    /// succeeded.
    pub open spec fn next(self, event: Event) -> (TransferView, StepView) {
        if self.aborted || event == Event::BusFault {
            (TransferView { aborted: true, ..self }, StepView::Done(Err(DisplayError::BusIo)))
        } else if self.issued < self.plan.len() {
            (
                TransferView { issued: self.issued + 1, ..self },
                StepView::Perform(self.plan[self.issued as int]),
            )
        } else {
            (self, StepView::Done(Ok(())))
        }
    }
}

impl TransferView {
    /// The state after all of `events`, and the steps that answered them.
    pub open spec fn run(self, events: Seq<Event>) -> (TransferView, Seq<StepView>)
        decreases events.len(),
    {
        if events.len() == 0 {
            (self, Seq::empty())
        } else {
            let (before, answers) = self.run(events.drop_last());
            let (after, answer) = before.next(events.last());
            (after, answers.push(answer))
        }
    }
}

/// As long as nothing fails, the operations of the plan are handed out in
/// order, each once, and after the last of them the transfer has succeeded.
pub proof fn lemma_run_in_order(transfer: TransferView, events: Seq<Event>)
    requires
        transfer.wf(),
        !transfer.aborted,
        forall|k: int| 0 <= k < events.len() ==> events[k] == Event::Proceed,
    ensures
        transfer.run(events).0.wf(),
        !transfer.run(events).0.aborted,
        transfer.run(events).0.plan == transfer.plan,
        transfer.run(events).0.issued == (if transfer.issued + events.len()
            <= transfer.plan.len() {
            transfer.issued + events.len()
        } else {
            transfer.plan.len()
        }),
        transfer.run(events).1.len() == events.len(),
        forall|k: int|
            0 <= k < events.len() ==> #[trigger] transfer.run(events).1[k] == (if transfer.issued
                + k < transfer.plan.len() {
                StepView::Perform(transfer.plan[transfer.issued + k])
            } else {
                StepView::Done(Ok(()))
            }),
    decreases events.len(),
{
    if events.len() > 0 {
        let earlier = events.drop_last();
        lemma_run_in_order(transfer, earlier);
        let answers = transfer.run(events).1;
        assert forall|k: int| 0 <= k < events.len() implies #[trigger] answers[k] == (
        if transfer.issued + k < transfer.plan.len() {
            StepView::Perform(transfer.plan[transfer.issued + k])
        } else {
            StepView::Done(Ok(()))
        }) by {
            if k < earlier.len() {
                assert(answers[k] == transfer.run(earlier).1[k]);
            }
        }
    }
}

/// A bus fault ends the transfer: from the step that answers it onwards no
/// operation is handed out, and every step reports the failure.
pub proof fn lemma_run_fails_fast(transfer: TransferView, events: Seq<Event>, fault: int)
    requires
        0 <= fault < events.len(),
        events[fault] == Event::BusFault,
    ensures
        transfer.run(events).0.aborted,
        transfer.run(events).1.len() == events.len(),
        forall|k: int|
            fault <= k < events.len() ==> #[trigger] transfer.run(events).1[k] == StepView::Done(
                Err(DisplayError::BusIo),
            ),
    decreases events.len(),
{
    let earlier = events.drop_last();
    lemma_run_len(transfer, earlier);
    if fault < earlier.len() {
        lemma_run_fails_fast(transfer, earlier, fault);
        let answers = transfer.run(events).1;
        assert forall|k: int| fault <= k < events.len() implies #[trigger] answers[k]
            == StepView::Done(Err(DisplayError::BusIo)) by {
            if k < earlier.len() {
                assert(answers[k] == transfer.run(earlier).1[k]);
            }
        }
    }
}

/// Every event is answered by one step.
pub proof fn lemma_run_len(transfer: TransferView, events: Seq<Event>)
    ensures
        transfer.run(events).1.len() == events.len(),
    decreases events.len(),
{
    if events.len() > 0 {
        lemma_run_len(transfer, events.drop_last());
    }
}

/// A sequence of actions in the course of being carried out.
pub struct Transfer {
    actions: Vec<Action>,
    cursor: usize,
    aborted: bool,
}

impl View for Transfer {
    type V = TransferView;

    closed spec fn view(&self) -> TransferView {
        TransferView {
            plan: ops(self.actions@),
            issued: self.cursor as nat,
            aborted: self.aborted,
        }
    }
}

impl Transfer {
    #[verifier::type_invariant]
    spec fn inv(self) -> bool {
        self.cursor <= self.actions@.len()
    }

    /// A transfer that has yet to hand out the first of `actions`.
    pub fn new(actions: Vec<Action>) -> (transfer: Transfer)
        ensures
            transfer@ == (TransferView { plan: ops(actions@), issued: 0, aborted: false }),
    {
        Transfer { actions, cursor: 0, aborted: false }
    }

    /// Takes note of `event` and says what to do next.
    pub fn step(&mut self, event: Event) -> (step: Step<'_>)
        ensures
            final(self)@.wf(),
            (final(self)@, step@) == old(self)@.next(event),
    {
        proof {
            use_type_invariant(&*self);
        }
        if self.aborted || event == Event::BusFault {
            self.aborted = true;
            Step::Done(Err(DisplayError::BusIo))
        } else if self.cursor < self.actions.len() {
            let index: usize = self.cursor;
            self.cursor = index + 1;
            Step::Perform(&self.actions[index])
        } else {
            Step::Done(Ok(()))
        }
    }
}

} // verus!
