//! The outcome reporter: an append-only log of reconciled requests and
//! their outcomes, kept in call order for external rendering. It performs
//! no filesystem access and no formatting of its own.

use vstd::prelude::*;

use crate::link::{log_view, LinkOutcome, LinkRequest, LinkRequestView};

verus! {

/// Collects one `(request, outcome)` pair per reconciled request, in the
/// order the pairs are recorded.
pub struct Reporter {
    log: Vec<(LinkRequest, LinkOutcome)>,
}

impl View for Reporter {
    type V = Seq<(LinkRequestView, LinkOutcome)>;

    closed spec fn view(&self) -> Seq<(LinkRequestView, LinkOutcome)> {
        log_view(self.log@)
    }
}

impl Reporter {
    /// An empty log.
    pub fn new() -> (r: Self)
        ensures
            r@ == Seq::<(LinkRequestView, LinkOutcome)>::empty(),
    {
        let r = Reporter { log: Vec::new() };
        proof {
            assert(r@ =~~= Seq::<(LinkRequestView, LinkOutcome)>::empty());
        }
        r
    }

    /// Appends one reconciled request with its outcome.
    pub fn record(&mut self, request: LinkRequest, outcome: LinkOutcome)
        ensures
            final(self)@ == old(self)@.push((request@, outcome)),
    {
        self.log.push((request, outcome));
        proof {
            assert(self@ =~~= old(self)@.push((request@, outcome)));
        }
    }

    /// Hands the accumulated log out, in record order.
    pub fn finalize(self) -> (log: Vec<(LinkRequest, LinkOutcome)>)
        ensures
            log_view(log@) == self@,
    {
        self.log
    }
}

/// Whether any request of the log failed at the system level. Per-request
/// conflicts and missing paths are reported but do not fail a run; a
/// failed creation call does.
pub fn any_system_error(log: &Vec<(LinkRequest, LinkOutcome)>) -> (r: bool)
    ensures
        r == exists|i: int| 0 <= i < log@.len() && (#[trigger] log@[i].1) is SystemError,
{
    let mut i: usize = 0;
    while i < log.len()
        invariant
            i <= log@.len(),
            forall|j: int| 0 <= j < i ==> !((#[trigger] log@[j].1) is SystemError),
        decreases log@.len() - i,
    {
        if matches!(log[i].1, LinkOutcome::SystemError(_)) {
            return true;
        }
        i = i + 1;
    }
    false
}

} // verus!
