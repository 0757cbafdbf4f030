//! Waiting for the PipeWire server to catch up.
use vstd::prelude::*;

verus! {

/// The id of the server's core object.
pub const CORE_ID: u32 = 0;

/// A wait for the server to have handled all that was sent before it: it ends
/// when the core reports the sequence number that was asked for.
#[derive(Debug, Clone, Copy, PartialEq, Eq, Structural)]
pub struct Roundtrip {
    pub pending: i32,
    pub done: bool,
}

impl Roundtrip {
    /// A wait for `pending` to be reported.
    pub fn new(pending: i32) -> (wait: Roundtrip)
        ensures
            wait == (Roundtrip { pending, done: false }),
    {
        Roundtrip { pending, done: false }
    }

    /// Object `id` reported `seq`. Returns whether the loop is to be left.
    pub fn on_done(&mut self, id: u32, seq: i32) -> (quit: bool)
        ensures
            quit == (id == CORE_ID && seq == old(self).pending),
            *final(self) == (Roundtrip {
                pending: old(self).pending,
                done: old(self).done || quit,
            }),
    {
        if id == CORE_ID && seq == self.pending {
            self.done = true;
            true
        } else {
            false
        }
    }
}

/// The wait after a run of reports.
pub open spec fn after_reports(wait: Roundtrip, reports: Seq<(u32, i32)>) -> Roundtrip
    decreases reports.len(),
{
    if reports.len() == 0 {
        wait
    } else {
        let before = after_reports(wait, reports.drop_last());
        let (id, seq) = reports.last();
        Roundtrip {
            pending: before.pending,
            done: before.done || (id == CORE_ID && seq == before.pending),
        }
    }
}

/// A wait ends if and only if the core reports what was asked for.
pub proof fn law_wait_ends_with_its_report(pending: i32, reports: Seq<(u32, i32)>)
    ensures
        after_reports(Roundtrip { pending, done: false }, reports) == (Roundtrip {
            pending,
            done: reports.contains((CORE_ID, pending)),
        }),
    decreases reports.len(),
{
    if reports.len() > 0 {
        let earlier = reports.drop_last();
        law_wait_ends_with_its_report(pending, earlier);
        if earlier.contains((CORE_ID, pending)) {
            let i = choose|i: int| 0 <= i < earlier.len() && earlier[i] == (CORE_ID, pending);
            assert(reports[i] == (CORE_ID, pending));
        }
        if reports.contains((CORE_ID, pending)) && reports.last() != (CORE_ID, pending) {
            let i = choose|i: int| 0 <= i < reports.len() && reports[i] == (CORE_ID, pending);
            assert(earlier[i] == (CORE_ID, pending));
        }
    }
}

/// A wait is not over at first. Only the core's report of what was asked for
/// ends it, which is told; nothing undoes that or changes what was asked for.
pub proof fn law_only_its_report_ends_a_wait(
    pending: i32,
    fresh: Roundtrip,
    wait: &mut Roundtrip,
    id: u32,
    seq: i32,
    quit: bool,
)
    requires
        call_ensures(Roundtrip::new, (pending,), fresh),
        call_ensures(Roundtrip::on_done, (wait, id, seq), quit),
    ensures
        fresh.pending == pending,
        !fresh.done,
        quit <==> id == 0 && seq == old(wait).pending,
        final(wait).done <==> old(wait).done || quit,
        final(wait).pending == old(wait).pending,
{
}

} // verus!
