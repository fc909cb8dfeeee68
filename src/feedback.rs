//! The feedback sink: checks operator reports, stamps them with a local id
//! and a time, and settles each with what the pool did when it was handed
//! the report. A report the pool could not be reached for waits in a bounded
//! queue; when the queue is full the oldest report is dropped.
use vstd::prelude::*;
use crate::text::{chars_of, joined, same_chars};

verus! {

/// The recognised kinds of report.
#[derive(Clone, Copy, Debug, PartialEq, Eq, Structural)]
pub enum ReportType {
    FalsePositive,
    FalseNegative,
    Crash,
    Other,
}

/// Why a report was refused.
#[derive(Clone, Copy, Debug, PartialEq, Eq, Structural)]
pub enum FeedbackError {
    /// The report type is not one of the recognised names.
    InvalidInput,
    /// The pool was reached but did not take the report.
    Transport,
}

/// What happened when a report was handed to the feedback pool.
pub enum PoolOutcome {
    /// The pool took the report and answered with this acknowledgement.
    Acknowledged(String),
    /// The pool was reached but the transfer failed.
    Failed,
    /// The pool could not be reached.
    Unreachable,
}

/// The name of each report type.
pub open spec fn report_type_spec_name(t: ReportType) -> Seq<char> {
    match t {
        ReportType::FalsePositive => "FALSE_POSITIVE"@,
        ReportType::FalseNegative => "FALSE_NEGATIVE"@,
        ReportType::Crash => "CRASH"@,
        ReportType::Other => "OTHER"@,
    }
}

/// The report type a name stands for; names are matched exactly.
pub open spec fn report_type_named(s: Seq<char>) -> Option<ReportType> {
    if s == "FALSE_POSITIVE"@ {
        Some(ReportType::FalsePositive)
    } else if s == "FALSE_NEGATIVE"@ {
        Some(ReportType::FalseNegative)
    } else if s == "CRASH"@ {
        Some(ReportType::Crash)
    } else if s == "OTHER"@ {
        Some(ReportType::Other)
    } else {
        None
    }
}

/// The report type a name stands for.
pub fn parse_report_type(s: &str) -> (r: Option<ReportType>)
    ensures
        r == report_type_named(s@),
{
    let c = chars_of(s);
    if same_chars(&c, &chars_of("FALSE_POSITIVE")) {
        Some(ReportType::FalsePositive)
    } else if same_chars(&c, &chars_of("FALSE_NEGATIVE")) {
        Some(ReportType::FalseNegative)
    } else if same_chars(&c, &chars_of("CRASH")) {
        Some(ReportType::Crash)
    } else if same_chars(&c, &chars_of("OTHER")) {
        Some(ReportType::Other)
    } else {
        None
    }
}

/// The name of a report type.
pub fn report_type_name(t: ReportType) -> (r: String)
    ensures
        r@ == report_type_spec_name(t),
{
    match t {
        ReportType::FalsePositive => String::from_str("FALSE_POSITIVE"),
        ReportType::FalseNegative => String::from_str("FALSE_NEGATIVE"),
        ReportType::Crash => String::from_str("CRASH"),
        ReportType::Other => String::from_str("OTHER"),
    }
}

/// A checked operator report with the states of the three panes.
pub struct FeedbackReport {
    pub pane_l_state: String,
    pub pane_n_state: String,
    pub pane_w_state: String,
    pub report_type: ReportType,
    pub timestamp: u64,
    pub local_id: u64,
}

/// Hands out local ids and holds reports that wait for the pool.
pub struct FeedbackSink {
    next_id: u64,
    capacity: usize,
    pending: Vec<FeedbackReport>,
}

/// The queue after `r` is added to `q` with room for `cap` reports: when the
/// queue is full its oldest report is dropped.
pub open spec fn enqueued(q: Seq<FeedbackReport>, cap: nat, r: FeedbackReport) -> Seq<FeedbackReport> {
    if cap == 0 {
        q
    } else if q.len() < cap {
        q.push(r)
    } else {
        q.drop_first().push(r)
    }
}

impl FeedbackSink {
    /// The id the next accepted report gets.
    pub closed spec fn next_id(&self) -> nat {
        self.next_id as nat
    }

    /// How many reports the queue holds at most.
    pub closed spec fn capacity(&self) -> nat {
        self.capacity as nat
    }

    /// The reports waiting for the pool, oldest first.
    pub closed spec fn pending(&self) -> Seq<FeedbackReport> {
        self.pending@
    }

    /// The queue holds no more than its capacity.
    pub open spec fn wf(&self) -> bool {
        self.pending().len() <= self.capacity()
    }

    /// A sink whose queue holds at most `capacity` reports; ids start at 0.
    pub fn new(capacity: usize) -> (r: FeedbackSink)
        ensures
            r.wf(),
            r.next_id() == 0,
            r.capacity() == capacity,
            r.pending().len() == 0,
    {
        FeedbackSink { next_id: 0, capacity, pending: Vec::new() }
    }

    /// The id the next accepted report gets.
    pub fn next_local_id(&self) -> (r: u64)
        ensures
            r == self.next_id(),
    {
        self.next_id
    }

    /// The number of reports waiting.
    pub fn pending_len(&self) -> (r: usize)
        ensures
            r == self.pending().len(),
    {
        self.pending.len()
    }

    /// Checks the report type and builds the report, with the next local id
    /// and the given timestamp, or `now` where none is given. An unrecognised
    /// type is refused and changes nothing.
    pub fn submit(
        &mut self,
        pane_l_state: String,
        pane_n_state: String,
        pane_w_state: String,
        report_type: &str,
        timestamp: Option<u64>,
        now: u64,
    ) -> (r: Result<FeedbackReport, FeedbackError>)
        requires
            old(self).next_id() < u64::MAX,
        ensures
            final(self).capacity() == old(self).capacity(),
            final(self).pending() == old(self).pending(),
            final(self).wf() == old(self).wf(),
            match report_type_named(report_type@) {
                None => r == Err::<FeedbackReport, FeedbackError>(FeedbackError::InvalidInput)
                    && final(self).next_id() == old(self).next_id(),
                Some(t) => r matches Ok(rep) && rep.report_type == t && rep.local_id
                    == old(self).next_id() && rep.timestamp == (match timestamp {
                    Some(ts) => ts,
                    None => now,
                }) && rep.pane_l_state@ == pane_l_state@ && rep.pane_n_state@ == pane_n_state@
                    && rep.pane_w_state@ == pane_w_state@ && final(self).next_id() == old(
                    self,
                ).next_id() + 1,
            },
    {
        let t = match parse_report_type(report_type) {
            Some(t) => t,
            None => return Err(FeedbackError::InvalidInput),
        };
        let id = self.next_id;
        self.next_id = id + 1;
        let ts = match timestamp {
            Some(ts) => ts,
            None => now,
        };
        Ok(
            FeedbackReport {
                pane_l_state,
                pane_n_state,
                pane_w_state,
                report_type: t,
                timestamp: ts,
                local_id: id,
            },
        )
    }

    /// Queues a report for the pool, dropping the oldest one when the queue
    /// is full.
    pub fn enqueue(&mut self, report: FeedbackReport)
        requires
            old(self).wf(),
        ensures
            final(self).wf(),
            final(self).next_id() == old(self).next_id(),
            final(self).capacity() == old(self).capacity(),
            final(self).pending() == enqueued(old(self).pending(), old(self).capacity(), report),
    {
        if self.capacity == 0 {
            return;
        }
        if self.pending.len() >= self.capacity {
            self.pending.remove(0);
        }
        self.pending.push(report);
    }

    /// Hands over every waiting report, oldest first, and empties the queue.
    pub fn take_pending(&mut self) -> (r: Vec<FeedbackReport>)
        ensures
            r@ == old(self).pending(),
            final(self).pending().len() == 0,
            final(self).wf(),
            final(self).next_id() == old(self).next_id(),
            final(self).capacity() == old(self).capacity(),
    {
        let mut out: Vec<FeedbackReport> = Vec::new();
        std::mem::swap(&mut out, &mut self.pending);
        out
    }
}

/// The text that acknowledges a report kept in the queue.
pub open spec fn queued_text(t: ReportType) -> Seq<char> {
    "Feedback queued: "@ + report_type_spec_name(t)
}

/// The error text for a report type that is not recognised.
pub open spec fn rejection_for(name: Seq<char>) -> Seq<char> {
    "Invalid report type: "@ + name
}

/// The error text for a failed transfer to the pool.
pub open spec fn transport_failure_text() -> Seq<char> {
    "Feedback pool transfer failed"@
}

impl FeedbackSink {
    /// Settles a report once the pool has been tried: the pool's own
    /// acknowledgement is returned; a failed transfer is a transport error;
    /// an unreachable pool leaves the report in the queue, acknowledged as
    /// queued. Only the last case changes the queue.
    pub fn settle(&mut self, report: FeedbackReport, outcome: PoolOutcome) -> (r: Result<
        String,
        FeedbackError,
    >)
        requires
            old(self).wf(),
        ensures
            final(self).wf(),
            final(self).next_id() == old(self).next_id(),
            final(self).capacity() == old(self).capacity(),
            match outcome {
                PoolOutcome::Acknowledged(ack) => r matches Ok(m) && m@ == ack@ && final(self).pending() == old(self).pending(),
                PoolOutcome::Failed => r == Err::<String, FeedbackError>(FeedbackError::Transport)
                    && final(self).pending() == old(self).pending(),
                PoolOutcome::Unreachable => r matches Ok(m) && m@ == queued_text(report.report_type)
                    && final(self).pending() == enqueued(
                    old(self).pending(),
                    old(self).capacity(),
                    report,
                ),
            },
    {
        match outcome {
            PoolOutcome::Acknowledged(ack) => Ok(ack),
            PoolOutcome::Failed => Err(FeedbackError::Transport),
            PoolOutcome::Unreachable => {
                proof {
                    reveal_strlit("Feedback queued: ");
                }
                let name = report_type_name(report.report_type);
                self.enqueue(report);
                Ok(joined("Feedback queued: ", name.as_str()))
            },
        }
    }
}

/// The command form of submission, first step: checks the report type and
/// stamps the report with the next local id and `now`, ready to be handed to
/// the pool; an unrecognised type is refused with an error text and changes
/// nothing.
pub fn submit_feedback(
    sink: &mut FeedbackSink,
    pane_l_state: String,
    pane_n_state: String,
    pane_w_state: String,
    report_type: String,
    now: u64,
) -> (r: Result<FeedbackReport, String>)
    requires
        old(sink).next_id() < u64::MAX,
    ensures
        final(sink).capacity() == old(sink).capacity(),
        final(sink).pending() == old(sink).pending(),
        match report_type_named(report_type@) {
            None => r matches Err(m) && m@ == rejection_for(report_type@) && final(sink).next_id()
                == old(sink).next_id(),
            Some(t) => r matches Ok(rep) && rep.report_type == t && rep.local_id == old(sink).next_id() && rep.timestamp == now && rep.pane_l_state@ == pane_l_state@
                && rep.pane_n_state@ == pane_n_state@ && rep.pane_w_state@ == pane_w_state@
                && final(sink).next_id() == old(sink).next_id() + 1,
        },
{
    match sink.submit(pane_l_state, pane_n_state, pane_w_state, report_type.as_str(), None, now) {
        Ok(rep) => Ok(rep),
        Err(_) => {
            proof {
                reveal_strlit("Invalid report type: ");
            }
            Err(joined("Invalid report type: ", report_type.as_str()))
        },
    }
}

/// The command form of submission, second step: settles the report with
/// what the pool did, as `FeedbackSink::settle` does, with the transport
/// error as text.
pub fn settle_feedback(sink: &mut FeedbackSink, report: FeedbackReport, outcome: PoolOutcome) -> (r:
    Result<String, String>)
    requires
        old(sink).wf(),
    ensures
        final(sink).wf(),
        final(sink).next_id() == old(sink).next_id(),
        final(sink).capacity() == old(sink).capacity(),
        match outcome {
            PoolOutcome::Acknowledged(ack) => r matches Ok(m) && m@ == ack@ && final(sink).pending()
                == old(sink).pending(),
            PoolOutcome::Failed => r matches Err(m) && m@ == transport_failure_text() && final(sink).pending() == old(sink).pending(),
            PoolOutcome::Unreachable => r matches Ok(m) && m@ == queued_text(report.report_type)
                && final(sink).pending() == enqueued(old(sink).pending(), old(sink).capacity(), report),
        },
{
    match sink.settle(report, outcome) {
        Ok(m) => Ok(m),
        Err(_) => {
            proof {
                reveal_strlit("Feedback pool transfer failed");
            }
            Err(String::from_str("Feedback pool transfer failed"))
        },
    }
}

} // verus!
