use vstd::prelude::*;

verus! {

/// What the worker reports once the probe tool has finished without error.
pub const SUCCESS_MARKER: &'static str = "ok";

/// The text of the success marker.
pub open spec fn success_marker() -> Seq<char> {
    seq!['o', 'k']
}

/// Where a trace stands.
#[derive(Debug)]
pub enum TraceStatus {
    /// No trace has been started.
    Waiting,
    /// Records may still arrive.
    InProgress,
    /// The probe tool finished without error.
    Done,
    /// The trace failed with this message.
    Failed(String),
}

impl TraceStatus {
    /// The status line's text.
    pub fn text(&self) -> (r: String)
        ensures
            self is Failed ==> r@ == self->Failed_0@,
            self is Waiting ==> r@ == "Waiting"@,
            self is InProgress ==> r@ == "In Progress..."@,
            self is Done ==> r@ == "Done"@,
    {
        match self {
            TraceStatus::Waiting => "Waiting".to_owned(),
            TraceStatus::InProgress => "In Progress...".to_owned(),
            TraceStatus::Done => "Done".to_owned(),
            TraceStatus::Failed(m) => m.clone(),
        }
    }

    /// Whether the status line shows a failure.
    pub fn is_error(&self) -> (r: bool)
        ensures
            r == self is Failed,
    {
        matches!(self, TraceStatus::Failed(_))
    }
}

/// The worker's final message, from what the probe tool wrote to its error
/// stream: that text, or the success marker where it wrote nothing.
pub fn completion_message(stderr: String) -> (r: String)
    ensures
        stderr@.len() == 0 ==> r@ == success_marker(),
        stderr@.len() > 0 ==> r@ == stderr@,
{
    if stderr.as_str().is_empty() {
        proof {
            reveal_strlit("ok");
        }
        let r = SUCCESS_MARKER.to_owned();
        assert(r@ =~= success_marker());
        r
    } else {
        stderr
    }
}

/// The status that a message of the worker brings: done for the success
/// marker, a failure with the message for any other text.
pub fn status_of_message(msg: String) -> (r: TraceStatus)
    ensures
        msg@ == success_marker() ==> r is Done,
        msg@ != success_marker() ==> r == TraceStatus::Failed(msg),
{
    proof {
        reveal_strlit("ok");
    }
    let ok = SUCCESS_MARKER.to_owned();
    assert(ok@ =~= success_marker());
    if msg == ok {
        TraceStatus::Done
    } else {
        TraceStatus::Failed(msg)
    }
}

/// One trace: its target, the records received so far in order of arrival,
/// and its status.
pub struct TraceSession<T> {
    pub target: Option<String>,
    pub results: Vec<T>,
    pub status: TraceStatus,
}

impl<T> TraceSession<T> {
    /// No trace yet.
    pub fn new() -> (r: Self)
        ensures
            r.target is None,
            r.results@.len() == 0,
            r.status is Waiting,
    {
        TraceSession { target: None, results: Vec::new(), status: TraceStatus::Waiting }
    }

    /// Starts a trace of `target`: the earlier results are dropped.
    pub fn start(&mut self, target: String)
        ensures
            final(self).target == Some(target),
            final(self).results@.len() == 0,
            final(self).status is InProgress,
    {
        self.target = Some(target);
        self.results = Vec::new();
        self.status = TraceStatus::InProgress;
    }

    /// Appends a record that the worker sent.
    pub fn receive_record(&mut self, record: T)
        ensures
            final(self).results@ == old(self).results@.push(record),
            final(self).target == old(self).target,
            final(self).status == old(self).status,
    {
        self.results.push(record);
    }

    /// Appends records that the worker sent, in the order sent.
    pub fn receive_records(&mut self, records: Vec<T>)
        ensures
            final(self).results@ == old(self).results@ + records@,
            final(self).target == old(self).target,
            final(self).status == old(self).status,
    {
        let mut records = records;
        self.results.append(&mut records);
    }

    /// Takes in the worker's final message.
    pub fn receive_status(&mut self, msg: String)
        ensures
            final(self).results@ == old(self).results@,
            final(self).target == old(self).target,
            msg@ == success_marker() ==> final(self).status is Done,
            msg@ != success_marker() ==> final(self).status == TraceStatus::Failed(msg),
    {
        self.status = status_of_message(msg);
    }
}

} // verus!
