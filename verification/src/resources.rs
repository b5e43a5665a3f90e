//! What a run hands to the host: output records, the events made of them,
//! and the channels that collect them.

use crate::text::{digits_of, render_nat};
use vstd::prelude::*;
use vstd::string::*;

verus! {

/// The source text is not a program: no rule of the grammar goes on at
/// `position`, the farthest place the parser got to, counted in characters.
#[derive(Clone, Copy, Debug, PartialEq, Eq)]
pub struct SyntaxError {
    pub position: usize,
}

/// The run was stopped because its budget was used up: no step was left, or
/// no further scope could be opened.
#[derive(Clone, Copy, Debug, PartialEq, Eq)]
pub struct BudgetExceeded {}

/// A failure that a run reports and survives.
#[derive(Debug, PartialEq, Eq)]
pub enum Diagnostic {
    /// The source text could not be parsed; nothing was run.
    Syntax(SyntaxError),
    /// The expression of a print statement has no value.
    PrintFailed,
    /// An argument of a call has no value; the call was not made.
    ArgumentFailed,
    /// The expression of an assignment has no value; nothing was assigned.
    AssignmentFailed,
    /// No function of that name is known; the call was not made.
    FunctionNotFound(String),
    /// The budget of steps or of open scopes was used up; the run was
    /// stopped.
    BudgetExceeded,
}

/// A diagnostic as mathematics sees it.
pub enum DiagnosticView {
    Syntax(SyntaxError),
    PrintFailed,
    ArgumentFailed,
    AssignmentFailed,
    FunctionNotFound(Seq<char>),
    BudgetExceeded,
}

impl View for Diagnostic {
    type V = DiagnosticView;

    open spec fn view(&self) -> DiagnosticView {
        match self {
            Diagnostic::Syntax(e) => DiagnosticView::Syntax(*e),
            Diagnostic::PrintFailed => DiagnosticView::PrintFailed,
            Diagnostic::ArgumentFailed => DiagnosticView::ArgumentFailed,
            Diagnostic::AssignmentFailed => DiagnosticView::AssignmentFailed,
            Diagnostic::FunctionNotFound(n) => DiagnosticView::FunctionNotFound(n@),
            Diagnostic::BudgetExceeded => DiagnosticView::BudgetExceeded,
        }
    }
}

/// One entry of a run's output.
#[derive(Debug, PartialEq, Eq)]
pub enum OutputRecord {
    /// The text of a printed value.
    Print(String),
    /// The text of a value returned outside any function.
    Returned(String),
    /// A failure that was reported.
    Diagnostic(Diagnostic),
}

/// A record as mathematics sees it.
pub enum OutputRecordView {
    Print(Seq<char>),
    Returned(Seq<char>),
    Diagnostic(DiagnosticView),
}

impl View for OutputRecord {
    type V = OutputRecordView;

    open spec fn view(&self) -> OutputRecordView {
        match self {
            OutputRecord::Print(s) => OutputRecordView::Print(s@),
            OutputRecord::Returned(s) => OutputRecordView::Returned(s@),
            OutputRecord::Diagnostic(d) => OutputRecordView::Diagnostic(d@),
        }
    }
}

/// The views of a sequence of records, one for one.
pub open spec fn records_view(s: Seq<OutputRecord>) -> Seq<OutputRecordView> {
    Seq::new(s.len(), |i: int| s[i]@)
}

/// The message of a diagnostic.
pub open spec fn diagnostic_message(d: DiagnosticView) -> Seq<char> {
    match d {
        DiagnosticView::Syntax(e) => " parse error : position "@ + digits_of(e.position as nat),
        DiagnosticView::PrintFailed => "error evaluating print statement"@,
        DiagnosticView::ArgumentFailed => "Error evaluating argument for function call."@,
        DiagnosticView::AssignmentFailed => "Error evaluating assignment expression."@,
        DiagnosticView::FunctionNotFound(n) => "Function '"@ + n + "' not found!"@,
        DiagnosticView::BudgetExceeded => "Budget exceeded."@,
    }
}

/// The message of a record: a printed text as it is, a returned text
/// behind the words that mark it, a diagnostic by its message.
pub open spec fn record_message(r: OutputRecordView) -> Seq<char> {
    match r {
        OutputRecordView::Print(s) => s,
        OutputRecordView::Returned(s) => "Returned : "@ + s,
        OutputRecordView::Diagnostic(d) => diagnostic_message(d),
    }
}

impl Diagnostic {
    /// The message of this diagnostic.
    pub fn message(&self) -> (r: String)
        ensures
            r@ == diagnostic_message(self@),
    {
        match self {
            Diagnostic::Syntax(e) => {
                let mut r = String::from_str(" parse error : position ");
                let n = render_nat(e.position as u64);
                r.append(n.as_str());
                r
            },
            Diagnostic::PrintFailed => String::from_str("error evaluating print statement"),
            Diagnostic::ArgumentFailed => String::from_str(
                "Error evaluating argument for function call.",
            ),
            Diagnostic::AssignmentFailed => String::from_str(
                "Error evaluating assignment expression.",
            ),
            Diagnostic::FunctionNotFound(n) => {
                let mut r = String::from_str("Function '");
                r.append(n.as_str());
                r.append("' not found!");
                r
            },
            Diagnostic::BudgetExceeded => String::from_str("Budget exceeded."),
        }
    }
}

/// What the host shows: one message.
#[derive(Debug, PartialEq, Eq)]
pub struct PrintEvent {
    pub message: String,
}

impl Clone for PrintEvent {
    fn clone(&self) -> (r: Self)
        ensures
            r.message@ == self.message@,
    {
        PrintEvent { message: self.message.clone() }
    }
}

/// A request to the host to spawn a ball.
#[derive(Clone, Copy, Debug, PartialEq, Eq)]
pub struct SpawnEvent {}

impl OutputRecord {
    /// The message of this record.
    pub fn message(&self) -> (r: String)
        ensures
            r@ == record_message(self@),
    {
        match self {
            OutputRecord::Print(s) => s.clone(),
            OutputRecord::Returned(s) => {
                let mut r = String::from_str("Returned : ");
                r.append(s.as_str());
                r
            },
            OutputRecord::Diagnostic(d) => d.message(),
        }
    }

    /// The event that shows this record to the host.
    pub fn to_event(&self) -> (r: PrintEvent)
        ensures
            r.message@ == record_message(self@),
    {
        PrintEvent { message: self.message() }
    }
}

/// The channels of a run: the output records in the order in which they
/// were emitted, and the spawn requests.
pub struct Host {
    pub records: Vec<OutputRecord>,
    pub spawns: Vec<SpawnEvent>,
}

/// The channels as mathematics sees them: the records in order, and how
/// many spawn requests there are.
pub struct HostView {
    pub records: Seq<OutputRecordView>,
    pub spawns: nat,
}

impl View for Host {
    type V = HostView;

    open spec fn view(&self) -> HostView {
        HostView { records: records_view(self.records@), spawns: self.spawns@.len() }
    }
}

impl Host {
    /// Channels on which nothing was sent yet.
    pub fn new() -> (r: Self)
        ensures
            r@.records == Seq::<OutputRecordView>::empty(),
            r@.spawns == 0,
    {
        let r = Host { records: Vec::new(), spawns: Vec::new() };
        assert(r@.records =~= Seq::<OutputRecordView>::empty());
        r
    }

    /// Sends one record.
    pub fn emit(&mut self, record: OutputRecord)
        ensures
            final(self)@.records == old(self)@.records.push(record@),
            final(self)@.spawns == old(self)@.spawns,
    {
        self.records.push(record);
        assert(self@.records =~= old(self)@.records.push(record@));
    }

    /// Sends one spawn request.
    pub fn spawn(&mut self, event: SpawnEvent)
        ensures
            final(self)@.records == old(self)@.records,
            final(self)@.spawns == old(self)@.spawns + 1,
    {
        self.spawns.push(event);
    }

    /// The events that show the records to the host, in order.
    pub fn events(&self) -> (r: Vec<PrintEvent>)
        ensures
            r@.len() == self@.records.len(),
            forall|i: int|
                0 <= i < r@.len() ==> (#[trigger] r@[i]).message@ == record_message(
                    self@.records[i],
                ),
    {
        let mut r: Vec<PrintEvent> = Vec::new();
        let mut i: usize = 0;
        while i < self.records.len()
            invariant
                i <= self.records@.len(),
                r@.len() == i,
                forall|j: int|
                    0 <= j < i ==> (#[trigger] r@[j]).message@ == record_message(
                        self.records@[j]@,
                    ),
            decreases self.records@.len() - i,
        {
            r.push(self.records[i].to_event());
            i = i + 1;
        }
        r
    }
}

} // verus!
