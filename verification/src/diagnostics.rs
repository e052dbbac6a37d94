//! Diagnostics: the parse errors of a file rendered as structured
//! entries, capped at a fixed maximum so that a pathological file cannot
//! slow its consumers down.

use vstd::prelude::*;
use vstd::string::StringExecFns;
use crate::database::RootDatabase;
use crate::input::FileId;

verus! {

/// How many diagnostics one file may yield at most; errors beyond the
/// cap are dropped, not queued.
pub open spec fn diagnostics_cap() -> int {
    128
}

/// A stable machine-readable code for a class of diagnostics.
#[derive(Clone, Copy, Debug)]
pub struct DiagnosticCode(pub &'static str);

impl DiagnosticCode {
    pub fn as_str(&self) -> (r: &str)
        ensures
            r@ == self.0@,
    {
        self.0
    }
}

/// How prominently a diagnostic should be shown.
#[derive(Clone, Copy, PartialEq, Eq, Structural, Debug)]
pub enum Severity {
    Error,
    WeakWarning,
}

/// One diagnostic: code, message, byte range, severity and flags.
#[derive(Debug)]
pub struct Diagnostic {
    pub code: DiagnosticCode,
    pub message: String,
    pub start: usize,
    pub end: usize,
    pub severity: Severity,
    pub unused: bool,
    pub experimental: bool,
}

impl Diagnostic {
    /// A fresh error-severity diagnostic with both flags clear.
    pub fn new(code: &'static str, message: String, start: usize, end: usize) -> (d: Diagnostic)
        ensures
            d.code.0@ == code@,
            d.message == message,
            d.start == start,
            d.end == end,
            d.severity is Error,
            !d.unused,
            !d.experimental,
    {
        Diagnostic {
            code: DiagnosticCode(code),
            message,
            start,
            end,
            severity: Severity::Error,
            unused: false,
            experimental: false,
        }
    }

    /// The same diagnostic, marked experimental.
    pub fn experimental(self) -> (d: Diagnostic)
        ensures
            d == (Diagnostic { experimental: true, ..self }),
    {
        Diagnostic { experimental: true, ..self }
    }

    /// The same diagnostic with another severity.
    pub fn severity(self, severity: Severity) -> (d: Diagnostic)
        ensures
            d == (Diagnostic { severity, ..self }),
    {
        Diagnostic { severity, ..self }
    }

    /// The same diagnostic with the unused flag set as given.
    pub fn with_unused(self, unused: bool) -> (d: Diagnostic)
        ensures
            d == (Diagnostic { unused, ..self }),
    {
        Diagnostic { unused, ..self }
    }
}

/// The diagnostics of a file: its syntax errors, in order, rendered as
/// error-severity `syntax-error` entries, at most `diagnostics_cap` of
/// them.  Reading diagnostics only fills the file's own memo slot; no
/// input fact changes.
pub fn diagnostics(db: &mut RootDatabase, file_id: FileId) -> (r: Vec<Diagnostic>)
    requires
        old(db).wf(),
        file_id.0 as int + 1 <= usize::MAX as int,
    ensures
        final(db).wf(),
        r@.len() <= diagnostics_cap(),
        ({
            let errs = match final(db).memo_spec(file_id.0 as int) {
                Some(p) => p.errors@,
                None => Seq::empty(),
            };
            &&& final(db).memo_spec(file_id.0 as int) is Some
            &&& r@.len() == (if errs.len() <= diagnostics_cap() {
                errs.len() as int
            } else {
                diagnostics_cap()
            })
            &&& forall|i: int|
                0 <= i < r@.len() ==> {
                    &&& (#[trigger] r@[i]).code.0@ == "syntax-error"@
                    &&& r@[i].message@ == "Syntax Error: "@ + errs[i].message@
                    &&& r@[i].start == errs[i].start
                    &&& r@[i].end == errs[i].end
                    &&& r@[i].severity is Error
                    &&& !r@[i].unused
                    &&& !r@[i].experimental
                }
        }),
        forall|j: int|
            #![trigger final(db).file_text_spec(j)]
            final(db).file_text_spec(j) == old(db).file_text_spec(j),
        forall|j: int|
            j != file_id.0 as int ==> #[trigger] final(db).memo_spec(j) == old(db).memo_spec(j),
        forall|j: int|
            #![trigger final(db).durability_spec(j)]
            final(db).durability_spec(j) == old(db).durability_spec(j),
        forall|j: int|
            #![trigger final(db).root_spec(j)]
            final(db).root_spec(j) == old(db).root_spec(j),
        final(db).source_roots == old(db).source_roots,
{
    let parse = db.parse(file_id);
    let mut res: Vec<Diagnostic> = Vec::new();
    let errors = parse.errors();
    let mut i: usize = 0;
    let ghost errs = errors@;
    while i < errors.len() && i < 128
        invariant
            errors@ == errs,
            i <= errs.len(),
            i <= 128,
            res@.len() == i,
            forall|j: int|
                0 <= j < i ==> {
                    &&& (#[trigger] res@[j]).code.0@ == "syntax-error"@
                    &&& res@[j].message@ == "Syntax Error: "@ + errs[j].message@
                    &&& res@[j].start == errs[j].start
                    &&& res@[j].end == errs[j].end
                    &&& res@[j].severity is Error
                    &&& !res@[j].unused
                    &&& !res@[j].experimental
                },
        decreases errs.len() - i,
    {
        let e = &errors[i];
        let message = String::from_str("Syntax Error: ").concat(e.message.as_str());
        res.push(Diagnostic::new("syntax-error", message, e.start, e.end));
        i = i + 1;
    }
    res
}

} // verus!
