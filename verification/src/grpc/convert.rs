//! Findings as messages of the gRPC service.

use vstd::prelude::*;

use crate::diagnostic::{format_path, path_text, Diagnostic, Severity};
use crate::proto;

verus! {

/// A severity as the messages write it.
pub open spec fn severity_written(severity: Severity) -> proto::Severity {
    match severity {
        Severity::Error => proto::Severity::Error,
        Severity::Warning => proto::Severity::Warning,
        Severity::Info => proto::Severity::Info,
    }
}

/// Whether `message` reports the finding `d` for the file `filename`.
pub open spec fn reports(
    message: proto::DiagnosticMessage,
    d: Diagnostic,
    filename: Seq<char>,
) -> bool {
    &&& message.rule_name@ == d.rule_name@
    &&& message.message@ == d.message@
    &&& message.element_path@ == path_text(d.element_path@)
    &&& message.element_index == d.element_index
    &&& message.severity == severity_written(d.severity)
    &&& message.filename@ == filename
}

/// The message that reports a finding.
pub fn diagnostic_to_proto(d: &Diagnostic, filename: &str) -> (message: proto::DiagnosticMessage)
    ensures
        reports(message, *d, filename@),
        message.rule_name@ == d.rule_name@,
        message.message@ == d.message@,
        message.element_path@ == path_text(d.element_path@),
        message.element_index == d.element_index,
        message.filename@ == filename@,
        d.severity is Error <==> message.severity is Error,
        d.severity is Warning <==> message.severity is Warning,
        d.severity is Info <==> message.severity is Info,
{
    proto::DiagnosticMessage {
        rule_name: d.rule_name.clone(),
        message: d.message.clone(),
        element_path: format_path(d.element_path.as_slice()),
        element_index: d.element_index,
        severity: match d.severity {
            Severity::Error => proto::Severity::Error,
            Severity::Warning => proto::Severity::Warning,
            Severity::Info => proto::Severity::Info,
        },
        filename: filename.to_owned(),
    }
}

/// A message that reports a finding says all of it as it is: the texts in full,
/// the whole number of the element, and the severity of the same name.
pub proof fn lemma_report_is_complete(
    message: proto::DiagnosticMessage,
    d: Diagnostic,
    filename: Seq<char>,
)
    ensures
        reports(message, d, filename) <==> {
            &&& message.rule_name@ == d.rule_name@
            &&& message.message@ == d.message@
            &&& message.element_path@ == path_text(d.element_path@)
            &&& d.element_index == message.element_index
            &&& message.filename@ == filename
            &&& (d.severity is Error <==> message.severity is Error)
            &&& (d.severity is Warning <==> message.severity is Warning)
            &&& (d.severity is Info <==> message.severity is Info)
        },
{
}

/// Findings that differ are told apart by their messages: two findings with the
/// same message have the same rule, text, element and severity, and were
/// reported for the same file.
pub proof fn lemma_reports_tell_findings_apart(
    a: Diagnostic,
    b: Diagnostic,
    file_a: &str,
    file_b: &str,
    message_a: proto::DiagnosticMessage,
    message_b: proto::DiagnosticMessage,
)
    requires
        call_ensures(diagnostic_to_proto, (&a, file_a), message_a),
        call_ensures(diagnostic_to_proto, (&b, file_b), message_b),
    ensures
        message_a.rule_name@ == message_b.rule_name@ <==> a.rule_name@ == b.rule_name@,
        message_a.message@ == message_b.message@ <==> a.message@ == b.message@,
        message_a.element_index == message_b.element_index <==> a.element_index
            == b.element_index,
        message_a.element_index - message_b.element_index == a.element_index - b.element_index,
        message_a.severity == message_b.severity <==> a.severity == b.severity,
        message_a.filename@ == message_b.filename@ <==> file_a@ == file_b@,
        a.element_path@ == b.element_path@ ==> message_a.element_path@ == message_b.element_path@,
{
}

} // verus!
