//! The stream that answers an accepted batch.
//!
//! What the tasks of a batch have to report are events. Each event becomes one
//! item of the stream, in the order in which the events come.

use vstd::prelude::*;
use vstd::string::*;

use crate::diagnostic::{format_path, path_text, Diagnostic};
use crate::grpc::convert::{diagnostic_to_proto, reports};
use crate::proto::{DiagnosticMessage, FileComplete, Payload, Status, ValidateResponse};

verus! {

/// Something that the client of a batch is told.
#[derive(Debug)]
pub enum BatchEvent {
    /// The download of a file could not be started.
    StartFailed { filename: String, error: String },
    /// A rule found something.
    Finding(Diagnostic),
    /// The pipeline ended with an error.
    PipelineError(String),
    /// The work on a file ended well.
    FileDone(String),
}

/// Whether `complete` says that the work on a file failed.
pub open spec fn is_failure(
    complete: FileComplete,
    filename: Seq<char>,
    error_message: Seq<char>,
) -> bool {
    &&& complete.filename@ == filename
    &&& !complete.success
    &&& complete.error_message@ == error_message
}

/// Whether `complete` says that the work on a file ended well.
pub open spec fn is_success(complete: FileComplete, filename: Seq<char>) -> bool {
    &&& complete.filename@ == filename
    &&& complete.success
    &&& complete.error_message@ == Seq::<char>::empty()
}

/// Whether `response` tells the client of an event. An error of the pipeline
/// stands for the file too, since the pipeline does not say which file it was.
pub open spec fn answers(response: ValidateResponse, event: BatchEvent) -> bool {
    match event {
        BatchEvent::StartFailed { filename, error } => {
            response.payload matches Some(Payload::FileComplete(complete)) && is_failure(
                complete,
                filename@,
                error@,
            )
        },
        BatchEvent::Finding(d) => {
            response.payload matches Some(Payload::Diagnostic(message)) && reports(
                message,
                d,
                path_text(d.element_path@),
            )
        },
        BatchEvent::PipelineError(error) => {
            response.payload matches Some(Payload::FileComplete(complete)) && is_failure(
                complete,
                error@,
                error@,
            )
        },
        BatchEvent::FileDone(filename) => {
            response.payload matches Some(Payload::FileComplete(complete)) && is_success(
                complete,
                filename@,
            )
        },
    }
}

/// The marker of a file on which the work failed.
pub fn file_failure(filename: String, error_message: String) -> (response: ValidateResponse)
    ensures
        response.payload matches Some(Payload::FileComplete(complete)) && is_failure(
            complete,
            filename@,
            error_message@,
        ),
        response.payload matches Some(Payload::FileComplete(complete)) && complete.filename@
            == filename@ && complete.error_message@ == error_message@ && !complete.success,
{
    ValidateResponse {
        payload: Some(
            Payload::FileComplete(FileComplete { filename, success: false, error_message }),
        ),
    }
}

/// The marker of a file on which the work ended well. It is sent when the
/// pipeline has ended without an error: then this holds of every file that was
/// handed to it.
pub fn file_success(filename: String) -> (response: ValidateResponse)
    ensures
        response.payload matches Some(Payload::FileComplete(complete)) && is_success(
            complete,
            filename@,
        ),
        response.payload matches Some(Payload::FileComplete(complete)) && complete.filename@
            == filename@ && complete.error_message@.len() == 0 && complete.success,
{
    let error_message = String::new();
    ValidateResponse {
        payload: Some(
            Payload::FileComplete(FileComplete { filename, success: true, error_message }),
        ),
    }
}

/// The response for a finding, with the path of the element for the file.
pub fn diagnostic_response(d: &Diagnostic) -> (response: ValidateResponse)
    ensures
        response.payload matches Some(Payload::Diagnostic(message)) && reports(
            message,
            *d,
            path_text(d.element_path@),
        ),
        response.payload matches Some(Payload::Diagnostic(message)) && {
            &&& message.rule_name@ == d.rule_name@
            &&& message.message@ == d.message@
            &&& message.element_path@ == path_text(d.element_path@)
            &&& message.filename@ == path_text(d.element_path@)
            &&& message.element_index == d.element_index
            &&& (message.severity is Error <==> d.severity is Error)
            &&& (message.severity is Warning <==> d.severity is Warning)
            &&& (message.severity is Info <==> d.severity is Info)
        },
{
    let filename = format_path(d.element_path.as_slice());
    ValidateResponse {
        payload: Some(Payload::Diagnostic(diagnostic_to_proto(d, filename.as_str()))),
    }
}

/// The item of the stream for an event. The stream of an accepted batch has no
/// item that is a refusal.
pub fn stream_item(event: BatchEvent) -> (item: Result<ValidateResponse, Status>)
    ensures
        item matches Ok(response) && answers(response, event),
{
    Ok(
        match event {
            BatchEvent::StartFailed { filename, error } => file_failure(filename, error),
            BatchEvent::Finding(d) => diagnostic_response(&d),
            BatchEvent::PipelineError(error) => file_failure(error.clone(), error),
            BatchEvent::FileDone(filename) => file_success(filename),
        },
    )
}

/// Whether `events` are the events at the end of a pipeline that was handed
/// `files` and returned `errors`: each error, in order, or, without an error,
/// each file, in order. Beside an error no file is said to have ended well: the
/// pipeline does not say which of them it is about.
pub open spec fn closes(
    events: Seq<BatchEvent>,
    files: Seq<String>,
    errors: Seq<String>,
) -> bool {
    if errors.len() > 0 {
        &&& events.len() == errors.len()
        &&& forall|i: int|
            0 <= i < errors.len() ==> (#[trigger] events[i] matches BatchEvent::PipelineError(e)
                && e@ == errors[i]@)
    } else {
        &&& events.len() == files.len()
        &&& forall|i: int|
            0 <= i < files.len() ==> (#[trigger] events[i] matches BatchEvent::FileDone(f) && f@
                == files[i]@)
    }
}

/// The events at the end of a pipeline that was handed `files` and returned
/// `errors`.
pub fn closing_events(files: &[String], errors: &[String]) -> (events: Vec<BatchEvent>)
    ensures
        closes(events@, files@, errors@),
        errors@.len() > 0 ==> events@.len() == errors@.len() && forall|i: int|
            0 <= i < errors@.len() ==> (#[trigger] events@[i] matches BatchEvent::PipelineError(e)
                && e@ == errors@[i]@),
        errors@.len() == 0 ==> events@.len() == files@.len() && forall|i: int|
            0 <= i < files@.len() ==> (#[trigger] events@[i] matches BatchEvent::FileDone(f) && f@
                == files@[i]@),
{
    let mut events: Vec<BatchEvent> = Vec::new();
    let mut i: usize = 0;
    while i < errors.len()
        invariant
            i <= errors@.len(),
            events@.len() == i,
            forall|j: int|
                0 <= j < i ==> (#[trigger] events@[j] matches BatchEvent::PipelineError(e) && e@
                    == errors@[j]@),
        decreases errors@.len() - i,
    {
        events.push(BatchEvent::PipelineError(errors[i].clone()));
        i = i + 1;
    }
    if errors.len() > 0 {
        return events;
    }
    let mut k: usize = 0;
    while k < files.len()
        invariant
            k <= files@.len(),
            events@.len() == k,
            forall|j: int|
                0 <= j < k ==> (#[trigger] events@[j] matches BatchEvent::FileDone(f) && f@
                    == files@[j]@),
        decreases files@.len() - k,
    {
        events.push(BatchEvent::FileDone(files[k].clone()));
        k = k + 1;
    }
    events
}

/// The findings among events, in order.
pub open spec fn findings_in(events: Seq<BatchEvent>) -> Seq<Diagnostic>
    decreases events.len(),
{
    if events.len() == 0 {
        Seq::empty()
    } else {
        let before = findings_in(events.drop_last());
        match events.last() {
            BatchEvent::Finding(d) => before.push(d),
            _ => before,
        }
    }
}

/// The failures among events, in order: the file that each is reported for, and
/// what is said of it.
pub open spec fn failures_in(events: Seq<BatchEvent>) -> Seq<(Seq<char>, Seq<char>)>
    decreases events.len(),
{
    if events.len() == 0 {
        Seq::empty()
    } else {
        let before = failures_in(events.drop_last());
        match events.last() {
            BatchEvent::StartFailed { filename, error } => before.push((filename@, error@)),
            BatchEvent::PipelineError(error) => before.push((error@, error@)),
            _ => before,
        }
    }
}

/// The files that ended well among events, in order.
pub open spec fn done_in(events: Seq<BatchEvent>) -> Seq<Seq<char>>
    decreases events.len(),
{
    if events.len() == 0 {
        Seq::empty()
    } else {
        let before = done_in(events.drop_last());
        match events.last() {
            BatchEvent::FileDone(filename) => before.push(filename@),
            _ => before,
        }
    }
}

/// The events that come from the end of the pipeline, in order.
pub open spec fn closing_in(events: Seq<BatchEvent>) -> Seq<BatchEvent>
    decreases events.len(),
{
    if events.len() == 0 {
        Seq::empty()
    } else {
        let before = closing_in(events.drop_last());
        match events.last() {
            BatchEvent::PipelineError(_) => before.push(events.last()),
            BatchEvent::FileDone(_) => before.push(events.last()),
            _ => before,
        }
    }
}

/// Where a failure comes from.
pub enum FailureKind {
    /// The download of a file could not be started.
    Start,
    /// The pipeline ended with an error.
    Pipeline,
}

/// Whether an event is a failure of the given kind.
pub open spec fn is_failure_of(event: BatchEvent, kind: FailureKind) -> bool {
    match kind {
        FailureKind::Start => event is StartFailed,
        FailureKind::Pipeline => event is PipelineError,
    }
}

/// The failures of a kind among events, in order: the file that each is reported
/// for, and what is said of it.
pub open spec fn failures_of(events: Seq<BatchEvent>, kind: FailureKind) -> Seq<
    (Seq<char>, Seq<char>),
>
    decreases events.len(),
{
    if events.len() == 0 {
        Seq::empty()
    } else {
        let before = failures_of(events.drop_last(), kind);
        match events.last() {
            BatchEvent::StartFailed { filename, error } if kind is Start => {
                before.push((filename@, error@))
            },
            BatchEvent::PipelineError(error) if kind is Pipeline => before.push((error@, error@)),
            _ => before,
        }
    }
}

/// The markers of a stream, in order, that tell of the failures of a kind among
/// the events.
pub open spec fn failure_markers_of(
    responses: Seq<ValidateResponse>,
    events: Seq<BatchEvent>,
    kind: FailureKind,
) -> Seq<FileComplete>
    decreases events.len(),
{
    if events.len() == 0 {
        Seq::empty()
    } else {
        let before = failure_markers_of(responses.drop_last(), events.drop_last(), kind);
        match responses.last().payload {
            Some(Payload::FileComplete(complete)) if is_failure_of(events.last(), kind) => {
                before.push(complete)
            },
            _ => before,
        }
    }
}

/// The findings that a stream reports, in order.
pub open spec fn reported_in(responses: Seq<ValidateResponse>) -> Seq<DiagnosticMessage>
    decreases responses.len(),
{
    if responses.len() == 0 {
        Seq::empty()
    } else {
        let before = reported_in(responses.drop_last());
        match responses.last().payload {
            Some(Payload::Diagnostic(message)) => before.push(message),
            _ => before,
        }
    }
}

/// The markers of a stream, in order, that say `success`.
pub open spec fn markers_in(
    responses: Seq<ValidateResponse>,
    success: bool,
) -> Seq<FileComplete>
    decreases responses.len(),
{
    if responses.len() == 0 {
        Seq::empty()
    } else {
        let before = markers_in(responses.drop_last(), success);
        match responses.last().payload {
            Some(Payload::FileComplete(complete)) if complete.success == success => {
                before.push(complete)
            },
            _ => before,
        }
    }
}

/// Whether a stream tells of the events one by one.
pub open spec fn tells(responses: Seq<ValidateResponse>, events: Seq<BatchEvent>) -> bool {
    &&& responses.len() == events.len()
    &&& forall|i: int| 0 <= i < events.len() ==> answers(#[trigger] responses[i], events[i])
}

/// The stream of a batch holds all that there is to report, and nothing else:
/// every response has a payload; each finding is reported once, each failure
/// has one marker and so has each file that ended well, all in the order in
/// which they came.
pub proof fn lemma_stream_tells_all(responses: Seq<ValidateResponse>, events: Seq<BatchEvent>)
    requires
        tells(responses, events),
    ensures
        forall|i: int| 0 <= i < responses.len() ==> (#[trigger] responses[i]).payload is Some,
        reported_in(responses).len() == findings_in(events).len(),
        forall|i: int|
            0 <= i < findings_in(events).len() ==> reports(
                #[trigger] reported_in(responses)[i],
                findings_in(events)[i],
                path_text(findings_in(events)[i].element_path@),
            ),
        markers_in(responses, false).len() == failures_in(events).len(),
        forall|i: int|
            0 <= i < failures_in(events).len() ==> is_failure(
                #[trigger] markers_in(responses, false)[i],
                failures_in(events)[i].0,
                failures_in(events)[i].1,
            ),
        markers_in(responses, true).len() == done_in(events).len(),
        forall|i: int|
            0 <= i < done_in(events).len() ==> is_success(
                #[trigger] markers_in(responses, true)[i],
                done_in(events)[i],
            ),
        responses.len() == reported_in(responses).len() + markers_in(responses, false).len()
            + markers_in(responses, true).len(),
    decreases events.len(),
{
    if events.len() > 0 {
        let n = events.len() - 1;
        assert(answers(responses[n], events[n]));
        assert forall|i: int| 0 <= i < n implies answers(
            #[trigger] responses.drop_last()[i],
            events.drop_last()[i],
        ) by {
            assert(answers(responses[i], events[i]));
        }
        lemma_stream_tells_all(responses.drop_last(), events.drop_last());
        assert forall|i: int| 0 <= i < responses.len() implies (
        #[trigger] responses[i]).payload is Some by {
            assert(answers(responses[i], events[i]));
        }
    }
}

/// The markers of failures are those of downloads that could not be started and
/// those of errors of the pipeline, and no others: each such failure has one
/// marker, which says what there is to say of it, and those of one kind come in
/// the order of the failures.
pub proof fn lemma_failure_markers_by_kind(
    responses: Seq<ValidateResponse>,
    events: Seq<BatchEvent>,
)
    requires
        tells(responses, events),
    ensures
        markers_in(responses, false).to_multiset() == failure_markers_of(
            responses,
            events,
            FailureKind::Start,
        ).to_multiset().add(
            failure_markers_of(responses, events, FailureKind::Pipeline).to_multiset(),
        ),
        markers_in(responses, false).len() == failures_of(events, FailureKind::Start).len()
            + failures_of(events, FailureKind::Pipeline).len(),
        forall|kind: FailureKind|
            failure_markers_of(responses, events, kind).len() == #[trigger] failures_of(
                events,
                kind,
            ).len(),
        forall|kind: FailureKind, i: int|
            0 <= i < failures_of(events, kind).len() ==> is_failure(
                #[trigger] failure_markers_of(responses, events, kind)[i],
                failures_of(events, kind)[i].0,
                failures_of(events, kind)[i].1,
            ),
    decreases events.len(),
{
    broadcast use vstd::seq_lib::group_to_multiset_ensures;

    if events.len() > 0 {
        let n = events.len() - 1;
        let fewer = responses.drop_last();
        let shorter = events.drop_last();
        assert(answers(responses[n], events[n]));
        assert forall|i: int| 0 <= i < n implies answers(#[trigger] fewer[i], shorter[i]) by {
            assert(answers(responses[i], events[i]));
        }
        lemma_failure_markers_by_kind(fewer, shorter);
        assert(markers_in(responses, false).to_multiset() =~= failure_markers_of(
            responses,
            events,
            FailureKind::Start,
        ).to_multiset().add(
            failure_markers_of(responses, events, FailureKind::Pipeline).to_multiset(),
        ));
    }
}

/// The stream of a batch has exactly one marker of a failure for each error that
/// the pipeline returned, in order and with its text, and besides these only one
/// for each download that could not be started. Without an error of the pipeline
/// it has exactly one marker of success for each file that was handed to the
/// pipeline, in order, and with one it has none.
pub proof fn lemma_markers_follow_pipeline(
    responses: Seq<ValidateResponse>,
    events: Seq<BatchEvent>,
    files: Seq<String>,
    errors: Seq<String>,
)
    requires
        tells(responses, events),
        closes(closing_in(events), files, errors),
    ensures
        failure_markers_of(responses, events, FailureKind::Pipeline).len() == errors.len(),
        forall|i: int|
            0 <= i < errors.len() ==> is_failure(
                #[trigger] failure_markers_of(responses, events, FailureKind::Pipeline)[i],
                errors[i]@,
                errors[i]@,
            ),
        markers_in(responses, false).len() == errors.len() + failures_of(
            events,
            FailureKind::Start,
        ).len(),
        markers_in(responses, false).to_multiset() == failure_markers_of(
            responses,
            events,
            FailureKind::Start,
        ).to_multiset().add(
            failure_markers_of(responses, events, FailureKind::Pipeline).to_multiset(),
        ),
        errors.len() > 0 ==> markers_in(responses, true).len() == 0,
        errors.len() == 0 ==> markers_in(responses, true).len() == files.len(),
        errors.len() == 0 ==> forall|i: int|
            0 <= i < files.len() ==> is_success(
                #[trigger] markers_in(responses, true)[i],
                files[i]@,
            ),
{
    lemma_stream_tells_all(responses, events);
    lemma_failure_markers_by_kind(responses, events);
    lemma_closing_events_count(events);
    lemma_closing_events_in_order(closing_in(events), files, errors);
}

/// The errors of the pipeline and the files that ended well come from the end of
/// the pipeline.
proof fn lemma_closing_events_count(events: Seq<BatchEvent>)
    ensures
        failures_of(events, FailureKind::Pipeline) == failures_of(
            closing_in(events),
            FailureKind::Pipeline,
        ),
        done_in(events) == done_in(closing_in(events)),
    decreases events.len(),
{
    if events.len() > 0 {
        let shorter = events.drop_last();
        lemma_closing_events_count(shorter);
        assert(closing_in(shorter).push(events.last()).drop_last() == closing_in(shorter));
    }
}

/// What the events at the end of a pipeline say, in order.
proof fn lemma_closing_events_in_order(
    events: Seq<BatchEvent>,
    files: Seq<String>,
    errors: Seq<String>,
)
    requires
        closes(events, files, errors),
    ensures
        failures_of(events, FailureKind::Pipeline).len() == errors.len(),
        forall|i: int|
            0 <= i < errors.len() ==> #[trigger] failures_of(events, FailureKind::Pipeline)[i] == (
                errors[i]@,
                errors[i]@,
            ),
        errors.len() > 0 ==> done_in(events).len() == 0,
        errors.len() == 0 ==> done_in(events).len() == files.len(),
        errors.len() == 0 ==> forall|i: int|
            0 <= i < files.len() ==> #[trigger] done_in(events)[i] == files[i]@,
    decreases events.len(),
{
    if events.len() > 0 {
        let shorter = events.drop_last();
        let n = events.len() - 1;
        if errors.len() > 0 {
            assert(events[n] is PipelineError);
            if errors.len() > 1 {
                lemma_closing_events_in_order(shorter, files, errors.drop_last());
            } else {
                assert(failures_of(shorter, FailureKind::Pipeline).len() == 0);
                assert(done_in(shorter).len() == 0);
            }
        } else {
            assert(events[n] is FileDone);
            lemma_closing_events_in_order(shorter, files.drop_last(), errors);
        }
    }
}

/// What the client is told of an event, in full. A failed start names its file
/// and its reason; an error of the pipeline is both; a file that ended well has
/// no reason; a finding is reported with all that it says.
pub proof fn lemma_item_says_event(event: BatchEvent, item: Result<ValidateResponse, Status>)
    requires
        call_ensures(stream_item, (event,), item),
    ensures
        item is Ok,
        item->Ok_0.payload is Some,
        event is Finding <==> item->Ok_0.payload->Some_0 is Diagnostic,
        event matches BatchEvent::StartFailed { filename, error } ==> {
            let complete = item->Ok_0.payload->Some_0->FileComplete_0;
            !complete.success && complete.filename@ == filename@ && complete.error_message@
                == error@
        },
        event matches BatchEvent::PipelineError(error) ==> {
            let complete = item->Ok_0.payload->Some_0->FileComplete_0;
            !complete.success && complete.filename@ == error@ && complete.error_message@ == error@
        },
        event matches BatchEvent::FileDone(filename) ==> {
            let complete = item->Ok_0.payload->Some_0->FileComplete_0;
            complete.success && complete.filename@ == filename@ && complete.error_message@.len()
                == 0
        },
        event matches BatchEvent::Finding(d) ==> {
            let message = item->Ok_0.payload->Some_0->Diagnostic_0;
            &&& message.rule_name@ == d.rule_name@
            &&& message.message@ == d.message@
            &&& message.element_path@ == path_text(d.element_path@)
            &&& message.filename@ == path_text(d.element_path@)
            &&& message.element_index == d.element_index
            &&& (message.severity is Error <==> d.severity is Error)
            &&& (message.severity is Warning <==> d.severity is Warning)
            &&& (message.severity is Info <==> d.severity is Info)
        },
{
}

/// Items tell events apart: findings with different elements or texts, failures
/// with different reasons and files with different names have different items,
/// and no failure looks like a success.
pub proof fn lemma_items_tell_events_apart(
    a: BatchEvent,
    b: BatchEvent,
    item_a: Result<ValidateResponse, Status>,
    item_b: Result<ValidateResponse, Status>,
)
    requires
        call_ensures(stream_item, (a,), item_a),
        call_ensures(stream_item, (b,), item_b),
        item_a == item_b,
    ensures
        a is Finding <==> b is Finding,
        a is FileDone <==> b is FileDone,
        a is FileDone ==> a->FileDone_0@ == b->FileDone_0@,
        a is Finding ==> a->Finding_0.element_index == b->Finding_0.element_index
            && a->Finding_0.message@ == b->Finding_0.message@ && a->Finding_0.rule_name@
            == b->Finding_0.rule_name@ && a->Finding_0.severity == b->Finding_0.severity,
        a is PipelineError && b is PipelineError ==> a->PipelineError_0@ == b->PipelineError_0@,
        a is StartFailed && b is StartFailed ==> a->filename@ == b->filename@ && a->error@
            == b->error@,
{
}

/// The end of a pipeline is told in full: as many events as there are errors, or
/// without errors as many as there are files, each with its own text and in the
/// order given.
pub proof fn lemma_end_is_told_in_full(
    files: &[String],
    errors: &[String],
    events: Vec<BatchEvent>,
)
    requires
        call_ensures(closing_events, (files, errors), events),
    ensures
        events@.len() == if errors@.len() > 0 {
            errors@.len()
        } else {
            files@.len()
        },
        errors@.len() > 0 ==> forall|i: int|
            0 <= i < events@.len() ==> (#[trigger] events@[i]) is PipelineError
                && events@[i]->PipelineError_0@ == errors@[i]@,
        errors@.len() == 0 ==> forall|i: int|
            0 <= i < events@.len() ==> (#[trigger] events@[i]) is FileDone
                && events@[i]->FileDone_0@ == files@[i]@,
{
}

/// The words that the laws of this module use for a stream and its events mean
/// what they say, event by event: a finding counts among the findings only, a
/// failed start and an error of the pipeline among the failures of their kind
/// only, and a file that ended well among those only.
pub proof fn lemma_events_are_counted(events: Seq<BatchEvent>, event: BatchEvent)
    ensures
        findings_in(events.push(event)) == (match event {
            BatchEvent::Finding(d) => findings_in(events).push(d),
            _ => findings_in(events),
        }),
        failures_of(events.push(event), FailureKind::Start) == (match event {
            BatchEvent::StartFailed { filename, error } => failures_of(
                events,
                FailureKind::Start,
            ).push((filename@, error@)),
            _ => failures_of(events, FailureKind::Start),
        }),
        failures_of(events.push(event), FailureKind::Pipeline) == (match event {
            BatchEvent::PipelineError(error) => failures_of(events, FailureKind::Pipeline).push(
                (error@, error@),
            ),
            _ => failures_of(events, FailureKind::Pipeline),
        }),
        done_in(events.push(event)) == (match event {
            BatchEvent::FileDone(filename) => done_in(events).push(filename@),
            _ => done_in(events),
        }),
        closing_in(events.push(event)) == (match event {
            BatchEvent::PipelineError(_) => closing_in(events).push(event),
            BatchEvent::FileDone(_) => closing_in(events).push(event),
            _ => closing_in(events),
        }),
        findings_in(Seq::empty()).len() == 0,
        failures_in(Seq::empty()).len() == 0,
        done_in(Seq::empty()).len() == 0,
{
    assert(events.push(event).drop_last() == events);
    assert(failures_of(Seq::empty(), FailureKind::Start).len() == 0);
}

/// The same for the responses of a stream.
pub proof fn lemma_responses_are_counted(
    responses: Seq<ValidateResponse>,
    response: ValidateResponse,
)
    ensures
        reported_in(responses.push(response)) == (match response.payload {
            Some(Payload::Diagnostic(message)) => reported_in(responses).push(message),
            _ => reported_in(responses),
        }),
        forall|success: bool| #[trigger]
            markers_in(responses.push(response), success) == (match response.payload {
                Some(Payload::FileComplete(complete)) if complete.success == success => {
                    markers_in(responses, success).push(complete)
                },
                _ => markers_in(responses, success),
            }),
        reported_in(Seq::empty()).len() == 0,
        markers_in(Seq::empty(), true).len() == 0,
        markers_in(Seq::empty(), false).len() == 0,
{
    assert(responses.push(response).drop_last() == responses);
}

} // verus!
