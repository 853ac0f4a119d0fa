//! The streaming download: chunks travel through a bounded channel from the
//! task that fetches an object to the reader that a parser pulls from.

use bytes::Bytes;
use crossbeam_channel::{Receiver, Sender};
use minio::s3::builders::GetObject;
use minio::s3::MinioClient;
use vstd::prelude::*;
use vstd::string::*;

use crate::storage::stream::{
    carried, failure, goes_on, lemma_chunks_are_all_sent, lemma_download_reads_back, min, passed_on,
    read_all, read_outcome, relayed, until_empty, Message, ReaderState,
};

verus! {

/// A shared, immutable run of bytes.
#[verifier::external_type_specification]
#[verifier::external_body]
pub struct ExBytes(bytes::Bytes);

/// The receiving end of a channel.
#[verifier::external_type_specification]
#[verifier::external_body]
#[verifier::reject_recursive_types(T)]
pub struct ExReceiver<T>(crossbeam_channel::Receiver<T>);

/// The sending end of a channel.
#[verifier::external_type_specification]
#[verifier::external_body]
#[verifier::reject_recursive_types(T)]
pub struct ExSender<T>(crossbeam_channel::Sender<T>);

/// A client of one MinIO instance.
#[verifier::external_type_specification]
#[verifier::external_body]
pub struct ExMinioClient(minio::s3::MinioClient);

/// The request for the content of an object.
#[verifier::external_type_specification]
#[verifier::external_body]
pub struct ExGetObject(minio::s3::builders::GetObject);

/// The bytes that a `Bytes` holds.
pub uninterp spec fn bytes_held(bytes: Bytes) -> Seq<u8>;

/// The messages that a receiver has still to hand out, in order, up to the point
/// where its channel is empty and every sender is gone.
pub uninterp spec fn incoming(rx: Receiver<Result<Bytes, String>>) -> Seq<Message>;

/// All messages that the channel of a sender will have carried, in order, when
/// the sender is gone.
pub uninterp spec fn destined(tx: Sender<Result<Bytes, String>>) -> Seq<Message>;

/// The messages that a sender has put into its channel so far, in order.
pub uninterp spec fn outgoing(tx: Sender<Result<Bytes, String>>) -> Seq<Message>;

/// The number of messages that a sender's channel can hold, where there is a
/// limit.
pub uninterp spec fn channel_capacity(tx: Sender<Result<Bytes, String>>) -> Option<usize>;

/// The number of messages that the receiver had taken out of a sender's channel
/// when the sender was last used; none, before it is used.
pub uninterp spec fn taken_out(tx: Sender<Result<Bytes, String>>) -> nat;

/// The request that `MinioClient::get_object` makes for an object, or the text
/// of its error.
pub uninterp spec fn get_object_request(
    client: MinioClient,
    bucket: Seq<char>,
    object_key: Seq<char>,
) -> Result<GetObject, Seq<char>>;

/// A message of the channel as a message of the stream model.
pub open spec fn message_of(message: Result<Bytes, String>) -> Message {
    match message {
        Ok(bytes) => Ok(bytes_held(bytes)),
        Err(text) => Err(text@),
    }
}

/// `Bytes::new` gives a `Bytes` without content.
pub assume_specification[ bytes::Bytes::new ]() -> (bytes: bytes::Bytes)
    ensures
        bytes_held(bytes) == Seq::<u8>::empty(),
;

/// `Bytes::split_to` cuts off and returns the first `at` bytes; the rest
/// stays. It panics where there are fewer than `at`.
pub assume_specification[ bytes::Bytes::split_to ](bytes: &mut bytes::Bytes, at: usize) -> (head:
    bytes::Bytes)
    requires
        at <= bytes_held(*old(bytes)).len(),
    ensures
        bytes_held(head) == bytes_held(*old(bytes)).take(at as int),
        bytes_held(*final(bytes)) == bytes_held(*old(bytes)).skip(at as int),
;

/// `AsRef<[u8]>::as_ref` of a `Bytes` is the slice of the bytes that it holds.
#[verifier::external_body]
fn bytes_as_slice(bytes: &Bytes) -> (slice: &[u8])
    ensures
        slice@ == bytes_held(*bytes),
{
    bytes.as_ref()
}

/// `Receiver::recv` waits for the next message, as long as none is there and a
/// sender is. It returns an error, here `None`, once the channel is empty and
/// every sender is gone; from then on it always does.
#[verifier::external_body]
fn recv_message(rx: &mut Receiver<Result<Bytes, String>>) -> (message: Option<
    Result<Bytes, String>,
>)
    ensures
        match message {
            Some(m) => {
                &&& incoming(*old(rx)).len() > 0
                &&& message_of(m) == incoming(*old(rx))[0]
                &&& incoming(*final(rx)) == incoming(*old(rx)).drop_first()
            },
            None => {
                &&& incoming(*old(rx)).len() == 0
                &&& incoming(*final(rx)) == incoming(*old(rx))
            },
        },
{
    rx.recv().ok()
}

/// `Sender::send` waits for room and puts the message into the channel, behind
/// those that were put in before. It fails, and the message is not put in, where
/// the receiver is gone; then the channel carries nothing more. That what was
/// put in comes first among what the channel carries holds of a sender that is
/// not cloned; `Download` does not clone its own. Of the messages that were put
/// in, all but as many as the channel can hold have been taken out.
#[verifier::external_body]
fn send_message(tx: &mut Sender<Result<Bytes, String>>, message: Result<Bytes, String>) -> (sent:
    bool)
    requires
        outgoing(*old(tx)).is_prefix_of(destined(*old(tx))),
        taken_out(*old(tx)) <= outgoing(*old(tx)).len(),
    ensures
        channel_capacity(*final(tx)) == channel_capacity(*old(tx)),
        destined(*final(tx)) == destined(*old(tx)),
        outgoing(*final(tx)).is_prefix_of(destined(*final(tx))),
        sent ==> outgoing(*final(tx)) == outgoing(*old(tx)).push(message_of(message)),
        !sent ==> outgoing(*final(tx)) == outgoing(*old(tx)) && destined(*final(tx)) == outgoing(
            *final(tx),
        ),
        taken_out(*old(tx)) <= taken_out(*final(tx)) <= outgoing(*final(tx)).len(),
        channel_capacity(*final(tx)) matches Some(n) ==> outgoing(*final(tx)).len() <= taken_out(
            *final(tx),
        ) + n,
{
    tx.send(message).is_ok()
}

/// `crossbeam_channel::bounded` makes a channel that holds at most `capacity`
/// messages. Nothing has been put into it, and its receiver hands out what it
/// will carry, in order: that holds as long as neither end is cloned, and the
/// types of this module that keep the ends do not. `bounded` panics where the
/// buffer for so many messages cannot be had, so it is asked for no more than
/// `CHANNEL_BUFFER_CHUNKS`.
#[verifier::external_body]
fn bounded_channel(capacity: usize) -> (ends: (
    Sender<Result<Bytes, String>>,
    Receiver<Result<Bytes, String>>,
))
    requires
        capacity <= CHANNEL_BUFFER_CHUNKS,
    ensures
        channel_capacity(ends.0) == Some(capacity),
        outgoing(ends.0) == Seq::<Message>::empty(),
        taken_out(ends.0) == 0,
        incoming(ends.1) == destined(ends.0),
{
    crossbeam_channel::bounded(capacity)
}

/// `MinioClient::get_object` checks the names of a bucket and an object and
/// builds the request for the object; its error is given as its text.
#[verifier::external_body]
fn get_object(client: &MinioClient, bucket: &str, object_key: &str) -> (request: Result<
    GetObject,
    String,
>)
    ensures
        match request {
            Ok(r) => get_object_request(*client, bucket@, object_key@) == Ok::<
                GetObject,
                Seq<char>,
            >(r),
            Err(text) => get_object_request(*client, bucket@, object_key@) == Err::<
                GetObject,
                Seq<char>,
            >(text@),
        },
{
    match client.get_object(bucket, object_key) {
        Ok(builder) => Ok(builder.build()),
        Err(e) => Err(e.to_string()),
    }
}

/// A reader over the receiving end of a chunk channel.
pub struct ChannelReader {
    rx: Receiver<Result<Bytes, String>>,
    current: Bytes,
}

impl ChannelReader {
    /// What the reader holds.
    pub closed spec fn state(self) -> ReaderState {
        ReaderState { buffered: bytes_held(self.current), queued: incoming(self.rx) }
    }

    /// Creates a reader that pulls chunks from the given channel.
    pub fn new(rx: Receiver<Result<Bytes, String>>) -> (reader: Self)
        ensures
            reader.state() == (ReaderState { buffered: Seq::empty(), queued: incoming(rx) }),
    {
        ChannelReader { rx, current: Bytes::new() }
    }

    /// Moves bytes of the current chunk to the front of `buf`, as many as both
    /// allow, and returns how many.
    pub fn read_buffered(&mut self, buf: &mut [u8]) -> (count: usize)
        ensures
            count == min(old(buf)@.len(), old(self).state().buffered.len()),
            count <= old(buf)@.len() && count <= old(self).state().buffered.len(),
            count == old(buf)@.len() || count == old(self).state().buffered.len(),
            final(buf)@ == old(self).state().buffered.take(count as int) + old(buf)@.skip(
                count as int,
            ),
            final(self).state() == (ReaderState {
                buffered: old(self).state().buffered.skip(count as int),
                queued: old(self).state().queued,
            }),
    {
        let held: usize = bytes_as_slice(&self.current).len();
        let count: usize = if buf.len() <= held {
            buf.len()
        } else {
            held
        };
        let head = self.current.split_to(count);
        let bytes = bytes_as_slice(&head);
        let mut i: usize = 0;
        while i < count
            invariant
                i <= count,
                count == bytes@.len(),
                count <= old(buf)@.len(),
                buf@ == bytes@.take(i as int) + old(buf)@.skip(i as int),
            decreases count - i,
        {
            buf[i] = bytes[i];
            i = i + 1;
        }
        count
    }

    /// Takes in what was received: a chunk becomes the current one and the
    /// read goes on (`None`); a failure, or the end of the stream, is what the
    /// read returns.
    pub fn accept(&mut self, message: Option<Result<Bytes, String>>) -> (verdict: Option<
        Result<usize, String>,
    >)
        ensures
            final(self).state().queued == old(self).state().queued,
            match message {
                Some(Ok(bytes)) => verdict is None && final(self).state().buffered == bytes_held(
                    bytes,
                ),
                Some(Err(text)) => verdict == Some(Err::<usize, String>(text))
                    && final(self).state().buffered == old(self).state().buffered,
                None => verdict == Some(Ok::<usize, String>(0))
                    && final(self).state().buffered == old(self).state().buffered,
            },
    {
        match message {
            Some(Ok(bytes)) => {
                self.current = bytes;
                None
            },
            Some(Err(text)) => Some(Err(text)),
            None => Some(Ok(0)),
        }
    }

    /// Reads bytes into the front of `buf` and returns how many.
    pub fn read(&mut self, buf: &mut [u8]) -> (result: Result<usize, String>)
        ensures
            ({
                let outcome = read_outcome(old(self).state(), old(buf)@.len());
                &&& final(self).state() == outcome.after
                &&& match result {
                    Ok(count) => {
                        &&& outcome.result is Ok
                        &&& count == outcome.result->Ok_0.len()
                        &&& final(buf)@ == outcome.result->Ok_0 + old(buf)@.skip(count as int)
                    },
                    Err(text) => {
                        &&& outcome.result == Err::<Seq<u8>, Seq<char>>(text@)
                        &&& final(buf)@ == old(buf)@
                    },
                }
            }),
            old(self).state().buffered.len() > 0 && old(buf)@.len() > 0 ==> {
                let held = old(self).state().buffered;
                &&& result is Ok
                &&& result->Ok_0 == if held.len() <= old(buf)@.len() {
                    held.len()
                } else {
                    old(buf)@.len()
                }
                &&& forall|i: int| 0 <= i < result->Ok_0 ==> #[trigger] final(buf)@[i] == held[i]
                &&& final(self).state().buffered == held.skip(result->Ok_0 as int)
                &&& final(self).state().queued == old(self).state().queued
            },
            final(buf)@.len() == old(buf)@.len(),
            result matches Ok(count) ==> forall|i: int|
                count <= i < old(buf)@.len() ==> #[trigger] final(buf)@[i] == old(buf)@[i],
    {
        loop
            invariant
                buf@ == old(buf)@,
                read_outcome(self.state(), buf@.len()) == read_outcome(
                    old(self).state(),
                    old(buf)@.len(),
                ),
            decreases self.state().queued.len(),
        {
            let ghost before = self.state();
            let count: usize = self.read_buffered(buf);
            if count > 0 {
                return Ok(count);
            }
            assert(before.buffered.skip(0) == before.buffered);
            assert(before.buffered.take(0) + buf@.skip(0) == buf@);
            let message = recv_message(&mut self.rx);
            if let Some(verdict) = self.accept(message) {
                return verdict;
            }
        }
    }
}

/// The number of chunks that wait between the task that downloads and the
/// reader.
pub const CHANNEL_BUFFER_CHUNKS: usize = 16;

/// The steps of a download before its content can be streamed, once there is a
/// request.
#[derive(Clone, Copy, Debug, PartialEq, Eq, Structural)]
pub enum DownloadStep {
    /// The request is sent and answered.
    Request,
    /// The answer's content is taken.
    Content,
    /// The content is opened as a stream.
    Stream,
}

/// How far a download is.
#[derive(Clone, Copy, Debug, PartialEq, Eq, Structural)]
pub enum Stage {
    /// The request is to be made.
    Start,
    /// The outcome of a step is awaited.
    Step(DownloadStep),
    /// The content is streamed.
    Streaming,
    /// All that there was to stream is sent, or a step failed.
    Over,
    /// The reader has been told of a failure, if there was one.
    Closed,
}

/// The stage that follows a stage of the set-up, where all goes well.
pub open spec fn stage_after(stage: Stage) -> Stage {
    match stage {
        Stage::Start => Stage::Step(DownloadStep::Request),
        Stage::Step(DownloadStep::Request) => Stage::Step(DownloadStep::Content),
        Stage::Step(DownloadStep::Content) => Stage::Step(DownloadStep::Stream),
        Stage::Step(DownloadStep::Stream) => Stage::Streaming,
        _ => stage,
    }
}

/// An item of an object's content as an item of the stream model; `None` is the
/// end of the content.
pub open spec fn item_of(item: Option<Result<Bytes, String>>) -> Option<Message> {
    match item {
        Some(message) => Some(message_of(message)),
        None => None,
    }
}

/// The download of one object: it feeds the channel that a reader pulls from.
pub struct Download {
    tx: Sender<Result<Bytes, String>>,
    bucket: String,
    object_key: String,
    stage: Stage,
    failure: Option<String>,
}

impl Download {
    /// The messages that were sent so far.
    pub closed spec fn sent(self) -> Seq<Message> {
        outgoing(self.tx)
    }

    /// All messages that will have been sent, in order, when the download is
    /// gone.
    pub closed spec fn destined(self) -> Seq<Message> {
        destined(self.tx)
    }

    /// The number of messages that can wait for the reader.
    pub closed spec fn capacity(self) -> Option<usize> {
        channel_capacity(self.tx)
    }

    /// How many messages the reader had taken when the download last sent one,
    /// or tried to.
    pub closed spec fn taken(self) -> nat {
        taken_out(self.tx)
    }

    /// How many messages waited for the reader then. Until the download sends
    /// again, the reader only makes them fewer.
    pub open spec fn waiting(self) -> int {
        self.sent().len() - self.taken()
    }

    /// The bucket of the object, and its key.
    pub closed spec fn object(self) -> (Seq<char>, Seq<char>) {
        (self.bucket@, self.object_key@)
    }

    /// How far the download is.
    pub closed spec fn stage(self) -> Stage {
        self.stage
    }

    /// Why the content could not be streamed, where it could not.
    pub closed spec fn failure(self) -> Option<Seq<char>> {
        match self.failure {
            Some(text) => Some(text@),
            None => None,
        }
    }

    /// What was sent so far comes first among all that will have been sent. No
    /// more messages wait than the channel can hold. There is a failure only of
    /// a download that is over, and nothing was sent by one that failed or has
    /// not come to stream yet.
    pub open spec fn wf(self) -> bool {
        &&& self.sent().is_prefix_of(self.destined())
        &&& 0 <= self.waiting()
        &&& self.capacity() matches Some(n) ==> self.waiting() <= n
        &&& self.failure() is Some ==> self.stage() is Over || self.stage() is Closed
        &&& self.sets_up() || self.stage() is Over && self.failure() is Some ==> self.sent().len()
            == 0
    }

    /// Whether at least one more message will be carried to the reader.
    pub open spec fn carries_more(self) -> bool {
        self.sent().len() < self.destined().len()
    }

    /// Whether `self` and `other` are the same download, at whatever stage.
    pub open spec fn same_download(self, other: Self) -> bool {
        &&& self.object() == other.object()
        &&& self.destined() == other.destined()
        &&& self.capacity() == other.capacity()
    }

    /// Whether `other` is the same download and no further than `self`.
    pub open spec fn unchanged_in(self, other: Self) -> bool {
        &&& other.same_download(self)
        &&& other.stage() == self.stage()
        &&& other.failure() == self.failure()
        &&& other.sent() == self.sent()
        &&& other.taken() == self.taken()
    }

    /// Whether the content cannot be streamed yet.
    pub open spec fn sets_up(self) -> bool {
        self.stage() is Start || self.stage() is Step
    }

    /// The text of the failure of the set-up at the present stage.
    pub open spec fn failure_text(self, cause: Seq<char>) -> Seq<char> {
        match self.stage() {
            Stage::Step(step) => step_prefix(step) + self.object().0 + "/"@ + self.object().1
                + ": "@ + cause,
            _ => "invalid get_object params: "@ + cause,
        }
    }

    /// What happens when the present stage of the set-up is done: from `self`
    /// to `after`. Without a `cause` it went well, else it failed.
    pub open spec fn takes(self, cause: Option<Seq<char>>, after: Self) -> bool {
        &&& self.sets_up()
        &&& after.same_download(self)
        &&& after.sent() == self.sent()
        &&& after.taken() == self.taken()
        &&& match cause {
            None => after.stage() == stage_after(self.stage()) && after.failure() is None,
            Some(text) => after.stage() is Over && after.failure() == Some(
                self.failure_text(text),
            ),
        }
    }

    /// What happens when a download that streams is given the next item of the
    /// content: from `self` to `after`, and `more` if it is to go on.
    pub open spec fn relays(self, item: Option<Message>, after: Self, more: bool) -> bool {
        &&& self.stage() is Streaming
        &&& after.same_download(self)
        &&& after.failure() is None
        &&& after.stage() == if more {
            Stage::Streaming
        } else {
            Stage::Over
        }
        &&& match item {
            Some(m) if passed_on(m) && self.carries_more() => {
                &&& after.sent() == self.sent().push(m)
                &&& more == goes_on(m)
            },
            _ => after.sent() == self.sent() && !more,
        }
    }

    /// Makes the request for the object. Where there can be none, the download
    /// is over. It is made once, at the start.
    pub fn request(&mut self, client: &MinioClient) -> (request: Option<GetObject>)
        requires
            old(self).wf(),
        ensures
            final(self).wf(),
            !(old(self).stage() is Start) ==> request is None && old(self).unchanged_in(
                *final(self),
            ),
            old(self).stage() is Start ==> match get_object_request(
                *client,
                old(self).object().0,
                old(self).object().1,
            ) {
                Ok(r) => {
                    &&& request == Some(r)
                    &&& old(self).takes(None, *final(self))
                    &&& final(self).stage() == Stage::Step(DownloadStep::Request)
                },
                Err(cause) => {
                    &&& request is None
                    &&& old(self).takes(Some(cause), *final(self))
                    &&& final(self).stage() is Over
                    &&& final(self).failure() == Some("invalid get_object params: "@ + cause)
                },
            },
            final(self).sent() == old(self).sent(),
    {
        if self.stage != Stage::Start {
            return None;
        }
        match request_object(client, self.bucket.as_str(), self.object_key.as_str()) {
            Ok(request) => {
                self.stage = Stage::Step(DownloadStep::Request);
                Some(request)
            },
            Err(text) => {
                self.stage = Stage::Over;
                self.failure = Some(text);
                None
            },
        }
    }

    /// Takes in the outcome of the step that was awaited, and hands on what the
    /// step gave. Where it failed, the download is over. Where no step was
    /// awaited, nothing is handed on.
    pub fn advance<T>(&mut self, outcome: Result<T, String>) -> (given: Option<T>)
        requires
            old(self).wf(),
        ensures
            final(self).wf(),
            !(old(self).stage() is Step) ==> given is None && old(self).unchanged_in(*final(self)),
            old(self).stage() is Step ==> match outcome {
                Ok(value) => {
                    &&& given == Some(value)
                    &&& old(self).takes(None, *final(self))
                    &&& final(self).stage() == match old(self).stage()->Step_0 {
                        DownloadStep::Request => Stage::Step(DownloadStep::Content),
                        DownloadStep::Content => Stage::Step(DownloadStep::Stream),
                        DownloadStep::Stream => Stage::Streaming,
                    }
                },
                Err(cause) => {
                    &&& given is None
                    &&& old(self).takes(Some(cause@), *final(self))
                    &&& final(self).stage() is Over
                    &&& final(self).failure() == Some(
                        (match old(self).stage()->Step_0 {
                            DownloadStep::Request => "get_object failed for "@,
                            DownloadStep::Content => "failed to get content for "@,
                            DownloadStep::Stream => "failed to open stream for "@,
                        }) + old(self).object().0 + "/"@ + old(self).object().1 + ": "@ + cause@,
                    )
                },
            },
            final(self).sent() == old(self).sent(),
    {
        let step = match self.stage {
            Stage::Step(step) => step,
            _ => {
                return None;
            },
        };
        match outcome {
            Ok(value) => {
                self.stage = match step {
                    DownloadStep::Request => Stage::Step(DownloadStep::Content),
                    DownloadStep::Content => Stage::Step(DownloadStep::Stream),
                    DownloadStep::Stream => Stage::Streaming,
                };
                Some(value)
            },
            Err(cause) => {
                self.stage = Stage::Over;
                self.failure = Some(
                    step_failure(
                        step,
                        self.bucket.as_str(),
                        self.object_key.as_str(),
                        cause.as_str(),
                    ),
                );
                None
            },
        }
    }

    /// Passes the next item of the content on to the reader, and says whether
    /// the download goes on. It ends with the content (`None`), at a chunk
    /// without bytes, after a failure, and when the reader is gone. A failure
    /// within the content is told to the reader; the download itself does not
    /// fail any more. Nothing is passed on where the content is not streamed.
    pub fn relay_item(&mut self, item: Option<Result<Bytes, String>>) -> (more: bool)
        requires
            old(self).wf(),
        ensures
            final(self).wf(),
            !(old(self).stage() is Streaming) ==> !more && old(self).unchanged_in(*final(self)),
            old(self).stage() is Streaming ==> old(self).relays(
                item_of(item),
                *final(self),
                more,
            ),
            old(self).stage() is Streaming && old(self).carries_more() ==> match item {
                Some(Ok(bytes)) => if bytes_held(bytes).len() > 0 {
                    more && final(self).sent() == old(self).sent().push(Ok(bytes_held(bytes)))
                } else {
                    !more && final(self).sent() == old(self).sent()
                },
                Some(Err(text)) => !more && final(self).sent() == old(self).sent().push(
                    Err(text@),
                ),
                None => !more && final(self).sent() == old(self).sent(),
            },
            final(self).failure() == old(self).failure(),
    {
        if self.stage != Stage::Streaming {
            return false;
        }
        let more = match message_to_send(item) {
            Some(message) => {
                let is_chunk = message.is_ok();
                let sent = send_message(&mut self.tx, message);
                goes_on_after(is_chunk, sent)
            },
            None => false,
        };
        if !more {
            self.stage = Stage::Over;
        }
        more
    }

    /// Ends a download: where it failed before its content could be streamed,
    /// the reader is told why.
    pub fn finish(&mut self)
        requires
            old(self).wf(),
        ensures
            final(self).wf(),
            final(self).same_download(*old(self)),
            final(self).stage() is Closed,
            final(self).failure() == old(self).failure(),
            match old(self).failure() {
                Some(text) if old(self).stage() is Over && old(self).carries_more() => {
                    final(self).sent() == old(self).sent().push(Err(text))
                },
                _ => final(self).sent() == old(self).sent(),
            },
    {
        if let Stage::Over = self.stage {
            if let Some(text) = &self.failure {
                let _ = send_message(&mut self.tx, Err(text.clone()));
            }
        }
        self.stage = Stage::Closed;
    }
}

/// Opens the way from the download of an object to its reader: a channel for
/// `CHANNEL_BUFFER_CHUNKS` messages, and at its end a fresh reader that gets
/// what is sent.
pub fn open_stream(bucket: &str, object_key: &str) -> (ends: (Download, ChannelReader))
    ensures
        ends.0.wf(),
        ends.0.object() == (bucket@, object_key@),
        ends.0.stage() is Start,
        ends.0.failure() is None,
        ends.0.sent() == Seq::<Message>::empty(),
        ends.0.taken() == 0,
        ends.0.capacity() == Some(CHANNEL_BUFFER_CHUNKS),
        ends.0.capacity() == Some(16usize),
        ends.1.state() == (ReaderState { buffered: Seq::empty(), queued: ends.0.destined() }),
{
    let (tx, rx) = bounded_channel(CHANNEL_BUFFER_CHUNKS);
    let download = Download {
        tx,
        bucket: bucket.to_owned(),
        object_key: object_key.to_owned(),
        stage: Stage::Start,
        failure: None,
    };
    assert(download.sent() == download.destined().take(0));
    (download, ChannelReader::new(rx))
}

/// What is to be sent to the reader of the next item of an object's content: a
/// chunk that holds bytes, or a failure. At the end of the content (`None`),
/// and at a chunk without bytes, there is nothing to send.
pub fn message_to_send(item: Option<Result<Bytes, String>>) -> (message: Option<
    Result<Bytes, String>,
>)
    ensures
        message == (match item {
            Some(m) if passed_on(message_of(m)) => Some(m),
            _ => None,
        }),
        item matches Some(Ok(bytes)) ==> if bytes_held(bytes).len() > 0 {
            message == item
        } else {
            message is None
        },
        item matches Some(Err(text)) ==> message == item,
        item is None ==> message is None,
{
    match item {
        Some(Ok(bytes)) => {
            if bytes_as_slice(&bytes).len() == 0 {
                None
            } else {
                Some(Ok(bytes))
            }
        },
        other => other,
    }
}

/// Whether a download goes on once a message was offered to the reader: it was
/// a chunk, and the reader is still there.
pub fn goes_on_after(is_chunk: bool, sent: bool) -> (more: bool)
    ensures
        more == (is_chunk && sent),
{
    is_chunk && sent
}

/// What is said of a step that failed, up to the name of the object.
pub open spec fn step_prefix(step: DownloadStep) -> Seq<char> {
    match step {
        DownloadStep::Request => "get_object failed for "@,
        DownloadStep::Content => "failed to get content for "@,
        DownloadStep::Stream => "failed to open stream for "@,
    }
}

/// The text of the failure of a download step.
pub fn step_failure(step: DownloadStep, bucket: &str, object_key: &str, cause: &str) -> (text:
    String)
    ensures
        text@ == step_prefix(step) + bucket@ + "/"@ + object_key@ + ": "@ + cause@,
        text@ == (match step {
            DownloadStep::Request => "get_object failed for "@,
            DownloadStep::Content => "failed to get content for "@,
            DownloadStep::Stream => "failed to open stream for "@,
        }) + bucket@ + "/"@ + object_key@ + ": "@ + cause@,
{
    let prefix = match step {
        DownloadStep::Request => "get_object failed for ",
        DownloadStep::Content => "failed to get content for ",
        DownloadStep::Stream => "failed to open stream for ",
    };
    let mut text = prefix.to_owned();
    text.append(bucket);
    text.append("/");
    text.append(object_key);
    text.append(": ");
    text.append(cause);
    text
}

/// The text of the failure to make a request.
pub fn request_failure(cause: &str) -> (text: String)
    ensures
        text@ == "invalid get_object params: "@ + cause@,
{
    let mut text = "invalid get_object params: ".to_owned();
    text.append(cause);
    text
}

/// Makes the request for an object, or says why there can be none.
pub fn request_object(client: &MinioClient, bucket: &str, object_key: &str) -> (request: Result<
    GetObject,
    String,
>)
    ensures
        match get_object_request(*client, bucket@, object_key@) {
            Ok(r) => request == Ok::<GetObject, String>(r),
            Err(cause) => request matches Err(text) && text@ == "invalid get_object params: "@
                + cause,
        },
{
    match get_object(client, bucket, object_key) {
        Ok(request) => Ok(request),
        Err(cause) => Err(request_failure(cause.as_str())),
    }
}

/// Whether `states` are the states of a download that is set up, before the
/// request and after each of its stages. The causes say how each stage ended;
/// behind one that failed there is no other.
pub open spec fn is_setup_run(states: Seq<Download>, causes: Seq<Option<Seq<char>>>) -> bool {
    &&& states.len() == causes.len() + 1
    &&& states[0].wf()
    &&& states[0].stage() is Start
    &&& forall|i: int|
        0 <= i < causes.len() ==> (#[trigger] states[i]).takes(causes[i], states[i + 1])
    &&& forall|i: int| 0 <= i < causes.len() - 1 ==> (#[trigger] causes[i]) is None
}

/// A download fails if and only if a stage before its first chunk fails, and
/// then nothing was sent. It comes to stream if and only if all four stages of
/// the set-up went well.
pub proof fn lemma_setup_run(states: Seq<Download>, causes: Seq<Option<Seq<char>>>)
    requires
        is_setup_run(states, causes),
    ensures
        causes.len() <= 4,
        states.last().same_download(states[0]),
        states.last().sent().len() == 0,
        states.last().failure() is Some <==> causes.len() > 0 && causes.last() is Some,
        states.last().failure() is Some ==> states.last().stage() is Over,
        states.last().stage() is Streaming <==> causes.len() == 4 && causes.last() is None,
{
    if causes.len() >= 1 {
        assert(states[0].takes(causes[0], states[1]));
    }
    if causes.len() >= 2 {
        assert(states[1].takes(causes[1], states[2]));
    }
    if causes.len() >= 3 {
        assert(states[2].takes(causes[2], states[3]));
    }
    if causes.len() >= 4 {
        assert(states[3].takes(causes[3], states[4]));
    }
    if causes.len() >= 5 {
        assert(states[4].takes(causes[4], states[5]));
    }
}

/// Whether `states` are the states of a download, before and after each call of
/// `relay_item`, that is given the items of an object's content, and then the
/// end of the content, until it does not go on.
pub open spec fn is_relay_run(states: Seq<Download>, items: Seq<Message>) -> bool {
    &&& 2 <= states.len() <= items.len() + 2
    &&& forall|i: int| 0 <= i < states.len() ==> (#[trigger] states[i]).wf()
    &&& forall|i: int|
        0 <= i < states.len() - 1 ==> (#[trigger] states[i]).relays(
            if i < items.len() {
                Some(items[i])
            } else {
                None
            },
            states[i + 1],
            i < states.len() - 2,
        )
}

/// A download sends what the stream model says, and does not fail: given the
/// items of an object's content it has sent the relayed items and no others
/// when it does not go on, or, where the reader left before, as many of them as
/// the reader took.
pub proof fn lemma_relay_run(states: Seq<Download>, items: Seq<Message>)
    requires
        is_relay_run(states, items),
    ensures
        states.last().stage() is Over,
        states.last().failure() is None,
        states.last().same_download(states[0]),
        states.last().sent().is_prefix_of(states[0].sent() + relayed(items)),
        states[0].sent().len() + relayed(items).len() <= states[0].destined().len()
            ==> states.last().sent() == states[0].sent() + relayed(items),
        states[0].sent().len() + relayed(items).len() > states[0].destined().len()
            ==> states.last().sent() == states[0].destined(),
    decreases states.len(),
{
    let first = states[0];
    let next = states[1];
    let item = if items.len() > 0 {
        Some(items[0])
    } else {
        None
    };
    assert(first.relays(item, next, 0 < states.len() - 2));
    if states.len() == 2 {
        assert(states.last() == next);
        if item is Some && passed_on(items[0]) && first.carries_more() {
            assert(relayed(items) == seq![items[0]]);
            assert(next.sent() == first.sent() + relayed(items));
        } else if item is Some && passed_on(items[0]) {
            assert(first.sent() == first.destined());
            assert(relayed(items).len() > 0);
            assert(first.sent() == (first.sent() + relayed(items)).take(first.sent().len() as int));
        } else {
            assert(first.sent() + relayed(items) == first.sent());
        }
        assert(next.sent() == (first.sent() + relayed(items)).take(next.sent().len() as int));
    } else {
        let rest = items.drop_first();
        let later = states.drop_first();
        assert(goes_on(items[0]));
        assert forall|i: int| 0 <= i < later.len() implies (#[trigger] later[i]).wf() by {
            assert(states[i + 1].wf());
        }
        assert forall|i: int| 0 <= i < later.len() - 1 implies (#[trigger] later[i]).relays(
            if i < rest.len() {
                Some(rest[i])
            } else {
                None
            },
            later[i + 1],
            i < later.len() - 2,
        ) by {
            assert(states[i + 1].relays(
                if i + 1 < items.len() {
                    Some(items[i + 1])
                } else {
                    None
                },
                states[i + 2],
                i + 1 < states.len() - 2,
            ));
        }
        lemma_relay_run(later, rest);
        assert(states.last() == later.last());
        assert(relayed(items) == seq![items[0]] + relayed(rest));
        assert(first.sent() + relayed(items) == next.sent() + relayed(rest));
    }
}

/// At most `CHANNEL_BUFFER_CHUNKS` messages wait for the reader of a download,
/// at whatever stage it is and however many items its object has. Where so many
/// wait and another one is sent, the reader has taken at least one meanwhile:
/// the download waited for it, and dropped nothing.
pub proof fn lemma_waiting_is_bounded(opened: Download, before: Download, after: Download)
    requires
        opened.capacity() == Some(CHANNEL_BUFFER_CHUNKS),
        before.wf(),
        before.same_download(opened),
        after.wf(),
        after.same_download(opened),
    ensures
        0 <= before.waiting() <= CHANNEL_BUFFER_CHUNKS,
        before.waiting() == CHANNEL_BUFFER_CHUNKS ==> forall|m: Message|
            after.sent() == #[trigger] before.sent().push(m) ==> after.taken() > before.taken(),
{
}

/// Reading gives back what was downloaded: a reader that takes all messages
/// hands over the content's bytes, up to the first chunk without bytes, in order
/// and each once, whatever the sizes of its reads, and with enough reads all of
/// them. A failure within the content, or nothing sent behind it, ends what is
/// read.
pub proof fn lemma_streamed_reads_back(
    states: Seq<Download>,
    items: Seq<Message>,
    wants: Seq<nat>,
)
    requires
        is_relay_run(states, items),
        states[0].sent().len() == 0,
        relayed(items).len() <= states[0].destined().len(),
        forall|i: int| 0 <= i < wants.len() ==> wants[i] > 0,
        wants.len() >= carried(states[0].destined()).len(),
    ensures
        ({
            let reader = ReaderState { buffered: Seq::empty(), queued: states[0].destined() };
            &&& carried(until_empty(items)).is_prefix_of(read_all(reader, wants))
            &&& failure(until_empty(items)) is Some || states[0].destined()
                == states.last().sent() ==> read_all(reader, wants) == carried(
                until_empty(items),
            )
        }),
{
    lemma_relay_run(states, items);
    assert(states[0].sent() + relayed(items) == relayed(items));
    assert(states.last().wf());
    lemma_download_reads_back(items, states[0].destined(), wants);
}

/// The reader of a download that failed gets the failure at once: where the
/// download `before` failed, and its end, `after`, told the reader, any read
/// reports why.
pub proof fn lemma_failure_is_read(before: Download, after: Download, want: nat)
    requires
        before.wf(),
        before.stage() is Over,
        before.failure() is Some,
        after.wf(),
        after.same_download(before),
        after.sent() == before.sent().push(Err(before.failure()->Some_0)),
    ensures
        read_outcome(
            ReaderState { buffered: Seq::empty(), queued: before.destined() },
            want,
        ).result == Err::<Seq<u8>, Seq<char>>(before.failure()->Some_0),
{
    assert(after.sent()[0] == after.destined()[0]);
}

/// What is sent of an item of a content is the item itself, a chunk of any
/// length but none as well as a failure; nothing is sent of a chunk without
/// bytes, nor at the end.
pub proof fn lemma_item_is_sent_as_it_is(
    item: Option<Result<Bytes, String>>,
    message: Option<Result<Bytes, String>>,
)
    requires
        call_ensures(message_to_send, (item,), message),
    ensures
        message is None <==> item is None || item->Some_0 is Ok && bytes_held(
            item->Some_0->Ok_0,
        ).len() == 0,
        message is Some ==> message == item,
{
}

/// A download goes on behind a chunk that the reader took, and only then.
pub proof fn lemma_goes_on_behind_taken_chunks(is_chunk: bool, sent: bool, more: bool)
    requires
        call_ensures(goes_on_after, (is_chunk, sent), more),
    ensures
        more <==> is_chunk && sent,
{
}

/// A message of the channel says in the stream model what it says: the bytes of
/// a chunk, or the text of a failure.
pub proof fn lemma_message_is_modelled(bytes: Bytes, text: String)
    ensures
        message_of(Ok(bytes)) == Ok::<Seq<u8>, Seq<char>>(bytes_held(bytes)),
        message_of(Err(text)) == Err::<Seq<u8>, Seq<char>>(text@),
        item_of(Some(Ok(bytes))) == Some(Ok::<Seq<u8>, Seq<char>>(bytes_held(bytes))),
        item_of(Some(Err(text))) == Some(Err::<Seq<u8>, Seq<char>>(text@)),
        item_of(None) is None,
{
}

/// The text of a failed step says which step it was, names the object in full
/// and ends with the whole cause; texts of different steps differ in how they
/// begin.
pub proof fn lemma_step_failure_says_all(
    step: DownloadStep,
    bucket: &str,
    object_key: &str,
    cause: &str,
    text: String,
)
    requires
        call_ensures(step_failure, (step, bucket, object_key, cause), text),
    ensures
        text@ == (match step {
            DownloadStep::Request => "get_object failed for "@,
            DownloadStep::Content => "failed to get content for "@,
            DownloadStep::Stream => "failed to open stream for "@,
        }) + bucket@ + "/"@ + object_key@ + ": "@ + cause@,
        cause@.is_suffix_of(text@),
{
    let n = text@.len() - cause@.len();
    assert(cause@ == text@.subrange(n, text@.len() as int));
}

/// The same of a request that cannot be made.
pub proof fn lemma_request_failure_says_all(cause: &str, text: String)
    requires
        call_ensures(request_failure, (cause,), text),
    ensures
        text@ == "invalid get_object params: "@ + cause@,
{
}

/// The request for an object is asked for with the client, the bucket and the
/// key that are given, in these roles, and is handed on as it is.
pub proof fn lemma_request_is_for_the_object(
    client: MinioClient,
    bucket: &str,
    object_key: &str,
    request: Result<GetObject, String>,
)
    requires
        call_ensures(request_object, (&client, bucket, object_key), request),
    ensures
        request is Ok <==> get_object_request(client, bucket@, object_key@) is Ok,
        request is Ok ==> request->Ok_0 == get_object_request(client, bucket@, object_key@)->Ok_0,
        request is Err ==> request->Err_0@ == "invalid get_object params: "@
            + get_object_request(client, bucket@, object_key@)->Err_0,
{
}

/// A fresh download is for the object that it was opened for, has room for
/// sixteen messages and has sent none; its reader gets all that it will send.
pub proof fn lemma_stream_is_opened(
    bucket: &str,
    object_key: &str,
    ends: (Download, ChannelReader),
)
    requires
        call_ensures(open_stream, (bucket, object_key), ends),
    ensures
        ends.0.object() == (bucket@, object_key@),
        ends.0.capacity() == Some(16usize),
        ends.0.sent().len() == 0,
        ends.0.failure() is None,
        ends.1.state().buffered.len() == 0,
        ends.1.state().queued == ends.0.destined(),
{
}

/// What the failure of a download says, by how many of its stages went well
/// before: the request could not be made, was not answered, had no content, or
/// the content could not be opened; with the object and the cause.
pub proof fn lemma_setup_failure_text(states: Seq<Download>, causes: Seq<Option<Seq<char>>>)
    requires
        is_setup_run(states, causes),
        causes.len() > 0,
        causes.last() is Some,
    ensures
        ({
            let (bucket, object_key) = states[0].object();
            let told = bucket + "/"@ + object_key + ": "@ + causes.last()->Some_0;
            let text = states.last().failure()->Some_0;
            &&& states.last().failure() is Some
            &&& causes.len() == 1 ==> text == "invalid get_object params: "@
                + causes.last()->Some_0
            &&& causes.len() == 2 ==> text == "get_object failed for "@ + told
            &&& causes.len() == 3 ==> text == "failed to get content for "@ + told
            &&& causes.len() == 4 ==> text == "failed to open stream for "@ + told
        }),
{
    lemma_setup_run(states, causes);
    let (bucket, object_key) = states[0].object();
    let cause = causes.last()->Some_0;
    let told = bucket + "/"@ + object_key + ": "@ + cause;
    assert(states[0].takes(causes[0], states[1]));
    if causes.len() >= 2 {
        assert(causes[0] is None);
        assert(states[1].takes(causes[1], states[2]));
    }
    if causes.len() >= 3 {
        assert(causes[1] is None);
        assert(states[2].takes(causes[2], states[3]));
    }
    if causes.len() >= 4 {
        assert(causes[2] is None);
        assert(states[3].takes(causes[3], states[4]));
    }
    assert("get_object failed for "@ + bucket + "/"@ + object_key + ": "@ + cause
        == "get_object failed for "@ + told);
    assert("failed to get content for "@ + bucket + "/"@ + object_key + ": "@ + cause
        == "failed to get content for "@ + told);
    assert("failed to open stream for "@ + bucket + "/"@ + object_key + ": "@ + cause
        == "failed to open stream for "@ + told);
}

/// Of a content whose chunks all hold bytes, of whatever length, a download
/// sends every chunk to a reader that stays, and what is read are the bytes of
/// all of them, one chunk behind the other.
pub proof fn lemma_whole_content_is_read(
    states: Seq<Download>,
    items: Seq<Message>,
    wants: Seq<nat>,
)
    requires
        is_relay_run(states, items),
        states[0].sent().len() == 0,
        forall|i: int|
            0 <= i < items.len() ==> (#[trigger] items[i]) is Ok && items[i]->Ok_0.len() > 0,
        items.len() <= states[0].destined().len(),
        forall|i: int| 0 <= i < wants.len() ==> wants[i] > 0,
        wants.len() >= carried(states[0].destined()).len(),
    ensures
        states.last().sent() == items,
        states.len() == items.len() + 2,
        ({
            let reader = ReaderState { buffered: Seq::empty(), queued: states[0].destined() };
            &&& carried(items).is_prefix_of(read_all(reader, wants))
            &&& states[0].destined() == items ==> read_all(reader, wants) == carried(items)
        }),
{
    lemma_chunks_are_all_sent(items, items.len() as int);
    lemma_relay_run(states, items);
    assert(states[0].sent() + relayed(items) == items);
    lemma_streamed_reads_back(states, items, wants);
    let n = states.len() - 2;
    assert(states[n].relays(
        if n < items.len() {
            Some(items[n])
        } else {
            None
        },
        states[n + 1],
        n < states.len() - 2,
    ));
    lemma_sent_step_by_step(states, items, n);
    assert(n == items.len());
}

/// Where all chunks hold bytes, each call but the last sends one.
proof fn lemma_sent_step_by_step(states: Seq<Download>, items: Seq<Message>, k: int)
    requires
        is_relay_run(states, items),
        states[0].sent().len() == 0,
        0 <= k <= states.len() - 2,
    ensures
        states[k].sent().len() == k,
        states[k].destined() == states[0].destined(),
    decreases k,
{
    if k > 0 {
        lemma_sent_step_by_step(states, items, k - 1);
        assert(states[k - 1].relays(
            if k - 1 < items.len() {
                Some(items[k - 1])
            } else {
                None
            },
            states[k],
            k - 1 < states.len() - 2,
        ));
    }
}

} // verus!
