//! The mathematical model of a download stream: a sequence of messages, each
//! a chunk of bytes or the text of a failure.

use vstd::prelude::*;

verus! {

/// One message of a download stream.
pub type Message = Result<Seq<u8>, Seq<char>>;

/// The bytes that a stream carries: its chunks joined in order, up to the
/// first failure.
pub open spec fn carried(messages: Seq<Message>) -> Seq<u8>
    decreases messages.len(),
{
    if messages.len() == 0 {
        Seq::empty()
    } else {
        match messages[0] {
            Ok(chunk) => chunk + carried(messages.drop_first()),
            Err(_) => Seq::empty(),
        }
    }
}

/// The failure that ends the bytes of a stream, if there is one: the first
/// message that is no chunk.
pub open spec fn failure(messages: Seq<Message>) -> Option<Seq<char>>
    decreases messages.len(),
{
    if messages.len() == 0 {
        None
    } else {
        match messages[0] {
            Ok(_) => failure(messages.drop_first()),
            Err(text) => Some(text),
        }
    }
}

/// What a reader holds: bytes of the chunk it is in the middle of, and the
/// messages it has not received yet.
pub struct ReaderState {
    pub buffered: Seq<u8>,
    pub queued: Seq<Message>,
}

impl ReaderState {
    /// All bytes that are still to be read before a failure or the end.
    pub open spec fn unread(self) -> Seq<u8> {
        self.buffered + carried(self.queued)
    }
}

/// What one read gives: the bytes handed over or the failure, and what the
/// reader holds afterwards.
pub struct ReadOutcome {
    pub result: Result<Seq<u8>, Seq<char>>,
    pub after: ReaderState,
}

pub open spec fn min(a: nat, b: nat) -> nat {
    if a <= b {
        a
    } else {
        b
    }
}

/// A read of at most `want` bytes. It hands over bytes of the current chunk;
/// where that gives none it receives: a chunk takes the current one's place, a
/// failure is reported, and the end of the stream reads as no bytes.
pub open spec fn read_outcome(state: ReaderState, want: nat) -> ReadOutcome
    decreases state.queued.len(),
{
    let count = min(want, state.buffered.len());
    if count > 0 {
        ReadOutcome {
            result: Ok(state.buffered.take(count as int)),
            after: ReaderState {
                buffered: state.buffered.skip(count as int),
                queued: state.queued,
            },
        }
    } else if state.queued.len() == 0 {
        ReadOutcome { result: Ok(Seq::empty()), after: state }
    } else {
        match state.queued[0] {
            Ok(chunk) => read_outcome(
                ReaderState { buffered: chunk, queued: state.queued.drop_first() },
                want,
            ),
            Err(text) => ReadOutcome {
                result: Err(text),
                after: ReaderState {
                    buffered: state.buffered,
                    queued: state.queued.drop_first(),
                },
            },
        }
    }
}

/// The bytes that a reader hands over in successive reads of the given sizes,
/// up to the first failure.
pub open spec fn read_all(state: ReaderState, wants: Seq<nat>) -> Seq<u8>
    decreases wants.len(),
{
    if wants.len() == 0 {
        Seq::empty()
    } else {
        let outcome = read_outcome(state, wants[0]);
        match outcome.result {
            Ok(bytes) => bytes + read_all(outcome.after, wants.drop_first()),
            Err(_) => Seq::empty(),
        }
    }
}

/// What a download passes on of an item of the object's content: a failure,
/// or a chunk that holds bytes. A chunk without bytes is not passed on.
pub open spec fn passed_on(item: Message) -> bool {
    match item {
        Ok(chunk) => chunk.len() > 0,
        Err(_) => true,
    }
}

/// Whether a download goes on after an item: after a chunk that was passed on.
pub open spec fn goes_on(item: Message) -> bool {
    item is Ok && passed_on(item)
}

/// The messages that a download of the given items sends to a reader that
/// stays to the end.
pub open spec fn relayed(items: Seq<Message>) -> Seq<Message>
    decreases items.len(),
{
    if items.len() == 0 || !passed_on(items[0]) {
        Seq::empty()
    } else if goes_on(items[0]) {
        seq![items[0]] + relayed(items.drop_first())
    } else {
        seq![items[0]]
    }
}

/// The items of an object's content before the first chunk without bytes.
pub open spec fn until_empty(items: Seq<Message>) -> Seq<Message>
    decreases items.len(),
{
    if items.len() == 0 || !passed_on(items[0]) {
        Seq::empty()
    } else {
        seq![items[0]] + until_empty(items.drop_first())
    }
}

/// A read with room for at least one byte loses nothing and repeats nothing:
/// the bytes it hands over are the next ones, and the rest stays to be read.
/// It hands over no bytes only at the end of the stream, and reports a failure
/// only after all bytes before it.
pub proof fn lemma_read_conserves(state: ReaderState, want: nat)
    requires
        want > 0,
    ensures
        ({
            let outcome = read_outcome(state, want);
            match outcome.result {
                Ok(bytes) => {
                    &&& bytes.len() <= want
                    &&& state.unread() == bytes + outcome.after.unread()
                    &&& failure(outcome.after.queued) == failure(state.queued)
                    &&& bytes.len() == 0 <==> state.unread().len() == 0 && failure(state.queued)
                        is None
                },
                Err(text) => {
                    &&& state.unread().len() == 0
                    &&& failure(state.queued) == Some(text)
                },
            }
        }),
    decreases state.queued.len(),
{
    let count = min(want, state.buffered.len());
    if count > 0 {
        assert(state.buffered == state.buffered.take(count as int) + state.buffered.skip(
            count as int,
        ));
    } else if state.queued.len() > 0 {
        if let Ok(chunk) = state.queued[0] {
            let next = ReaderState { buffered: chunk, queued: state.queued.drop_first() };
            lemma_read_conserves(next, want);
            assert(state.unread() == next.unread());
        }
    }
}

/// A read with room for at least one byte that hands over none has reached the
/// end: every later read hands over none either.
pub proof fn lemma_end_is_final(state: ReaderState, want: nat, later: nat)
    requires
        want > 0,
        read_outcome(state, want).result == Ok::<Seq<u8>, Seq<char>>(Seq::empty()),
    ensures
        read_outcome(read_outcome(state, want).after, later) == (ReadOutcome {
            result: Ok(Seq::empty()),
            after: read_outcome(state, want).after,
        }),
    decreases state.queued.len(),
{
    let count = min(want, state.buffered.len());
    if count > 0 {
        assert(state.buffered.take(count as int).len() == count);
    } else if state.queued.len() > 0 {
        if let Ok(chunk) = state.queued[0] {
            lemma_end_is_final(
                ReaderState { buffered: chunk, queued: state.queued.drop_first() },
                want,
                later,
            );
        }
    }
}

/// Whatever the sizes of the reads, each with room for at least one byte, the
/// bytes come in the order of the stream and each once; and as many reads as
/// there are bytes give all of them.
pub proof fn lemma_reads_follow_stream(state: ReaderState, wants: Seq<nat>)
    requires
        forall|i: int| 0 <= i < wants.len() ==> wants[i] > 0,
    ensures
        read_all(state, wants).is_prefix_of(state.unread()),
        wants.len() >= state.unread().len() ==> read_all(state, wants) == state.unread(),
    decreases wants.len(),
{
    if wants.len() > 0 {
        let outcome = read_outcome(state, wants[0]);
        lemma_read_conserves(state, wants[0]);
        if let Ok(bytes) = outcome.result {
            let rest = read_all(outcome.after, wants.drop_first());
            lemma_reads_follow_stream(outcome.after, wants.drop_first());
            assert(state.unread() == bytes + outcome.after.unread());
            assert forall|i: int| 0 <= i < (bytes + rest).len() implies (bytes + rest)[i]
                == state.unread()[i] by {
                if i >= bytes.len() {
                    assert(rest[i - bytes.len()] == outcome.after.unread()[i - bytes.len()]);
                }
            }
            assert((bytes + rest) == state.unread().take((bytes + rest).len() as int));
        } else {
            assert(state.unread() == Seq::<u8>::empty());
        }
    }
}

/// A download passes items on in their order and drops none before it stops:
/// what it sends is a prefix of the object's content.
pub proof fn lemma_relay_in_order(items: Seq<Message>)
    ensures
        relayed(items).is_prefix_of(items),
        (forall|i: int| 0 <= i < items.len() ==> goes_on(#[trigger] items[i])) ==> relayed(items)
            == items,
    decreases items.len(),
{
    if items.len() > 0 && passed_on(items[0]) {
        if goes_on(items[0]) {
            let rest = items.drop_first();
            lemma_relay_in_order(rest);
            assert(items == seq![items[0]] + rest);
            assert forall|i: int| 0 <= i < relayed(items).len() implies relayed(items)[i]
                == items[i] by {
                if i > 0 {
                    assert(relayed(rest)[i - 1] == rest[i - 1]);
                }
            }
            if forall|i: int| 0 <= i < items.len() ==> goes_on(#[trigger] items[i]) {
                assert forall|i: int| 0 <= i < rest.len() implies goes_on(#[trigger] rest[i]) by {
                    assert(goes_on(items[i + 1]));
                }
            }
        }
        assert(relayed(items) == items.take(relayed(items).len() as int));
    } else {
        assert(relayed(items) == items.take(0));
    }
}

/// Where a download stops. While items are chunks that hold bytes all of them
/// are sent; then it stops behind a failure, before a chunk without bytes, or
/// at the end of the content.
pub proof fn lemma_relay_stops(items: Seq<Message>, n: int)
    requires
        0 <= n <= items.len(),
        forall|i: int| 0 <= i < n ==> goes_on(#[trigger] items[i]),
    ensures
        n == items.len() ==> relayed(items) == items,
        n < items.len() && !passed_on(items[n]) ==> relayed(items) == items.take(n),
        n < items.len() && passed_on(items[n]) && !goes_on(items[n]) ==> relayed(items)
            == items.take(n + 1),
    decreases n,
{
    if n > 0 {
        let rest = items.drop_first();
        assert(goes_on(items[0]));
        assert forall|i: int| 0 <= i < n - 1 implies goes_on(#[trigger] rest[i]) by {
            assert(goes_on(items[i + 1]));
        }
        lemma_relay_stops(rest, n - 1);
        assert(items == seq![items[0]] + rest);
        assert(items.take(n) == seq![items[0]] + rest.take(n - 1));
        if n < items.len() {
            assert(items.take(n + 1) == seq![items[0]] + rest.take(n));
        }
    } else if items.len() > 0 {
        assert(items.take(1) == seq![items[0]]);
        assert(items.take(0) == Seq::<Message>::empty());
    }
}

/// What a reader gets of a download is the object's content: the same bytes
/// and the same failure, up to the first chunk without bytes.
pub proof fn lemma_reader_gets_content(items: Seq<Message>)
    ensures
        carried(relayed(items)) == carried(until_empty(items)),
        failure(relayed(items)) == failure(until_empty(items)),
        (forall|i: int| 0 <= i < items.len() ==> passed_on(#[trigger] items[i])) ==> until_empty(
            items,
        ) == items,
    decreases items.len(),
{
    if items.len() > 0 && passed_on(items[0]) {
        let rest = items.drop_first();
        lemma_reader_gets_content(rest);
        assert(items == seq![items[0]] + rest);
        assert((seq![items[0]] + until_empty(rest)).drop_first() == until_empty(rest));
        assert((seq![items[0]] + relayed(rest)).drop_first() == relayed(rest));
        if forall|i: int| 0 <= i < items.len() ==> passed_on(#[trigger] items[i]) {
            assert forall|i: int| 0 <= i < rest.len() implies passed_on(#[trigger] rest[i]) by {
                assert(passed_on(items[i + 1]));
            }
        }
    }
}

/// What a stream starts with is what it carries first, and a failure in it
/// settles the rest.
pub proof fn lemma_carried_prefix(sent: Seq<Message>, all: Seq<Message>)
    requires
        sent.is_prefix_of(all),
    ensures
        carried(sent).is_prefix_of(carried(all)),
        failure(sent) is Some ==> carried(all) == carried(sent) && failure(all) == failure(sent),
    decreases sent.len(),
{
    if sent.len() == 0 {
        assert(carried(sent) == carried(all).take(0));
    } else {
        assert(sent[0] == all[0]);
        assert(sent.drop_first() == all.drop_first().take(sent.len() - 1));
        lemma_carried_prefix(sent.drop_first(), all.drop_first());
        if let Ok(chunk) = sent[0] {
            let few = carried(sent.drop_first());
            let more = carried(all.drop_first());
            assert(few == more.take(few.len() as int));
            assert(chunk + few == (chunk + more).take((chunk + few).len() as int));
        }
    }
}

/// Reading gives back what was downloaded: a reader of the download hands over
/// the content's bytes, up to the first chunk without bytes, in order and each
/// once, whatever the sizes of its reads, and with enough reads all of them.
/// `destined` is what the channel carries in all; the download comes first in
/// it.
pub proof fn lemma_download_reads_back(
    items: Seq<Message>,
    destined: Seq<Message>,
    wants: Seq<nat>,
)
    requires
        forall|i: int| 0 <= i < wants.len() ==> wants[i] > 0,
        relayed(items).is_prefix_of(destined),
        wants.len() >= carried(destined).len(),
    ensures
        carried(until_empty(items)).is_prefix_of(
            read_all(ReaderState { buffered: Seq::empty(), queued: destined }, wants),
        ),
        failure(until_empty(items)) is Some || destined == relayed(items) ==> read_all(
            ReaderState { buffered: Seq::empty(), queued: destined },
            wants,
        ) == carried(until_empty(items)),
{
    let reader = ReaderState { buffered: Seq::empty(), queued: destined };
    lemma_reader_gets_content(items);
    lemma_carried_prefix(relayed(items), destined);
    assert(reader.unread() == carried(destined));
    lemma_reads_follow_stream(reader, wants);
}

/// The bytes that a stream carries are its chunks, all of them and of any
/// length, one behind the other, up to the first failure.
pub proof fn lemma_carried_is_joined(a: Seq<Message>, b: Seq<Message>, chunk: Seq<u8>)
    ensures
        carried(Seq::empty()).len() == 0,
        carried(seq![Ok(chunk)]) == chunk,
        (forall|i: int| 0 <= i < a.len() ==> (#[trigger] a[i]) is Ok) ==> carried(a + b)
            == carried(a) + carried(b),
        (exists|i: int| 0 <= i < a.len() && (#[trigger] a[i]) is Err) ==> carried(a + b)
            == carried(a),
        a.len() > 0 && a[0] is Err ==> carried(a).len() == 0,
    decreases a.len(),
{
    let single: Seq<Message> = seq![Ok(chunk)];
    assert(single.drop_first() == Seq::<Message>::empty());
    assert(carried(single.drop_first()).len() == 0);
    assert(carried(single) == chunk);
    if a.len() == 0 {
        assert(a + b == b);
        assert(carried(a) + carried(b) == carried(b));
    } else {
        let rest = a.drop_first();
        assert((a + b).drop_first() == rest + b);
        assert((a + b)[0] == a[0]);
        lemma_carried_is_joined(rest, b, chunk);
        if let Ok(first) = a[0] {
            if forall|i: int| 0 <= i < a.len() ==> (#[trigger] a[i]) is Ok {
                assert forall|i: int| 0 <= i < rest.len() implies (#[trigger] rest[i]) is Ok by {
                    assert(a[i + 1] is Ok);
                }
                assert(first + (carried(rest) + carried(b)) == (first + carried(rest)) + carried(
                    b,
                ));
            }
            if exists|i: int| 0 <= i < a.len() && (#[trigger] a[i]) is Err {
                let i = choose|i: int| 0 <= i < a.len() && (#[trigger] a[i]) is Err;
                assert(rest[i - 1] is Err);
            }
        }
    }
}

/// The failure of a stream is its first message that is no chunk.
pub proof fn lemma_failure_is_first(messages: Seq<Message>, k: int)
    requires
        0 <= k <= messages.len(),
        forall|i: int| 0 <= i < k ==> (#[trigger] messages[i]) is Ok,
    ensures
        k < messages.len() && messages[k] is Err ==> failure(messages) == Some(
            messages[k]->Err_0,
        ),
        k == messages.len() ==> failure(messages) is None,
    decreases messages.len(),
{
    if k > 0 {
        let rest = messages.drop_first();
        assert(messages[0] is Ok);
        assert forall|i: int| 0 <= i < k - 1 implies (#[trigger] rest[i]) is Ok by {
            assert(messages[i + 1] is Ok);
        }
        lemma_failure_is_first(rest, k - 1);
    }
}

/// What is passed on, and what ends a download, by the length of a chunk alone:
/// only a chunk of no bytes is held back, and a download goes on behind every
/// chunk that holds any.
pub proof fn lemma_only_empty_chunks_are_held_back(chunk: Seq<u8>, text: Seq<char>)
    ensures
        passed_on(Ok(chunk)) <==> chunk.len() >= 1,
        goes_on(Ok(chunk)) <==> chunk.len() >= 1,
        passed_on(Err(text)),
        !goes_on(Err(text)),
{
}

/// A download sends all items of a content whose chunks hold bytes, however
/// many they are and of whatever length, and the reader gets the bytes of all of
/// them; and a content that starts with such chunks is sent at least so far.
pub proof fn lemma_chunks_are_all_sent(items: Seq<Message>, n: int)
    requires
        0 <= n <= items.len(),
        forall|i: int|
            0 <= i < n ==> (#[trigger] items[i]) is Ok && items[i]->Ok_0.len() > 0,
    ensures
        n == items.len() ==> relayed(items) == items,
        n == items.len() ==> until_empty(items) == items,
        n == items.len() ==> carried(relayed(items)) == carried(items),
        items.take(n).is_prefix_of(relayed(items)),
        n < items.len() && items[n] is Err ==> relayed(items) == items.take(n + 1),
        n < items.len() && items[n] is Ok && items[n]->Ok_0.len() == 0 ==> relayed(items)
            == items.take(n),
        n < items.len() && items[n] is Ok && items[n]->Ok_0.len() == 0 ==> until_empty(items)
            == items.take(n),
{
    assert forall|i: int| 0 <= i < n implies goes_on(#[trigger] items[i]) by {}
    lemma_relay_stops(items, n);
    lemma_starts_are_sent(items, n);
    lemma_reader_gets_content(items);
}

/// Chunks that hold bytes are sent, and kept, at the start of a content.
proof fn lemma_starts_are_sent(items: Seq<Message>, n: int)
    requires
        0 <= n <= items.len(),
        forall|i: int|
            0 <= i < n ==> (#[trigger] items[i]) is Ok && items[i]->Ok_0.len() > 0,
    ensures
        items.take(n).is_prefix_of(relayed(items)),
        n == items.len() ==> until_empty(items) == items,
        n < items.len() && items[n] is Ok && items[n]->Ok_0.len() == 0 ==> until_empty(items)
            == items.take(n),
    decreases n,
{
    if n > 0 {
        let rest = items.drop_first();
        assert(items[0] is Ok && items[0]->Ok_0.len() > 0);
        assert forall|i: int| 0 <= i < n - 1 implies (#[trigger] rest[i]) is Ok
            && rest[i]->Ok_0.len() > 0 by {
            assert(items[i + 1] is Ok && items[i + 1]->Ok_0.len() > 0);
        }
        lemma_starts_are_sent(rest, n - 1);
        assert(items.take(n) == seq![items[0]] + rest.take(n - 1));
        assert(items == seq![items[0]] + rest);
        assert(relayed(items) == seq![items[0]] + relayed(rest));
        assert forall|i: int| 0 <= i < n implies items.take(n)[i] == relayed(items)[i] by {
            if i > 0 {
                assert(rest.take(n - 1)[i - 1] == relayed(rest)[i - 1]);
            }
        }
        assert(items.take(n) == relayed(items).take(n));
    } else {
        assert(items.take(0) == relayed(items).take(0));
        assert(items.take(0) == Seq::<Message>::empty());
    }
}

/// A read with room for `want` bytes hands over as many as the current chunk
/// has, and `want` of them where it has more; the rest of the chunk stays. With
/// no current chunk it is the next one that holds bytes that this is true of.
pub proof fn lemma_read_fills_what_it_can(state: ReaderState, want: nat, n: int)
    requires
        want > 0,
        state.buffered.len() == 0 ==> 0 <= n < state.queued.len() && state.queued[n] is Ok
            && state.queued[n]->Ok_0.len() > 0,
        state.buffered.len() == 0 ==> forall|i: int|
            0 <= i < n ==> (#[trigger] state.queued[i]) is Ok && state.queued[i]->Ok_0.len() == 0,
    ensures
        ({
            let outcome = read_outcome(state, want);
            let chunk = if state.buffered.len() > 0 {
                state.buffered
            } else {
                state.queued[n]->Ok_0
            };
            &&& outcome.result is Ok
            &&& chunk.len() <= want ==> outcome.result->Ok_0 == chunk
            &&& chunk.len() > want ==> outcome.result->Ok_0 == chunk.take(want as int)
            &&& outcome.after.buffered == chunk.skip(outcome.result->Ok_0.len() as int)
            &&& outcome.after.queued == if state.buffered.len() > 0 {
                state.queued
            } else {
                state.queued.skip(n + 1)
            }
        }),
    decreases state.queued.len(),
{
    if state.buffered.len() > 0 {
        assert(state.buffered.take(state.buffered.len() as int) == state.buffered);
    } else {
        let next = ReaderState {
            buffered: state.queued[0]->Ok_0,
            queued: state.queued.drop_first(),
        };
        if n > 0 {
            assert(state.queued[0] is Ok && state.queued[0]->Ok_0.len() == 0);
            assert forall|i: int| 0 <= i < n - 1 implies (#[trigger] next.queued[i]) is Ok
                && next.queued[i]->Ok_0.len() == 0 by {
                assert(state.queued[i + 1] is Ok && state.queued[i + 1]->Ok_0.len() == 0);
            }
            lemma_read_fills_what_it_can(next, want, n - 1);
            assert(next.queued.skip(n) == state.queued.skip(n + 1));
        } else {
            lemma_read_fills_what_it_can(next, want, 0);
            assert(next.queued == state.queued.skip(1));
        }
    }
}

/// A read that finds no bytes before the first failure reports that failure,
/// with its text, and takes it out; before the end of the stream it finds
/// nothing and leaves nothing.
pub proof fn lemma_read_meets_failure_or_end(state: ReaderState, want: nat, n: int)
    requires
        state.buffered.len() == 0,
        0 <= n <= state.queued.len(),
        forall|i: int|
            0 <= i < n ==> (#[trigger] state.queued[i]) is Ok && state.queued[i]->Ok_0.len() == 0,
    ensures
        ({
            let outcome = read_outcome(state, want);
            &&& n < state.queued.len() && state.queued[n] is Err ==> outcome.result
                == state.queued[n] && outcome.after.queued == state.queued.skip(n + 1)
                && outcome.after.buffered.len() == 0
            &&& n == state.queued.len() ==> outcome.result is Ok && outcome.result->Ok_0.len() == 0
                && outcome.after.queued.len() == 0 && outcome.after.buffered.len() == 0
        }),
    decreases state.queued.len(),
{
    if n > 0 {
        let next = ReaderState {
            buffered: state.queued[0]->Ok_0,
            queued: state.queued.drop_first(),
        };
        assert(state.queued[0] is Ok && state.queued[0]->Ok_0.len() == 0);
        assert forall|i: int| 0 <= i < n - 1 implies (#[trigger] next.queued[i]) is Ok
            && next.queued[i]->Ok_0.len() == 0 by {
            assert(state.queued[i + 1] is Ok && state.queued[i + 1]->Ok_0.len() == 0);
        }
        lemma_read_meets_failure_or_end(next, want, n - 1);
        if n < state.queued.len() {
            assert(next.queued.skip(n) == state.queued.skip(n + 1));
        }
    } else if state.queued.len() > 0 {
        assert(state.queued.drop_first() == state.queued.skip(1));
    }
}

/// A read without room hands over nothing and gives up the chunks before the
/// next failure, or before the end.
pub proof fn lemma_read_without_room(state: ReaderState, n: int)
    requires
        0 <= n <= state.queued.len(),
        forall|i: int| 0 <= i < n ==> (#[trigger] state.queued[i]) is Ok,
        n < state.queued.len() ==> state.queued[n] is Err,
    ensures
        ({
            let outcome = read_outcome(state, 0);
            &&& n < state.queued.len() ==> outcome.result == state.queued[n]
                && outcome.after.queued == state.queued.skip(n + 1)
            &&& n == state.queued.len() ==> outcome.result is Ok && outcome.result->Ok_0.len() == 0
                && outcome.after.queued.len() == 0
        }),
    decreases state.queued.len(),
{
    if n > 0 {
        let next = ReaderState {
            buffered: state.queued[0]->Ok_0,
            queued: state.queued.drop_first(),
        };
        assert(state.queued[0] is Ok);
        assert forall|i: int| 0 <= i < n - 1 implies (#[trigger] next.queued[i]) is Ok by {
            assert(state.queued[i + 1] is Ok);
        }
        lemma_read_without_room(next, n - 1);
        if n < state.queued.len() {
            assert(next.queued.skip(n) == state.queued.skip(n + 1));
        }
    } else if state.queued.len() > 0 {
        assert(state.queued.drop_first() == state.queued.skip(1));
    }
}

/// What reads hand over is what the first of them does and then what the others
/// do, and it never goes beyond the bytes of the current chunk and of those that
/// are queued.
pub proof fn lemma_reads_add_up(state: ReaderState, want: nat, wants: Seq<nat>)
    ensures
        read_all(state, Seq::empty()).len() == 0,
        read_outcome(state, want).result is Ok ==> read_all(state, seq![want] + wants)
            == read_outcome(state, want).result->Ok_0 + read_all(
            read_outcome(state, want).after,
            wants,
        ),
        read_outcome(state, want).result is Err ==> read_all(state, seq![want] + wants).len() == 0,
        state.unread().len() == state.buffered.len() + carried(state.queued).len(),
        state.buffered.is_prefix_of(state.unread()),
        state.unread().skip(state.buffered.len() as int) == carried(state.queued),
{
    assert((seq![want] + wants).drop_first() == wants);
    assert(state.buffered == state.unread().take(state.buffered.len() as int));
}

} // verus!
