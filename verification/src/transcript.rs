//! What holds of whole exchanges, whatever events come in.

use crate::command::INSTREAM;
use crate::exchange::{command_start, next, scan_start, ActionView, EventView, Kind, Phase, State};
use crate::frame::{
    be32, fitting_data_is_one_frame, framed, framed_is_no_terminator, frames, frames_concat,
    frames_read_back, pieces, pieces_rejoin, terminator, unframed, MAX_CHUNK_SIZE,
};
use vstd::prelude::*;
use vstd::seq_lib::lemma_flatten_concat;

verus! {

/// The actions that an exchange asks for as `events` come in, in their order.
pub open spec fn run<E>(s: State, events: Seq<EventView<E>>) -> Seq<ActionView<E>>
    decreases events.len(),
{
    if events.len() == 0 {
        Seq::empty()
    } else {
        let step = next(s, events.first());
        let later = run(step.state, events.drop_first());
        match step.action {
            Some(action) => seq![action] + later,
            None => later,
        }
    }
}

/// The action that writes the terminator.
pub open spec fn is_terminator<E>(action: ActionView<E>) -> bool {
    action == ActionView::<E>::Write(terminator())
}

/// Among `actions` is one that writes the terminator.
pub open spec fn closed<E>(actions: Seq<ActionView<E>>) -> bool {
    exists|i: int| 0 <= i < actions.len() && is_terminator(#[trigger] actions[i])
}

/// The bytes that an action puts on the stream.
pub open spec fn bytes_of<E>(action: ActionView<E>) -> Seq<u8> {
    match action {
        ActionView::Write(bytes) => bytes,
        _ => Seq::empty(),
    }
}

/// All bytes that `actions` put on the stream, in their order.
pub open spec fn written<E>(actions: Seq<ActionView<E>>) -> Seq<u8>
    decreases actions.len(),
{
    if actions.len() == 0 {
        Seq::empty()
    } else {
        bytes_of(actions.first()) + written(actions.drop_first())
    }
}

/// The input that an exchange in state `s` takes from `e`: the data of a
/// read or of a chunk that it waited for, and nothing else.
pub open spec fn input_of<E>(s: State, e: EventView<E>) -> Seq<u8> {
    match e {
        EventView::Input(data) => if s.phase is Input && s.kind is Reader {
            data
        } else {
            Seq::empty()
        },
        EventView::Chunk(data) => if s.phase is Input && s.kind is Producer {
            data
        } else {
            Seq::empty()
        },
        _ => Seq::empty(),
    }
}

/// All input that an exchange takes as `events` come in, in its order.
pub open spec fn taken<E>(s: State, events: Seq<EventView<E>>) -> Seq<u8>
    decreases events.len(),
{
    if events.len() == 0 {
        Seq::empty()
    } else {
        input_of(s, events.first()) + taken(next(s, events.first()).state, events.drop_first())
    }
}

/// The payloads into which an exchange cuts its input as `events` come in.
pub open spec fn cut<E>(s: State, events: Seq<EventView<E>>) -> Seq<Seq<u8>>
    decreases events.len(),
{
    if events.len() == 0 {
        Seq::empty()
    } else {
        pieces(input_of(s, events.first()), s.limit) + cut(
            next(s, events.first()).state,
            events.drop_first(),
        )
    }
}

/// A state that an exchange can be in: it cuts to a chunk size that is not
/// zero, and a command takes no input.
pub open spec fn coherent(s: State) -> bool {
    &&& s.limit >= 1
    &&& s.kind is Command ==> !(s.phase is Input || s.phase is Frames || s.phase is Terminator)
}

/// `e` is what can come of doing `action`: a write or a flush is done or
/// fails; a read gives no more bytes than were asked for, or fails; the
/// producer hands over a chunk, has no more, or fails; the response arrives,
/// or reading it fails. Nothing comes of an outcome.
pub open spec fn answers<E>(action: ActionView<E>, e: EventView<E>) -> bool {
    match action {
        ActionView::Write(_) => e is Ready || e is Failed,
        ActionView::Flush => e is Ready || e is Failed,
        ActionView::Read(most) => e is Failed || (e matches EventView::Input(data) && data.len()
            <= most),
        ActionView::Next => e is Chunk || e is End || e is Failed,
        ActionView::ReadResponse => e is Response || e is Failed,
        ActionView::Finish(_) => false,
    }
}

/// What comes in while a scan reads `reads` one after the other and each
/// is written without failure.
pub open spec fn reading<E>(reads: Seq<Seq<u8>>) -> Seq<EventView<E>>
    decreases reads.len(),
{
    if reads.len() == 0 {
        Seq::empty()
    } else {
        seq![EventView::Input(reads.first()), EventView::Ready] + reading(reads.drop_first())
    }
}

/// What a scan asks for while it reads `reads`: to write the frames of each
/// read, and to read again.
pub open spec fn framing_reads<E>(reads: Seq<Seq<u8>>, limit: nat) -> Seq<ActionView<E>>
    decreases reads.len(),
{
    if reads.len() == 0 {
        Seq::empty()
    } else {
        seq![ActionView::Write(framed(reads.first(), limit)), ActionView::Read(limit)]
            + framing_reads(reads.drop_first(), limit)
    }
}

/// What comes in while a producer hands over `chunks` one after the other
/// and each is written without failure. Nothing is written of an empty
/// chunk.
pub open spec fn handing<E>(chunks: Seq<Seq<u8>>) -> Seq<EventView<E>>
    decreases chunks.len(),
{
    if chunks.len() == 0 {
        Seq::empty()
    } else if chunks.first().len() == 0 {
        seq![EventView::Chunk(chunks.first())] + handing(chunks.drop_first())
    } else {
        seq![EventView::Chunk(chunks.first()), EventView::Ready] + handing(chunks.drop_first())
    }
}

/// What a scan asks for while a producer hands over `chunks`: to write the
/// frames of each chunk that is not empty, and to take the next.
pub open spec fn framing_chunks<E>(chunks: Seq<Seq<u8>>, limit: nat) -> Seq<ActionView<E>>
    decreases chunks.len(),
{
    if chunks.len() == 0 {
        Seq::empty()
    } else if chunks.first().len() == 0 {
        seq![ActionView::Next] + framing_chunks(chunks.drop_first(), limit)
    } else {
        seq![ActionView::Write(framed(chunks.first(), limit)), ActionView::Next] + framing_chunks(
            chunks.drop_first(),
            limit,
        )
    }
}

/// What a command asks for in the `place`-th place, where all goes well:
/// to write its token, to flush, to read the response, to hand it out.
pub open spec fn command_asks<E>(token: Seq<u8>, place: int, action: ActionView<E>) -> bool {
    ||| place == 0 && action == ActionView::<E>::Write(token)
    ||| place == 1 && action is Flush
    ||| place == 2 && action is ReadResponse
    ||| place == 3 && action matches ActionView::Finish(Ok(_))
}

/// A state of a scan in which the terminator has not been written.
spec fn scanning(s: State) -> bool {
    &&& !(s.kind is Command)
    &&& s.limit >= 1
    &&& s.token == INSTREAM@
    &&& (s.phase is Start || s.phase is Token || s.phase is Input || s.phase is Frames)
}

/// What a scan writes before its first frame, seen from state `s`.
spec fn lead(s: State) -> Seq<u8> {
    if s.phase is Start {
        s.token
    } else {
        Seq::empty()
    }
}

/// How many actions a command has asked for when it is in `phase`.
spec fn command_place(phase: Phase) -> int {
    match phase {
        Phase::Start => 0,
        Phase::Token => 1,
        Phase::Flush => 2,
        Phase::Response => 3,
        _ => 4,
    }
}

/// An exchange that is over asks for nothing more.
proof fn finished_is_silent<E>(s: State, events: Seq<EventView<E>>)
    requires
        s.phase is Finished,
    ensures
        run(s, events).len() == 0,
    decreases events.len(),
{
    if events.len() > 0 {
        finished_is_silent(s, events.drop_first());
    }
}

/// Once the terminator is being written, nothing more is written.
proof fn nothing_written_behind<E>(s: State, events: Seq<EventView<E>>)
    requires
        s.phase is Terminator || s.phase is Flush || s.phase is Response || s.phase is Finished,
    ensures
        forall|j: int| 0 <= j < run(s, events).len() ==> !(#[trigger] run(s, events)[j] is Write),
    decreases events.len(),
{
    if events.len() > 0 {
        let step = next(s, events.first());
        nothing_written_behind(step.state, events.drop_first());
    }
}

/// Once the terminator is being written, no input is taken.
proof fn settled_takes_nothing<E>(s: State, events: Seq<EventView<E>>)
    requires
        s.phase is Terminator || s.phase is Flush || s.phase is Response || s.phase is Finished,
    ensures
        cut(s, events) == Seq::<Seq<u8>>::empty(),
        taken(s, events) == Seq::<u8>::empty(),
    decreases events.len(),
{
    if events.len() > 0 {
        settled_takes_nothing(next(s, events.first()).state, events.drop_first());
        assert(pieces(Seq::<u8>::empty(), s.limit) =~= Seq::<Seq<u8>>::empty());
        assert(cut(s, events) =~= Seq::<Seq<u8>>::empty());
        assert(taken(s, events) =~= Seq::<u8>::empty());
    }
}

/// What is written by a first action and those behind it.
proof fn written_unfolds<E>(first: ActionView<E>, later: Seq<ActionView<E>>)
    ensures
        written(seq![first] + later) == bytes_of(first) + written(later),
{
    let all = seq![first] + later;
    assert(all.first() == first);
    assert(all.drop_first() =~= later);
}

/// Actions that write nothing put no bytes on the stream.
proof fn quiet_writes_nothing<E>(actions: Seq<ActionView<E>>)
    requires
        forall|j: int| 0 <= j < actions.len() ==> !(#[trigger] actions[j] is Write),
    ensures
        written(actions) == Seq::<u8>::empty(),
    decreases actions.len(),
{
    if actions.len() > 0 {
        let later = actions.drop_first();
        assert forall|j: int| 0 <= j < later.len() implies !(#[trigger] later[j] is Write) by {
            assert(later[j] == actions[j + 1]);
        }
        quiet_writes_nothing(later);
        assert(!(actions[0] is Write));
        assert(written(actions) =~= Seq::<u8>::empty());
    }
}

/// The only write of a scan that is a terminator is the one that closes it.
proof fn terminator_closes<E>(s: State, e: EventView<E>)
    requires
        scanning(s),
        next(s, e).action matches Some(action) && is_terminator(action),
    ensures
        next(s, e).state.phase is Terminator,
        input_of(s, e).len() == 0,
{
    let data = input_of(s, e);
    if data.len() > 0 {
        framed_is_no_terminator(data, s.limit);
    }
}

/// The terminator law, from any state of a scan in which the terminator has
/// not been written.
proof fn terminator_once_from<E>(s: State, events: Seq<EventView<E>>)
    requires
        scanning(s),
    ensures
        forall|i: int, j: int|
            0 <= i < j < run(s, events).len() && is_terminator(#[trigger] run(s, events)[i]) ==> !(
            #[trigger] run(s, events)[j] is Write),
        forall|j: int|
            0 <= j < run(s, events).len() && (#[trigger] run(s, events)[j] is ReadResponse
                || run(s, events)[j] matches ActionView::Finish(Ok(_))) ==> exists|i: int|
                0 <= i < j && is_terminator(#[trigger] run(s, events)[i]),
    decreases events.len(),
{
    let acts = run(s, events);
    if events.len() > 0 {
        let step = next(s, events.first());
        let rest = events.drop_first();
        let later = run(step.state, rest);
        match step.action {
            None => {
                terminator_once_from(s, rest);
            },
            Some(first) => {
                assert(acts == seq![first] + later);
                assert(!(first is ReadResponse));
                assert(!(first matches ActionView::Finish(Ok(_))));
                if is_terminator(first) {
                    terminator_closes(s, events.first());
                    nothing_written_behind(step.state, rest);
                    assert forall|i: int, j: int|
                        0 <= i < j < acts.len() && is_terminator(#[trigger] acts[i]) implies !(
                    #[trigger] acts[j] is Write) by {
                        assert(acts[j] == later[j - 1]);
                    }
                    assert forall|j: int|
                        0 <= j < acts.len() && (#[trigger] acts[j] is ReadResponse
                            || acts[j] matches ActionView::Finish(Ok(_))) implies exists|i: int|
                        0 <= i < j && is_terminator(#[trigger] acts[i]) by {
                        assert(is_terminator(acts[0]));
                    }
                } else if step.state.phase is Finished {
                    finished_is_silent(step.state, rest);
                } else {
                    terminator_once_from(step.state, rest);
                    assert forall|i: int, j: int|
                        0 <= i < j < acts.len() && is_terminator(#[trigger] acts[i]) implies !(
                    #[trigger] acts[j] is Write) by {
                        assert(acts[i] == later[i - 1]);
                        assert(acts[j] == later[j - 1]);
                    }
                    assert forall|j: int|
                        0 <= j < acts.len() && (#[trigger] acts[j] is ReadResponse
                            || acts[j] matches ActionView::Finish(Ok(_))) implies exists|i: int|
                        0 <= i < j && is_terminator(#[trigger] acts[i]) by {
                        assert(acts[j] == later[j - 1]);
                        let k = choose|k: int| 0 <= k < j - 1 && is_terminator(#[trigger] later[k]);
                        assert(acts[k + 1] == later[k]);
                        assert(is_terminator(acts[k + 1]));
                    }
                }
            },
        }
    }
}

/// The transcript of a scan from any state in which the terminator has not
/// been written: once it has been, the stream holds what was still to lead,
/// the frames of all input taken, and the terminator.
proof fn transcript_from<E>(s: State, events: Seq<EventView<E>>)
    requires
        scanning(s),
        closed(run(s, events)),
    ensures
        written(run(s, events)) == lead(s) + frames(cut(s, events)) + terminator(),
    decreases events.len(),
{
    let acts = run(s, events);
    if events.len() > 0 {
        let e = events.first();
        let step = next(s, e);
        let rest = events.drop_first();
        let later = run(step.state, rest);
        let data = input_of(s, e);
        let tail = cut(step.state, rest);
        assert(cut(s, events) == pieces(data, s.limit) + tail);
        match step.action {
            None => {
                assert(pieces(data, s.limit) =~= Seq::<Seq<u8>>::empty());
                assert(cut(s, events) =~= tail);
                transcript_from(s, rest);
            },
            Some(first) => {
                written_unfolds(first, later);
                if is_terminator(first) {
                    terminator_closes(s, e);
                    nothing_written_behind(step.state, rest);
                    quiet_writes_nothing(later);
                    settled_takes_nothing(step.state, rest);
                    assert(cut(s, events) =~= Seq::<Seq<u8>>::empty());
                    assert(written(acts) =~= lead(s) + frames(cut(s, events)) + terminator());
                } else {
                    let k = choose|k: int| 0 <= k < acts.len() && is_terminator(#[trigger] acts[k]);
                    assert(k > 0);
                    assert(acts[k] == later[k - 1]);
                    assert(closed(later));
                    if step.state.phase is Finished {
                        finished_is_silent(step.state, rest);
                    } else {
                        transcript_from(step.state, rest);
                        frames_concat(pieces(data, s.limit), tail);
                        assert(bytes_of(first) + lead(step.state) =~= lead(s) + frames(
                            pieces(data, s.limit),
                        ));
                        assert(written(acts) =~= lead(s) + frames(cut(s, events)) + terminator());
                    }
                }
            },
        }
    }
}

/// The order of a command, from any state that a command can be in.
proof fn command_in_order_from<E>(s: State, events: Seq<EventView<E>>)
    requires
        s.kind is Command,
        s.phase is Start || s.phase is Token || s.phase is Flush || s.phase is Response
            || s.phase is Finished,
    ensures
        run(s, events).len() <= 4 - command_place(s.phase),
        forall|j: int|
            0 <= j < run(s, events).len() ==> command_asks(
                s.token,
                command_place(s.phase) + j,
                #[trigger] run(s, events)[j],
            ) || (run(s, events)[j] matches ActionView::Finish(Err(_)) && j == run(s, events).len()
                - 1),
    decreases events.len(),
{
    let acts = run(s, events);
    if events.len() > 0 {
        let step = next(s, events.first());
        let rest = events.drop_first();
        let later = run(step.state, rest);
        match step.action {
            None => {
                command_in_order_from(s, rest);
            },
            Some(first) => {
                assert(acts == seq![first] + later);
                command_in_order_from(step.state, rest);
                if step.state.phase is Finished {
                    finished_is_silent(step.state, rest);
                }
                assert forall|j: int| 0 <= j < acts.len() implies command_asks(
                    s.token,
                    command_place(s.phase) + j,
                    #[trigger] acts[j],
                ) || (acts[j] matches ActionView::Finish(Err(_)) && j == acts.len() - 1) by {
                    if j > 0 {
                        assert(acts[j] == later[j - 1]);
                    }
                }
            },
        }
    }
}

/// In a scan the terminator is written once and no more, nothing is written
/// behind it, and the response is read, and a response handed out, only
/// behind it: whatever events come in, and in whatever order.
pub proof fn terminator_once<E>(kind: Kind, limit: nat, events: Seq<EventView<E>>)
    requires
        !(kind is Command),
        limit >= 1,
    ensures
        ({
            let acts = run(scan_start(kind, limit), events);
            &&& forall|i: int, j: int|
                0 <= i < acts.len() && 0 <= j < acts.len() && is_terminator(#[trigger] acts[i])
                    && is_terminator(#[trigger] acts[j]) ==> i == j
            &&& forall|i: int, j: int|
                0 <= i < j < acts.len() && is_terminator(#[trigger] acts[i]) ==> !(
                #[trigger] acts[j] is Write)
            &&& forall|j: int|
                0 <= j < acts.len() && (#[trigger] acts[j] is ReadResponse
                    || acts[j] matches ActionView::Finish(Ok(_))) ==> exists|i: int|
                    0 <= i < j && is_terminator(#[trigger] acts[i])
        }),
{
    terminator_once_from(scan_start(kind, limit), events);
}

/// The payloads that an exchange cuts hold at least one byte and at most
/// its chunk size each, and joined in their order they are its input.
pub proof fn cut_rejoins<E>(s: State, events: Seq<EventView<E>>)
    requires
        s.limit >= 1,
    ensures
        cut(s, events).flatten() == taken(s, events),
        forall|i: int|
            0 <= i < cut(s, events).len() ==> 1 <= #[trigger] cut(s, events)[i].len() <= s.limit,
    decreases events.len(),
{
    if events.len() == 0 {
        assert(cut(s, events).flatten() =~= taken(s, events));
    } else {
        let data = input_of(s, events.first());
        let head = pieces(data, s.limit);
        let after = next(s, events.first()).state;
        let tail = cut(after, events.drop_first());
        pieces_rejoin(data, s.limit);
        cut_rejoins(after, events.drop_first());
        lemma_flatten_concat(head, tail);
        assert forall|i: int| 0 <= i < cut(s, events).len() implies 1 <= #[trigger] cut(
            s,
            events,
        )[i].len() <= s.limit by {
            if i < head.len() {
                assert(cut(s, events)[i] == head[i]);
            } else {
                assert(cut(s, events)[i] == tail[i - head.len()]);
            }
        }
    }
}

/// What reaches the peer in a scan. Once the terminator has been written,
/// the stream holds the token that opens a stream of frames, then frames,
/// then the terminator, and nothing else; a reader of these frames recovers
/// payloads of at most the chunk size which, joined in their order, are the
/// input that the scan took, byte for byte.
pub proof fn scan_reaches_the_peer_whole<E>(kind: Kind, limit: nat, events: Seq<EventView<E>>)
    requires
        !(kind is Command),
        1 <= limit <= MAX_CHUNK_SIZE,
        closed(run(scan_start(kind, limit), events)),
    ensures
        ({
            let start = scan_start(kind, limit);
            let payloads = cut(start, events);
            &&& written(run(start, events)) == INSTREAM@ + frames(payloads) + terminator()
            &&& unframed(frames(payloads) + terminator()) == Some(payloads)
            &&& payloads.flatten() == taken(start, events)
            &&& forall|i: int|
                0 <= i < payloads.len() ==> 1 <= #[trigger] payloads[i].len() <= limit
        }),
{
    let start = scan_start(kind, limit);
    transcript_from(start, events);
    cut_rejoins(start, events);
    frames_read_back(cut(start, events));
}

/// Every exchange begins in a state that it can be in.
pub proof fn exchange_begins_coherent(token: Seq<u8>, kind: Kind, limit: nat)
    requires
        !(kind is Command),
        limit >= 1,
    ensures
        coherent(command_start(token)),
        coherent(scan_start(kind, limit)),
{
}

/// An exchange stays in states that it can be in, whatever comes in.
pub proof fn exchange_stays_coherent<E>(s: State, e: EventView<E>)
    requires
        coherent(s),
    ensures
        coherent(next(s, e).state),
{
}

/// An exchange is never left waiting by one who does what it asks for: to
/// whatever comes of the action that it asked for, it has an answer.
pub proof fn exchange_goes_on<E>(s: State, e: EventView<E>, then: EventView<E>)
    requires
        coherent(s),
        next(s, e).action matches Some(action) && answers(action, then),
    ensures
        next(next(s, e).state, then).action is Some,
{
}

/// What is read within the chunk size that a scan asked for is written as
/// one frame: the number of bytes read, then those bytes.
pub proof fn read_is_written_as_one_frame<E>(s: State, data: Seq<u8>)
    requires
        coherent(s),
        s.phase is Input,
        s.kind is Reader,
        1 <= data.len() <= s.limit,
    ensures
        next(s, EventView::<E>::Input(data)).action == Some(
            ActionView::<E>::Write(be32(data.len()) + data),
        ),
{
    fitting_data_is_one_frame(data, s.limit);
}

/// The run on a first event and those behind it.
proof fn run_unfolds<E>(s: State, e: EventView<E>, rest: Seq<EventView<E>>)
    ensures
        run(s, seq![e] + rest) == match next(s, e).action {
            Some(action) => seq![action] + run(next(s, e).state, rest),
            None => run(next(s, e).state, rest),
        },
{
    let all = seq![e] + rest;
    assert(all.first() == e);
    assert(all.drop_first() =~= rest);
}

/// A scan that waits for input reads on through `reads` and then waits for
/// input again.
proof fn reads_go_through<E>(s: State, reads: Seq<Seq<u8>>, rest: Seq<EventView<E>>)
    requires
        s.phase is Input,
        s.kind is Reader,
        forall|i: int| 0 <= i < reads.len() ==> #[trigger] reads[i].len() >= 1,
    ensures
        run(s, reading(reads) + rest) == framing_reads(reads, s.limit) + run(s, rest),
    decreases reads.len(),
{
    if reads.len() == 0 {
        assert(reading::<E>(reads) + rest =~= rest);
        assert(framing_reads::<E>(reads, s.limit) + run(s, rest) =~= run(s, rest));
    } else {
        let data = reads.first();
        let tail = reads.drop_first();
        let written = next(s, EventView::<E>::Input(data)).state;
        assert(data == reads[0]);
        assert forall|i: int| 0 <= i < tail.len() implies #[trigger] tail[i].len() >= 1 by {
            assert(tail[i] == reads[i + 1]);
        }
        let behind = seq![EventView::<E>::Ready] + (reading(tail) + rest);
        assert(reading(reads) + rest =~= seq![EventView::<E>::Input(data)] + behind);
        run_unfolds(s, EventView::<E>::Input(data), behind);
        run_unfolds(written, EventView::<E>::Ready, reading(tail) + rest);
        assert(next(written, EventView::<E>::Ready).state == s);
        reads_go_through(s, tail, rest);
        assert(run(s, reading(reads) + rest) =~= framing_reads(reads, s.limit) + run(s, rest));
    }
}

/// A scan that waits for a chunk goes on through `chunks` and then waits for
/// a chunk again.
proof fn chunks_go_through<E>(s: State, chunks: Seq<Seq<u8>>, rest: Seq<EventView<E>>)
    requires
        s.phase is Input,
        s.kind is Producer,
    ensures
        run(s, handing(chunks) + rest) == framing_chunks(chunks, s.limit) + run(s, rest),
    decreases chunks.len(),
{
    if chunks.len() == 0 {
        assert(handing::<E>(chunks) + rest =~= rest);
        assert(framing_chunks::<E>(chunks, s.limit) + run(s, rest) =~= run(s, rest));
    } else {
        let data = chunks.first();
        let tail = chunks.drop_first();
        chunks_go_through(s, tail, rest);
        if data.len() == 0 {
            assert(handing(chunks) + rest =~= seq![EventView::<E>::Chunk(data)] + (handing(tail)
                + rest));
            run_unfolds(s, EventView::<E>::Chunk(data), handing(tail) + rest);
            assert(next(s, EventView::<E>::Chunk(data)).state == s);
        } else {
            let written = next(s, EventView::<E>::Chunk(data)).state;
            let behind = seq![EventView::<E>::Ready] + (handing(tail) + rest);
            assert(handing(chunks) + rest =~= seq![EventView::<E>::Chunk(data)] + behind);
            run_unfolds(s, EventView::<E>::Chunk(data), behind);
            run_unfolds(written, EventView::<E>::Ready, handing(tail) + rest);
            assert(next(written, EventView::<E>::Ready).state == s);
        }
        assert(run(s, handing(chunks) + rest) =~= framing_chunks(chunks, s.limit) + run(s, rest));
    }
}

/// How an exchange ends once its last write is asked for: the write is done,
/// the stream is flushed, the response is read and handed out.
proof fn ending_goes_through<E>(s: State, response: Seq<u8>)
    requires
        s.phase is Token && s.kind is Command || s.phase is Terminator,
    ensures
        run(
            s,
            seq![EventView::<E>::Ready, EventView::<E>::Ready, EventView::<E>::Response(response)],
        ) == seq![
            ActionView::<E>::Flush,
            ActionView::<E>::ReadResponse,
            ActionView::<E>::Finish(Ok(response)),
        ],
{
    let flushing = next(s, EventView::<E>::Ready).state;
    let reading = next(flushing, EventView::<E>::Ready).state;
    let over = next(reading, EventView::<E>::Response(response)).state;
    let last = seq![EventView::<E>::Response(response)];
    let two = seq![EventView::<E>::Ready] + last;
    let three = seq![EventView::<E>::Ready] + two;
    assert(three =~= seq![
        EventView::<E>::Ready,
        EventView::<E>::Ready,
        EventView::<E>::Response(response),
    ]);
    run_unfolds(s, EventView::<E>::Ready, two);
    run_unfolds(flushing, EventView::<E>::Ready, last);
    assert(last =~= seq![EventView::<E>::Response(response)] + Seq::<EventView<E>>::empty());
    run_unfolds(reading, EventView::<E>::Response(response), Seq::<EventView<E>>::empty());
    assert(run(over, Seq::<EventView<E>>::empty()) =~= Seq::<ActionView<E>>::empty());
    assert(run(s, three) =~= seq![
        ActionView::<E>::Flush,
        ActionView::<E>::ReadResponse,
        ActionView::<E>::Finish(Ok(response)),
    ]);
}

/// A command that meets no failure goes through: the stream being open, its
/// token is written; that done, the stream is flushed; that done, the
/// response is read; and the response that came is its outcome.
pub proof fn command_goes_through<E>(token: Seq<u8>, response: Seq<u8>)
    ensures
        run(
            command_start(token),
            seq![
                EventView::<E>::Ready,
                EventView::<E>::Ready,
                EventView::<E>::Ready,
                EventView::<E>::Response(response),
            ],
        ) == seq![
            ActionView::<E>::Write(token),
            ActionView::<E>::Flush,
            ActionView::<E>::ReadResponse,
            ActionView::<E>::Finish(Ok(response)),
        ],
{
    let start = command_start(token);
    let rest = seq![
        EventView::<E>::Ready,
        EventView::<E>::Ready,
        EventView::<E>::Response(response),
    ];
    assert(seq![EventView::<E>::Ready] + rest =~= seq![
        EventView::<E>::Ready,
        EventView::<E>::Ready,
        EventView::<E>::Ready,
        EventView::<E>::Response(response),
    ]);
    run_unfolds(start, EventView::<E>::Ready, rest);
    ending_goes_through::<E>(next(start, EventView::<E>::Ready).state, response);
    assert(seq![ActionView::<E>::Write(token)] + seq![
        ActionView::<E>::Flush,
        ActionView::<E>::ReadResponse,
        ActionView::<E>::Finish(Ok(response)),
    ] =~= seq![
        ActionView::<E>::Write(token),
        ActionView::<E>::Flush,
        ActionView::<E>::ReadResponse,
        ActionView::<E>::Finish(Ok(response)),
    ]);
}

/// A scan of input that is read, and that meets no failure, goes through.
/// The token is written; each read that gives bytes is written as frames and
/// followed by another read; the read that gives none is answered with the
/// terminator; the stream is flushed, the response read, and the response
/// that came is the outcome.
pub proof fn scan_goes_through<E>(limit: nat, reads: Seq<Seq<u8>>, response: Seq<u8>)
    requires
        limit >= 1,
        forall|i: int| 0 <= i < reads.len() ==> #[trigger] reads[i].len() >= 1,
    ensures
        run(
            scan_start(Kind::Reader, limit),
            seq![EventView::<E>::Ready, EventView::<E>::Ready] + reading(reads) + seq![
                EventView::<E>::Input(Seq::empty()),
                EventView::<E>::Ready,
                EventView::<E>::Ready,
                EventView::<E>::Response(response),
            ],
        ) == seq![ActionView::<E>::Write(INSTREAM@), ActionView::<E>::Read(limit)] + framing_reads(
            reads,
            limit,
        ) + seq![
            ActionView::<E>::Write(terminator()),
            ActionView::<E>::Flush,
            ActionView::<E>::ReadResponse,
            ActionView::<E>::Finish(Ok(response)),
        ],
{
    let start = scan_start(Kind::Reader, limit);
    let opened = next(start, EventView::<E>::Ready).state;
    let waiting = next(opened, EventView::<E>::Ready).state;
    let ending = seq![
        EventView::<E>::Ready,
        EventView::<E>::Ready,
        EventView::<E>::Response(response),
    ];
    let closing = seq![EventView::<E>::Input(Seq::empty())] + ending;
    let events = seq![EventView::<E>::Ready, EventView::<E>::Ready] + reading(reads) + seq![
        EventView::<E>::Input(Seq::empty()),
        EventView::<E>::Ready,
        EventView::<E>::Ready,
        EventView::<E>::Response(response),
    ];
    assert(events =~= seq![EventView::<E>::Ready] + (seq![EventView::<E>::Ready] + (reading(reads)
        + closing)));
    run_unfolds(start, EventView::<E>::Ready, seq![EventView::<E>::Ready] + (reading(reads)
        + closing));
    run_unfolds(opened, EventView::<E>::Ready, reading(reads) + closing);
    reads_go_through(waiting, reads, closing);
    run_unfolds(waiting, EventView::<E>::Input(Seq::empty()), ending);
    ending_goes_through::<E>(next(waiting, EventView::<E>::Input(Seq::empty())).state, response);
    assert(run(start, events) =~= seq![
        ActionView::<E>::Write(INSTREAM@),
        ActionView::<E>::Read(limit),
    ] + framing_reads(reads, limit) + seq![
        ActionView::<E>::Write(terminator()),
        ActionView::<E>::Flush,
        ActionView::<E>::ReadResponse,
        ActionView::<E>::Finish(Ok(response)),
    ]);
}

/// A scan of the chunks of a producer, and that meets no failure, goes
/// through. The token is written; each chunk that holds bytes is written as
/// frames; after each chunk the next is taken; when the producer has no
/// more, the terminator is written, the stream is flushed, the response
/// read, and the response that came is the outcome.
pub proof fn scan_stream_goes_through<E>(limit: nat, chunks: Seq<Seq<u8>>, response: Seq<u8>)
    requires
        limit >= 1,
    ensures
        run(
            scan_start(Kind::Producer, limit),
            seq![EventView::<E>::Ready, EventView::<E>::Ready] + handing(chunks) + seq![
                EventView::<E>::End,
                EventView::<E>::Ready,
                EventView::<E>::Ready,
                EventView::<E>::Response(response),
            ],
        ) == seq![ActionView::<E>::Write(INSTREAM@), ActionView::<E>::Next] + framing_chunks(
            chunks,
            limit,
        ) + seq![
            ActionView::<E>::Write(terminator()),
            ActionView::<E>::Flush,
            ActionView::<E>::ReadResponse,
            ActionView::<E>::Finish(Ok(response)),
        ],
{
    let start = scan_start(Kind::Producer, limit);
    let opened = next(start, EventView::<E>::Ready).state;
    let waiting = next(opened, EventView::<E>::Ready).state;
    let ending = seq![
        EventView::<E>::Ready,
        EventView::<E>::Ready,
        EventView::<E>::Response(response),
    ];
    let closing = seq![EventView::<E>::End] + ending;
    let events = seq![EventView::<E>::Ready, EventView::<E>::Ready] + handing(chunks) + seq![
        EventView::<E>::End,
        EventView::<E>::Ready,
        EventView::<E>::Ready,
        EventView::<E>::Response(response),
    ];
    assert(events =~= seq![EventView::<E>::Ready] + (seq![EventView::<E>::Ready] + (handing(
        chunks,
    ) + closing)));
    run_unfolds(start, EventView::<E>::Ready, seq![EventView::<E>::Ready] + (handing(chunks)
        + closing));
    run_unfolds(opened, EventView::<E>::Ready, handing(chunks) + closing);
    chunks_go_through(waiting, chunks, closing);
    run_unfolds(waiting, EventView::<E>::End, ending);
    ending_goes_through::<E>(next(waiting, EventView::<E>::End).state, response);
    assert(run(start, events) =~= seq![
        ActionView::<E>::Write(INSTREAM@),
        ActionView::<E>::Next,
    ] + framing_chunks(chunks, limit) + seq![
        ActionView::<E>::Write(terminator()),
        ActionView::<E>::Flush,
        ActionView::<E>::ReadResponse,
        ActionView::<E>::Finish(Ok(response)),
    ]);
}

/// A failure ends an exchange at once. The failure is its outcome, and
/// nothing more is asked for: no frame, no terminator, no read of a response,
/// whatever comes in behind it.
pub proof fn failure_ends_the_exchange<E>(s: State, failure: E, events: Seq<EventView<E>>)
    requires
        !(s.phase is Finished),
    ensures
        run(s, seq![EventView::Failed(failure)] + events) == seq![
            ActionView::Finish(Err(failure)),
        ],
{
    let all = seq![EventView::Failed(failure)] + events;
    assert(all.first() == EventView::Failed(failure));
    assert(all.drop_first() =~= events);
    finished_is_silent(next(s, all.first()).state, events);
    assert(run(s, all) =~= seq![ActionView::Finish(Err(failure))]);
}

/// An exchange hands out one outcome and no more, and asks for nothing
/// behind it.
pub proof fn outcome_is_last<E>(s: State, events: Seq<EventView<E>>)
    ensures
        forall|j: int|
            0 <= j < run(s, events).len() && #[trigger] run(s, events)[j] is Finish ==> j == run(
                s,
                events,
            ).len() - 1,
    decreases events.len(),
{
    let acts = run(s, events);
    if events.len() > 0 {
        let step = next(s, events.first());
        let rest = events.drop_first();
        let later = run(step.state, rest);
        outcome_is_last(step.state, rest);
        match step.action {
            None => {},
            Some(first) => {
                assert(acts == seq![first] + later);
                if first is Finish {
                    finished_is_silent(step.state, rest);
                }
                assert forall|j: int| 0 <= j < acts.len() && #[trigger] acts[j] is Finish implies j
                    == acts.len() - 1 by {
                    if j > 0 {
                        assert(acts[j] == later[j - 1]);
                    }
                }
            },
        }
    }
}

/// A command goes in one order. Its token is written, the stream is
/// flushed, the response is read and handed out: each of these once, in
/// this order, and nothing else is asked for, but that a failure ends the
/// exchange wherever it comes.
pub proof fn command_runs_in_order<E>(token: Seq<u8>, events: Seq<EventView<E>>)
    ensures
        ({
            let acts = run(command_start(token), events);
            &&& acts.len() <= 4
            &&& forall|j: int|
                0 <= j < acts.len() ==> command_asks(token, j, #[trigger] acts[j]) || (
                acts[j] matches ActionView::Finish(Err(_)) && j == acts.len() - 1)
        }),
{
    command_in_order_from(command_start(token), events);
}

} // verus!
