//! Answers as streams of frames, for both protocols.

use crate::json::{compact_text, is_one_line, JsonTree};
use crate::proxy::anthropic;
use crate::proxy::anthropic::{event_view, events_view, EventModel};
use crate::proxy::backend::{BackendError, BackendEvent, BackendSuccess};
use crate::proxy::openai;
use crate::proxy::runtime::RuntimeUsage;
use crate::proxy::{EnvelopeModel, ProtocolKind, ProxyExecutionEnvelope};
use crate::utils::is_plain_id;
use vstd::prelude::*;

verus! {

/// A frame of a stream: the name of its event, and its data.
pub type StreamFrame = (Option<&'static str>, String);

/// Whether the data of every frame are one line.
pub open spec fn are_one_line(frames: Seq<StreamFrame>) -> bool {
    forall|i: int| 0 <= i < frames.len() ==> is_one_line((#[trigger] frames[i]).1@)
}

/// Whether a text is the identifier of an answer in a protocol.
pub open spec fn is_response_id(protocol: ProtocolKind, response_id: Seq<char>) -> bool {
    match protocol {
        ProtocolKind::OpenAi => exists|id: Seq<char>|
            is_plain_id(id) && response_id == #[trigger] openai::completion_id(id),
        ProtocolKind::Anthropic => exists|id: Seq<char>|
            is_plain_id(id) && response_id == #[trigger] anthropic::message_id(id),
    }
}

/// An answer in a protocol, with a fresh identifier, made now.
pub fn new_envelope(
    protocol: ProtocolKind,
    model_alias: &str,
    text: &str,
    usage: RuntimeUsage,
) -> (r: ProxyExecutionEnvelope)
    ensures
        is_response_id(protocol, r@.response_id),
        r@.model_alias == model_alias@,
        r@.text == text@,
        r@.usage == usage,
{
    match protocol {
        ProtocolKind::OpenAi => openai::new_execution_envelope(model_alias, text, usage),
        ProtocolKind::Anthropic => anthropic::new_execution_envelope(model_alias, text, usage),
    }
}

/// A stream on its way: its protocol, and the answer as far as it was sent.
#[derive(Debug)]
pub struct AnswerStream {
    pub protocol: ProtocolKind,
    pub envelope: ProxyExecutionEnvelope,
}

/// The frame that brings a piece of text.
pub open spec fn text_frame(
    protocol: ProtocolKind,
    envelope: EnvelopeModel,
    text: Seq<char>,
) -> EventModel {
    match protocol {
        ProtocolKind::OpenAi => (None, openai::text_chunk(envelope, text)),
        ProtocolKind::Anthropic => anthropic::text_event(text),
    }
}

/// The frames of a piece of text: none where it is empty.
pub open spec fn text_frames(
    protocol: ProtocolKind,
    envelope: EnvelopeModel,
    text: Seq<char>,
) -> Seq<EventModel> {
    if text.len() == 0 {
        Seq::empty()
    } else {
        seq![text_frame(protocol, envelope, text)]
    }
}

/// The frames that open a stream, before any text.
pub open spec fn head_frames(protocol: ProtocolKind, envelope: EnvelopeModel) -> Seq<EventModel> {
    match protocol {
        ProtocolKind::OpenAi => seq![(None, openai::role_chunk(envelope))],
        ProtocolKind::Anthropic => anthropic::start_events(envelope),
    }
}

/// The frames that close a stream.
pub open spec fn tail_frames(protocol: ProtocolKind, envelope: EnvelopeModel) -> Seq<EventModel> {
    match protocol {
        ProtocolKind::OpenAi => seq![
            (None, openai::stop_chunk(envelope)),
            (None, "[DONE]"@),
        ],
        ProtocolKind::Anthropic => anthropic::stop_events(envelope),
    }
}

/// An answer with the text and the usage of a finished turn.
pub open spec fn completed_with(
    envelope: EnvelopeModel,
    text: Seq<char>,
    usage: RuntimeUsage,
) -> EnvelopeModel {
    EnvelopeModel { text, usage, ..envelope }
}

/// An answer with more text.
pub open spec fn continued_with(envelope: EnvelopeModel, text: Seq<char>) -> EnvelopeModel {
    EnvelopeModel { text: envelope.text + text, ..envelope }
}

/// The answer with which a stream begins: the first text, or the whole where it
/// came at once.
pub open spec fn first_envelope(
    envelope: EnvelopeModel,
    first_delta: Seq<char>,
    completion: Option<BackendSuccess>,
) -> EnvelopeModel {
    match completion {
        Some(success) => completed_with(envelope, success.text@, success.usage),
        None => continued_with(envelope, first_delta),
    }
}

/// What a turn brings to a stream after its beginning.
pub enum StreamNews {
    Delta(Seq<char>),
    Completed { text: Seq<char>, usage: RuntimeUsage },
    Broken,
}

/// What an event is to a stream: a failure and the end are the same.
pub open spec fn news_of(event: Option<Result<BackendEvent, BackendError>>) -> StreamNews {
    match event {
        Some(Ok(BackendEvent::TextDelta(delta))) => StreamNews::Delta(delta@),
        Some(Ok(BackendEvent::Completed(success))) => StreamNews::Completed {
            text: success.text@,
            usage: success.usage,
        },
        _ => StreamNews::Broken,
    }
}

/// The answer after some news.
pub open spec fn envelope_after(envelope: EnvelopeModel, news: StreamNews) -> EnvelopeModel {
    match news {
        StreamNews::Delta(delta) => continued_with(envelope, delta),
        StreamNews::Completed { text, usage } => completed_with(envelope, text, usage),
        StreamNews::Broken => envelope,
    }
}

/// The frames of some news: a piece of text, or the end of the stream.
pub open spec fn frames_of(
    protocol: ProtocolKind,
    envelope: EnvelopeModel,
    news: StreamNews,
) -> Seq<EventModel> {
    match news {
        StreamNews::Delta(delta) => text_frames(
            protocol,
            envelope_after(envelope, news),
            delta,
        ),
        _ => tail_frames(protocol, envelope_after(envelope, news)),
    }
}

impl AnswerStream {
    /// A stream for an answer of which nothing was sent.
    pub fn new(
        protocol: ProtocolKind,
        envelope: ProxyExecutionEnvelope,
        first_delta: &str,
        completion: &Option<BackendSuccess>,
    ) -> (r: AnswerStream)
        ensures
            r.protocol == protocol,
            r.envelope@ == first_envelope(envelope@, first_delta@, *completion),
    {
        let mut envelope = envelope;
        match completion {
            Some(success) => {
                envelope.text = success.text.clone();
                envelope.usage = success.usage;
            },
            None => {
                envelope.text.append(first_delta);
            },
        }
        AnswerStream { protocol, envelope }
    }

    /// Appends the frame of a piece of text, unless it is empty.
    fn push_text(&self, frames: &mut Vec<StreamFrame>, text: &str)
        ensures
            are_one_line(old(frames)@) ==> are_one_line(final(frames)@),
            events_view(final(frames)@) == events_view(old(frames)@) + text_frames(
                self.protocol,
                self.envelope@,
                text@,
            ),
    {
        let ghost before = events_view(frames@);
        if !text.is_empty() {
            let frame = match self.protocol {
                ProtocolKind::OpenAi => (None, openai::stream_text_chunk(&self.envelope, text)),
                ProtocolKind::Anthropic => anthropic::stream_text_event(text),
            };
            let ghost shown = event_view(frame);
            frames.push(frame);
            assert(events_view(frames@) =~= before.push(shown));
        }
        assert(events_view(frames@) =~= before + text_frames(self.protocol, self.envelope@, text@));
    }

    /// The frames that close the stream.
    fn close(&self) -> (r: Vec<StreamFrame>)
        ensures
            are_one_line(r@),
            events_view(r@) == tail_frames(self.protocol, self.envelope@),
    {
        match self.protocol {
            ProtocolKind::OpenAi => {
                let mut frames: Vec<StreamFrame> = Vec::new();
                frames.push((None, openai::stream_stop_chunk(&self.envelope)));
                proof {
                    reveal_strlit("[DONE]");
                }
                frames.push((None, "[DONE]".to_owned()));
                assert(events_view(frames@) =~= tail_frames(self.protocol, self.envelope@));
                frames
            },
            ProtocolKind::Anthropic => anthropic::stream_stop_events(&self.envelope),
        }
    }

    /// The frames with which the stream begins. Where the whole answer came at
    /// once, they close it too.
    pub fn open(&self, first_delta: &str, completed: bool) -> (r: Vec<StreamFrame>)
        ensures
            are_one_line(r@),
            events_view(r@) == head_frames(self.protocol, self.envelope@) + text_frames(
                self.protocol,
                self.envelope@,
                first_delta@,
            ) + if completed {
                tail_frames(self.protocol, self.envelope@)
            } else {
                Seq::empty()
            },
    {
        let mut frames = match self.protocol {
            ProtocolKind::OpenAi => {
                let mut frames: Vec<StreamFrame> = Vec::new();
                frames.push((None, openai::stream_role_chunk(&self.envelope)));
                assert(events_view(frames@) =~= head_frames(self.protocol, self.envelope@));
                frames
            },
            ProtocolKind::Anthropic => anthropic::stream_start_events(&self.envelope),
        };
        self.push_text(&mut frames, first_delta);
        let ghost begun = events_view(frames@);
        if completed {
            let mut closing = self.close();
            let ghost ending = events_view(closing@);
            frames.append(&mut closing);
            assert(events_view(frames@) =~= begun + ending);
        } else {
            assert(events_view(frames@) =~= begun + Seq::empty());
        }
        frames
    }

    /// Takes in what the turn brought, or its end. The frames to be sent, and
    /// whether they are the last.
    pub fn on_event(&mut self, event: Option<Result<BackendEvent, BackendError>>) -> (r: (
        Vec<StreamFrame>,
        bool,
    ))
        ensures
            final(self).protocol == old(self).protocol,
            final(self).envelope@ == envelope_after(old(self).envelope@, news_of(event)),
            events_view(r.0@) == frames_of(
                old(self).protocol,
                old(self).envelope@,
                news_of(event),
            ),
            are_one_line(r.0@),
            r.1 == !(news_of(event) is Delta),
    {
        match event {
            Some(Ok(BackendEvent::TextDelta(delta))) => {
                let mut frames: Vec<StreamFrame> = Vec::new();
                self.envelope.text.append(delta.as_str());
                self.push_text(&mut frames, delta.as_str());
                assert(events_view(frames@) =~= text_frames(
                    self.protocol,
                    self.envelope@,
                    delta@,
                ));
                (frames, false)
            },
            Some(Ok(BackendEvent::Completed(success))) => {
                self.envelope.text = success.text;
                self.envelope.usage = success.usage;
                (self.close(), true)
            },
            _ => (self.close(), true),
        }
    }
}

/// The pieces of text one after the other.
pub open spec fn concatenated(deltas: Seq<Seq<char>>) -> Seq<char>
    decreases deltas.len(),
{
    if deltas.len() == 0 {
        Seq::empty()
    } else {
        concatenated(deltas.drop_last()) + deltas.last()
    }
}

/// An answer after some pieces of text.
pub open spec fn envelope_after_all(
    envelope: EnvelopeModel,
    deltas: Seq<Seq<char>>,
) -> EnvelopeModel
    decreases deltas.len(),
{
    if deltas.len() == 0 {
        envelope
    } else {
        envelope_after(
            envelope_after_all(envelope, deltas.drop_last()),
            StreamNews::Delta(deltas.last()),
        )
    }
}

/// The text of an answer is what was streamed, in order; its identifier, its time,
/// its alias and its usage stay.
pub proof fn law_streamed_text_adds_up(envelope: EnvelopeModel, deltas: Seq<Seq<char>>)
    ensures
        ({
            let after = envelope_after_all(envelope, deltas);
            &&& after.text == envelope.text + concatenated(deltas)
            &&& after.response_id == envelope.response_id
            &&& after.created == envelope.created
            &&& after.model_alias == envelope.model_alias
            &&& after.usage == envelope.usage
        }),
    decreases deltas.len(),
{
    if deltas.len() == 0 {
        assert(envelope.text + Seq::<char>::empty() =~= envelope.text);
    } else {
        law_streamed_text_adds_up(envelope, deltas.drop_last());
        assert(envelope.text + concatenated(deltas.drop_last()) + deltas.last() =~= envelope.text
            + concatenated(deltas));
    }
}

// ---------------------------------------------------------------------------
// What a stream is for
// ---------------------------------------------------------------------------
/// Whether a frame brings a piece of text, and nothing else, in a protocol: to an OpenAI client
/// as the content of the one choice, to an Anthropic client as the text of the block.
pub open spec fn brings_text(
    protocol: ProtocolKind,
    envelope: EnvelopeModel,
    frame: StreamFrame,
    text: Seq<char>,
) -> bool {
    match protocol {
        ProtocolKind::OpenAi => frame.0 is None && exists|delta: JsonTree|
            {
                &&& #[trigger] openai::is_chunk_of(frame.1@, envelope, delta, JsonTree::Null)
                &&& delta.text_member("content"@) == Some(text)
            },
        ProtocolKind::Anthropic => frame.0 is Some && frame.0->0@ == "content_block_delta"@
            && exists|document: JsonTree|
            #![trigger compact_text(document)]
            {
                let delta = document.member("delta"@);
                &&& frame.1@ == compact_text(document)
                &&& document.text_member("type"@) == Some("content_block_delta"@)
                &&& delta is Some
                &&& delta->0.text_member("type"@) == Some("text_delta"@)
                &&& delta->0.text_member("text"@) == Some(text)
            },
    }
}

/// Each piece of text that a turn brings is sent at once, as it came, in a frame of its own; an
/// empty one is not sent. It is appended to the answer, and the stream goes on.
pub proof fn law_each_piece_is_sent_as_it_came(
    before: AnswerStream,
    after: AnswerStream,
    piece: String,
    frames: Seq<StreamFrame>,
    last: bool,
)
    requires
        ({
            let event = Some(Ok::<BackendEvent, BackendError>(BackendEvent::TextDelta(piece)));
            &&& after.protocol == before.protocol
            &&& after.envelope@ == envelope_after(before.envelope@, news_of(event))
            &&& events_view(frames) == frames_of(before.protocol, before.envelope@, news_of(event))
            &&& last == !(news_of(event) is Delta)
        }),
    ensures
        !last,
        piece@.len() == 0 ==> frames.len() == 0,
        piece@.len() > 0 ==> frames.len() == 1 && brings_text(
            before.protocol,
            before.envelope@,
            frames[0],
            piece@,
        ),
        after.envelope.text@ == before.envelope.text@ + piece@,
        after.envelope.response_id@ == before.envelope.response_id@,
        after.envelope.model_alias@ == before.envelope.model_alias@,
        after.envelope.created == before.envelope.created,
        after.envelope.usage == before.envelope.usage,
{
    let later = after.envelope@;
    openai::law_chunks_say_what_is_streamed(later, piece@);
    anthropic::law_streamed_text_is_the_text(piece@);
    assert(events_view(frames).len() == frames.len());
    if piece@.len() > 0 {
        let frame = frames[0];
        assert(events_view(frames)[0] == event_view(frame));
        match before.protocol {
            ProtocolKind::OpenAi => {
                let delta = choose|delta: JsonTree|
                    {
                        &&& #[trigger] openai::is_chunk_of(
                            openai::text_chunk(later, piece@),
                            later,
                            delta,
                            JsonTree::Null,
                        )
                        &&& delta.text_member("content"@) == Some(piece@)
                    };
                assert(openai::is_chunk_of(frame.1@, before.envelope@, delta, JsonTree::Null));
            },
            ProtocolKind::Anthropic => {
                let document = anthropic::text_delta_tree(piece@);
                assert(frame.1@ == compact_text(document));
            },
        }
    }
}

/// The end of a turn, and just so a failure, closes the stream: an OpenAI client is told the
/// reason and then that this was all, an Anthropic client the end of the block, the reason, and
/// the end of the message. The answer then has the whole text and the usage.
pub proof fn law_end_closes_the_stream(
    before: AnswerStream,
    after: AnswerStream,
    event: Option<Result<BackendEvent, BackendError>>,
    frames: Seq<StreamFrame>,
    last: bool,
)
    requires
        event is None || event->0 is Err || event->0->Ok_0 is Completed,
        after.protocol == before.protocol,
        after.envelope@ == envelope_after(before.envelope@, news_of(event)),
        events_view(frames) == frames_of(before.protocol, before.envelope@, news_of(event)),
        last == !(news_of(event) is Delta),
    ensures
        last,
        before.protocol == ProtocolKind::OpenAi ==> frames.len() == 2 && frames[0].0 is None
            && frames[1].0 is None && frames[1].1@ == "[DONE]"@ && exists|delta: JsonTree|
            #[trigger]
            openai::is_chunk_of(
                frames[0].1@,
                before.envelope@,
                delta,
                JsonTree::Text("stop"@),
            ),
        before.protocol == ProtocolKind::Anthropic ==> frames.len() == 3 && frames[0].0 is Some
            && frames[0].0->0@ == "content_block_stop"@ && frames[1].0 is Some && frames[1].0->0@
            == "message_delta"@ && frames[2].0 is Some && frames[2].0->0@ == "message_stop"@,
        event is Some && event->0 is Ok ==> {
            let success = event->0->Ok_0->Completed_0;
            &&& after.envelope.text@ == success.text@
            &&& after.envelope.usage == success.usage
            &&& before.protocol == ProtocolKind::Anthropic ==> exists|document: JsonTree|
                #![trigger compact_text(document)]
                {
                    let usage = document.member("usage"@);
                    &&& frames[1].1@ == compact_text(document)
                    &&& usage is Some
                    &&& usage->0.unsigned_member("output_tokens"@) == Some(
                        success.usage.output_tokens,
                    )
                }
        },
        event is None || event->0 is Err ==> after.envelope@ == before.envelope@,
{
    let later = after.envelope@;
    openai::law_chunks_say_what_is_streamed(later, Seq::empty());
    anthropic::law_closing_of_a_stream(later);
    assert(events_view(frames).len() == frames.len());
    assert forall|i: int| 0 <= i < frames.len() implies #[trigger] events_view(frames)[i]
        == event_view(frames[i]) by {}
    match before.protocol {
        ProtocolKind::OpenAi => {
            assert(event_view(frames[0]) == events_view(frames)[0]);
            assert(event_view(frames[1]) == events_view(frames)[1]);
            let delta = choose|delta: JsonTree|
                {
                    &&& #[trigger] openai::is_chunk_of(
                        openai::stop_chunk(later),
                        later,
                        delta,
                        JsonTree::Text("stop"@),
                    )
                    &&& delta.member("content"@) is None
                };
            assert(openai::is_chunk_of(
                frames[0].1@,
                before.envelope@,
                delta,
                JsonTree::Text("stop"@),
            ));
        },
        ProtocolKind::Anthropic => {
            assert(event_view(frames[0]) == events_view(frames)[0]);
            assert(event_view(frames[1]) == events_view(frames)[1]);
            assert(event_view(frames[2]) == events_view(frames)[2]);
            let document = anthropic::message_delta_tree(later);
            assert(frames[1].1@ == compact_text(document));
        },
    }
}

/// What opens a stream, and the text that follows. An OpenAI client is told that the assistant
/// speaks; an Anthropic client gets the message and its block. Then comes the first piece of
/// text, where there is one, and where the whole answer came at once what closes the stream.
pub proof fn law_opening_of_a_stream(
    stream: AnswerStream,
    first_delta: Seq<char>,
    completed: bool,
    frames: Seq<StreamFrame>,
)
    requires
        events_view(frames) == head_frames(stream.protocol, stream.envelope@) + text_frames(
            stream.protocol,
            stream.envelope@,
            first_delta,
        ) + if completed {
            tail_frames(stream.protocol, stream.envelope@)
        } else {
            Seq::empty()
        },
    ensures
        ({
            let head: int = if stream.protocol == ProtocolKind::OpenAi {
                1
            } else {
                2
            };
            let text: int = if first_delta.len() > 0 {
                1
            } else {
                0
            };
            let tail: int = if !completed {
                0
            } else if stream.protocol == ProtocolKind::OpenAi {
                2
            } else {
                3
            };
            &&& frames.len() == head + text + tail
            &&& first_delta.len() > 0 ==> brings_text(
                stream.protocol,
                stream.envelope@,
                frames[head],
                first_delta,
            )
            &&& stream.protocol == ProtocolKind::OpenAi ==> exists|delta: JsonTree|
                {
                    &&& #[trigger] openai::is_chunk_of(
                        frames[0].1@,
                        stream.envelope@,
                        delta,
                        JsonTree::Null,
                    )
                    &&& delta.text_member("role"@) == Some("assistant"@)
                }
            &&& stream.protocol == ProtocolKind::Anthropic ==> frames[0].0 is Some
                && frames[0].0->0@ == "message_start"@ && frames[1].0 is Some && frames[1].0->0@
                == "content_block_start"@
            &&& completed && stream.protocol == ProtocolKind::OpenAi ==> frames.last().1@
                == "[DONE]"@
            &&& completed && stream.protocol == ProtocolKind::Anthropic ==> frames.last().0
                is Some && frames.last().0->0@ == "message_stop"@
        }),
{
    let envelope = stream.envelope@;
    openai::law_chunks_say_what_is_streamed(envelope, first_delta);
    anthropic::law_streamed_text_is_the_text(first_delta);
    anthropic::law_closing_of_a_stream(envelope);
    let shown = events_view(frames);
    assert(shown.len() == frames.len());
    assert(shown.last() == event_view(frames.last()));
    assert(event_view(frames[0]) == shown[0]);
    assert(shown[0] == head_frames(stream.protocol, envelope)[0]);
    match stream.protocol {
        ProtocolKind::OpenAi => {
            let delta = choose|delta: JsonTree|
                {
                    &&& #[trigger] openai::is_chunk_of(
                        openai::role_chunk(envelope),
                        envelope,
                        delta,
                        JsonTree::Null,
                    )
                    &&& delta.text_member("role"@) == Some("assistant"@)
                    &&& delta.member("content"@) is None
                };
            assert(openai::is_chunk_of(frames[0].1@, envelope, delta, JsonTree::Null));
            if first_delta.len() > 0 {
                assert(event_view(frames[1]) == shown[1]);
                assert(shown[1] == text_frame(stream.protocol, envelope, first_delta));
                let delta = choose|delta: JsonTree|
                    {
                        &&& #[trigger] openai::is_chunk_of(
                            openai::text_chunk(envelope, first_delta),
                            envelope,
                            delta,
                            JsonTree::Null,
                        )
                        &&& delta.text_member("content"@) == Some(first_delta)
                    };
                assert(openai::is_chunk_of(frames[1].1@, envelope, delta, JsonTree::Null));
            }
        },
        ProtocolKind::Anthropic => {
            assert(event_view(frames[1]) == shown[1]);
            assert(shown[1] == head_frames(stream.protocol, envelope)[1]);
            if first_delta.len() > 0 {
                assert(event_view(frames[2]) == shown[2]);
                assert(shown[2] == text_frame(stream.protocol, envelope, first_delta));
                let document = anthropic::text_delta_tree(first_delta);
                assert(frames[2].1@ == compact_text(document));
            }
        },
    }
}

/// A stream begins with the first piece of text, or, where the whole answer came at once, with
/// that and its usage; identifier, time and alias are those of the answer.
pub proof fn law_answer_at_the_beginning(
    envelope: EnvelopeModel,
    first_delta: Seq<char>,
    completion: Option<BackendSuccess>,
)
    ensures
        ({
            let begun = first_envelope(envelope, first_delta, completion);
            &&& completion is None ==> begun.text == envelope.text + first_delta && begun.usage
                == envelope.usage
            &&& completion is Some ==> begun.text == completion->0.text@ && begun.usage
                == completion->0.usage
            &&& begun.response_id == envelope.response_id
            &&& begun.created == envelope.created
            &&& begun.model_alias == envelope.model_alias
        }),
{
}

} // verus!
