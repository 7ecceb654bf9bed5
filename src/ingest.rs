use vstd::prelude::*;

use crate::ranked::{apply_deltas, delta_of, lemma_increments_commute, score_of};
use crate::tokenizer::{
    lemma_occurrences_zero, occurrences, tokenize, tokenize_spec, words, TokenCounts,
};

verus! {

/// The text of one consumed message.
#[derive(Debug, Clone)]
pub struct MessagePayload(String);

impl View for MessagePayload {
    type V = Seq<char>;

    closed spec fn view(&self) -> Seq<char> {
        self.0@
    }
}

impl MessagePayload {
    pub fn new(text: String) -> (r: MessagePayload)
        ensures
            r@ == text@,
    {
        MessagePayload(text)
    }

    /// The payload as the broker handed it over: absent (empty payload), valid text, or text
    /// that did not decode, carried as the decoder's description of the failure.
    pub fn from_decoded(decoded: Option<Result<String, String>>) -> (r: MessagePayload)
        ensures
            r@ == match decoded {
                Some(Ok(s)) => s@,
                Some(Err(e)) => e@,
                None => Seq::<char>::empty(),
            },
    {
        match decoded {
            Some(Ok(s)) => MessagePayload(s),
            Some(Err(e)) => MessagePayload(e),
            None => MessagePayload(String::new()),
        }
    }

    pub fn as_str(&self) -> (r: &str)
        ensures
            r@ == self@,
    {
        self.0.as_str()
    }
}

/// What one poll of the broker produced.
#[derive(Debug)]
pub enum ConsumeEvent {
    Message { topic: String, payload: MessagePayload },
    /// The consumer reached the end of a partition; informational.
    EndOfPartition { partition: i32 },
    /// The broker client reported a transport failure; it reconnects by itself.
    TransportError { reason: String },
    /// The bounded poll interval passed with no message.
    Idle,
}

/// What the ingest loop does next.
#[derive(Debug)]
pub enum LoopAction {
    /// Add each token's count to its score in `topic`'s ranked set.
    Persist { topic: String, deltas: TokenCounts },
    /// Log the end of a partition and keep polling.
    NoteEndOfPartition { partition: i32 },
    /// Log the transport failure and keep polling.
    ReportTransportError { reason: String },
    /// Nothing arrived: poll again.
    Wait,
}

/// The action owed for `event`. It depends on the event alone, so nothing that happened to an
/// earlier message (a failed write included) changes how a later one is handled.
pub open spec fn action_for(event: ConsumeEvent, action: LoopAction) -> bool {
    match event {
        ConsumeEvent::Message { topic, payload } => match action {
            LoopAction::Persist { topic: t, deltas } => t@ == topic@ && deltas.wf() && deltas@
                == tokenize_spec(payload@),
            _ => false,
        },
        ConsumeEvent::EndOfPartition { partition } => match action {
            LoopAction::NoteEndOfPartition { partition: p } => p == partition,
            _ => false,
        },
        ConsumeEvent::TransportError { reason } => match action {
            LoopAction::ReportTransportError { reason: m } => m@ == reason@,
            _ => false,
        },
        ConsumeEvent::Idle => action is Wait,
    }
}

/// A failed write is isolated: the loop keeps no state between messages, so whatever became of
/// the persistence of earlier messages, every later message still yields a persistence request
/// for its own topic with its own token counts.
pub proof fn lemma_message_persisted_whatever_came_before(
    earlier: ConsumeEvent,
    earlier_action: LoopAction,
    topic: String,
    payload: MessagePayload,
    action: LoopAction,
)
    requires
        action_for(earlier, earlier_action),
        action_for(ConsumeEvent::Message { topic, payload }, action),
    ensures
        action is Persist,
        action->Persist_topic@ == topic@,
        action->Persist_deltas@ == tokenize_spec(payload@),
{
}

/// A token's delta from one message is its number of occurrences in that message.
pub proof fn lemma_delta_is_occurrences(payload: Seq<char>, t: Seq<char>)
    ensures
        delta_of(tokenize_spec(payload), t) == occurrences(words(payload), t),
{
    if !words(payload).contains(t) {
        lemma_occurrences_zero(words(payload), t);
    }
}

/// Scores accumulate across messages: once two messages of a topic are persisted, in either
/// order, each token's score has risen by its occurrences in both.
pub proof fn lemma_two_messages_accumulate(
    scores: Map<Seq<char>, int>,
    first: Seq<char>,
    second: Seq<char>,
    t: Seq<char>,
)
    ensures
        score_of(apply_deltas(apply_deltas(scores, tokenize_spec(first)), tokenize_spec(second)), t)
            == score_of(scores, t) + occurrences(words(first), t) + occurrences(words(second), t),
        apply_deltas(apply_deltas(scores, tokenize_spec(first)), tokenize_spec(second))
            == apply_deltas(apply_deltas(scores, tokenize_spec(second)), tokenize_spec(first)),
{
    lemma_increments_commute(scores, tokenize_spec(first), tokenize_spec(second));
    lemma_delta_is_occurrences(first, t);
    lemma_delta_is_occurrences(second, t);
}

/// One step of the ingest loop: a message becomes a persistence request for its topic with the
/// payload's token counts; every other outcome of a poll is logged or waited out, and the loop
/// goes on.
pub fn next_action(event: ConsumeEvent) -> (r: LoopAction)
    ensures
        action_for(event, r),
{
    match event {
        ConsumeEvent::Message { topic, payload } => {
            let deltas = tokenize(payload.as_str());
            LoopAction::Persist { topic, deltas }
        },
        ConsumeEvent::EndOfPartition { partition } => LoopAction::NoteEndOfPartition { partition },
        ConsumeEvent::TransportError { reason } => LoopAction::ReportTransportError { reason },
        ConsumeEvent::Idle => LoopAction::Wait,
    }
}

} // verus!
