//! What connections, router and workers say to each other.
//!
//! A message carries handles that only its receiver uses: the request for the
//! model (`Q`), where its status goes (`S`), where its events go (`E`), where its
//! result goes (`R`), and where an acknowledgement goes (`A`). The library moves
//! handles and never looks into them.

use vstd::prelude::*;
use vstd::string::*;

use crate::connections::ConnectionId;
use crate::runtime::{ConfigView, ErrorView, RuntimeConfig, RuntimeError};

verus! {

/// What a generation sends while it runs.
#[derive(Debug, PartialEq, Eq)]
pub enum RuntimeResponseEvent {
    Chunk { connection_id: ConnectionId, sequence_number: u64, content: String },
    Complete { connection_id: ConnectionId, sequence_number: u64 },
    Error { connection_id: ConnectionId, sequence_number: u64, error: RuntimeError },
}

/// What a generation sends, by its contents.
pub enum EventView {
    Chunk { connection_id: ConnectionId, sequence_number: u64, content: Seq<char> },
    Complete { connection_id: ConnectionId, sequence_number: u64 },
    Error { connection_id: ConnectionId, sequence_number: u64, error: ErrorView },
}

impl EventView {
    /// The connection that the event belongs to.
    pub open spec fn connection_id(self) -> ConnectionId {
        match self {
            EventView::Chunk { connection_id, .. } => connection_id,
            EventView::Complete { connection_id, .. } => connection_id,
            EventView::Error { connection_id, .. } => connection_id,
        }
    }

    /// The request that the event belongs to.
    pub open spec fn sequence_number(self) -> u64 {
        match self {
            EventView::Chunk { sequence_number, .. } => sequence_number,
            EventView::Complete { sequence_number, .. } => sequence_number,
            EventView::Error { sequence_number, .. } => sequence_number,
        }
    }
}

impl View for RuntimeResponseEvent {
    type V = EventView;

    open spec fn view(&self) -> EventView {
        match *self {
            RuntimeResponseEvent::Chunk { connection_id, sequence_number, content } =>
            EventView::Chunk { connection_id, sequence_number, content: content@ },
            RuntimeResponseEvent::Complete { connection_id, sequence_number } =>
            EventView::Complete { connection_id, sequence_number },
            RuntimeResponseEvent::Error { connection_id, sequence_number, error } =>
            EventView::Error { connection_id, sequence_number, error: error@ },
        }
    }
}

/// The contents of a list of events.
pub open spec fn event_views(events: Seq<RuntimeResponseEvent>) -> Seq<EventView> {
    events.map_values(|event: RuntimeResponseEvent| event@)
}

/// What a reader of a stream gets, given what came before: the chunks put
/// together once the stream is complete, or the error. A stream that ends
/// without either was closed.
pub open spec fn collected_after(before: Seq<char>, events: Seq<EventView>) -> Result<
    Seq<char>,
    ErrorView,
>
    decreases events.len(),
{
    if events.len() == 0 {
        Err(ErrorView::ChannelClosed)
    } else {
        match events[0] {
            EventView::Chunk { content, .. } => collected_after(
                before + content,
                events.drop_first(),
            ),
            EventView::Complete { .. } => Ok(before),
            EventView::Error { error, .. } => Err(error),
        }
    }
}

/// What a reader of a whole stream gets.
pub open spec fn collected(events: Seq<EventView>) -> Result<Seq<char>, ErrorView> {
    collected_after(Seq::empty(), events)
}

/// The contents of a result.
pub open spec fn result_view(result: Result<String, RuntimeError>) -> Result<
    Seq<char>,
    ErrorView,
> {
    match result {
        Ok(text) => Ok(text@),
        Err(error) => Err(error@),
    }
}

/// Puts the chunks of a stream together.
#[derive(Debug)]
pub struct ResponseCollector {
    content: String,
}

impl ResponseCollector {
    /// What was collected so far.
    pub closed spec fn content(&self) -> Seq<char> {
        self.content@
    }

    /// A collector that has nothing yet.
    pub fn new() -> (collector: Self)
        ensures
            collector.content() == Seq::<char>::empty(),
    {
        let collector = ResponseCollector { content: String::new() };
        assert(collector.content@ =~= Seq::<char>::empty());
        collector
    }

    /// Takes the next event, or the end of the stream. The result is there once
    /// the stream is complete, failed or closed.
    pub fn take(&mut self, event: Option<&RuntimeResponseEvent>) -> (result: Option<
        Result<String, RuntimeError>,
    >)
        ensures
            final(self).content() == (match event {
                Some(event) => match event@ {
                    EventView::Chunk { content, .. } => old(self).content() + content,
                    _ => old(self).content(),
                },
                None => old(self).content(),
            }),
            (match result {
                Some(result) => Some(result_view(result)),
                None => None,
            }) == (match event {
                Some(event) => match event@ {
                    EventView::Chunk { .. } => None,
                    EventView::Complete { .. } => Some(Ok(old(self).content())),
                    EventView::Error { error, .. } => Some(Err(error)),
                },
                None => Some(Err(ErrorView::ChannelClosed)),
            }),
    {
        match event {
            None => Some(Err(RuntimeError::ChannelClosed)),
            Some(RuntimeResponseEvent::Chunk { content, .. }) => {
                self.content.append(content.as_str());
                None
            },
            Some(RuntimeResponseEvent::Complete { .. }) => Some(Ok(self.content.clone())),
            Some(RuntimeResponseEvent::Error { error, .. }) => Some(Err(error.clone())),
        }
    }
}

/// Puts the chunks of a whole stream together.
pub fn collect_string(events: &Vec<RuntimeResponseEvent>) -> (result: Result<String, RuntimeError>)
    ensures
        result_view(result) == collected(event_views(events@)),
{
    let ghost all = event_views(events@);
    let mut collector = ResponseCollector::new();
    let mut at: usize = 0;
    assert(all.skip(0) =~= all);
    loop
        invariant
            at <= events@.len(),
            all == event_views(events@),
            collected(all) == collected_after(collector.content(), all.skip(at as int)),
        decreases events@.len() - at,
    {
        if at == events.len() {
            return Err(RuntimeError::ChannelClosed);
        }
        assert(all.skip(at as int)[0] == events@[at as int]@);
        assert(all.skip(at as int).drop_first() =~= all.skip(at + 1));
        if let Some(result) = collector.take(Some(&events[at])) {
            return result;
        }
        at = at + 1;
    }
}

/// What a connection asks of the runtime.
pub enum ConnectionRequest<Q, S, E, A> {
    Generate { request: Q, status: Option<S>, response: E, sequence_number: u64 },
    Close { reply: A },
}

/// What the router is asked.
#[allow(inconsistent_fields)]
pub enum RuntimeRequest<Q, S, E, R, A> {
    Connect { connection_id: ConnectionId, config_id: String, reply: A },
    Disconnect { connection_id: ConnectionId, reply: Option<A> },
    Generate {
        config_id: String,
        request: Q,
        status: Option<S>,
        connection_id: Option<ConnectionId>,
        sequence_number: Option<u64>,
        response: Option<E>,
        reply: Option<R>,
    },
    Shutdown,
}

/// What the router is asked, by its contents.
#[allow(inconsistent_fields)]
pub enum RequestView<Q, S, E, R, A> {
    Connect { connection_id: ConnectionId, config_id: Seq<char>, reply: A },
    Disconnect { connection_id: ConnectionId, reply: Option<A> },
    Generate {
        config_id: Seq<char>,
        request: Q,
        status: Option<S>,
        connection_id: Option<ConnectionId>,
        sequence_number: Option<u64>,
        response: Option<E>,
        reply: Option<R>,
    },
    Shutdown,
}

impl<Q, S, E, R, A> View for RuntimeRequest<Q, S, E, R, A> {
    type V = RequestView<Q, S, E, R, A>;

    open spec fn view(&self) -> RequestView<Q, S, E, R, A> {
        match *self {
            RuntimeRequest::Connect { connection_id, config_id, reply } => RequestView::Connect {
                connection_id,
                config_id: config_id@,
                reply,
            },
            RuntimeRequest::Disconnect { connection_id, reply } => RequestView::Disconnect {
                connection_id,
                reply,
            },
            RuntimeRequest::Generate {
                config_id,
                request,
                status,
                connection_id,
                sequence_number,
                response,
                reply,
            } => RequestView::Generate {
                config_id: config_id@,
                request,
                status,
                connection_id,
                sequence_number,
                response,
                reply,
            },
            RuntimeRequest::Shutdown => RequestView::Shutdown,
        }
    }
}

/// The contents of a list of requests.
pub open spec fn request_views<Q, S, E, R, A>(
    requests: Seq<RuntimeRequest<Q, S, E, R, A>>,
) -> Seq<RequestView<Q, S, E, R, A>> {
    requests.map_values(|request: RuntimeRequest<Q, S, E, R, A>| request@)
}

/// Asks the router for a connection.
pub fn connect_request<Q, S, E, R, A>(
    connection_id: ConnectionId,
    config_id: &str,
    reply: A,
) -> (request: RuntimeRequest<Q, S, E, R, A>)
    ensures
        request@ == (RequestView::<Q, S, E, R, A>::Connect {
            connection_id,
            config_id: config_id@,
            reply,
        }),
{
    RuntimeRequest::Connect { connection_id, config_id: config_id.to_string(), reply }
}

/// What a worker is asked.
pub enum WorkerRequest<Q, S, E, R> {
    Load { config: RuntimeConfig },
    Unload { config_id: String },
    Generate {
        config: RuntimeConfig,
        request: Q,
        status: Option<S>,
        connection_id: Option<ConnectionId>,
        sequence_number: Option<u64>,
        response: Option<E>,
        reply: Option<R>,
    },
    Shutdown,
}

/// What a worker is asked, by its contents.
pub enum WorkerRequestView<Q, S, E, R> {
    Load { config: ConfigView },
    Unload { config_id: Seq<char> },
    Generate {
        config: ConfigView,
        request: Q,
        status: Option<S>,
        connection_id: Option<ConnectionId>,
        sequence_number: Option<u64>,
        response: Option<E>,
        reply: Option<R>,
    },
    Shutdown,
}

impl<Q, S, E, R> View for WorkerRequest<Q, S, E, R> {
    type V = WorkerRequestView<Q, S, E, R>;

    open spec fn view(&self) -> WorkerRequestView<Q, S, E, R> {
        match *self {
            WorkerRequest::Load { config } => WorkerRequestView::Load { config: config@ },
            WorkerRequest::Unload { config_id } => WorkerRequestView::Unload {
                config_id: config_id@,
            },
            WorkerRequest::Generate {
                config,
                request,
                status,
                connection_id,
                sequence_number,
                response,
                reply,
            } => WorkerRequestView::Generate {
                config: config@,
                request,
                status,
                connection_id,
                sequence_number,
                response,
                reply,
            },
            WorkerRequest::Shutdown => WorkerRequestView::Shutdown,
        }
    }
}

/// The answers to a request that cannot be served.
pub struct Refusal<E, R, A> {
    /// The error event for the stream that waits for the request.
    pub event: Option<(E, RuntimeResponseEvent)>,
    /// The error for the caller that waits for the result.
    pub reply: Option<(R, RuntimeError)>,
    /// The error for the caller that waits for an acknowledgement.
    pub acknowledgement: Option<(A, RuntimeError)>,
}

/// The answers by their contents.
pub struct RefusalView<E, R, A> {
    pub event: Option<(E, EventView)>,
    pub reply: Option<(R, ErrorView)>,
    pub acknowledgement: Option<(A, ErrorView)>,
}

impl<E, R, A> View for Refusal<E, R, A> {
    type V = RefusalView<E, R, A>;

    open spec fn view(&self) -> RefusalView<E, R, A> {
        RefusalView {
            event: match self.event {
                Some((handle, event)) => Some((handle, event@)),
                None => None,
            },
            reply: match self.reply {
                Some((handle, error)) => Some((handle, error@)),
                None => None,
            },
            acknowledgement: match self.acknowledgement {
                Some((handle, error)) => Some((handle, error@)),
                None => None,
            },
        }
    }
}

/// The error event for a stream: there is one where the stream, the connection
/// and the request are all known.
pub open spec fn error_event<E>(
    response: Option<E>,
    connection_id: Option<ConnectionId>,
    sequence_number: Option<u64>,
    error: ErrorView,
) -> Option<(E, EventView)> {
    match (response, connection_id, sequence_number) {
        (Some(handle), Some(connection_id), Some(sequence_number)) => Some(
            (handle, EventView::Error { connection_id, sequence_number, error }),
        ),
        _ => None,
    }
}

/// The answers to a generation that cannot be served.
pub open spec fn generation_refused<E, R, A>(
    connection_id: Option<ConnectionId>,
    sequence_number: Option<u64>,
    response: Option<E>,
    reply: Option<R>,
    error: ErrorView,
) -> RefusalView<E, R, A> {
    RefusalView {
        event: error_event(response, connection_id, sequence_number, error),
        reply: match reply {
            Some(handle) => Some((handle, error)),
            None => None,
        },
        acknowledgement: None,
    }
}

/// The answers to a request that cannot be served. Everyone who waits for an
/// answer gets the error.
pub open spec fn refused<Q, S, E, R, A>(
    request: RequestView<Q, S, E, R, A>,
    error: ErrorView,
) -> RefusalView<E, R, A> {
    match request {
        RequestView::Connect { reply, .. } => RefusalView {
            event: None,
            reply: None,
            acknowledgement: Some((reply, error)),
        },
        RequestView::Disconnect { reply, .. } => RefusalView {
            event: None,
            reply: None,
            acknowledgement: match reply {
                Some(handle) => Some((handle, error)),
                None => None,
            },
        },
        RequestView::Generate { connection_id, sequence_number, response, reply, .. } =>
        generation_refused(connection_id, sequence_number, response, reply, error),
        RequestView::Shutdown => RefusalView { event: None, reply: None, acknowledgement: None },
    }
}

/// Answers a generation that cannot be served.
pub fn refuse_generation<E, R, A>(
    connection_id: Option<ConnectionId>,
    sequence_number: Option<u64>,
    response: Option<E>,
    reply: Option<R>,
    error: RuntimeError,
) -> (refusal: Refusal<E, R, A>)
    ensures
        refusal@ == generation_refused::<E, R, A>(
            connection_id,
            sequence_number,
            response,
            reply,
            error@,
        ),
{
    let event = match (response, connection_id, sequence_number) {
        (Some(handle), Some(connection_id), Some(sequence_number)) => Some(
            (
                handle,
                RuntimeResponseEvent::Error {
                    connection_id,
                    sequence_number,
                    error: error.clone(),
                },
            ),
        ),
        _ => None,
    };
    let reply = match reply {
        Some(handle) => Some((handle, error)),
        None => None,
    };
    Refusal { event, reply, acknowledgement: None }
}

/// Answers a request that cannot be served.
pub fn refuse<Q, S, E, R, A>(
    request: RuntimeRequest<Q, S, E, R, A>,
    error: RuntimeError,
) -> (refusal: Refusal<E, R, A>)
    ensures
        refusal@ == refused(request@, error@),
{
    match request {
        RuntimeRequest::Connect { reply, .. } => Refusal {
            event: None,
            reply: None,
            acknowledgement: Some((reply, error)),
        },
        RuntimeRequest::Disconnect { reply, .. } => Refusal {
            event: None,
            reply: None,
            acknowledgement: match reply {
                Some(handle) => Some((handle, error)),
                None => None,
            },
        },
        RuntimeRequest::Generate {
            connection_id,
            sequence_number,
            response,
            reply,
            ..
        } => refuse_generation(connection_id, sequence_number, response, reply, error),
        RuntimeRequest::Shutdown => Refusal { event: None, reply: None, acknowledgement: None },
    }
}

/// Answers what a worker can no longer be given.
pub fn refuse_work<Q, S, E, R, A>(request: WorkerRequest<Q, S, E, R>) -> (refusal: Refusal<
    E,
    R,
    A,
>)
    ensures
        refusal@ == (match request@ {
            WorkerRequestView::Generate {
                connection_id,
                sequence_number,
                response,
                reply,
                ..
            } => generation_refused::<E, R, A>(
                connection_id,
                sequence_number,
                response,
                reply,
                ErrorView::ChannelClosed,
            ),
            _ => RefusalView { event: None, reply: None, acknowledgement: None },
        }),
{
    match request {
        WorkerRequest::Generate {
            connection_id,
            sequence_number,
            response,
            reply,
            ..
        } => refuse_generation(
            connection_id,
            sequence_number,
            response,
            reply,
            RuntimeError::ChannelClosed,
        ),
        _ => Refusal { event: None, reply: None, acknowledgement: None },
    }
}

proof fn lemma_collected_after(before: Seq<char>, events: Seq<EventView>)
    ensures
        collected_after(before, events) == match collected(events) {
            Ok(text) => Ok::<Seq<char>, ErrorView>(before + text),
            Err(error) => Err(error),
        },
    decreases events.len(),
{
    if events.len() > 0 {
        let rest = events.drop_first();
        match events[0] {
            EventView::Chunk { content, .. } => {
                lemma_collected_after(before + content, rest);
                lemma_collected_after(Seq::<char>::empty() + content, rest);
                if let Ok(text) = collected(rest) {
                    assert(before + content + text =~= before + (Seq::<char>::empty() + content
                        + text));
                }
            },
            EventView::Complete { .. } => {
                assert(before + Seq::<char>::empty() =~= before);
            },
            _ => {},
        }
    }
}

/// A reader of a stream gets the text of every chunk, in the order in which they came, once
/// the stream is complete. An error that comes before that is what the reader gets, and a
/// stream that just ends was closed.
pub proof fn reader_gets_every_chunk_in_order(event: EventView, rest: Seq<EventView>)
    ensures
        collected(seq![event] + rest) == match event {
            EventView::Chunk { content, .. } => match collected(rest) {
                Ok(text) => Ok::<Seq<char>, ErrorView>(content + text),
                Err(error) => Err(error),
            },
            EventView::Complete { .. } => Ok(Seq::empty()),
            EventView::Error { error, .. } => Err(error),
        },
        collected(Seq::empty()) == Err::<Seq<char>, ErrorView>(ErrorView::ChannelClosed),
{
    let events = seq![event] + rest;
    assert(events.drop_first() =~= rest);
    if let EventView::Chunk { content, .. } = event {
        lemma_collected_after(Seq::<char>::empty() + content, rest);
        assert(Seq::<char>::empty() + content =~= content);
    }
}

/// Everyone who waits for an answer to a request that cannot be served gets the error: who
/// asked for a connection or its end, who waits for the whole answer, and who reads its
/// stream, under the numbers of the request. Nobody else gets anything.
pub proof fn refusal_reaches_everyone_who_waits<Q, S, E, R, A>(
    request: RequestView<Q, S, E, R, A>,
    error: ErrorView,
)
    ensures
        ({
            let refusal = refused(request, error);
            match request {
                RequestView::Connect { reply, .. } => {
                    &&& refusal.acknowledgement == Some((reply, error))
                    &&& refusal.event is None
                    &&& refusal.reply is None
                },
                RequestView::Disconnect { reply, .. } => {
                    &&& reply is Some ==> refusal.acknowledgement == Some((reply->0, error))
                    &&& reply is None ==> refusal.acknowledgement is None
                    &&& refusal.event is None
                    &&& refusal.reply is None
                },
                RequestView::Generate { connection_id, sequence_number, response, reply, .. } => {
                    &&& reply is Some ==> refusal.reply == Some((reply->0, error))
                    &&& reply is None ==> refusal.reply is None
                    &&& refusal.acknowledgement is None
                    &&& response is Some && connection_id is Some && sequence_number is Some
                        ==> refusal.event == Some(
                        (
                            response->0,
                            EventView::Error {
                                connection_id: connection_id->0,
                                sequence_number: sequence_number->0,
                                error,
                            },
                        ),
                    )
                    &&& response is None || connection_id is None || sequence_number is None
                        ==> refusal.event is None
                },
                RequestView::Shutdown => refusal.event is None && refusal.reply is None
                    && refusal.acknowledgement is None,
            }
        }),
{
}

} // verus!
