//! Where requests go: from connections through the forwarder to the router, and
//! from there to the workers.

use vstd::prelude::*;
use vstd::string::*;

use crate::connections::{
    in_use, new_connection, opened, opening, unload_asked, ConnectReplyView, ConnectionId,
    ConnectionLifecycleEvent, ConnectionTracker, LifecycleView, OpeningView,
};
use crate::messages::{
    generation_refused, refuse_generation, request_views, ConnectionRequest, Refusal, RefusalView,
    RequestView, RuntimeRequest, WorkerRequest, WorkerRequestView,
};
use crate::runtime::{
    config_ids, config_named, found_config_has_the_id, ConfigView, ErrorView, RuntimeError,
    RuntimeRegistry, RuntimeStatus, StatusView,
};
use crate::text::{same_text, texts};

verus! {

/// What the forwarder is told.
#[derive(Debug, Clone, Copy, PartialEq, Eq, Structural)]
pub enum ForwarderSignal {
    /// The connection may have something to forward.
    Ready(ConnectionId),
    Shutdown,
}

/// What the forwarder does on a signal.
pub enum ForwarderStep<Q, S, E, R, A> {
    /// Ends.
    Stop,
    /// Waits for the next signal: there is no such connection.
    Skip,
    /// Takes what the connection holds.
    Drain(Drain<Q, S, E, R, A>),
}

/// What taking the next request of a connection gave.
pub enum Received<Q, S, E, A> {
    Request(ConnectionRequest<Q, S, E, A>),
    /// Nothing is waiting.
    Empty,
    /// Nobody can send any more.
    Disconnected,
}

/// What was taken from a connection so far.
pub struct Drain<Q, S, E, R, A> {
    connection_id: ConnectionId,
    config_id: String,
    pending: Vec<RuntimeRequest<Q, S, E, R, A>>,
    disconnect: Option<Option<A>>,
}

/// What was taken from a connection, by its contents.
#[verifier::ext_equal]
pub struct DrainView<Q, S, E, R, A> {
    pub connection_id: ConnectionId,
    pub config_id: Seq<char>,
    pub pending: Seq<RequestView<Q, S, E, R, A>>,
    pub disconnect: Option<Option<A>>,
}

impl<Q, S, E, R, A> View for Drain<Q, S, E, R, A> {
    type V = DrainView<Q, S, E, R, A>;

    closed spec fn view(&self) -> DrainView<Q, S, E, R, A> {
        DrainView {
            connection_id: self.connection_id,
            config_id: self.config_id@,
            pending: request_views(self.pending@),
            disconnect: self.disconnect,
        }
    }
}

impl<Q, S, E, R, A> DrainView<Q, S, E, R, A> {
    /// What is there after one more take. A generation is forwarded under the
    /// model of the connection; a close ends the connection, and so does the
    /// last sender.
    pub open spec fn after(self, received: Received<Q, S, E, A>) -> Self {
        match received {
            Received::Request(
                ConnectionRequest::Generate { request, status, response, sequence_number },
            ) => DrainView {
                pending: self.pending.push(
                    RequestView::Generate {
                        config_id: self.config_id,
                        request,
                        status,
                        connection_id: Some(self.connection_id),
                        sequence_number: Some(sequence_number),
                        response: Some(response),
                        reply: None,
                    },
                ),
                ..self
            },
            Received::Request(ConnectionRequest::Close { reply }) => DrainView {
                disconnect: Some(Some(reply)),
                ..self
            },
            Received::Empty => self,
            Received::Disconnected => DrainView { disconnect: Some(None), ..self },
        }
    }

    /// What goes to the router: the generations in their order, and then the
    /// end of the connection.
    pub open spec fn forwarded(self) -> Seq<RequestView<Q, S, E, R, A>> {
        match self.disconnect {
            Some(reply) => self.pending.push(
                RequestView::Disconnect { connection_id: self.connection_id, reply },
            ),
            None => self.pending,
        }
    }

    /// What is there after taking until nothing more is to be had.
    pub open spec fn drained(self, received: Seq<Received<Q, S, E, A>>) -> Self
        decreases received.len(),
    {
        if received.len() == 0 {
            self
        } else if goes_on(received[0]) {
            self.after(received[0]).drained(received.drop_first())
        } else {
            self.after(received[0])
        }
    }
}

/// Whether there may be more to take.
pub open spec fn goes_on<Q, S, E, A>(received: Received<Q, S, E, A>) -> bool {
    received matches Received::Request(ConnectionRequest::Generate { .. })
}

impl<Q, S, E, R, A> Drain<Q, S, E, R, A> {
    /// Takes one request, and says whether there may be more.
    pub fn take(&mut self, received: Received<Q, S, E, A>) -> (more: bool)
        ensures
            final(self)@ == old(self)@.after(received),
            more == goes_on(received),
    {
        match received {
            Received::Request(
                ConnectionRequest::Generate { request, status, response, sequence_number },
            ) => {
                let ghost before = request_views(self.pending@);
                let next = RuntimeRequest::Generate {
                    config_id: self.config_id.clone(),
                    request,
                    status,
                    connection_id: Some(self.connection_id),
                    sequence_number: Some(sequence_number),
                    response: Some(response),
                    reply: None,
                };
                self.pending.push(next);
                assert(request_views(self.pending@) =~= before.push(next@));
                true
            },
            Received::Request(ConnectionRequest::Close { reply }) => {
                self.disconnect = Some(Some(reply));
                false
            },
            Received::Empty => false,
            Received::Disconnected => {
                self.disconnect = Some(None);
                false
            },
        }
    }

    /// Whether the connection has ended and is to be forgotten.
    pub fn ends_connection(&self) -> (ends: bool)
        ensures
            ends == (self@.disconnect is Some),
    {
        self.disconnect.is_some()
    }

    /// What goes to the router.
    pub fn into_requests(self) -> (requests: Vec<RuntimeRequest<Q, S, E, R, A>>)
        ensures
            request_views(requests@) == self@.forwarded(),
    {
        let mut requests = self.pending;
        let ghost before = request_views(requests@);
        if let Some(reply) = self.disconnect {
            let last = RuntimeRequest::Disconnect { connection_id: self.connection_id, reply };
            requests.push(last);
            assert(request_views(requests@) =~= before.push(last@));
        }
        requests
    }
}

/// Decides what the forwarder does on a signal, given the model of the
/// connection that the signal names.
pub fn forwarder_step<Q, S, E, R, A>(signal: ForwarderSignal, config_id: Option<&str>) -> (step:
    ForwarderStep<Q, S, E, R, A>)
    ensures
        match signal {
            ForwarderSignal::Shutdown => step is Stop,
            ForwarderSignal::Ready(connection_id) => match config_id {
                None => step is Skip,
                Some(config_id) => step matches ForwarderStep::Drain(drain) && drain@
                    == (DrainView::<Q, S, E, R, A> {
                    connection_id,
                    config_id: config_id@,
                    pending: Seq::empty(),
                    disconnect: None,
                }),
            },
        },
{
    match signal {
        ForwarderSignal::Shutdown => ForwarderStep::Stop,
        ForwarderSignal::Ready(connection_id) => match config_id {
            None => ForwarderStep::Skip,
            Some(config_id) => {
                let drain = Drain {
                    connection_id,
                    config_id: config_id.to_string(),
                    pending: Vec::new(),
                    disconnect: None,
                };
                assert(request_views(drain.pending@) =~= Seq::empty());
                ForwarderStep::Drain(drain)
            },
        },
    }
}

/// Whether a request of a connection is forwarded as a generation.
pub open spec fn forwards<Q, S, E, R, A>(
    drain: DrainView<Q, S, E, R, A>,
    received: Received<Q, S, E, A>,
    forwarded: RequestView<Q, S, E, R, A>,
) -> bool {
    received matches Received::Request(
        ConnectionRequest::Generate { request, status, response, sequence_number },
    ) && forwarded == (RequestView::<Q, S, E, R, A>::Generate {
        config_id: drain.config_id,
        request,
        status,
        connection_id: Some(drain.connection_id),
        sequence_number: Some(sequence_number),
        response: Some(response),
        reply: None,
    })
}

/// Whether a request is the end of the connection that is drained.
pub open spec fn ends<Q, S, E, R, A>(
    drain: DrainView<Q, S, E, R, A>,
    forwarded: RequestView<Q, S, E, R, A>,
) -> bool {
    forwarded matches RequestView::Disconnect { connection_id, .. } && connection_id
        == drain.connection_id
}

/// What a connection asks for is forwarded in the order in which it was asked,
/// under the number and the model of the connection. The end of the connection,
/// where there is one, comes last.
pub proof fn forwarding_keeps_the_connection<Q, S, E, R, A>(
    start: DrainView<Q, S, E, R, A>,
    received: Seq<Received<Q, S, E, A>>,
)
    requires
        start.pending.len() == 0,
        start.disconnect is None,
    ensures
        ({
            let drained = start.drained(received);
            let forwarded = drained.forwarded();
            &&& drained.connection_id == start.connection_id
            &&& drained.config_id == start.config_id
            &&& forwarded.len() <= received.len()
            &&& forall|i: int|
                0 <= i < forwarded.len() ==> forwards(
                    start,
                    received[i],
                    #[trigger] forwarded[i],
                ) || (i == forwarded.len() - 1 && ends(start, forwarded[i]))
        }),
{
    assert(received.skip(0) =~= received);
    lemma_drained(start, start, received, received);
}

proof fn lemma_drained<Q, S, E, R, A>(
    start: DrainView<Q, S, E, R, A>,
    now: DrainView<Q, S, E, R, A>,
    all: Seq<Received<Q, S, E, A>>,
    left: Seq<Received<Q, S, E, A>>,
)
    requires
        now.connection_id == start.connection_id,
        now.config_id == start.config_id,
        now.disconnect is None,
        now.pending.len() + left.len() == all.len(),
        left == all.skip(now.pending.len() as int),
        forall|i: int|
            0 <= i < now.pending.len() ==> forwards(start, all[i], #[trigger] now.pending[i]),
    ensures
        now.drained(left).connection_id == start.connection_id,
        now.drained(left).config_id == start.config_id,
        now.drained(left).forwarded().len() <= all.len(),
        forall|i: int|
            0 <= i < now.drained(left).pending.len() ==> forwards(
                start,
                all[i],
                #[trigger] now.drained(left).pending[i],
            ),
    decreases left.len(),
{
    if left.len() > 0 && goes_on(left[0]) {
        let next = now.after(left[0]);
        assert(left[0] == all[now.pending.len() as int]);
        assert(left.drop_first() =~= all.skip(next.pending.len() as int));
        lemma_drained(start, next, all, left.drop_first());
    }
}

/// What the router does with a request.
#[allow(inconsistent_fields)]
pub enum RouterStep<Q, S, E, R, A> {
    /// Answers a new connection.
    Acknowledge { reply: A, result: Result<(), RuntimeError> },
    /// Unloads a model where its last connection ended, and then answers.
    Disconnected { unload: Option<String>, reply: Option<A> },
    /// Says that the generation is queued, and hands it to the worker of a model.
    Queue { worker: String, status: RuntimeStatus, request: WorkerRequest<Q, S, E, R> },
    /// Answers that the generation cannot be served.
    Refuse(Refusal<E, R, A>),
    /// Shuts the workers down and ends.
    Stop,
}

/// What the router does, by its contents.
#[allow(inconsistent_fields)]
pub enum RouterStepView<Q, S, E, R, A> {
    Acknowledge { reply: A, result: Result<(), ErrorView> },
    Disconnected { unload: Option<Seq<char>>, reply: Option<A> },
    Queue { worker: Seq<char>, status: StatusView, request: WorkerRequestView<Q, S, E, R> },
    Refuse(RefusalView<E, R, A>),
    Stop,
}

impl<Q, S, E, R, A> View for RouterStep<Q, S, E, R, A> {
    type V = RouterStepView<Q, S, E, R, A>;

    open spec fn view(&self) -> RouterStepView<Q, S, E, R, A> {
        match *self {
            RouterStep::Acknowledge { reply, result } => RouterStepView::Acknowledge {
                reply,
                result: match result {
                    Ok(()) => Ok(()),
                    Err(error) => Err(error@),
                },
            },
            RouterStep::Disconnected { unload, reply } => RouterStepView::Disconnected {
                unload: match unload {
                    Some(config_id) => Some(config_id@),
                    None => None,
                },
                reply,
            },
            RouterStep::Queue { worker, status, request } => RouterStepView::Queue {
                worker: worker@,
                status: status@,
                request: request@,
            },
            RouterStep::Refuse(refusal) => RouterStepView::Refuse(refusal@),
            RouterStep::Stop => RouterStepView::Stop,
        }
    }
}

/// What the router knows.
#[derive(Debug)]
pub struct Router {
    registry: RuntimeRegistry,
    workers: Vec<String>,
    connections: ConnectionTracker,
}

/// What the router knows, by its contents.
#[verifier::ext_equal]
pub struct RouterView {
    /// The models that can be run.
    pub configs: Seq<ConfigView>,
    /// The models that have a worker.
    pub workers: Seq<Seq<char>>,
    /// The open connections.
    pub connections: Map<ConnectionId, Seq<char>>,
}

impl RouterView {
    /// What the router knows after a request.
    pub open spec fn after<Q, S, E, R, A>(self, request: RequestView<Q, S, E, R, A>) -> RouterView {
        match request {
            RequestView::Connect { connection_id, config_id, .. } => if config_named(
                self.configs,
                config_id,
            ) is Some {
                RouterView {
                    connections: opened(self.connections, connection_id, config_id),
                    ..self
                }
            } else {
                self
            },
            RequestView::Disconnect { connection_id, .. } => RouterView {
                connections: self.connections.remove(connection_id),
                ..self
            },
            _ => self,
        }
    }

    /// What the router does with a request.
    pub open spec fn step<Q, S, E, R, A>(
        self,
        request: RequestView<Q, S, E, R, A>,
    ) -> RouterStepView<Q, S, E, R, A> {
        match request {
            RequestView::Connect { config_id, reply, .. } => RouterStepView::Acknowledge {
                reply,
                result: if config_named(self.configs, config_id) is Some {
                    Ok(())
                } else {
                    Err(ErrorView::UnknownConfig(config_id))
                },
            },
            RequestView::Disconnect { connection_id, reply } => RouterStepView::Disconnected {
                unload: match unload_asked(self.connections, connection_id) {
                    Some(LifecycleView::Unload(config_id)) => if self.workers.contains(config_id) {
                        Some(config_id)
                    } else {
                        None
                    },
                    _ => None,
                },
                reply,
            },
            RequestView::Generate {
                config_id,
                request,
                status,
                connection_id,
                sequence_number,
                response,
                reply,
            } => match config_named(self.configs, config_id) {
                Some(config) if self.workers.contains(config_id) => RouterStepView::Queue {
                    worker: config_id,
                    status: StatusView::Queued { config_id },
                    request: WorkerRequestView::Generate {
                        config,
                        request,
                        status,
                        connection_id,
                        sequence_number,
                        response,
                        reply,
                    },
                },
                _ => RouterStepView::Refuse(
                    generation_refused(
                        connection_id,
                        sequence_number,
                        response,
                        reply,
                        ErrorView::UnknownConfig(config_id),
                    ),
                ),
            },
            RequestView::Shutdown => RouterStepView::Stop,
        }
    }
}

impl View for Router {
    type V = RouterView;

    closed spec fn view(&self) -> RouterView {
        RouterView {
            configs: self.registry@,
            workers: texts(self.workers@),
            connections: self.connections@,
        }
    }
}

impl Router {
    /// The connections are tracked consistently.
    pub closed spec fn wf(&self) -> bool {
        self.connections.wf()
    }

    /// A router without connections.
    pub fn new(registry: RuntimeRegistry, workers: Vec<String>) -> (router: Self)
        ensures
            router.wf(),
            router@ == (RouterView {
                configs: registry@,
                workers: texts(workers@),
                connections: Map::empty(),
            }),
    {
        Router { registry, workers, connections: ConnectionTracker::default() }
    }

    /// Whether a model has a worker.
    fn has_worker(&self, config_id: &str) -> (yes: bool)
        ensures
            yes == texts(self.workers@).contains(config_id@),
    {
        let mut at: usize = 0;
        while at < self.workers.len()
            invariant
                at <= self.workers@.len(),
                forall|k: int| 0 <= k < at ==> #[trigger] self.workers@[k]@ != config_id@,
            decreases self.workers@.len() - at,
        {
            if same_text(self.workers[at].as_str(), config_id) {
                assert(texts(self.workers@)[at as int] == config_id@);
                return true;
            }
            at = at + 1;
        }
        assert forall|k: int| 0 <= k < texts(self.workers@).len() implies texts(self.workers@)[k]
            != config_id@ by {
            assert(self.workers@[k]@ != config_id@);
        }
        false
    }

    /// Decides what happens with a request.
    pub fn handle<Q, S, E, R, A>(&mut self, request: RuntimeRequest<Q, S, E, R, A>) -> (step:
        RouterStep<Q, S, E, R, A>)
        requires
            old(self).wf(),
        ensures
            final(self).wf(),
            final(self)@ == old(self)@.after(request@),
            step@ == old(self)@.step(request@),
    {
        match request {
            RuntimeRequest::Connect { connection_id, config_id, reply } => {
                if self.registry.get(config_id.as_str()).is_none() {
                    return RouterStep::Acknowledge {
                        reply,
                        result: Err(RuntimeError::UnknownConfig(config_id)),
                    };
                }
                let _ = self.connections.connect(connection_id, config_id);
                RouterStep::Acknowledge { reply, result: Ok(()) }
            },
            RuntimeRequest::Disconnect { connection_id, reply } => {
                let event = self.connections.disconnect(connection_id);
                let unload = match event {
                    Some(ConnectionLifecycleEvent::Unload(config_id)) => if self.has_worker(
                        config_id.as_str(),
                    ) {
                        Some(config_id)
                    } else {
                        None
                    },
                    _ => None,
                };
                RouterStep::Disconnected { unload, reply }
            },
            RuntimeRequest::Generate {
                config_id,
                request,
                status,
                connection_id,
                sequence_number,
                response,
                reply,
            } => self.route_generate(
                config_id,
                request,
                status,
                connection_id,
                sequence_number,
                response,
                reply,
            ),
            RuntimeRequest::Shutdown => RouterStep::Stop,
        }
    }

    /// Decides which worker serves a generation.
    pub fn route_generate<Q, S, E, R, A>(
        &self,
        config_id: String,
        request: Q,
        status: Option<S>,
        connection_id: Option<ConnectionId>,
        sequence_number: Option<u64>,
        response: Option<E>,
        reply: Option<R>,
    ) -> (step: RouterStep<Q, S, E, R, A>)
        ensures
            step@ == self@.step(
                RequestView::<Q, S, E, R, A>::Generate {
                    config_id: config_id@,
                    request,
                    status,
                    connection_id,
                    sequence_number,
                    response,
                    reply,
                },
            ),
    {
        proof {
            found_config_has_the_id(self@.configs, config_id@);
        }
        if let Some(config) = self.registry.get(config_id.as_str()) {
            if self.has_worker(config.id.as_str()) {
                return RouterStep::Queue {
                    worker: config_id,
                    status: RuntimeStatus::Queued { config_id: config.id.clone() },
                    request: WorkerRequest::Generate {
                        config: config.clone(),
                        request,
                        status,
                        connection_id,
                        sequence_number,
                        response,
                        reply,
                    },
                };
            }
        }
        RouterStep::Refuse(
            refuse_generation(
                connection_id,
                sequence_number,
                response,
                reply,
                RuntimeError::UnknownConfig(config_id),
            ),
        )
    }
}

/// The router connects a connection that asks for a model that can be run, and the
/// connection is then open, with its number and its model. Any other is refused,
/// forgotten, and leaves the router as it was.
pub proof fn models_that_run_are_connected<Q, S, E, R, A>(
    router: RouterView,
    id: ConnectionId,
    config_id: Seq<char>,
    reply: A,
)
    ensures
        ({
            let request = RequestView::<Q, S, E, R, A>::Connect {
                connection_id: id,
                config_id,
                reply,
            };
            let known = config_named(router.configs, config_id) is Some;
            &&& router.step(request) is Acknowledge
            &&& router.step(request)->Acknowledge_reply == reply
            &&& opening(
                id,
                config_id,
                ConnectReplyView::Answered(router.step(request)->result),
            ) == if known {
                OpeningView::Open(new_connection(id, config_id))
            } else {
                OpeningView::Failed { error: ErrorView::UnknownConfig(config_id), forget: true }
            }
            &&& known ==> router.after(request).connections.dom().contains(id)
            &&& known && !router.connections.dom().contains(id) ==> router.after(
                request,
            ).connections[id] == config_id
            &&& !known ==> router.after(request) == router
        }),
{
}

/// Draining a connection loses nothing: every request up to the first thing that ends the
/// taking is forwarded. A close is passed on with its reply, and a connection that nobody can
/// send on any more ends without one.
pub proof fn draining_loses_nothing<Q, S, E, R, A>(
    start: DrainView<Q, S, E, R, A>,
    asked: Seq<Received<Q, S, E, A>>,
    last: Received<Q, S, E, A>,
    rest: Seq<Received<Q, S, E, A>>,
)
    requires
        start.disconnect is None,
        forall|i: int|
            0 <= i < asked.len() ==> ((#[trigger] asked[i]) matches Received::Request(
                ConnectionRequest::Generate { .. },
            )),
        !(last matches Received::Request(ConnectionRequest::Generate { .. })),
    ensures
        ({
            let forwarded = start.drained(asked + seq![last] + rest).forwarded();
            let count = (start.pending.len() + asked.len()) as int;
            match last {
                Received::Request(ConnectionRequest::Close { reply }) => forwarded.len() == count
                    + 1 && forwarded[count] == (RequestView::<Q, S, E, R, A>::Disconnect {
                    connection_id: start.connection_id,
                    reply: Some(reply),
                }),
                Received::Disconnected => forwarded.len() == count + 1 && forwarded[count] == (
                RequestView::<Q, S, E, R, A>::Disconnect {
                    connection_id: start.connection_id,
                    reply: None,
                }),
                _ => forwarded.len() == count,
            }
        }),
    decreases asked.len(),
{
    let all = asked + seq![last] + rest;
    if asked.len() == 0 {
        assert(all[0] == last);
    } else {
        let others = asked.drop_first();
        assert(all[0] == asked[0]);
        assert(goes_on(asked[0]));
        assert(all.drop_first() =~= others + seq![last] + rest);
        assert forall|i: int| 0 <= i < others.len() implies ((
        #[trigger] others[i]) matches Received::Request(ConnectionRequest::Generate { .. })) by {
            assert(others[i] == asked[i + 1]);
        }
        draining_loses_nothing(start.after(asked[0]), others, last, rest);
    }
}

/// A generation goes to the worker of its model, as it was asked for. Where the model is not
/// known or has no worker, everyone who waits gets to know.
pub proof fn generation_goes_to_the_worker_of_its_model<Q, S, E, R, A>(
    router: RouterView,
    request: RequestView<Q, S, E, R, A>,
)
    requires
        request is Generate,
    ensures
        ({
            let id = request->Generate_config_id;
            let known = exists|k: int|
                0 <= k < router.configs.len() && (#[trigger] router.configs[k]).id == id;
            &&& router.after(request) == router
            &&& known && router.workers.contains(id) ==> (router.step(request)
                matches RouterStepView::Queue { worker, status, request: work } && {
                &&& worker == id
                &&& status == StatusView::Queued { config_id: id }
                &&& work matches WorkerRequestView::Generate {
                    config,
                    request: asked,
                    status: status_to,
                    connection_id,
                    sequence_number,
                    response,
                    reply,
                } && {
                    &&& config.id == id
                    &&& router.configs.contains(config)
                    &&& asked == request->request
                    &&& status_to == request->status
                    &&& connection_id == request->Generate_connection_id
                    &&& sequence_number == request->sequence_number
                    &&& response == request->response
                    &&& reply == request->Generate_reply
                }
            })
            &&& !(known && router.workers.contains(id)) ==> (router.step(request)
                matches RouterStepView::Refuse(refusal) && {
                &&& request->Generate_reply is Some ==> refusal.reply == Some(
                    (request->Generate_reply->0, ErrorView::UnknownConfig(id)),
                )
                &&& request->response is Some && request->Generate_connection_id is Some
                    && request->sequence_number is Some ==> refusal.event is Some
            })
        }),
{
    let id = request->Generate_config_id;
    found_config_has_the_id(router.configs, id);
    match config_named(router.configs, id) {
        Some(config) => {
            let k = choose|k: int| 0 <= k < router.configs.len() && router.configs[k] == config;
            assert(router.configs[k].id == id);
        },
        None => {
            assert forall|k: int| 0 <= k < router.configs.len() implies (
            #[trigger] router.configs[k]).id != id by {
                assert(config_ids(router.configs)[k] == router.configs[k].id);
            }
        },
    }
}

/// The end of a connection unloads its model exactly where no other connection is for it and
/// it has a worker; whoever asked for the end gets to know. Other connections stay.
pub proof fn last_connection_unloads_its_model<Q, S, E, R, A>(
    router: RouterView,
    id: ConnectionId,
    reply: Option<A>,
)
    ensures
        ({
            let request = RequestView::<Q, S, E, R, A>::Disconnect { connection_id: id, reply };
            let open = router.connections.dom().contains(id);
            let alone = forall|other: ConnectionId|
                other != id && #[trigger] router.connections.dom().contains(other)
                    ==> router.connections[other] != router.connections[id];
            &&& router.after(request).connections == router.connections.remove(id)
            &&& router.after(request).configs == router.configs
            &&& router.step(request) matches RouterStepView::Disconnected {
                unload,
                reply: to,
            } && {
                &&& to == reply
                &&& unload == if open && alone && router.workers.contains(router.connections[id]) {
                    Some(router.connections[id])
                } else {
                    None
                }
            }
        }),
{
    let connections = router.connections;
    if connections.dom().contains(id) {
        let left = connections.remove(id);
        let model = connections[id];
        let alone = forall|other: ConnectionId|
            other != id && #[trigger] connections.dom().contains(other) ==> connections[other]
                != connections[id];
        if in_use(left, model) {
            let other = choose|other: ConnectionId|
                left.dom().contains(other) && #[trigger] left[other] == model;
            assert(connections.dom().contains(other));
        } else {
            assert forall|other: ConnectionId|
                other != id && #[trigger] connections.dom().contains(other) implies
            connections[other] != connections[id] by {
                assert(left.dom().contains(other));
                assert(left[other] == connections[other]);
            }
        }
    }
}

/// Whoever asks for a connection is answered: granted where there is a model of that name, and
/// then the connection is known under its number; else refused, with the name, and nothing changes.
/// A connection that is given up is not known any more, and the others are.
pub proof fn connections_are_granted_for_models_that_are_there<Q, S, E, R, A>(
    router: RouterView,
    connection_id: ConnectionId,
    config_id: Seq<char>,
    reply: A,
    ended: Option<A>,
    other: ConnectionId,
)
    ensures
        ({
            let asked = RequestView::<Q, S, E, R, A>::Connect { connection_id, config_id, reply };
            let there = config_ids(router.configs).contains(config_id);
            &&& router.step(asked) == (RouterStepView::<Q, S, E, R, A>::Acknowledge {
                reply,
                result: if there {
                    Ok(())
                } else {
                    Err(ErrorView::UnknownConfig(config_id))
                },
            })
            &&& !there ==> router.after(asked) == router
            &&& there ==> router.after(asked).connections.dom().contains(connection_id)
            &&& there && !router.connections.dom().contains(connection_id) ==> router.after(
                asked,
            ).connections[connection_id] == config_id
            &&& other != connection_id ==> (router.after(asked).connections.dom().contains(other)
                <==> router.connections.dom().contains(other))
        }),
        ({
            let given_up = RequestView::<Q, S, E, R, A>::Disconnect { connection_id, reply: ended };
            let after = router.after(given_up);
            &&& !after.connections.dom().contains(connection_id)
            &&& other != connection_id ==> (after.connections.dom().contains(other)
                <==> router.connections.dom().contains(other))
            &&& router.step(given_up) is Disconnected
            &&& router.step(given_up)->Disconnected_reply == ended
        }),
        router.step(RequestView::<Q, S, E, R, A>::Shutdown) is Stop,
{
    found_config_has_the_id(router.configs, config_id);
    if config_ids(router.configs).contains(config_id) {
        let k = config_ids(router.configs).index_of(config_id);
        assert(router.configs[k].id == config_id);
    }
    if let Some(config) = config_named(router.configs, config_id) {
        let k = router.configs.index_of(config);
        assert(config_ids(router.configs)[k] == config_id);
    }
}

} // verus!
