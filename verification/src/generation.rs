//! A generation: from the request through loading and streaming to the result.

use vstd::prelude::*;
use vstd::string::*;

use crate::connections::ConnectionId;
use crate::messages::{
    collected, collected_after, event_views, result_view, EventView, RuntimeResponseEvent,
    WorkerRequest, WorkerRequestView,
};
use crate::model_set::ModelSet;
use crate::runtime::{
    config_ids, config_named, found_config_has_the_id, ConfigView, ErrorView, RuntimeConfig,
    RuntimeError, RuntimeRegistry, RuntimeStatus, StatusView,
};
use crate::text::{joined, joined3, text_option};

verus! {

/// One of the alternatives in a chunk of a stream.
#[derive(Debug, PartialEq, Eq)]
pub struct ChunkChoice {
    pub finish_reason: Option<String>,
    pub content: Option<String>,
}

/// What the stream of a model delivers.
#[derive(Debug, PartialEq, Eq)]
pub enum StreamEvent {
    /// A part of the answer; the last one says what was used.
    Chunk { choices: Vec<ChunkChoice>, has_usage: bool },
    /// The whole answer, one content for each alternative.
    Done { contents: Vec<Option<String>> },
    /// The model failed; `partial` is what it had.
    ModelError { message: String, partial: String },
    InternalError(String),
    ValidationError(String),
    CompletionModelError(String),
    /// Something that no chat delivers.
    Unexpected,
}

/// An alternative by its contents.
pub struct ChoiceView {
    pub finish_reason: Option<Seq<char>>,
    pub content: Option<Seq<char>>,
}

/// What the stream delivers, by its contents.
pub enum StreamView {
    Chunk { choices: Seq<ChoiceView>, has_usage: bool },
    Done { contents: Seq<Option<Seq<char>>> },
    ModelError { message: Seq<char>, partial: Seq<char> },
    InternalError(Seq<char>),
    ValidationError(Seq<char>),
    CompletionModelError(Seq<char>),
    Unexpected,
}

impl View for ChunkChoice {
    type V = ChoiceView;

    open spec fn view(&self) -> ChoiceView {
        ChoiceView {
            finish_reason: text_option(self.finish_reason),
            content: text_option(self.content),
        }
    }
}

/// The contents of a list of alternatives.
pub open spec fn choice_views(choices: Seq<ChunkChoice>) -> Seq<ChoiceView> {
    choices.map_values(|choice: ChunkChoice| choice@)
}

impl View for StreamEvent {
    type V = StreamView;

    open spec fn view(&self) -> StreamView {
        match *self {
            StreamEvent::Chunk { choices, has_usage } => StreamView::Chunk {
                choices: choice_views(choices@),
                has_usage,
            },
            StreamEvent::Done { contents } => StreamView::Done {
                contents: contents@.map_values(|content: Option<String>| text_option(content)),
            },
            StreamEvent::ModelError { message, partial } => StreamView::ModelError {
                message: message@,
                partial: partial@,
            },
            StreamEvent::InternalError(message) => StreamView::InternalError(message@),
            StreamEvent::ValidationError(message) => StreamView::ValidationError(message@),
            StreamEvent::CompletionModelError(message) => StreamView::CompletionModelError(
                message@,
            ),
            StreamEvent::Unexpected => StreamView::Unexpected,
        }
    }
}

/// A generation that runs: the model it runs on, the stream that its events are
/// for, and what was streamed so far.
#[derive(Debug)]
pub struct Generation {
    config: RuntimeConfig,
    target: Option<(ConnectionId, u64)>,
    streamed: String,
}

/// A generation by its contents.
pub struct GenerationView {
    pub config: ConfigView,
    pub target: Option<(ConnectionId, u64)>,
    pub streamed: Seq<char>,
}

impl View for Generation {
    type V = GenerationView;

    closed spec fn view(&self) -> GenerationView {
        GenerationView {
            config: self.config@,
            target: self.target,
            streamed: self.streamed@,
        }
    }
}

/// How a generation starts.
pub enum GenerationStart {
    /// The model is not known any more.
    Unknown(RuntimeError),
    /// The model has to be loaded first.
    Load { status: RuntimeStatus, generation: Generation },
    /// The model is there.
    Stream { status: RuntimeStatus, generation: Generation },
}

/// What one step of a generation sends, and the result where it was the last.
#[derive(Debug)]
pub struct GenerationStep {
    pub events: Vec<RuntimeResponseEvent>,
    pub result: Option<Result<String, RuntimeError>>,
}

/// One step by its contents.
#[verifier::ext_equal]
pub struct StepView {
    pub events: Seq<EventView>,
    pub result: Option<Result<Seq<char>, ErrorView>>,
}

impl View for GenerationStep {
    type V = StepView;

    open spec fn view(&self) -> StepView {
        StepView {
            events: event_views(self.events@),
            result: match self.result {
                Some(result) => Some(result_view(result)),
                None => None,
            },
        }
    }
}

/// The event, if any, for a chunk.
pub open spec fn chunk_events(target: Option<(ConnectionId, u64)>, content: Seq<char>) -> Seq<
    EventView,
> {
    match target {
        Some((connection_id, sequence_number)) => seq![
            EventView::Chunk { connection_id, sequence_number, content },
        ],
        None => Seq::empty(),
    }
}

/// The event, if any, for the end.
pub open spec fn complete_events(target: Option<(ConnectionId, u64)>) -> Seq<EventView> {
    match target {
        Some((connection_id, sequence_number)) => seq![
            EventView::Complete { connection_id, sequence_number },
        ],
        None => Seq::empty(),
    }
}

/// The event, if any, for an error.
pub open spec fn error_events(target: Option<(ConnectionId, u64)>, error: ErrorView) -> Seq<
    EventView,
> {
    match target {
        Some((connection_id, sequence_number)) => seq![
            EventView::Error { connection_id, sequence_number, error },
        ],
        None => Seq::empty(),
    }
}

/// What an alternative adds to the answer.
pub open spec fn added(choice: ChoiceView) -> Seq<char> {
    match choice.content {
        Some(content) => content,
        None => Seq::empty(),
    }
}

/// What the alternatives of a chunk add to the answer.
pub open spec fn chunk_text(choices: Seq<ChoiceView>) -> Seq<char>
    decreases choices.len(),
{
    if choices.len() == 0 {
        Seq::empty()
    } else {
        chunk_text(choices.drop_last()) + added(choices.last())
    }
}

/// The events for the alternatives of a chunk: one for each that adds
/// something.
pub open spec fn choice_events(
    target: Option<(ConnectionId, u64)>,
    choices: Seq<ChoiceView>,
) -> Seq<EventView>
    decreases choices.len(),
{
    if choices.len() == 0 {
        Seq::empty()
    } else {
        let before = choice_events(target, choices.drop_last());
        if added(choices.last()).len() == 0 {
            before
        } else {
            before + chunk_events(target, added(choices.last()))
        }
    }
}

/// Whether an alternative of a chunk is at its end.
pub open spec fn is_finished(choices: Seq<ChoiceView>) -> bool {
    exists|i: int| 0 <= i < choices.len() && (#[trigger] choices[i]).finish_reason is Some
}

/// A step that fails.
pub open spec fn failed_step(target: Option<(ConnectionId, u64)>, error: ErrorView) -> StepView {
    StepView { events: error_events(target, error), result: Some(Err(error)) }
}

/// The answer that the model gave as a whole: the content of its first
/// alternative, or where that is missing or empty, what was streamed.
pub open spec fn final_content(
    streamed: Seq<char>,
    contents: Seq<Option<Seq<char>>>,
) -> Seq<char> {
    if contents.len() > 0 && (contents[0] matches Some(content) && content.len() > 0) {
        contents[0].unwrap()
    } else {
        streamed
    }
}

impl GenerationView {
    /// What was streamed after one more delivery.
    pub open spec fn after(self, event: StreamView) -> GenerationView {
        match event {
            StreamView::Chunk { choices, .. } => GenerationView {
                streamed: self.streamed + chunk_text(choices),
                ..self
            },
            _ => self,
        }
    }

    /// What one delivery leads to.
    pub open spec fn step(self, event: StreamView) -> StepView {
        match event {
            StreamView::Chunk { choices, has_usage } => {
                let events = choice_events(self.target, choices);
                if has_usage || is_finished(choices) {
                    StepView {
                        events: events + complete_events(self.target),
                        result: Some(Ok(self.streamed + chunk_text(choices))),
                    }
                } else {
                    StepView { events, result: None }
                }
            },
            StreamView::Done { contents } => {
                let content = final_content(self.streamed, contents);
                let unsent = if self.streamed.len() == 0 && content.len() > 0 {
                    chunk_events(self.target, content)
                } else {
                    Seq::empty()
                };
                StepView {
                    events: unsent + complete_events(self.target),
                    result: Some(Ok(content)),
                }
            },
            StreamView::ModelError { message, partial } => failed_step(
                self.target,
                ErrorView::Inference(message + ": "@ + partial),
            ),
            StreamView::InternalError(message) => failed_step(
                self.target,
                ErrorView::Inference(message),
            ),
            StreamView::ValidationError(message) => failed_step(
                self.target,
                ErrorView::Inference(message),
            ),
            StreamView::CompletionModelError(message) => failed_step(
                self.target,
                ErrorView::Inference(
                    "unexpected completion error while generating chat: "@ + message,
                ),
            ),
            StreamView::Unexpected => failed_step(
                self.target,
                ErrorView::Inference("unexpected non-chat streaming response"@),
            ),
        }
    }

    /// What the end of the deliveries leads to: an answer that was begun counts
    /// as complete.
    pub open spec fn end(self) -> StepView {
        if self.streamed.len() == 0 {
            failed_step(self.target, ErrorView::Inference("stream ended before completion"@))
        } else {
            StepView { events: complete_events(self.target), result: Some(Ok(self.streamed)) }
        }
    }

    /// What all deliveries together lead to.
    pub open spec fn run(self, deliveries: Seq<StreamView>) -> StepView
        decreases deliveries.len(),
    {
        if deliveries.len() == 0 {
            self.end()
        } else {
            let step = self.step(deliveries[0]);
            if step.result is Some {
                step
            } else {
                let rest = self.after(deliveries[0]).run(deliveries.drop_first());
                StepView { events: step.events + rest.events, result: rest.result }
            }
        }
    }
}

/// How a generation starts, by its contents.
pub enum StartView {
    Unknown(ErrorView),
    Load { status: StatusView, generation: GenerationView },
    Stream { status: StatusView, generation: GenerationView },
}

impl View for GenerationStart {
    type V = StartView;

    open spec fn view(&self) -> StartView {
        match *self {
            GenerationStart::Unknown(error) => StartView::Unknown(error@),
            GenerationStart::Load { status, generation } => StartView::Load {
                status: status@,
                generation: generation@,
            },
            GenerationStart::Stream { status, generation } => StartView::Stream {
                status: status@,
                generation: generation@,
            },
        }
    }
}

/// The stream that events are for: there is one where it listens, and the
/// connection and the request are known.
pub open spec fn event_target(
    listens: bool,
    connection_id: Option<ConnectionId>,
    sequence_number: Option<u64>,
) -> Option<(ConnectionId, u64)> {
    match (connection_id, sequence_number) {
        (Some(connection_id), Some(sequence_number)) => if listens {
            Some((connection_id, sequence_number))
        } else {
            None
        },
        _ => None,
    }
}

/// How a generation with a model starts.
pub open spec fn start_of(
    configs: Seq<ConfigView>,
    loaded: Set<Seq<char>>,
    config_id: Seq<char>,
    target: Option<(ConnectionId, u64)>,
) -> StartView {
    match config_named(configs, config_id) {
        None => StartView::Unknown(ErrorView::UnknownConfig(config_id)),
        Some(config) => {
            let generation = GenerationView { config, target, streamed: Seq::empty() };
            if loaded.contains(config.id) {
                StartView::Stream {
                    status: StatusView::Generating { config_id: config.id },
                    generation,
                }
            } else {
                StartView::Load {
                    status: StatusView::Loading {
                        config_id: config.id,
                        repo_id: config.model.source().repo_id,
                    },
                    generation,
                }
            }
        },
    }
}

impl Generation {
    /// Starts a generation.
    pub fn start(
        registry: &RuntimeRegistry,
        loaded: &ModelSet,
        config_id: &str,
        listens: bool,
        connection_id: Option<ConnectionId>,
        sequence_number: Option<u64>,
    ) -> (start: GenerationStart)
        ensures
            start@ == start_of(
                registry@,
                loaded@,
                config_id@,
                event_target(listens, connection_id, sequence_number),
            ),
    {
        let config = match registry.get(config_id) {
            Some(config) => config.clone(),
            None => return GenerationStart::Unknown(
                RuntimeError::UnknownConfig(config_id.to_string()),
            ),
        };
        let target = match (connection_id, sequence_number) {
            (Some(connection_id), Some(sequence_number)) => if listens {
                Some((connection_id, sequence_number))
            } else {
                None
            },
            _ => None,
        };
        let id = config.id.clone();
        let repo_id = config.model.repo_id().to_string();
        let generation = Generation { config, target, streamed: String::new() };
        assert(generation.streamed@ =~= Seq::<char>::empty());
        if loaded.contains(id.as_str()) {
            GenerationStart::Stream {
                status: RuntimeStatus::Generating { config_id: id },
                generation,
            }
        } else {
            GenerationStart::Load {
                status: RuntimeStatus::Loading { config_id: id, repo_id },
                generation,
            }
        }
    }

    /// The model that the generation runs on.
    pub fn config(&self) -> (config: &RuntimeConfig)
        ensures
            config@ == self@.config,
    {
        &self.config
    }

    /// What follows the attempt to load the model: on success the status of the
    /// generation, and otherwise its end.
    pub fn model_loaded(&self, loaded: Result<(), RuntimeError>) -> (next: Result<
        RuntimeStatus,
        GenerationStep,
    >)
        ensures
            match loaded {
                Ok(()) => next matches Ok(status) && status@ == (StatusView::Generating {
                    config_id: self@.config.id,
                }),
                Err(error) => next matches Err(step) && step@ == failed_step(
                    self@.target,
                    error@,
                ),
            },
    {
        match loaded {
            Ok(()) => Ok(RuntimeStatus::Generating { config_id: self.config.id.clone() }),
            Err(error) => Err(self.fail(error)),
        }
    }

    /// The end of a generation whose stream could not be opened.
    pub fn stream_refused(&self, message: String) -> (step: GenerationStep)
        ensures
            step@ == failed_step(self@.target, ErrorView::Inference(message@)),
    {
        self.fail(RuntimeError::Inference(message))
    }

    /// The end of a generation that failed.
    fn fail(&self, error: RuntimeError) -> (step: GenerationStep)
        ensures
            step@ == failed_step(self@.target, error@),
    {
        let mut events: Vec<RuntimeResponseEvent> = Vec::new();
        if let Some((connection_id, sequence_number)) = self.target {
            events.push(
                RuntimeResponseEvent::Error {
                    connection_id,
                    sequence_number,
                    error: error.clone(),
                },
            );
        }
        let step = GenerationStep { events, result: Some(Err(error)) };
        assert(step@ =~= failed_step(self@.target, error@));
        step
    }

    /// Sends a chunk.
    fn send_chunk(&self, events: &mut Vec<RuntimeResponseEvent>, content: &str)
        ensures
            event_views(final(events)@) == event_views(old(events)@) + chunk_events(
                self@.target,
                content@,
            ),
    {
        if let Some((connection_id, sequence_number)) = self.target {
            events.push(
                RuntimeResponseEvent::Chunk {
                    connection_id,
                    sequence_number,
                    content: content.to_string(),
                },
            );
        }
        assert(event_views(events@) =~= event_views(old(events)@) + chunk_events(
            self@.target,
            content@,
        ));
    }

    /// Sends that the answer is complete.
    fn send_complete(&self, events: &mut Vec<RuntimeResponseEvent>)
        ensures
            event_views(final(events)@) == event_views(old(events)@) + complete_events(
                self@.target,
            ),
    {
        if let Some((connection_id, sequence_number)) = self.target {
            events.push(RuntimeResponseEvent::Complete { connection_id, sequence_number });
        }
        assert(event_views(events@) =~= event_views(old(events)@) + complete_events(
            self@.target,
        ));
    }

    /// Takes what the stream delivers.
    pub fn deliver(&mut self, event: StreamEvent) -> (step: GenerationStep)
        ensures
            final(self)@ == old(self)@.after(event@),
            step@ == old(self)@.step(event@),
    {
        match event {
            StreamEvent::Chunk { choices, has_usage } => self.deliver_chunk(&choices, has_usage),
            StreamEvent::Done { contents } => {
                let content = match contents.first() {
                    Some(Some(content)) => if content.as_str().is_empty() {
                        self.streamed.clone()
                    } else {
                        content.clone()
                    },
                    _ => self.streamed.clone(),
                };
                let ghost views = contents@.map_values(|content: Option<String>| text_option(content));
                assert(contents@.len() > 0 ==> views[0] == text_option(contents@[0]));
                assert(content@ == final_content(self@.streamed, views));
                let mut events: Vec<RuntimeResponseEvent> = Vec::new();
                assert(event_views(events@) =~= Seq::<EventView>::empty());
                if self.streamed.as_str().is_empty() && !content.as_str().is_empty() {
                    self.send_chunk(&mut events, content.as_str());
                }
                self.send_complete(&mut events);
                let step = GenerationStep { events, result: Some(Ok(content)) };
                assert(step@ =~= old(self)@.step(StreamView::Done { contents: views }));
                step
            },
            StreamEvent::ModelError { message, partial } => self.fail(
                RuntimeError::Inference(joined3(message.as_str(), ": ", partial.as_str())),
            ),
            StreamEvent::InternalError(message) => self.fail(RuntimeError::Inference(message)),
            StreamEvent::ValidationError(message) => self.fail(RuntimeError::Inference(message)),
            StreamEvent::CompletionModelError(message) => self.fail(
                RuntimeError::Inference(
                    joined(
                        "unexpected completion error while generating chat: ",
                        message.as_str(),
                    ),
                ),
            ),
            StreamEvent::Unexpected => self.fail(
                RuntimeError::Inference("unexpected non-chat streaming response".to_string()),
            ),
        }
    }

    /// Takes a chunk.
    fn deliver_chunk(&mut self, choices: &Vec<ChunkChoice>, has_usage: bool) -> (step:
        GenerationStep)
        ensures
            final(self)@ == old(self)@.after(
                StreamView::Chunk { choices: choice_views(choices@), has_usage },
            ),
            step@ == old(self)@.step(
                StreamView::Chunk { choices: choice_views(choices@), has_usage },
            ),
    {
        let ghost all = choice_views(choices@);
        let mut events: Vec<RuntimeResponseEvent> = Vec::new();
        let mut finished = false;
        let mut i: usize = 0;
        assert(event_views(events@) =~= choice_events(self@.target, all.take(0)));
        assert(self.streamed@ =~= old(self)@.streamed + chunk_text(all.take(0)));
        while i < choices.len()
            invariant
                i <= choices@.len(),
                all == choice_views(choices@),
                self@.config == old(self)@.config,
                self@.target == old(self)@.target,
                self@.streamed == old(self)@.streamed + chunk_text(all.take(i as int)),
                event_views(events@) == choice_events(self@.target, all.take(i as int)),
                finished == exists|k: int|
                    0 <= k < i && (#[trigger] all[k]).finish_reason is Some,
            decreases choices@.len() - i,
        {
            proof {
                assert(all.take(i + 1).drop_last() =~= all.take(i as int));
                assert(all.take(i + 1).last() == choices@[i as int]@);
                assert(all[i as int] == choices@[i as int]@);
            }
            let ghost before = self@.streamed;
            if choices[i].finish_reason.is_some() {
                finished = true;
            }
            if let Some(content) = &choices[i].content {
                if !content.as_str().is_empty() {
                    self.streamed.append(content.as_str());
                    self.send_chunk(&mut events, content.as_str());
                }
            }
            assert(self@.streamed =~= before + added(all[i as int]));
            assert(before + added(all[i as int]) =~= old(self)@.streamed + chunk_text(
                all.take(i + 1),
            ));
            i = i + 1;
        }
        assert(all.take(all.len() as int) =~= all);
        if has_usage || finished {
            self.send_complete(&mut events);
            GenerationStep { events, result: Some(Ok(self.streamed.clone())) }
        } else {
            GenerationStep { events, result: None }
        }
    }

    /// Takes the end of the stream.
    pub fn finish(&self) -> (step: GenerationStep)
        ensures
            step@ == self@.end(),
    {
        if self.streamed.as_str().is_empty() {
            self.fail(RuntimeError::Inference("stream ended before completion".to_string()))
        } else {
            let mut events: Vec<RuntimeResponseEvent> = Vec::new();
            assert(event_views(events@) =~= Seq::<EventView>::empty());
            self.send_complete(&mut events);
            let step = GenerationStep { events, result: Some(Ok(self.streamed.clone())) };
            assert(step@ =~= self@.end());
            step
        }
    }
}

/// What a worker does with a request.
pub enum WorkerStep<Q, S, E, R> {
    /// Nothing: the model is loaded already.
    Ready,
    /// Loads a model.
    Load { config: RuntimeConfig },
    /// Forgets a model, if it was loaded.
    Unload { config_id: String, was_loaded: bool },
    /// Runs a generation.
    Generate {
        start: GenerationStart,
        request: Q,
        status: Option<S>,
        response: Option<E>,
        reply: Option<R>,
    },
    /// Ends.
    Stop,
}

/// Decides what a worker does with a request, given the models it has loaded.
pub fn worker_step<Q, S, E, R>(
    registry: &RuntimeRegistry,
    loaded: &mut ModelSet,
    request: WorkerRequest<Q, S, E, R>,
) -> (step: WorkerStep<Q, S, E, R>)
    requires
        old(loaded).wf(),
    ensures
        final(loaded).wf(),
        match request@ {
            WorkerRequestView::Unload { config_id } => final(loaded)@ == old(loaded)@.remove(
                config_id,
            ),
            _ => final(loaded)@ == old(loaded)@,
        },
        match request@ {
            WorkerRequestView::Load { config } => if old(loaded)@.contains(config.id) {
                step is Ready
            } else {
                step matches WorkerStep::Load { config: wanted } && wanted@ == config
            },
            WorkerRequestView::Unload { config_id } => step matches WorkerStep::Unload {
                config_id: gone,
                was_loaded,
            } && gone@ == config_id && was_loaded == old(loaded)@.contains(config_id),
            WorkerRequestView::Generate {
                config,
                request,
                status,
                connection_id,
                sequence_number,
                response,
                reply,
            } => {
                &&& step matches WorkerStep::Generate {
                    start,
                    request: asked,
                    status: status_to,
                    response: response_to,
                    reply: reply_to,
                }
                &&& start@ == start_of(
                    registry@,
                    old(loaded)@,
                    config.id,
                    event_target(response is Some, connection_id, sequence_number),
                )
                &&& asked == request
                &&& status_to == status
                &&& response_to == response
                &&& reply_to == reply
            },
            WorkerRequestView::Shutdown => step is Stop,
        },
{
    match request {
        WorkerRequest::Load { config } => if loaded.contains(config.id.as_str()) {
            WorkerStep::Ready
        } else {
            WorkerStep::Load { config }
        },
        WorkerRequest::Unload { config_id } => {
            let was_loaded = loaded.remove(config_id.as_str());
            WorkerStep::Unload { config_id, was_loaded }
        },
        WorkerRequest::Generate {
            config,
            request,
            status,
            connection_id,
            sequence_number,
            response,
            reply,
        } => {
            let start = Generation::start(
                registry,
                loaded,
                config.id.as_str(),
                response.is_some(),
                connection_id,
                sequence_number,
            );
            WorkerStep::Generate { start, request, status, response, reply }
        },
        WorkerRequest::Shutdown => WorkerStep::Stop,
    }
}

impl GenerationView {
    /// Whether a whole answer among the deliveries that count says what was
    /// streamed before it, where something was.
    pub open spec fn consistent(self, deliveries: Seq<StreamView>) -> bool
        decreases deliveries.len(),
    {
        deliveries.len() > 0 ==> match deliveries[0] {
            StreamView::Done { contents } => self.streamed.len() == 0 || final_content(
                self.streamed,
                contents,
            ) == self.streamed,
            event => self.step(event).result is None ==> self.after(event).consistent(
                deliveries.drop_first(),
            ),
        }
    }
}

proof fn lemma_collected_chunks(
    target: (ConnectionId, u64),
    before: Seq<char>,
    choices: Seq<ChoiceView>,
    rest: Seq<EventView>,
)
    ensures
        collected_after(before, choice_events(Some(target), choices) + rest) == collected_after(
            before + chunk_text(choices),
            rest,
        ),
    decreases choices.len(),
{
    let events = choice_events(Some(target), choices);
    if choices.len() == 0 {
        assert(events + rest =~= rest);
        assert(before + chunk_text(choices) =~= before);
    } else {
        let text = added(choices.last());
        let start = choices.drop_last();
        let own = if text.len() == 0 {
            Seq::empty()
        } else {
            chunk_events(Some(target), text)
        };
        assert(events + rest =~= choice_events(Some(target), start) + (own + rest));
        lemma_collected_chunks(target, before, start, own + rest);
        let sofar = before + chunk_text(start);
        assert(before + chunk_text(choices) =~= sofar + text);
        if text.len() == 0 {
            assert(own + rest =~= rest);
            assert(sofar + text =~= sofar);
        } else {
            assert((own + rest)[0] == own[0]);
            assert((own + rest).drop_first() =~= rest);
        }
    }
}

proof fn lemma_run_collects(generation: GenerationView, deliveries: Seq<StreamView>)
    requires
        generation.target is Some,
        generation.consistent(deliveries),
    ensures
        generation.run(deliveries).result == Some(
            collected_after(generation.streamed, generation.run(deliveries).events),
        ),
    decreases deliveries.len(),
{
    let target = generation.target.unwrap();
    let streamed = generation.streamed;
    let ended = complete_events(generation.target);
    assert(forall|text: Seq<char>| #[trigger]
        collected_after(text, ended) == Ok::<Seq<char>, ErrorView>(text));
    assert(forall|error: ErrorView| #[trigger]
        collected_after(streamed, error_events(generation.target, error)) == Err::<
            Seq<char>,
            ErrorView,
        >(error));
    if deliveries.len() > 0 {
        let event = deliveries[0];
        let step = generation.step(event);
        match event {
            StreamView::Chunk { choices, has_usage } => {
                if step.result is Some {
                    lemma_collected_chunks(target, streamed, choices, ended);
                } else {
                    let next = generation.after(event);
                    let rest = next.run(deliveries.drop_first());
                    lemma_run_collects(next, deliveries.drop_first());
                    lemma_collected_chunks(target, streamed, choices, rest.events);
                }
            },
            StreamView::Done { contents } => {
                let content = final_content(streamed, contents);
                if streamed.len() == 0 && content.len() > 0 {
                    let sent = chunk_events(generation.target, content);
                    assert((sent + ended)[0] == sent[0]);
                    assert((sent + ended).drop_first() =~= ended);
                    assert(streamed + content =~= content);
                    assert(step.events == sent + ended);
                    assert(collected_after(streamed, sent + ended) == collected_after(
                        streamed + content,
                        ended,
                    ));
                } else {
                    assert(step.events =~= ended);
                    assert(streamed =~= content);
                }
            },
            _ => {},
        }
    }
}

/// Whoever reads the stream of a generation gets its result, the answer as well
/// as the error. Left out are models that stream one answer and then give
/// another one as a whole.
pub proof fn stream_delivers_the_result(generation: GenerationView, deliveries: Seq<StreamView>)
    requires
        generation.target is Some,
        generation.streamed.len() == 0,
        generation.consistent(deliveries),
    ensures
        generation.run(deliveries).result == Some(
            collected(generation.run(deliveries).events),
        ),
{
    assert(generation.streamed =~= Seq::<char>::empty());
    lemma_run_collects(generation, deliveries);
}

/// Whether events belong to a stream, and only the last of them ends it.
pub open spec fn ends_once(target: (ConnectionId, u64), events: Seq<EventView>) -> bool {
    &&& events.len() > 0
    &&& !(events.last() is Chunk)
    &&& forall|i: int|
        0 <= i < events.len() ==> (#[trigger] events[i]).connection_id() == target.0
            && events[i].sequence_number() == target.1
    &&& forall|i: int| 0 <= i < events.len() - 1 ==> (#[trigger] events[i]) is Chunk
}

/// Whether events are chunks of a stream, none of them empty.
pub open spec fn are_chunks(target: (ConnectionId, u64), events: Seq<EventView>) -> bool {
    forall|i: int|
        0 <= i < events.len() ==> ((#[trigger] events[i]) matches EventView::Chunk {
            connection_id,
            sequence_number,
            content,
        } && connection_id == target.0 && sequence_number == target.1 && content.len() > 0)
}

proof fn lemma_choice_events_are_chunks(target: (ConnectionId, u64), choices: Seq<ChoiceView>)
    ensures
        are_chunks(target, choice_events(Some(target), choices)),
    decreases choices.len(),
{
    if choices.len() > 0 {
        lemma_choice_events_are_chunks(target, choices.drop_last());
    }
}

/// A generation that somebody listens to sends chunks of its own stream and then
/// one event that ends it, whatever the model delivers.
pub proof fn stream_ends_exactly_once(generation: GenerationView, deliveries: Seq<StreamView>)
    requires
        generation.target is Some,
    ensures
        ends_once(generation.target.unwrap(), generation.run(deliveries).events),
    decreases deliveries.len(),
{
    let target = generation.target.unwrap();
    let run = generation.run(deliveries);
    if deliveries.len() > 0 {
        if let StreamView::Chunk { choices, .. } = deliveries[0] {
            lemma_choice_events_are_chunks(target, choices);
        }
        let step = generation.step(deliveries[0]);
        if step.result is None {
            let next = generation.after(deliveries[0]);
            let rest = next.run(deliveries.drop_first());
            stream_ends_exactly_once(next, deliveries.drop_first());
            assert(run.events.last() == rest.events.last());
            assert forall|i: int| 0 <= i < run.events.len() implies run.events[i]
                == if i < step.events.len() {
                step.events[i]
            } else {
                rest.events[i - step.events.len()]
            } by {}
        }
    }
}

/// A generation that nobody listens to sends nothing.
pub proof fn unheard_generation_is_silent(generation: GenerationView, deliveries: Seq<StreamView>)
    requires
        generation.target is None,
    ensures
        generation.run(deliveries).events.len() == 0,
    decreases deliveries.len(),
{
    if deliveries.len() > 0 {
        if let StreamView::Chunk { choices, .. } = deliveries[0] {
            lemma_no_choice_events(choices);
        }
        if generation.step(deliveries[0]).result is None {
            unheard_generation_is_silent(
                generation.after(deliveries[0]),
                deliveries.drop_first(),
            );
        }
    }
}

proof fn lemma_no_choice_events(choices: Seq<ChoiceView>)
    ensures
        choice_events(None, choices).len() == 0,
    decreases choices.len(),
{
    if choices.len() > 0 {
        lemma_no_choice_events(choices.drop_last());
    }
}

/// The text of a chunk is that of its alternatives, in their order; an alternative without
/// content adds nothing.
pub proof fn chunk_text_follows_the_alternatives(first: Seq<ChoiceView>, second: Seq<ChoiceView>)
    ensures
        chunk_text(first + second) == chunk_text(first) + chunk_text(second),
        first.len() == 1 ==> chunk_text(first) == match first[0].content {
            Some(content) => content,
            None => Seq::empty(),
        },
    decreases second.len(),
{
    if second.len() == 0 {
        assert(first + second =~= first);
        assert(chunk_text(first) + chunk_text(second) =~= chunk_text(first));
    } else {
        let rest = second.drop_last();
        chunk_text_follows_the_alternatives(first, rest);
        assert((first + second).drop_last() =~= first + rest);
        assert(chunk_text(first) + chunk_text(rest) + added(second.last()) =~= chunk_text(first) + (
        chunk_text(rest) + added(second.last())));
    }
    if first.len() == 1 {
        assert(chunk_text(first.drop_last()) =~= Seq::<char>::empty());
        assert(chunk_text(first) =~= added(first[0]));
    }
}

/// A chunk of one alternative that is not the last of the answer is sent to whoever listens,
/// as it is, and goes into the result before all that follows; an empty one is not sent.
pub proof fn chunk_goes_out_and_into_the_result(
    generation: GenerationView,
    content: Seq<char>,
    rest: Seq<StreamView>,
)
    ensures
        ({
            let choice = ChoiceView { finish_reason: None, content: Some(content) };
            let chunk = StreamView::Chunk { choices: seq![choice], has_usage: false };
            let later = GenerationView { streamed: generation.streamed + content, ..generation };
            let run = generation.run(seq![chunk] + rest);
            &&& run.result == later.run(rest).result
            &&& generation.target matches Some((connection_id, sequence_number)) ==> run.events
                == if content.len() > 0 {
                seq![EventView::Chunk { connection_id, sequence_number, content }] + later.run(
                    rest,
                ).events
            } else {
                later.run(rest).events
            }
        }),
{
    let choice = ChoiceView { finish_reason: None, content: Some(content) };
    let choices = seq![choice];
    let chunk = StreamView::Chunk { choices, has_usage: false };
    let all = seq![chunk] + rest;
    chunk_text_follows_the_alternatives(choices, Seq::empty());
    assert(all[0] == chunk);
    assert(all.drop_first() =~= rest);
    assert(!is_finished(choices));
    let later = GenerationView { streamed: generation.streamed + content, ..generation };
    assert(generation.after(chunk) == later);
    let events = choice_events(generation.target, choices);
    assert(choices.drop_last() =~= Seq::<ChoiceView>::empty());
    assert(choice_events(generation.target, choices.drop_last()) =~= Seq::<EventView>::empty());
    assert(events =~= if content.len() > 0 {
        chunk_events(generation.target, content)
    } else {
        Seq::empty()
    });
    let run = generation.run(all);
    if content.len() == 0 {
        assert(run.events =~= later.run(rest).events);
    }
}

/// An answer is complete with a chunk that says so, whatever would follow: the result is all
/// that was streamed, that chunk too.
pub proof fn last_chunk_completes_the_answer(
    generation: GenerationView,
    choices: Seq<ChoiceView>,
    has_usage: bool,
    rest: Seq<StreamView>,
)
    requires
        has_usage || exists|i: int|
            0 <= i < choices.len() && (#[trigger] choices[i]).finish_reason is Some,
    ensures
        ({
            let chunk = StreamView::Chunk { choices, has_usage };
            let run = generation.run(seq![chunk] + rest);
            &&& run.result == Some(
                Ok::<Seq<char>, ErrorView>(generation.streamed + chunk_text(choices)),
            )
            &&& generation.target matches Some((connection_id, sequence_number))
                ==> run.events.len() > 0 && run.events.last() == (EventView::Complete {
                connection_id,
                sequence_number,
            })
        }),
{
    let chunk = StreamView::Chunk { choices, has_usage };
    assert((seq![chunk] + rest)[0] == chunk);
}

/// A model that gives its whole answer is taken at its word: the first alternative is the
/// result, or what was streamed where that is empty. Where nothing was streamed before, the
/// answer goes to whoever listens.
pub proof fn whole_answer_is_the_result(
    generation: GenerationView,
    contents: Seq<Option<Seq<char>>>,
    rest: Seq<StreamView>,
)
    ensures
        ({
            let run = generation.run(seq![StreamView::Done { contents }] + rest);
            let whole = if contents.len() > 0 && contents[0] is Some && contents[0]->0.len() > 0 {
                contents[0]->0
            } else {
                generation.streamed
            };
            &&& run.result == Some(Ok::<Seq<char>, ErrorView>(whole))
            &&& generation.target matches Some((connection_id, sequence_number)) ==> run.events
                == if generation.streamed.len() == 0 && whole.len() > 0 {
                seq![
                    EventView::Chunk { connection_id, sequence_number, content: whole },
                    EventView::Complete { connection_id, sequence_number },
                ]
            } else {
                seq![EventView::Complete { connection_id, sequence_number }]
            }
        }),
{
    let done = StreamView::Done { contents };
    assert((seq![done] + rest)[0] == done);
    let run = generation.run(seq![done] + rest);
    if let Some((connection_id, sequence_number)) = generation.target {
        let whole = final_content(generation.streamed, contents);
        if generation.streamed.len() == 0 && whole.len() > 0 {
            assert(run.events =~= seq![
                EventView::Chunk { connection_id, sequence_number, content: whole },
                EventView::Complete { connection_id, sequence_number },
            ]);
        } else {
            assert(run.events =~= seq![EventView::Complete { connection_id, sequence_number }]);
        }
    }
}

/// A stream that ends has given an answer where something was streamed, and failed where
/// nothing was. What a model reports to have gone wrong is what the generation fails with.
pub proof fn failures_are_passed_on(
    generation: GenerationView,
    message: Seq<char>,
    partial: Seq<char>,
)
    ensures
        generation.run(seq![StreamView::ModelError { message, partial }]).result == Some(
            Err::<Seq<char>, ErrorView>(ErrorView::Inference(message + ": "@ + partial)),
        ),
        generation.streamed.len() > 0 ==> generation.run(Seq::empty()).result == Some(
            Ok::<Seq<char>, ErrorView>(generation.streamed),
        ),
        generation.streamed.len() == 0 ==> generation.run(Seq::empty()).result matches Some(Err(_)),
        generation.run(seq![StreamView::InternalError(message)]).result == Some(
            Err::<Seq<char>, ErrorView>(ErrorView::Inference(message)),
        ),
        generation.run(seq![StreamView::ValidationError(message)]).result == Some(
            Err::<Seq<char>, ErrorView>(ErrorView::Inference(message)),
        ),
{
}

/// A generation starts at once where its model is loaded, and loads it first where it is not;
/// it fails where the model is not known. It starts with nothing streamed.
pub proof fn generation_starts_with_its_model(
    configs: Seq<ConfigView>,
    loaded: Set<Seq<char>>,
    config_id: Seq<char>,
    target: Option<(ConnectionId, u64)>,
)
    ensures
        match start_of(configs, loaded, config_id, target) {
            StartView::Unknown(error) => error == ErrorView::UnknownConfig(config_id) && forall|
                k: int,
            |
                0 <= k < configs.len() ==> (#[trigger] configs[k]).id != config_id,
            StartView::Load { generation, status } => {
                &&& !loaded.contains(config_id)
                &&& generation.config.id == config_id
                &&& configs.contains(generation.config)
                &&& generation.target == target
                &&& generation.streamed.len() == 0
                &&& status == StatusView::Loading {
                    config_id,
                    repo_id: generation.config.model.source().repo_id,
                }
            },
            StartView::Stream { generation, status } => {
                &&& loaded.contains(config_id)
                &&& generation.config.id == config_id
                &&& configs.contains(generation.config)
                &&& generation.target == target
                &&& generation.streamed.len() == 0
                &&& status == StatusView::Generating { config_id }
            },
        },
{
    found_config_has_the_id(configs, config_id);
    if config_named(configs, config_id) is None {
        assert forall|k: int| 0 <= k < configs.len() implies (#[trigger] configs[k]).id
            != config_id by {
            assert(config_ids(configs)[k] == configs[k].id);
        }
    }
}

/// Whoever listens to a generation that fails is told of the error that it fails with, last of
/// all; nothing of an answer is taken back.
pub proof fn failure_is_told(generation: GenerationView, event: StreamView, error: ErrorView)
    requires
        generation.run(seq![event]).result == Some(Err::<Seq<char>, ErrorView>(error)),
        generation.target is Some,
        !(event is Chunk),
    ensures
        generation.run(seq![event]).events == seq![
            EventView::Error {
                connection_id: generation.target.unwrap().0,
                sequence_number: generation.target.unwrap().1,
                error,
            },
        ],
{
}

/// Events go to the connection and the request that asked, and only where somebody listens.
pub proof fn only_those_who_asked_are_told(
    listens: bool,
    connection_id: Option<ConnectionId>,
    sequence_number: Option<u64>,
)
    ensures
        ({
            let target = event_target(listens, connection_id, sequence_number);
            &&& target is Some <==> listens && connection_id is Some && sequence_number is Some
            &&& target is Some ==> connection_id == Some(target.unwrap().0) && sequence_number == Some(
                target.unwrap().1,
            )
        }),
{
}

} // verus!
