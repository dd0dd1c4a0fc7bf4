use kablam::agent::ToolFormat;
use kablam::connections::ConnectionId;
use kablam::generation::{
    worker_step, ChunkChoice, Generation, GenerationStart, StreamEvent, WorkerStep,
};
use kablam::history::{BlockKind, MarkdownBlock};
use kablam::jobs::{ends_stream, job_event_for, JobEvent, ParsedMarkdown, StreamItem};
use kablam::messages::{
    collect_string, refuse, refuse_work, ConnectionRequest, Refusal, RuntimeRequest,
    RuntimeResponseEvent, WorkerRequest,
};
use kablam::model_set::ModelSet;
use kablam::router::{
    forwarder_step, Drain, ForwarderSignal, ForwarderStep, Received, Router, RouterStep,
};
use kablam::runtime::{RuntimeError, RuntimeRegistry, RuntimeStatus};
use kablam::startup::default_tools;

type Request = RuntimeRequest<&'static str, (), &'static str, &'static str, u8>;
type TestDrain = Drain<&'static str, (), &'static str, &'static str, u8>;

fn generate(request: &'static str) -> Received<&'static str, (), &'static str, u8> {
    Received::Request(ConnectionRequest::Generate {
        request,
        status: None,
        response: "listener",
        sequence_number: 1,
    })
}

fn drain(id: u64, config_id: &str) -> TestDrain {
    match forwarder_step(ForwarderSignal::Ready(ConnectionId(id)), Some(config_id)) {
        ForwarderStep::Drain(drain) => drain,
        _ => panic!("expected a drain"),
    }
}

#[test]
fn forwarder_ready_drains_only_signaled_connection() {
    let mut first = drain(1, "smollm3");
    assert!(first.take(generate("one")));
    assert!(!first.take(Received::Empty));
    assert!(!first.ends_connection());

    let requests = first.into_requests();
    assert_eq!(requests.len(), 1);
    match &requests[0] {
        RuntimeRequest::Generate { config_id, .. } => assert_eq!(config_id, "smollm3"),
        _ => panic!("expected generate request"),
    }
}

#[test]
fn forwarder_preserves_config_for_independent_connections() {
    let mut second = drain(2, "qwen3.5");
    second.take(generate("two"));
    second.take(Received::Empty);
    let mut first = drain(1, "smollm3");
    first.take(generate("one"));
    first.take(Received::Empty);

    let mut configs = Vec::new();
    for request in second
        .into_requests()
        .into_iter()
        .chain(first.into_requests())
    {
        match request {
            RuntimeRequest::Generate { config_id, .. } => configs.push(config_id),
            _ => panic!("expected generate request"),
        }
    }

    assert_eq!(configs, vec!["qwen3.5", "smollm3"]);
}

#[test]
fn closed_agent_receiver_forwards_one_disconnect() {
    let mut closed = drain(1, "smollm3");
    assert!(!closed.take(Received::Disconnected));
    assert!(closed.ends_connection());

    let requests = closed.into_requests();
    assert_eq!(requests.len(), 1);
    match &requests[0] {
        RuntimeRequest::Disconnect {
            connection_id,
            reply,
        } => {
            assert_eq!(*connection_id, ConnectionId(1));
            assert!(reply.is_none());
        }
        _ => panic!("expected disconnect request"),
    }

    // The connection is forgotten by then.
    let step: ForwarderStep<&str, (), &str, &str, u8> =
        forwarder_step(ForwarderSignal::Ready(ConnectionId(1)), None);
    assert!(matches!(step, ForwarderStep::Skip));
}

#[test]
fn explicit_close_carries_its_reply_after_what_was_asked() {
    let mut closing = drain(1, "smollm3");
    closing.take(generate("one"));
    assert!(!closing.take(Received::Request(ConnectionRequest::Close { reply: 9 })));
    let requests = closing.into_requests();
    assert_eq!(requests.len(), 2);
    assert!(matches!(requests[0], RuntimeRequest::Generate { .. }));
    assert!(matches!(
        requests[1],
        RuntimeRequest::Disconnect {
            connection_id: ConnectionId(1),
            reply: Some(9)
        }
    ));
    let step: ForwarderStep<&str, (), &str, &str, u8> =
        forwarder_step(ForwarderSignal::Shutdown, Some("smollm3"));
    assert!(matches!(step, ForwarderStep::Stop));
}

#[test]
fn what_was_asked_is_forwarded_in_order() {
    let mut asking = drain(4, "smollm2");
    for (number, asked) in [(7, "one"), (8, "two"), (9, "three")] {
        assert!(asking.take(Received::Request(ConnectionRequest::Generate {
            request: asked,
            status: None,
            response: "listener",
            sequence_number: number,
        })));
    }
    asking.take(Received::Disconnected);
    let mut seen = Vec::new();
    for request in asking.into_requests() {
        match request {
            RuntimeRequest::Generate {
                request,
                connection_id,
                sequence_number,
                ..
            } => {
                assert_eq!(connection_id, Some(ConnectionId(4)));
                seen.push((sequence_number, request));
            }
            RuntimeRequest::Disconnect { connection_id, .. } => {
                assert_eq!(connection_id, ConnectionId(4));
                seen.push((None, "end"));
            }
            _ => panic!("unexpected request"),
        }
    }
    assert_eq!(
        seen,
        vec![(Some(7), "one"), (Some(8), "two"), (Some(9), "three"), (None, "end")]
    );
}

#[test]
fn response_stream_collects_chunk_events_in_order() {
    let events = vec![
        RuntimeResponseEvent::Chunk {
            connection_id: ConnectionId(7),
            sequence_number: 3,
            content: "hello ".into(),
        },
        RuntimeResponseEvent::Chunk {
            connection_id: ConnectionId(7),
            sequence_number: 3,
            content: "world".into(),
        },
        RuntimeResponseEvent::Complete {
            connection_id: ConnectionId(7),
            sequence_number: 3,
        },
    ];

    assert_eq!(collect_string(&events).unwrap(), "hello world");
}

#[test]
fn broken_streams_give_errors() {
    assert_eq!(
        collect_string(&vec![]),
        Err(RuntimeError::ChannelClosed)
    );
    assert_eq!(
        collect_string(&vec![RuntimeResponseEvent::Error {
            connection_id: ConnectionId(1),
            sequence_number: 1,
            error: RuntimeError::ChannelClosed,
        }]),
        Err(RuntimeError::ChannelClosed)
    );
}

fn request(config_id: &str) -> Request {
    RuntimeRequest::Generate {
        config_id: config_id.to_string(),
        request: "prompt",
        status: None,
        connection_id: Some(ConnectionId(1)),
        sequence_number: Some(4),
        response: Some("listener"),
        reply: Some("reply"),
    }
}

fn connect(id: u64, config_id: &str) -> Request {
    RuntimeRequest::Connect {
        connection_id: ConnectionId(id),
        config_id: config_id.to_string(),
        reply: 1,
    }
}

#[test]
fn routers_connect_queue_and_unload() {
    let mut router = Router::new(
        RuntimeRegistry::defaults(),
        vec![String::from("smollm2"), String::from("smollm3")],
    );
    assert!(matches!(
        router.handle(connect(1, "nonsense")),
        RouterStep::Acknowledge { result: Err(RuntimeError::UnknownConfig(id)), .. } if id == "nonsense"
    ));
    assert!(matches!(
        router.handle(connect(1, "smollm2")),
        RouterStep::Acknowledge { reply: 1, result: Ok(()) }
    ));
    assert!(matches!(
        router.handle(request("smollm2")),
        RouterStep::Queue { worker, status: RuntimeStatus::Queued { .. }, .. } if worker == "smollm2"
    ));
    assert!(matches!(
        router.handle(request("nonsense")),
        RouterStep::Refuse(Refusal { event: Some(("listener", _)), reply: Some(("reply", RuntimeError::UnknownConfig(_))), .. })
    ));
    assert!(matches!(
        router.handle(Request::Disconnect { connection_id: ConnectionId(1), reply: Some(3) }),
        RouterStep::Disconnected { unload: Some(id), reply: Some(3) } if id == "smollm2"
    ));
    assert!(matches!(
        router.handle(Request::Shutdown),
        RouterStep::Stop
    ));
}

#[test]
fn refusals_answer_whoever_listens() {
    let refused = refuse(connect(1, "smollm2"), RuntimeError::ChannelClosed);
    assert!(matches!(
        refused.acknowledgement,
        Some((1, RuntimeError::ChannelClosed))
    ));
    let registry = RuntimeRegistry::defaults();
    let work: WorkerRequest<&str, (), &str, &str> = WorkerRequest::Generate {
        config: registry.get("smollm2").expect("registered").clone(),
        request: "prompt",
        status: None,
        connection_id: Some(ConnectionId(1)),
        sequence_number: Some(2),
        response: Some("listener"),
        reply: None,
    };
    let refused: Refusal<&str, &str, u8> = refuse_work(work);
    assert!(matches!(
        refused.event,
        Some(("listener", RuntimeResponseEvent::Error { sequence_number: 2, error: RuntimeError::ChannelClosed, .. }))
    ));
}

fn chunk(content: &str, finish: Option<&str>) -> StreamEvent {
    StreamEvent::Chunk {
        choices: vec![ChunkChoice {
            finish_reason: finish.map(str::to_string),
            content: Some(content.to_string()),
        }],
        has_usage: false,
    }
}

fn generation() -> Generation {
    let registry = RuntimeRegistry::defaults();
    match Generation::start(
        &registry,
        &ModelSet::of("smollm2"),
        "smollm2",
        true,
        Some(ConnectionId(1)),
        Some(2),
    ) {
        GenerationStart::Stream { generation, .. } => generation,
        _ => panic!("the model is loaded"),
    }
}

#[test]
fn generations_stream_and_end() {
    let mut generation = generation();
    let step = generation.deliver(chunk("hel", None));
    assert_eq!(
        step.events,
        vec![RuntimeResponseEvent::Chunk {
            connection_id: ConnectionId(1),
            sequence_number: 2,
            content: String::from("hel"),
        }]
    );
    assert_eq!(step.result, None);
    let step = generation.deliver(chunk("lo", Some("stop")));
    assert_eq!(step.result, Some(Ok(String::from("hello"))));
    assert_eq!(
        step.events.last(),
        Some(&RuntimeResponseEvent::Complete {
            connection_id: ConnectionId(1),
            sequence_number: 2,
        })
    );
}

#[test]
fn generations_end_with_the_stream() {
    let mut empty = generation();
    assert_eq!(
        empty.finish().result,
        Some(Err(RuntimeError::Inference(String::from(
            "stream ended before completion"
        ))))
    );
    empty.deliver(chunk("x", None));
    assert_eq!(empty.finish().result, Some(Ok(String::from("x"))));
    assert!(matches!(
        empty.stream_refused(String::from("no")).result,
        Some(Err(RuntimeError::Inference(message))) if message == "no"
    ));
}

#[test]
fn generations_load_models_first() {
    let registry = RuntimeRegistry::defaults();
    let start = |id: &str| Generation::start(&registry, &ModelSet::new(), id, false, None, None);
    assert!(matches!(
        start("nonsense"),
        GenerationStart::Unknown(RuntimeError::UnknownConfig(_))
    ));
    match start("smollm2") {
        GenerationStart::Load { status, generation } => {
            assert_eq!(
                status,
                RuntimeStatus::Loading {
                    config_id: String::from("smollm2"),
                    repo_id: generation.config().model.repo_id().to_string(),
                }
            );
            assert_eq!(generation.config().id, "smollm2");
            assert!(generation.model_loaded(Ok(())).is_ok());
            // Nobody listens, so the failure is only the result.
            let failed = generation.model_loaded(Err(RuntimeError::ChannelClosed));
            assert!(matches!(failed, Err(step) if step.events.is_empty()));
        }
        _ => panic!("the model is not loaded"),
    }
}

#[test]
fn workers_load_unload_and_stop() {
    let registry = RuntimeRegistry::defaults();
    let mut loaded = ModelSet::of("smollm2");
    let unload: WorkerRequest<(), (), (), ()> = WorkerRequest::Unload {
        config_id: String::from("smollm2"),
    };
    assert!(matches!(
        worker_step(&registry, &mut loaded, unload),
        WorkerStep::Unload { was_loaded: true, .. }
    ));
    assert!(!loaded.contains("smollm2"));
    let stop: WorkerRequest<(), (), (), ()> = WorkerRequest::Shutdown;
    assert!(matches!(
        worker_step(&registry, &mut loaded, stop),
        WorkerStep::Stop
    ));
}

fn markdown(text: &str) -> ParsedMarkdown {
    ParsedMarkdown {
        blocks: vec![MarkdownBlock {
            kind: BlockKind::Paragraph,
            raw: text.to_string(),
            display: None,
        }],
        tool_call_detected: false,
    }
}

#[test]
fn stream_items_become_job_events() {
    let tools = default_tools();
    let heard = |item: StreamItem, text: &str, enabled: bool| {
        job_event_for(
            1,
            2,
            item,
            markdown(text),
            enabled,
            ToolFormat::XmlJson,
            &tools,
        )
    };
    assert!(matches!(
        heard(StreamItem::Chunk, "a", true),
        JobEvent::Chunk { tab_id: 1, assistant_entry_id: 2, .. }
    ));
    let call = "<tool_call>{\"name\":\"read_file\",\"arguments\":{}}</tool_call>";
    assert!(matches!(
        heard(StreamItem::Complete, call, true),
        JobEvent::Complete { callouts, .. } if !callouts.is_empty()
    ));
    assert!(matches!(
        heard(StreamItem::Complete, call, false),
        JobEvent::Complete { callouts, .. } if callouts.is_empty()
    ));
    assert!(matches!(
        heard(StreamItem::Closed, "", true),
        JobEvent::Error { error, .. } if error == "runtime stream closed"
    ));
    assert!(matches!(
        heard(StreamItem::Error(RuntimeError::ChannelClosed), "", true),
        JobEvent::Error { error, .. } if error.starts_with("runtime error: ")
    ));
    assert!(!ends_stream(&StreamItem::Chunk));
    assert!(ends_stream(&StreamItem::Interrupted));
}
