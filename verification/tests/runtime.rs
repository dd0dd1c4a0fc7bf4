use kablam::connections::{
    finish_opening, ConnectReply, ConnectionId, ConnectionLifecycleEvent, ConnectionOpener,
    ConnectionState, ConnectionTracker, Opening,
};
use kablam::messages::{connect_request, RuntimeRequest};
use kablam::router::{Router, RouterStep};
use kablam::runtime::{
    load_plan, runtime_backend, LoadMode, LoadPlan, Model, ModelSource, Quantization,
    RuntimeBuilder, RuntimeConfig, RuntimeError, RuntimeRegistry, RuntimeStatus,
};

#[test]
fn defaults_include_named_configs() {
    let registry = RuntimeRegistry::defaults();
    let ids: Vec<_> = registry
        .list()
        .iter()
        .map(|config| config.id.as_str())
        .collect();

    assert!(ids.contains(&"smollm2-360m"));
    assert!(ids.contains(&"smollm2-360m-isq4"));
    assert!(ids.contains(&"smollm2-360m-q4"));
    assert!(ids.contains(&"smollm2"));
    assert!(ids.contains(&"smollm2-q4"));
    assert!(ids.contains(&"smollm3-q4"));
    assert!(ids.contains(&"smollm3"));
    assert!(ids.contains(&"qwen3.5"));
    assert!(ids.contains(&"qwen3.5-q2k"));
}

#[test]
fn quantized_defaults_map_to_expected_sources() {
    let registry = RuntimeRegistry::defaults();

    let smollm2 = registry.get("smollm2-q4").expect("smollm2-q4 registered");
    assert_eq!(smollm2.model.repo_id(), "nakue/SmolLM2-1.7B-W4A16-instruct");
    assert_eq!(smollm2.model.quantization(), Quantization::Unquantized);

    let smollm3 = registry.get("smollm3-q4").expect("smollm3-q4 registered");
    assert_eq!(smollm3.model.repo_id(), "AINovice2005/quantized-SmolLM3-3B");
    assert_eq!(smollm3.model.quantization(), Quantization::Unquantized);

    let qwen = registry.get("qwen3.5-q2k").expect("qwen3.5-q2k registered");
    assert_eq!(qwen.model.repo_id(), "unsloth/Qwen3-4B-GGUF");
    assert_eq!(qwen.model.quantization(), Quantization::Unquantized);
    assert!(matches!(
        qwen.model.load_mode(),
        LoadMode::Gguf {
            quantized_model_id: "unsloth/Qwen3-4B-GGUF",
            ..
        }
    ));

    let smollm2_360m = registry
        .get("smollm2-360m-isq4")
        .expect("smollm2-360m-isq4 registered");
    assert_eq!(
        smollm2_360m.model.repo_id(),
        "HuggingFaceTB/SmolLM2-360M-Instruct"
    );
    assert_eq!(smollm2_360m.model.quantization(), Quantization::AutoIsq4);

    let smollm2_360m_q4 = registry
        .get("smollm2-360m-q4")
        .expect("smollm2-360m-q4 registered");
    assert_eq!(
        smollm2_360m_q4.model.repo_id(),
        "HuggingFaceTB/SmolLM2-360M-Instruct"
    );
    assert_eq!(smollm2_360m_q4.model.quantization(), Quantization::AutoIsq4);
}

#[test]
fn connection_tracker_loads_on_first_connection_only() {
    let mut tracker = ConnectionTracker::default();

    assert_eq!(
        tracker.connect(ConnectionId(1), "smollm3".into()),
        Some(ConnectionLifecycleEvent::Load("smollm3".into()))
    );
    assert_eq!(tracker.connect(ConnectionId(2), "smollm3".into()), None);
}

#[test]
fn connection_tracker_unloads_on_final_disconnect_only() {
    let mut tracker = ConnectionTracker::default();
    tracker.connect(ConnectionId(1), "smollm3".into());
    tracker.connect(ConnectionId(2), "smollm3".into());

    assert_eq!(tracker.disconnect(ConnectionId(1)), None);
    assert_eq!(
        tracker.disconnect(ConnectionId(2)),
        Some(ConnectionLifecycleEvent::Unload("smollm3".into()))
    );
}

#[test]
fn connection_tracker_duplicate_disconnect_is_noop() {
    let mut tracker = ConnectionTracker::default();
    tracker.connect(ConnectionId(1), "smollm3".into());

    assert_eq!(
        tracker.disconnect(ConnectionId(1)),
        Some(ConnectionLifecycleEvent::Unload("smollm3".into()))
    );
    assert_eq!(tracker.disconnect(ConnectionId(1)), None);
}

#[test]
fn repeated_connection_keeps_its_model() {
    let mut tracker = ConnectionTracker::default();
    tracker.connect(ConnectionId(1), "a".into());
    assert_eq!(tracker.connect(ConnectionId(1), "b".into()), None);
    assert_eq!(
        tracker.disconnect(ConnectionId(1)),
        Some(ConnectionLifecycleEvent::Unload("a".into()))
    );
}

#[test]
fn load_plans_follow_the_source() {
    let registry = RuntimeRegistry::defaults();
    assert_eq!(
        load_plan(&registry.get("qwen3.5-q2k").unwrap().model),
        LoadPlan::Gguf {
            model_id: "unsloth/Qwen3-4B-GGUF".into(),
            filenames: vec!["Qwen3-4B-Q2_K.gguf".into()],
        }
    );
    assert_eq!(
        load_plan(&registry.get("smollm3").unwrap().model),
        LoadPlan::Repository {
            repo_id: "HuggingFaceTB/SmolLM3-3B".into(),
            isq_bits: Some(4),
        }
    );
    assert_eq!(
        load_plan(&registry.get("smollm3-fp16").unwrap().model),
        LoadPlan::Repository {
            repo_id: "HuggingFaceTB/SmolLM3-3B".into(),
            isq_bits: None,
        }
    );
}

#[test]
fn backends_are_chosen_in_order() {
    assert_eq!(runtime_backend(true, true, true), "cuda");
    assert_eq!(runtime_backend(false, true, false), "metal");
    assert_eq!(runtime_backend(false, false, true), "metal");
    assert_eq!(runtime_backend(false, false, false), "cpu");
}

#[test]
fn messages_say_what_happens() {
    assert_eq!(RuntimeStatus::Queued { config_id: "m".into() }.message(), "queued for m");
    assert_eq!(
        RuntimeStatus::Loading { config_id: "m".into(), repo_id: "r".into() }.message(),
        "loading model m from r"
    );
    assert_eq!(RuntimeStatus::Generating { config_id: "m".into() }.message(), "generating with m");
    assert_eq!(RuntimeError::UnknownConfig("m".into()).message(), "unknown runtime config: m");
    assert_eq!(RuntimeError::ModelBuild("m".into()).message(), "failed to build model: m");
    assert_eq!(RuntimeError::Inference("m".into()).message(), "inference failed: m");
    assert_eq!(RuntimeError::ChannelClosed.message(), "runtime request channel closed");
    assert_eq!(RuntimeError::ConnectionClosed.message(), "runtime connection closed");
}

#[test]
fn builders_plan_their_workers() {
    let (registry, workers) = RuntimeBuilder::new().build();
    assert_eq!(workers, registry.ids());
    let (_, workers) = RuntimeBuilder::new().with_worker_count(0).build();
    assert_eq!(workers, vec!["smollm2-360m"]);
    let own = RuntimeConfig::new(
        "own",
        Model::Qwen35(ModelSource::new("me/own", Quantization::Unquantized)),
    );
    let (registry, workers) = RuntimeBuilder::default()
        .with_registry(RuntimeRegistry::new(vec![]))
        .with_config(own.clone())
        .with_worker_count(7)
        .build();
    assert_eq!(registry.list(), &[own]);
    assert_eq!(workers, vec!["own"]);
    let (_, workers) = RuntimeBuilder::new().with_registry(RuntimeRegistry::default()).build();
    assert!(workers.is_empty());
}

#[test]
fn connections_are_numbered_from_one() {
    let mut opener = ConnectionOpener::new(RuntimeRegistry::defaults());
    assert_eq!(opener.open("smollm3"), Ok(ConnectionId(1)));
    assert_eq!(
        opener.open("none"),
        Err(RuntimeError::UnknownConfig("none".into()))
    );
    assert_eq!(opener.open("qwen3.5"), Ok(ConnectionId(2)));
    assert_eq!(ConnectionId(120).to_text(), "120");
}

#[test]
fn closed_connections_take_no_requests() {
    let mut connection = ConnectionState::new(ConnectionId(4), "smollm3");
    assert_eq!(connection.id(), ConnectionId(4));
    assert_eq!(connection.config_id(), "smollm3");
    assert_eq!(connection.begin_request(), Ok(1));
    assert_eq!(connection.begin_request(), Ok(2));
    assert!(connection.begin_close());
    assert!(!connection.begin_close());
    assert_eq!(connection.begin_request(), Err(RuntimeError::ConnectionClosed));
}

/// Asks a router for a connection, and opens it by the answer.
fn asked(router: &mut Router, id: u64, config_id: &str) -> Opening {
    let request: RuntimeRequest<(), (), (), (), u8> =
        connect_request(ConnectionId(id), config_id, 7);
    match router.handle(request) {
        RouterStep::Acknowledge { reply: 7, result } => {
            finish_opening(ConnectionId(id), config_id, ConnectReply::Answered(result))
        }
        _ => panic!("a connection is acknowledged"),
    }
}

#[test]
fn an_accepted_connection_is_open() {
    let registry = RuntimeRegistry::defaults();
    let mut router = Router::new(registry, vec![String::from("smollm3")]);
    match asked(&mut router, 3, "smollm3") {
        Opening::Open(mut connection) => {
            assert_eq!(connection.id(), ConnectionId(3));
            assert_eq!(connection.config_id(), "smollm3");
            assert_eq!(connection.begin_request(), Ok(1));
        }
        Opening::Failed { .. } => panic!("the model can be run"),
    }
    assert!(matches!(
        asked(&mut router, 4, "none"),
        Opening::Failed { error: RuntimeError::UnknownConfig(id), forget: true } if id == "none"
    ));
}

#[test]
fn a_connection_that_was_not_answered_is_not_open() {
    let opened = |reply: ConnectReply| finish_opening(ConnectionId(1), "smollm3", reply);
    assert!(matches!(
        opened(ConnectReply::Undelivered),
        Opening::Failed { error: RuntimeError::ChannelClosed, forget: true }
    ));
    assert!(matches!(
        opened(ConnectReply::Unanswered),
        Opening::Failed { error: RuntimeError::ChannelClosed, forget: false }
    ));
    assert!(matches!(
        opened(ConnectReply::Answered(Err(RuntimeError::ConnectionClosed))),
        Opening::Failed { error: RuntimeError::ConnectionClosed, forget: true }
    ));
}
