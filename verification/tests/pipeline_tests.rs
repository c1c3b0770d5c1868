use omniarb::block_listener::BlockListener;
use omniarb::dex_stream::{DexStream, PriceSnapshot};
use omniarb::envelope::{EncodingError, MalformedEventError, SignalKind};
use omniarb::payload::decode_route_payload;
use omniarb::pipeline::{Action, Anomaly, Event, EventPipeline, PipelineState};
use omniarb::prefilter::{Route, RoutePrefilter};
use omniarb::signal_bridge::SignalBridge;

fn pipeline() -> EventPipeline {
    EventPipeline::new(
        BlockListener::new("wss://node", 137),
        DexStream::new("wss://dex"),
        RoutePrefilter::new(10_000, 4),
        SignalBridge::new(),
    )
}

fn route(hops: &[&str], profit: i64) -> Route {
    Route {
        hops: hops.iter().map(|s| s.to_string()).collect(),
        estimated_profit: profit,
        token_path: vec!["WETH".to_string(), "DAI".to_string()],
    }
}

#[test]
fn states_run_in_a_cycle() {
    let mut p = pipeline();
    assert_eq!(p.state, PipelineState::Idle);
    assert!(matches!(p.handle(Event::Shutdown, 0), Action::Nothing));
    assert_eq!(p.state, PipelineState::Idle);
    assert!(matches!(p.handle(Event::Start, 0), Action::Nothing));
    assert_eq!(p.state, PipelineState::Ingesting);
    assert!(matches!(p.handle(Event::Flushed, 0), Action::Nothing));
    assert_eq!(p.state, PipelineState::Ingesting);
    assert!(matches!(p.handle(Event::Shutdown, 0), Action::Flush));
    assert_eq!(p.state, PipelineState::Draining);
    assert!(matches!(p.handle(Event::Start, 0), Action::Nothing));
    assert_eq!(p.state, PipelineState::Draining);
    assert!(matches!(p.handle(Event::Flushed, 0), Action::Nothing));
    assert_eq!(p.state, PipelineState::Idle);
}

#[test]
fn accepted_route_is_forwarded_in_an_envelope() {
    let mut p = pipeline();
    p.handle(Event::Start, 0);
    match p.handle(Event::Candidate(route(&["a", "b", "c"], 20_000)), 77) {
        Action::Forward(envelope) => {
            assert_eq!(envelope.kind, SignalKind::RouteAccepted);
            assert_eq!(envelope.sequence, 0);
            let (hops, token_path) = decode_route_payload(&envelope.payload).unwrap();
            assert_eq!(hops, vec!["a".to_string(), "b".to_string(), "c".to_string()]);
            assert_eq!(token_path, vec!["WETH".to_string(), "DAI".to_string()]);
        },
        _ => panic!("an accepted route is forwarded"),
    }
    assert_eq!(p.bridge.signal_count, 1);
    assert_eq!(p.bridge.last_sent_at, 77);
    match p.handle(Event::Candidate(route(&["a"], 10_000)), 78) {
        Action::Forward(envelope) => assert_eq!(envelope.sequence, 1),
        _ => panic!("a route at the threshold is forwarded"),
    }
}

#[test]
fn rejected_route_is_dropped_in_silence() {
    let mut p = pipeline();
    p.handle(Event::Start, 0);
    assert!(matches!(p.handle(Event::Candidate(route(&["a", "b", "c", "d", "e"], 900_000)), 1), Action::Nothing));
    assert!(matches!(p.handle(Event::Candidate(route(&["a"], 9_999)), 1), Action::Nothing));
    assert_eq!(p.rejected, 2);
    assert_eq!(p.anomalies, 0);
    assert_eq!(p.bridge.signal_count, 0);
}

#[test]
fn route_without_hops_is_an_anomaly() {
    let mut p = pipeline();
    p.handle(Event::Start, 0);
    assert!(matches!(p.handle(Event::Candidate(route(&[], 900_000)), 1), Action::Report(Anomaly::EmptyRoute)));
    assert_eq!(p.anomalies, 1);
    assert_eq!(p.rejected, 0);
    assert_eq!(p.bridge.signal_count, 0);
}

#[test]
fn blocks_move_the_watcher_only_forward() {
    let mut p = pipeline();
    p.handle(Event::Start, 0);
    assert!(matches!(p.handle(Event::Block { chain_id: 137, height: 50 }, 1), Action::Nothing));
    assert!(matches!(p.handle(Event::Block { chain_id: 137, height: 50 }, 1), Action::Nothing));
    assert_eq!(p.watcher.get_latest_block(), 50);
    assert!(matches!(
        p.handle(Event::Block { chain_id: 137, height: 49 }, 1),
        Action::Report(Anomaly::HeightRegression)
    ));
    assert!(matches!(p.handle(Event::Block { chain_id: 1, height: 900 }, 1), Action::Report(Anomaly::WrongChain)));
    assert_eq!(p.watcher.get_latest_block(), 50);
    assert_eq!(p.anomalies, 2);
}

#[test]
fn prices_reach_the_feed_while_ingesting() {
    let mut p = pipeline();
    let s = PriceSnapshot { exchange_id: 1, token_pair: 2, price: 3, liquidity: 4, observed_at: 5 };
    p.handle(Event::Price(s), 5);
    assert_eq!(p.feed.get(1, 2, 5), None);
    p.handle(Event::Start, 5);
    p.handle(Event::Price(s), 5);
    assert_eq!(p.feed.get(1, 2, 5), Some(s));
    let older = PriceSnapshot { exchange_id: 1, token_pair: 2, price: 9, liquidity: 4, observed_at: 4 };
    assert!(matches!(p.handle(Event::Price(older), 5), Action::Nothing));
    assert_eq!(p.feed.get(1, 2, 5), Some(s));
    assert_eq!(p.feed.stale_updates, 1);
}

#[test]
fn draining_takes_no_new_routes() {
    let mut p = pipeline();
    p.handle(Event::Start, 0);
    p.handle(Event::Shutdown, 0);
    assert!(matches!(p.handle(Event::Candidate(route(&["a"], 900_000)), 1), Action::Nothing));
    assert!(matches!(p.handle(Event::Block { chain_id: 137, height: 50 }, 1), Action::Nothing));
    assert_eq!(p.bridge.signal_count, 0);
    assert_eq!(p.watcher.get_latest_block(), 0);
    assert_eq!(p.rejected, 0);
}

#[test]
fn exhausted_bridge_is_reported() {
    let mut p = EventPipeline::new(
        BlockListener::new("wss://node", 137),
        DexStream::new("wss://dex"),
        RoutePrefilter::new(0, 4),
        SignalBridge::starting_at(u64::MAX),
    );
    p.handle(Event::Start, 0);
    assert!(matches!(
        p.handle(Event::Candidate(route(&["a"], 1)), 1),
        Action::Report(Anomaly::Encoding(EncodingError::SequenceExhausted))
    ));
    assert_eq!(p.anomalies, 1);
}

#[test]
fn malformed_inbound_event_is_dropped_and_counted() {
    let mut p = pipeline();
    assert!(matches!(
        p.malformed(MalformedEventError::Truncated),
        Action::Report(Anomaly::Malformed(MalformedEventError::Truncated))
    ));
    assert_eq!(p.anomalies, 1);
    assert_eq!(p.state, PipelineState::Idle);
    p.handle(Event::Start, 0);
    let error = p.bridge.receive(&[9, 0, 0, 0, 0, 0, 0, 0, 0, 0, 0, 0, 0]).unwrap_err();
    assert!(matches!(p.malformed(error), Action::Report(Anomaly::Malformed(MalformedEventError::UnknownKind))));
    assert_eq!(p.anomalies, 2);
    assert_eq!(p.state, PipelineState::Ingesting);
    assert_eq!(p.bridge.expected_inbound, 0);
    assert_eq!(p.rejected, 0);
    p.anomalies = u64::MAX;
    p.malformed(MalformedEventError::InvalidUtf8);
    assert_eq!(p.anomalies, u64::MAX);
}
