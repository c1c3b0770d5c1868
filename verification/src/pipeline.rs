//! The event pipeline: the merge point of block heights, price snapshots and
//! candidate routes. Each event is one step of a state machine; the caller
//! performs the action that the step hands out.

use crate::block_listener::BlockListener;
use crate::counter::{count_one, counted};
use crate::dex_stream::{table_update, update_is_stale, DexStream, PriceSnapshot};
use crate::envelope::{EncodingError, MalformedEventError, SignalEnvelope, SignalKind};
use crate::payload::{encodable, encode_route_payload, payload_bytes, texts};
use crate::prefilter::{Route, RoutePrefilter};
use crate::signal_bridge::SignalBridge;
use vstd::prelude::*;

verus! {

/// Where the pipeline stands in its cycle.
#[derive(Clone, Copy, Debug, PartialEq, Eq, Structural)]
pub enum PipelineState {
    Idle,
    Ingesting,
    Draining,
}

/// What can reach the pipeline.
pub enum Event {
    /// Begin to ingest.
    Start,
    /// A chain reports a block height.
    Block { chain_id: u64, height: u64 },
    /// A feed reports a price.
    Price(PriceSnapshot),
    /// A candidate route arrives.
    Candidate(Route),
    /// Stop taking routes and flush what is queued.
    Shutdown,
    /// The queued envelopes have been flushed.
    Flushed,
}

/// What was wrong with an event that was dropped.
#[derive(Clone, Copy, Debug, PartialEq, Eq, Structural)]
pub enum Anomaly {
    /// A block of a chain that is not watched.
    WrongChain,
    /// A block height below the one already seen.
    HeightRegression,
    /// A route without hops.
    EmptyRoute,
    /// An accepted route that could not be put in an envelope.
    Encoding(EncodingError),
    /// Inbound bytes that are no event.
    Malformed(MalformedEventError),
}

/// What the caller is to do after a step.
pub enum Action {
    Nothing,
    /// Deliver this envelope across the process boundary.
    Forward(SignalEnvelope),
    /// Flush the queued envelopes, then hand in `Event::Flushed`.
    Flush,
    /// Log this anomaly; the event was dropped.
    Report(Anomaly),
}

/// The pipeline and the state it merges events into.
pub struct EventPipeline {
    pub state: PipelineState,
    pub watcher: BlockListener,
    pub feed: DexStream,
    pub prefilter: RoutePrefilter,
    pub bridge: SignalBridge,
    /// Events dropped as anomalies.
    pub anomalies: u64,
    /// Routes that the prefilter turned down.
    pub rejected: u64,
}

/// The cycle `Idle → Ingesting → Draining → Idle`: only `Start`, `Shutdown`
/// and `Flushed` move the state, each from one state only.
pub open spec fn next_state(state: PipelineState, event: Event) -> PipelineState {
    match (state, event) {
        (PipelineState::Idle, Event::Start) => PipelineState::Ingesting,
        (PipelineState::Ingesting, Event::Shutdown) => PipelineState::Draining,
        (PipelineState::Draining, Event::Flushed) => PipelineState::Idle,
        _ => state,
    }
}

/// The anomaly for which an event is dropped while ingesting, if any.
pub open spec fn anomaly_of(pipeline: EventPipeline, event: Event) -> Option<Anomaly> {
    match event {
        Event::Block { chain_id, height } => if chain_id != pipeline.watcher.chain_id {
            Some(Anomaly::WrongChain)
        } else if height < pipeline.watcher.latest_block {
            Some(Anomaly::HeightRegression)
        } else {
            None
        },
        Event::Candidate(route) => if route.hops@.len() == 0 {
            Some(Anomaly::EmptyRoute)
        } else if !pipeline.prefilter.accepts(route) {
            None
        } else if !(encodable(texts(route.hops@)) && encodable(texts(route.token_path@))) || payload_bytes(
            texts(route.hops@),
            texts(route.token_path@),
        ).len() > u32::MAX {
            Some(Anomaly::Encoding(EncodingError::TooLong))
        } else if pipeline.bridge.signal_count == u64::MAX {
            Some(Anomaly::Encoding(EncodingError::SequenceExhausted))
        } else {
            None
        },
        _ => None,
    }
}

/// Whether a route is forwarded while ingesting: it has hops, passes the
/// prefilter and can be put in an envelope.
pub open spec fn forwards(pipeline: EventPipeline, route: Route) -> bool {
    &&& route.hops@.len() > 0
    &&& pipeline.prefilter.accepts(route)
    &&& anomaly_of(pipeline, Event::Candidate(route)) is None
}

impl EventPipeline {
    /// An idle pipeline around these parts.
    pub fn new(watcher: BlockListener, feed: DexStream, prefilter: RoutePrefilter, bridge: SignalBridge) -> (result:
        Self)
        ensures
            result.state == PipelineState::Idle,
            result.watcher == watcher,
            result.feed == feed,
            result.prefilter == prefilter,
            result.bridge == bridge,
            result.anomalies == 0,
            result.rejected == 0,
    {
        EventPipeline { state: PipelineState::Idle, watcher, feed, prefilter, bridge, anomalies: 0, rejected: 0 }
    }

    /// One step. The state follows `next_state`. Blocks, prices and routes
    /// count only while ingesting; in the other states they are dropped in
    /// silence. While ingesting, an event with an anomaly is dropped,
    /// counted and reported, and changes nothing else; a block moves the
    /// watcher to its height; a price updates the feed's table; a route is
    /// held against the prefilter at once and, if accepted, numbered by the
    /// bridge and handed out in a `RouteAccepted` envelope.
    pub fn handle(&mut self, event: Event, now: u64) -> (action: Action)
        ensures
            final(self).state == next_state(old(self).state, event),
            final(self).prefilter == old(self).prefilter,
            final(self).watcher.chain_id == old(self).watcher.chain_id,
            final(self).watcher.rpc_url == old(self).watcher.rpc_url,
            final(self).watcher.connected == old(self).watcher.connected,
            final(self).watcher.latest_block >= old(self).watcher.latest_block,
            old(self).state != PipelineState::Ingesting ==> {
                &&& final(self).watcher == old(self).watcher
                &&& final(self).feed == old(self).feed
                &&& final(self).bridge == old(self).bridge
                &&& final(self).anomalies == old(self).anomalies
                &&& final(self).rejected == old(self).rejected
                &&& action is Nothing
            },
            old(self).state == PipelineState::Ingesting ==> match anomaly_of(*old(self), event) {
                Some(anomaly) => {
                    &&& action == Action::Report(anomaly)
                    &&& final(self).anomalies == counted(old(self).anomalies)
                    &&& final(self).rejected == old(self).rejected
                    &&& final(self).watcher == old(self).watcher
                    &&& final(self).feed == old(self).feed
                    &&& final(self).bridge == old(self).bridge
                },
                None => {
                    &&& final(self).anomalies == old(self).anomalies
                    &&& match event {
                        Event::Block { chain_id, height } => {
                            &&& action is Nothing
                            &&& final(self).watcher.latest_block == height
                            &&& final(self).feed == old(self).feed
                            &&& final(self).bridge == old(self).bridge
                            &&& final(self).rejected == old(self).rejected
                        },
                        Event::Price(snapshot) => {
                            &&& action is Nothing
                            &&& final(self).feed.prices@ == table_update(old(self).feed.prices@, snapshot)
                            &&& final(self).feed.max_staleness == old(self).feed.max_staleness
                            &&& final(self).feed.url == old(self).feed.url
                            &&& final(self).feed.connected == old(self).feed.connected
                            &&& final(self).feed.stale_updates == if update_is_stale(
                                old(self).feed.prices@,
                                snapshot,
                            ) {
                                counted(old(self).feed.stale_updates)
                            } else {
                                old(self).feed.stale_updates
                            }
                            &&& final(self).watcher == old(self).watcher
                            &&& final(self).bridge == old(self).bridge
                            &&& final(self).rejected == old(self).rejected
                        },
                        Event::Candidate(route) => {
                            &&& final(self).watcher == old(self).watcher
                            &&& final(self).feed == old(self).feed
                            &&& if forwards(*old(self), route) {
                                &&& action matches Action::Forward(envelope)
                                &&& envelope.kind == SignalKind::RouteAccepted
                                &&& envelope.sequence == old(self).bridge.signal_count
                                &&& envelope.payload@ == payload_bytes(
                                    texts(route.hops@),
                                    texts(route.token_path@),
                                )
                                &&& final(self).bridge.signal_count == old(self).bridge.signal_count + 1
                                &&& final(self).bridge.last_sent_at == now
                                &&& final(self).bridge.expected_inbound == old(self).bridge.expected_inbound
                                &&& final(self).bridge.heartbeat_interval == old(
                                    self,
                                ).bridge.heartbeat_interval
                                &&& final(self).rejected == old(self).rejected
                            } else {
                                &&& action is Nothing
                                &&& final(self).bridge == old(self).bridge
                                &&& final(self).rejected == counted(old(self).rejected)
                            }
                        },
                        Event::Shutdown => {
                            &&& action is Flush
                            &&& final(self).watcher == old(self).watcher
                            &&& final(self).feed == old(self).feed
                            &&& final(self).bridge == old(self).bridge
                            &&& final(self).rejected == old(self).rejected
                        },
                        _ => {
                            &&& action is Nothing
                            &&& final(self).watcher == old(self).watcher
                            &&& final(self).feed == old(self).feed
                            &&& final(self).bridge == old(self).bridge
                            &&& final(self).rejected == old(self).rejected
                        },
                    }
                },
            },
    {
        match self.state {
            PipelineState::Idle => {
                if let Event::Start = event {
                    self.state = PipelineState::Ingesting;
                }
                Action::Nothing
            },
            PipelineState::Draining => {
                if let Event::Flushed = event {
                    self.state = PipelineState::Idle;
                }
                Action::Nothing
            },
            PipelineState::Ingesting => match event {
                Event::Start => Action::Nothing,
                Event::Flushed => Action::Nothing,
                Event::Shutdown => {
                    self.state = PipelineState::Draining;
                    Action::Flush
                },
                Event::Block { chain_id, height } => {
                    if chain_id != self.watcher.chain_id {
                        self.anomalies = count_one(self.anomalies);
                        Action::Report(Anomaly::WrongChain)
                    } else if height < self.watcher.latest_block {
                        self.anomalies = count_one(self.anomalies);
                        Action::Report(Anomaly::HeightRegression)
                    } else {
                        self.watcher.observe(height);
                        Action::Nothing
                    }
                },
                Event::Price(snapshot) => {
                    self.feed.update(snapshot);
                    Action::Nothing
                },
                Event::Candidate(route) => {
                    if route.hops.len() == 0 {
                        self.anomalies = count_one(self.anomalies);
                        return Action::Report(Anomaly::EmptyRoute);
                    }
                    if !self.prefilter.filter_route(&route) {
                        self.rejected = count_one(self.rejected);
                        return Action::Nothing;
                    }
                    let payload = match encode_route_payload(&route.hops, &route.token_path) {
                        Ok(payload) => payload,
                        Err(e) => {
                            self.anomalies = count_one(self.anomalies);
                            return Action::Report(Anomaly::Encoding(e));
                        },
                    };
                    match self.bridge.send(SignalKind::RouteAccepted, payload, now) {
                        Ok(envelope) => Action::Forward(envelope),
                        Err(e) => {
                            self.anomalies = count_one(self.anomalies);
                            Action::Report(Anomaly::Encoding(e))
                        },
                    }
                },
            },
        }
    }

    /// Takes an inbound event that could not be read. It is dropped and
    /// counted, in whatever state the pipeline stands, and handed out for
    /// the log; the pipeline goes on as it was.
    pub fn malformed(&mut self, error: MalformedEventError) -> (action: Action)
        ensures
            action == Action::Report(Anomaly::Malformed(error)),
            final(self).anomalies == counted(old(self).anomalies),
            final(self).state == old(self).state,
            final(self).watcher == old(self).watcher,
            final(self).feed == old(self).feed,
            final(self).prefilter == old(self).prefilter,
            final(self).bridge == old(self).bridge,
            final(self).rejected == old(self).rejected,
    {
        self.anomalies = count_one(self.anomalies);
        Action::Report(Anomaly::Malformed(error))
    }
}

/// The states form a cycle: start, shut down and flush, in this order,
/// bring an idle pipeline back to idle, through ingesting and draining.
pub proof fn lemma_state_cycle()
    ensures
        next_state(PipelineState::Idle, Event::Start) == PipelineState::Ingesting,
        next_state(PipelineState::Ingesting, Event::Shutdown) == PipelineState::Draining,
        next_state(PipelineState::Draining, Event::Flushed) == PipelineState::Idle,
{
}

} // verus!
