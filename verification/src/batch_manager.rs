//! The pipeline of a run: attributes, then counts, then retrieval, then
//! persistence, strictly in this order. The manager decides what is done
//! next; its owner does it and reports what happened.

use crate::cli::{Arguments, ArgumentsModel};
use crate::counts::{ComponentCounter, CounterError, CounterModel};
use crate::json::{json_pointer, json_view};
use crate::request_sender::FetchError;
use crate::response_handler::{attribute_buckets_of, ResponseHandler, SPEC_AGGS_PATH};
use serde_json::Value;
use vstd::prelude::*;

verus! {

/// A phase of the pipeline.
#[derive(Debug, Clone, Copy, PartialEq, Eq, Structural)]
pub enum Phase {
    /// The buckets of the requested attributes are being discovered.
    Attributes,
    /// The combinations of buckets are being counted.
    Counts,
    /// The components of the combinations are being retrieved.
    Retrieval,
    /// The results are being written.
    Persistence,
    /// Nothing is left to do.
    Finished,
}

/// What the owner of the pipeline reports.
#[derive(Debug, Clone, Copy, PartialEq, Eq, Structural)]
pub enum PipelineEvent {
    /// Attribute discovery gave the buckets.
    AttributesFound,
    /// Attribute discovery failed.
    AttributesFailed,
    /// A fresh credential was obtained.
    CredentialRefreshed,
    /// Every combination has its count.
    CombinationsCounted,
    /// Every window has been retrieved.
    ComponentsRetrieved,
    /// The results have been written, or writing was declined.
    ResultsSaved,
}

/// What the owner of the pipeline has to do next.
#[derive(Debug, Clone, Copy, PartialEq, Eq, Structural)]
pub enum PipelineAction {
    /// Send the attribute discovery request.
    ScrapeAttributes,
    /// Tell the user that attribute discovery failed and obtain a fresh
    /// credential.
    RefreshCredential,
    /// Count the combinations.
    CountCombinations,
    /// Retrieve the components.
    RetrieveComponents,
    /// Write the results.
    SaveResults,
    /// Stop: the run is complete.
    Stop,
}

/// Why a step of the pipeline failed.
#[derive(Debug, Clone, Copy, PartialEq, Eq, Structural)]
pub enum PipelineError {
    /// A response could not be used.
    Fetch(FetchError),
    /// The combinations cannot be counted.
    Counter(CounterError),
}

/// The mathematical content of a [`BatchManager`].
pub struct PipelineModel {
    pub args: ArgumentsModel,
    pub batch_size: nat,
    pub phase: Phase,
    /// Whether attribute discovery failed and no fresh credential has come
    /// since.
    pub awaiting_credential: bool,
}

impl Phase {
    /// The place of a phase in the order of the pipeline.
    pub open spec fn rank(self) -> nat {
        match self {
            Phase::Attributes => 0,
            Phase::Counts => 1,
            Phase::Retrieval => 2,
            Phase::Persistence => 3,
            Phase::Finished => 4,
        }
    }
}

impl PipelineModel {
    /// A pipeline before its first step.
    pub open spec fn start(args: ArgumentsModel, batch_size: nat) -> PipelineModel {
        PipelineModel { args, batch_size, phase: Phase::Attributes, awaiting_credential: false }
    }

    /// The phase after an event: the event that completes the present
    /// phase leads to the next one, any other event leaves the phase as it
    /// is.
    pub open spec fn phase_after(self, event: PipelineEvent) -> Phase {
        match (self.phase, event) {
            (Phase::Attributes, PipelineEvent::AttributesFound) => if self.awaiting_credential {
                Phase::Attributes
            } else {
                Phase::Counts
            },
            (Phase::Counts, PipelineEvent::CombinationsCounted) => Phase::Retrieval,
            (Phase::Retrieval, PipelineEvent::ComponentsRetrieved) => Phase::Persistence,
            (Phase::Persistence, PipelineEvent::ResultsSaved) => Phase::Finished,
            _ => self.phase,
        }
    }

    /// The pipeline after an event. A failed attribute discovery makes the
    /// pipeline wait for a fresh credential; while it waits, only a fresh
    /// credential changes anything.
    pub open spec fn after(self, event: PipelineEvent) -> PipelineModel {
        PipelineModel {
            args: self.args,
            batch_size: self.batch_size,
            phase: self.phase_after(event),
            awaiting_credential: match event {
                PipelineEvent::AttributesFailed => self.awaiting_credential || self.phase
                    == Phase::Attributes,
                PipelineEvent::CredentialRefreshed => false,
                _ => self.awaiting_credential,
            },
        }
    }

    /// The pipeline after a sequence of events, taken in order.
    pub open spec fn after_all(self, events: Seq<PipelineEvent>) -> PipelineModel
        decreases events.len(),
    {
        if events.len() == 0 {
            self
        } else {
            self.after_all(events.drop_last()).after(events.last())
        }
    }

    /// What is to be done in this state.
    pub open spec fn action(self) -> PipelineAction {
        if self.awaiting_credential {
            PipelineAction::RefreshCredential
        } else {
            match self.phase {
                Phase::Attributes => PipelineAction::ScrapeAttributes,
                Phase::Counts => PipelineAction::CountCombinations,
                Phase::Retrieval => PipelineAction::RetrieveComponents,
                Phase::Persistence => PipelineAction::SaveResults,
                Phase::Finished => PipelineAction::Stop,
            }
        }
    }

    /// The pipeline with a new credential.
    pub open spec fn with_credential(self, key: Seq<char>) -> PipelineModel {
        PipelineModel {
            args: self.args.with_px(key),
            batch_size: self.batch_size,
            phase: self.phase,
            awaiting_credential: false,
        }
    }
}

/// The phases come in their order: an event never leads back to an
/// earlier phase and never skips one.
pub proof fn lemma_event_keeps_order(m: PipelineModel, event: PipelineEvent)
    ensures
        m.phase.rank() <= m.after(event).phase.rank() <= m.phase.rank() + 1,
{
}

/// Whatever happens, the pipeline is never in an earlier phase than it
/// was, and it has passed through as many events as phases at least.
pub proof fn lemma_phases_in_order(m: PipelineModel, events: Seq<PipelineEvent>)
    ensures
        m.phase.rank() <= m.after_all(events).phase.rank() <= m.phase.rank() + events.len(),
        m.after_all(events).args == m.args,
    decreases events.len(),
{
    if events.len() > 0 {
        lemma_phases_in_order(m, events.drop_last());
        lemma_event_keeps_order(m.after_all(events.drop_last()), events.last());
    }
}

/// Runs the pipeline of one category.
#[derive(Debug)]
pub struct BatchManager {
    args: Arguments,
    batch_size: usize,
    phase: Phase,
    awaiting_credential: bool,
}

impl View for BatchManager {
    type V = PipelineModel;

    closed spec fn view(&self) -> PipelineModel {
        PipelineModel {
            args: self.args@,
            batch_size: self.batch_size as nat,
            phase: self.phase,
            awaiting_credential: self.awaiting_credential,
        }
    }
}

impl BatchManager {
    /// A pipeline over the caller's arguments, before its first step.
    pub fn new(args: Arguments, batch_size: usize) -> (r: BatchManager)
        ensures
            r@ == PipelineModel::start(args@, batch_size as nat),
    {
        BatchManager { args, batch_size, phase: Phase::Attributes, awaiting_credential: false }
    }

    /// The arguments, with the credential as it is now.
    pub fn args(&self) -> (r: &Arguments)
        ensures
            r@ == self@.args,
    {
        &self.args
    }

    /// The largest number of tasks in one batch.
    pub fn batch_size(&self) -> (n: usize)
        ensures
            n == self@.batch_size,
    {
        self.batch_size
    }

    /// The present phase.
    pub fn phase(&self) -> (r: Phase)
        ensures
            r == self@.phase,
    {
        self.phase
    }

    /// What is to be done next.
    pub fn next_action(&self) -> (r: PipelineAction)
        ensures
            r == self@.action(),
    {
        if self.awaiting_credential {
            PipelineAction::RefreshCredential
        } else {
            match self.phase {
                Phase::Attributes => PipelineAction::ScrapeAttributes,
                Phase::Counts => PipelineAction::CountCombinations,
                Phase::Retrieval => PipelineAction::RetrieveComponents,
                Phase::Persistence => PipelineAction::SaveResults,
                Phase::Finished => PipelineAction::Stop,
            }
        }
    }

    /// Takes an event and says what is to be done next.
    pub fn run(&mut self, event: PipelineEvent) -> (r: PipelineAction)
        ensures
            final(self)@ == old(self)@.after(event),
            r == final(self)@.action(),
    {
        match event {
            PipelineEvent::AttributesFound => {
                if self.phase == Phase::Attributes && !self.awaiting_credential {
                    self.phase = Phase::Counts;
                }
            },
            PipelineEvent::AttributesFailed => {
                if self.phase == Phase::Attributes {
                    self.awaiting_credential = true;
                }
            },
            PipelineEvent::CredentialRefreshed => {
                self.awaiting_credential = false;
            },
            PipelineEvent::CombinationsCounted => {
                if self.phase == Phase::Counts {
                    self.phase = Phase::Retrieval;
                }
            },
            PipelineEvent::ComponentsRetrieved => {
                if self.phase == Phase::Retrieval {
                    self.phase = Phase::Persistence;
                }
            },
            PipelineEvent::ResultsSaved => {
                if self.phase == Phase::Persistence {
                    self.phase = Phase::Finished;
                }
            },
        }
        self.next_action()
    }

    /// Replaces the credential by the key that the user entered. Requests
    /// built from now on carry the new key.
    pub fn refresh_credential(&mut self, key: String)
        ensures
            final(self)@ == old(self)@.with_credential(key@),
    {
        self.args.prompt_user_for_new_px_key(key);
        self.awaiting_credential = false;
    }

    /// From the response to attribute discovery to the counter of the
    /// combinations: the buckets of the requested attributes are read and
    /// handed to a counter over the attributes in the caller's order.
    pub fn grab_component_count(
        response_handler: &ResponseHandler,
        attribute_ids: &Vec<String>,
        response: &Value,
    ) -> (r: Result<ComponentCounter, PipelineError>)
        ensures
            match attribute_buckets_of(
                json_pointer(json_view(*response), SPEC_AGGS_PATH@),
                attribute_ids.deep_view(),
            ) {
                Err(error) => r == Err::<ComponentCounter, PipelineError>(
                    PipelineError::Fetch(error),
                ),
                Ok(buckets) => match CounterModel::over(attribute_ids.deep_view(), buckets) {
                    Err(error) => r == Err::<ComponentCounter, PipelineError>(
                        PipelineError::Counter(error),
                    ),
                    Ok(model) => r matches Ok(counter) && counter@ == model,
                },
            },
    {
        let buckets = match response_handler.extract_buckets(response, attribute_ids) {
            Ok(buckets) => buckets,
            Err(error) => {
                return Err(PipelineError::Fetch(error));
            },
        };
        match ComponentCounter::new(attribute_ids, buckets) {
            Ok(counter) => Ok(counter),
            Err(error) => Err(PipelineError::Counter(error)),
        }
    }
}

} // verus!
