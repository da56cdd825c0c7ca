use scraper2::batch_manager::{BatchManager, Phase, PipelineAction, PipelineEvent};
use scraper2::cli::Arguments;
use scraper2::config::BATCH_SIZE;

fn manager() -> BatchManager {
    let mut args = Arguments::default();
    args.px = Some("old".to_string());
    BatchManager::new(args, BATCH_SIZE)
}

#[test]
fn pipeline_starts_with_the_attributes() {
    let m = manager();
    assert_eq!(m.phase(), Phase::Attributes);
    assert_eq!(m.next_action(), PipelineAction::ScrapeAttributes);
    assert_eq!(m.batch_size(), 100);
    assert_eq!(m.args().px.as_deref(), Some("old"));
}

#[test]
fn phases_follow_in_their_order() {
    let mut m = manager();
    assert_eq!(m.run(PipelineEvent::AttributesFound), PipelineAction::CountCombinations);
    assert_eq!(m.phase(), Phase::Counts);
    assert_eq!(m.run(PipelineEvent::CombinationsCounted), PipelineAction::RetrieveComponents);
    assert_eq!(m.phase(), Phase::Retrieval);
    assert_eq!(m.run(PipelineEvent::ComponentsRetrieved), PipelineAction::SaveResults);
    assert_eq!(m.phase(), Phase::Persistence);
    assert_eq!(m.run(PipelineEvent::ResultsSaved), PipelineAction::Stop);
    assert_eq!(m.phase(), Phase::Finished);
    assert_eq!(m.run(PipelineEvent::AttributesFound), PipelineAction::Stop);
    assert_eq!(m.phase(), Phase::Finished);
}

#[test]
fn events_out_of_order_change_nothing() {
    let mut m = manager();
    for event in [
        PipelineEvent::CombinationsCounted,
        PipelineEvent::ComponentsRetrieved,
        PipelineEvent::ResultsSaved,
        PipelineEvent::CredentialRefreshed,
    ] {
        assert_eq!(m.run(event), PipelineAction::ScrapeAttributes);
        assert_eq!(m.phase(), Phase::Attributes);
    }
    m.run(PipelineEvent::AttributesFound);
    assert_eq!(m.run(PipelineEvent::ResultsSaved), PipelineAction::CountCombinations);
    assert_eq!(m.run(PipelineEvent::AttributesFailed), PipelineAction::CountCombinations);
    assert_eq!(m.phase(), Phase::Counts);
}

#[test]
fn failed_discovery_waits_for_a_fresh_credential() {
    let mut m = manager();
    assert_eq!(m.run(PipelineEvent::AttributesFailed), PipelineAction::RefreshCredential);
    assert_eq!(m.run(PipelineEvent::AttributesFound), PipelineAction::RefreshCredential);
    assert_eq!(m.phase(), Phase::Attributes);
    m.refresh_credential("fresh".to_string());
    assert_eq!(m.args().px.as_deref(), Some("fresh"));
    assert_eq!(m.next_action(), PipelineAction::ScrapeAttributes);
    assert_eq!(m.run(PipelineEvent::AttributesFailed), PipelineAction::RefreshCredential);
    assert_eq!(m.run(PipelineEvent::CredentialRefreshed), PipelineAction::ScrapeAttributes);
    assert_eq!(m.run(PipelineEvent::AttributesFound), PipelineAction::CountCombinations);
}
