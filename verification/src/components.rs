//! The component retriever: each combination's result set is cut into
//! pagination windows below the server's ceiling, and the run keeps count of
//! what it harvests and what it has to miss.

use crate::config::{OCTOPART_COMPONENT_COMBINATION_LIMIT, OCTOPART_COMPONENT_REQUEST_LIMIT};
use crate::json::{json_clone, json_view, json_views, Json};
use crate::request_sender::{FetchError, RequestModel, RequestSender};
use crate::response_handler::ResponseHandler;
use crate::types::{
    concat_all, distinct_filters, filters_from_pins, filters_of_pins, lemma_filters_of_pins,
    FilterCombination, FilterCombinationModel, FilterCombinations, PartitionModel,
    PartitionedCombination, PartitionedCombinations,
};
use serde_json::Value;
use vstd::prelude::*;

verus! {

/// The largest number of components that one request asks for.
pub open spec fn page() -> nat {
    OCTOPART_COMPONENT_REQUEST_LIMIT as nat
}

/// The largest number of components harvested for one combination.
pub open spec fn cap() -> nat {
    OCTOPART_COMPONENT_COMBINATION_LIMIT as nat
}

/// The number of components harvested for a combination of the given
/// count: all of them up to the ceiling.
pub open spec fn harvested(count: nat) -> nat {
    if count <= cap() {
        count
    } else {
        cap()
    }
}

/// The number of components of a combination that lie beyond the ceiling.
pub open spec fn missed(count: nat) -> nat {
    if count > cap() {
        (count - cap()) as nat
    } else {
        0
    }
}

/// The number of windows of a combination of the given count.
pub open spec fn window_count(count: nat) -> nat {
    ((harvested(count) + page() - 1) / (page() as int)) as nat
}

/// Where window `k` of a combination starts.
pub open spec fn window_start(k: int) -> nat {
    (k * page()) as nat
}

/// Where window `k` of a combination ends: a page after its start, or
/// where the harvest ends if that comes first.
pub open spec fn window_end(count: nat, k: int) -> nat {
    if (k + 1) * page() <= harvested(count) {
        ((k + 1) * page()) as nat
    } else {
        harvested(count)
    }
}

/// The windows of one combination, each with the combination's filters.
pub open spec fn windows_of(c: FilterCombinationModel) -> Seq<PartitionModel> {
    Seq::new(
        window_count(c.count),
        |k: int|
            PartitionModel {
                filters: filters_of_pins(c.combination),
                start: window_start(k),
                end: window_end(c.count, k),
            },
    )
}

/// The windows of all combinations, combination by combination.
pub open spec fn partitions_of(combinations: Seq<FilterCombinationModel>) -> Seq<PartitionModel>
    decreases combinations.len(),
{
    if combinations.len() == 0 {
        Seq::empty()
    } else {
        partitions_of(combinations.drop_last()) + windows_of(combinations.last())
    }
}

/// The number of components that the combinations hold on the server.
pub open spec fn total_count(combinations: Seq<FilterCombinationModel>) -> nat
    decreases combinations.len(),
{
    if combinations.len() == 0 {
        0
    } else {
        total_count(combinations.drop_last()) + combinations.last().count
    }
}

/// The number of components that the run harvests.
pub open spec fn total_harvested(combinations: Seq<FilterCombinationModel>) -> nat
    decreases combinations.len(),
{
    if combinations.len() == 0 {
        0
    } else {
        total_harvested(combinations.drop_last()) + harvested(combinations.last().count)
    }
}

/// The number of components that the run has to miss.
pub open spec fn total_missed(combinations: Seq<FilterCombinationModel>) -> nat
    decreases combinations.len(),
{
    if combinations.len() == 0 {
        0
    } else {
        total_missed(combinations.drop_last()) + missed(combinations.last().count)
    }
}

/// The windows of a combination cover `[0, harvested)` exactly: the first
/// starts at zero, each starts where the one before it ends, the last ends
/// where the harvest ends, every window but the last holds a full page and
/// the last holds at least one component and a page at most.
pub proof fn lemma_windows_cover(c: FilterCombinationModel)
    ensures
        windows_of(c).len() == 0 <==> harvested(c.count) == 0,
        windows_of(c).len() > 0 ==> windows_of(c)[0].start == 0 && windows_of(c).last().end
            == harvested(c.count),
        forall|k: int|
            0 <= k < windows_of(c).len() - 1 ==> (#[trigger] windows_of(c)[k]).end == windows_of(
                c,
            )[k + 1].start,
        forall|k: int|
            0 <= k < windows_of(c).len() - 1 ==> (#[trigger] windows_of(c)[k]).end - windows_of(
                c,
            )[k].start == page(),
        forall|k: int|
            0 <= k < windows_of(c).len() ==> 0 < (#[trigger] windows_of(c)[k]).end - windows_of(
                c,
            )[k].start <= page(),
        forall|k: int|
            0 <= k < windows_of(c).len() ==> (#[trigger] windows_of(c)[k]).filters
                == filters_of_pins(c.combination),
{
    assert(page() == 100 && cap() == 1000);
}

/// What the run harvests and what it misses add up to what the server
/// holds.
pub proof fn lemma_harvested_and_missed(combinations: Seq<FilterCombinationModel>)
    ensures
        total_harvested(combinations) + total_missed(combinations) == total_count(combinations),
    decreases combinations.len(),
{
    if combinations.len() > 0 {
        lemma_harvested_and_missed(combinations.drop_last());
    }
}

/// A combination without components has no window.
pub proof fn lemma_empty_combination(c: FilterCombinationModel)
    requires
        c.count == 0,
    ensures
        windows_of(c).len() == 0,
        harvested(c.count) == 0,
        missed(c.count) == 0,
{
    assert(page() == 100 && cap() == 1000);
}

/// A combination beyond the ceiling has as many windows as pages fit
/// under the ceiling, and what lies beyond the ceiling is missed.
pub proof fn lemma_combination_beyond_ceiling(c: FilterCombinationModel)
    requires
        c.count > cap(),
    ensures
        windows_of(c).len() == (cap() + page() - 1) / (page() as int),
        missed(c.count) == c.count - cap(),
        harvested(c.count) == cap(),
{
    assert(page() == 100 && cap() == 1000);
}

/// A span of time: whole seconds and the nanoseconds of the last second.
#[derive(Debug, Clone, Copy, PartialEq, Eq, Structural)]
pub struct Elapsed {
    pub seconds: u64,
    pub nanoseconds: u32,
}

/// The counters of a run and when it was made.
#[derive(Debug, Clone, Copy, PartialEq, Eq, Structural)]
pub struct RunMetadata {
    /// The number of components that the windows cover.
    pub components_scraped: u128,
    /// The number of components beyond the ceiling of their combination.
    pub components_missed: u128,
    /// The time that the run took, once it is known.
    pub total_time: Option<Elapsed>,
    /// When the counting was done, in seconds since the Unix epoch.
    pub date_collected: i64,
}

/// `chrono::Utc::now` and `DateTime::timestamp`: the seconds since the Unix
/// epoch at the moment of the call. Nothing is known of them.
#[verifier::external_body]
fn unix_now() -> (r: i64) {
    chrono::Utc::now().timestamp()
}

/// The windows of one combination, appended to those found so far.
fn push_windows(out: &mut Vec<PartitionedCombination>, c: &FilterCombination)
    ensures
        final(out).deep_view() == old(out).deep_view() + windows_of(c@),
        distinct_filters(filters_of_pins(c@.combination)),
{
    let ghost before = out.deep_view();
    let pins = c.pins();
    proof {
        lemma_filters_of_pins(pins.deep_view());
    }
    let limited: u64 = if c.count() <= OCTOPART_COMPONENT_COMBINATION_LIMIT {
        c.count()
    } else {
        OCTOPART_COMPONENT_COMBINATION_LIMIT
    };
    let mut start: u64 = 0;
    let mut k: u64 = 0;
    assert(page() == 100 && cap() == 1000);
    assert(out.deep_view() =~= before + windows_of(c@).take(0));
    while start < limited
        invariant
            page() == 100 && cap() == 1000,
            limited == harvested(c@.count),
            k <= window_count(c@.count),
            k <= 10,
            start == if k * page() <= limited {
                k * page()
            } else {
                limited as int
            },
            out.deep_view() == before + windows_of(c@).take(k as int),
        decreases limited - start,
    {
        let end: u64 = if start + OCTOPART_COMPONENT_REQUEST_LIMIT <= limited {
            start + OCTOPART_COMPONENT_REQUEST_LIMIT
        } else {
            limited
        };
        let ghost so_far = out.deep_view();
        let window = PartitionedCombination {
            filters: filters_from_pins(c.pins()),
            start,
            end,
        };
        proof {
            assert(k < window_count(c@.count));
            assert(window@ == windows_of(c@)[k as int]);
            assert(windows_of(c@).take(k + 1) =~= windows_of(c@).take(k as int).push(window@));
        }
        out.push(window);
        assert(out.deep_view() =~= so_far.push(window@));
        start = end;
        k = k + 1;
    }
    assert(k == window_count(c@.count));
    assert(windows_of(c@).take(k as int) =~= windows_of(c@));
}

/// Cuts combinations into windows and keeps the counters of the run.
#[derive(Debug)]
pub struct ComponentScraper {
    batch_size: usize,
    octopart_component_metadata: Option<Value>,
    scraper_component_metadata: Option<RunMetadata>,
}

/// The mathematical content of a [`ComponentScraper`].
pub struct ScraperModel {
    pub batch_size: nat,
    /// The category's metadata as the server gave it, once captured.
    pub octopart: Option<Json>,
    /// The counters of the run, once the combinations have been counted.
    pub scraper: Option<RunMetadata>,
}

impl View for ComponentScraper {
    type V = ScraperModel;

    closed spec fn view(&self) -> ScraperModel {
        ScraperModel {
            batch_size: self.batch_size as nat,
            octopart: match self.octopart_component_metadata {
                Some(v) => Some(json_view(v)),
                None => None,
            },
            scraper: self.scraper_component_metadata,
        }
    }
}

impl ComponentScraper {
    /// A retriever that has counted nothing yet.
    pub fn new(batch_size: usize) -> (r: ComponentScraper)
        ensures
            r@ == (ScraperModel { batch_size: batch_size as nat, octopart: None, scraper: None }),
    {
        ComponentScraper {
            batch_size,
            octopart_component_metadata: None,
            scraper_component_metadata: None,
        }
    }

    /// The largest number of tasks in one batch.
    pub fn batch_size(&self) -> (n: usize)
        ensures
            n == self@.batch_size,
    {
        self.batch_size
    }

    /// The windows of all combinations: for a combination of count `N`,
    /// pages of [`page`] components from zero up to `min(N, cap)`. No window
    /// filters an attribute twice.
    pub fn get_partitioned_combinations(&self, filter_combinations: &FilterCombinations) -> (r:
        PartitionedCombinations)
        ensures
            r@ == partitions_of(filter_combinations@),
            forall|w: int| 0 <= w < r@.len() ==> distinct_filters((#[trigger] r@[w]).filters),
    {
        let ghost all = filter_combinations@;
        let mut out: Vec<PartitionedCombination> = Vec::new();
        let mut i: usize = 0;
        assert(all.take(0) =~= Seq::<FilterCombinationModel>::empty());
        assert(out.deep_view() =~= partitions_of(all.take(0)));
        while i < filter_combinations.combinations.len()
            invariant
                i <= filter_combinations.combinations.len(),
                all == filter_combinations@,
                out.deep_view() == partitions_of(all.take(i as int)),
                forall|w: int|
                    0 <= w < out.len() ==> distinct_filters(
                        (#[trigger] out.deep_view()[w]).filters,
                    ),
            decreases filter_combinations.combinations.len() - i,
        {
            proof {
                assert(all.take(i + 1).drop_last() =~= all.take(i as int));
                assert(all.take(i + 1).last() == filter_combinations.combinations[i as int]@);
            }
            let ghost before = out.deep_view();
            push_windows(&mut out, &filter_combinations.combinations[i]);
            proof {
                let added = windows_of(filter_combinations.combinations[i as int]@);
                assert(out.deep_view() == before + added);
                assert(out.deep_view().len() == out.len());
                assert forall|w: int| 0 <= w < out.len() implies distinct_filters(
                    (#[trigger] out.deep_view()[w]).filters,
                ) by {
                    if w < before.len() {
                        assert(out.deep_view()[w] == before[w]);
                    } else {
                        assert(out.deep_view()[w] == added[w - before.len()]);
                    }
                }
            }
            i = i + 1;
        }
        assert(all.take(i as int) =~= all);
        PartitionedCombinations { partitions: out }
    }

    /// What the windows of the combinations cover, and what lies beyond
    /// the ceiling of its combination.
    pub fn count_components(filter_combinations: &FilterCombinations) -> (r: (u128, u128))
        ensures
            r.0 == total_harvested(filter_combinations@),
            r.1 == total_missed(filter_combinations@),
    {
        let ghost all = filter_combinations@;
        let mut scraped: u128 = 0;
        let mut lost: u128 = 0;
        let mut i: usize = 0;
        assert(all.take(0) =~= Seq::<FilterCombinationModel>::empty());
        while i < filter_combinations.combinations.len()
            invariant
                i <= filter_combinations.combinations.len(),
                all == filter_combinations@,
                scraped == total_harvested(all.take(i as int)),
                lost == total_missed(all.take(i as int)),
                scraped <= i * 0xffff_ffff_ffff_ffff,
                lost <= i * 0xffff_ffff_ffff_ffff,
            decreases filter_combinations.combinations.len() - i,
        {
            proof {
                assert(all.take(i + 1).drop_last() =~= all.take(i as int));
                assert(all.take(i + 1).last() == filter_combinations.combinations[i as int]@);
            }
            let count: u64 = filter_combinations.combinations[i].count();
            if count > OCTOPART_COMPONENT_COMBINATION_LIMIT {
                scraped = scraped + (OCTOPART_COMPONENT_COMBINATION_LIMIT as u128);
                lost = lost + ((count - OCTOPART_COMPONENT_COMBINATION_LIMIT) as u128);
            } else {
                scraped = scraped + (count as u128);
            }
            i = i + 1;
        }
        assert(all.take(i as int) =~= all);
        (scraped, lost)
    }

    /// Keeps the counters of the run, stamped with the present time.
    pub fn fill_scraper_metadata(&mut self, components_scraped: u128, components_missed: u128)
        ensures
            final(self)@.batch_size == old(self)@.batch_size,
            final(self)@.octopart == old(self)@.octopart,
            final(self)@.scraper matches Some(m) && m.components_scraped == components_scraped
                && m.components_missed == components_missed && m.total_time is None,
    {
        self.scraper_component_metadata = Some(
            RunMetadata {
                components_scraped,
                components_missed,
                total_time: None,
                date_collected: unix_now(),
            },
        );
    }

    /// The windows of all combinations; the counters of what they cover and
    /// what they miss are kept as the run's metadata.
    pub fn create_component_counts(&mut self, filter_combinations: &FilterCombinations) -> (r:
        PartitionedCombinations)
        ensures
            r@ == partitions_of(filter_combinations@),
            forall|w: int| 0 <= w < r@.len() ==> distinct_filters((#[trigger] r@[w]).filters),
            final(self)@.batch_size == old(self)@.batch_size,
            final(self)@.octopart == old(self)@.octopart,
            final(self)@.scraper matches Some(m) && m.components_scraped == total_harvested(
                filter_combinations@,
            ) && m.components_missed == total_missed(filter_combinations@)
                && m.total_time is None,
    {
        let partitions = self.get_partitioned_combinations(filter_combinations);
        let (scraped, lost) = Self::count_components(filter_combinations);
        self.fill_scraper_metadata(scraped, lost);
        partitions
    }

    /// The run's metadata with the time that the run took. Where nothing
    /// has been counted yet, the counters read zero and the metadata is
    /// stamped with the present time.
    pub fn get_scraper_component_metadata(&mut self, total_time: Elapsed) -> (r: RunMetadata)
        ensures
            final(self)@.batch_size == old(self)@.batch_size,
            final(self)@.octopart == old(self)@.octopart,
            final(self)@.scraper == Some(r),
            r.total_time == Some(total_time),
            match old(self)@.scraper {
                Some(m) => r.components_scraped == m.components_scraped && r.components_missed
                    == m.components_missed && r.date_collected == m.date_collected,
                None => r.components_scraped == 0 && r.components_missed == 0,
            },
    {
        let metadata = match self.scraper_component_metadata {
            Some(m) => RunMetadata {
                components_scraped: m.components_scraped,
                components_missed: m.components_missed,
                total_time: Some(total_time),
                date_collected: m.date_collected,
            },
            None => RunMetadata {
                components_scraped: 0,
                components_missed: 0,
                total_time: Some(total_time),
                date_collected: unix_now(),
            },
        };
        self.scraper_component_metadata = Some(metadata);
        metadata
    }

    /// The payload of the retrieval of one window.
    pub fn create_task(&self, request_sender: &RequestSender, partition: &PartitionedCombination)
        -> (r: Value)
        ensures
            json_view(r) == request_sender@.payload(
                RequestModel::Parts {
                    filters: partition@.filters,
                    start: partition@.start,
                    end: partition@.end,
                },
            ),
    {
        request_sender.get_parts_payload(&partition.filters, partition.start, partition.end)
    }

    /// Reads the response to the retrieval of one window: its components,
    /// or a fetch error where the response holds none.
    pub fn finish_task(response_handler: &mut ResponseHandler, response: &Value) -> (r: Result<
        Vec<Value>,
        FetchError,
    >)
        ensures
            match crate::response_handler::components_of(
                crate::json::json_pointer(
                    json_view(*response),
                    crate::response_handler::RESULTS_PATH@,
                ),
            ) {
                Ok(items) => r matches Ok(components) && json_views(components@) == items,
                Err(error) => r == Err::<Vec<Value>, FetchError>(error),
            },
            final(response_handler)@ == crate::response_handler::captured_next(
                old(response_handler)@,
                json_view(*response),
            ),
    {
        response_handler.extract_components(response)
    }

    /// The components of all windows as one flat list, in the order of the
    /// results; the category's metadata that the handler captured moves to
    /// the retriever.
    pub fn process_components(
        &mut self,
        response_handler: &mut ResponseHandler,
        results: Vec<Vec<Value>>,
    ) -> (r: Vec<Value>)
        ensures
            json_views(r@) == concat_all(component_views(results@)),
            final(self)@.batch_size == old(self)@.batch_size,
            final(self)@.scraper == old(self)@.scraper,
            final(self)@.octopart == old(response_handler)@,
            final(response_handler)@ is None,
    {
        let ghost all = component_views(results@);
        let mut out: Vec<Value> = Vec::new();
        assert(all.take(0) =~= Seq::<Seq<Json>>::empty());
        assert(json_views(out@) =~= concat_all(all.take(0)));
        for list in it: results
            invariant
                it.seq() == results@,
                all == component_views(results@),
                json_views(out@) == concat_all(all.take(it.index() as int)),
        {
            let ghost before = json_views(out@);
            let ghost i = it.index() as int;
            let mut part = list;
            let ghost added = json_views(part@);
            out.append(&mut part);
            proof {
                assert(all.take(i + 1).drop_last() =~= all.take(i));
                assert(all.take(i + 1).last() == added);
                assert(json_views(out@) =~= before + added);
            }
        }
        assert(all.take(all.len() as int) =~= all);
        self.octopart_component_metadata = response_handler.take_metadata();
        out
    }

    /// The category's metadata as the server gave it, if it was captured.
    pub fn get_octopart_component_metadata(&self) -> (r: Option<Value>)
        ensures
            match self@.octopart {
                Some(doc) => r matches Some(v) && json_view(v) == doc,
                None => r is None,
            },
    {
        match &self.octopart_component_metadata {
            Some(v) => Some(json_clone(v)),
            None => None,
        }
    }
}

/// The documents of each list of components.
pub open spec fn component_views(results: Seq<Vec<Value>>) -> Seq<Seq<Json>> {
    Seq::new(results.len(), |i: int| json_views(results[i]@))
}

} // verus!
