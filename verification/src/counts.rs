//! The component counter: every combination of buckets across the
//! requested attributes is found together with the server's own count for
//! it. Only the last attribute is asked for as an axis; the others are
//! pinned, one bucket each, by the filters of a counting request.

use crate::json::{json_pointer, json_view, Json};
use crate::request_sender::{FetchError, RequestModel, RequestSender};
use crate::response_handler::{
    bucket_of, combination_of, combinations_of, ResponseHandler, COUNT_BUCKETS_PATH,
};
use crate::text::copy_text;
use crate::types::{
    all_combinations, lemma_concat_all_len, lemma_part_index, lemma_part_index_injective,
    part_index, total_len, distinct_keys, filters_from_pins, filters_of_pins, has_key,
    index_of_key, lemma_merged, lemma_with_entry, lookup, merged, AttributeBuckets,
    AttributeEntry, AttributeEntryModel, Bucket, BucketModel, BucketPair, BucketPairModel,
    FilterCombination, FilterCombinationModel, FilterCombinations, Pin, PinModel,
};
use serde_json::Value;
use vstd::prelude::*;

verus! {

/// Why the combinations cannot be counted.
#[derive(Debug, Clone, Copy, PartialEq, Eq, Structural)]
pub enum CounterError {
    /// No attribute was requested.
    NoAttributes,
    /// There is no second-to-last attribute to pin.
    NoSecondLastAttribute,
    /// An attribute that the counting needs has no buckets.
    MissingBuckets,
}

/// The pairs that pin each bucket of the second-to-last attribute, all
/// with the same bucket, or none, of the remaining attribute.
pub open spec fn pairs_with(
    first: Option<PinModel>,
    second_key: Seq<char>,
    second_buckets: Seq<BucketModel>,
) -> Seq<BucketPairModel> {
    Seq::new(
        second_buckets.len(),
        |i: int| BucketPairModel { first, second: (second_key, second_buckets[i]) },
    )
}

/// The pairs of one remaining attribute: for each of its buckets in turn,
/// each bucket of the second-to-last attribute.
pub open spec fn pairs_of_entry(
    key: Seq<char>,
    buckets: Seq<BucketModel>,
    second_key: Seq<char>,
    second_buckets: Seq<BucketModel>,
) -> Seq<BucketPairModel>
    decreases buckets.len(),
{
    if buckets.len() == 0 {
        Seq::empty()
    } else {
        pairs_of_entry(key, buckets.drop_last(), second_key, second_buckets) + pairs_with(
            Some((key, buckets.last())),
            second_key,
            second_buckets,
        )
    }
}

/// Whether an attribute is neither the last nor the second-to-last.
pub open spec fn is_remaining(key: Seq<char>, second_key: Seq<char>, last_key: Seq<char>) -> bool {
    key != second_key && key != last_key
}

/// Whether any attribute is neither the last nor the second-to-last.
pub open spec fn has_remaining(
    entries: Seq<AttributeEntryModel>,
    second_key: Seq<char>,
    last_key: Seq<char>,
) -> bool {
    exists|i: int|
        0 <= i < entries.len() && is_remaining((#[trigger] entries[i]).0, second_key, last_key)
}

/// The pairs of all remaining attributes, attribute by attribute.
pub open spec fn pairs_of_entries(
    entries: Seq<AttributeEntryModel>,
    second_key: Seq<char>,
    last_key: Seq<char>,
    second_buckets: Seq<BucketModel>,
) -> Seq<BucketPairModel>
    decreases entries.len(),
{
    if entries.len() == 0 {
        Seq::empty()
    } else {
        let before = pairs_of_entries(entries.drop_last(), second_key, last_key, second_buckets);
        let entry = entries.last();
        if is_remaining(entry.0, second_key, last_key) {
            before + pairs_of_entry(entry.0, entry.1, second_key, second_buckets)
        } else {
            before
        }
    }
}

/// The combinations of a single attribute: one for each of its buckets,
/// with the bucket's own count.
pub open spec fn direct_combinations(last_key: Seq<char>, buckets: Seq<BucketModel>) -> Seq<
    FilterCombinationModel,
> {
    Seq::new(
        buckets.len(),
        |i: int|
            FilterCombinationModel {
                combination: seq![(last_key, buckets[i])],
                count: buckets[i].count,
            },
    )
}

/// How the combinations are to be found.
#[derive(Debug)]
pub enum CountPlan {
    /// They are known without any request.
    Direct(FilterCombinations),
    /// One counting request for each of these pairs finds them.
    Requests(Vec<BucketPair>),
}

/// The mathematical content of a [`CountPlan`].
pub enum CountPlanModel {
    Direct(Seq<FilterCombinationModel>),
    Requests(Seq<BucketPairModel>),
}

impl View for CountPlan {
    type V = CountPlanModel;

    open spec fn view(&self) -> CountPlanModel {
        match self {
            CountPlan::Direct(combinations) => CountPlanModel::Direct(combinations@),
            CountPlan::Requests(pairs) => CountPlanModel::Requests(pairs.deep_view()),
        }
    }
}

/// The mathematical content of a [`ComponentCounter`].
pub struct CounterModel {
    /// The buckets of each attribute.
    pub buckets: Seq<AttributeEntryModel>,
    /// The last of the requested attributes: the axis of every count.
    pub last: Seq<char>,
    /// The second-to-last of the requested attributes, where the buckets
    /// hold more than one attribute.
    pub second_last: Option<Seq<char>>,
}

impl CounterModel {
    /// What a counter over the requested attributes and their buckets is,
    /// if an attribute was requested at all.
    pub open spec fn over(ids: Seq<Seq<char>>, buckets: Seq<AttributeEntryModel>) -> Result<
        CounterModel,
        CounterError,
    > {
        if ids.len() == 0 {
            Err(CounterError::NoAttributes)
        } else {
            Ok(
                CounterModel {
                    buckets,
                    last: ids.last(),
                    second_last: if buckets.len() > 1 && ids.len() >= 2 {
                        Some(ids[ids.len() - 2])
                    } else {
                        None
                    },
                },
            )
        }
    }

    /// The pairs to count: every bucket of the second-to-last attribute,
    /// and where further attributes remain, every bucket of each of them
    /// with every bucket of the second-to-last.
    pub open spec fn bucket_pairs(self) -> Result<Seq<BucketPairModel>, CounterError> {
        match self.second_last {
            None => Err(CounterError::NoSecondLastAttribute),
            Some(second_key) => match lookup(self.buckets, second_key) {
                None => Err(CounterError::MissingBuckets),
                Some(second_buckets) => Ok(
                    if has_remaining(self.buckets, second_key, self.last) {
                        pairs_of_entries(self.buckets, second_key, self.last, second_buckets)
                    } else {
                        pairs_with(None, second_key, second_buckets)
                    },
                ),
            },
        }
    }

    /// How the combinations are found, by the number of attributes that
    /// have buckets: with one, directly from its buckets; with two or
    /// three, by counting requests; with any other number there are none.
    pub open spec fn plan(self) -> Result<CountPlanModel, CounterError> {
        if self.buckets.len() == 1 {
            match lookup(self.buckets, self.last) {
                None => Err(CounterError::MissingBuckets),
                Some(buckets) => Ok(
                    CountPlanModel::Direct(direct_combinations(self.last, buckets)),
                ),
            }
        } else if self.buckets.len() == 2 || self.buckets.len() == 3 {
            match self.bucket_pairs() {
                Ok(pairs) => Ok(CountPlanModel::Requests(pairs)),
                Err(error) => Err(error),
            }
        } else {
            Ok(CountPlanModel::Direct(Seq::empty()))
        }
    }

    /// The combinations of the run, given what the counting requests
    /// found, one list for each request in any order.
    pub open spec fn combinations(self, found: Seq<Seq<FilterCombinationModel>>) -> Result<
        Seq<FilterCombinationModel>,
        CounterError,
    > {
        match self.plan() {
            Ok(CountPlanModel::Direct(combinations)) => Ok(combinations),
            Ok(CountPlanModel::Requests(_)) => Ok(all_combinations(found)),
            Err(error) => Err(error),
        }
    }
}

/// With a single attribute nothing is requested: the plan, if there is
/// one, holds the combinations themselves.
pub proof fn lemma_single_attribute_sends_nothing(m: CounterModel)
    requires
        m.buckets.len() == 1,
    ensures
        !(m.plan() matches Ok(CountPlanModel::Requests(_))),
        m.plan() matches Ok(CountPlanModel::Direct(combinations)) ==> combinations.len() == lookup(
            m.buckets,
            m.last,
        ).unwrap().len(),
{
}

/// Appends the pairs of [`pairs_with`].
fn push_pairs_with(
    out: &mut Vec<BucketPair>,
    first: &Option<Pin>,
    second_key: &String,
    second_buckets: &Vec<Bucket>,
)
    ensures
        final(out).deep_view() == old(out).deep_view() + pairs_with(
            first.deep_view(),
            second_key@,
            second_buckets.deep_view(),
        ),
{
    let ghost before = out.deep_view();
    let ghost wanted = pairs_with(first.deep_view(), second_key@, second_buckets.deep_view());
    let mut i: usize = 0;
    assert(out.deep_view() =~= before + wanted.take(0));
    while i < second_buckets.len()
        invariant
            i <= second_buckets.len(),
            wanted == pairs_with(first.deep_view(), second_key@, second_buckets.deep_view()),
            out.deep_view() == before + wanted.take(i as int),
        decreases second_buckets.len() - i,
    {
        let ghost so_far = out.deep_view();
        let pair = BucketPair {
            first: match first {
                Some(pin) => Some((copy_text(&pin.0), pin.1.clone())),
                None => None,
            },
            second: (copy_text(second_key), second_buckets[i].clone()),
        };
        assert(pair@ == wanted[i as int]);
        out.push(pair);
        assert(out.deep_view() =~= so_far.push(pair@));
        assert(wanted.take(i + 1) =~= wanted.take(i as int).push(wanted[i as int]));
        i = i + 1;
    }
    assert(wanted.take(i as int) =~= wanted);
}

/// Appends the pairs of [`pairs_of_entry`].
fn push_pairs_of_entry(
    out: &mut Vec<BucketPair>,
    key: &String,
    buckets: &Vec<Bucket>,
    second_key: &String,
    second_buckets: &Vec<Bucket>,
)
    ensures
        final(out).deep_view() == old(out).deep_view() + pairs_of_entry(
            key@,
            buckets.deep_view(),
            second_key@,
            second_buckets.deep_view(),
        ),
{
    let ghost before = out.deep_view();
    let ghost all = buckets.deep_view();
    let mut i: usize = 0;
    assert(all.take(0) =~= Seq::<BucketModel>::empty());
    assert(out.deep_view() =~= before + pairs_of_entry(
        key@,
        all.take(0),
        second_key@,
        second_buckets.deep_view(),
    ));
    while i < buckets.len()
        invariant
            i <= buckets.len(),
            all == buckets.deep_view(),
            out.deep_view() == before + pairs_of_entry(
                key@,
                all.take(i as int),
                second_key@,
                second_buckets.deep_view(),
            ),
        decreases buckets.len() - i,
    {
        proof {
            assert(all.take(i + 1).drop_last() =~= all.take(i as int));
            assert(all.take(i + 1).last() == buckets[i as int]@);
        }
        let ghost so_far = out.deep_view();
        let first: Option<Pin> = Some((copy_text(key), buckets[i].clone()));
        push_pairs_with(out, &first, second_key, second_buckets);
        assert(out.deep_view() =~= before + pairs_of_entry(
            key@,
            all.take(i + 1),
            second_key@,
            second_buckets.deep_view(),
        ));
        i = i + 1;
    }
    assert(all.take(i as int) =~= all);
}

/// The buckets of the requested attributes together with the two
/// attributes that the counting singles out: the last one, which every
/// count asks for, and the second-to-last one, which every count pins.
#[derive(Debug)]
pub struct AttributeBucketMetadata {
    attribute_buckets: AttributeBuckets,
    last_attribute_bucket_display_value: String,
    second_last_attribute_bucket_display_value: Option<String>,
}

impl View for AttributeBucketMetadata {
    type V = CounterModel;

    closed spec fn view(&self) -> CounterModel {
        CounterModel {
            buckets: self.attribute_buckets@,
            last: self.last_attribute_bucket_display_value@,
            second_last: self.second_last_attribute_bucket_display_value.deep_view(),
        }
    }
}

impl AttributeBucketMetadata {
    /// The metadata of the requested attributes, in the caller's order,
    /// and the buckets that attribute discovery found. The last attribute
    /// of the order is the axis of every count; the one before it is
    /// singled out where the buckets hold more than one attribute. Without
    /// any attribute there is nothing to count.
    pub fn new(attribute_display_values: &Vec<String>, attribute_buckets: AttributeBuckets) -> (r:
        Result<AttributeBucketMetadata, CounterError>)
        ensures
            match CounterModel::over(attribute_display_values.deep_view(), attribute_buckets@) {
                Ok(model) => r matches Ok(metadata) && metadata@ == model,
                Err(error) => r == Err::<AttributeBucketMetadata, CounterError>(error),
            },
    {
        let n = attribute_display_values.len();
        if n == 0 {
            return Err(CounterError::NoAttributes);
        }
        let last = copy_text(&attribute_display_values[n - 1]);
        let second_last = if attribute_buckets.len() > 1 && n >= 2 {
            Some(copy_text(&attribute_display_values[n - 2]))
        } else {
            None
        };
        Ok(
            AttributeBucketMetadata {
                attribute_buckets,
                last_attribute_bucket_display_value: last,
                second_last_attribute_bucket_display_value: second_last,
            },
        )
    }
}

/// Finds the combinations of buckets and their counts.
#[derive(Debug)]
pub struct ComponentCounter {
    attribute_bucket_metadata: AttributeBucketMetadata,
}

impl View for ComponentCounter {
    type V = CounterModel;

    closed spec fn view(&self) -> CounterModel {
        self.attribute_bucket_metadata@
    }
}

impl ComponentCounter {
    /// A counter over the requested attributes, in the caller's order, and
    /// the buckets that attribute discovery found. The order decides which
    /// attribute is the last and which the second-to-last.
    pub fn new(attribute_ids: &Vec<String>, attribute_buckets: AttributeBuckets) -> (r: Result<
        ComponentCounter,
        CounterError,
    >)
        ensures
            match CounterModel::over(attribute_ids.deep_view(), attribute_buckets@) {
                Ok(model) => r matches Ok(counter) && counter@ == model,
                Err(error) => r == Err::<ComponentCounter, CounterError>(error),
            },
    {
        match AttributeBucketMetadata::new(attribute_ids, attribute_buckets) {
            Ok(attribute_bucket_metadata) => Ok(ComponentCounter { attribute_bucket_metadata }),
            Err(error) => Err(error),
        }
    }

    /// The last of the requested attributes.
    pub fn last_attribute(&self) -> (r: &String)
        ensures
            r@ == self@.last,
    {
        &self.attribute_bucket_metadata.last_attribute_bucket_display_value
    }

    /// The second-to-last of the requested attributes, where it is singled
    /// out.
    pub fn second_last_attribute(&self) -> (r: &Option<String>)
        ensures
            r.deep_view() == self@.second_last,
    {
        &self.attribute_bucket_metadata.second_last_attribute_bucket_display_value
    }

    /// The buckets of the requested attributes.
    pub fn buckets(&self) -> (r: &AttributeBuckets)
        ensures
            r@ == self@.buckets,
    {
        &self.attribute_bucket_metadata.attribute_buckets
    }

    /// The pairs to count, one counting request each. No pair pins an
    /// attribute twice.
    pub fn get_bucket_pairs(&self) -> (r: Result<Vec<BucketPair>, CounterError>)
        ensures
            match self@.bucket_pairs() {
                Ok(pairs) => r matches Ok(list) && list.deep_view() == pairs,
                Err(error) => r == Err::<Vec<BucketPair>, CounterError>(error),
            },
            r matches Ok(list) ==> forall|i: int|
                0 <= i < list.len() ==> distinct_keys((#[trigger] list.deep_view()[i]).pins()),
    {
        let second_key: &String = match self.second_last_attribute() {
            Some(key) => key,
            None => {
                return Err(CounterError::NoSecondLastAttribute);
            },
        };
        let second_buckets: &Vec<Bucket> = match self.buckets().get(second_key) {
            Some(buckets) => buckets,
            None => {
                return Err(CounterError::MissingBuckets);
            },
        };
        let entries: &Vec<AttributeEntry> = self.buckets().entries();
        let ghost all = entries.deep_view();
        let mut out: Vec<BucketPair> = Vec::new();
        let mut any_remaining = false;
        let mut i: usize = 0;
        assert(all.take(0) =~= Seq::<AttributeEntryModel>::empty());
        assert(out.deep_view() =~= pairs_of_entries(
            all.take(0),
            second_key@,
            self@.last,
            second_buckets.deep_view(),
        ));
        while i < entries.len()
            invariant
                i <= entries.len(),
                all == entries.deep_view(),
                any_remaining == has_remaining(all.take(i as int), second_key@, self@.last),
                out.deep_view() == pairs_of_entries(
                    all.take(i as int),
                    second_key@,
                    self@.last,
                    second_buckets.deep_view(),
                ),
            decreases entries.len() - i,
        {
            proof {
                assert(all.take(i + 1).drop_last() =~= all.take(i as int));
                assert(all.take(i + 1).last() == all[i as int]);
                assert(all.take(i + 1)[i as int] == all[i as int]);
                if has_remaining(all.take(i as int), second_key@, self@.last) {
                    let w = choose|w: int|
                        0 <= w < all.take(i as int).len() && is_remaining(
                            (#[trigger] all.take(i as int)[w]).0,
                            second_key@,
                            self@.last,
                        );
                    assert(all.take(i + 1)[w] == all.take(i as int)[w]);
                }
                if has_remaining(all.take(i + 1), second_key@, self@.last) {
                    let w = choose|w: int|
                        0 <= w < all.take(i + 1).len() && is_remaining(
                            (#[trigger] all.take(i + 1)[w]).0,
                            second_key@,
                            self@.last,
                        );
                    if w < i {
                        assert(all.take(i as int)[w] == all.take(i + 1)[w]);
                    }
                }
            }
            if entries[i].0 != *second_key && entries[i].0 != *self.last_attribute() {
                any_remaining = true;
                push_pairs_of_entry(
                    &mut out,
                    &entries[i].0,
                    &entries[i].1,
                    second_key,
                    second_buckets,
                );
            }
            i = i + 1;
        }
        assert(all.take(i as int) =~= all);
        if !any_remaining {
            let nothing: Option<Pin> = None;
            assert(out.deep_view() =~= Seq::<BucketPairModel>::empty()) by {
                lemma_no_remaining_no_pairs(
                    all,
                    second_key@,
                    self@.last,
                    second_buckets.deep_view(),
                );
            }
            push_pairs_with(&mut out, &nothing, second_key, second_buckets);
            assert(out.deep_view() =~= pairs_with(None, second_key@, second_buckets.deep_view()));
        }
        proof {
            let pairs = self@.bucket_pairs().unwrap();
            assert(out.deep_view() == pairs);
            lemma_request_pins(self@);
            assert forall|i: int| 0 <= i < out.len() implies distinct_keys(
                (#[trigger] out.deep_view()[i]).pins(),
            ) by {
                assert(out.deep_view()[i] == pairs[i]);
            }
        }
        Ok(out)
    }

    /// How the combinations are found: directly, or by counting requests.
    /// With a single attribute no request is sent.
    pub fn process(&self) -> (r: Result<CountPlan, CounterError>)
        ensures
            match self@.plan() {
                Ok(plan) => r matches Ok(p) && p@ == plan,
                Err(error) => r == Err::<CountPlan, CounterError>(error),
            },
    {
        let k = self.buckets().len();
        if k == 1 {
            let buckets: &Vec<Bucket> = match self.buckets().get(self.last_attribute()) {
                Some(buckets) => buckets,
                None => {
                    return Err(CounterError::MissingBuckets);
                },
            };
            let mut out: Vec<FilterCombination> = Vec::new();
            let mut i: usize = 0;
            while i < buckets.len()
                invariant
                    i <= buckets.len(),
                    out.len() == i,
                    forall|j: int|
                        0 <= j < i ==> (#[trigger] out[j])@ == direct_combinations(
                            self@.last,
                            buckets.deep_view(),
                        )[j],
                decreases buckets.len() - i,
            {
                let mut combination = FilterCombination::new(buckets[i].count);
                combination.insert(copy_text(self.last_attribute()), buckets[i].clone());
                assert(combination@.combination =~= seq![(self@.last, buckets[i as int]@)]);
                out.push(combination);
                i = i + 1;
            }
            let combinations = FilterCombinations { combinations: out };
            assert(combinations@ =~= direct_combinations(self@.last, buckets.deep_view()));
            Ok(CountPlan::Direct(combinations))
        } else if k == 2 || k == 3 {
            match self.get_bucket_pairs() {
                Ok(pairs) => Ok(CountPlan::Requests(pairs)),
                Err(error) => Err(error),
            }
        } else {
            Ok(CountPlan::Direct(FilterCombinations::default()))
        }
    }

    /// The payload of the counting request for one pair: it asks for the
    /// buckets of the last attribute among the components that the pair's
    /// buckets select.
    pub fn create_task(&self, request_sender: &RequestSender, pair: &BucketPair) -> (r: Value)
        ensures
            json_view(r) == request_sender@.payload(
                RequestModel::ComponentCount {
                    attributes: Some(seq![self@.last]),
                    filters: Some(filters_of_pins(pair@.pins())),
                },
            ),
    {
        let mut attributes: Vec<String> = Vec::new();
        attributes.push(copy_text(self.last_attribute()));
        assert(attributes.deep_view() =~= seq![self@.last]);
        let filters = filters_from_pins(&pair.pins());
        request_sender.get_component_count_payload(Some(attributes), Some(filters))
    }

    /// Reads the response to the counting request for one pair: one
    /// combination for each bucket of the last attribute that the server
    /// returned, with the server's count.
    pub fn finish_task(
        &self,
        response_handler: &ResponseHandler,
        pair: &BucketPair,
        response: &Value,
    ) -> (r: Result<FilterCombinations, FetchError>)
        ensures
            match combinations_of(
                json_pointer(json_view(*response), COUNT_BUCKETS_PATH@),
                pair@.pins(),
                self@.last,
            ) {
                Ok(list) => r matches Ok(combinations) && combinations@ == list,
                Err(error) => r == Err::<FilterCombinations, FetchError>(error),
            },
    {
        response_handler.extract_filter_combinations(response, &pair.pins(), self.last_attribute())
    }

    /// The combinations of the run. With a single attribute they come from
    /// its buckets and nothing was requested; with two or three they are
    /// what the counting requests found, request by request; with any other
    /// number of attributes there are none.
    pub fn grab_bucket_combination_counts(&self, found: Vec<FilterCombinations>) -> (r: Result<
        FilterCombinations,
        CounterError,
    >)
        ensures
            match self@.combinations(found.deep_view()) {
                Ok(list) => r matches Ok(combinations) && combinations@ == list,
                Err(error) => r == Err::<FilterCombinations, CounterError>(error),
            },
    {
        match self.process() {
            Ok(CountPlan::Direct(combinations)) => Ok(combinations),
            Ok(CountPlan::Requests(_)) => Ok(FilterCombinations::flatten(found)),
            Err(error) => Err(error),
        }
    }
}

/// What the counting requests find: for request `i`, one combination for
/// each bucket that the server returned, made of the request's pinned
/// attributes and that bucket of the last attribute.
pub open spec fn found_combinations(
    pins: Seq<Seq<PinModel>>,
    last_key: Seq<char>,
    replies: Seq<Seq<Json>>,
) -> Seq<Seq<FilterCombinationModel>> {
    Seq::new(
        pins.len(),
        |i: int|
            Seq::new(replies[i].len(), |j: int| combination_of(pins[i], last_key, replies[i][j])),
    )
}

/// The run emits one combination for each bucket that the server returns
/// to a counting request: as many as the server reports, whatever the
/// number of buckets of the attributes.
pub proof fn lemma_one_combination_per_reported_bucket(
    pins: Seq<Seq<PinModel>>,
    last_key: Seq<char>,
    replies: Seq<Seq<Json>>,
)
    requires
        pins.len() == replies.len(),
    ensures
        all_combinations(found_combinations(pins, last_key, replies)).len() == total_len(replies),
    decreases pins.len(),
{
    let found = found_combinations(pins, last_key, replies);
    lemma_concat_all_len(found);
    lemma_same_lengths(found, replies);
}

/// Parts of the same lengths hold the same number of elements.
pub proof fn lemma_same_lengths<A, B>(a: Seq<Seq<A>>, b: Seq<Seq<B>>)
    requires
        a.len() == b.len(),
        forall|i: int| 0 <= i < a.len() ==> (#[trigger] a[i]).len() == b[i].len(),
    ensures
        total_len(a) == total_len(b),
    decreases a.len(),
{
    if a.len() > 0 {
        lemma_same_lengths(a.drop_last(), b.drop_last());
    }
}

/// Where the server returns every one of `n` buckets to every request,
/// the run emits the full product: `n` combinations for each request.
pub proof fn lemma_full_product(replies: Seq<Seq<Json>>, n: nat)
    requires
        forall|i: int| 0 <= i < replies.len() ==> (#[trigger] replies[i]).len() == n,
    ensures
        total_len(replies) == replies.len() * n,
    decreases replies.len(),
{
    if replies.len() > 0 {
        lemma_full_product(replies.drop_last(), n);
        assert(total_len(replies) == (replies.len() - 1) * n + n);
        assert((replies.len() - 1) * n + n == replies.len() * n) by (nonlinear_arith);
    }
}

/// A combination is a map: whatever a request pins and whatever the
/// server returns, no attribute occurs twice in the combination.
pub proof fn lemma_combination_is_a_map(pins: Seq<PinModel>, last_key: Seq<char>, item: Json)
    ensures
        distinct_keys(combination_of(pins, last_key, item).combination),
        lookup(combination_of(pins, last_key, item).combination, last_key) == Some(
            bucket_of(item),
        ),
{
    lemma_merged(pins);
    lemma_with_entry(merged(pins), last_key, bucket_of(item));
}

/// Where a request pins its attributes once each and the last attribute is
/// not among them, the combination is the pinned attributes followed by the
/// last attribute with the returned bucket.
pub proof fn lemma_combination_appends(pins: Seq<PinModel>, last_key: Seq<char>, item: Json)
    requires
        distinct_keys(pins),
        !has_key(pins, last_key),
    ensures
        combination_of(pins, last_key, item).combination == pins.push(
            (last_key, bucket_of(item)),
        ),
{
    lemma_merged(pins);
}

/// No combination appears twice: where no two requests pin the same
/// buckets, each pins its attributes once and leaves the last attribute
/// open, and the server returns no bucket twice to one request, any two of
/// the emitted combinations differ in a bucket.
pub proof fn lemma_no_combination_twice(
    pins: Seq<Seq<PinModel>>,
    last_key: Seq<char>,
    replies: Seq<Seq<Json>>,
)
    requires
        pins.len() == replies.len(),
        forall|i: int, j: int| 0 <= i < j < pins.len() ==> pins[i] != pins[j],
        forall|i: int|
            0 <= i < pins.len() ==> distinct_keys(#[trigger] pins[i]) && !has_key(
                pins[i],
                last_key,
            ),
        forall|i: int, a: int, b: int|
            0 <= i < replies.len() && 0 <= a < b < replies[i].len() ==> bucket_of(replies[i][a])
                != bucket_of(replies[i][b]),
    ensures
        forall|x: int, y: int|
            0 <= x < y < all_combinations(found_combinations(pins, last_key, replies)).len()
                ==> (#[trigger] all_combinations(
                found_combinations(pins, last_key, replies),
            )[x]).combination != (#[trigger] all_combinations(
                found_combinations(pins, last_key, replies),
            )[y]).combination,
{
    let found = found_combinations(pins, last_key, replies);
    let all = all_combinations(found);
    assert forall|x: int, y: int| 0 <= x < y < all.len() implies (#[trigger] all[x]).combination
        != (#[trigger] all[y]).combination by {
        lemma_part_index(found, x);
        lemma_part_index(found, y);
        lemma_part_index_injective(found, x, y);
        let (i1, j1) = part_index(found, x);
        let (i2, j2) = part_index(found, y);
        let c1 = combination_of(pins[i1], last_key, replies[i1][j1]);
        let c2 = combination_of(pins[i2], last_key, replies[i2][j2]);
        assert(all[x] == c1 && all[y] == c2);
        lemma_combination_appends(pins[i1], last_key, replies[i1][j1]);
        lemma_combination_appends(pins[i2], last_key, replies[i2][j2]);
        assert(c1.combination.drop_last() =~= pins[i1]);
        assert(c2.combination.drop_last() =~= pins[i2]);
        assert(c1.combination.last() == (last_key, bucket_of(replies[i1][j1])));
        assert(c2.combination.last() == (last_key, bucket_of(replies[i2][j2])));
        if i1 == i2 {
            assert(j1 != j2);
            if j1 < j2 {
                assert(bucket_of(replies[i1][j1]) != bucket_of(replies[i1][j2]));
            } else {
                assert(bucket_of(replies[i1][j2]) != bucket_of(replies[i1][j1]));
            }
        } else if i1 < i2 {
            assert(pins[i1] != pins[i2]);
        } else {
            assert(pins[i2] != pins[i1]);
        }
    }
}

/// No bucket occurs twice in the list.
pub open spec fn no_bucket_twice(buckets: Seq<BucketModel>) -> bool {
    forall|i: int, j: int| 0 <= i < j < buckets.len() ==> buckets[i] != buckets[j]
}

/// No pair occurs twice in the list.
pub open spec fn no_pair_twice(pairs: Seq<BucketPairModel>) -> bool {
    forall|i: int, j: int| 0 <= i < j < pairs.len() ==> pairs[i] != pairs[j]
}

/// Whether a pair pins the given attribute, besides the second-to-last,
/// to one of the given buckets.
pub open spec fn pins_first(
    pair: BucketPairModel,
    key: Seq<char>,
    buckets: Seq<BucketModel>,
) -> bool {
    pair.first matches Some(pin) && pin.0 == key && exists|t: int|
        0 <= t < buckets.len() && #[trigger] buckets[t] == pin.1
}

/// Pairs that pin the same attributes to the same buckets are the same.
pub proof fn lemma_pins_tell_pairs_apart(p: BucketPairModel, q: BucketPairModel)
    requires
        p.pins() == q.pins(),
    ensures
        p == q,
{
    match (p.first, q.first) {
        (Some(a), Some(b)) => {
            assert(p.pins()[0] == a && q.pins()[0] == b);
            assert(p.pins()[1] == p.second && q.pins()[1] == q.second);
        },
        (None, None) => {
            assert(p.pins()[0] == p.second && q.pins()[0] == q.second);
        },
        (Some(_), None) => {
            assert(p.pins().len() == 2 && q.pins().len() == 1);
        },
        (None, Some(_)) => {
            assert(p.pins().len() == 1 && q.pins().len() == 2);
        },
    }
}

/// The pairs of one remaining attribute pin that attribute to its own
/// buckets, and no pair occurs twice among them where no bucket does.
pub proof fn lemma_pairs_of_entry_distinct(
    key: Seq<char>,
    buckets: Seq<BucketModel>,
    second_key: Seq<char>,
    second_buckets: Seq<BucketModel>,
)
    requires
        no_bucket_twice(buckets),
        no_bucket_twice(second_buckets),
    ensures
        no_pair_twice(pairs_of_entry(key, buckets, second_key, second_buckets)),
        forall|k: int|
            0 <= k < pairs_of_entry(key, buckets, second_key, second_buckets).len() ==> pins_first(
                #[trigger] pairs_of_entry(key, buckets, second_key, second_buckets)[k],
                key,
                buckets,
            ),
    decreases buckets.len(),
{
    let pairs = pairs_of_entry(key, buckets, second_key, second_buckets);
    if buckets.len() > 0 {
        let shorter = buckets.drop_last();
        let head = pairs_of_entry(key, shorter, second_key, second_buckets);
        let tail = pairs_with(Some((key, buckets.last())), second_key, second_buckets);
        assert(no_bucket_twice(shorter)) by {
            assert forall|i: int, j: int| 0 <= i < j < shorter.len() implies shorter[i]
                != shorter[j] by {
                assert(shorter[i] == buckets[i] && shorter[j] == buckets[j]);
            }
        }
        lemma_pairs_of_entry_distinct(key, shorter, second_key, second_buckets);
        assert forall|k: int| 0 <= k < pairs.len() implies pins_first(
            #[trigger] pairs[k],
            key,
            buckets,
        ) by {
            if k < head.len() {
                assert(pins_first(head[k], key, shorter));
                let t = choose|t: int|
                    0 <= t < shorter.len() && #[trigger] shorter[t] == head[k].first.unwrap().1;
                assert(buckets[t] == shorter[t]);
            } else {
                assert(pairs[k] == tail[k - head.len()]);
                assert(buckets[buckets.len() - 1] == buckets.last());
            }
        }
        assert forall|i: int, j: int| 0 <= i < j < pairs.len() implies pairs[i] != pairs[j] by {
            if j < head.len() {
                assert(head[i] != head[j]);
            } else if i >= head.len() {
                assert(pairs[i] == tail[i - head.len()] && pairs[j] == tail[j - head.len()]);
                assert(second_buckets[i - head.len()] != second_buckets[j - head.len()]);
            } else {
                assert(pins_first(head[i], key, shorter));
                let t = choose|t: int|
                    0 <= t < shorter.len() && #[trigger] shorter[t] == head[i].first.unwrap().1;
                assert(shorter[t] == buckets[t]);
                assert(buckets[t] != buckets[buckets.len() - 1]);
                assert(pairs[j] == tail[j - head.len()]);
            }
        }
    }
}

/// Whether a pair pins, besides the second-to-last attribute, one of the
/// attributes of the entries.
pub open spec fn pins_entry(pair: BucketPairModel, entries: Seq<AttributeEntryModel>) -> bool {
    pair.first matches Some(pin) && exists|e: int|
        0 <= e < entries.len() && (#[trigger] entries[e]).0 == pin.0
}

/// No pair occurs twice among the pairs of the remaining attributes, where
/// no attribute is held twice and no attribute has a bucket twice.
pub proof fn lemma_pairs_of_entries_distinct(
    entries: Seq<AttributeEntryModel>,
    second_key: Seq<char>,
    last_key: Seq<char>,
    second_buckets: Seq<BucketModel>,
)
    requires
        distinct_keys(entries),
        forall|e: int| 0 <= e < entries.len() ==> no_bucket_twice((#[trigger] entries[e]).1),
        no_bucket_twice(second_buckets),
    ensures
        no_pair_twice(pairs_of_entries(entries, second_key, last_key, second_buckets)),
        forall|k: int|
            0 <= k < pairs_of_entries(entries, second_key, last_key, second_buckets).len()
                ==> pins_entry(
                #[trigger] pairs_of_entries(entries, second_key, last_key, second_buckets)[k],
                entries,
            ),
    decreases entries.len(),
{
    let pairs = pairs_of_entries(entries, second_key, last_key, second_buckets);
    if entries.len() > 0 {
        let shorter = entries.drop_last();
        let entry = entries.last();
        let head = pairs_of_entries(shorter, second_key, last_key, second_buckets);
        assert(distinct_keys(shorter)) by {
            assert forall|i: int, j: int| 0 <= i < j < shorter.len() implies (
            #[trigger] shorter[i]).0 != (#[trigger] shorter[j]).0 by {
                assert(shorter[i] == entries[i] && shorter[j] == entries[j]);
            }
        }
        assert forall|e: int| 0 <= e < shorter.len() implies no_bucket_twice(
            (#[trigger] shorter[e]).1,
        ) by {
            assert(shorter[e] == entries[e]);
        }
        lemma_pairs_of_entries_distinct(shorter, second_key, last_key, second_buckets);
        assert(entry == entries[entries.len() - 1]);
        assert forall|k: int| 0 <= k < head.len() implies pins_entry(
            #[trigger] head[k],
            entries,
        ) by {
            assert(pins_entry(head[k], shorter));
            let e = choose|e: int|
                0 <= e < shorter.len() && (#[trigger] shorter[e]).0 == head[k].first.unwrap().0;
            assert(entries[e] == shorter[e]);
        }
        if is_remaining(entry.0, second_key, last_key) {
            let tail = pairs_of_entry(entry.0, entry.1, second_key, second_buckets);
            lemma_pairs_of_entry_distinct(entry.0, entry.1, second_key, second_buckets);
            assert forall|k: int| 0 <= k < pairs.len() implies pins_entry(
                #[trigger] pairs[k],
                entries,
            ) by {
                if k >= head.len() {
                    assert(pairs[k] == tail[k - head.len()]);
                    assert(pins_first(tail[k - head.len()], entry.0, entry.1));
                } else {
                    assert(pairs[k] == head[k]);
                }
            }
            assert forall|i: int, j: int| 0 <= i < j < pairs.len() implies pairs[i]
                != pairs[j] by {
                if j < head.len() {
                    assert(head[i] != head[j]);
                } else if i >= head.len() {
                    assert(tail[i - head.len()] != tail[j - head.len()]);
                } else {
                    assert(pins_entry(head[i], shorter));
                    let e = choose|e: int|
                        0 <= e < shorter.len() && (#[trigger] shorter[e]).0
                            == head[i].first.unwrap().0;
                    assert(shorter[e] == entries[e]);
                    assert(entries[e].0 != entries[entries.len() - 1].0);
                    assert(pairs[j] == tail[j - head.len()]);
                    assert(pins_first(tail[j - head.len()], entry.0, entry.1));
                }
            }
        }
    }
}

/// The pinned attributes of each pair.
pub open spec fn pins_of(pairs: Seq<BucketPairModel>) -> Seq<Seq<PinModel>> {
    Seq::new(pairs.len(), |i: int| pairs[i].pins())
}

/// Every pair of one remaining attribute pins that attribute and the
/// second-to-last one.
pub proof fn lemma_pairs_of_entry_keys(
    key: Seq<char>,
    buckets: Seq<BucketModel>,
    second_key: Seq<char>,
    second_buckets: Seq<BucketModel>,
)
    ensures
        forall|k: int|
            0 <= k < pairs_of_entry(key, buckets, second_key, second_buckets).len() ==> {
                let pair = #[trigger] pairs_of_entry(key, buckets, second_key, second_buckets)[k];
                pair.second.0 == second_key && pair.first is Some && pair.first.unwrap().0 == key
            },
    decreases buckets.len(),
{
    if buckets.len() > 0 {
        lemma_pairs_of_entry_keys(key, buckets.drop_last(), second_key, second_buckets);
    }
}

/// Every pair of the remaining attributes pins one of them, which is
/// neither the last nor the second-to-last attribute, and the
/// second-to-last one.
pub proof fn lemma_pairs_of_entries_keys(
    entries: Seq<AttributeEntryModel>,
    second_key: Seq<char>,
    last_key: Seq<char>,
    second_buckets: Seq<BucketModel>,
)
    ensures
        forall|k: int|
            0 <= k < pairs_of_entries(entries, second_key, last_key, second_buckets).len() ==> {
                let pair = #[trigger] pairs_of_entries(
                    entries,
                    second_key,
                    last_key,
                    second_buckets,
                )[k];
                pair.second.0 == second_key && pair.first is Some && is_remaining(
                    pair.first.unwrap().0,
                    second_key,
                    last_key,
                )
            },
    decreases entries.len(),
{
    if entries.len() > 0 {
        lemma_pairs_of_entries_keys(entries.drop_last(), second_key, last_key, second_buckets);
        let entry = entries.last();
        lemma_pairs_of_entry_keys(entry.0, entry.1, second_key, second_buckets);
    }
}

/// No counting request of a run pins an attribute twice, and where the
/// last attribute is not also the second-to-last, none pins the last
/// attribute.
pub proof fn lemma_request_pins(m: CounterModel)
    requires
        m.bucket_pairs() is Ok,
    ensures
        forall|i: int|
            0 <= i < m.bucket_pairs().unwrap().len() ==> distinct_keys(
                (#[trigger] m.bucket_pairs().unwrap()[i]).pins(),
            ),
        m.second_last != Some(m.last) ==> forall|i: int|
            0 <= i < m.bucket_pairs().unwrap().len() ==> !has_key(
                (#[trigger] m.bucket_pairs().unwrap()[i]).pins(),
                m.last,
            ),
{
    let pairs = m.bucket_pairs().unwrap();
    let second_key = m.second_last.unwrap();
    let second_buckets = lookup(m.buckets, second_key).unwrap();
    if has_remaining(m.buckets, second_key, m.last) {
        lemma_pairs_of_entries_keys(m.buckets, second_key, m.last, second_buckets);
    }
    assert forall|i: int| 0 <= i < pairs.len() implies distinct_keys((#[trigger] pairs[i]).pins())
        && (second_key != m.last ==> !has_key(pairs[i].pins(), m.last)) by {
        let pins = pairs[i].pins();
        assert(pairs[i].second.0 == second_key);
        if pairs[i].first is Some {
            assert(is_remaining(pairs[i].first.unwrap().0, second_key, m.last));
            assert(pins[0].0 != pins[1].0);
        }
        if has_key(pins, m.last) {
            let at = index_of_key(pins, m.last);
            assert(pins[at].0 == m.last);
        }
    }
}

/// No two counting requests of a run pin the same buckets, where no
/// attribute has a bucket twice.
pub proof fn lemma_no_request_twice(m: CounterModel)
    requires
        distinct_keys(m.buckets),
        forall|e: int| 0 <= e < m.buckets.len() ==> no_bucket_twice((#[trigger] m.buckets[e]).1),
        m.bucket_pairs() is Ok,
    ensures
        forall|i: int, j: int|
            0 <= i < j < m.bucket_pairs().unwrap().len() ==> pins_of(m.bucket_pairs().unwrap())[i]
                != pins_of(m.bucket_pairs().unwrap())[j],
{
    let pairs = m.bucket_pairs().unwrap();
    let second_key = m.second_last.unwrap();
    let second_buckets = lookup(m.buckets, second_key).unwrap();
    let at = index_of_key(m.buckets, second_key);
    assert(0 <= at < m.buckets.len() && m.buckets[at].0 == second_key);
    assert(no_bucket_twice(m.buckets[at].1));
    if has_remaining(m.buckets, second_key, m.last) {
        lemma_pairs_of_entries_distinct(m.buckets, second_key, m.last, second_buckets);
    } else {
        assert forall|i: int, j: int| 0 <= i < j < pairs.len() implies pairs[i] != pairs[j] by {
            assert(second_buckets[i] != second_buckets[j]);
        }
    }
    assert forall|i: int, j: int| 0 <= i < j < pairs.len() implies pins_of(pairs)[i] != pins_of(
        pairs,
    )[j] by {
        assert(pairs[i] != pairs[j]);
        if pairs[i].pins() == pairs[j].pins() {
            lemma_pins_tell_pairs_apart(pairs[i], pairs[j]);
        }
    }
}

/// No combination appears twice in a run: where the last attribute is not
/// also the second-to-last, no attribute has a bucket twice and the server
/// returns no bucket twice to one request, any two of the combinations
/// that the counting requests of the run find differ in a bucket.
pub proof fn lemma_run_emits_no_combination_twice(m: CounterModel, replies: Seq<Seq<Json>>)
    requires
        m.second_last != Some(m.last),
        distinct_keys(m.buckets),
        forall|e: int| 0 <= e < m.buckets.len() ==> no_bucket_twice((#[trigger] m.buckets[e]).1),
        m.bucket_pairs() is Ok,
        replies.len() == m.bucket_pairs().unwrap().len(),
        forall|i: int, a: int, b: int|
            0 <= i < replies.len() && 0 <= a < b < replies[i].len() ==> bucket_of(replies[i][a])
                != bucket_of(replies[i][b]),
    ensures
        forall|x: int, y: int|
            0 <= x < y < all_combinations(
                found_combinations(pins_of(m.bucket_pairs().unwrap()), m.last, replies),
            ).len() ==> (#[trigger] all_combinations(
                found_combinations(pins_of(m.bucket_pairs().unwrap()), m.last, replies),
            )[x]).combination != (#[trigger] all_combinations(
                found_combinations(pins_of(m.bucket_pairs().unwrap()), m.last, replies),
            )[y]).combination,
{
    lemma_no_request_twice(m);
    lemma_request_pins(m);
    lemma_no_combination_twice(pins_of(m.bucket_pairs().unwrap()), m.last, replies);
}

/// Where no attribute remains besides the last two, the remaining
/// attributes give no pairs.
pub proof fn lemma_no_remaining_no_pairs(
    entries: Seq<AttributeEntryModel>,
    second_key: Seq<char>,
    last_key: Seq<char>,
    second_buckets: Seq<BucketModel>,
)
    requires
        !has_remaining(entries, second_key, last_key),
    ensures
        pairs_of_entries(entries, second_key, last_key, second_buckets).len() == 0,
    decreases entries.len(),
{
    if entries.len() > 0 {
        let shorter = entries.drop_last();
        assert forall|i: int| 0 <= i < shorter.len() implies !is_remaining(
            (#[trigger] shorter[i]).0,
            second_key,
            last_key,
        ) by {
            assert(shorter[i] == entries[i]);
        }
        lemma_no_remaining_no_pairs(shorter, second_key, last_key, second_buckets);
        assert(entries.last() == entries[entries.len() - 1]);
    }
}

} // verus!
