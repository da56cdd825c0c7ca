//! The incoming half of the request codec: the three shapes of response are
//! read under their fixed JSON paths.

use crate::json::{
    json_array, json_as_array, json_as_float_text, json_as_str, json_as_u64, json_clone, json_get,
    json_float_text, json_pointer, json_pointer_at, json_replace_at, json_replaced, json_view,
    json_views, Json, JsonNumber,
};
use crate::request_sender::FetchError;
use crate::text::copy_text;
use crate::types::{
    copy_pins, filter_of_pin, merged, with_entry, AttributeBuckets, AttributeEntryModel, Bucket,
    BucketModel,
    FilterCombination, FilterCombinationModel, FilterCombinations, Pin, PinModel,
};
use serde_json::Value;
use vstd::prelude::*;

verus! {

/// The path of the buckets of every requested attribute.
pub const SPEC_AGGS_PATH: &'static str = "/data/search/spec_aggs";

/// The path of the buckets of the one attribute that a count asks for.
pub const COUNT_BUCKETS_PATH: &'static str = "/data/search/spec_aggs/0/buckets";

/// The path of the components of a retrieval.
pub const RESULTS_PATH: &'static str = "/data/search/results";

/// The bucket that an element of a `buckets` array describes. A missing or
/// ill-typed `count` reads as zero, a missing or ill-typed `display_value`
/// as the empty text; a `float_value` that is a number is kept as the text
/// of that number.
pub open spec fn bucket_of(item: Json) -> BucketModel {
    BucketModel {
        count: match item.member("count"@) {
            Some(v) => match v.unsigned() {
                Some(n) => n as nat,
                None => 0,
            },
            None => 0,
        },
        display_value: match item.member("display_value"@) {
            Some(v) => match v.text() {
                Some(s) => s,
                None => Seq::empty(),
            },
            None => Seq::empty(),
        },
        float_value: match item.member("float_value"@) {
            Some(v) => v.float_text(),
            None => None,
        },
    }
}

/// The buckets that the elements of a `buckets` array describe.
pub open spec fn buckets_of(items: Seq<Json>) -> Seq<BucketModel> {
    Seq::new(items.len(), |i: int| bucket_of(items[i]))
}

/// The attributes with their buckets after the first `n` elements of
/// `spec_aggs` have been read: element `i` belongs to attribute `i`, and an
/// element without a `buckets` array gives its attribute nothing.
pub open spec fn collected(ids: Seq<Seq<char>>, aggs: Seq<Json>, n: nat) -> Seq<
    AttributeEntryModel,
>
    decreases n,
{
    if n == 0 {
        Seq::empty()
    } else {
        let before = collected(ids, aggs, (n - 1) as nat);
        match aggs[n - 1].member("buckets"@) {
            Some(Json::Array(items)) => with_entry(before, ids[n - 1], buckets_of(items)),
            _ => before,
        }
    }
}

/// The number of attributes that have an element of `spec_aggs`.
pub open spec fn paired(ids: Seq<Seq<char>>, aggs: Seq<Json>) -> nat {
    if ids.len() <= aggs.len() {
        ids.len()
    } else {
        aggs.len()
    }
}

/// What attribute discovery gives for the value found under
/// [`SPEC_AGGS_PATH`], if one was found.
pub open spec fn attribute_buckets_of(found: Option<Json>, ids: Seq<Seq<char>>) -> Result<
    Seq<AttributeEntryModel>,
    FetchError,
> {
    match found {
        Some(Json::Array(aggs)) => Ok(collected(ids, aggs, paired(ids, aggs))),
        _ => Err(FetchError::MissingPath),
    }
}

/// The combination that one returned bucket of the last attribute gives:
/// the pinned attributes and the last attribute with that bucket, as a map
/// holds them, and the bucket's own count. Where the last attribute is not
/// among the pinned ones it comes after them; where it is, the returned
/// bucket replaces the pinned one.
pub open spec fn combination_of(
    pinned: Seq<PinModel>,
    last_key: Seq<char>,
    item: Json,
) -> FilterCombinationModel {
    FilterCombinationModel {
        combination: with_entry(merged(pinned), last_key, bucket_of(item)),
        count: bucket_of(item).count,
    }
}

/// What a combination count gives for the value found under
/// [`COUNT_BUCKETS_PATH`], if one was found: one combination for each
/// returned bucket.
pub open spec fn combinations_of(
    found: Option<Json>,
    pinned: Seq<PinModel>,
    last_key: Seq<char>,
) -> Result<Seq<FilterCombinationModel>, FetchError> {
    match found {
        Some(Json::Array(items)) => Ok(
            Seq::new(items.len(), |i: int| combination_of(pinned, last_key, items[i])),
        ),
        _ => Err(FetchError::MissingPath),
    }
}

/// What is kept of a retrieval as the category's metadata: the response
/// with an empty list in the place of its components. A response without
/// [`RESULTS_PATH`] gives none.
pub open spec fn metadata_of(response: Json) -> Option<Json> {
    if json_pointer(response, RESULTS_PATH@) is Some {
        Some(json_replaced(response, RESULTS_PATH@, Json::Array(Seq::empty())))
    } else {
        None
    }
}

/// What a retrieval gives for the value found under [`RESULTS_PATH`], if
/// one was found: the components, or an error where there is no array.
pub open spec fn components_of(found: Option<Json>) -> Result<Seq<Json>, FetchError> {
    match found {
        Some(Json::Array(items)) => Ok(items),
        _ => Err(FetchError::MissingPath),
    }
}

/// A bucket that the server gave with a numeric machine value is pinned,
/// in the filters of a later request, by the text of exactly that number.
pub proof fn lemma_numeric_bucket_pins_its_number(key: Seq<char>, item: Json, n: JsonNumber)
    requires
        item.member("float_value"@) == Some(Json::Number(n)),
    ensures
        bucket_of(item).float_value == Some(json_float_text(n)),
        bucket_of(item).filter_value() == json_float_text(n),
        filter_of_pin((key, bucket_of(item))).display_id == key,
        filter_of_pin((key, bucket_of(item))).bucket_value == json_float_text(n),
{
}

/// A bucket that the server gave without a numeric machine value is
/// pinned by its display value.
pub proof fn lemma_plain_bucket_pins_its_display_value(key: Seq<char>, item: Json)
    requires
        item.member("float_value"@) is None || !(item.member("float_value"@).unwrap() is Number),
    ensures
        bucket_of(item).float_value is None,
        filter_of_pin((key, bucket_of(item))).bucket_value == bucket_of(item).display_value,
{
}

/// Whether a retrieval can be read: its response holds an array under
/// [`RESULTS_PATH`].
pub open spec fn can_be_read(response: Json) -> bool {
    components_of(json_pointer(response, RESULTS_PATH@)) is Ok
}

/// The metadata captured after one more retrieval: the first response that
/// can be read is kept without its components; what was captured before
/// stays.
pub open spec fn captured_next(captured: Option<Json>, response: Json) -> Option<Json> {
    if captured is None && can_be_read(response) {
        metadata_of(response)
    } else {
        captured
    }
}

/// The metadata captured after a sequence of retrievals, taken in the
/// order in which their responses were read.
pub open spec fn captured_after(captured: Option<Json>, responses: Seq<Json>) -> Option<Json>
    decreases responses.len(),
{
    if responses.len() == 0 {
        captured
    } else {
        captured_next(captured_after(captured, responses.drop_last()), responses.last())
    }
}

/// Metadata is captured once: after any number of retrievals, in any
/// order, what is captured comes from the first response that could be
/// read, and from that one alone.
pub proof fn lemma_metadata_captured_once(responses: Seq<Json>, first: int)
    requires
        0 <= first < responses.len(),
        can_be_read(responses[first]),
        forall|j: int| 0 <= j < first ==> !can_be_read(#[trigger] responses[j]),
    ensures
        captured_after(None, responses) == metadata_of(responses[first]),
        captured_after(None, responses) is Some,
    decreases responses.len(),
{
    let shorter = responses.drop_last();
    if first == responses.len() - 1 {
        lemma_nothing_captured(shorter);
    } else {
        lemma_metadata_captured_once(shorter, first);
    }
}

/// Where no response can be read, nothing is captured.
pub proof fn lemma_nothing_captured(responses: Seq<Json>)
    requires
        forall|j: int| 0 <= j < responses.len() ==> !can_be_read(#[trigger] responses[j]),
    ensures
        captured_after(None, responses) is None,
    decreases responses.len(),
{
    if responses.len() > 0 {
        lemma_nothing_captured(responses.drop_last());
    }
}

/// The bucket that an element of a `buckets` array describes.
pub fn bucket_from(item: &Value) -> (r: Bucket)
    ensures
        r@ == bucket_of(json_view(*item)),
{
    let count: u64 = match json_get(item, "count") {
        Some(v) => match json_as_u64(v) {
            Some(n) => n,
            None => 0,
        },
        None => 0,
    };
    let display_value: String = match json_get(item, "display_value") {
        Some(v) => match json_as_str(v) {
            Some(s) => s.to_owned(),
            None => String::new(),
        },
        None => String::new(),
    };
    let float_value: Option<String> = match json_get(item, "float_value") {
        Some(v) => json_as_float_text(v),
        None => None,
    };
    Bucket { count, display_value, float_value }
}

/// The buckets that the elements of a `buckets` array describe.
pub fn buckets_from(items: &Vec<Value>) -> (r: Vec<Bucket>)
    ensures
        r.deep_view() == buckets_of(json_views(items@)),
{
    let mut out: Vec<Bucket> = Vec::new();
    let mut i: usize = 0;
    while i < items.len()
        invariant
            i <= items.len(),
            out.len() == i,
            forall|j: int| 0 <= j < i ==> (#[trigger] out[j])@ == bucket_of(json_view(items[j])),
        decreases items.len() - i,
    {
        out.push(bucket_from(&items[i]));
        i = i + 1;
    }
    assert(out.deep_view() =~= buckets_of(json_views(items@)));
    out
}

/// Attribute discovery, from the value found under [`SPEC_AGGS_PATH`]: for
/// each requested attribute, in order, the buckets of its element.
pub fn buckets_from_aggs(found: Option<&Value>, attribute_ids: &Vec<String>) -> (r: Result<
    AttributeBuckets,
    FetchError,
>)
    ensures
        match attribute_buckets_of(
            match found {
                Some(v) => Some(json_view(*v)),
                None => None,
            },
            attribute_ids.deep_view(),
        ) {
            Ok(entries) => r matches Ok(buckets) && buckets@ == entries,
            Err(error) => r == Err::<AttributeBuckets, FetchError>(error),
        },
{
    let aggs: &Vec<Value> = match found {
        Some(v) => match json_as_array(v) {
            Some(list) => list,
            None => {
                return Err(FetchError::MissingPath);
            },
        },
        None => {
            return Err(FetchError::MissingPath);
        },
    };
    let n: usize = if attribute_ids.len() <= aggs.len() {
        attribute_ids.len()
    } else {
        aggs.len()
    };
    let ghost ids = attribute_ids.deep_view();
    let ghost docs = json_views(aggs@);
    let mut buckets = AttributeBuckets::new();
    let mut i: usize = 0;
    while i < n
        invariant
            i <= n,
            n <= attribute_ids.len(),
            n <= aggs.len(),
            ids == attribute_ids.deep_view(),
            docs == json_views(aggs@),
            buckets@ == collected(ids, docs, i as nat),
        decreases n - i,
    {
        assert(docs[i as int] == json_view(aggs[i as int]));
        match json_get(&aggs[i], "buckets") {
            Some(v) => match json_as_array(v) {
                Some(items) => {
                    buckets.insert(copy_text(&attribute_ids[i]), buckets_from(items));
                },
                None => {},
            },
            None => {},
        }
        i = i + 1;
    }
    Ok(buckets)
}

/// A combination count, from the value found under
/// [`COUNT_BUCKETS_PATH`]: one combination for each returned bucket of the
/// last attribute, with the server's count for it.
pub fn combinations_from_buckets(found: Option<&Value>, pinned: &Vec<Pin>, last_key: &String) -> (r:
    Result<FilterCombinations, FetchError>)
    ensures
        match combinations_of(
            match found {
                Some(v) => Some(json_view(*v)),
                None => None,
            },
            pinned.deep_view(),
            last_key@,
        ) {
            Ok(list) => r matches Ok(combinations) && combinations@ == list,
            Err(error) => r == Err::<FilterCombinations, FetchError>(error),
        },
{
    let items: &Vec<Value> = match found {
        Some(v) => match json_as_array(v) {
            Some(list) => list,
            None => {
                return Err(FetchError::MissingPath);
            },
        },
        None => {
            return Err(FetchError::MissingPath);
        },
    };
    let mut out: Vec<FilterCombination> = Vec::new();
    let mut i: usize = 0;
    while i < items.len()
        invariant
            i <= items.len(),
            out.len() == i,
            forall|j: int|
                0 <= j < i ==> (#[trigger] out[j])@ == combination_of(
                    pinned.deep_view(),
                    last_key@,
                    json_view(items[j]),
                ),
        decreases items.len() - i,
    {
        let bucket = bucket_from(&items[i]);
        let mut combination = FilterCombination::from_pins(copy_pins(pinned), bucket.count);
        combination.insert(copy_text(last_key), bucket);
        out.push(combination);
        i = i + 1;
    }
    let combinations = FilterCombinations { combinations: out };
    assert(combinations@ =~= Seq::new(
        json_views(items@).len(),
        |i: int| combination_of(pinned.deep_view(), last_key@, json_views(items@)[i]),
    ));
    Ok(combinations)
}

/// A retrieval, from the value found under [`RESULTS_PATH`]: the
/// components, or an error where no array was found.
pub fn components_from_results(found: Option<&Value>) -> (r: Result<Vec<Value>, FetchError>)
    ensures
        match components_of(
            match found {
                Some(v) => Some(json_view(*v)),
                None => None,
            },
        ) {
            Ok(items) => r matches Ok(components) && json_views(components@) == items,
            Err(error) => r == Err::<Vec<Value>, FetchError>(error),
        },
{
    let items: &Vec<Value> = match found {
        Some(v) => match json_as_array(v) {
            Some(list) => list,
            None => {
                return Err(FetchError::MissingPath);
            },
        },
        None => {
            return Err(FetchError::MissingPath);
        },
    };
    let mut out: Vec<Value> = Vec::new();
    let mut i: usize = 0;
    while i < items.len()
        invariant
            i <= items.len(),
            out.len() == i,
            forall|j: int| 0 <= j < i ==> json_view(#[trigger] out[j]) == json_view(items[j]),
        decreases items.len() - i,
    {
        out.push(json_clone(&items[i]));
        i = i + 1;
    }
    assert(json_views(out@) =~= json_views(items@));
    Ok(out)
}

/// Reads responses, and keeps the category metadata of the first retrieval
/// that it could read.
#[derive(Debug)]
pub struct ResponseHandler {
    metadata: Option<Value>,
}

impl View for ResponseHandler {
    type V = Option<Json>;

    /// The metadata captured so far.
    closed spec fn view(&self) -> Option<Json> {
        match self.metadata {
            Some(v) => Some(json_view(v)),
            None => None,
        }
    }
}

impl ResponseHandler {
    /// A handler that has captured nothing yet.
    pub fn new() -> (r: ResponseHandler)
        ensures
            r@ is None,
    {
        ResponseHandler { metadata: None }
    }

    /// The buckets of every requested attribute, from the response to an
    /// attribute discovery. A response without an array under
    /// [`SPEC_AGGS_PATH`] is a fetch error.
    pub fn extract_buckets(&self, json: &Value, attribute_ids: &Vec<String>) -> (r: Result<
        AttributeBuckets,
        FetchError,
    >)
        ensures
            match attribute_buckets_of(
                json_pointer(json_view(*json), SPEC_AGGS_PATH@),
                attribute_ids.deep_view(),
            ) {
                Ok(entries) => r matches Ok(buckets) && buckets@ == entries,
                Err(error) => r == Err::<AttributeBuckets, FetchError>(error),
            },
    {
        buckets_from_aggs(json_pointer_at(json, SPEC_AGGS_PATH), attribute_ids)
    }

    /// The combinations that one count reports: the pinned attributes
    /// completed by each returned bucket of the last attribute. A response
    /// without an array under [`COUNT_BUCKETS_PATH`] is a fetch error.
    pub fn extract_filter_combinations(
        &self,
        json: &Value,
        pinned: &Vec<Pin>,
        last_key: &String,
    ) -> (r: Result<FilterCombinations, FetchError>)
        ensures
            match combinations_of(
                json_pointer(json_view(*json), COUNT_BUCKETS_PATH@),
                pinned.deep_view(),
                last_key@,
            ) {
                Ok(list) => r matches Ok(combinations) && combinations@ == list,
                Err(error) => r == Err::<FilterCombinations, FetchError>(error),
            },
    {
        combinations_from_buckets(json_pointer_at(json, COUNT_BUCKETS_PATH), pinned, last_key)
    }

    /// The response with its components taken out: what is kept as the
    /// category's metadata. A response without [`RESULTS_PATH`] is a fetch
    /// error.
    pub fn get_component_response_metadata(json: &Value) -> (r: Result<Value, FetchError>)
        ensures
            match metadata_of(json_view(*json)) {
                Some(doc) => r matches Ok(v) && json_view(v) == doc,
                None => r == Err::<Value, FetchError>(FetchError::MissingPath),
            },
    {
        let mut doc = json_clone(json);
        let nothing: Vec<Value> = Vec::new();
        assert(json_views(nothing@) =~= Seq::<Json>::empty());
        if json_replace_at(&mut doc, RESULTS_PATH, json_array(nothing)) {
            Ok(doc)
        } else {
            Err(FetchError::MissingPath)
        }
    }

    /// The components of a retrieval. A response without an array under
    /// [`RESULTS_PATH`] is a fetch error, never an empty list. The first
    /// response that can be read is also kept, without its components, as
    /// the category's metadata; later ones leave what was captured alone.
    pub fn extract_components(&mut self, json: &Value) -> (r: Result<Vec<Value>, FetchError>)
        ensures
            match components_of(json_pointer(json_view(*json), RESULTS_PATH@)) {
                Ok(items) => r matches Ok(components) && json_views(components@) == items,
                Err(error) => r == Err::<Vec<Value>, FetchError>(error),
            },
            r is Ok <==> can_be_read(json_view(*json)),
            final(self)@ == captured_next(old(self)@, json_view(*json)),
    {
        let components = components_from_results(json_pointer_at(json, RESULTS_PATH));
        if components.is_ok() && self.metadata.is_none() {
            match Self::get_component_response_metadata(json) {
                Ok(doc) => {
                    self.metadata = Some(doc);
                },
                Err(_) => {},
            }
        }
        components
    }

    /// Hands out the captured metadata, if any, and forgets it.
    pub fn take_metadata(&mut self) -> (r: Option<Value>)
        ensures
            final(self)@ is None,
            match old(self)@ {
                Some(doc) => r matches Some(v) && json_view(v) == doc,
                None => r is None,
            },
    {
        let mut taken: Option<Value> = None;
        std::mem::swap(&mut taken, &mut self.metadata);
        taken
    }
}

} // verus!
