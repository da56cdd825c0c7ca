//! The values that flow down the pipeline: buckets, combinations of buckets
//! and pagination windows.

use crate::text::{copy_optional_text, copy_text};
use vstd::prelude::*;

verus! {

/// One observed value of an attribute within the category, with the number
/// of components that carry it.
#[derive(Debug)]
pub struct Bucket {
    /// The number of components in the bucket.
    pub count: u64,
    /// The value as it is shown to a user.
    pub display_value: String,
    /// The text of the numeric machine value, where the server gave one.
    pub float_value: Option<String>,
}

/// The mathematical content of a [`Bucket`].
pub struct BucketModel {
    pub count: nat,
    pub display_value: Seq<char>,
    pub float_value: Option<Seq<char>>,
}

impl BucketModel {
    /// The value that pins an attribute to this bucket in a filter: the
    /// numeric machine value where there is one, else the display value.
    pub open spec fn filter_value(self) -> Seq<char> {
        match self.float_value {
            Some(text) => text,
            None => self.display_value,
        }
    }
}

impl View for Bucket {
    type V = BucketModel;

    open spec fn view(&self) -> BucketModel {
        BucketModel {
            count: self.count as nat,
            display_value: self.display_value@,
            float_value: self.float_value.deep_view(),
        }
    }
}

impl DeepView for Bucket {
    type V = BucketModel;

    open spec fn deep_view(&self) -> BucketModel {
        self@
    }
}

impl Clone for Bucket {
    fn clone(&self) -> (r: Bucket)
        ensures
            r@ == self@,
    {
        Bucket {
            count: self.count,
            display_value: copy_text(&self.display_value),
            float_value: copy_optional_text(&self.float_value),
        }
    }
}

impl Bucket {
    /// The value that pins an attribute to this bucket in a filter.
    pub fn filter_value(&self) -> (r: String)
        ensures
            r@ == self@.filter_value(),
    {
        match &self.float_value {
            Some(text) => copy_text(text),
            None => copy_text(&self.display_value),
        }
    }
}

/// A pinned attribute: the attribute's identifier and the bucket chosen for it.
pub type Pin = (String, Bucket);

/// The mathematical content of a [`Pin`].
pub type PinModel = (Seq<char>, BucketModel);

/// A copy of a list of pinned attributes.
pub fn copy_pins(v: &Vec<Pin>) -> (r: Vec<Pin>)
    ensures
        r.deep_view() == v.deep_view(),
{
    let mut out: Vec<Pin> = Vec::new();
    let mut i: usize = 0;
    while i < v.len()
        invariant
            i <= v.len(),
            out.len() == i,
            forall|j: int| 0 <= j < i ==> out[j].deep_view() == v[j].deep_view(),
        decreases v.len() - i,
    {
        out.push((copy_text(&v[i].0), v[i].1.clone()));
        i = i + 1;
    }
    assert(out.deep_view() =~= v.deep_view());
    out
}

/// An attribute's identifier with the buckets observed for it.
pub type AttributeEntry = (String, Vec<Bucket>);

/// The mathematical content of an [`AttributeEntry`].
pub type AttributeEntryModel = (Seq<char>, Seq<BucketModel>);

/// No attribute occurs twice among the entries.
pub open spec fn distinct_keys<V>(entries: Seq<(Seq<char>, V)>) -> bool {
    forall|i: int, j: int|
        0 <= i < j < entries.len() ==> (#[trigger] entries[i]).0 != (#[trigger] entries[j]).0
}

/// Whether the entries hold the attribute.
pub open spec fn has_key<V>(entries: Seq<(Seq<char>, V)>, key: Seq<char>) -> bool {
    exists|i: int| 0 <= i < entries.len() && (#[trigger] entries[i]).0 == key
}

/// The place of the attribute among the entries that hold it.
pub open spec fn index_of_key<V>(entries: Seq<(Seq<char>, V)>, key: Seq<char>) -> int {
    choose|i: int| 0 <= i < entries.len() && (#[trigger] entries[i]).0 == key
}

/// What the entries hold for an attribute, if they hold it.
pub open spec fn lookup<V>(entries: Seq<(Seq<char>, V)>, key: Seq<char>) -> Option<V> {
    if has_key(entries, key) {
        Some(entries[index_of_key(entries, key)].1)
    } else {
        None
    }
}

/// The entries after the attribute has been given a new value: an
/// attribute that is already held keeps its place, a new one goes to the
/// end.
pub open spec fn with_entry<V>(entries: Seq<(Seq<char>, V)>, key: Seq<char>, buckets: V) -> Seq<
    (Seq<char>, V),
> {
    if has_key(entries, key) {
        entries.update(index_of_key(entries, key), (key, buckets))
    } else {
        entries.push((key, buckets))
    }
}

/// Among entries without a repeated attribute, the attribute found at a
/// place is the one that [`index_of_key`] names.
pub proof fn lemma_index_of_key<V>(entries: Seq<(Seq<char>, V)>, i: int)
    requires
        distinct_keys(entries),
        0 <= i < entries.len(),
    ensures
        has_key(entries, entries[i].0),
        index_of_key(entries, entries[i].0) == i,
        lookup(entries, entries[i].0) == Some(entries[i].1),
{
    let key = entries[i].0;
    let j = index_of_key(entries, key);
    assert(0 <= j < entries.len() && entries[j].0 == key);
    if j < i {
        assert(entries[j].0 != entries[i].0);
    } else if i < j {
        assert(entries[i].0 != entries[j].0);
    }
}

/// Giving an attribute a new value keeps the entries free of repeats, and
/// afterwards the attribute has that value and every other attribute has
/// what it had.
pub proof fn lemma_with_entry<V>(entries: Seq<(Seq<char>, V)>, key: Seq<char>, buckets: V)
    requires
        distinct_keys(entries),
    ensures
        distinct_keys(with_entry(entries, key, buckets)),
        lookup(with_entry(entries, key, buckets), key) == Some(buckets),
        forall|other: Seq<char>|
            other != key ==> lookup(with_entry(entries, key, buckets), other) == lookup(
                entries,
                other,
            ),
        with_entry(entries, key, buckets).len() == if has_key(entries, key) {
            entries.len()
        } else {
            entries.len() + 1
        },
{
    let after = with_entry(entries, key, buckets);
    let at = if has_key(entries, key) {
        index_of_key(entries, key)
    } else {
        entries.len() as int
    };
    assert(0 <= at < after.len() && after[at] == (key, buckets));
    assert forall|i: int| 0 <= i < after.len() && i != at implies after[i] == entries[i]
        && entries[i].0 != key by {
        if has_key(entries, key) {
            if i < at {
                assert(entries[i].0 != entries[at].0);
            } else {
                assert(entries[at].0 != entries[i].0);
            }
        }
    }
    assert forall|i: int, j: int| 0 <= i < j < after.len() implies (#[trigger] after[i]).0 != (
    #[trigger] after[j]).0 by {
        if i != at && j != at {
            assert(entries[i].0 != entries[j].0);
        }
    }
    lemma_index_of_key(after, at);
    assert forall|other: Seq<char>| other != key implies lookup(after, other) == lookup(
        entries,
        other,
    ) by {
        if has_key(entries, other) {
            let i = index_of_key(entries, other);
            assert(after[i] == entries[i]);
            lemma_index_of_key(after, i);
            lemma_index_of_key(entries, i);
        } else if has_key(after, other) {
            let i = index_of_key(after, other);
            assert(i != at);
            assert(entries[i].0 == other);
        }
    }
}

/// The entries as a map holds them: taken in order, a later entry of an
/// attribute replaces the value of the earlier one.
pub open spec fn merged<V>(entries: Seq<(Seq<char>, V)>) -> Seq<(Seq<char>, V)>
    decreases entries.len(),
{
    if entries.len() == 0 {
        Seq::empty()
    } else {
        with_entry(merged(entries.drop_last()), entries.last().0, entries.last().1)
    }
}

/// A map never holds an attribute twice; entries in which no attribute
/// occurs twice are held as they are.
pub proof fn lemma_merged<V>(entries: Seq<(Seq<char>, V)>)
    ensures
        distinct_keys(merged(entries)),
        distinct_keys(entries) ==> merged(entries) == entries,
    decreases entries.len(),
{
    if entries.len() > 0 {
        let shorter = entries.drop_last();
        lemma_merged(shorter);
        lemma_with_entry(merged(shorter), entries.last().0, entries.last().1);
        if distinct_keys(entries) {
            assert(distinct_keys(shorter)) by {
                assert forall|i: int, j: int| 0 <= i < j < shorter.len() implies (
                #[trigger] shorter[i]).0 != (#[trigger] shorter[j]).0 by {
                    assert(shorter[i] == entries[i] && shorter[j] == entries[j]);
                }
            }
            assert(!has_key(shorter, entries.last().0)) by {
                if has_key(shorter, entries.last().0) {
                    let i = index_of_key(shorter, entries.last().0);
                    assert(shorter[i] == entries[i]);
                    assert(entries[i].0 != entries[entries.len() - 1].0);
                }
            }
            assert(merged(entries) =~= entries);
        }
    }
}

/// For each requested attribute, the buckets that occur in the category.
/// No attribute is held twice.
#[derive(Debug)]
pub struct AttributeBuckets {
    buckets: Vec<AttributeEntry>,
}

impl View for AttributeBuckets {
    type V = Seq<AttributeEntryModel>;

    closed spec fn view(&self) -> Seq<AttributeEntryModel> {
        self.buckets.deep_view()
    }
}

impl AttributeBuckets {
    #[verifier::type_invariant]
    spec fn well_formed(self) -> bool {
        distinct_keys(self.buckets.deep_view())
    }

    /// The place of an attribute among the entries.
    fn position(&self, key: &String) -> (r: Option<usize>)
        ensures
            match r {
                Some(i) => has_key(self@, key@) && i == index_of_key(self@, key@) && i
                    < self.buckets.len(),
                None => !has_key(self@, key@),
            },
    {
        proof {
            use_type_invariant(self);
        }
        let mut i: usize = 0;
        while i < self.buckets.len()
            invariant
                i <= self.buckets.len(),
                distinct_keys(self.buckets.deep_view()),
                forall|j: int| 0 <= j < i ==> (#[trigger] self.buckets.deep_view()[j]).0 != key@,
            decreases self.buckets.len() - i,
        {
            if self.buckets[i].0 == *key {
                proof {
                    assert(self.buckets.deep_view()[i as int].0 == key@);
                    lemma_index_of_key(self.buckets.deep_view(), i as int);
                }
                return Some(i);
            }
            i = i + 1;
        }
        None
    }

    /// No attributes.
    pub fn new() -> (r: AttributeBuckets)
        ensures
            r@ == Seq::<AttributeEntryModel>::empty(),
    {
        let r = AttributeBuckets { buckets: Vec::new() };
        assert(r.buckets.deep_view() =~= Seq::<AttributeEntryModel>::empty());
        r
    }

    /// The number of attributes held.
    pub fn len(&self) -> (n: usize)
        ensures
            n == self@.len(),
            distinct_keys(self@),
    {
        proof {
            use_type_invariant(self);
        }
        self.buckets.len()
    }

    /// The attributes with their buckets, in the order in which they came.
    pub fn entries(&self) -> (r: &Vec<AttributeEntry>)
        ensures
            r.deep_view() == self@,
            distinct_keys(self@),
    {
        proof {
            use_type_invariant(self);
        }
        &self.buckets
    }

    /// The buckets of an attribute, if it is held.
    pub fn get(&self, key: &String) -> (r: Option<&Vec<Bucket>>)
        ensures
            r.deep_view() == lookup(self@, key@),
    {
        match self.position(key) {
            Some(i) => Some(&self.buckets[i].1),
            None => None,
        }
    }

    /// Gives an attribute its buckets. For an attribute that is already held
    /// they replace the earlier ones.
    pub fn insert(&mut self, key: String, buckets: Vec<Bucket>)
        ensures
            final(self)@ == with_entry(old(self)@, key@, buckets.deep_view()),
    {
        proof {
            use_type_invariant(&*self);
            lemma_with_entry(self@, key@, buckets.deep_view());
        }
        match self.position(&key) {
            Some(i) => {
                let ghost before = self.buckets.deep_view();
                let ghost entry = (key@, buckets.deep_view());
                let mut list: Vec<AttributeEntry> = Vec::new();
                std::mem::swap(&mut list, &mut self.buckets);
                list.set(i, (key, buckets));
                assert(list.deep_view() =~= before.update(i as int, entry));
                self.buckets = list;
            },
            None => {
                let ghost before = self.buckets.deep_view();
                let ghost entry = (key@, buckets.deep_view());
                let mut list: Vec<AttributeEntry> = Vec::new();
                std::mem::swap(&mut list, &mut self.buckets);
                list.push((key, buckets));
                assert(list.deep_view() =~= before.push(entry));
                self.buckets = list;
            },
        }
    }
}

/// The buckets of the second-to-last attribute and, with three attributes,
/// of the remaining one: what one counting request pins.
#[derive(Debug)]
pub struct BucketPair {
    /// The remaining attribute and its bucket, where there are three attributes.
    pub first: Option<Pin>,
    /// The second-to-last attribute and its bucket.
    pub second: Pin,
}

/// The mathematical content of a [`BucketPair`].
pub struct BucketPairModel {
    pub first: Option<PinModel>,
    pub second: PinModel,
}

impl BucketPairModel {
    /// The pinned attributes in the order in which a filter lists them.
    pub open spec fn pins(self) -> Seq<PinModel> {
        match self.first {
            Some(pin) => seq![pin, self.second],
            None => seq![self.second],
        }
    }
}

impl View for BucketPair {
    type V = BucketPairModel;

    open spec fn view(&self) -> BucketPairModel {
        BucketPairModel { first: self.first.deep_view(), second: self.second.deep_view() }
    }
}

impl DeepView for BucketPair {
    type V = BucketPairModel;

    open spec fn deep_view(&self) -> BucketPairModel {
        self@
    }
}

impl BucketPair {
    /// The pinned attributes in the order in which a filter lists them.
    pub fn pins(&self) -> (r: Vec<Pin>)
        ensures
            r.deep_view() == self@.pins(),
    {
        let mut out: Vec<Pin> = Vec::new();
        match &self.first {
            Some(pin) => {
                out.push((copy_text(&pin.0), pin.1.clone()));
            },
            None => {},
        }
        out.push((copy_text(&self.second.0), self.second.1.clone()));
        assert(out.deep_view() =~= self@.pins());
        out
    }
}

/// The place of an attribute in a list in which no attribute occurs twice.
fn position_of_pin(pins: &Vec<Pin>, key: &String) -> (r: Option<usize>)
    requires
        distinct_keys(pins.deep_view()),
    ensures
        match r {
            Some(i) => has_key(pins.deep_view(), key@) && i == index_of_key(pins.deep_view(), key@)
                && i < pins.len(),
            None => !has_key(pins.deep_view(), key@),
        },
{
    let mut i: usize = 0;
    while i < pins.len()
        invariant
            i <= pins.len(),
            distinct_keys(pins.deep_view()),
            forall|j: int| 0 <= j < i ==> (#[trigger] pins.deep_view()[j]).0 != key@,
        decreases pins.len() - i,
    {
        if pins[i].0 == *key {
            proof {
                assert(pins.deep_view()[i as int].0 == key@);
                lemma_index_of_key(pins.deep_view(), i as int);
            }
            return Some(i);
        }
        i = i + 1;
    }
    None
}

/// A choice of one bucket for each requested attribute, with the number of
/// components that the server counted for exactly that choice. It is a map
/// from attributes to buckets: no attribute is pinned twice.
#[derive(Debug)]
pub struct FilterCombination {
    combination: Vec<Pin>,
    count: u64,
}

/// The mathematical content of a [`FilterCombination`].
pub struct FilterCombinationModel {
    pub combination: Seq<PinModel>,
    pub count: nat,
}

impl View for FilterCombination {
    type V = FilterCombinationModel;

    closed spec fn view(&self) -> FilterCombinationModel {
        FilterCombinationModel {
            combination: self.combination.deep_view(),
            count: self.count as nat,
        }
    }
}

impl FilterCombination {
    #[verifier::type_invariant]
    spec fn well_formed(self) -> bool {
        distinct_keys(self.combination.deep_view())
    }

    /// The combination that pins nothing yet, with the server's count.
    pub fn new(count: u64) -> (r: FilterCombination)
        ensures
            r@ == (FilterCombinationModel { combination: Seq::empty(), count: count as nat }),
    {
        let r = FilterCombination { combination: Vec::new(), count };
        assert(r.combination.deep_view() =~= Seq::<PinModel>::empty());
        r
    }

    /// The combination that pins the given attributes, taken in order, with
    /// the server's count. Of an attribute that is given twice the later
    /// bucket is kept.
    pub fn from_pins(pins: Vec<Pin>, count: u64) -> (r: FilterCombination)
        ensures
            r@ == (FilterCombinationModel {
                combination: merged(pins.deep_view()),
                count: count as nat,
            }),
    {
        let ghost all = pins.deep_view();
        let mut out = FilterCombination::new(count);
        assert(all.take(0) =~= Seq::<PinModel>::empty());
        for pin in it: pins
            invariant
                it.seq().len() == all.len(),
                forall|j: int|
                    0 <= j < all.len() ==> (#[trigger] it.seq()[j]).deep_view() == all[j],
                out@.combination == merged(all.take(it.index() as int)),
                out@.count == count,
        {
            let ghost i = it.index() as int;
            proof {
                assert(all.take(i + 1).drop_last() =~= all.take(i));
                assert(all.take(i + 1).last() == all[i]);
            }
            out.insert(pin.0, pin.1);
        }
        assert(all.take(all.len() as int) =~= all);
        out
    }

    /// Pins an attribute to a bucket. For an attribute that is already
    /// pinned the bucket replaces the earlier one.
    pub fn insert(&mut self, key: String, bucket: Bucket)
        ensures
            final(self)@.combination == with_entry(old(self)@.combination, key@, bucket@),
            final(self)@.count == old(self)@.count,
    {
        proof {
            use_type_invariant(&*self);
            lemma_with_entry(self@.combination, key@, bucket@);
        }
        let ghost before = self.combination.deep_view();
        let ghost entry = (key@, bucket@);
        let found = position_of_pin(&self.combination, &key);
        let mut list: Vec<Pin> = Vec::new();
        std::mem::swap(&mut list, &mut self.combination);
        match found {
            Some(i) => {
                list.set(i, (key, bucket));
                assert(list.deep_view() =~= before.update(i as int, entry));
            },
            None => {
                list.push((key, bucket));
                assert(list.deep_view() =~= before.push(entry));
            },
        }
        self.combination = list;
    }

    /// The attributes' identifiers, each with the bucket chosen for it. No
    /// attribute occurs twice.
    pub fn pins(&self) -> (r: &Vec<Pin>)
        ensures
            r.deep_view() == self@.combination,
            distinct_keys(self@.combination),
    {
        proof {
            use_type_invariant(self);
        }
        &self.combination
    }

    /// The server's count for the combination.
    pub fn count(&self) -> (n: u64)
        ensures
            n == self@.count,
    {
        self.count
    }
}

impl DeepView for FilterCombination {
    type V = FilterCombinationModel;

    open spec fn deep_view(&self) -> FilterCombinationModel {
        self@
    }
}

/// The combinations that the counting phase found.
#[derive(Debug)]
pub struct FilterCombinations {
    pub combinations: Vec<FilterCombination>,
}

impl View for FilterCombinations {
    type V = Seq<FilterCombinationModel>;

    open spec fn view(&self) -> Seq<FilterCombinationModel> {
        self.combinations.deep_view()
    }
}

impl DeepView for FilterCombinations {
    type V = Seq<FilterCombinationModel>;

    open spec fn deep_view(&self) -> Seq<FilterCombinationModel> {
        self@
    }
}

impl Default for FilterCombinations {
    fn default() -> (r: FilterCombinations)
        ensures
            r@ == Seq::<FilterCombinationModel>::empty(),
    {
        let r = FilterCombinations { combinations: Vec::new() };
        assert(r@ =~= Seq::<FilterCombinationModel>::empty());
        r
    }
}

/// The parts of a sequence of sequences, one after the other.
pub open spec fn concat_all<A>(parts: Seq<Seq<A>>) -> Seq<A>
    decreases parts.len(),
{
    if parts.len() == 0 {
        Seq::empty()
    } else {
        concat_all(parts.drop_last()) + parts.last()
    }
}

/// The number of elements in all parts together.
pub open spec fn total_len<A>(parts: Seq<Seq<A>>) -> nat
    decreases parts.len(),
{
    if parts.len() == 0 {
        0
    } else {
        total_len(parts.drop_last()) + parts.last().len()
    }
}

/// The part that holds element `k` of the concatenation, and the
/// element's place in that part.
pub open spec fn part_index<A>(parts: Seq<Seq<A>>, k: int) -> (int, int)
    decreases parts.len(),
{
    if parts.len() == 0 {
        (0, 0)
    } else {
        let head = concat_all(parts.drop_last()).len();
        if k >= head {
            (parts.len() - 1, k - head)
        } else {
            part_index(parts.drop_last(), k)
        }
    }
}

/// The concatenation holds as many elements as the parts together.
pub proof fn lemma_concat_all_len<A>(parts: Seq<Seq<A>>)
    ensures
        concat_all(parts).len() == total_len(parts),
    decreases parts.len(),
{
    if parts.len() > 0 {
        lemma_concat_all_len(parts.drop_last());
    }
}

/// Every element of the concatenation is an element of one of the parts,
/// at the place that [`part_index`] names.
pub proof fn lemma_part_index<A>(parts: Seq<Seq<A>>, k: int)
    requires
        0 <= k < concat_all(parts).len(),
    ensures
        0 <= part_index(parts, k).0 < parts.len(),
        0 <= part_index(parts, k).1 < parts[part_index(parts, k).0].len(),
        concat_all(parts)[k] == parts[part_index(parts, k).0][part_index(parts, k).1],
    decreases parts.len(),
{
    if parts.len() > 0 {
        let head = concat_all(parts.drop_last()).len();
        if k < head {
            lemma_part_index(parts.drop_last(), k);
        }
    }
}

/// Different elements of the concatenation lie at different places of
/// the parts.
pub proof fn lemma_part_index_injective<A>(parts: Seq<Seq<A>>, k1: int, k2: int)
    requires
        0 <= k1 < k2 < concat_all(parts).len(),
    ensures
        part_index(parts, k1) != part_index(parts, k2),
    decreases parts.len(),
{
    if parts.len() > 0 {
        let head = concat_all(parts.drop_last()).len();
        if k2 < head {
            lemma_part_index_injective(parts.drop_last(), k1, k2);
        } else if k1 < head {
            lemma_part_index(parts.drop_last(), k1);
        }
    }
}

/// The combinations of all the given lists, one list after the other.
pub open spec fn all_combinations(lists: Seq<Seq<FilterCombinationModel>>) -> Seq<
    FilterCombinationModel,
> {
    concat_all(lists)
}

impl FilterCombinations {
    /// The combinations of all the given lists, one list after the other.
    pub fn flatten(lists: Vec<FilterCombinations>) -> (r: FilterCombinations)
        ensures
            r@ == all_combinations(lists.deep_view()),
    {
        let ghost all = lists.deep_view();
        let mut out: Vec<FilterCombination> = Vec::new();
        assert(all.take(0) =~= Seq::<Seq<FilterCombinationModel>>::empty());
        assert(out.deep_view() =~= concat_all(all.take(0)));
        for list in it: lists
            invariant
                it.seq().len() == all.len(),
                forall|j: int| 0 <= j < all.len() ==> (#[trigger] it.seq()[j])@ == all[j],
                out.deep_view() == concat_all(all.take(it.index() as int)),
        {
            let ghost before = out.deep_view();
            let ghost i = it.index() as int;
            let mut part = list.combinations;
            let ghost added = part.deep_view();
            out.append(&mut part);
            proof {
                assert(all.take(i + 1).drop_last() =~= all.take(i));
                assert(all.take(i + 1).last() == added);
                assert(out.deep_view() =~= before + added);
            }
        }
        assert(all.take(all.len() as int) =~= all);
        FilterCombinations { combinations: out }
    }
}

/// One attribute pinned to one value, as a retrieval request carries it.
#[derive(Debug)]
pub struct Filter {
    /// The attribute's identifier.
    pub display_id: String,
    /// The value that the attribute is pinned to.
    pub bucket_value: String,
}

/// The mathematical content of a [`Filter`].
pub struct FilterModel {
    pub display_id: Seq<char>,
    pub bucket_value: Seq<char>,
}

impl View for Filter {
    type V = FilterModel;

    open spec fn view(&self) -> FilterModel {
        FilterModel { display_id: self.display_id@, bucket_value: self.bucket_value@ }
    }
}

impl DeepView for Filter {
    type V = FilterModel;

    open spec fn deep_view(&self) -> FilterModel {
        self@
    }
}

/// The filter that pins an attribute to a bucket.
pub open spec fn filter_of_pin(pin: PinModel) -> FilterModel {
    FilterModel { display_id: pin.0, bucket_value: pin.1.filter_value() }
}

/// The filters that pin each attribute of a combination.
pub open spec fn filters_of_pins(pins: Seq<PinModel>) -> Seq<FilterModel> {
    Seq::new(pins.len(), |i: int| filter_of_pin(pins[i]))
}

/// No attribute occurs twice among the filters.
pub open spec fn distinct_filters(filters: Seq<FilterModel>) -> bool {
    forall|i: int, j: int|
        0 <= i < j < filters.len() ==> (#[trigger] filters[i]).display_id != (
        #[trigger] filters[j]).display_id
}

/// The filters of pinned attributes name the same attributes, in the same
/// order: where no attribute is pinned twice, none is filtered twice.
pub proof fn lemma_filters_of_pins(pins: Seq<PinModel>)
    ensures
        filters_of_pins(pins).len() == pins.len(),
        forall|i: int|
            0 <= i < pins.len() ==> (#[trigger] filters_of_pins(pins)[i]).display_id == pins[i].0,
        distinct_keys(pins) ==> distinct_filters(filters_of_pins(pins)),
{
    if distinct_keys(pins) {
        let filters = filters_of_pins(pins);
        assert forall|i: int, j: int| 0 <= i < j < filters.len() implies (
        #[trigger] filters[i]).display_id != (#[trigger] filters[j]).display_id by {
            assert(pins[i].0 != pins[j].0);
        }
    }
}

/// The filters that pin each attribute of a combination, in the order of
/// the attributes. Where no attribute is pinned twice, none is filtered
/// twice.
pub fn filters_from_pins(pins: &Vec<Pin>) -> (r: Vec<Filter>)
    ensures
        r.deep_view() == filters_of_pins(pins.deep_view()),
        distinct_keys(pins.deep_view()) ==> distinct_filters(r.deep_view()),
{
    proof {
        lemma_filters_of_pins(pins.deep_view());
    }
    let mut out: Vec<Filter> = Vec::new();
    let mut i: usize = 0;
    while i < pins.len()
        invariant
            i <= pins.len(),
            out.len() == i,
            forall|j: int| 0 <= j < i ==> out[j]@ == filter_of_pin(#[trigger] pins[j].deep_view()),
        decreases pins.len() - i,
    {
        out.push(
            Filter { display_id: copy_text(&pins[i].0), bucket_value: pins[i].1.filter_value() },
        );
        i = i + 1;
    }
    assert(out.deep_view() =~= filters_of_pins(pins.deep_view()));
    out
}

/// One pagination window `[start, end)` of one combination's result set,
/// with the filters that select the combination.
#[derive(Debug)]
pub struct PartitionedCombination {
    pub filters: Vec<Filter>,
    pub start: u64,
    pub end: u64,
}

/// The mathematical content of a [`PartitionedCombination`].
pub struct PartitionModel {
    pub filters: Seq<FilterModel>,
    pub start: nat,
    pub end: nat,
}

impl View for PartitionedCombination {
    type V = PartitionModel;

    open spec fn view(&self) -> PartitionModel {
        PartitionModel {
            filters: self.filters.deep_view(),
            start: self.start as nat,
            end: self.end as nat,
        }
    }
}

impl DeepView for PartitionedCombination {
    type V = PartitionModel;

    open spec fn deep_view(&self) -> PartitionModel {
        self@
    }
}

/// The windows of a retrieval phase, one per outgoing request.
#[derive(Debug)]
pub struct PartitionedCombinations {
    pub partitions: Vec<PartitionedCombination>,
}

impl View for PartitionedCombinations {
    type V = Seq<PartitionModel>;

    open spec fn view(&self) -> Seq<PartitionModel> {
        self.partitions.deep_view()
    }
}

} // verus!
