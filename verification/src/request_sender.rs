//! The configuration gate and the outgoing half of the request codec: the
//! caller's names are resolved to the server's identifiers, and the three
//! families of request payloads are built from them.

use crate::cli::Arguments;
use crate::cli::ArgumentsModel;
use crate::config::{ATTRIBUTE_BUCKET_QUERY, PART_SEARCH_QUERY};
use crate::json::{
    json_array, json_bool, json_from_str, json_map_insert, json_map_new, json_null, json_object,
    json_parsed, json_string, json_unsigned, json_view, Json, JsonMap, JsonNumber, Members,
};
use crate::text::{copy_text, copy_texts};
use crate::types::{distinct_filters, Filter, FilterModel};
use serde_json::Value;
use vstd::prelude::*;
use vstd::string::StringExecFns;

verus! {

/// Why a run cannot be configured.
#[derive(Debug, Clone, Copy, PartialEq, Eq, Structural)]
pub enum ConfigError {
    /// The arguments name no category.
    MissingCategory,
    /// The category's name is not in the table of categories.
    UnknownCategory,
    /// The arguments name no attributes.
    MissingAttributes,
    /// An attribute's name is not in the table of attributes.
    UnknownAttribute,
}

/// Why a response could not be used. The runner treats every one of these
/// alike: the task failed, and the credential is the likely cause.
#[derive(Debug, Clone, Copy, PartialEq, Eq, Structural)]
pub enum FetchError {
    /// The request could not be sent or no response came back.
    Transport,
    /// The response came with a status that is no success.
    Status,
    /// The body of the response is no JSON.
    InvalidJson,
    /// The response lacks the path that its kind of request answers under.
    MissingPath,
}

/// A table from the names that a caller uses to the server's identifiers.
pub type NameTable = Vec<(String, String)>;

/// The mathematical content of a [`NameTable`].
pub type NameTableModel = Seq<(Seq<char>, Seq<char>)>;

/// The identifier that a table gives for a name: that of the first entry
/// with the name.
pub open spec fn resolved(table: NameTableModel, name: Seq<char>) -> Option<Seq<char>>
    decreases table.len(),
{
    if table.len() == 0 {
        None
    } else if table[0].0 == name {
        Some(table[0].1)
    } else {
        resolved(table.skip(1), name)
    }
}

/// Whether a table gives an identifier for each of the first `n` names.
pub open spec fn all_resolved(table: NameTableModel, names: Seq<Seq<char>>, n: int) -> bool {
    forall|i: int| 0 <= i < n ==> resolved(table, #[trigger] names[i]) is Some
}

/// The identifiers that a table gives for a list of names.
pub open spec fn resolved_all(table: NameTableModel, names: Seq<Seq<char>>) -> Seq<Seq<char>> {
    Seq::new(names.len(), |i: int| resolved(table, names[i]).unwrap())
}

/// The identifier that a table gives for a name.
pub fn resolve(table: &NameTable, name: &String) -> (r: Option<String>)
    ensures
        r.deep_view() == resolved(table.deep_view(), name@),
{
    let mut i: usize = 0;
    assert(table.deep_view().skip(0) =~= table.deep_view());
    while i < table.len()
        invariant
            i <= table.len(),
            resolved(table.deep_view(), name@) == resolved(table.deep_view().skip(i as int), name@),
        decreases table.len() - i,
    {
        proof {
            assert(table.deep_view().skip(i as int).skip(1) =~= table.deep_view().skip(i + 1));
            assert(table.deep_view().skip(i as int)[0] == table.deep_view()[i as int]);
        }
        if table[i].0 == *name {
            return Some(copy_text(&table[i].1));
        }
        i = i + 1;
    }
    None
}

/// The identifiers that a table gives for a list of names, if it gives one
/// for each.
pub fn resolve_all(table: &NameTable, names: &Vec<String>) -> (r: Option<Vec<String>>)
    ensures
        match r {
            Some(ids) => all_resolved(table.deep_view(), names.deep_view(), names.len() as int)
                && ids.deep_view() == resolved_all(table.deep_view(), names.deep_view()),
            None => !all_resolved(table.deep_view(), names.deep_view(), names.len() as int),
        },
{
    let mut ids: Vec<String> = Vec::new();
    let mut i: usize = 0;
    while i < names.len()
        invariant
            i <= names.len(),
            ids.len() == i,
            all_resolved(table.deep_view(), names.deep_view(), i as int),
            forall|j: int|
                0 <= j < i ==> Some((#[trigger] ids[j])@) == resolved(
                    table.deep_view(),
                    names[j]@,
                ),
        decreases names.len() - i,
    {
        match resolve(table, &names[i]) {
            Some(id) => {
                ids.push(id);
            },
            None => {
                proof {
                    let all = names.deep_view();
                    assert(resolved(table.deep_view(), all[i as int]) is None);
                }
                return None;
            },
        }
        i = i + 1;
    }
    assert(ids.deep_view() =~= resolved_all(table.deep_view(), names.deep_view()));
    Some(ids)
}

/// What a request asks for.
#[derive(Debug)]
#[allow(inconsistent_fields)]
pub enum RequestType {
    /// The buckets of every requested attribute.
    Attributes,
    /// One page of the components that match the filters.
    Parts { filters: Vec<Filter>, start: u64, end: u64 },
    /// The buckets of the named attributes among the components that match
    /// the filters. Without names, the requested attributes are meant.
    ComponentCount { attributes: Option<Vec<String>>, filters: Option<Vec<Filter>> },
}

/// The mathematical content of a [`RequestType`].
#[allow(inconsistent_fields)]
pub enum RequestModel {
    Attributes,
    Parts { filters: Seq<FilterModel>, start: nat, end: nat },
    ComponentCount { attributes: Option<Seq<Seq<char>>>, filters: Option<Seq<FilterModel>> },
}

impl View for RequestType {
    type V = RequestModel;

    open spec fn view(&self) -> RequestModel {
        match self {
            RequestType::Attributes => RequestModel::Attributes,
            RequestType::Parts { filters, start, end } => RequestModel::Parts {
                filters: filters.deep_view(),
                start: *start as nat,
                end: *end as nat,
            },
            RequestType::ComponentCount { attributes, filters } => RequestModel::ComponentCount {
                attributes: attributes.deep_view(),
                filters: filters.deep_view(),
            },
        }
    }
}

/// The array of the given texts.
pub open spec fn texts_json(texts: Seq<Seq<char>>) -> Json {
    Json::Array(Seq::new(texts.len(), |i: int| Json::String(texts[i])))
}

/// The array that holds one text.
pub open spec fn one_text_json(text: Seq<char>) -> Json {
    Json::Array(seq![Json::String(text)])
}

/// The filters of a request: the category, then each pinned attribute in
/// order, a later one replacing an earlier one of the same name.
pub open spec fn filters_json(category_id: Seq<char>, filters: Seq<FilterModel>) -> Members
    decreases filters.len(),
{
    if filters.len() == 0 {
        Members::empty().insert("category_id"@, one_text_json(category_id))
    } else {
        filters_json(category_id, filters.drop_last()).insert(
            filters.last().display_id,
            one_text_json(filters.last().bucket_value),
        )
    }
}

/// The attribute names of a payload: the array of the names, or `null`
/// where none are given.
pub open spec fn names_json(names: Option<Seq<Seq<char>>>) -> Json {
    match names {
        Some(list) => texts_json(list),
        None => Json::Null,
    }
}

/// No attribute occurs twice among the filters, and none is named like the
/// category's own filter.
pub open spec fn plain_filters(filters: Seq<FilterModel>) -> bool {
    &&& distinct_filters(filters)
    &&& forall|i: int| 0 <= i < filters.len() ==> (#[trigger] filters[i]).display_id
        != "category_id"@
}

/// The filters of a request hold the category, wrapped once, and each
/// pinned attribute with its value, and nothing else, where no attribute is
/// pinned twice and none is named like the category's own filter.
pub proof fn lemma_filters_json(category_id: Seq<char>, filters: Seq<FilterModel>)
    requires
        plain_filters(filters),
    ensures
        filters_json(category_id, filters).contains_key("category_id"@),
        filters_json(category_id, filters)["category_id"@] == one_text_json(category_id),
        forall|i: int|
            0 <= i < filters.len() ==> filters_json(category_id, filters).contains_key(
                (#[trigger] filters[i]).display_id,
            ) && filters_json(category_id, filters)[filters[i].display_id] == one_text_json(
                filters[i].bucket_value,
            ),
        forall|key: Seq<char>| #[trigger]
            filters_json(category_id, filters).contains_key(key) ==> key == "category_id"@
                || exists|i: int|
                0 <= i < filters.len() && (#[trigger] filters[i]).display_id == key,
    decreases filters.len(),
{
    if filters.len() > 0 {
        let shorter = filters.drop_last();
        let last = filters.last();
        assert(plain_filters(shorter)) by {
            assert forall|i: int, j: int| 0 <= i < j < shorter.len() implies (
            #[trigger] shorter[i]).display_id != (#[trigger] shorter[j]).display_id by {
                assert(shorter[i] == filters[i] && shorter[j] == filters[j]);
            }
            assert forall|i: int| 0 <= i < shorter.len() implies (#[trigger] shorter[i]).display_id
                != "category_id"@ by {
                assert(shorter[i] == filters[i]);
            }
        }
        lemma_filters_json(category_id, shorter);
        let before = filters_json(category_id, shorter);
        let after = filters_json(category_id, filters);
        assert(last == filters[filters.len() - 1]);
        assert forall|i: int| 0 <= i < filters.len() implies after.contains_key(
            (#[trigger] filters[i]).display_id,
        ) && after[filters[i].display_id] == one_text_json(filters[i].bucket_value) by {
            if i < filters.len() - 1 {
                assert(shorter[i] == filters[i]);
                assert(filters[i].display_id != filters[filters.len() - 1].display_id);
            }
        }
        assert forall|key: Seq<char>| #[trigger] after.contains_key(key) implies key
            == "category_id"@ || exists|i: int|
            0 <= i < filters.len() && (#[trigger] filters[i]).display_id == key by {
            if key != last.display_id && key != "category_id"@ {
                assert(before.contains_key(key));
                let i = choose|i: int|
                    0 <= i < shorter.len() && (#[trigger] shorter[i]).display_id == key;
                assert(filters[i] == shorter[i]);
            }
        }
    }
}

/// The payload that asks for the buckets of the named attributes among the
/// components of the category that match the filters.
pub open spec fn bucket_payload(
    category_id: Seq<char>,
    attribute_names: Json,
    filters: Seq<FilterModel>,
) -> Json {
    Json::Object(
        Members::empty().insert("operationName"@, Json::String("FilterModalSearch"@)).insert(
            "variables"@,
            Json::Object(
                Members::empty().insert("attribute_names"@, attribute_names).insert(
                    "currency"@,
                    Json::String("USD"@),
                ).insert("filters"@, Json::Object(filters_json(category_id, filters))).insert(
                    "in_stock_only"@,
                    Json::Bool(false),
                ),
            ),
        ).insert("query"@, Json::String(ATTRIBUTE_BUCKET_QUERY@)),
    )
}

/// The payload that asks for the components of the category that match the
/// filters, from the one at `start` on and `limit` of them at most.
pub open spec fn parts_payload(
    category_id: Seq<char>,
    filters: Seq<FilterModel>,
    start: u64,
    limit: u64,
) -> Json {
    Json::Object(
        Members::empty().insert("operationName"@, Json::String("PricesViewSearch"@)).insert(
            "variables"@,
            Json::Object(
                Members::empty().insert("country"@, Json::String("US"@)).insert(
                    "currency"@,
                    Json::String("USD"@),
                ).insert("filters"@, Json::Object(filters_json(category_id, filters))).insert(
                    "in_stock_only"@,
                    Json::Bool(false),
                ).insert("limit"@, Json::Number(JsonNumber::PosInt(limit))).insert(
                    "start"@,
                    Json::Number(JsonNumber::PosInt(start)),
                ),
            ),
        ).insert("query"@, Json::String(PART_SEARCH_QUERY@)),
    )
}

/// The headers that carry a credential and a user agent, as far as the
/// arguments hold them.
pub open spec fn headers_of(args: ArgumentsModel) -> Seq<(Seq<char>, Seq<char>)> {
    let cookie = match args.px {
        Some(px) => seq![("cookie"@, "_px="@ + px)],
        None => seq![],
    };
    let agent = match args.user_agent {
        Some(user_agent) => seq![("user-agent"@, user_agent)],
        None => seq![],
    };
    cookie + agent
}

/// The mathematical content of a [`RequestSender`].
pub struct RequestSenderModel {
    pub category_name: Seq<char>,
    pub category_id: Seq<char>,
    pub attribute_names: Seq<Seq<char>>,
    pub attribute_ids: Seq<Seq<char>>,
}

impl RequestSenderModel {
    /// The payload of a request of the given kind. A window that ends
    /// before it starts asks for no components.
    pub open spec fn payload(self, request: RequestModel) -> Json {
        match request {
            RequestModel::Attributes => bucket_payload(
                self.category_id,
                texts_json(self.attribute_ids),
                Seq::empty(),
            ),
            RequestModel::Parts { filters, start, end } => parts_payload(
                self.category_id,
                filters,
                start as u64,
                if end >= start {
                    (end - start) as u64
                } else {
                    0
                },
            ),
            RequestModel::ComponentCount { attributes, filters } => self.count_payload(
                match attributes {
                    Some(names) => Some(names),
                    None => Some(self.attribute_ids),
                },
                filters,
            ),
        }
    }

    /// The payload of a combination count with the given attribute names
    /// and filters: without names the payload says `null` in their place,
    /// without filters only the category is filtered.
    pub open spec fn count_payload(
        self,
        attribute_names: Option<Seq<Seq<char>>>,
        filters: Option<Seq<FilterModel>>,
    ) -> Json {
        bucket_payload(
            self.category_id,
            names_json(attribute_names),
            match filters {
                Some(list) => list,
                None => Seq::empty(),
            },
        )
    }
}

/// What the configuration of a run resolves to: the sender of requests if
/// every name is known, else the first thing that is wrong.
pub open spec fn configured(
    args: ArgumentsModel,
    categories: NameTableModel,
    attributes: NameTableModel,
) -> Result<RequestSenderModel, ConfigError> {
    match (args.category_name, args.attribute_names) {
        (None, _) => Err(ConfigError::MissingCategory),
        (Some(category_name), names) => match resolved(categories, category_name) {
            None => Err(ConfigError::UnknownCategory),
            Some(category_id) => match names {
                None => Err(ConfigError::MissingAttributes),
                Some(attribute_names) => if all_resolved(
                    attributes,
                    attribute_names,
                    attribute_names.len() as int,
                ) {
                    Ok(
                        RequestSenderModel {
                            category_name,
                            category_id,
                            attribute_names,
                            attribute_ids: resolved_all(attributes, attribute_names),
                        },
                    )
                } else {
                    Err(ConfigError::UnknownAttribute)
                },
            },
        },
    }
}

/// What a response with the given status and body holds: its document, or
/// the reason why it cannot be used.
pub open spec fn response_of(status: u16, body: Seq<char>) -> Result<Json, FetchError> {
    if status < 200 || status > 299 {
        Err(FetchError::Status)
    } else {
        match json_parsed(body) {
            Some(doc) => Ok(doc),
            None => Err(FetchError::InvalidJson),
        }
    }
}

/// A request as it goes out: its headers and its JSON body.
#[derive(Debug)]
pub struct Request {
    pub headers: Vec<(String, String)>,
    pub body: Value,
}

/// Builds the requests of one run: it knows the category and the attributes
/// by the server's identifiers.
#[derive(Debug)]
pub struct RequestSender {
    category_name: String,
    category_id: String,
    attribute_names: Vec<String>,
    attribute_ids: Vec<String>,
}

impl View for RequestSender {
    type V = RequestSenderModel;

    closed spec fn view(&self) -> RequestSenderModel {
        RequestSenderModel {
            category_name: self.category_name@,
            category_id: self.category_id@,
            attribute_names: self.attribute_names.deep_view(),
            attribute_ids: self.attribute_ids.deep_view(),
        }
    }
}

/// The array of the given texts.
fn texts_value(texts: &Vec<String>) -> (r: Value)
    ensures
        json_view(r) == texts_json(texts.deep_view()),
{
    let mut items: Vec<Value> = Vec::new();
    let mut i: usize = 0;
    while i < texts.len()
        invariant
            i <= texts.len(),
            items.len() == i,
            forall|j: int| 0 <= j < i ==> json_view(#[trigger] items[j]) == Json::String(texts[j]@),
        decreases texts.len() - i,
    {
        items.push(json_string(copy_text(&texts[i])));
        i = i + 1;
    }
    assert(crate::json::json_views(items@) =~= Seq::new(
        texts.deep_view().len(),
        |i: int| Json::String(texts.deep_view()[i]),
    ));
    json_array(items)
}

/// The array that holds one text.
fn one_text_value(text: &String) -> (r: Value)
    ensures
        json_view(r) == one_text_json(text@),
{
    let mut items: Vec<Value> = Vec::new();
    items.push(json_string(copy_text(text)));
    assert(crate::json::json_views(items@) =~= seq![Json::String(text@)]);
    json_array(items)
}

/// The filters of a request.
fn filters_value(category_id: &String, filters: &Vec<Filter>) -> (r: Value)
    ensures
        json_view(r) == Json::Object(filters_json(category_id@, filters.deep_view())),
{
    let mut members: JsonMap = json_map_new();
    json_map_insert(&mut members, "category_id".to_owned(), one_text_value(category_id));
    let ghost all = filters.deep_view();
    assert(all.take(0) =~= Seq::<FilterModel>::empty());
    let mut i: usize = 0;
    while i < filters.len()
        invariant
            i <= filters.len(),
            all == filters.deep_view(),
            crate::json::json_map_view(members) == filters_json(category_id@, all.take(i as int)),
        decreases filters.len() - i,
    {
        proof {
            assert(all.take(i + 1).drop_last() =~= all.take(i as int));
            assert(all.take(i + 1).last() == filters[i as int]@);
        }
        json_map_insert(
            &mut members,
            copy_text(&filters[i].display_id),
            one_text_value(&filters[i].bucket_value),
        );
        i = i + 1;
    }
    assert(all.take(i as int) =~= all);
    json_object(members)
}

impl RequestSender {
    /// Resolves the category and the attributes that the arguments name.
    /// An unknown name is a configuration error; it is never retried.
    pub fn new(args: &Arguments, categories: &NameTable, attributes: &NameTable) -> (r: Result<
        RequestSender,
        ConfigError,
    >)
        ensures
            match configured(args@, categories.deep_view(), attributes.deep_view()) {
                Ok(model) => r matches Ok(sender) && sender@ == model,
                Err(error) => r == Err::<RequestSender, ConfigError>(error),
            },
    {
        let category_name = match &args.category_name {
            Some(name) => copy_text(name),
            None => {
                return Err(ConfigError::MissingCategory);
            },
        };
        let category_id = match resolve(categories, &category_name) {
            Some(id) => id,
            None => {
                return Err(ConfigError::UnknownCategory);
            },
        };
        let attribute_names = match &args.attribute_names {
            Some(names) => copy_texts(names),
            None => {
                return Err(ConfigError::MissingAttributes);
            },
        };
        let attribute_ids = match resolve_all(attributes, &attribute_names) {
            Some(ids) => ids,
            None => {
                return Err(ConfigError::UnknownAttribute);
            },
        };
        Ok(RequestSender { category_name, category_id, attribute_names, attribute_ids })
    }

    /// The category's name as the caller gave it.
    pub fn get_category_name(&self) -> (r: Option<&String>)
        ensures
            r matches Some(name) && name@ == self@.category_name,
    {
        Some(&self.category_name)
    }

    /// The attributes' names as the caller gave them, in the caller's order.
    pub fn get_attribute_names(&self) -> (r: Option<&Vec<String>>)
        ensures
            r matches Some(names) && names.deep_view() == self@.attribute_names,
    {
        Some(&self.attribute_names)
    }

    /// The server's identifier of the category.
    pub fn get_category_id(&self) -> (r: Option<&String>)
        ensures
            r matches Some(id) && id@ == self@.category_id,
    {
        Some(&self.category_id)
    }

    /// The server's identifiers of the attributes, in the caller's order.
    pub fn get_attribute_ids(&self) -> (r: Option<&Vec<String>>)
        ensures
            r matches Some(ids) && ids.deep_view() == self@.attribute_ids,
    {
        Some(&self.attribute_ids)
    }

    /// The headers that every request carries: the credential as a cookie
    /// and the user agent, as far as the arguments hold them.
    pub fn parse_headers(&self, args: &Arguments) -> (r: Vec<(String, String)>)
        ensures
            r.deep_view() == headers_of(args@),
    {
        let mut headers: Vec<(String, String)> = Vec::new();
        match &args.px {
            Some(px) => {
                let mut cookie = "_px=".to_owned();
                cookie.append(px.as_str());
                headers.push(("cookie".to_owned(), cookie));
            },
            None => {},
        }
        match &args.user_agent {
            Some(user_agent) => {
                headers.push(("user-agent".to_owned(), copy_text(user_agent)));
            },
            None => {},
        }
        assert(headers.deep_view() =~= headers_of(args@));
        headers
    }

    /// The payload that asks for the buckets of some attributes under some
    /// filters; see [`bucket_payload`].
    fn bucket_payload_value(&self, attribute_names: Value, filters: &Vec<Filter>) -> (r: Value)
        ensures
            json_view(r) == bucket_payload(
                self@.category_id,
                json_view(attribute_names),
                filters.deep_view(),
            ),
    {
        let mut variables: JsonMap = json_map_new();
        json_map_insert(&mut variables, "attribute_names".to_owned(), attribute_names);
        json_map_insert(&mut variables, "currency".to_owned(), json_string("USD".to_owned()));
        json_map_insert(
            &mut variables,
            "filters".to_owned(),
            filters_value(&self.category_id, filters),
        );
        json_map_insert(&mut variables, "in_stock_only".to_owned(), json_bool(false));
        let mut payload: JsonMap = json_map_new();
        json_map_insert(
            &mut payload,
            "operationName".to_owned(),
            json_string("FilterModalSearch".to_owned()),
        );
        json_map_insert(&mut payload, "variables".to_owned(), json_object(variables));
        json_map_insert(
            &mut payload,
            "query".to_owned(),
            json_string(ATTRIBUTE_BUCKET_QUERY.to_owned()),
        );
        json_object(payload)
    }

    /// The payload of a combination count: it asks for the buckets of the
    /// named attributes among the components that the filters select.
    /// Without names the payload says `null` in their place; a request
    /// names the requested attributes there before it is built.
    pub fn get_component_count_payload(
        &self,
        attribute_names: Option<Vec<String>>,
        filters: Option<Vec<Filter>>,
    ) -> (r: Value)
        ensures
            json_view(r) == self@.count_payload(attribute_names.deep_view(), filters.deep_view()),
    {
        let no_filters: Vec<Filter> = Vec::new();
        assert(no_filters.deep_view() =~= Seq::<FilterModel>::empty());
        let filters_ref: &Vec<Filter> = match &filters {
            Some(list) => list,
            None => &no_filters,
        };
        match &attribute_names {
            Some(names) => self.bucket_payload_value(texts_value(names), filters_ref),
            None => self.bucket_payload_value(json_null(), filters_ref),
        }
    }

    /// The payload of attribute discovery: it asks for the buckets of every
    /// requested attribute within the category.
    pub fn get_attributes_payload(&self) -> (r: Value)
        ensures
            json_view(r) == self@.payload(RequestModel::Attributes),
    {
        let no_filters: Vec<Filter> = Vec::new();
        assert(no_filters.deep_view() =~= Seq::<FilterModel>::empty());
        self.bucket_payload_value(texts_value(&self.attribute_ids), &no_filters)
    }

    /// The payload of a component retrieval: it asks for the window
    /// `[start, end)` of the components that the filters select.
    pub fn get_parts_payload(&self, filters: &Vec<Filter>, start: u64, end: u64) -> (r: Value)
        ensures
            json_view(r) == self@.payload(
                RequestModel::Parts {
                    filters: filters.deep_view(),
                    start: start as nat,
                    end: end as nat,
                },
            ),
    {
        let limit: u64 = if end >= start {
            end - start
        } else {
            0
        };
        let mut variables: JsonMap = json_map_new();
        json_map_insert(&mut variables, "country".to_owned(), json_string("US".to_owned()));
        json_map_insert(&mut variables, "currency".to_owned(), json_string("USD".to_owned()));
        json_map_insert(
            &mut variables,
            "filters".to_owned(),
            filters_value(&self.category_id, filters),
        );
        json_map_insert(&mut variables, "in_stock_only".to_owned(), json_bool(false));
        json_map_insert(&mut variables, "limit".to_owned(), json_unsigned(limit));
        json_map_insert(&mut variables, "start".to_owned(), json_unsigned(start));
        let mut payload: JsonMap = json_map_new();
        json_map_insert(
            &mut payload,
            "operationName".to_owned(),
            json_string("PricesViewSearch".to_owned()),
        );
        json_map_insert(&mut payload, "variables".to_owned(), json_object(variables));
        json_map_insert(
            &mut payload,
            "query".to_owned(),
            json_string(PART_SEARCH_QUERY.to_owned()),
        );
        json_object(payload)
    }

    /// The request of the given kind as it goes out: the headers from the
    /// arguments as they are now, and the payload.
    pub fn build_request(&self, args: &Arguments, request_type: RequestType) -> (r: Request)
        ensures
            r.headers.deep_view() == headers_of(args@),
            json_view(r.body) == self@.payload(request_type@),
    {
        let headers = self.parse_headers(args);
        let body = match request_type {
            RequestType::Attributes => self.get_attributes_payload(),
            RequestType::Parts { filters, start, end } => self.get_parts_payload(
                &filters,
                start,
                end,
            ),
            RequestType::ComponentCount { attributes, filters } => {
                let names = match attributes {
                    Some(names) => names,
                    None => copy_texts(&self.attribute_ids),
                };
                self.get_component_count_payload(Some(names), filters)
            },
        };
        Request { headers, body }
    }

    /// Reads a response. A status outside of 200 to 299 is a fetch error,
    /// and so is a body that is no JSON.
    pub fn parse_response(status: u16, body: &str) -> (r: Result<Value, FetchError>)
        ensures
            match response_of(status, body@) {
                Ok(doc) => r matches Ok(v) && json_view(v) == doc,
                Err(error) => r == Err::<Value, FetchError>(error),
            },
    {
        if status < 200 || status > 299 {
            return Err(FetchError::Status);
        }
        match json_from_str(body) {
            Ok(v) => Ok(v),
            Err(_) => Err(FetchError::InvalidJson),
        }
    }
}

} // verus!
