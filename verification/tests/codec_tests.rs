use scraper2::cli::Arguments;
use scraper2::config::{ATTRIBUTE_BUCKET_QUERY, PART_SEARCH_QUERY};
use scraper2::request_sender::{
    resolve, resolve_all, ConfigError, FetchError, NameTable, RequestSender, RequestType,
};
use scraper2::response_handler::{bucket_from, ResponseHandler};
use scraper2::types::{Bucket, Filter};
use serde_json::Value;

fn table(entries: &[(&str, &str)]) -> NameTable {
    entries.iter().map(|(k, v)| (k.to_string(), v.to_string())).collect()
}

fn categories() -> NameTable {
    table(&[("Mica Capacitors", "6334"), ("Ceramic Capacitors", "6332")])
}

fn attributes() -> NameTable {
    table(&[("Capacitance", "capacitance"), ("Voltage Rating", "voltagerating_dc_"), ("Dielectric", "dielectric")])
}

fn arguments(category: Option<&str>, names: Option<&[&str]>) -> Arguments {
    let mut args = Arguments::default();
    args.px = Some("token".to_string());
    args.user_agent = Some("agent/1.0".to_string());
    args.category_name = category.map(|s| s.to_string());
    args.attribute_names = names.map(|n| n.iter().map(|s| s.to_string()).collect());
    args
}

fn sender() -> RequestSender {
    RequestSender::new(
        &arguments(Some("Mica Capacitors"), Some(&["Capacitance", "Dielectric"])),
        &categories(),
        &attributes(),
    )
    .unwrap()
}

fn json(text: &str) -> Value {
    serde_json::from_str(text).unwrap()
}

fn filter(id: &str, value: &str) -> Filter {
    Filter { display_id: id.to_string(), bucket_value: value.to_string() }
}

#[test]
fn resolve_takes_the_first_entry_of_a_name() {
    let t = table(&[("a", "1"), ("b", "2"), ("a", "3")]);
    assert_eq!(resolve(&t, &"a".to_string()), Some("1".to_string()));
    assert_eq!(resolve(&t, &"b".to_string()), Some("2".to_string()));
    assert_eq!(resolve(&t, &"c".to_string()), None);
    assert_eq!(resolve(&table(&[]), &"a".to_string()), None);
}

#[test]
fn resolve_all_needs_every_name() {
    let t = table(&[("a", "1"), ("b", "2")]);
    assert_eq!(
        resolve_all(&t, &vec!["b".to_string(), "a".to_string(), "b".to_string()]),
        Some(vec!["2".to_string(), "1".to_string(), "2".to_string()])
    );
    assert_eq!(resolve_all(&t, &vec!["a".to_string(), "x".to_string()]), None);
    assert_eq!(resolve_all(&t, &vec![]), Some(vec![]));
}

#[test]
fn gate_resolves_names_in_the_callers_order() {
    let s = sender();
    assert_eq!(s.get_category_name().map(|s| s.as_str()), Some("Mica Capacitors"));
    assert_eq!(s.get_category_id().map(|s| s.as_str()), Some("6334"));
    assert_eq!(
        s.get_attribute_names().cloned(),
        Some(vec!["Capacitance".to_string(), "Dielectric".to_string()])
    );
    assert_eq!(
        s.get_attribute_ids().cloned(),
        Some(vec!["capacitance".to_string(), "dielectric".to_string()])
    );
}

#[test]
fn gate_rejects_a_missing_category() {
    let r = RequestSender::new(&arguments(None, Some(&["Capacitance"])), &categories(), &attributes());
    assert_eq!(r.err(), Some(ConfigError::MissingCategory));
}

#[test]
fn gate_rejects_an_unknown_category() {
    let r = RequestSender::new(
        &arguments(Some("Resistors"), Some(&["Capacitance"])),
        &categories(),
        &attributes(),
    );
    assert_eq!(r.err(), Some(ConfigError::UnknownCategory));
}

#[test]
fn gate_rejects_missing_attributes() {
    let r = RequestSender::new(&arguments(Some("Mica Capacitors"), None), &categories(), &attributes());
    assert_eq!(r.err(), Some(ConfigError::MissingAttributes));
}

#[test]
fn gate_rejects_an_unknown_attribute() {
    let r = RequestSender::new(
        &arguments(Some("Mica Capacitors"), Some(&["Capacitance", "Colour"])),
        &categories(),
        &attributes(),
    );
    assert_eq!(r.err(), Some(ConfigError::UnknownAttribute));
}

#[test]
fn gate_reports_the_category_before_the_attributes() {
    let r = RequestSender::new(&arguments(Some("Resistors"), None), &categories(), &attributes());
    assert_eq!(r.err(), Some(ConfigError::UnknownCategory));
}

#[test]
fn headers_carry_credential_and_user_agent() {
    let s = sender();
    let headers = s.parse_headers(&arguments(Some("Mica Capacitors"), Some(&[])));
    assert_eq!(
        headers,
        vec![
            ("cookie".to_string(), "_px=token".to_string()),
            ("user-agent".to_string(), "agent/1.0".to_string()),
        ]
    );
    let mut bare = Arguments::default();
    assert!(s.parse_headers(&bare).is_empty());
    bare.user_agent = Some("ua".to_string());
    assert_eq!(s.parse_headers(&bare), vec![("user-agent".to_string(), "ua".to_string())]);
}

#[test]
fn attributes_payload_asks_for_every_attribute() {
    let payload = sender().get_attributes_payload();
    assert_eq!(payload["operationName"], json("\"FilterModalSearch\""));
    assert_eq!(payload["variables"]["attribute_names"], json(r#"["capacitance","dielectric"]"#));
    assert_eq!(payload["variables"]["currency"], json("\"USD\""));
    assert_eq!(payload["variables"]["filters"], json(r#"{"category_id":["6334"]}"#));
    assert_eq!(payload["variables"]["in_stock_only"], json("false"));
    assert_eq!(payload["query"].as_str(), Some(ATTRIBUTE_BUCKET_QUERY));
    assert_eq!(payload.as_object().unwrap().len(), 3);
    assert_eq!(payload["variables"].as_object().unwrap().len(), 4);
}

#[test]
fn count_payload_pins_the_other_attributes() {
    let payload = sender().get_component_count_payload(
        Some(vec!["dielectric".to_string()]),
        Some(vec![filter("capacitance", "0.000001"), filter("voltagerating_dc_", "50")]),
    );
    assert_eq!(payload["operationName"], json("\"FilterModalSearch\""));
    assert_eq!(payload["variables"]["attribute_names"], json(r#"["dielectric"]"#));
    assert_eq!(
        payload["variables"]["filters"],
        json(r#"{"category_id":["6334"],"capacitance":["0.000001"],"voltagerating_dc_":["50"]}"#)
    );
    assert_eq!(payload["query"].as_str(), Some(ATTRIBUTE_BUCKET_QUERY));
}

#[test]
fn count_payload_without_names_says_null() {
    let payload = sender().get_component_count_payload(None, None);
    assert!(payload["variables"]["attribute_names"].is_null());
    assert_eq!(payload["variables"].as_object().unwrap().len(), 4);
    assert_eq!(payload["variables"]["filters"], json(r#"{"category_id":["6334"]}"#));
    assert_eq!(payload["operationName"], json("\"FilterModalSearch\""));
    assert_eq!(payload["query"].as_str(), Some(ATTRIBUTE_BUCKET_QUERY));
}

#[test]
fn count_request_without_names_means_the_requested_attributes() {
    let s = sender();
    let args = arguments(Some("Mica Capacitors"), Some(&["Capacitance", "Dielectric"]));
    let request = s.build_request(
        &args,
        RequestType::ComponentCount { attributes: None, filters: None },
    );
    assert_eq!(request.body, s.get_attributes_payload());
    assert_eq!(
        request.body["variables"]["attribute_names"],
        json(r#"["capacitance","dielectric"]"#)
    );
}

#[test]
fn later_filter_of_the_same_name_replaces_the_earlier() {
    let payload = sender().get_component_count_payload(
        Some(vec!["dielectric".to_string()]),
        Some(vec![filter("capacitance", "1"), filter("capacitance", "2"), filter("category_id", "x")]),
    );
    assert_eq!(
        payload["variables"]["filters"],
        json(r#"{"category_id":["x"],"capacitance":["2"]}"#)
    );
}

#[test]
fn parts_payload_carries_start_and_limit() {
    let payload = sender().get_parts_payload(&vec![filter("dielectric", "C0G")], 100, 150);
    assert_eq!(payload["operationName"], json("\"PricesViewSearch\""));
    assert_eq!(payload["variables"]["country"], json("\"US\""));
    assert_eq!(payload["variables"]["currency"], json("\"USD\""));
    assert_eq!(
        payload["variables"]["filters"],
        json(r#"{"category_id":["6334"],"dielectric":["C0G"]}"#)
    );
    assert_eq!(payload["variables"]["in_stock_only"], json("false"));
    assert_eq!(payload["variables"]["start"], json("100"));
    assert_eq!(payload["variables"]["limit"], json("50"));
    assert_eq!(payload["query"].as_str(), Some(PART_SEARCH_QUERY));
    assert_eq!(payload["variables"].as_object().unwrap().len(), 6);
}

#[test]
fn parts_payload_of_a_reversed_window_asks_for_nothing() {
    let payload = sender().get_parts_payload(&vec![], 10, 5);
    assert_eq!(payload["variables"]["start"], json("10"));
    assert_eq!(payload["variables"]["limit"], json("0"));
}

#[test]
fn build_request_joins_headers_and_payload() {
    let s = sender();
    let args = arguments(Some("Mica Capacitors"), Some(&["Capacitance", "Dielectric"]));
    let request = s.build_request(&args, RequestType::Attributes);
    assert_eq!(request.headers.len(), 2);
    assert_eq!(request.headers[0].1, "_px=token");
    assert_eq!(request.body, s.get_attributes_payload());
    let parts = s.build_request(
        &args,
        RequestType::Parts { filters: vec![filter("dielectric", "X7R")], start: 0, end: 100 },
    );
    assert_eq!(parts.body, s.get_parts_payload(&vec![filter("dielectric", "X7R")], 0, 100));
    let count = s.build_request(
        &args,
        RequestType::ComponentCount { attributes: Some(vec!["dielectric".to_string()]), filters: None },
    );
    assert_eq!(count.body["variables"]["attribute_names"], json(r#"["dielectric"]"#));
    assert_eq!(count.body["variables"]["filters"], json(r#"{"category_id":["6334"]}"#));
}

#[test]
fn refreshed_credential_is_carried_by_the_next_request() {
    let s = sender();
    let mut args = arguments(Some("Mica Capacitors"), Some(&["Capacitance"]));
    let before = s.build_request(&args, RequestType::Attributes);
    args.prompt_user_for_new_px_key("fresh".to_string());
    let after = s.build_request(&args, RequestType::Attributes);
    assert_eq!(before.headers[0], ("cookie".to_string(), "_px=token".to_string()));
    assert_eq!(after.headers[0], ("cookie".to_string(), "_px=fresh".to_string()));
    assert_eq!(before.body, after.body);
}

#[test]
fn response_body_must_be_json() {
    assert_eq!(RequestSender::parse_response(200, "{\"a\": [1, 2]}").unwrap(), json("{\"a\":[1,2]}"));
    assert_eq!(
        RequestSender::parse_response(200, "<html>denied</html>").err(),
        Some(FetchError::InvalidJson)
    );
    assert_eq!(RequestSender::parse_response(200, "").err(), Some(FetchError::InvalidJson));
}

#[test]
fn response_status_must_be_a_success() {
    assert!(RequestSender::parse_response(299, "{}").is_ok());
    assert!(RequestSender::parse_response(204, "null").is_ok());
    for status in [0u16, 100, 199, 300, 302, 403, 429, 500] {
        assert_eq!(RequestSender::parse_response(status, "{}").err(), Some(FetchError::Status));
    }
    assert_eq!(RequestSender::parse_response(403, "denied").err(), Some(FetchError::Status));
}

fn check_bucket(b: &Bucket, count: u64, display: &str, float: Option<&str>) {
    assert_eq!(b.count, count);
    assert_eq!(b.display_value, display);
    assert_eq!(b.float_value.as_deref(), float);
}

#[test]
fn bucket_reads_count_display_and_float() {
    check_bucket(
        &bucket_from(&json(r#"{"count": 12, "display_value": "1 µF", "float_value": 0.000001}"#)),
        12,
        "1 µF",
        Some("0.000001"),
    );
    check_bucket(
        &bucket_from(&json(r#"{"count": 3, "display_value": "C0G", "float_value": null}"#)),
        3,
        "C0G",
        None,
    );
    check_bucket(&bucket_from(&json(r#"{"display_value": "X7R"}"#)), 0, "X7R", None);
    check_bucket(
        &bucket_from(&json(r#"{"count": -4, "display_value": 7, "float_value": 50}"#)),
        0,
        "",
        Some("50"),
    );
    check_bucket(&bucket_from(&json(r#"{"count": 2.5, "float_value": "50"}"#)), 0, "", None);
    check_bucket(&bucket_from(&json("[1, 2]")), 0, "", None);
}

#[test]
fn filter_value_prefers_the_numeric_value() {
    let numeric = bucket_from(&json(r#"{"count": 1, "display_value": "100 V", "float_value": 100.0}"#));
    assert_eq!(numeric.filter_value(), "100");
    let plain = bucket_from(&json(r#"{"count": 1, "display_value": "C0G"}"#));
    assert_eq!(plain.filter_value(), "C0G");
    let copy = numeric.clone();
    check_bucket(&copy, 1, "100 V", Some("100"));
}

#[test]
fn attribute_buckets_pair_attributes_with_aggregations() {
    let handler = ResponseHandler::new();
    let response = json(
        r#"{"data":{"search":{"hits":7,"spec_aggs":[
            {"buckets":[{"count":5,"display_value":"1 pF","float_value":1e-12},
                        {"count":2,"display_value":"2 pF","float_value":2e-12}]},
            {"buckets":[{"count":7,"display_value":"Mica"}]}
        ]}}}"#,
    );
    let ids = vec!["capacitance".to_string(), "dielectric".to_string()];
    let buckets = handler.extract_buckets(&response, &ids).unwrap();
    assert_eq!(buckets.len(), 2);
    let capacitance = buckets.get(&"capacitance".to_string()).unwrap();
    assert_eq!(capacitance.len(), 2);
    check_bucket(&capacitance[0], 5, "1 pF", Some("0.000000000001"));
    check_bucket(&capacitance[1], 2, "2 pF", Some("0.000000000002"));
    let dielectric = buckets.get(&"dielectric".to_string()).unwrap();
    check_bucket(&dielectric[0], 7, "Mica", None);
    assert!(buckets.get(&"voltage".to_string()).is_none());
    assert_eq!(buckets.entries()[0].0, "capacitance");
    assert_eq!(buckets.entries()[1].0, "dielectric");
}

#[test]
fn attribute_without_buckets_is_left_out() {
    let handler = ResponseHandler::new();
    let response = json(
        r#"{"data":{"search":{"spec_aggs":[{"buckets":7},{"buckets":[]},{"other":1},{"buckets":[{"count":1}]}]}}}"#,
    );
    let ids = vec!["a".to_string(), "b".to_string(), "c".to_string()];
    let buckets = handler.extract_buckets(&response, &ids).unwrap();
    assert_eq!(buckets.len(), 1);
    assert_eq!(buckets.get(&"b".to_string()).map(|b| b.len()), Some(0));
    assert!(buckets.get(&"a".to_string()).is_none());
    assert!(buckets.get(&"c".to_string()).is_none());
}

#[test]
fn repeated_attribute_keeps_its_last_buckets() {
    let handler = ResponseHandler::new();
    let response = json(
        r#"{"data":{"search":{"spec_aggs":[
            {"buckets":[{"count":1,"display_value":"first"}]},
            {"buckets":[{"count":2,"display_value":"other"}]},
            {"buckets":[{"count":3,"display_value":"last"}]}]}}}"#,
    );
    let ids = vec!["a".to_string(), "b".to_string(), "a".to_string()];
    let buckets = handler.extract_buckets(&response, &ids).unwrap();
    assert_eq!(buckets.len(), 2);
    check_bucket(&buckets.get(&"a".to_string()).unwrap()[0], 3, "last", None);
    assert_eq!(buckets.entries()[0].0, "a");
    assert_eq!(buckets.entries()[1].0, "b");
}

#[test]
fn attribute_discovery_without_its_path_is_a_fetch_error() {
    let handler = ResponseHandler::new();
    let ids = vec!["a".to_string()];
    for body in [
        r#"{"errors":[{"message":"denied"}]}"#,
        r#"{"data":{"search":{"spec_aggs":{"buckets":[]}}}}"#,
        r#"{"data":{"search":null}}"#,
        "[]",
    ] {
        assert_eq!(handler.extract_buckets(&json(body), &ids).err(), Some(FetchError::MissingPath));
    }
}

#[test]
fn count_response_gives_one_combination_per_bucket() {
    let handler = ResponseHandler::new();
    let response = json(
        r#"{"data":{"search":{"spec_aggs":[{"buckets":[
            {"count":100,"display_value":"C0G"},
            {"count":0,"display_value":"X7R"},
            {"count":1500,"display_value":"10 V","float_value":10}]}]}}}"#,
    );
    let pinned = vec![(
        "capacitance".to_string(),
        Bucket { count: 9, display_value: "1 pF".to_string(), float_value: Some("0.000000000001".to_string()) },
    )];
    let combos = handler
        .extract_filter_combinations(&response, &pinned, &"dielectric".to_string())
        .unwrap();
    assert_eq!(combos.combinations.len(), 3);
    let counts: Vec<u64> = combos.combinations.iter().map(|c| c.count()).collect();
    assert_eq!(counts, vec![100, 0, 1500]);
    for c in &combos.combinations {
        assert_eq!(c.pins().len(), 2);
        assert_eq!(c.pins()[0].0, "capacitance");
        check_bucket(&c.pins()[0].1, 9, "1 pF", Some("0.000000000001"));
        assert_eq!(c.pins()[1].0, "dielectric");
        assert_eq!(c.pins()[1].1.count, c.count());
    }
    check_bucket(&combos.combinations[2].pins()[1].1, 1500, "10 V", Some("10"));
}

#[test]
fn returned_bucket_replaces_a_pinned_one_of_the_last_attribute() {
    let handler = ResponseHandler::new();
    let response = json(
        r#"{"data":{"search":{"spec_aggs":[{"buckets":[{"count":3,"display_value":"new"}]}]}}}"#,
    );
    let pin = |key: &str, display: &str| {
        (
            key.to_string(),
            Bucket { count: 1, display_value: display.to_string(), float_value: None },
        )
    };
    let pinned = vec![pin("a", "a1"), pin("b", "old"), pin("a", "a2")];
    let combos =
        handler.extract_filter_combinations(&response, &pinned, &"b".to_string()).unwrap();
    assert_eq!(combos.combinations.len(), 1);
    let pins = combos.combinations[0].pins();
    assert_eq!(pins.len(), 2);
    assert_eq!(pins[0].0, "a");
    assert_eq!(pins[0].1.display_value, "a2");
    assert_eq!(pins[1].0, "b");
    check_bucket(&pins[1].1, 3, "new", None);
    assert_eq!(combos.combinations[0].count(), 3);
}

#[test]
fn count_response_with_an_empty_bucket_list_gives_no_combination() {
    let handler = ResponseHandler::new();
    let response = json(r#"{"data":{"search":{"spec_aggs":[{"buckets":[]}]}}}"#);
    let combos =
        handler.extract_filter_combinations(&response, &vec![], &"dielectric".to_string()).unwrap();
    assert!(combos.combinations.is_empty());
}

#[test]
fn count_response_without_its_path_is_a_fetch_error() {
    let handler = ResponseHandler::new();
    for body in [
        r#"{"data":{"search":{"spec_aggs":[]}}}"#,
        r#"{"data":{"search":{"spec_aggs":[{"buckets":null}]}}}"#,
        r#"{"message":"Access denied"}"#,
    ] {
        let r = handler.extract_filter_combinations(&json(body), &vec![], &"d".to_string());
        assert_eq!(r.err(), Some(FetchError::MissingPath));
    }
}

#[test]
fn retrieval_gives_the_components() {
    let mut handler = ResponseHandler::new();
    let response = json(
        r#"{"data":{"search":{"applied_category":{"id":"6334","name":"Mica Capacitors"},
            "results":[{"part":{"mpn":"A"}},{"part":{"mpn":"B"}}],"hits":2}}}"#,
    );
    let components = handler.extract_components(&response).unwrap();
    assert_eq!(components, vec![json(r#"{"part":{"mpn":"A"}}"#), json(r#"{"part":{"mpn":"B"}}"#)]);
}

#[test]
fn retrieval_without_results_is_a_fetch_error_not_an_empty_list() {
    let mut handler = ResponseHandler::new();
    for body in [
        r#"{"data":{"search":{"hits":0}}}"#,
        r#"{"data":{"search":{"results":null}}}"#,
        r#"{"data":{"search":{"results":{"part":1}}}}"#,
        r#"{"errors":["blocked"]}"#,
    ] {
        assert_eq!(handler.extract_components(&json(body)).err(), Some(FetchError::MissingPath));
    }
    assert!(handler.take_metadata().is_none());
    let empty = handler.extract_components(&json(r#"{"data":{"search":{"results":[]}}}"#)).unwrap();
    assert!(empty.is_empty());
}

#[test]
fn metadata_is_captured_once() {
    let mut handler = ResponseHandler::new();
    let first = json(
        r#"{"data":{"search":{"applied_category":{"id":"6334","path":"/a/b"},"results":[{"n":1}]}}}"#,
    );
    let second = json(
        r#"{"data":{"search":{"applied_category":{"id":"9999","path":"/x"},"results":[{"n":2}]}}}"#,
    );
    let failed = json(r#"{"data":{"search":{"applied_category":{"id":"0"}}}}"#);
    assert!(handler.extract_components(&failed).is_err());
    assert_eq!(handler.extract_components(&first).unwrap().len(), 1);
    assert_eq!(handler.extract_components(&second).unwrap().len(), 1);
    assert_eq!(handler.extract_components(&first).unwrap().len(), 1);
    let metadata = handler.take_metadata().unwrap();
    assert_eq!(
        metadata,
        json(r#"{"data":{"search":{"applied_category":{"id":"6334","path":"/a/b"},"results":[]}}}"#)
    );
    assert!(handler.take_metadata().is_none());
}

#[test]
fn response_metadata_empties_the_results() {
    let doc = json(r#"{"data":{"search":{"results":[1,2,3],"hits":3}}}"#);
    assert_eq!(
        ResponseHandler::get_component_response_metadata(&doc).unwrap(),
        json(r#"{"data":{"search":{"results":[],"hits":3}}}"#)
    );
    assert_eq!(doc, json(r#"{"data":{"search":{"results":[1,2,3],"hits":3}}}"#));
    assert_eq!(
        ResponseHandler::get_component_response_metadata(&json(r#"{"data":{}}"#)).err(),
        Some(FetchError::MissingPath)
    );
}
