use scraper2::batch_manager::{BatchManager, PipelineError};
use scraper2::cli::Arguments;
use scraper2::components::ComponentScraper;
use scraper2::counts::{ComponentCounter, CountPlan, CounterError};
use scraper2::request_sender::{FetchError, NameTable, RequestSender};
use scraper2::response_handler::ResponseHandler;
use scraper2::types::{AttributeBuckets, Bucket, BucketPair, FilterCombinations};
use serde_json::Value;

fn bucket(display: &str, count: u64, float: Option<&str>) -> Bucket {
    Bucket { count, display_value: display.to_string(), float_value: float.map(|s| s.to_string()) }
}

fn ids(names: &[&str]) -> Vec<String> {
    names.iter().map(|s| s.to_string()).collect()
}

fn json(text: &str) -> Value {
    serde_json::from_str(text).unwrap()
}

fn sender(attribute_ids: &[&str]) -> RequestSender {
    let categories: NameTable = vec![("Capacitors".to_string(), "6331".to_string())];
    let attributes: NameTable = attribute_ids.iter().map(|s| (s.to_string(), s.to_string())).collect();
    let mut args = Arguments::default();
    args.category_name = Some("Capacitors".to_string());
    args.attribute_names = Some(ids(attribute_ids));
    RequestSender::new(&args, &categories, &attributes).unwrap()
}

fn count_response(buckets: &[(&str, u64)]) -> Value {
    let items: Vec<String> = buckets
        .iter()
        .map(|(d, c)| format!(r#"{{"count":{},"display_value":"{}"}}"#, c, d))
        .collect();
    json(&format!(r#"{{"data":{{"search":{{"spec_aggs":[{{"buckets":[{}]}}]}}}}}}"#, items.join(",")))
}

fn pair_names(pair: &BucketPair) -> (Option<(String, String)>, (String, String)) {
    (
        pair.first.as_ref().map(|(k, b)| (k.clone(), b.display_value.clone())),
        (pair.second.0.clone(), pair.second.1.display_value.clone()),
    )
}

#[test]
fn attribute_buckets_behave_as_a_map() {
    let mut buckets = AttributeBuckets::new();
    assert_eq!(buckets.len(), 0);
    buckets.insert("a".to_string(), vec![bucket("x", 1, None)]);
    buckets.insert("b".to_string(), vec![]);
    buckets.insert("a".to_string(), vec![bucket("y", 2, None), bucket("z", 3, None)]);
    assert_eq!(buckets.len(), 2);
    assert_eq!(buckets.get(&"a".to_string()).unwrap().len(), 2);
    assert_eq!(buckets.get(&"a".to_string()).unwrap()[0].display_value, "y");
    assert_eq!(buckets.get(&"b".to_string()).unwrap().len(), 0);
    assert!(buckets.get(&"c".to_string()).is_none());
    assert_eq!(buckets.entries().len(), 2);
    assert_eq!(buckets.entries()[0].0, "a");
    assert_eq!(buckets.entries()[1].0, "b");
}

#[test]
fn counter_needs_an_attribute() {
    let r = ComponentCounter::new(&ids(&[]), AttributeBuckets::new());
    assert_eq!(r.err(), Some(CounterError::NoAttributes));
}

#[test]
fn one_attribute_three_buckets() {
    let mut buckets = AttributeBuckets::new();
    buckets.insert(
        "dielectric".to_string(),
        vec![bucket("C0G", 50, None), bucket("X7R", 200, None), bucket("Y5V", 0, None)],
    );
    let counter = ComponentCounter::new(&ids(&["dielectric"]), buckets).unwrap();
    assert_eq!(counter.last_attribute(), "dielectric");
    let plan = counter.process().unwrap();
    let direct = match plan {
        CountPlan::Direct(combinations) => combinations,
        CountPlan::Requests(_) => panic!("a single attribute sends no counting request"),
    };
    let counts: Vec<u64> = direct.combinations.iter().map(|c| c.count()).collect();
    assert_eq!(counts, vec![50, 200, 0]);
    for c in &direct.combinations {
        assert_eq!(c.pins().len(), 1);
        assert_eq!(c.pins()[0].0, "dielectric");
    }
    assert_eq!(counter.get_bucket_pairs().err(), Some(CounterError::NoSecondLastAttribute));
    let combos = counter.grab_bucket_combination_counts(vec![]).unwrap();
    assert_eq!(combos.combinations.len(), 3);
    let mut scraper = ComponentScraper::new(4);
    let windows = scraper.create_component_counts(&combos);
    let spans: Vec<(String, u64, u64)> = windows
        .partitions
        .iter()
        .map(|w| (w.filters[0].bucket_value.clone(), w.start, w.end))
        .collect();
    assert_eq!(
        spans,
        vec![
            ("C0G".to_string(), 0, 50),
            ("X7R".to_string(), 0, 100),
            ("X7R".to_string(), 100, 200),
        ]
    );
}

#[test]
fn one_attribute_without_its_buckets_is_an_error() {
    let mut buckets = AttributeBuckets::new();
    buckets.insert("other".to_string(), vec![bucket("x", 1, None)]);
    let counter = ComponentCounter::new(&ids(&["dielectric"]), buckets).unwrap();
    assert_eq!(counter.process().err(), Some(CounterError::MissingBuckets));
    assert_eq!(
        counter.grab_bucket_combination_counts(vec![]).err(),
        Some(CounterError::MissingBuckets)
    );
}

#[test]
fn two_attributes_server_says_zero() {
    let mut buckets = AttributeBuckets::new();
    buckets.insert("A".to_string(), vec![bucket("a1", 100, None), bucket("a2", 1500, None)]);
    buckets.insert("B".to_string(), vec![bucket("b1", 100, None), bucket("b2", 1500, None)]);
    let counter = ComponentCounter::new(&ids(&["A", "B"]), buckets).unwrap();
    let pairs = match counter.process().unwrap() {
        CountPlan::Requests(pairs) => pairs,
        CountPlan::Direct(_) => panic!("two attributes are counted by requests"),
    };
    assert_eq!(pairs.len(), 2);
    assert_eq!(pair_names(&pairs[0]), (None, ("A".to_string(), "a1".to_string())));
    assert_eq!(pair_names(&pairs[1]), (None, ("A".to_string(), "a2".to_string())));

    let s = sender(&["A", "B"]);
    let payload = counter.create_task(&s, &pairs[1]);
    assert_eq!(payload["variables"]["attribute_names"], json(r#"["B"]"#));
    assert_eq!(payload["variables"]["filters"], json(r#"{"category_id":["6331"],"A":["a2"]}"#));

    let handler = ResponseHandler::new();
    let first = counter
        .finish_task(&handler, &pairs[0], &count_response(&[("b1", 100), ("b2", 0)]))
        .unwrap();
    let second = counter
        .finish_task(&handler, &pairs[1], &count_response(&[("b1", 0), ("b2", 1500)]))
        .unwrap();
    let combos = counter.grab_bucket_combination_counts(vec![first, second]).unwrap();
    let found: Vec<(String, String, u64)> = combos
        .combinations
        .iter()
        .map(|c| {
            assert_eq!(c.pins()[0].0, "A");
            assert_eq!(c.pins()[1].0, "B");
            (
                c.pins()[0].1.display_value.clone(),
                c.pins()[1].1.display_value.clone(),
                c.count(),
            )
        })
        .collect();
    assert_eq!(
        found,
        vec![
            ("a1".to_string(), "b1".to_string(), 100),
            ("a1".to_string(), "b2".to_string(), 0),
            ("a2".to_string(), "b1".to_string(), 0),
            ("a2".to_string(), "b2".to_string(), 1500),
        ]
    );

    let mut scraper = ComponentScraper::new(100);
    let windows = scraper.create_component_counts(&combos);
    assert_eq!(windows.partitions.len(), 11);
    assert_eq!((windows.partitions[0].start, windows.partitions[0].end), (0, 100));
    assert_eq!((windows.partitions[10].start, windows.partitions[10].end), (900, 1000));
    let metadata = scraper.get_scraper_component_metadata(scraper2::components::Elapsed {
        seconds: 1,
        nanoseconds: 0,
    });
    assert_eq!(metadata.components_missed, 500);
    assert_eq!(metadata.components_scraped, 1100);
}

#[test]
fn count_is_the_servers_not_the_product_of_the_buckets() {
    let mut buckets = AttributeBuckets::new();
    buckets.insert("A".to_string(), vec![bucket("a1", 10, None)]);
    buckets.insert("B".to_string(), vec![bucket("b1", 10, None)]);
    let counter = ComponentCounter::new(&ids(&["A", "B"]), buckets).unwrap();
    let pairs = counter.get_bucket_pairs().unwrap();
    let handler = ResponseHandler::new();
    let found = counter.finish_task(&handler, &pairs[0], &count_response(&[("b1", 3)])).unwrap();
    let combos = counter.grab_bucket_combination_counts(vec![found]).unwrap();
    assert_eq!(combos.combinations.len(), 1);
    assert_eq!(combos.combinations[0].count(), 3);
}

#[test]
fn three_attributes_pin_two_of_them() {
    let mut buckets = AttributeBuckets::new();
    buckets.insert("T".to_string(), vec![bucket("t1", 1, Some("1")), bucket("t2", 1, None)]);
    buckets.insert("S".to_string(), vec![bucket("s1", 1, None), bucket("s2", 1, Some("2.5")), bucket("s3", 1, None)]);
    buckets.insert("L".to_string(), vec![bucket("l1", 1, None)]);
    let counter = ComponentCounter::new(&ids(&["T", "S", "L"]), buckets).unwrap();
    let pairs = counter.get_bucket_pairs().unwrap();
    let names: Vec<_> = pairs.iter().map(pair_names).collect();
    let expect = |t: &str, s: &str| {
        (Some(("T".to_string(), t.to_string())), ("S".to_string(), s.to_string()))
    };
    assert_eq!(
        names,
        vec![
            expect("t1", "s1"),
            expect("t1", "s2"),
            expect("t1", "s3"),
            expect("t2", "s1"),
            expect("t2", "s2"),
            expect("t2", "s3"),
        ]
    );
    let s = sender(&["T", "S", "L"]);
    let payload = counter.create_task(&s, &pairs[1]);
    assert_eq!(payload["variables"]["attribute_names"], json(r#"["L"]"#));
    assert_eq!(
        payload["variables"]["filters"],
        json(r#"{"category_id":["6331"],"T":["1"],"S":["2.5"]}"#)
    );
    let handler = ResponseHandler::new();
    let found = counter
        .finish_task(&handler, &pairs[1], &count_response(&[("l1", 4), ("l2", 6)]))
        .unwrap();
    assert_eq!(found.combinations.len(), 2);
    let keys: Vec<&str> = found.combinations[1].pins().iter().map(|p| p.0.as_str()).collect();
    assert_eq!(keys, vec!["T", "S", "L"]);
    assert_eq!(found.combinations[1].pins()[2].1.display_value, "l2");
    assert_eq!(found.combinations[1].count(), 6);
    assert_eq!(pairs[1].pins().len(), 2);
    assert_eq!(pairs[1].pins()[0].0, "T");
}

#[test]
fn remaining_attribute_without_second_last_buckets_is_an_error() {
    let mut buckets = AttributeBuckets::new();
    buckets.insert("X".to_string(), vec![bucket("x", 1, None)]);
    buckets.insert("Y".to_string(), vec![bucket("y", 1, None)]);
    let counter = ComponentCounter::new(&ids(&["S", "L"]), buckets).unwrap();
    assert_eq!(counter.get_bucket_pairs().err(), Some(CounterError::MissingBuckets));
    assert_eq!(counter.process().err(), Some(CounterError::MissingBuckets));
}

#[test]
fn more_than_three_attributes_give_no_combination() {
    let mut buckets = AttributeBuckets::new();
    for key in ["a", "b", "c", "d"] {
        buckets.insert(key.to_string(), vec![bucket("v", 1, None)]);
    }
    let counter = ComponentCounter::new(&ids(&["a", "b", "c", "d"]), buckets).unwrap();
    match counter.process().unwrap() {
        CountPlan::Direct(combinations) => assert!(combinations.combinations.is_empty()),
        CountPlan::Requests(_) => panic!("four attributes are not counted"),
    }
    let none = counter.grab_bucket_combination_counts(vec![]).unwrap();
    assert!(none.combinations.is_empty());
}

#[test]
fn no_buckets_at_all_give_no_combination() {
    let counter = ComponentCounter::new(&ids(&["a"]), AttributeBuckets::new()).unwrap();
    match counter.process().unwrap() {
        CountPlan::Direct(combinations) => assert!(combinations.combinations.is_empty()),
        CountPlan::Requests(_) => panic!("nothing to count"),
    }
}

#[test]
fn failed_count_response_is_a_fetch_error() {
    let mut buckets = AttributeBuckets::new();
    buckets.insert("A".to_string(), vec![bucket("a1", 1, None)]);
    buckets.insert("B".to_string(), vec![bucket("b1", 1, None)]);
    let counter = ComponentCounter::new(&ids(&["A", "B"]), buckets).unwrap();
    let pairs = counter.get_bucket_pairs().unwrap();
    let handler = ResponseHandler::new();
    let r = counter.finish_task(&handler, &pairs[0], &json(r#"{"errors":["denied"]}"#));
    assert_eq!(r.err(), Some(FetchError::MissingPath));
}

#[test]
fn flatten_keeps_every_combination_in_order() {
    let handler = ResponseHandler::new();
    let key = "L".to_string();
    let a = handler.extract_filter_combinations(&count_response(&[("x", 1), ("y", 2)]), &vec![], &key).unwrap();
    let b = handler.extract_filter_combinations(&count_response(&[]), &vec![], &key).unwrap();
    let c = handler.extract_filter_combinations(&count_response(&[("z", 3)]), &vec![], &key).unwrap();
    let all = FilterCombinations::flatten(vec![a, b, c]);
    let counts: Vec<u64> = all.combinations.iter().map(|c| c.count()).collect();
    assert_eq!(counts, vec![1, 2, 3]);
    assert!(FilterCombinations::flatten(vec![]).combinations.is_empty());
    assert!(FilterCombinations::default().combinations.is_empty());
}

#[test]
fn attribute_response_leads_to_the_counter() {
    let handler = ResponseHandler::new();
    let response = json(
        r#"{"data":{"search":{"spec_aggs":[{"buckets":[{"count":4,"display_value":"Mica"}]}]}}}"#,
    );
    let counter = BatchManager::grab_component_count(&handler, &ids(&["dielectric"]), &response).unwrap();
    assert_eq!(counter.last_attribute(), "dielectric");
    let combos = counter.grab_bucket_combination_counts(vec![]).unwrap();
    assert_eq!(combos.combinations.len(), 1);
    assert_eq!(combos.combinations[0].count(), 4);
    let denied = BatchManager::grab_component_count(&handler, &ids(&["d"]), &json("{}"));
    assert_eq!(denied.err(), Some(PipelineError::Fetch(FetchError::MissingPath)));
    let nothing = BatchManager::grab_component_count(&handler, &ids(&[]), &response);
    assert_eq!(nothing.err(), Some(PipelineError::Counter(CounterError::NoAttributes)));
}
