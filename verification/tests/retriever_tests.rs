use scraper2::cli::Arguments;
use scraper2::components::{ComponentScraper, Elapsed};
use scraper2::config::{OCTOPART_COMPONENT_COMBINATION_LIMIT, OCTOPART_COMPONENT_REQUEST_LIMIT};
use scraper2::request_sender::{FetchError, NameTable, RequestSender};
use scraper2::response_handler::ResponseHandler;
use scraper2::types::{filters_from_pins, Bucket, FilterCombination, FilterCombinations};
use serde_json::Value;

fn json(text: &str) -> Value {
    serde_json::from_str(text).unwrap()
}

fn combination(pins: &[(&str, &str, Option<&str>)], count: u64) -> FilterCombination {
    FilterCombination::from_pins(
        pins.iter()
            .map(|(key, display, float)| {
                (
                    key.to_string(),
                    Bucket {
                        count,
                        display_value: display.to_string(),
                        float_value: float.map(|s| s.to_string()),
                    },
                )
            })
            .collect(),
        count,
    )
}

fn combos(counts: &[u64]) -> FilterCombinations {
    FilterCombinations {
        combinations: counts.iter().map(|n| combination(&[("k", "v", None)], *n)).collect(),
    }
}

fn windows(count: u64) -> Vec<(u64, u64)> {
    ComponentScraper::new(1)
        .get_partitioned_combinations(&combos(&[count]))
        .partitions
        .iter()
        .map(|w| (w.start, w.end))
        .collect()
}

#[test]
fn configured_limits() {
    assert_eq!(OCTOPART_COMPONENT_REQUEST_LIMIT, 100);
    assert_eq!(OCTOPART_COMPONENT_COMBINATION_LIMIT, 1000);
}

#[test]
fn empty_combination_has_no_window() {
    assert!(windows(0).is_empty());
    assert_eq!(ComponentScraper::count_components(&combos(&[0])), (0, 0));
}

#[test]
fn small_combination_has_one_short_window() {
    assert_eq!(windows(1), vec![(0, 1)]);
    assert_eq!(windows(50), vec![(0, 50)]);
    assert_eq!(windows(100), vec![(0, 100)]);
}

#[test]
fn windows_are_pages_with_a_shorter_last_one() {
    assert_eq!(windows(101), vec![(0, 100), (100, 101)]);
    assert_eq!(windows(250), vec![(0, 100), (100, 200), (200, 250)]);
}

#[test]
fn windows_cover_the_harvest_without_gaps() {
    for count in [0u64, 1, 99, 100, 101, 555, 999, 1000, 1001, 5000, u64::MAX] {
        let w = windows(count);
        let harvest = count.min(1000);
        assert_eq!(w.len() as u64, (harvest + 99) / 100);
        let mut at = 0;
        for (i, (start, end)) in w.iter().enumerate() {
            assert_eq!(*start, at);
            assert!(end > start);
            if i + 1 < w.len() {
                assert_eq!(end - start, 100);
            } else {
                assert!(end - start <= 100);
            }
            at = *end;
        }
        assert_eq!(at, harvest);
    }
}

#[test]
fn combination_beyond_the_ceiling_stops_at_the_ceiling() {
    let w = windows(1500);
    assert_eq!(w.len(), 10);
    assert_eq!(w[9], (900, 1000));
    assert_eq!(ComponentScraper::count_components(&combos(&[1500])), (1000, 500));
    assert_eq!(ComponentScraper::count_components(&combos(&[1001])), (1000, 1));
    assert_eq!(ComponentScraper::count_components(&combos(&[1000])), (1000, 0));
}

#[test]
fn scraped_and_missed_add_up_to_the_servers_total() {
    let counts = [0u64, 7, 100, 1000, 1001, 123_456, u64::MAX, u64::MAX];
    let (scraped, missed) = ComponentScraper::count_components(&combos(&counts));
    let total: u128 = counts.iter().map(|n| *n as u128).sum();
    assert_eq!(scraped + missed, total);
    assert_eq!(scraped, 7 + 100 + 1000 * 5);
}

#[test]
fn windows_follow_the_order_of_the_combinations() {
    let list = FilterCombinations {
        combinations: vec![
            combination(&[("a", "x", Some("1.5")), ("b", "C0G", None)], 150),
            combination(&[("a", "y", None), ("b", "X7R", None)], 0),
            combination(&[("a", "z", None), ("b", "Y5V", None)], 20),
        ],
    };
    let w = ComponentScraper::new(1).get_partitioned_combinations(&list).partitions;
    let seen: Vec<(String, String, u64, u64)> = w
        .iter()
        .map(|p| {
            assert_eq!(p.filters[0].display_id, "a");
            assert_eq!(p.filters[1].display_id, "b");
            (p.filters[0].bucket_value.clone(), p.filters[1].bucket_value.clone(), p.start, p.end)
        })
        .collect();
    assert_eq!(
        seen,
        vec![
            ("1.5".to_string(), "C0G".to_string(), 0, 100),
            ("1.5".to_string(), "C0G".to_string(), 100, 150),
            ("z".to_string(), "Y5V".to_string(), 0, 20),
        ]
    );
}

#[test]
fn filters_prefer_the_numeric_value_of_a_bucket() {
    let c = combination(&[("capacitance", "1 µF", Some("0.000001")), ("dielectric", "C0G", None)], 1);
    let filters = filters_from_pins(c.pins());
    assert_eq!(filters.len(), 2);
    assert_eq!(filters[0].display_id, "capacitance");
    assert_eq!(filters[0].bucket_value, "0.000001");
    assert_eq!(filters[1].display_id, "dielectric");
    assert_eq!(filters[1].bucket_value, "C0G");
}

#[test]
fn combination_pins_each_attribute_once() {
    let c = combination(&[("a", "x", None), ("b", "y", None), ("a", "z", Some("2"))], 7);
    assert_eq!(c.count(), 7);
    let pins: Vec<(&str, &str)> =
        c.pins().iter().map(|p| (p.0.as_str(), p.1.display_value.as_str())).collect();
    assert_eq!(pins, vec![("a", "z"), ("b", "y")]);
    let mut d = FilterCombination::new(3);
    assert!(d.pins().is_empty());
    d.insert("k".to_string(), Bucket { count: 1, display_value: "v".to_string(), float_value: None });
    d.insert("k".to_string(), Bucket { count: 2, display_value: "w".to_string(), float_value: None });
    assert_eq!(d.pins().len(), 1);
    assert_eq!(d.pins()[0].1.display_value, "w");
    assert_eq!(d.count(), 3);
    let list = FilterCombinations { combinations: vec![c] };
    let w = ComponentScraper::new(1).get_partitioned_combinations(&list).partitions;
    assert_eq!(w.len(), 1);
    let ids: Vec<&str> = w[0].filters.iter().map(|f| f.display_id.as_str()).collect();
    assert_eq!(ids, vec!["a", "b"]);
    assert_eq!(w[0].filters[0].bucket_value, "2");
}

#[test]
fn task_payload_carries_the_window() {
    let categories: NameTable = vec![("Capacitors".to_string(), "6331".to_string())];
    let attributes: NameTable = vec![("Dielectric".to_string(), "dielectric".to_string())];
    let mut args = Arguments::default();
    args.category_name = Some("Capacitors".to_string());
    args.attribute_names = Some(vec!["Dielectric".to_string()]);
    let sender = RequestSender::new(&args, &categories, &attributes).unwrap();
    let scraper = ComponentScraper::new(3);
    assert_eq!(scraper.batch_size(), 3);
    let list = FilterCombinations { combinations: vec![combination(&[("dielectric", "C0G", None)], 130)] };
    let w = scraper.get_partitioned_combinations(&list).partitions;
    let payload = scraper.create_task(&sender, &w[1]);
    assert_eq!(payload["variables"]["start"], json("100"));
    assert_eq!(payload["variables"]["limit"], json("30"));
    assert_eq!(
        payload["variables"]["filters"],
        json(r#"{"category_id":["6331"],"dielectric":["C0G"]}"#)
    );
}

#[test]
fn metadata_keeps_the_counters_and_takes_the_time() {
    let mut scraper = ComponentScraper::new(1);
    scraper.fill_scraper_metadata(23_000, 234);
    let m = scraper.get_scraper_component_metadata(Elapsed { seconds: 12, nanoseconds: 500 });
    assert_eq!(m.components_scraped, 23_000);
    assert_eq!(m.components_missed, 234);
    assert_eq!(m.total_time, Some(Elapsed { seconds: 12, nanoseconds: 500 }));
    assert!(m.date_collected > 1_600_000_000);
    let again = scraper.get_scraper_component_metadata(Elapsed { seconds: 13, nanoseconds: 0 });
    assert_eq!(again.date_collected, m.date_collected);
    assert_eq!(again.components_scraped, 23_000);
    assert_eq!(again.total_time, Some(Elapsed { seconds: 13, nanoseconds: 0 }));
}

#[test]
fn metadata_without_counting_reads_zero() {
    let mut scraper = ComponentScraper::new(1);
    let m = scraper.get_scraper_component_metadata(Elapsed { seconds: 0, nanoseconds: 1 });
    assert_eq!((m.components_scraped, m.components_missed), (0, 0));
    assert_eq!(m.total_time, Some(Elapsed { seconds: 0, nanoseconds: 1 }));
}

#[test]
fn four_retrievals_capture_the_metadata_of_the_first() {
    let mut handler = ResponseHandler::new();
    let mut scraper = ComponentScraper::new(4);
    let combos = combos(&[350]);
    let w = scraper.create_component_counts(&combos);
    assert_eq!(w.partitions.len(), 4);
    let response = |id: u32, parts: &str| {
        json(&format!(
            r#"{{"data":{{"search":{{"applied_category":{{"id":"{}","ancestors":[{{"id":"4161","name":"Electronic Parts","path":"/electronic-parts"}}]}},"results":[{}]}}}}}}"#,
            id, parts
        ))
    };
    let mut results = Vec::new();
    for (id, parts) in [(3, r#"{"n":5},{"n":6}"#), (1, r#"{"n":1}"#), (4, ""), (2, r#"{"n":3}"#)] {
        results.push(ComponentScraper::finish_task(&mut handler, &response(id, parts)).unwrap());
    }
    let components = scraper.process_components(&mut handler, results);
    assert_eq!(
        components,
        vec![json(r#"{"n":5}"#), json(r#"{"n":6}"#), json(r#"{"n":1}"#), json(r#"{"n":3}"#)]
    );
    let metadata = scraper.get_octopart_component_metadata().unwrap();
    assert_eq!(metadata, response(3, ""));
    assert!(handler.take_metadata().is_none());
    let run = scraper.get_scraper_component_metadata(Elapsed { seconds: 2, nanoseconds: 7 });
    assert_eq!(run.components_scraped, 350);
    assert_eq!(run.components_missed, 0);
}

#[test]
fn failed_retrieval_captures_nothing() {
    let mut handler = ResponseHandler::new();
    let mut scraper = ComponentScraper::new(4);
    let r = ComponentScraper::finish_task(&mut handler, &json(r#"{"data":{"search":{}}}"#));
    assert_eq!(r.err(), Some(FetchError::MissingPath));
    let components = scraper.process_components(&mut handler, vec![]);
    assert!(components.is_empty());
    assert!(scraper.get_octopart_component_metadata().is_none());
}
