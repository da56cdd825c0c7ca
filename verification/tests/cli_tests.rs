use scraper2::cli::{ArgumentType, Arguments, Cli};
use scraper2::config::DEFAULT_USER_AGENT;

fn texts(items: &[&str]) -> Vec<String> {
    items.iter().map(|s| s.to_string()).collect()
}

#[test]
fn default_arguments_miss_the_credential_first() {
    let args = Arguments::default();
    assert_eq!(args.missing(), Some(ArgumentType::Px));
    assert!(!args.combine_metadata);
}

#[test]
fn missing_follows_the_order_of_the_dialogue() {
    let mut args = Arguments::default();
    args.px = Some("k".to_string());
    assert_eq!(args.missing(), Some(ArgumentType::UserAgent));
    args.user_agent = Some("ua".to_string());
    assert_eq!(args.missing(), Some(ArgumentType::CategoryName));
    args.category_name = Some("Mica Capacitors".to_string());
    assert_eq!(args.missing(), Some(ArgumentType::AttributeNames));
    args.attribute_names = Some(vec![]);
    assert_eq!(args.missing(), None);
}

#[test]
fn new_credential_replaces_the_old_one_only() {
    let mut args = Arguments::default();
    args.px = Some("old".to_string());
    args.category_name = Some("c".to_string());
    args.prompt_user_for_new_px_key("new".to_string());
    assert_eq!(args.px.as_deref(), Some("new"));
    assert_eq!(args.category_name.as_deref(), Some("c"));
    assert_eq!(args.user_agent, None);
}

#[test]
fn done_ends_the_names_in_any_case() {
    assert!(Arguments::is_done("done"));
    assert!(Arguments::is_done("DONE"));
    assert!(Arguments::is_done("dOnE"));
    assert!(!Arguments::is_done("done "));
    assert!(!Arguments::is_done("don"));
    assert!(!Arguments::is_done(""));
}

#[test]
fn attribute_names_stop_at_the_first_done() {
    let names = Arguments::prompt_for_attribute_names(&texts(&[
        "capacitance",
        "voltage",
        "Done",
        "ignored",
        "done",
    ]));
    assert_eq!(names, texts(&["capacitance", "voltage"]));
}

#[test]
fn attribute_names_without_done_are_all_taken() {
    let names = Arguments::prompt_for_attribute_names(&texts(&["a", "b"]));
    assert_eq!(names, texts(&["a", "b"]));
    let none = Arguments::prompt_for_attribute_names(&texts(&["done"]));
    assert!(none.is_empty());
}

#[test]
fn dialogue_asks_for_each_missing_argument_in_turn() {
    let mut cli = Cli::new(Arguments::default());
    assert_eq!(cli.next_prompt(), Some(ArgumentType::Px));
    cli.answer("key".to_string());
    assert_eq!(cli.next_prompt(), Some(ArgumentType::UserAgent));
    cli.answer("agent".to_string());
    assert_eq!(cli.next_prompt(), Some(ArgumentType::CategoryName));
    cli.answer("Mica Capacitors".to_string());
    assert_eq!(cli.next_prompt(), Some(ArgumentType::AttributeNames));
    cli.answer("capacitance".to_string());
    assert_eq!(cli.next_prompt(), Some(ArgumentType::AttributeNames));
    assert_eq!(cli.get_args().attribute_names, None);
    cli.answer("done".to_string());
    assert_eq!(cli.next_prompt(), None);
    let args = cli.into_args();
    assert_eq!(args.px.as_deref(), Some("key"));
    assert_eq!(args.user_agent.as_deref(), Some("agent"));
    assert_eq!(args.category_name.as_deref(), Some("Mica Capacitors"));
    assert_eq!(args.attribute_names, Some(texts(&["capacitance"])));
}

#[test]
fn empty_user_agent_takes_the_default() {
    let mut args = Arguments::default();
    args.px = Some("key".to_string());
    let mut cli = Cli::new(args);
    cli.answer(String::new());
    assert_eq!(cli.get_args().user_agent.as_deref(), Some(DEFAULT_USER_AGENT));
    assert_eq!(Cli::default_answer(ArgumentType::UserAgent), Some(DEFAULT_USER_AGENT));
    assert_eq!(Cli::default_answer(ArgumentType::Px), None);
    assert_eq!(Cli::default_answer(ArgumentType::CategoryName), None);
    assert_eq!(Cli::default_answer(ArgumentType::AttributeNames), None);
}

#[test]
fn answers_after_the_last_prompt_change_nothing() {
    let mut cli = Cli::new(Arguments::default());
    for input in ["k", "u", "c", "done"] {
        cli.answer(input.to_string());
    }
    assert_eq!(cli.next_prompt(), None);
    cli.answer("late".to_string());
    let args = cli.get_args();
    assert_eq!(args.px.as_deref(), Some("k"));
    assert_eq!(args.attribute_names, Some(vec![]));
}

#[test]
fn prompt_runs_the_whole_dialogue() {
    let mut parsed = Arguments::default();
    parsed.category_name = Some("Mica Capacitors".to_string());
    let args = Cli::prompt(parsed, texts(&["key", "", "capacitance", "dielectric", "DONE", "x"]));
    assert_eq!(args.px.as_deref(), Some("key"));
    assert_eq!(args.user_agent.as_deref(), Some(DEFAULT_USER_AGENT));
    assert_eq!(args.category_name.as_deref(), Some("Mica Capacitors"));
    assert_eq!(args.attribute_names, Some(texts(&["capacitance", "dielectric"])));
}

#[test]
fn prompt_with_too_few_answers_leaves_arguments_missing() {
    let args = Cli::prompt(Arguments::default(), texts(&["key", "agent", "cat", "a"]));
    assert_eq!(args.px.as_deref(), Some("key"));
    assert_eq!(args.category_name.as_deref(), Some("cat"));
    assert_eq!(args.attribute_names, None);
    assert_eq!(args.missing(), Some(ArgumentType::AttributeNames));
}
