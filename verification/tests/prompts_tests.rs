use scraper2::cli::ArgumentType;
use scraper2::prompts::{
    error_message, info_message, prompt_message, task_error_message, ATTRIBUTE_NAME_PROMPT,
    CATEGORY_NAME_PROMPT, FILE_OVERWRITE_PROMPT, PX_KEY_PROMPT, USER_AGENT_PROMPT,
};
use scraper2::tasks::TaskType;

#[test]
fn each_argument_has_its_question() {
    assert_eq!(prompt_message(ArgumentType::Px), PX_KEY_PROMPT);
    assert_eq!(prompt_message(ArgumentType::UserAgent), USER_AGENT_PROMPT);
    assert_eq!(prompt_message(ArgumentType::CategoryName), CATEGORY_NAME_PROMPT);
    assert_eq!(prompt_message(ArgumentType::AttributeNames), ATTRIBUTE_NAME_PROMPT);
    assert_eq!(PX_KEY_PROMPT, "🔑  Enter PerimeterX key:");
    assert_eq!(FILE_OVERWRITE_PROMPT, "💾  File already exists. Overwrite? (Y/N):");
}

#[test]
fn info_notice_shows_success_or_work() {
    assert_eq!(info_message("Done!", true), "\n✅  Done!");
    assert_eq!(
        info_message("Counting component batches...", false),
        "\n🛠️   Counting component batches..."
    );
    assert_eq!(info_message("", true), "\n✅  ");
}

#[test]
fn error_notice_carries_the_detail() {
    assert_eq!(error_message("Aborted saving to disk."), "\n⚠️   Error: Aborted saving to disk.");
}

#[test]
fn task_notice_names_phase_and_failures() {
    assert_eq!(
        task_error_message(TaskType::ComponentCount, 2),
        "\n⚠️   Error: Task `ComponentCount` had 2 failed request(s)."
    );
    assert_eq!(
        task_error_message(TaskType::AttributeScrape, 1),
        "\n⚠️   Error: Task `AttributeScrape` had 1 failed request(s)."
    );
    assert_eq!(
        task_error_message(TaskType::ComponentScrape, 100),
        "\n⚠️   Error: Task `ComponentScrape` had 100 failed request(s)."
    );
}

#[test]
fn failure_counts_are_written_in_decimal() {
    for count in [0usize, 7, 9, 10, 11, 99, 101, 1000, 65_535, 4_294_967_295, usize::MAX] {
        assert_eq!(
            task_error_message(TaskType::ComponentCount, count),
            format!("\n⚠️   Error: Task `ComponentCount` had {} failed request(s).", count)
        );
    }
}
