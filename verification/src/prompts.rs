//! What the user is asked and told: the texts of the prompts and of the
//! notices. Showing them is left to the owner of the terminal.

use crate::cli::ArgumentType;
use crate::tasks::TaskType;
use crate::text::push_char;
use vstd::prelude::*;
use vstd::string::StringExecFns;

verus! {

/// The question for the credential.
pub const PX_KEY_PROMPT: &'static str = "🔑  Enter PerimeterX key:";

/// The question for the user agent.
pub const USER_AGENT_PROMPT: &'static str = "🌐  Enter User Agent:";

/// The question for the category.
pub const CATEGORY_NAME_PROMPT: &'static str = "📁  Enter Category Name:";

/// The question for one more attribute.
pub const ATTRIBUTE_NAME_PROMPT: &'static str =
    "🔖  Enter Attribute Name (enter 'done' when finished):";

/// The question before a file is overwritten.
pub const FILE_OVERWRITE_PROMPT: &'static str = "💾  File already exists. Overwrite? (Y/N):";

/// The question that asks for an argument.
pub open spec fn prompt_of(kind: ArgumentType) -> Seq<char> {
    match kind {
        ArgumentType::Px => PX_KEY_PROMPT@,
        ArgumentType::UserAgent => USER_AGENT_PROMPT@,
        ArgumentType::CategoryName => CATEGORY_NAME_PROMPT@,
        ArgumentType::AttributeNames => ATTRIBUTE_NAME_PROMPT@,
    }
}

/// The name of a phase as a notice shows it.
pub open spec fn task_name(task_type: TaskType) -> Seq<char> {
    match task_type {
        TaskType::AttributeScrape => "AttributeScrape"@,
        TaskType::ComponentCount => "ComponentCount"@,
        TaskType::ComponentScrape => "ComponentScrape"@,
    }
}

/// The character of a decimal digit.
pub open spec fn digit_char(d: nat) -> char {
    ((48 + d) as u8) as char
}

/// A number in decimal notation.
pub open spec fn decimal(n: nat) -> Seq<char>
    decreases n,
{
    if n < 10 {
        seq![digit_char(n)]
    } else {
        decimal(n / 10).push(digit_char(n % 10))
    }
}

/// The notice that something is going on, or that it went well.
pub open spec fn info_text(message: Seq<char>, is_success: bool) -> Seq<char> {
    "\n"@ + (if is_success {
        "✅"@
    } else {
        "🛠️ "@
    }) + "  "@ + message
}

/// The notice that something went wrong.
pub open spec fn error_text(detail: Seq<char>) -> Seq<char> {
    "\n⚠️   Error: "@ + detail
}

/// The notice that tasks of a phase failed: it names the phase and the
/// number of failed requests.
pub open spec fn task_error_text(task_type: TaskType, failed_count: nat) -> Seq<char> {
    "\n⚠️   Error: Task `"@ + task_name(task_type) + "` had "@ + decimal(failed_count)
        + " failed request(s)."@
}

/// Appends a number in decimal notation.
fn push_decimal(out: &mut String, n: usize)
    ensures
        final(out)@ == old(out)@ + decimal(n as nat),
    decreases n,
{
    if n >= 10 {
        push_decimal(out, n / 10);
    }
    let digit: u8 = (n % 10) as u8;
    push_char(out, (48u8 + digit) as char);
    assert(out@ =~= old(out)@ + decimal(n as nat));
}

/// The question that asks for an argument.
pub fn prompt_message(kind: ArgumentType) -> (r: &'static str)
    ensures
        r@ == prompt_of(kind),
{
    match kind {
        ArgumentType::Px => PX_KEY_PROMPT,
        ArgumentType::UserAgent => USER_AGENT_PROMPT,
        ArgumentType::CategoryName => CATEGORY_NAME_PROMPT,
        ArgumentType::AttributeNames => ATTRIBUTE_NAME_PROMPT,
    }
}

/// The notice that something is going on, or that it went well.
pub fn info_message(message: &str, is_success: bool) -> (r: String)
    ensures
        r@ == info_text(message@, is_success),
{
    let mut out = "\n".to_owned();
    if is_success {
        out.append("✅");
    } else {
        out.append("🛠️ ");
    }
    out.append("  ");
    out.append(message);
    out
}

/// The notice that something went wrong.
pub fn error_message(detail: &str) -> (r: String)
    ensures
        r@ == error_text(detail@),
{
    let mut out = "\n⚠️   Error: ".to_owned();
    out.append(detail);
    out
}

/// The notice that tasks of a phase failed.
pub fn task_error_message(task_type: TaskType, failed_count: usize) -> (r: String)
    ensures
        r@ == task_error_text(task_type, failed_count as nat),
{
    let mut out = "\n⚠️   Error: Task `".to_owned();
    match task_type {
        TaskType::AttributeScrape => out.append("AttributeScrape"),
        TaskType::ComponentCount => out.append("ComponentCount"),
        TaskType::ComponentScrape => out.append("ComponentScrape"),
    }
    out.append("` had ");
    push_decimal(&mut out, failed_count);
    out.append(" failed request(s).");
    out
}

} // verus!
