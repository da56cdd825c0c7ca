//! The caller's arguments and the dialogue that completes them.

use crate::config::DEFAULT_USER_AGENT;
use crate::text::{copy_texts, eq_ignore_ascii_case, same_ignoring_ascii_case};
use vstd::prelude::*;

verus! {

/// The argument that a prompt asks for.
#[derive(Debug, Clone, Copy, PartialEq, Eq, Structural)]
pub enum ArgumentType {
    Px,
    UserAgent,
    CategoryName,
    AttributeNames,
}

/// What the caller supplies for a run. The credential `px` may be replaced
/// during the run; the other fields stay as they are.
#[derive(Debug)]
pub struct Arguments {
    pub px: Option<String>,
    pub user_agent: Option<String>,
    pub category_name: Option<String>,
    pub attribute_names: Option<Vec<String>>,
    pub combine_metadata: bool,
}

/// The mathematical content of [`Arguments`].
pub struct ArgumentsModel {
    pub px: Option<Seq<char>>,
    pub user_agent: Option<Seq<char>>,
    pub category_name: Option<Seq<char>>,
    pub attribute_names: Option<Seq<Seq<char>>>,
    pub combine_metadata: bool,
}

impl ArgumentsModel {
    /// The first argument that is still missing, in the order in which the
    /// dialogue asks for them.
    pub open spec fn missing(self) -> Option<ArgumentType> {
        if self.px is None {
            Some(ArgumentType::Px)
        } else if self.user_agent is None {
            Some(ArgumentType::UserAgent)
        } else if self.category_name is None {
            Some(ArgumentType::CategoryName)
        } else if self.attribute_names is None {
            Some(ArgumentType::AttributeNames)
        } else {
            None
        }
    }

    /// The arguments with the credential replaced.
    pub open spec fn with_px(self, px: Seq<char>) -> ArgumentsModel {
        ArgumentsModel {
            px: Some(px),
            user_agent: self.user_agent,
            category_name: self.category_name,
            attribute_names: self.attribute_names,
            combine_metadata: self.combine_metadata,
        }
    }

    /// The arguments with the user agent set.
    pub open spec fn with_user_agent(self, user_agent: Seq<char>) -> ArgumentsModel {
        ArgumentsModel {
            px: self.px,
            user_agent: Some(user_agent),
            category_name: self.category_name,
            attribute_names: self.attribute_names,
            combine_metadata: self.combine_metadata,
        }
    }

    /// The arguments with the category name set.
    pub open spec fn with_category_name(self, category_name: Seq<char>) -> ArgumentsModel {
        ArgumentsModel {
            px: self.px,
            user_agent: self.user_agent,
            category_name: Some(category_name),
            attribute_names: self.attribute_names,
            combine_metadata: self.combine_metadata,
        }
    }

    /// The arguments with the attribute names set.
    pub open spec fn with_attribute_names(self, names: Seq<Seq<char>>) -> ArgumentsModel {
        ArgumentsModel {
            px: self.px,
            user_agent: self.user_agent,
            category_name: self.category_name,
            attribute_names: Some(names),
            combine_metadata: self.combine_metadata,
        }
    }
}

impl View for Arguments {
    type V = ArgumentsModel;

    open spec fn view(&self) -> ArgumentsModel {
        ArgumentsModel {
            px: self.px.deep_view(),
            user_agent: self.user_agent.deep_view(),
            category_name: self.category_name.deep_view(),
            attribute_names: self.attribute_names.deep_view(),
            combine_metadata: self.combine_metadata,
        }
    }
}

/// The answer that ends the list of attribute names.
pub open spec fn ends_attribute_names(input: Seq<char>) -> bool {
    same_ignoring_ascii_case(input, "done"@)
}

/// The attribute names that a sequence of answers gives: those before the
/// first answer that ends the list.
pub open spec fn names_before_done(inputs: Seq<Seq<char>>) -> Seq<Seq<char>>
    decreases inputs.len(),
{
    if inputs.len() == 0 {
        Seq::empty()
    } else if ends_attribute_names(inputs[0]) {
        Seq::empty()
    } else {
        seq![inputs[0]] + names_before_done(inputs.skip(1))
    }
}

impl Default for Arguments {
    fn default() -> (r: Arguments)
        ensures
            r@.px is None,
            r@.user_agent is None,
            r@.category_name is None,
            r@.attribute_names is None,
            !r@.combine_metadata,
    {
        Arguments {
            px: None,
            user_agent: None,
            category_name: None,
            attribute_names: None,
            combine_metadata: false,
        }
    }
}

impl Arguments {
    /// The first argument that is still missing, if any.
    pub fn missing(&self) -> (r: Option<ArgumentType>)
        ensures
            r == self@.missing(),
    {
        if self.px.is_none() {
            Some(ArgumentType::Px)
        } else if self.user_agent.is_none() {
            Some(ArgumentType::UserAgent)
        } else if self.category_name.is_none() {
            Some(ArgumentType::CategoryName)
        } else if self.attribute_names.is_none() {
            Some(ArgumentType::AttributeNames)
        } else {
            None
        }
    }

    /// Replaces the credential by the key that the user entered.
    pub fn prompt_user_for_new_px_key(&mut self, input: String)
        ensures
            final(self)@ == old(self)@.with_px(input@),
    {
        self.px = Some(input);
    }

    /// Whether an answer ends the list of attribute names.
    pub fn is_done(input: &str) -> (r: bool)
        ensures
            r == ends_attribute_names(input@),
    {
        eq_ignore_ascii_case(input, "done")
    }

    /// The attribute names that the answers give: every answer before the
    /// first one that reads `done`, in any case of its letters.
    pub fn prompt_for_attribute_names(inputs: &Vec<String>) -> (r: Vec<String>)
        ensures
            r.deep_view() == names_before_done(inputs.deep_view()),
    {
        let mut n: usize = 0;
        while n < inputs.len() && !Self::is_done(inputs[n].as_str())
            invariant
                n <= inputs.len(),
                forall|j: int| 0 <= j < n ==> !ends_attribute_names(#[trigger] inputs[j]@),
            decreases inputs.len() - n,
        {
            n = n + 1;
        }
        let mut out: Vec<String> = copy_texts(inputs);
        out.truncate(n);
        proof {
            lemma_names_before_done(inputs.deep_view(), n as int);
            assert(out.deep_view() =~= inputs.deep_view().take(n as int));
        }
        out
    }
}

/// The mathematical content of a [`Cli`]: the arguments so far and the
/// attribute names entered while their list is still open.
pub struct CliModel {
    pub args: ArgumentsModel,
    pub pending: Seq<Seq<char>>,
}

impl CliModel {
    /// The dialogue over arguments as they were parsed, before any answer.
    pub open spec fn start(args: ArgumentsModel) -> CliModel {
        CliModel { args, pending: Seq::empty() }
    }

    /// The dialogue after one more answer. The answer goes to the first
    /// missing argument; an empty answer for the user agent stands for the
    /// default one; attribute names are collected until an answer ends the
    /// list. Once nothing is missing, answers change nothing.
    pub open spec fn step(self, input: Seq<char>) -> CliModel {
        match self.args.missing() {
            None => self,
            Some(ArgumentType::Px) => CliModel {
                args: self.args.with_px(input),
                pending: self.pending,
            },
            Some(ArgumentType::UserAgent) => CliModel {
                args: self.args.with_user_agent(
                    if input.len() == 0 {
                        DEFAULT_USER_AGENT@
                    } else {
                        input
                    },
                ),
                pending: self.pending,
            },
            Some(ArgumentType::CategoryName) => CliModel {
                args: self.args.with_category_name(input),
                pending: self.pending,
            },
            Some(ArgumentType::AttributeNames) => if ends_attribute_names(input) {
                CliModel {
                    args: self.args.with_attribute_names(self.pending),
                    pending: Seq::empty(),
                }
            } else {
                CliModel { args: self.args, pending: self.pending.push(input) }
            },
        }
    }

    /// The dialogue after a sequence of answers, taken in order.
    pub open spec fn run(self, inputs: Seq<Seq<char>>) -> CliModel
        decreases inputs.len(),
    {
        if inputs.len() == 0 {
            self
        } else {
            self.run(inputs.drop_last()).step(inputs.last())
        }
    }
}

/// The dialogue that completes the caller's arguments: it names the
/// argument to ask for next and takes the answers one by one.
#[derive(Debug)]
pub struct Cli {
    args: Arguments,
    pending: Vec<String>,
}

impl View for Cli {
    type V = CliModel;

    closed spec fn view(&self) -> CliModel {
        CliModel { args: self.args@, pending: self.pending.deep_view() }
    }
}

impl Cli {
    /// A dialogue over the arguments as they were parsed.
    pub fn new(args: Arguments) -> (cli: Cli)
        ensures
            cli@ == CliModel::start(args@),
    {
        let cli = Cli { args, pending: Vec::new() };
        assert(cli.pending.deep_view() =~= Seq::<Seq<char>>::empty());
        cli
    }

    /// The arguments as far as they are known.
    pub fn get_args(&self) -> (args: &Arguments)
        ensures
            args@ == self@.args,
    {
        &self.args
    }

    /// The argument to ask for next, or `None` once all are known.
    pub fn next_prompt(&self) -> (r: Option<ArgumentType>)
        ensures
            r == self@.args.missing(),
    {
        self.args.missing()
    }

    /// The answer that a prompt offers as its default, if it has one.
    pub fn default_answer(kind: ArgumentType) -> (r: Option<&'static str>)
        ensures
            match kind {
                ArgumentType::UserAgent => r matches Some(s) && s@ == DEFAULT_USER_AGENT@,
                _ => r is None,
            },
    {
        match kind {
            ArgumentType::UserAgent => Some(DEFAULT_USER_AGENT),
            _ => None,
        }
    }

    /// Takes the answer to the prompt that [`Cli::next_prompt`] names.
    pub fn answer(&mut self, input: String)
        ensures
            final(self)@ == old(self)@.step(input@),
    {
        match self.args.missing() {
            None => {},
            Some(ArgumentType::Px) => {
                self.args.px = Some(input);
            },
            Some(ArgumentType::UserAgent) => {
                if input.as_str().is_empty() {
                    self.args.user_agent = Some(DEFAULT_USER_AGENT.to_owned());
                } else {
                    self.args.user_agent = Some(input);
                }
            },
            Some(ArgumentType::CategoryName) => {
                self.args.category_name = Some(input);
            },
            Some(ArgumentType::AttributeNames) => {
                if Arguments::is_done(input.as_str()) {
                    let mut names: Vec<String> = Vec::new();
                    std::mem::swap(&mut names, &mut self.pending);
                    self.args.attribute_names = Some(names);
                    assert(self.pending.deep_view() =~= Seq::<Seq<char>>::empty());
                } else {
                    self.pending.push(input);
                    assert(self.pending.deep_view() =~= old(self).pending.deep_view().push(
                        input@,
                    ));
                }
            },
        }
    }

    /// The arguments after the dialogue has taken the given answers in
    /// order. Answers that come after the last missing argument are ignored;
    /// with too few answers some arguments stay missing.
    pub fn prompt(args: Arguments, inputs: Vec<String>) -> (r: Arguments)
        ensures
            r@ == CliModel::start(args@).run(inputs.deep_view()).args,
    {
        let mut cli = Cli::new(args);
        let mut inputs = inputs;
        let ghost all = inputs.deep_view();
        let mut i: usize = 0;
        while i < inputs.len()
            invariant
                i <= inputs.len(),
                inputs.len() == all.len(),
                forall|j: int| i <= j < inputs.len() ==> inputs[j]@ == all[j],
                cli@ == CliModel::start(args@).run(all.take(i as int)),
            decreases inputs.len() - i,
        {
            let mut input = String::new();
            std::mem::swap(&mut input, &mut inputs[i]);
            proof {
                assert(all.take(i + 1).drop_last() =~= all.take(i as int));
                assert(all.take(i + 1).last() == all[i as int]);
            }
            cli.answer(input);
            i = i + 1;
        }
        assert(all.take(i as int) =~= all);
        cli.args
    }

    /// Ends the dialogue and hands out the arguments.
    pub fn into_args(self) -> (r: Arguments)
        ensures
            r@ == self@.args,
    {
        self.args
    }
}

/// Where the first `n` answers do not end the list and the next one, if
/// there is one, does, the names are those first `n` answers.
pub proof fn lemma_names_before_done(inputs: Seq<Seq<char>>, n: int)
    requires
        0 <= n <= inputs.len(),
        forall|j: int| 0 <= j < n ==> !ends_attribute_names(#[trigger] inputs[j]),
        n < inputs.len() ==> ends_attribute_names(inputs[n]),
    ensures
        names_before_done(inputs) == inputs.take(n),
    decreases inputs.len(),
{
    if inputs.len() == 0 {
        assert(inputs.take(n) =~= Seq::<Seq<char>>::empty());
    } else if n == 0 {
        assert(inputs.take(n) =~= Seq::<Seq<char>>::empty());
    } else {
        let rest = inputs.skip(1);
        assert forall|j: int| 0 <= j < n - 1 implies !ends_attribute_names(#[trigger] rest[j]) by {
            assert(rest[j] == inputs[j + 1]);
        }
        lemma_names_before_done(rest, n - 1);
        assert(inputs.take(n) =~= seq![inputs[0]] + rest.take(n - 1));
    }
}

} // verus!
