//! The options before a command: how its requests for capabilities are to be answered.
use crate::capability::{CapabilityClass, CapabilityPromptRequest};
use crate::error::{failure, ErrorKind, ErrorView, ShellError};
use crate::prompt::PromptDecision;
use crate::text::{holds_text, same_text};
use vstd::prelude::*;
use vstd::string::*;

verus! {

/// How the requests of a command are to be answered.
#[derive(Clone, Debug, PartialEq, Eq)]
pub struct ExecutionPromptPolicy {
    /// Every request is denied.
    pub deny_prompts: bool,
    /// Every request for a capability that the user may grant is granted.
    pub allow_all_user: bool,
    /// The command runs in the background.
    pub background: bool,
    /// The capabilities that the command gets while it runs.
    pub allow_session: Vec<String>,
}

/// What an [`ExecutionPromptPolicy`] says.
#[verifier::ext_equal]
pub struct PolicyView {
    pub deny_prompts: bool,
    pub allow_all_user: bool,
    pub background: bool,
    pub allow_session: Seq<Seq<char>>,
}

impl View for ExecutionPromptPolicy {
    type V = PolicyView;

    open spec fn view(&self) -> PolicyView {
        PolicyView {
            deny_prompts: self.deny_prompts,
            allow_all_user: self.allow_all_user,
            background: self.background,
            allow_session: self.allow_session.deep_view(),
        }
    }
}

impl PolicyView {
    /// The policy without any option.
    pub open spec fn ask_user() -> PolicyView {
        PolicyView {
            deny_prompts: false,
            allow_all_user: false,
            background: false,
            allow_session: seq![],
        }
    }
}

impl Default for ExecutionPromptPolicy {
    fn default() -> (r: ExecutionPromptPolicy)
        ensures
            r@ == PolicyView::ask_user(),
    {
        let r = ExecutionPromptPolicy {
            deny_prompts: false,
            allow_all_user: false,
            background: false,
            allow_session: Vec::new(),
        };
        assert(r@ =~= PolicyView::ask_user());
        r
    }
}

/// The policy that the options from index `i` on give, on top of `policy`, and the index of the
/// command behind them. The first word that is no option is the command; so is the word behind
/// `--`.
pub open spec fn options_from(argv: Seq<Seq<char>>, i: int, policy: PolicyView) -> Result<
    (PolicyView, int),
    ErrorView,
>
    decreases argv.len() - i,
{
    if i < 0 || i >= argv.len() {
        Ok((policy, i))
    } else if argv[i] == "--deny-prompts"@ {
        options_from(argv, i + 1, PolicyView { deny_prompts: true, ..policy })
    } else if argv[i] == "--allow-all-user"@ {
        options_from(argv, i + 1, PolicyView { allow_all_user: true, ..policy })
    } else if argv[i] == "--background"@ {
        options_from(argv, i + 1, PolicyView { background: true, ..policy })
    } else if argv[i] == "--allow-session"@ {
        if i + 1 < argv.len() {
            options_from(
                argv,
                i + 2,
                PolicyView { allow_session: policy.allow_session.push(argv[i + 1]), ..policy },
            )
        } else {
            Err(failure(ErrorKind::InvalidInput, "--allow-session requires capability"@))
        }
    } else if argv[i] == "--"@ {
        Ok((policy, i + 1))
    } else {
        Ok((policy, i))
    }
}

/// The policy that the options of a command line give, and the index of the command.
pub open spec fn external_options(argv: Seq<Seq<char>>) -> Result<(PolicyView, int), ErrorView> {
    options_from(argv, 0, PolicyView::ask_user())
}

/// The command begins within the command line or at its end.
pub proof fn lemma_options_from(argv: Seq<Seq<char>>, i: int, policy: PolicyView)
    requires
        0 <= i <= argv.len(),
    ensures
        options_from(argv, i, policy) matches Ok((p, at)) ==> i <= at <= argv.len(),
    decreases argv.len() - i,
{
    if i < argv.len() {
        lemma_options_from(argv, i + 1, PolicyView { deny_prompts: true, ..policy });
        lemma_options_from(argv, i + 1, PolicyView { allow_all_user: true, ..policy });
        lemma_options_from(argv, i + 1, PolicyView { background: true, ..policy });
        if i + 1 < argv.len() {
            lemma_options_from(
                argv,
                i + 2,
                PolicyView { allow_session: policy.allow_session.push(argv[i + 1]), ..policy },
            );
        }
    }
}

/// Splits a command line into the policy that its options give and the command behind them.
pub fn parse_external_options(argv: &[String]) -> (r: Result<
    (ExecutionPromptPolicy, &[String]),
    ShellError,
>)
    ensures
        match external_options(argv.deep_view()) {
            Ok((policy, at)) => {
                &&& r matches Ok((p, rest))
                &&& p@ == policy
                &&& 0 <= at <= argv@.len()
                &&& rest@ == argv@.skip(at)
            },
            Err(e) => r matches Err(m) && m@ == e,
        },
{
    let mut policy = ExecutionPromptPolicy::default();
    let mut index: usize = 0;
    let ghost view = argv.deep_view();
    proof {
        lemma_options_from(view, 0, PolicyView::ask_user());
    }
    let mut reading = true;
    while reading && index < argv.len()
        invariant
            index <= argv@.len(),
            view == argv.deep_view(),
            external_options(view) matches Ok((p, at)) ==> 0 <= at <= argv@.len(),
            reading ==> external_options(view) == options_from(view, index as int, policy@),
            !reading ==> external_options(view) == Ok::<(PolicyView, int), ErrorView>(
                (policy@, index as int),
            ),
        decreases argv@.len() - index, (if reading {
            1int
        } else {
            0int
        }),
    {
        let ghost before = policy@;
        let word = argv[index].as_str();
        assert(view[index as int] == word@);
        if same_text(word, "--deny-prompts") {
            policy.deny_prompts = true;
            index = index + 1;
        } else if same_text(word, "--allow-all-user") {
            policy.allow_all_user = true;
            index = index + 1;
        } else if same_text(word, "--background") {
            policy.background = true;
            index = index + 1;
        } else if same_text(word, "--allow-session") {
            if index + 1 == argv.len() {
                return Err(
                    ShellError::new(ErrorKind::InvalidInput, "--allow-session requires capability"),
                );
            }
            policy.allow_session.push(argv[index + 1].clone());
            assert(policy@.allow_session =~= before.allow_session.push(view[index + 1]));
            index = index + 2;
        } else if same_text(word, "--") {
            index = index + 1;
            reading = false;
        } else {
            reading = false;
        }
    }
    let rest = &argv[index..argv.len()];
    assert(rest@ =~= argv@.skip(index as int));
    Ok((policy, rest))
}

/// Whether the policy answers the request before the name of the capability is looked at.
pub open spec fn decided_at_once(policy: PolicyView, request: CapabilityPromptRequest) -> bool {
    policy.deny_prompts || (policy.allow_all_user && request.capability_class
        == CapabilityClass::UserGrantable)
}

/// The answer that the policy gives to a request, if it gives one: denial comes first, then what
/// the user allowed as a whole, then the capabilities allowed by name.
pub open spec fn policy_decision(policy: PolicyView, request: CapabilityPromptRequest) -> Option<
    PromptDecision,
> {
    if policy.deny_prompts {
        Some(PromptDecision::Deny)
    } else if policy.allow_all_user && request.capability_class == CapabilityClass::UserGrantable {
        Some(PromptDecision::AllowAllUserGrantable)
    } else if policy.allow_session.contains(request.capability_text()) {
        Some(PromptDecision::AllowForProcess)
    } else {
        None
    }
}

/// Finds the answer that the policy gives to a request.
pub fn prompt_policy_decision(
    policy: &ExecutionPromptPolicy,
    request: &CapabilityPromptRequest,
) -> (r: Option<PromptDecision>)
    requires
        decided_at_once(policy@, *request) || request.capability_fits(),
    ensures
        r == policy_decision(policy@, *request),
{
    if policy.deny_prompts {
        return Some(PromptDecision::Deny);
    }
    if policy.allow_all_user && request.capability_class == CapabilityClass::UserGrantable {
        return Some(PromptDecision::AllowAllUserGrantable);
    }
    if holds_text(&policy.allow_session, request.capability()) {
        return Some(PromptDecision::AllowForProcess);
    }
    None
}

} // verus!
