//! What holds of every policy and of every decision: denial wins, and nothing is granted that
//! the capability service did not agree to.
use crate::capability::{CapabilityClass, CapabilityPromptRequest};
use crate::error::{failure, ErrorKind, ErrorView, ShellError};
use crate::input::{InputEvent, KEY_A, KEY_N, KEY_S, KEY_U, KEY_Y};
use crate::policy::{
    decided_at_once, external_options, lemma_options_from, options_from, parse_external_options,
    policy_decision, prompt_policy_decision, ExecutionPromptPolicy, PolicyView,
};
use crate::prompt::{
    authorized, event_decision, key_decision, message_length, service_decision, service_question,
    told_decision, PendingPrompt, PromptDecision, ServiceReply,
};
use crate::wire::u64_at;
use vstd::prelude::*;
use vstd::string::*;

verus! {

/// A policy that denies prompts denies every request, whatever else it allows.
pub proof fn denial_goes_first(policy: PolicyView, request: CapabilityPromptRequest)
    requires
        policy.deny_prompts,
    ensures
        policy_decision(policy, request) == Some(PromptDecision::Deny),
{
}

/// Without options the user is asked about every request.
pub proof fn without_options_the_user_is_asked(request: CapabilityPromptRequest)
    ensures
        policy_decision(PolicyView::ask_user(), request) is None,
{
}

/// Allowing everything that the user may grant says nothing about the other classes: such a
/// request is answered as if the option were not there.
pub proof fn allowing_all_stops_at_the_user(policy: PolicyView, request: CapabilityPromptRequest)
    requires
        request.capability_class != CapabilityClass::UserGrantable,
    ensures
        policy_decision(policy, request) == policy_decision(
            PolicyView { allow_all_user: false, ..policy },
            request,
        ),
{
}

/// A policy never lets a request through for longer than the process runs, except by allowing
/// everything that the user may grant.
pub proof fn policy_grants_are_limited(policy: PolicyView, request: CapabilityPromptRequest)
    ensures
        policy_decision(policy, request) matches Some(d) ==> {
            ||| d == PromptDecision::Deny
            ||| d == PromptDecision::AllowForProcess
            ||| d == PromptDecision::AllowAllUserGrantable && policy.allow_all_user
                && request.capability_class == CapabilityClass::UserGrantable
        },
{
}

/// A command line that begins with no option is the command, as a whole.
pub proof fn command_without_options_stays_whole(argv: Seq<Seq<char>>)
    requires
        argv.len() > 0,
        argv[0] != "--deny-prompts"@,
        argv[0] != "--allow-all-user"@,
        argv[0] != "--background"@,
        argv[0] != "--allow-session"@,
        argv[0] != "--"@,
    ensures
        external_options(argv) == Ok::<(PolicyView, int), ErrorView>((PolicyView::ask_user(), 0)),
{
}

/// Behind `--` everything is the command, even what looks like an option.
pub proof fn double_dash_ends_the_options(argv: Seq<Seq<char>>)
    requires
        argv.len() > 0,
        argv[0] == "--"@,
    ensures
        external_options(argv) == Ok::<(PolicyView, int), ErrorView>((PolicyView::ask_user(), 1)),
{
    reveal_strlit("--");
    reveal_strlit("--deny-prompts");
    reveal_strlit("--allow-all-user");
    reveal_strlit("--background");
    reveal_strlit("--allow-session");
    assert("--"@.len() == 2);
    assert("--deny-prompts"@.len() > 2 && "--allow-all-user"@.len() > 2);
    assert("--background"@.len() > 2 && "--allow-session"@.len() > 2);
}

/// Options only add to a policy: none takes back what one before it gave.
pub proof fn options_only_add(argv: Seq<Seq<char>>, i: int, policy: PolicyView)
    ensures
        options_from(argv, i, policy) matches Ok((p, at)) ==> {
            &&& policy.deny_prompts ==> p.deny_prompts
            &&& policy.allow_all_user ==> p.allow_all_user
            &&& policy.background ==> p.background
            &&& policy.allow_session.is_prefix_of(p.allow_session)
        },
    decreases argv.len() - i,
{
    assert(policy.allow_session.is_prefix_of(policy.allow_session)) by {
        assert(policy.allow_session.subrange(0, policy.allow_session.len() as int)
            =~= policy.allow_session);
    }
    if 0 <= i < argv.len() {
        options_only_add(argv, i + 1, PolicyView { deny_prompts: true, ..policy });
        options_only_add(argv, i + 1, PolicyView { allow_all_user: true, ..policy });
        options_only_add(argv, i + 1, PolicyView { background: true, ..policy });
        if i + 1 < argv.len() {
            let more = PolicyView {
                allow_session: policy.allow_session.push(argv[i + 1]),
                ..policy
            };
            options_only_add(argv, i + 2, more);
            if let Ok((p, at)) = options_from(argv, i + 2, more) {
                assert(policy.allow_session =~= p.allow_session.subrange(
                    0,
                    policy.allow_session.len() as int,
                )) by {
                    assert(more.allow_session == p.allow_session.subrange(
                        0,
                        more.allow_session.len() as int,
                    ));
                    assert(policy.allow_session =~= more.allow_session.subrange(
                        0,
                        policy.allow_session.len() as int,
                    ));
                }
            }
        }
    }
}

impl PolicyView {
    /// The policy that allows what either allows and forbids what either forbids; what is allowed
    /// by name comes in order.
    pub open spec fn and(self, more: PolicyView) -> PolicyView {
        PolicyView {
            deny_prompts: self.deny_prompts || more.deny_prompts,
            allow_all_user: self.allow_all_user || more.allow_all_user,
            background: self.background || more.background,
            allow_session: self.allow_session + more.allow_session,
        }
    }
}

/// What options give on top of a policy is the policy and what they give on their own; the
/// command stands at the same place.
pub proof fn options_add_up(argv: Seq<Seq<char>>, i: int, policy: PolicyView)
    ensures
        options_from(argv, i, policy) == (match options_from(argv, i, PolicyView::ask_user()) {
            Ok((p, at)) => Ok::<(PolicyView, int), ErrorView>((policy.and(p), at)),
            Err(e) => Err(e),
        }),
    decreases argv.len() - i, 0int,
{
    let none = PolicyView::ask_user();
    assert(policy.and(none) =~= policy);
    if 0 <= i < argv.len() {
        let deny = PolicyView { deny_prompts: true, ..none };
        let all = PolicyView { allow_all_user: true, ..none };
        let background = PolicyView { background: true, ..none };
        if argv[i] == "--deny-prompts"@ {
            lemma_add_up(argv, i + 1, policy, deny);
            assert(policy.and(deny) =~= PolicyView { deny_prompts: true, ..policy });
        } else if argv[i] == "--allow-all-user"@ {
            lemma_add_up(argv, i + 1, policy, all);
            assert(policy.and(all) =~= PolicyView { allow_all_user: true, ..policy });
        } else if argv[i] == "--background"@ {
            lemma_add_up(argv, i + 1, policy, background);
            assert(policy.and(background) =~= PolicyView { background: true, ..policy });
        } else if argv[i] == "--allow-session"@ && i + 1 < argv.len() {
            let name = PolicyView { allow_session: seq![argv[i + 1]], ..none };
            lemma_add_up(argv, i + 2, policy, name);
            assert(none.allow_session.push(argv[i + 1]) =~= seq![argv[i + 1]]);
            assert(policy.and(name) =~= PolicyView {
                allow_session: policy.allow_session.push(argv[i + 1]),
                ..policy
            });
        }
    }
}

proof fn lemma_add_up(argv: Seq<Seq<char>>, i: int, first: PolicyView, second: PolicyView)
    ensures
        options_from(argv, i, first.and(second)) == (match options_from(argv, i, second) {
            Ok((p, at)) => Ok::<(PolicyView, int), ErrorView>((first.and(p), at)),
            Err(e) => Err(e),
        }),
    decreases argv.len() - i, 1int,
{
    options_add_up(argv, i, first.and(second));
    options_add_up(argv, i, second);
    if let Ok((p, at)) = options_from(argv, i, PolicyView::ask_user()) {
        assert(first.and(second).and(p) =~= first.and(second.and(p)));
    }
}

/// Words that an option takes up, and the policy that it gives on its own.
pub open spec fn is_option(option: Seq<Seq<char>>, gives: PolicyView) -> bool {
    let none = PolicyView::ask_user();
    ||| option == seq!["--deny-prompts"@] && gives == (PolicyView { deny_prompts: true, ..none })
    ||| option == seq!["--allow-all-user"@] && gives == (PolicyView {
        allow_all_user: true,
        ..none
    })
    ||| option == seq!["--background"@] && gives == (PolicyView { background: true, ..none })
    ||| option.len() == 2 && option[0] == "--allow-session"@ && gives == (PolicyView {
        allow_session: seq![option[1]],
        ..none
    })
}

/// An option that is put in front adds to the policy that the rest gives, and leaves the command
/// behind it as it is.
pub proof fn option_in_front_adds(
    option: Seq<Seq<char>>,
    gives: PolicyView,
    rest: Seq<Seq<char>>,
)
    requires
        is_option(option, gives),
    ensures
        match external_options(rest) {
            Ok((p, at)) => {
                &&& external_options(option + rest) == Ok::<(PolicyView, int), ErrorView>(
                    (gives.and(p), at + option.len()),
                )
                &&& (option + rest).skip(at + option.len()) == rest.skip(at)
            },
            Err(e) => external_options(option + rest) == Err::<(PolicyView, int), ErrorView>(e),
        },
{
    let argv = option + rest;
    let none = PolicyView::ask_user();
    let d = option.len() as int;
    reveal_strlit("--deny-prompts");
    reveal_strlit("--allow-all-user");
    reveal_strlit("--background");
    reveal_strlit("--allow-session");
    assert("--deny-prompts"@.len() == 14 && "--allow-all-user"@.len() == 16);
    assert("--background"@.len() == 12 && "--allow-session"@.len() == 15);
    assert(argv[0] == option[0]);
    if d == 2 {
        assert(argv[1] == option[1]);
        assert(none.allow_session.push(option[1]) =~= seq![option[1]]);
    }
    assert(external_options(argv) == options_from(argv, d, gives));
    assert(argv.skip(d) =~= rest);
    lemma_options_shifted(argv, rest, d, 0, gives);
    options_add_up(rest, 0, gives);
    lemma_options_from(rest, 0, none);
    if let Ok((p, at)) = external_options(rest) {
        assert(argv.skip(at + d) =~= rest.skip(at));
    }
}

proof fn lemma_options_shifted(
    argv: Seq<Seq<char>>,
    rest: Seq<Seq<char>>,
    d: int,
    i: int,
    policy: PolicyView,
)
    requires
        0 <= d <= argv.len(),
        argv.skip(d) == rest,
        0 <= i <= rest.len(),
    ensures
        options_from(argv, d + i, policy) == (match options_from(rest, i, policy) {
            Ok((p, at)) => Ok::<(PolicyView, int), ErrorView>((p, d + at)),
            Err(e) => Err(e),
        }),
    decreases rest.len() - i,
{
    assert(argv.len() == d + rest.len());
    if i < rest.len() {
        assert(argv[d + i] == rest[i]);
        lemma_options_shifted(
            argv,
            rest,
            d,
            i + 1,
            PolicyView { deny_prompts: true, ..policy },
        );
        lemma_options_shifted(
            argv,
            rest,
            d,
            i + 1,
            PolicyView { allow_all_user: true, ..policy },
        );
        lemma_options_shifted(argv, rest, d, i + 1, PolicyView { background: true, ..policy });
        if i + 1 < rest.len() {
            assert(argv[d + i + 1] == rest[i + 1]);
            lemma_options_shifted(
                argv,
                rest,
                d,
                i + 2,
                PolicyView { allow_session: policy.allow_session.push(rest[i + 1]), ..policy },
            );
        }
    }
}

/// Different decisions have different numbers.
pub proof fn decision_numbers_differ(d1: PromptDecision, d2: PromptDecision)
    requires
        service_decision(d1).code() == service_decision(d2).code(),
    ensures
        d1 == d2,
{
}

/// The one who asked is told of a grant only where it is the decision that was made and the
/// capability service answered it with eight bytes of zero. In every other case it is denied.
pub proof fn nothing_is_granted_without_the_service(
    decision: PromptDecision,
    reply: Option<Result<ServiceReply, ShellError>>,
)
    ensures
        told_decision(decision, reply) == decision || told_decision(decision, reply)
            == PromptDecision::Deny,
        told_decision(decision, reply) != PromptDecision::Deny <==> {
            &&& decision != PromptDecision::Deny
            &&& reply matches Some(Ok(answer))
            &&& message_length(answer.msg) >= 8
            &&& u64_at(answer.bytes@, 0) == 0
        },
{
}

/// A denial takes effect without asking the capability service, whatever it would say.
pub proof fn denial_needs_no_service(
    prompt: PendingPrompt,
    reply: Option<Result<ServiceReply, ShellError>>,
)
    ensures
        service_question(prompt, PromptDecision::Deny) is None,
        authorized(PromptDecision::Deny, reply) == Ok::<PromptDecision, ShellError>(
            PromptDecision::Deny,
        ),
{
}

/// The key that is labelled with a letter.
pub open spec fn labelled_key(decision: PromptDecision) -> u16 {
    match decision {
        PromptDecision::AllowOnce => KEY_Y,
        PromptDecision::AllowForProcess => KEY_S,
        PromptDecision::AllowPersistently => KEY_A,
        PromptDecision::AllowAllUserGrantable => KEY_U,
        PromptDecision::Deny => KEY_N,
    }
}

/// The letters that the prompt shows for a decision, small and capital.
pub open spec fn labelled_letters(decision: PromptDecision) -> (char, char) {
    match decision {
        PromptDecision::AllowOnce => ('y', 'Y'),
        PromptDecision::AllowForProcess => ('s', 'S'),
        PromptDecision::AllowPersistently => ('a', 'A'),
        PromptDecision::AllowAllUserGrantable => ('u', 'U'),
        PromptDecision::Deny => ('n', 'N'),
    }
}

/// Every decision can be made with its letter, small or capital, and with the key itself where
/// the event carries no character.
pub proof fn letters_and_keys_agree(decision: PromptDecision, event: InputEvent)
    ensures
        key_decision(labelled_letters(decision).0) == Some(decision),
        key_decision(labelled_letters(decision).1) == Some(decision),
        event.is_key_press() && event.codepoint == 0 && event.keycode == labelled_key(decision)
            ==> event_decision(event) == Some(decision),
{
}

/// Without a denial, and where allowing everything does not apply to the class, a request is
/// granted for the process exactly where its capability is one of those allowed by name, at
/// whatever place it stands among them.
pub proof fn every_named_capability_counts(
    policy: PolicyView,
    request: CapabilityPromptRequest,
    k: int,
)
    requires
        !policy.deny_prompts,
        !policy.allow_all_user || request.capability_class != CapabilityClass::UserGrantable,
    ensures
        0 <= k < policy.allow_session.len() && policy.allow_session[k] == request.capability_text()
            ==> policy_decision(policy, request) == Some(PromptDecision::AllowForProcess),
        (forall|i: int|
            0 <= i < policy.allow_session.len() ==> #[trigger] policy.allow_session[i]
                != request.capability_text()) ==> policy_decision(policy, request) is None,
{
}

/// The answer of a policy: a denial where it denies prompts, everything the user may grant where
/// it allows that and the class is the user's, the process's lifetime where one of the allowed
/// names is that of the capability, and else none. Whether the command runs in the background
/// does not matter.
pub proof fn policy_answers(
    policy: &ExecutionPromptPolicy,
    request: &CapabilityPromptRequest,
    r: Option<PromptDecision>,
)
    requires
        call_ensures(prompt_policy_decision, (policy, request), r),
    ensures
        policy.deny_prompts ==> r == Some(PromptDecision::Deny),
        !policy.deny_prompts && policy.allow_all_user && request.capability_class
            == CapabilityClass::UserGrantable ==> r == Some(PromptDecision::AllowAllUserGrantable),
        !policy.deny_prompts && !(policy.allow_all_user && request.capability_class
            == CapabilityClass::UserGrantable) ==> {
            &&& r == Some(PromptDecision::AllowForProcess) <==> exists|k: int|
                0 <= k < policy.allow_session@.len() && (#[trigger] policy.allow_session@[k])@
                    == request.capability_text()
            &&& r is None || r == Some(PromptDecision::AllowForProcess)
        },
        r == policy_decision(policy@, *request),
{
    let names = policy.allow_session.deep_view();
    if names.contains(request.capability_text()) {
        let k = choose|k: int| 0 <= k < names.len() && names[k] == request.capability_text();
        assert(policy.allow_session@[k]@ == names[k]);
    }
    assert forall|k: int| 0 <= k < policy.allow_session@.len() && (
    #[trigger] policy.allow_session@[k])@ == request.capability_text() implies names.contains(
        request.capability_text(),
    ) by {
        assert(names[k] == request.capability_text());
    }
}

/// A policy decides at once, without looking at the name of the capability, exactly where it
/// denies prompts, or allows everything and the class is the user's.
pub proof fn what_is_decided_at_once(policy: PolicyView, request: CapabilityPromptRequest)
    ensures
        decided_at_once(policy, request) <==> policy.deny_prompts || (policy.allow_all_user
            && request.capability_class == CapabilityClass::UserGrantable),
{
}

/// No words are no options, and an option that names no capability is an error.
pub proof fn options_end_with_the_words(argv: Seq<Seq<char>>)
    ensures
        argv.len() == 0 ==> external_options(argv) == Ok::<(PolicyView, int), ErrorView>(
            (PolicyView::ask_user(), 0),
        ),
        argv.len() == 1 && argv[0] == "--allow-session"@ ==> external_options(argv) == Err::<
            (PolicyView, int),
            ErrorView,
        >(failure(ErrorKind::InvalidInput, "--allow-session requires capability"@)),
        PolicyView::ask_user().allow_session.len() == 0,
        !PolicyView::ask_user().deny_prompts && !PolicyView::ask_user().allow_all_user
            && !PolicyView::ask_user().background,
{
    reveal_strlit("--deny-prompts");
    reveal_strlit("--allow-all-user");
    reveal_strlit("--background");
    reveal_strlit("--allow-session");
    assert("--deny-prompts"@.len() == 14 && "--allow-all-user"@.len() == 16);
    assert("--background"@.len() == 12 && "--allow-session"@.len() == 15);
}

/// The options of a command line give the policy and leave the command behind them: nothing of
/// the command is lost or changed.
pub proof fn command_is_left_behind_the_options(
    argv: &[String],
    r: Result<(ExecutionPromptPolicy, &[String]), ShellError>,
)
    requires
        call_ensures(parse_external_options, (argv,), r),
    ensures
        r matches Ok((policy, rest)) ==> {
            &&& rest@.len() <= argv@.len()
            &&& rest@ == argv@.skip(argv@.len() - rest@.len())
            &&& external_options(argv.deep_view()) == Ok::<(PolicyView, int), ErrorView>(
                (policy@, argv@.len() - rest@.len()),
            )
        },
        r matches Err(e) ==> external_options(argv.deep_view()) == Err::<
            (PolicyView, int),
            ErrorView,
        >(e@),
        r is Err ==> argv@.len() > 0 && argv@.last()@ == "--allow-session"@,
        r matches Err(e) ==> e@ == failure(
            ErrorKind::InvalidInput,
            "--allow-session requires capability"@,
        ),
{
    lemma_option_error(argv.deep_view(), 0, PolicyView::ask_user());
}

proof fn lemma_option_error(argv: Seq<Seq<char>>, i: int, policy: PolicyView)
    requires
        0 <= i <= argv.len(),
    ensures
        options_from(argv, i, policy) matches Err(e) ==> {
            &&& argv.len() > 0
            &&& argv.last() == "--allow-session"@
            &&& e == failure(ErrorKind::InvalidInput, "--allow-session requires capability"@)
        },
    decreases argv.len() - i,
{
    if i < argv.len() {
        lemma_option_error(argv, i + 1, PolicyView { deny_prompts: true, ..policy });
        lemma_option_error(argv, i + 1, PolicyView { allow_all_user: true, ..policy });
        lemma_option_error(argv, i + 1, PolicyView { background: true, ..policy });
        if i + 1 < argv.len() {
            lemma_option_error(
                argv,
                i + 2,
                PolicyView { allow_session: policy.allow_session.push(argv[i + 1]), ..policy },
            );
        }
    }
}

/// A policy without options asks the user about everything.
pub proof fn default_policy_asks(policy: ExecutionPromptPolicy)
    requires
        call_ensures(ExecutionPromptPolicy::default, (), policy),
    ensures
        !policy.deny_prompts && !policy.allow_all_user && !policy.background,
        policy.allow_session@.len() == 0,
{
    assert(policy@.allow_session.len() == policy.allow_session@.len());
}

} // verus!
