//! What holds of every launch: the kernel gets back the texts that were written for it, and no
//! program runs unattended without a permission.
use crate::error::{failure, ErrorKind, ErrorView, ShellError};
use crate::launch::{
    bundle_image, c_string, direct_image, encode_nul_list, environment_entries, exec_errno,
    exec_failure_message, launch_environment, launch_plan, nul_list, plan_launch, prompt_mode,
    terminated, BundleImage, ExecImage, LaunchPlan,
};
use crate::policy::{ExecutionPromptPolicy, PolicyView};
use crate::text::{decimal_text, ends_with};
use crate::text_laws::end_stands_behind_something;
use vstd::prelude::*;
use vstd::string::*;
use vstd::utf8::{encode_utf8, encode_utf8_decode_utf8};

verus! {

/// The first index at or after `i` that holds a zero byte, or the end.
pub open spec fn find_zero(b: Seq<u8>, i: int) -> int
    decreases b.len() - i,
{
    if 0 <= i < b.len() && b[i] != 0 {
        find_zero(b, i + 1)
    } else {
        i
    }
}

/// The runs of bytes from index `i` on that a zero byte ends.
pub open spec fn split_at_zeros(b: Seq<u8>, i: int) -> Seq<Seq<u8>>
    decreases b.len() - i,
{
    let end = find_zero(b, i);
    if 0 <= i <= end < b.len() {
        seq![b.subrange(i, end)] + split_at_zeros(b, end + 1)
    } else {
        seq![]
    }
}

proof fn lemma_find_zero(b: Seq<u8>, i: int, at: int)
    requires
        0 <= i <= at < b.len(),
        b[at] == 0,
        forall|k: int| i <= k < at ==> b[k] != 0,
    ensures
        find_zero(b, i) == at,
    decreases at - i,
{
    if i < at {
        lemma_find_zero(b, i + 1, at);
    }
}

proof fn lemma_nul_list_front(items: Seq<Seq<char>>)
    requires
        items.len() > 0,
    ensures
        nul_list(items) == encode_utf8(items[0]).push(0u8) + nul_list(items.drop_first()),
    decreases items.len(),
{
    if items.len() == 1 {
        assert(items.drop_last() =~= Seq::<Seq<char>>::empty());
        assert(items.drop_first() =~= Seq::<Seq<char>>::empty());
        assert(nul_list(items.drop_last()) =~= Seq::<u8>::empty());
        assert(nul_list(items) =~= encode_utf8(items[0]).push(0u8) + nul_list(items.drop_first()));
    } else {
        lemma_nul_list_front(items.drop_last());
        assert(items.drop_last().drop_first() =~= items.drop_first().drop_last());
        assert(nul_list(items) =~= encode_utf8(items[0]).push(0u8) + nul_list(items.drop_first()));
    }
}

proof fn lemma_split(b: Seq<u8>, i: int, items: Seq<Seq<char>>)
    requires
        0 <= i <= b.len(),
        b.skip(i) == nul_list(items),
        forall|k: int| 0 <= k < items.len() ==> terminated(#[trigger] items[k]) is Some,
    ensures
        split_at_zeros(b, i) == items.map_values(|t: Seq<char>| encode_utf8(t)),
    decreases items.len(),
{
    let f = |t: Seq<char>| encode_utf8(t);
    if items.len() == 0 {
        assert(b.skip(i).len() == 0);
        assert(split_at_zeros(b, i) =~= items.map_values(f));
    } else {
        lemma_nul_list_front(items);
        let first = encode_utf8(items[0]);
        let rest = items.drop_first();
        let at = i + first.len();
        assert(b.skip(i).len() == b.len() - i);
        assert(nul_list(items).len() == first.len() + 1 + nul_list(rest).len());
        assert(terminated(items[0]) is Some);
        assert(!first.contains(0u8));
        assert forall|k: int| i <= k < at implies b[k] != 0 by {
            assert(b.skip(i)[k - i] == first.push(0u8)[k - i]);
            assert(first[k - i] != 0) by {
                if first[k - i] == 0 {
                    assert(first.contains(0u8));
                }
            }
        }
        assert(b.skip(i)[first.len() as int] == 0);
        assert(b[at] == 0);
        lemma_find_zero(b, i, at);
        assert(b.subrange(i, at) =~= first) by {
            assert forall|k: int| 0 <= k < first.len() implies b.subrange(i, at)[k]
                == first[k] by {
                assert(b.skip(i)[k] == first.push(0u8)[k]);
            }
        }
        assert(b.skip(at + 1) =~= nul_list(rest)) by {
            assert forall|k: int| 0 <= k < nul_list(rest).len() implies b.skip(at + 1)[k]
                == nul_list(rest)[k] by {
                assert(b.skip(i)[first.len() + 1 + k] == nul_list(rest)[k]);
            }
        }
        assert forall|k: int| 0 <= k < rest.len() implies terminated(#[trigger] rest[k])
            is Some by {
            assert(rest[k] == items[k + 1]);
        }
        lemma_split(b, at + 1, rest);
        assert(split_at_zeros(b, i) =~= items.map_values(f));
    }
}

/// Texts without zero bytes that are written one after the other come apart again at the zero
/// bytes, in order and unchanged.
pub proof fn nul_list_comes_apart(items: Seq<Seq<char>>)
    requires
        forall|k: int| 0 <= k < items.len() ==> terminated(#[trigger] items[k]) is Some,
    ensures
        split_at_zeros(nul_list(items), 0) == items.map_values(|t: Seq<char>| encode_utf8(t)),
{
    assert(nul_list(items).skip(0) =~= nul_list(items));
    lemma_split(nul_list(items), 0, items);
}

/// Two lists that are written one after the other are written as one list is.
pub proof fn nul_lists_join(a: Seq<Seq<char>>, b: Seq<Seq<char>>)
    ensures
        nul_list(a + b) == nul_list(a) + nul_list(b),
    decreases b.len(),
{
    if b.len() == 0 {
        assert(a + b =~= a);
        assert(nul_list(a) + nul_list(b) =~= nul_list(a));
    } else {
        nul_lists_join(a, b.drop_last());
        assert((a + b).drop_last() =~= a + b.drop_last());
        assert((a + b).last() == b.last());
        assert(nul_list(a + b) =~= nul_list(a) + nul_list(b));
    }
}

/// Different lists of texts without zero bytes are written differently.
pub proof fn nul_list_tells_lists_apart(a: Seq<Seq<char>>, b: Seq<Seq<char>>)
    requires
        forall|k: int| 0 <= k < a.len() ==> terminated(#[trigger] a[k]) is Some,
        forall|k: int| 0 <= k < b.len() ==> terminated(#[trigger] b[k]) is Some,
        nul_list(a) == nul_list(b),
    ensures
        a == b,
{
    let f = |t: Seq<char>| encode_utf8(t);
    nul_list_comes_apart(a);
    nul_list_comes_apart(b);
    assert(a.map_values(f) == b.map_values(f));
    assert(a.map_values(f).len() == b.map_values(f).len());
    assert forall|k: int| 0 <= k < a.len() implies a[k] == b[k] by {
        assert(a.map_values(f)[k] == b.map_values(f)[k]);
        encode_utf8_decode_utf8(a[k]);
        encode_utf8_decode_utf8(b[k]);
    }
    assert(a =~= b);
}

/// A command starts in the background only where the policy says so and allows something; the
/// same policy without the background option is never refused.
pub proof fn background_needs_a_permission(argv: Seq<Seq<char>>, policy: PolicyView)
    ensures
        launch_plan(argv, policy) matches Ok(plan) ==> (plan == LaunchPlan::Background
            ==> policy.background && (policy.allow_all_user || policy.allow_session.len() > 0)),
        !policy.background ==> launch_plan(argv, policy) is Ok,
{
}

/// How a command is started: not at all without words, and not in the background unless something
/// is allowed. Otherwise the background goes first, then an application, which is a command whose
/// first word ends in `.app`, and then the foreground.
pub proof fn first_word_and_policy_decide_the_way(
    argv: &[String],
    policy: &ExecutionPromptPolicy,
    r: Result<LaunchPlan, ShellError>,
    front: Seq<char>,
)
    requires
        call_ensures(plan_launch, (argv, policy), r),
    ensures
        argv@.len() == 0 ==> r == Ok::<LaunchPlan, ShellError>(LaunchPlan::Nothing),
        argv@.len() > 0 && policy.background && policy.allow_session@.len() == 0
            && !policy.allow_all_user ==> (r matches Err(e) && e@ == failure(
            ErrorKind::PermissionDenied,
            "--background requires --allow-session or --allow-all-user"@,
        )),
        argv@.len() > 0 && policy.background && (policy.allow_session@.len() > 0
            || policy.allow_all_user) ==> r == Ok::<LaunchPlan, ShellError>(
            LaunchPlan::Background,
        ),
        argv@.len() > 0 && !policy.background && argv@[0]@ == front + ".app"@ ==> r == Ok::<
            LaunchPlan,
            ShellError,
        >(LaunchPlan::AppBundle),
        argv@.len() > 0 && !policy.background && !ends_with(argv@[0]@, ".app"@) ==> r == Ok::<
            LaunchPlan,
            ShellError,
        >(LaunchPlan::Foreground),
{
    assert(policy@.allow_session.len() == policy.allow_session@.len());
    assert(argv.deep_view().len() == argv@.len());
    if argv@.len() > 0 {
        assert(argv.deep_view()[0] == argv@[0]@);
        end_stands_behind_something(argv@[0]@, front, ".app"@);
    }
}

/// Only the first word of a command matters to the way in which it is started.
pub proof fn arguments_do_not_change_the_way(
    a: Seq<Seq<char>>,
    b: Seq<Seq<char>>,
    policy: PolicyView,
)
    requires
        a.len() > 0,
        b.len() > 0,
        a[0] == b[0],
    ensures
        launch_plan(a, policy) == launch_plan(b, policy),
        !policy.background ==> (launch_plan(a, policy) == Ok::<LaunchPlan, ErrorView>(
            LaunchPlan::AppBundle,
        ) <==> ends_with(a[0], ".app"@)),
        !policy.background ==> (launch_plan(a, policy) == Ok::<LaunchPlan, ErrorView>(
            LaunchPlan::Foreground,
        ) <==> !ends_with(a[0], ".app"@)),
{
}

/// A program is told to deny prompts exactly where its policy does.
pub proof fn mode_follows_the_policy(policy: &ExecutionPromptPolicy, r: &str)
    requires
        call_ensures(prompt_mode, (policy,), r),
    ensures
        policy.deny_prompts ==> r@ == "deny"@,
        !policy.deny_prompts ==> r@ == "interactive"@,
{
}

/// A program is told its path, the endpoint of the shell and the mode of its prompts.
pub proof fn program_is_told_three_things(
    path: &str,
    endpoint: &str,
    mode: &str,
    r: Vec<String>,
)
    requires
        call_ensures(environment_entries, (path, endpoint, mode), r),
    ensures
        r@.len() == 3,
        r@[0]@ == "MOCHI_EXECUTABLE_PATH="@ + path@,
        r@[1]@ == "MOCHI_SHELL_ENDPOINT="@ + endpoint@,
        r@[2]@ == "MOCHI_PROMPT_MODE="@ + mode@,
{
    assert(r.deep_view().len() == r@.len());
    assert(r.deep_view()[0] == r@[0]@);
    assert(r.deep_view()[1] == r@[1]@);
    assert(r.deep_view()[2] == r@[2]@);
}

/// A text is handed to the kernel as its bytes and a zero, and refused exactly where it holds a
/// zero itself.
pub proof fn texts_are_terminated(text: &str, r: Option<Vec<u8>>)
    requires
        call_ensures(c_string, (text,), r),
    ensures
        r is None <==> exists|i: int|
            0 <= i < encode_utf8(text@).len() && #[trigger] encode_utf8(text@)[i] == 0,
        r matches Some(bytes) ==> bytes@ == encode_utf8(text@) + seq![0u8],
{
    if let Some(bytes) = r {
        assert(bytes@ =~= encode_utf8(text@) + seq![0u8]);
    }
}

/// A list is written text by text, each with a zero behind it.
pub proof fn lists_are_written_text_by_text(items: &[String], r: Vec<u8>)
    requires
        call_ensures(encode_nul_list, (items,), r),
    ensures
        items@.len() == 0 ==> r@.len() == 0,
        items@.len() == 1 ==> r@ == encode_utf8(items@[0]@).push(0u8),
        r@ == nul_list(items.deep_view()),
{
    let list = items.deep_view();
    assert(list.len() == items@.len());
    if list.len() == 1 {
        assert(list.drop_last() =~= Seq::<Seq<char>>::empty());
        assert(nul_list(list.drop_last()) =~= Seq::<u8>::empty());
        assert(list.last() == items@[0]@);
        assert(r@ =~= encode_utf8(items@[0]@).push(0u8));
    }
}

/// One text alone is written as its bytes and a zero.
pub proof fn one_text_is_written(text: Seq<char>)
    ensures
        nul_list(seq![]) == Seq::<u8>::empty(),
        nul_list(seq![text]) == encode_utf8(text).push(0u8),
{
    assert(seq![text].drop_last() =~= Seq::<Seq<char>>::empty());
    assert(nul_list(Seq::<Seq<char>>::empty()) =~= Seq::<u8>::empty());
    assert(nul_list(seq![text]) =~= encode_utf8(text).push(0u8));
}

/// An application is handed its path and, in one list, what it is told and then its arguments. A
/// path that holds a zero is refused; arguments are not looked at.
pub proof fn application_is_handed_variables_and_arguments(
    path: &str,
    args: &[String],
    endpoint: &str,
    mode: &str,
    r: Result<BundleImage, ShellError>,
    told: Vec<String>,
)
    requires
        call_ensures(bundle_image, (path, args, endpoint, mode), r),
        call_ensures(environment_entries, (path, endpoint, mode), told),
    ensures
        r is Err <==> encode_utf8(path@).contains(0u8),
        r matches Ok(image) ==> image.path@ == encode_utf8(path@).push(0u8) && image.args@
            == nul_list(told.deep_view()) + nul_list(args.deep_view()),
        r matches Err(e) ==> e@ == failure(ErrorKind::InvalidInput, "invalid executable path"@),
{
    nul_lists_join(told.deep_view(), args.deep_view());
}

/// A program that is started directly is handed its path as its first argument, then its
/// arguments, and what it is told as its variables, each with a zero behind it.
pub proof fn program_is_handed_path_arguments_and_variables(
    path: &str,
    args: &[String],
    endpoint: &str,
    mode: &str,
    r: Result<ExecImage, ShellError>,
)
    requires
        call_ensures(direct_image, (path, args, endpoint, mode), r),
    ensures
        r matches Ok(image) ==> {
            &&& image.argv@.len() == args@.len() + 1
            &&& image.argv@[0]@ == encode_utf8(path@).push(0u8)
            &&& forall|i: int|
                0 <= i < args@.len() ==> image.argv@[i + 1]@ == encode_utf8(
                    (#[trigger] args@[i])@,
                ).push(0u8)
            &&& image.envp@.len() == 3
            &&& image.envp@[0]@ == encode_utf8("MOCHI_EXECUTABLE_PATH="@ + path@).push(0u8)
            &&& image.envp@[1]@ == encode_utf8("MOCHI_SHELL_ENDPOINT="@ + endpoint@).push(0u8)
            &&& image.envp@[2]@ == encode_utf8("MOCHI_PROMPT_MODE="@ + mode@).push(0u8)
        },
{
    if let Ok(image) = r {
        let texts = seq![path@] + args.deep_view();
        let env = launch_environment(path@, endpoint@, mode@);
        assert(terminated(texts[0]) == Some(image.argv@[0]@));
        assert forall|i: int| 0 <= i < args@.len() implies image.argv@[i + 1]@ == encode_utf8(
            (#[trigger] args@[i])@,
        ).push(0u8) by {
            assert(texts[i + 1] == args.deep_view()[i]);
            assert(terminated(texts[i + 1]) == Some(image.argv@[i + 1]@));
        }
        assert(terminated(env[0]) == Some(image.envp@[0]@));
        assert(terminated(env[1]) == Some(image.envp@[1]@));
        assert(terminated(env[2]) == Some(image.envp@[2]@));
    }
}

/// A program that is started directly is refused for the first of its texts that holds a zero:
/// its path, an argument, and then what it is told.
pub proof fn zeros_are_refused(
    path: &str,
    args: &[String],
    endpoint: &str,
    mode: &str,
    r: Result<ExecImage, ShellError>,
)
    requires
        call_ensures(direct_image, (path, args, endpoint, mode), r),
    ensures
        ({
            let bad_path = terminated(path@) is None;
            let bad_argument = exists|i: int|
                0 <= i < args@.len() && terminated((#[trigger] args@[i])@) is None;
            let bad_told = terminated("MOCHI_EXECUTABLE_PATH="@ + path@) is None;
            let bad_endpoint = terminated("MOCHI_SHELL_ENDPOINT="@ + endpoint@) is None;
            let bad_mode = terminated("MOCHI_PROMPT_MODE="@ + mode@) is None;
            let message = if bad_path {
                "invalid executable path"@
            } else if bad_argument {
                "invalid argument"@
            } else if bad_told {
                "invalid executable path"@
            } else if bad_endpoint {
                "invalid shell endpoint"@
            } else {
                "invalid prompt mode"@
            };
            &&& r is Err <==> bad_path || bad_argument || bad_told || bad_endpoint || bad_mode
            &&& r matches Err(e) ==> e@ == failure(ErrorKind::InvalidInput, message)
        }),
{
    let texts = args.deep_view();
    assert(texts.len() == args@.len());
    assert forall|i: int| 0 <= i < texts.len() implies #[trigger] texts[i] == args@[i]@ by {}
    if exists|i: int| 0 <= i < texts.len() && terminated(#[trigger] texts[i]) is None {
        let i = choose|i: int| 0 <= i < texts.len() && terminated(#[trigger] texts[i]) is None;
        assert(terminated(args@[i]@) is None);
    }
    if exists|i: int| 0 <= i < args@.len() && terminated((#[trigger] args@[i])@) is None {
        let i = choose|i: int|
            0 <= i < args@.len() && terminated((#[trigger] args@[i])@) is None;
        assert(terminated(texts[i]) is None);
    }
}

/// What is printed when the kernel did not start a program is the error number in decimal: the
/// result without its sign, as far as 32 bits hold it.
pub proof fn failed_start_shows_the_error_number(result: i64, r: ([u8; 48], usize))
    requires
        call_ensures(exec_failure_message, (result,), r),
    ensures
        ({
            let size: int = if result < 0 {
                -result
            } else {
                result as int
            };
            let errno = if result == i64::MIN {
                0xffff_ffff
            } else {
                size % 0x1_0000_0000
            };
            &&& r.1 <= 48
            &&& exec_errno(result) == errno
            &&& r.0@.take(r.1 as int) == encode_utf8(
                "msh: execve failed errno="@ + decimal_text(errno as nat) + "\n"@,
            )
        }),
{
    if result == i64::MIN {
        assert(i64::MAX as u32 == 0xffff_ffffu32) by (bit_vector);
    } else {
        let size: i64 = if result < 0 {
            (-result) as i64
        } else {
            result
        };
        assert(size >= 0 ==> size as u32 == size % 0x1_0000_0000) by (bit_vector);
    }
}

} // verus!
