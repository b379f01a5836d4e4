//! Starting a program: which way it is started, and the bytes that the kernel is handed.
use crate::error::{failure, ErrorKind, ErrorView, ShellError};
use crate::policy::{ExecutionPromptPolicy, PolicyView};
use crate::text::{decimal_text, ends_with, text_ends_with};
use crate::wire::put_bytes;
use vstd::prelude::*;
use vstd::string::*;
use vstd::utf8::{encode_utf8, is_ascii_chars, is_ascii_chars_encode_utf8};

verus! {

/// The role that an application is started in.
pub const ROLE_APPLICATION: u64 = 3;

/// The way in which a program is started.
#[derive(Clone, Copy, Debug, PartialEq, Eq, Structural)]
pub enum LaunchPlan {
    /// There is nothing to start.
    Nothing,
    /// It is started and only its first request for a capability is waited for.
    Background,
    /// It is started with the capabilities of its manifest and waited for.
    AppBundle,
    /// It is started as a child and waited for.
    Foreground,
}

/// The way in which a command is started. In the background nobody can answer a prompt, so the
/// policy has to allow something.
pub open spec fn launch_plan(argv: Seq<Seq<char>>, policy: PolicyView) -> Result<
    LaunchPlan,
    ErrorView,
> {
    if argv.len() == 0 {
        Ok(LaunchPlan::Nothing)
    } else if policy.background && policy.allow_session.len() == 0 && !policy.allow_all_user {
        Err(
            failure(
                ErrorKind::PermissionDenied,
                "--background requires --allow-session or --allow-all-user"@,
            ),
        )
    } else if policy.background {
        Ok(LaunchPlan::Background)
    } else if ends_with(argv[0], ".app"@) {
        Ok(LaunchPlan::AppBundle)
    } else {
        Ok(LaunchPlan::Foreground)
    }
}

/// Decides in which way a command is started.
pub fn plan_launch(argv: &[String], policy: &ExecutionPromptPolicy) -> (r: Result<
    LaunchPlan,
    ShellError,
>)
    ensures
        match launch_plan(argv.deep_view(), policy@) {
            Ok(plan) => r == Ok::<LaunchPlan, ShellError>(plan),
            Err(e) => r matches Err(m) && m@ == e,
        },
{
    if argv.len() == 0 {
        return Ok(LaunchPlan::Nothing);
    }
    if policy.background && policy.allow_session.len() == 0 && !policy.allow_all_user {
        return Err(
            ShellError::new(
                ErrorKind::PermissionDenied,
                "--background requires --allow-session or --allow-all-user",
            ),
        );
    }
    assert(argv.deep_view()[0] == argv@[0]@);
    if policy.background {
        Ok(LaunchPlan::Background)
    } else if text_ends_with(argv[0].as_str(), ".app") {
        Ok(LaunchPlan::AppBundle)
    } else {
        Ok(LaunchPlan::Foreground)
    }
}

/// How a program is told to treat its prompts.
pub open spec fn prompt_mode_text(policy: PolicyView) -> Seq<char> {
    if policy.deny_prompts {
        "deny"@
    } else {
        "interactive"@
    }
}

/// How a program is told to treat its prompts.
pub fn prompt_mode(policy: &ExecutionPromptPolicy) -> (r: &'static str)
    ensures
        r@ == prompt_mode_text(policy@),
{
    if policy.deny_prompts {
        "deny"
    } else {
        "interactive"
    }
}

/// The variables that a program is started with, each as its name, an equals sign and its value.
pub open spec fn launch_environment(
    path: Seq<char>,
    shell_endpoint: Seq<char>,
    prompt_mode: Seq<char>,
) -> Seq<Seq<char>> {
    seq![
        "MOCHI_EXECUTABLE_PATH="@ + path,
        "MOCHI_SHELL_ENDPOINT="@ + shell_endpoint,
        "MOCHI_PROMPT_MODE="@ + prompt_mode,
    ]
}

/// The variables that a program is started with.
pub fn environment_entries(path: &str, shell_endpoint: &str, prompt_mode: &str) -> (r: Vec<
    String,
>)
    ensures
        r.deep_view() == launch_environment(path@, shell_endpoint@, prompt_mode@),
{
    let mut r: Vec<String> = Vec::new();
    r.push("MOCHI_EXECUTABLE_PATH=".to_string().concat(path));
    r.push("MOCHI_SHELL_ENDPOINT=".to_string().concat(shell_endpoint));
    r.push("MOCHI_PROMPT_MODE=".to_string().concat(prompt_mode));
    assert(r.deep_view() =~= launch_environment(path@, shell_endpoint@, prompt_mode@));
    r
}

/// A text as the kernel reads it: its bytes and a zero byte. A text that holds a zero byte itself
/// has no such form.
pub open spec fn terminated(text: Seq<char>) -> Option<Seq<u8>> {
    if encode_utf8(text).contains(0u8) {
        None
    } else {
        Some(encode_utf8(text).push(0u8))
    }
}

/// Writes a text as the kernel reads it.
pub fn c_string(text: &str) -> (r: Option<Vec<u8>>)
    ensures
        match terminated(text@) {
            Some(bytes) => r matches Some(v) && v@ == bytes,
            None => r is None,
        },
{
    let bytes = text.as_bytes();
    let mut out: Vec<u8> = Vec::new();
    let mut i: usize = 0;
    while i < bytes.len()
        invariant
            bytes@ == encode_utf8(text@),
            i <= bytes@.len(),
            out@ == bytes@.take(i as int),
            forall|j: int| 0 <= j < i ==> bytes@[j] != 0,
        decreases bytes@.len() - i,
    {
        if bytes[i] == 0 {
            assert(bytes@.contains(0u8));
            return None;
        }
        out.push(bytes[i]);
        i = i + 1;
        assert(out@ =~= bytes@.take(i as int));
    }
    assert(bytes@.take(i as int) =~= bytes@);
    out.push(0);
    Some(out)
}

/// The bytes of each text, each with a zero byte behind it.
pub open spec fn nul_list(items: Seq<Seq<char>>) -> Seq<u8>
    decreases items.len(),
{
    if items.len() == 0 {
        seq![]
    } else {
        nul_list(items.drop_last()) + encode_utf8(items.last()).push(0u8)
    }
}

/// Writes texts one after the other, each with a zero byte behind it.
pub fn encode_nul_list(items: &[String]) -> (r: Vec<u8>)
    ensures
        r@ == nul_list(items.deep_view()),
{
    let mut out: Vec<u8> = Vec::new();
    let mut i: usize = 0;
    assert(items.deep_view().take(0) =~= Seq::<Seq<char>>::empty());
    while i < items.len()
        invariant
            i <= items@.len(),
            out@ == nul_list(items.deep_view().take(i as int)),
        decreases items@.len() - i,
    {
        let ghost before = out@;
        put_bytes(&mut out, items[i].as_str().as_bytes());
        out.push(0);
        proof {
            let done = items.deep_view().take(i + 1);
            assert(done.drop_last() =~= items.deep_view().take(i as int));
            assert(done.last() == items@[i as int]@);
            assert(out@ =~= before + encode_utf8(done.last()).push(0u8));
        }
        i = i + 1;
    }
    assert(items.deep_view().take(i as int) =~= items.deep_view());
    out
}

/// What the kernel is handed to start an application.
#[derive(Clone, Debug, PartialEq, Eq)]
pub struct BundleImage {
    /// The program, with a zero byte behind it.
    pub path: Vec<u8>,
    /// The variables and then the arguments, each with a zero byte behind it.
    pub args: Vec<u8>,
}

/// Writes what the kernel is handed to start an application.
pub fn bundle_image(path: &str, args: &[String], shell_endpoint: &str, prompt_mode: &str) -> (r:
    Result<BundleImage, ShellError>)
    ensures
        match terminated(path@) {
            Some(bytes) => {
                &&& r matches Ok(image)
                &&& image.path@ == bytes
                &&& image.args@ == nul_list(
                    launch_environment(path@, shell_endpoint@, prompt_mode@) + args.deep_view(),
                )
            },
            None => r matches Err(m) && m@ == failure(
                ErrorKind::InvalidInput,
                "invalid executable path"@,
            ),
        },
{
    let c_path = match c_string(path) {
        Some(bytes) => bytes,
        None => {
            return Err(ShellError::new(ErrorKind::InvalidInput, "invalid executable path"));
        },
    };
    let mut list = environment_entries(path, shell_endpoint, prompt_mode);
    let ghost environment = list.deep_view();
    let mut i: usize = 0;
    while i < args.len()
        invariant
            i <= args@.len(),
            list.deep_view() == environment + args.deep_view().take(i as int),
        decreases args@.len() - i,
    {
        let ghost before = list.deep_view();
        list.push(args[i].clone());
        assert(list.deep_view() =~= before.push(args.deep_view()[i as int]));
        i = i + 1;
        assert(list.deep_view() =~= environment + args.deep_view().take(i as int));
    }
    assert(args.deep_view().take(i as int) =~= args.deep_view());
    let all = list.as_slice();
    assert(all.deep_view() =~= list.deep_view());
    Ok(BundleImage { path: c_path, args: encode_nul_list(all) })
}

/// What the kernel is handed to start a program directly: its arguments, the first of them the
/// program itself, and its variables, each with a zero byte behind it.
#[derive(Clone, Debug, PartialEq, Eq)]
pub struct ExecImage {
    pub argv: Vec<Vec<u8>>,
    pub envp: Vec<Vec<u8>>,
}

/// What is wrong with the texts that a program is to be started with: the first of them that
/// holds a zero byte.
pub open spec fn direct_error(
    path: Seq<char>,
    args: Seq<Seq<char>>,
    shell_endpoint: Seq<char>,
    prompt_mode: Seq<char>,
) -> Option<Seq<char>> {
    let env = launch_environment(path, shell_endpoint, prompt_mode);
    if terminated(path) is None {
        Some("invalid executable path"@)
    } else if exists|i: int| 0 <= i < args.len() && terminated(#[trigger] args[i]) is None {
        Some("invalid argument"@)
    } else if terminated(env[0]) is None {
        Some("invalid executable path"@)
    } else if terminated(env[1]) is None {
        Some("invalid shell endpoint"@)
    } else if terminated(env[2]) is None {
        Some("invalid prompt mode"@)
    } else {
        None
    }
}

/// Whether each list of bytes is the terminated form of the text at its place.
pub open spec fn all_terminated(list: Seq<Vec<u8>>, texts: Seq<Seq<char>>) -> bool {
    &&& list.len() == texts.len()
    &&& forall|i: int|
        0 <= i < texts.len() ==> terminated(texts[i]) == Some(#[trigger] list[i]@)
}

/// Writes what the kernel is handed to start a program directly.
pub fn direct_image(path: &str, args: &[String], shell_endpoint: &str, prompt_mode: &str) -> (r:
    Result<ExecImage, ShellError>)
    ensures
        match direct_error(path@, args.deep_view(), shell_endpoint@, prompt_mode@) {
            Some(message) => r matches Err(m) && m@ == failure(ErrorKind::InvalidInput, message),
            None => {
                &&& r matches Ok(image)
                &&& all_terminated(image.argv@, seq![path@] + args.deep_view())
                &&& all_terminated(
                    image.envp@,
                    launch_environment(path@, shell_endpoint@, prompt_mode@),
                )
            },
        },
{
    let ghost texts = args.deep_view();
    let c_path = match c_string(path) {
        Some(bytes) => bytes,
        None => {
            return Err(ShellError::new(ErrorKind::InvalidInput, "invalid executable path"));
        },
    };
    let mut argv: Vec<Vec<u8>> = Vec::new();
    argv.push(c_path);
    let mut i: usize = 0;
    while i < args.len()
        invariant
            i <= args@.len(),
            texts == args.deep_view(),
            argv@.len() == i + 1,
            terminated(path@) == Some(argv@[0]@),
            forall|j: int| 0 < j <= i ==> terminated(texts[j - 1]) == Some(#[trigger] argv@[j]@),
        decreases args@.len() - i,
    {
        assert(texts[i as int] == args@[i as int]@);
        match c_string(args[i].as_str()) {
            Some(bytes) => argv.push(bytes),
            None => {
                assert(terminated(texts[i as int]) is None);
                return Err(ShellError::new(ErrorKind::InvalidInput, "invalid argument"));
            },
        }
        i = i + 1;
    }
    proof {
        assert forall|j: int| 0 <= j < texts.len() implies terminated(#[trigger] texts[j])
            !is None by {
            assert(terminated(texts[j]) == Some(argv@[j + 1]@));
        }
        assert(all_terminated(argv@, seq![path@] + texts));
    }
    let entries = environment_entries(path, shell_endpoint, prompt_mode);
    let ghost env = launch_environment(path@, shell_endpoint@, prompt_mode@);
    assert(entries.deep_view().len() == 3);
    assert(env[0] == entries@[0]@ && env[1] == entries@[1]@ && env[2] == entries@[2]@) by {
        assert(entries.deep_view() == env);
        assert(env[0] == entries.deep_view()[0]);
        assert(env[1] == entries.deep_view()[1]);
        assert(env[2] == entries.deep_view()[2]);
    }
    let mut envp: Vec<Vec<u8>> = Vec::new();
    match c_string(entries[0].as_str()) {
        Some(bytes) => envp.push(bytes),
        None => {
            return Err(ShellError::new(ErrorKind::InvalidInput, "invalid executable path"));
        },
    }
    match c_string(entries[1].as_str()) {
        Some(bytes) => envp.push(bytes),
        None => {
            return Err(ShellError::new(ErrorKind::InvalidInput, "invalid shell endpoint"));
        },
    }
    match c_string(entries[2].as_str()) {
        Some(bytes) => envp.push(bytes),
        None => {
            return Err(ShellError::new(ErrorKind::InvalidInput, "invalid prompt mode"));
        },
    }
    Ok(ExecImage { argv, envp })
}

/// The error number in what the kernel returned when it did not start a program: the value
/// without its sign, in 32 bits.
pub open spec fn exec_errno(result: i64) -> u32 {
    if result == i64::MIN {
        i64::MAX as u32
    } else if result < 0 {
        (-result) as u32
    } else {
        result as u32
    }
}

/// What is printed when the kernel did not start a program.
pub open spec fn exec_failure_text(result: i64) -> Seq<char> {
    "msh: execve failed errno="@ + decimal_text(exec_errno(result) as nat) + "\n"@
}

/// Ten to the power `k`.
spec fn power_of_ten(k: nat) -> nat
    decreases k,
{
    if k == 0 {
        1
    } else {
        10 * power_of_ten((k - 1) as nat)
    }
}

/// The digits of a number, and none for zero.
spec fn leading_digits(n: nat) -> Seq<char> {
    if n == 0 {
        seq![]
    } else {
        decimal_text(n)
    }
}

/// The digits that have been split off a number, lowest first in `digits`, in reading order.
spec fn split_off(digits: Seq<u8>, count: int) -> Seq<char> {
    Seq::new(count as nat, |i: int| digits[count - 1 - i] as char)
}

/// Whether the first bytes of `buf` are the given characters of ASCII.
spec fn shows(buf: Seq<u8>, text: Seq<char>) -> bool {
    &&& text.len() <= buf.len()
    &&& forall|i: int|
        0 <= i < text.len() ==> #[trigger] text[i] == buf[i] as char && buf[i] < 128
}

/// One more byte shows one more character.
proof fn lemma_shows_more(buf: Seq<u8>, text: Seq<char>, b: u8)
    requires
        shows(buf, text),
        text.len() < buf.len(),
        b < 128,
    ensures
        shows(buf.update(text.len() as int, b), text.push(b as char)),
{
    let after = buf.update(text.len() as int, b);
    let more = text.push(b as char);
    assert forall|i: int| 0 <= i < more.len() implies #[trigger] more[i] == after[i] as char
        && after[i] < 128 by {
        if i < text.len() {
            assert(text[i] == buf[i] as char);
        }
    }
}

/// Bytes that show characters of ASCII are their encoding.
proof fn lemma_shows(buf: Seq<u8>, text: Seq<char>)
    requires
        shows(buf, text),
    ensures
        buf.take(text.len() as int) == encode_utf8(text),
{
    assert(is_ascii_chars(text));
    is_ascii_chars_encode_utf8(text);
    assert(buf.take(text.len() as int) =~= encode_utf8(text));
}

/// Writes what is printed when the kernel did not start a program, without allocating: the bytes
/// and how many of them there are.
pub fn exec_failure_message(result: i64) -> (r: ([u8; 48], usize))
    ensures
        r.1 <= 48,
        r.0@.take(r.1 as int) == encode_utf8(exec_failure_text(result)),
{
    let errno: u32 = if result == i64::MIN {
        #[verifier::truncate] (i64::MAX as u32)
    } else if result < 0 {
        #[verifier::truncate] ((-result) as u32)
    } else {
        #[verifier::truncate] (result as u32)
    };
    let mut buf = [0u8; 48];
    let prefix = "msh: execve failed errno=".as_bytes();
    let ghost start = "msh: execve failed errno="@;
    proof {
        reveal_strlit("msh: execve failed errno=");
        reveal_strlit("\n");
        assert(is_ascii_chars(start));
        is_ascii_chars_encode_utf8(start);
    }
    let mut len: usize = 0;
    while len < prefix.len()
        invariant
            len <= prefix@.len() == 25,
            start.len() == 25,
            is_ascii_chars(start),
            forall|i: int| 0 <= i < 25 ==> #[trigger] start[i] == prefix@[i] as char && prefix@[i] < 128,
            shows(buf@, start.take(len as int)),
        decreases prefix@.len() - len,
    {
        proof {
            assert(start[len as int] == prefix@[len as int] as char);
            lemma_shows_more(buf@, start.take(len as int), prefix@[len as int]);
            assert(start.take(len + 1) =~= start.take(len as int).push(start[len as int]));
        }
        buf[len] = prefix[len];
        len = len + 1;
    }
    assert(start.take(25) =~= start);
    let ghost mut shown: Seq<char> = start;
    if errno == 0 {
        proof {
            lemma_shows_more(buf@, start, 48);
            shown = start + decimal_text(0);
            assert(shown =~= start.push(48u8 as char));
        }
        buf[len] = 48;
        len = len + 1;
    } else {
        let mut value = errno;
        let mut digits = [0u8; 10];
        let mut digit_len: usize = 0;
        proof {
            reveal_with_fuel(power_of_ten, 11);
            assert(split_off(digits@, 0) =~= Seq::<char>::empty());
            assert(leading_digits(errno as nat) + split_off(digits@, 0) =~= decimal_text(
                errno as nat,
            ));
        }
        while value != 0 && digit_len < 10
            invariant
                digit_len <= 10,
                value < power_of_ten((10 - digit_len) as nat),
                forall|i: int| 0 <= i < digit_len ==> 48 <= #[trigger] digits@[i] <= 57,
                decimal_text(errno as nat) == leading_digits(value as nat) + split_off(
                    digits@,
                    digit_len as int,
                ),
            decreases value,
        {
            let ghost before = digits@;
            let ghost old_value = value;
            digits[digit_len] = 48u8 + (value % 10) as u8;
            value = value / 10;
            digit_len = digit_len + 1;
            proof {
                let d = digits@[digit_len - 1] as char;
                assert(leading_digits(old_value as nat) =~= leading_digits(value as nat).push(d));
                assert(split_off(digits@, digit_len as int) =~= seq![d] + split_off(
                    before,
                    digit_len - 1,
                ));
                assert(leading_digits(old_value as nat) + split_off(before, digit_len - 1)
                    =~= leading_digits(value as nat) + split_off(digits@, digit_len as int));
            }
        }
        assert(value == 0);
        let ghost count = digit_len as int;
        assert(decimal_text(errno as nat) =~= split_off(digits@, count));
        assert(start + decimal_text(errno as nat).take(0) =~= start);
        while digit_len != 0
            invariant
                0 <= digit_len <= count <= 10,
                len == 25 + count - digit_len,
                start.len() == 25,
                forall|i: int| 0 <= i < count ==> 48 <= #[trigger] digits@[i] <= 57,
                decimal_text(errno as nat) == split_off(digits@, count),
                shows(buf@, start + decimal_text(errno as nat).take(count - digit_len)),
            decreases digit_len,
        {
            digit_len = digit_len - 1;
            proof {
                let text = decimal_text(errno as nat);
                let so_far = start + text.take(count - digit_len - 1);
                let d = digits@[digit_len as int];
                assert(text[count - digit_len - 1] == d as char);
                lemma_shows_more(buf@, so_far, d);
                assert(start + text.take(count - digit_len) =~= so_far.push(d as char));
            }
            buf[len] = digits[digit_len];
            len = len + 1;
        }
        proof {
            assert(decimal_text(errno as nat).take(count) =~= decimal_text(errno as nat));
            shown = start + decimal_text(errno as nat);
        }
    }
    proof {
        lemma_shows_more(buf@, shown, 10);
    }
    buf[len] = 10;
    len = len + 1;
    proof {
        assert(exec_failure_text(result) =~= shown.push('\n'));
        lemma_shows(buf@, exec_failure_text(result));
    }
    (buf, len)
}

} // verus!
