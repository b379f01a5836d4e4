use msh::error::{ErrorKind, ShellError};
use msh::launch::{
    bundle_image, c_string, direct_image, encode_nul_list, environment_entries,
    exec_failure_message, plan_launch, prompt_mode, LaunchPlan, ROLE_APPLICATION,
};
use msh::policy::ExecutionPromptPolicy;
use msh::service::{
    resolve_capabilities, resolve_request, service_endpoint, RESOLVE_REPLY_SIZE,
};
use msh::system::{ipc_try_wait, parse_endpoint_arg, shell_targets, sys_error_to_io};
use msh::wire::{
    put_bytes, put_u16, put_u32, put_u64, put_zeros, read_array, read_u16, read_u32, read_u64,
};

fn words(list: &[&str]) -> Vec<String> {
    list.iter().map(|s| s.to_string()).collect()
}

fn failure(kind: ErrorKind, message: &str) -> ShellError {
    ShellError::Failure { kind, message: message.to_string() }
}

fn message(result: i64) -> String {
    let (buf, len) = exec_failure_message(result);
    String::from_utf8(buf[..len].to_vec()).unwrap()
}

#[test]
fn ways_to_start_a_program() {
    let ask = ExecutionPromptPolicy::default();
    let background = ExecutionPromptPolicy { background: true, ..ExecutionPromptPolicy::default() };
    let allowed = ExecutionPromptPolicy { allow_all_user: true, ..background.clone() };
    let session = ExecutionPromptPolicy { allow_session: words(&["fs"]), ..background.clone() };
    assert_eq!(plan_launch(&[], &background), Ok(LaunchPlan::Nothing));
    assert_eq!(plan_launch(&words(&["ls"]), &ask), Ok(LaunchPlan::Foreground));
    assert_eq!(plan_launch(&words(&["term.app"]), &ask), Ok(LaunchPlan::AppBundle));
    assert_eq!(plan_launch(&words(&["term.app"]), &allowed), Ok(LaunchPlan::Background));
    assert_eq!(plan_launch(&words(&["ls"]), &session), Ok(LaunchPlan::Background));
    assert_eq!(
        plan_launch(&words(&["ls"]), &background),
        Err(failure(
            ErrorKind::PermissionDenied,
            "--background requires --allow-session or --allow-all-user"
        ))
    );
    assert_eq!(ROLE_APPLICATION, 3);
}

#[test]
fn prompt_modes() {
    let deny = ExecutionPromptPolicy { deny_prompts: true, ..ExecutionPromptPolicy::default() };
    assert_eq!(prompt_mode(&deny), "deny");
    assert_eq!(prompt_mode(&ExecutionPromptPolicy::default()), "interactive");
}

#[test]
fn variables_of_a_program() {
    assert_eq!(
        environment_entries("/bin/ls", "7", "deny"),
        ["MOCHI_EXECUTABLE_PATH=/bin/ls", "MOCHI_SHELL_ENDPOINT=7", "MOCHI_PROMPT_MODE=deny"]
    );
}

#[test]
fn terminated_texts() {
    assert_eq!(c_string("é"), Some(vec![0xc3, 0xa9, 0]));
    assert_eq!(c_string(""), Some(vec![0]));
    assert_eq!(c_string("a\0b"), None);
}

#[test]
fn lists_come_apart_at_their_zeros() {
    let list = words(&["a", "", "é b"]);
    let bytes = encode_nul_list(&list);
    assert_eq!(bytes, b"a\0\0\xc3\xa9 b\0");
    let parts: Vec<String> = bytes[..bytes.len() - 1]
        .split(|b| *b == 0)
        .map(|p| String::from_utf8(p.to_vec()).unwrap())
        .collect();
    assert_eq!(parts, list);
    assert_eq!(encode_nul_list(&[]), b"");
}

#[test]
fn lists_join() {
    let a = words(&["x", ""]);
    let b = words(&["y"]);
    let mut joined = encode_nul_list(&a);
    joined.extend(encode_nul_list(&b));
    assert_eq!(encode_nul_list(&words(&["x", "", "y"])), joined);
}

#[test]
fn image_of_an_application() {
    let image = bundle_image("/a", &words(&["x", "y"]), "7", "deny").unwrap();
    assert_eq!(image.path, b"/a\0");
    assert_eq!(
        image.args,
        b"MOCHI_EXECUTABLE_PATH=/a\0MOCHI_SHELL_ENDPOINT=7\0MOCHI_PROMPT_MODE=deny\0x\0y\0"
    );
    assert_eq!(
        bundle_image("/a\0", &[], "7", "deny"),
        Err(failure(ErrorKind::InvalidInput, "invalid executable path"))
    );
    assert!(bundle_image("/a", &words(&["x\0"]), "7", "deny").is_ok());
}

#[test]
fn image_of_a_program() {
    let image = direct_image("/a", &words(&["x"]), "7", "deny").unwrap();
    assert_eq!(image.argv, [b"/a\0".to_vec(), b"x\0".to_vec()]);
    assert_eq!(
        image.envp,
        [
            b"MOCHI_EXECUTABLE_PATH=/a\0".to_vec(),
            b"MOCHI_SHELL_ENDPOINT=7\0".to_vec(),
            b"MOCHI_PROMPT_MODE=deny\0".to_vec(),
        ]
    );
    let error = |path: &str, arg: &str, endpoint: &str, mode: &str| {
        direct_image(path, &words(&["ok", arg]), endpoint, mode).unwrap_err()
    };
    let invalid = |text: &str| failure(ErrorKind::InvalidInput, text);
    assert_eq!(error("a\0", "b\0", "c\0", "d\0"), invalid("invalid executable path"));
    assert_eq!(error("a", "b\0", "c\0", "d\0"), invalid("invalid argument"));
    assert_eq!(error("a", "b", "c\0", "d\0"), invalid("invalid shell endpoint"));
    assert_eq!(error("a", "b", "c", "d\0"), invalid("invalid prompt mode"));
}

#[test]
fn messages_of_failed_starts() {
    assert_eq!(message(-2), "msh: execve failed errno=2\n");
    assert_eq!(message(13), "msh: execve failed errno=13\n");
    assert_eq!(message(0), "msh: execve failed errno=0\n");
    assert_eq!(message(-1234567890), "msh: execve failed errno=1234567890\n");
    assert_eq!(message(i64::MIN), "msh: execve failed errno=4294967295\n");
    assert_eq!(message(1 << 32), "msh: execve failed errno=0\n");
    assert_eq!(message(-(1 << 32) - 7), "msh: execve failed errno=7\n");
}

#[test]
fn finding_the_service() {
    assert_eq!(service_endpoint(9), Ok(9));
    assert_eq!(
        service_endpoint(0),
        Err(failure(ErrorKind::NotFound, "capability.service not found"))
    );
    assert_eq!(resolve_request("/é"), [0x53, 0x50, 0x41, 0x43, b'/', 0xc3, 0xa9]);
}

#[test]
fn capabilities_of_a_program() {
    let mut reply = [0u8; RESOLVE_REPLY_SIZE];
    reply[8..12].copy_from_slice(b"fs\0x");
    assert_eq!(resolve_capabilities(11, &reply), Ok(b"fs\0".to_vec()));
    assert_eq!(resolve_capabilities(5 << 32 | 8, &reply), Ok(vec![]));
    assert_eq!(resolve_capabilities(1024, &reply).unwrap().len(), 1016);
    let invalid = Err(failure(ErrorKind::InvalidData, "invalid capability.service reply"));
    assert_eq!(resolve_capabilities(7, &reply), invalid);
    assert_eq!(resolve_capabilities(1025, &reply), invalid);
    reply[0] = 13;
    assert_eq!(resolve_capabilities(11, &reply), Err(ShellError::Os(13)));
    reply[0..8].copy_from_slice(&u64::MAX.to_le_bytes());
    assert_eq!(resolve_capabilities(11, &reply), Err(ShellError::Os(-1)));
}

#[test]
fn errors_of_system_calls() {
    assert_eq!(sys_error_to_io(-22), ShellError::Os(22));
    assert_eq!(sys_error_to_io(-1), ShellError::Os(1));
    assert_eq!(sys_error_to_io(7), ShellError::Os(-5));
    assert_eq!(sys_error_to_io(0), ShellError::Os(-5));
    assert_eq!(sys_error_to_io(-(1 << 32) - 3), ShellError::Os(3));
}

#[test]
fn waiting_without_blocking() {
    assert_eq!(ipc_try_wait(Ok(0)), Ok(Some(0)));
    assert_eq!(ipc_try_wait(Ok(77)), Ok(Some(77)));
    assert_eq!(ipc_try_wait(Err(-11)), Ok(None));
    assert_eq!(ipc_try_wait(Err(-4)), Err(ShellError::Os(4)));
    assert_eq!(ipc_try_wait(Err(11)), Err(ShellError::Os(-5)));
}

#[test]
fn endpoint_argument() {
    assert_eq!(parse_endpoint_arg(&words(&["msh", "42", "x"])), Ok(42));
    assert_eq!(parse_endpoint_arg(&words(&["msh", "+7"])), Ok(7));
    let missing = Err(failure(ErrorKind::InvalidInput, "missing endpoint arg"));
    assert_eq!(parse_endpoint_arg(&words(&["msh"])), missing);
    assert_eq!(parse_endpoint_arg(&[]), missing);
    let invalid = Err(failure(ErrorKind::InvalidInput, "invalid endpoint arg"));
    assert_eq!(parse_endpoint_arg(&words(&["msh", "x"])), invalid);
    assert_eq!(parse_endpoint_arg(&words(&["msh", ""])), invalid);
    assert_eq!(parse_endpoint_arg(&words(&["msh", "-1"])), invalid);
}

#[test]
fn what_the_terminal_is_told() {
    assert_eq!(
        shell_targets(0x0102, u64::MAX),
        [2, 1, 0, 0, 0, 0, 0, 0, 255, 255, 255, 255, 255, 255, 255, 255]
    );
}

#[test]
fn numbers_in_messages() {
    let mut out = Vec::new();
    put_u16(&mut out, 0x0102);
    put_u32(&mut out, 0x0304_0506);
    put_u64(&mut out, 0x0708_090a_0b0c_0d0e);
    put_zeros(&mut out, 2);
    put_bytes(&mut out, b"xyz");
    assert_eq!(out[0..6], [2, 1, 6, 5, 4, 3]);
    assert_eq!(out[6..14], 0x0708_090a_0b0c_0d0eu64.to_le_bytes());
    assert_eq!(out[14..], [0, 0, b'x', b'y', b'z']);
    assert_eq!(read_u16(&out, 0), 0x0102);
    assert_eq!(read_u32(&out, 2), 0x0304_0506);
    assert_eq!(read_u64(&out, 6), 0x0708_090a_0b0c_0d0e);
    let tail: [u8; 3] = read_array(&out, 16);
    assert_eq!(tail, *b"xyz");
}
