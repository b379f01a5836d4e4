use msh::capability::{
    parse_capability_request, put_request, CapabilityClass, CapabilityExecutableIdentity,
    CapabilityPromptRequest, CapabilityResourceDescriptor, CAPABILITY_PROMPT_OPCODE,
    PROMPT_REQUEST_SIZE,
};
use msh::error::{ErrorKind, ShellError};
use msh::policy::{parse_external_options, prompt_policy_decision, ExecutionPromptPolicy};
use msh::prompt::{
    authorization_request, authorize_prompt_decision, capability_decision, capability_prompt_text,
    decision_from_key, message_len, prompt_decision_value, reply_prompt, CapabilityDecision,
    PendingPrompt, PromptDecision, ServiceReply, CAPABILITY_SERVICE_NAME,
};

fn fill<const N: usize>(text: &str) -> [u8; N] {
    let mut out = [0u8; N];
    out[..text.len()].copy_from_slice(text.as_bytes());
    out
}

fn request(capability: &str, class: CapabilityClass) -> CapabilityPromptRequest {
    CapabilityPromptRequest {
        opcode: CAPABILITY_PROMPT_OPCODE,
        process_id: 0x0102_0304_0506_0708,
        executable: CapabilityExecutableIdentity {
            path_len: 8,
            reserved: 0x1112,
            digest: [7; 32],
            path: fill("/bin/app"),
        },
        capability_class: class,
        capability_len: capability.len() as u16,
        resource: CapabilityResourceDescriptor {
            kind: 0x2122_2324,
            path_len: 4,
            reserved: 0x3132,
            path: fill("/tmp"),
        },
        reason_len: 0x4142,
        interactive: 1,
        decision_scope: 2,
        reserved0: 0x5152,
        capability: fill(capability),
        reason: fill("because"),
    }
}

fn bytes_of(request: &CapabilityPromptRequest) -> Vec<u8> {
    let mut out = Vec::new();
    put_request(&mut out, request);
    out
}

fn words(list: &[&str]) -> Vec<String> {
    list.iter().map(|s| s.to_string()).collect()
}

fn policy(options: &[&str]) -> ExecutionPromptPolicy {
    parse_external_options(&words(options)).unwrap().0
}

#[test]
fn the_layout_of_a_request() {
    let bytes = bytes_of(&request("fs.read", CapabilityClass::Privileged));
    assert_eq!(bytes.len(), PROMPT_REQUEST_SIZE);
    assert_eq!(bytes.len(), 784);
    assert_eq!(bytes[0..4], [0x51, 0x52, 0x50, 0x43]);
    assert_eq!(bytes[4..8], [0, 0, 0, 0]);
    assert_eq!(bytes[8..16], [8, 7, 6, 5, 4, 3, 2, 1]);
    assert_eq!(bytes[16..20], [8, 0, 0x12, 0x11]);
    assert_eq!(bytes[20..52], [7; 32]);
    assert_eq!(bytes[52..60], *b"/bin/app");
    assert_eq!(bytes[308..312], [2, 0, 0, 0]);
    assert_eq!(bytes[312..316], [7, 0, 0, 0]);
    assert_eq!(bytes[316..324], [0x24, 0x23, 0x22, 0x21, 4, 0, 0x32, 0x31]);
    assert_eq!(bytes[324..328], *b"/tmp");
    assert_eq!(bytes[580..586], [0x42, 0x41, 1, 2, 0x52, 0x51]);
    assert_eq!(bytes[586..593], *b"fs.read");
    assert_eq!(bytes[650..657], *b"because");
    assert_eq!(bytes[778..784], [0; 6]);
}

#[test]
fn a_request_reads_back() {
    for class in
        [CapabilityClass::UserGrantable, CapabilityClass::Privileged, CapabilityClass::SystemOnly]
    {
        let sent = request("net.connect", class);
        let mut bytes = bytes_of(&sent);
        assert_eq!(parse_capability_request(&bytes), Some(sent));
        bytes.extend_from_slice(b"more");
        assert_eq!(parse_capability_request(&bytes), Some(sent));
    }
}

#[test]
fn other_messages_are_no_requests() {
    let bytes = bytes_of(&request("a", CapabilityClass::UserGrantable));
    assert_eq!(parse_capability_request(&bytes[..783]), None);
    assert_eq!(parse_capability_request(&[]), None);
    let mut other_opcode = bytes.clone();
    other_opcode[0] = 0x50;
    assert_eq!(parse_capability_request(&other_opcode), None);
    for class in [0u8, 4, 255] {
        let mut other_class = bytes.clone();
        other_class[308] = class;
        assert_eq!(parse_capability_request(&other_class), None);
    }
}

#[test]
fn texts_of_a_request() {
    let mut r = request("fs.read", CapabilityClass::UserGrantable);
    assert_eq!(r.capability(), "fs.read");
    assert_eq!(r.executable_path(), "/bin/app");
    assert_eq!(r.resource_path(), Some("/tmp"));
    assert!(r.is_showable());
    r.resource.path_len = 0;
    assert_eq!(r.resource_path(), None);
    r.capability[0] = 0xff;
    assert_eq!(r.capability(), "");
    r.executable.path[0] = 0xff;
    assert_eq!(r.executable_path(), "");
    r.resource.path_len = 1;
    r.resource.path[0] = 0xff;
    assert_eq!(r.resource_path(), None);
    r.capability_len = 65;
    assert!(!r.is_showable());
    r.capability_len = 64;
    assert!(r.is_showable());
    r.executable.path_len = 257;
    assert!(!r.is_showable());
    r.executable.path_len = 256;
    r.resource.path_len = 257;
    assert!(!r.is_showable());
}

#[test]
fn empty_request() {
    let r = CapabilityPromptRequest::default();
    assert_eq!(r.opcode, 0);
    assert_eq!(r.capability_class, CapabilityClass::UserGrantable);
    assert_eq!(bytes_of(&r).iter().filter(|b| **b != 0).count(), 1);
    assert_eq!(r.executable, CapabilityExecutableIdentity::default());
    assert_eq!(r.resource, CapabilityResourceDescriptor::default());
    assert_eq!(CapabilityClass::default(), CapabilityClass::UserGrantable);
}

#[test]
fn options_before_a_command() {
    let argv = words(&[
        "--deny-prompts", "--allow-session", "fs.read", "--background", "--allow-session", "--",
        "--allow-all-user", "ls", "--deny-prompts",
    ]);
    let (p, rest) = parse_external_options(&argv).unwrap();
    assert!(p.deny_prompts && p.background && p.allow_all_user);
    assert_eq!(p.allow_session, ["fs.read", "--"]);
    assert_eq!(rest, ["ls", "--deny-prompts"]);
}

#[test]
fn an_option_in_front_adds() {
    let rest = words(&["--allow-session", "b", "--background", "ls", "-l"]);
    let (base, command) = parse_external_options(&rest).unwrap();
    let with = |option: &[&str]| {
        let mut argv = words(option);
        argv.extend(rest.iter().cloned());
        let (p, behind) = parse_external_options(&argv).unwrap();
        assert_eq!(behind, command);
        p
    };
    assert_eq!(
        with(&["--deny-prompts"]),
        ExecutionPromptPolicy { deny_prompts: true, ..base.clone() }
    );
    assert_eq!(
        with(&["--allow-all-user"]),
        ExecutionPromptPolicy { allow_all_user: true, ..base.clone() }
    );
    assert_eq!(with(&["--background"]), base.clone());
    assert_eq!(
        with(&["--allow-session", "a"]),
        ExecutionPromptPolicy { allow_session: words(&["a", "b"]), ..base.clone() }
    );
    assert!(parse_external_options(&words(&["--background", "--allow-session"])).is_err());
}

#[test]
fn double_dash_ends_the_options() {
    let argv = words(&["--", "--background", "x"]);
    let (p, rest) = parse_external_options(&argv).unwrap();
    assert_eq!(p, ExecutionPromptPolicy::default());
    assert_eq!(rest, ["--background", "x"]);
}

#[test]
fn a_command_without_options_stays_whole() {
    let argv = words(&["ls", "-l"]);
    let (p, rest) = parse_external_options(&argv).unwrap();
    assert_eq!(p, ExecutionPromptPolicy::default());
    assert_eq!(rest, ["ls", "-l"]);
    let (_, none) = parse_external_options(&argv[..0]).unwrap();
    assert!(none.is_empty());
}

#[test]
fn option_without_its_capability() {
    assert_eq!(
        parse_external_options(&words(&["--allow-session"])).unwrap_err(),
        ShellError::Failure {
            kind: ErrorKind::InvalidInput,
            message: "--allow-session requires capability".to_string(),
        }
    );
}

#[test]
fn policies_answer_requests() {
    let user = request("fs.read", CapabilityClass::UserGrantable);
    let privileged = request("fs.read", CapabilityClass::Privileged);
    let ask = policy(&[]);
    assert_eq!(prompt_policy_decision(&ask, &user), None);
    let deny = policy(&["--deny-prompts", "--allow-all-user", "--allow-session", "fs.read"]);
    assert_eq!(prompt_policy_decision(&deny, &user), Some(PromptDecision::Deny));
    let all = policy(&["--allow-all-user"]);
    assert_eq!(
        prompt_policy_decision(&all, &user),
        Some(PromptDecision::AllowAllUserGrantable)
    );
    assert_eq!(prompt_policy_decision(&all, &privileged), None);
    let session = policy(&["--allow-session", "net", "--allow-session", "fs.read"]);
    assert_eq!(
        prompt_policy_decision(&session, &privileged),
        Some(PromptDecision::AllowForProcess)
    );
    let other = policy(&["--allow-session", "fs.rea"]);
    assert_eq!(prompt_policy_decision(&other, &user), None);
    let both = policy(&["--allow-session", "fs.read", "--allow-all-user"]);
    assert_eq!(
        prompt_policy_decision(&both, &user),
        Some(PromptDecision::AllowAllUserGrantable)
    );
}

#[test]
fn letters_of_the_prompt() {
    for (letters, decision) in [
        ("yY", PromptDecision::AllowOnce),
        ("sS", PromptDecision::AllowForProcess),
        ("aA", PromptDecision::AllowPersistently),
        ("uU", PromptDecision::AllowAllUserGrantable),
        ("nN", PromptDecision::Deny),
    ] {
        for c in letters.chars() {
            assert_eq!(decision_from_key(c), Some(decision));
        }
    }
    assert_eq!(decision_from_key('x'), None);
    assert_eq!(decision_from_key('\0'), None);
}

#[test]
fn numbers_of_the_decisions() {
    assert_eq!(prompt_decision_value(PromptDecision::AllowOnce), 1);
    assert_eq!(prompt_decision_value(PromptDecision::AllowForProcess), 2);
    assert_eq!(prompt_decision_value(PromptDecision::AllowPersistently), 3);
    assert_eq!(prompt_decision_value(PromptDecision::AllowAllUserGrantable), 4);
    assert_eq!(prompt_decision_value(PromptDecision::Deny), 5);
    assert_eq!(capability_decision(PromptDecision::AllowOnce), CapabilityDecision::AllowOnce);
    assert_eq!(capability_decision(PromptDecision::Deny).value(), 5);
}

#[test]
fn text_of_the_prompt() {
    let mut r = request("fs.read", CapabilityClass::UserGrantable);
    let expected = "\n/bin/app is requesting an additional permission.\n\nPermission:\n  fs.read\n\n\
        Resource:\n  /tmp\n\n[y] Allow once\n[s] Allow for this process\n\
        [a] Always allow this permission\n\
        [u] Allow all user-grantable permissions without asking again\n[n] Deny\n";
    assert_eq!(capability_prompt_text(&r), expected);
    r.resource.path_len = 0;
    assert_eq!(capability_prompt_text(&r), expected.replace("/tmp", "(none)"));
}

#[test]
fn words_of_messages() {
    assert_eq!(message_len(0x0000_0007_0000_0310), 784);
    assert_eq!(message_len(0xffff_ffff_0000_0000), 0);
}

#[test]
fn question_to_the_service() {
    let prompt = PendingPrompt {
        sender: 9,
        request: request("fs.read", CapabilityClass::UserGrantable),
    };
    assert_eq!(CAPABILITY_SERVICE_NAME, "capability.service");
    assert_eq!(authorization_request(&prompt, PromptDecision::Deny), None);
    let bytes = authorization_request(&prompt, PromptDecision::AllowPersistently).unwrap();
    assert_eq!(bytes.len(), 800);
    assert_eq!(bytes[0..8], [0x44, 0x52, 0x50, 0x43, 3, 0, 0, 0]);
    assert_eq!(bytes[8..16], [8, 7, 6, 5, 4, 3, 2, 1]);
    assert_eq!(parse_capability_request(&bytes[16..]), Some(prompt.request));
}

#[test]
fn the_service_has_to_agree() {
    let reply = |msg: u64, bytes: [u8; 8]| Some(Ok(ServiceReply { msg, bytes }));
    let once = PromptDecision::AllowOnce;
    assert_eq!(authorize_prompt_decision(once, reply(8, [0; 8])), Ok(once));
    assert_eq!(authorize_prompt_decision(once, reply(9 << 32 | 8, [0; 8])), Ok(once));
    assert_eq!(authorize_prompt_decision(once, reply(7, [0; 8])), Ok(PromptDecision::Deny));
    assert_eq!(
        authorize_prompt_decision(once, reply(8, [0, 0, 0, 0, 0, 0, 0, 1])),
        Ok(PromptDecision::Deny)
    );
    assert_eq!(
        authorize_prompt_decision(once, Some(Err(ShellError::Os(2)))),
        Err(ShellError::Os(2))
    );
    assert_eq!(authorize_prompt_decision(once, None), Ok(PromptDecision::Deny));
    assert_eq!(
        authorize_prompt_decision(PromptDecision::Deny, Some(Err(ShellError::Os(2)))),
        Ok(PromptDecision::Deny)
    );
}

#[test]
fn answer_to_the_one_who_asked() {
    let agreed = || Some(Ok(ServiceReply { msg: 8, bytes: [0; 8] }));
    assert_eq!(reply_prompt(PromptDecision::AllowForProcess, agreed()), [2, 0, 0, 0, 0, 0, 0, 0]);
    assert_eq!(reply_prompt(PromptDecision::Deny, None), [5, 0, 0, 0, 0, 0, 0, 0]);
    assert_eq!(
        reply_prompt(PromptDecision::AllowForProcess, Some(Err(ShellError::Os(1)))),
        [5, 0, 0, 0, 0, 0, 0, 0]
    );
}
