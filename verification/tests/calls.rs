use riptables::caller::{outcome, CallAction, CallEvent, Exit, IptablesCaller, LockAttempt};
use riptables::error::RIPTError;

fn words(items: &[&str]) -> Vec<String> {
    items.iter().map(|item| item.to_string()).collect()
}

fn exit(code: Option<i32>) -> Exit {
    Exit { code, stdout: "out".to_string(), stderr: "err".to_string() }
}

#[test]
fn outcome_of_each_exit() {
    assert_eq!(outcome(exit(Some(0))), Ok((0, "out".to_string())));
    assert_eq!(outcome(exit(Some(1))), Ok((1, "err".to_string())));
    assert_eq!(outcome(exit(Some(-3))), Ok((-3, "err".to_string())));
    assert_eq!(outcome(exit(None)), Err(RIPTError::Other("None output code")));
}

#[test]
fn call_with_native_wait() {
    let mut call = IptablesCaller::new("iptables", words(&["-t", "nat", "-S"]), true);
    assert!(!call.is_locked());
    assert_eq!(
        call.step(CallEvent::Begin),
        CallAction::Run("iptables", words(&["-t", "nat", "-S", "--wait"]))
    );
    assert!(!call.is_locked());
    assert!(!call.is_over());
    assert_eq!(
        call.step(CallEvent::Exited(exit(Some(0)))),
        CallAction::Return(Ok((0, "out".to_string())))
    );
    assert!(call.is_over());
}

#[test]
fn call_under_the_lock_file() {
    let mut call = IptablesCaller::new("ip6tables", words(&["-t", "nat", "-F"]), false);
    assert_eq!(call.step(CallEvent::Begin), CallAction::OpenLockFile("/var/run/xtables_old.lock"));
    assert_eq!(call.step(CallEvent::LockFileOpened), CallAction::TryLock);
    assert!(!call.is_locked());
    assert_eq!(call.step(CallEvent::Lock(LockAttempt::Contended)), CallAction::TryLock);
    assert_eq!(call.step(CallEvent::Lock(LockAttempt::Contended)), CallAction::TryLock);
    assert!(!call.is_locked());
    assert_eq!(
        call.step(CallEvent::Lock(LockAttempt::Acquired)),
        CallAction::Run("ip6tables", words(&["-t", "nat", "-F"]))
    );
    assert!(call.is_locked());
    assert_eq!(
        call.step(CallEvent::Exited(exit(Some(4)))),
        CallAction::Return(Ok((4, "err".to_string())))
    );
    assert!(!call.is_locked());
    assert!(call.is_over());
}

#[test]
fn call_ended_by_signal() {
    let mut call = IptablesCaller::new("iptables", words(&["-S"]), true);
    let _ = call.step(CallEvent::Begin);
    assert_eq!(
        call.step(CallEvent::Exited(exit(None))),
        CallAction::Return(Err(RIPTError::Other("None output code")))
    );
}

#[test]
fn call_without_lock_file() {
    let mut call = IptablesCaller::new("iptables", words(&["-S"]), false);
    let _ = call.step(CallEvent::Begin);
    assert_eq!(
        call.step(CallEvent::LockFileRefused("Permission denied".to_string())),
        CallAction::Return(Err(RIPTError::Io("Permission denied".to_string())))
    );
    assert!(call.is_over());
    assert!(!call.is_locked());
}

#[test]
fn call_with_failed_lock() {
    let mut call = IptablesCaller::new("iptables", words(&["-S"]), false);
    let _ = call.step(CallEvent::Begin);
    let _ = call.step(CallEvent::LockFileOpened);
    assert_eq!(
        call.step(CallEvent::Lock(LockAttempt::Failed(9))),
        CallAction::Return(Err(RIPTError::Nix(9)))
    );
    assert!(call.is_over());
}

#[test]
fn call_that_cannot_start() {
    let mut call = IptablesCaller::new("iptables", words(&["-S"]), false);
    let _ = call.step(CallEvent::Begin);
    let _ = call.step(CallEvent::LockFileOpened);
    let _ = call.step(CallEvent::Lock(LockAttempt::Acquired));
    assert!(call.is_locked());
    assert_eq!(
        call.step(CallEvent::NotStarted("No such file or directory".to_string())),
        CallAction::Return(Err(RIPTError::Io("No such file or directory".to_string())))
    );
    assert!(!call.is_locked());
}

#[test]
fn call_driven_out_of_turn() {
    let refused = CallAction::Return(Err(RIPTError::Other("the call was not waiting for this")));
    let mut call = IptablesCaller::new("iptables", words(&["-S"]), false);
    assert_eq!(call.step(CallEvent::Exited(exit(Some(0)))), refused);
    assert!(call.is_over());
    assert_eq!(call.step(CallEvent::Begin), refused);
    let mut call = IptablesCaller::new("iptables", words(&["-S"]), true);
    let _ = call.step(CallEvent::Begin);
    assert_eq!(call.step(CallEvent::Lock(LockAttempt::Acquired)), refused);
    assert!(!call.is_locked());
    let mut call = IptablesCaller::new("iptables", words(&["-S"]), false);
    let _ = call.step(CallEvent::Begin);
    assert_eq!(call.step(CallEvent::Lock(LockAttempt::Acquired)), refused);
    assert!(!call.is_locked());
}

#[test]
fn tables_make_their_calls() {
    let old = riptables::new(false, "iptables v1.4.19".to_string()).unwrap();
    let mut call = old.execute(words(&["-t", "nat", "-S"]));
    assert_eq!(call.step(CallEvent::Begin), CallAction::OpenLockFile("/var/run/xtables_old.lock"));
    let recent = riptables::new(true, "ip6tables v1.4.20".to_string()).unwrap();
    let mut call = recent.execute(words(&["-t", "nat", "-S"]));
    assert_eq!(
        call.step(CallEvent::Begin),
        CallAction::Run("ip6tables", words(&["-t", "nat", "-S", "--wait"]))
    );
}

#[test]
fn exit_from_bytes_of_text() {
    let exit = Exit::from_bytes(Some(0), b"-P INPUT ACCEPT\n", b"");
    assert_eq!(exit.code, Some(0));
    assert_eq!(exit.stdout, "-P INPUT ACCEPT\n");
    assert_eq!(exit.stderr, "");
    let exit = Exit::from_bytes(None, "gr\u{fc}n".as_bytes(), "\u{83ef}\u{6587}".as_bytes());
    assert_eq!(exit.code, None);
    assert_eq!(exit.stdout, "gr\u{fc}n");
    assert_eq!(exit.stderr, "\u{83ef}\u{6587}");
}

#[test]
fn exit_from_bytes_that_are_no_text() {
    let exit = Exit::from_bytes(Some(2), &[b'a', 0xff, b'b'], &[0xc3, 0x28, 0xe2, 0x82]);
    assert_eq!(exit.code, Some(2));
    assert_eq!(exit.stdout, "a\u{fffd}b");
    assert_eq!(exit.stderr, "\u{fffd}(\u{fffd}");
    assert_eq!(outcome(exit), Ok((2, "\u{fffd}(\u{fffd}".to_string())));
}
