use liboverlay::config::Config;
use liboverlay::guard::ReentrancyFlag;
use liboverlay::hooks::{intercept, proceed, Call, O_CREAT, O_WRONLY};
use liboverlay::redir::Action;

fn overlay() -> Config {
    Config { lower_dir: b"/data/lower".to_vec(), upper_dir: b"/data/upper".to_vec(), debug: false }
}

fn kind(action: &Action) -> &'static str {
    match action {
        Action::Exists { .. } => "exists",
        Action::IsFile { .. } => "is_file",
        Action::CreateDirAll { .. } => "mkdir",
        Action::Copy { .. } => "copy",
        Action::ClearReadOnly { .. } => "chmod",
        Action::Finish { target: Some(_) } => "redirect",
        Action::Finish { target: None } => "decline",
    }
}

/// Runs the decision of `call` with the given answers and tells what was
/// asked for; the flag must be set as long as the decision is under way.
fn run(call: &Call, path: &[u8], answers: &[bool]) -> Vec<&'static str> {
    let config = overlay();
    let mut flag = ReentrancyFlag::new();
    let (mut decision, mut action) = intercept(call, &mut flag, Some(&config), path);
    let mut asked = vec![kind(&action)];
    for ok in answers.iter() {
        let under_way = !decision.is_finished();
        assert_eq!(flag.is_active(), under_way);
        if !under_way {
            break;
        }
        action = proceed(&mut decision, &mut flag, *ok);
        asked.push(kind(&action));
    }
    assert!(decision.is_finished(), "not enough answers");
    assert!(!flag.is_active());
    asked
}

#[test]
fn stat_never_copies_up() {
    assert_eq!(run(&Call::Stat, b"/data/lower/x", &[false]), vec!["exists", "decline"]);
    assert_eq!(run(&Call::Stat, b"/data/lower/x", &[true]), vec!["exists", "redirect"]);
    assert_eq!(run(&Call::OpenDir, b"/data/lower/d", &[false]), vec!["exists", "decline"]);
    assert_eq!(run(&Call::OpenDir, b"/data/lower/d", &[true]), vec!["exists", "redirect"]);
    assert_eq!(run(&Call::Open { flags: 0 }, b"/data/lower/x", &[false]), vec!["exists", "decline"]);
    assert_eq!(
        run(&Call::StreamOpen { mode: b"r".to_vec() }, b"/data/lower/x", &[false]),
        vec!["exists", "decline"]
    );
    assert_eq!(
        run(&Call::StreamOpen { mode: b"rb".to_vec() }, b"/data/lower/x", &[false]),
        vec!["exists", "decline"]
    );
    // Truncate alone does not ask for a copy.
    assert_eq!(run(&Call::Open { flags: 0o1000 }, b"/data/lower/x", &[false]), vec!["exists", "decline"]);
}

#[test]
fn writing_calls_copy_up() {
    let whole = vec!["exists", "exists", "mkdir", "is_file", "copy", "chmod", "redirect"];
    let all_fine = [false, true, true, true, true, true];
    assert_eq!(run(&Call::Open { flags: O_WRONLY }, b"/data/lower/x", &all_fine), whole);
    assert_eq!(run(&Call::Open { flags: O_CREAT }, b"/data/lower/x", &all_fine), whole);
    assert_eq!(run(&Call::Open { flags: 0o100 }, b"/data/lower/x", &all_fine), whole);
    assert_eq!(run(&Call::StreamOpen { mode: b"rb+".to_vec() }, b"/data/lower/x", &all_fine), whole);
    assert_eq!(run(&Call::StreamOpen { mode: b"w".to_vec() }, b"/data/lower/x", &all_fine), whole);
    assert_eq!(run(&Call::MakeDir, b"/data/lower/d", &all_fine), whole);
    assert_eq!(
        run(&Call::MakeDir, b"/data/lower/d", &[false, true, true, false]),
        vec!["exists", "exists", "mkdir", "is_file", "redirect"]
    );
    assert_eq!(
        run(&Call::MakeDir, b"/data/lower/d", &[false, false]),
        vec!["exists", "exists", "redirect"]
    );
    assert_eq!(
        run(&Call::MakeDir, b"/data/lower/d", &[false, true, false]),
        vec!["exists", "exists", "mkdir", "decline"]
    );
}

#[test]
fn call_outside_the_overlay_is_not_guarded() {
    let config = overlay();
    let mut flag = ReentrancyFlag::new();
    let (decision, action) = intercept(&Call::MakeDir, &mut flag, Some(&config), b"/tmp/x");
    assert_eq!(kind(&action), "decline");
    assert!(decision.is_finished());
    assert!(!flag.is_active());
    let (_, action) = intercept(&Call::MakeDir, &mut flag, None, b"/data/lower/x");
    assert_eq!(kind(&action), "decline");
    assert!(!flag.is_active());
}

#[test]
fn call_on_a_guarded_thread_is_left_alone() {
    let config = overlay();
    let mut flag = ReentrancyFlag::new();
    let (mut outer, first) = intercept(&Call::MakeDir, &mut flag, Some(&config), b"/data/lower/a/b");
    assert_eq!(kind(&first), "exists");
    assert!(flag.is_active());

    // The work for the outer decision reaches an entry point again.
    let (mut inner, action) =
        intercept(&Call::Open { flags: O_WRONLY }, &mut flag, Some(&config), b"/data/lower/a/b");
    assert!(matches!(action, Action::Finish { target: None }));
    assert!(inner.is_finished());
    assert_eq!(inner.result(), Some(None));
    assert!(flag.is_active());
    let again = proceed(&mut inner, &mut flag, true);
    assert!(matches!(again, Action::Finish { target: None }));
    assert!(flag.is_active());

    // The outer decision goes on and clears the flag at its end.
    let next = proceed(&mut outer, &mut flag, true);
    assert!(matches!(next, Action::Finish { target: Some(ref path) } if path == b"/data/upper/a/b"));
    assert!(!flag.is_active());
    let again = proceed(&mut outer, &mut flag, false);
    assert!(matches!(again, Action::Finish { target: Some(ref path) } if path == b"/data/upper/a/b"));
    assert!(!flag.is_active());
}
