use liboverlay::config::{get_config, if_debug, Config};
use liboverlay::guard::{with_reentrancy_guard, ReentrancyFlag};
use liboverlay::hooks::{
    fopen_write_intent, open_write_intent, write_intent, Call, O_CREAT, O_RDWR, O_WRONLY,
};

fn some(text: &str) -> Option<Vec<u8>> {
    Some(text.as_bytes().to_vec())
}

#[test]
fn from_env_needs_both_directories() {
    assert!(Config::from_env(None, None, None).is_none());
    assert!(Config::from_env(some("/l"), None, some("1")).is_none());
    assert!(Config::from_env(None, some("/u"), some("1")).is_none());
    let config = Config::from_env(some("/data/lower"), some("/data/upper"), None).unwrap();
    assert_eq!(config.lower_dir, b"/data/lower".to_vec());
    assert_eq!(config.upper_dir, b"/data/upper".to_vec());
    assert!(!config.debug);
}

#[test]
fn from_env_keeps_absolute_directories_byte_for_byte() {
    let config = Config::from_env(some("/data//lower/./"), some("/"), None).unwrap();
    assert_eq!(config.lower_dir, b"/data//lower/./".to_vec());
    assert_eq!(config.upper_dir, b"/".to_vec());
    let config =
        Config::from_env(Some(vec![b'/', 0xff, 0x00]), Some(vec![b'/', b'/']), None).unwrap();
    assert_eq!(config.lower_dir, vec![b'/', 0xff, 0x00]);
    assert_eq!(config.upper_dir, vec![b'/', b'/']);
}

#[test]
fn from_env_gives_no_context_for_a_relative_directory() {
    for (lower, upper) in [
        ("lower/", ""),
        ("l", ""),
        ("", "/data/upper"),
        ("/data/lower", ""),
        ("data/lower", "/data/upper"),
        ("/data/lower", "data/upper"),
        ("./lower", "/data/upper"),
        ("/data/lower", "../upper"),
        (" /data/lower", "/data/upper"),
    ] {
        for debug in [None, some("1")] {
            let config = Config::from_env(some(lower), some(upper), debug);
            assert!(config.is_none(), "{:?} {:?}", lower, upper);
            // Nothing is logged without a context.
            let mut ran = false;
            if_debug(get_config(&config), || ran = true);
            assert!(!ran);
        }
    }
}

#[test]
fn from_env_switches_debug_on_for_one_only() {
    for (value, expected) in [
        (some("1"), true),
        (some("0"), false),
        (some(""), false),
        (some("11"), false),
        (some("true"), false),
        (some(" 1"), false),
        (None, false),
    ] {
        let config = Config::from_env(some("/l"), some("/u"), value.clone()).unwrap();
        assert_eq!(config.debug, expected, "{:?}", value);
    }
}

#[test]
fn get_config_hands_out_the_context() {
    let absent: Option<Config> = None;
    assert!(get_config(&absent).is_none());
    let present = Config::from_env(some("/l"), some("/u"), some("1"));
    let config = get_config(&present).unwrap();
    assert_eq!(config.lower_dir, b"/l".to_vec());
    assert_eq!(config.upper_dir, b"/u".to_vec());
    assert!(config.debug);
}

#[test]
fn if_debug_runs_only_with_debug_on() {
    let quiet = Config { lower_dir: b"/l".to_vec(), upper_dir: b"/u".to_vec(), debug: false };
    let loud = Config { lower_dir: b"/l".to_vec(), upper_dir: b"/u".to_vec(), debug: true };

    let mut ran = false;
    if_debug(None, || ran = true);
    assert!(!ran);

    let mut ran = false;
    if_debug(Some(&quiet), || ran = true);
    assert!(!ran);

    let mut runs = 0;
    if_debug(Some(&loud), || runs += 1);
    assert_eq!(runs, 1);
}

#[test]
fn guard_runs_the_call_once_with_the_flag_set_and_restores_it() {
    let flag = ReentrancyFlag::new();
    assert!(!flag.is_active());
    let mut runs = 0;
    let mut set_inside = false;
    let (flag, got) = with_reentrancy_guard(flag, 7, |held| {
        runs += 1;
        set_inside = held.is_active();
        (held, 42)
    });
    assert_eq!(got, 42);
    assert_eq!(runs, 1);
    assert!(set_inside);
    assert!(!flag.is_active());
}

#[test]
fn guard_hands_back_the_default_when_already_guarded() {
    let mut flag = ReentrancyFlag::new();
    assert!(flag.enter());
    assert!(flag.is_active());
    let mut ran = false;
    let (mut flag, got) = with_reentrancy_guard(flag, "default", |held| {
        ran = true;
        (held, "called")
    });
    assert_eq!(got, "default");
    assert!(!ran);
    assert!(flag.is_active());
    assert!(!flag.enter());
    assert!(flag.is_active());
    flag.leave();
    assert!(!flag.is_active());
    let (flag, got) = with_reentrancy_guard(flag, "default", |held| (held, "called"));
    assert_eq!(got, "called");
    assert!(!flag.is_active());
}

#[test]
fn guarded_call_inside_a_guarded_call_returns_its_default() {
    let flag = ReentrancyFlag::new();
    let mut inner_ran = false;
    let (flag, got) = with_reentrancy_guard(flag, 0, |held| {
        with_reentrancy_guard(held, 1, |inner| {
            inner_ran = true;
            (inner, 2)
        })
    });
    assert_eq!(got, 1);
    assert!(!inner_ran);
    assert!(!flag.is_active());
    // Once the outer call is over, the thread is free again.
    let (flag, got) = with_reentrancy_guard(flag, 1, |held| (held, 2));
    assert_eq!(got, 2);
    assert!(!flag.is_active());
}

#[test]
fn guard_clears_the_flag_whatever_the_call_hands_back() {
    let flag = ReentrancyFlag::new();
    let (flag, got) = with_reentrancy_guard(flag, 0, |mut held| {
        held.leave();
        (held, 5)
    });
    assert_eq!(got, 5);
    assert!(!flag.is_active());
    let (flag, _) = with_reentrancy_guard(flag, 0, |_held| (ReentrancyFlag::new(), 5));
    assert!(!flag.is_active());
}

#[test]
fn guards_of_two_threads_are_independent() {
    let mut one = ReentrancyFlag::new();
    let two = ReentrancyFlag::new();
    assert!(one.enter());
    let (two, got) = with_reentrancy_guard(two, 0, |held| (held, 1));
    assert_eq!(got, 1);
    let (one, got) = with_reentrancy_guard(one, 0, |held| (held, 1));
    assert_eq!(got, 0);
    assert!(one.is_active());
    assert!(!two.is_active());
}

#[test]
fn open_flags_decide_the_write_intent() {
    assert_eq!(O_WRONLY, 0o1);
    assert_eq!(O_RDWR, 0o2);
    assert_eq!(O_CREAT, 0o100);
    assert!(!open_write_intent(0));
    assert!(open_write_intent(O_WRONLY));
    assert!(open_write_intent(O_RDWR));
    assert!(open_write_intent(O_CREAT));
    assert!(open_write_intent(O_CREAT | O_WRONLY));
    assert!(open_write_intent(0x43));
    assert!(open_write_intent(-1));
    // Truncate, append, non-blocking and close-on-exec alone do not write.
    assert!(!open_write_intent(0o1000));
    assert!(!open_write_intent(0o2000));
    assert!(!open_write_intent(0o4000));
    assert!(!open_write_intent(0o2000000));
    assert!(!open_write_intent(0x7fffffbc));
    assert!(open_write_intent(0x7fffffbc | O_RDWR));
    assert!(open_write_intent(0x7fffffbc | O_CREAT));
    assert!(!open_write_intent(i32::MIN));
}

#[test]
fn stream_mode_decides_the_write_intent() {
    for mode in [&b"r"[..], b"rb", b"rt", b"re", b"rbe", b"rr", b"r,ccs=UTF-8"] {
        assert!(!fopen_write_intent(mode), "{:?}", mode);
    }
    for mode in [&b"w"[..], b"a", b"r+", b"rb+", b"r+b", b"w+", b"wb", b"a+", b"", b"R", b"br", b"+"] {
        assert!(fopen_write_intent(mode), "{:?}", mode);
    }
}

#[test]
fn each_call_has_its_write_intent() {
    assert!(write_intent(&Call::MakeDir));
    assert!(!write_intent(&Call::Stat));
    assert!(!write_intent(&Call::OpenDir));
    assert!(!write_intent(&Call::Open { flags: 0 }));
    assert!(write_intent(&Call::Open { flags: O_CREAT }));
    assert!(!write_intent(&Call::StreamOpen { mode: b"r".to_vec() }));
    assert!(!write_intent(&Call::StreamOpen { mode: b"rb".to_vec() }));
    assert!(write_intent(&Call::StreamOpen { mode: b"r+".to_vec() }));
    assert!(write_intent(&Call::StreamOpen { mode: b"a+".to_vec() }));
}
