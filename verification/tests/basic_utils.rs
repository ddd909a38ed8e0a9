use std::cell::RefCell;

use hako::deps::{Clock, Hostname, Rng, Sleeper, Uname, UnameInfo};

struct FixedClock(u64);

impl Clock for FixedClock {
    fn now(&self) -> Option<u64> {
        Some(self.0)
    }
}

struct ConstRng(u64);

impl Rng for ConstRng {
    fn next_u64(&mut self) -> u64 {
        self.0
    }
}

struct FakeSleeper(RefCell<Vec<u64>>);

impl FakeSleeper {
    fn new() -> Self {
        Self(RefCell::new(Vec::new()))
    }
}

impl Sleeper for FakeSleeper {
    fn sleep(&self, seconds: u64) {
        self.0.borrow_mut().push(seconds);
    }
}

struct FakeHostname(&'static str);

impl Hostname for FakeHostname {
    fn hostname(&self) -> Result<String, String> {
        Ok(self.0.to_string())
    }
}

struct FakeUname;

impl Uname for FakeUname {
    fn uname(&self) -> Result<UnameInfo, String> {
        Ok(UnameInfo {
            sysname: "Linux".into(),
            nodename: "mybox".into(),
            release: "6.1.0".into(),
            version: "#1 SMP".into(),
            machine: "x86_64".into(),
        })
    }
}

#[test]
fn no_args() {
    let mut buf = String::new();
    hako::hello::run(&mut buf, &[]).unwrap();
    assert_eq!(buf, "hello\n");
}

#[test]
fn one_arg() {
    let mut buf = String::new();
    hako::hello::run(&mut buf, &["alice".into()]).unwrap();
    assert_eq!(buf, "hello alice\n");
}

#[test]
fn multiple_args() {
    let mut buf = String::new();
    hako::hello::run(&mut buf, &["alice".into(), "bob".into()]).unwrap();
    assert_eq!(buf, "hello alice and bob\n");
}

#[test]
fn midnight() {
    let mut buf = String::new();
    hako::time::run(&mut buf, &FixedClock(0)).unwrap();
    assert_eq!(buf, "00:00:00 UTC\n");
}

#[test]
fn noon() {
    let mut buf = String::new();
    hako::time::run(&mut buf, &FixedClock(43200)).unwrap();
    assert_eq!(buf, "12:00:00 UTC\n");
}

#[test]
fn time_of_day_wraps_each_day() {
    let mut buf = String::new();
    hako::time::run(&mut buf, &FixedClock(86400 + 3661)).unwrap();
    assert_eq!(buf, "01:01:01 UTC\n");
}

#[test]
fn in_range() {
    let mut buf = String::new();
    hako::rand::run(&mut buf, &mut ConstRng(42)).unwrap();
    assert_eq!(buf, "43\n");
}

#[test]
fn wraps_at_100() {
    let mut buf = String::new();
    hako::rand::run(&mut buf, &mut ConstRng(100)).unwrap();
    assert_eq!(buf, "1\n");
}

#[test]
fn random_value_reaches_100() {
    let mut buf = String::new();
    hako::rand::run(&mut buf, &mut ConstRng(99)).unwrap();
    assert_eq!(buf, "100\n");
}

#[test]
fn system_rng_steps_by_xorshift() {
    let mut rng = hako::deps::SystemRng::from_state(1);
    let v = rng.step();
    let mut x: u64 = 1;
    x ^= x << 13;
    x ^= x >> 7;
    x ^= x << 17;
    assert_eq!(v, x);
}

#[test]
fn sleeps_for_seconds() {
    let sleeper = FakeSleeper::new();
    let mut out = String::new();
    hako::sleep::run(&mut out, &sleeper, &["5".into()]).unwrap();
    assert_eq!(*sleeper.0.borrow(), vec![5]);
    assert!(out.is_empty());
}

#[test]
fn zero_seconds_is_allowed() {
    let sleeper = FakeSleeper::new();
    let mut out = String::new();
    hako::sleep::run(&mut out, &sleeper, &["0".into()]).unwrap();
    assert_eq!(*sleeper.0.borrow(), vec![0]);
}

#[test]
fn requires_one_arg() {
    let sleeper = FakeSleeper::new();
    let mut out = String::new();
    assert!(hako::sleep::run(&mut out, &sleeper, &[]).is_err());
    assert!(sleeper.0.borrow().is_empty());
}

#[test]
fn rejects_invalid_seconds() {
    let sleeper = FakeSleeper::new();
    let mut out = String::new();
    assert!(hako::sleep::run(&mut out, &sleeper, &["1.5".into()]).is_err());
    assert!(hako::sleep::run(&mut out, &sleeper, &["-1".into()]).is_err());
    assert!(sleeper.0.borrow().is_empty());
}

#[test]
fn sleep_error_messages() {
    let sleeper = FakeSleeper::new();
    let mut out = String::new();
    assert_eq!(hako::sleep::run(&mut out, &sleeper, &[]).unwrap_err(), "usage: sleep <seconds>");
    assert_eq!(
        hako::sleep::run(&mut out, &sleeper, &["x".into()]).unwrap_err(),
        "seconds must be a non-negative integer"
    );
}

#[test]
fn prints_hostname() {
    let mut out = String::new();
    hako::hostname::run(&mut out, &FakeHostname("mybox")).unwrap();
    assert_eq!(out, "mybox\n");
}

#[test]
fn default_prints_sysname() {
    let mut out = String::new();
    hako::uname::run(&mut out, &FakeUname, &[]).unwrap();
    assert_eq!(out, "Linux\n");
}

#[test]
fn dash_a_prints_all() {
    let mut out = String::new();
    hako::uname::run(&mut out, &FakeUname, &["-a".into()]).unwrap();
    assert_eq!(out, "Linux mybox 6.1.0 #1 SMP x86_64\n");
}

#[test]
fn dash_r_prints_release() {
    let mut out = String::new();
    hako::uname::run(&mut out, &FakeUname, &["-r".into()]).unwrap();
    assert_eq!(out, "6.1.0\n");
}

#[test]
fn multiple_flags() {
    let mut out = String::new();
    hako::uname::run(&mut out, &FakeUname, &["-s".into(), "-m".into()]).unwrap();
    assert_eq!(out, "Linux x86_64\n");
}
