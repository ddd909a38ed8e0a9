//! The services that the utilities depend on. Each utility takes them as
//! parameters, so that the program passes the system implementations and
//! tests pass fakes.
use vstd::prelude::*;

use crate::ipv4::Ipv4Addr;

verus! {

/// The fields of `uname(2)`.
pub struct UnameInfo {
    pub sysname: String,
    pub nodename: String,
    pub release: String,
    pub version: String,
    pub machine: String,
}

pub trait Hostname {
    fn hostname(&self) -> Result<String, String>;
}

pub trait Uname {
    fn uname(&self) -> Result<UnameInfo, String>;
}

pub trait Clock {
    /// Seconds since the Unix epoch, or `None` when the clock is before it.
    fn now(&self) -> Option<u64>;
}

pub trait Sleeper {
    fn sleep(&self, seconds: u64);
}

pub trait Rng {
    fn next_u64(&mut self) -> u64;
}

pub trait Fs {
    fn read(&self, path: &str) -> Result<String, String>;

    fn write(&self, path: &str, content: &str) -> Result<(), String>;

    fn is_file(&self, path: &str) -> bool;
}

pub trait DirFs: Fs {
    fn read_bytes(&self, path: &str) -> Result<Vec<u8>, String>;

    fn write_bytes(&self, path: &str, content: &[u8]) -> Result<(), String>;

    fn create_dir_all(&self, path: &str) -> Result<(), String>;

    fn is_dir(&self, path: &str) -> bool;

    fn list_dir(&self, path: &str) -> Result<Vec<String>, String>;
}

pub trait Env {
    fn vars(&self) -> Vec<(String, String)>;

    fn var(&self, key: &str) -> Option<String>;
}

pub trait Whois {
    fn query(&self, server: &str, query: &str) -> Result<String, String>;
}

pub trait Dns {
    fn lookup_a(&self, domain: &str) -> Result<Vec<Ipv4Addr>, String>;

    fn lookup_ptr(&self, addr: &Ipv4Addr) -> Result<Vec<String>, String>;

    fn lookup_aaaa(&self, domain: &str) -> Result<Vec<String>, String>;

    fn lookup_mx(&self, domain: &str) -> Result<Vec<String>, String>;

    fn lookup_txt(&self, domain: &str) -> Result<Vec<String>, String>;

    fn lookup_ns(&self, domain: &str) -> Result<Vec<String>, String>;

    fn lookup_cname(&self, domain: &str) -> Result<Vec<String>, String>;
}

pub trait Icmp {
    /// Sends one echo request and gives the round-trip time in nanoseconds.
    fn send_ping(&self, dest: Ipv4Addr, seq: u16, payload: &[u8]) -> Result<u64, String>;
}

/// What one traceroute probe saw.
#[derive(Clone, Copy)]
pub enum HopResult {
    Reply {
        from: Ipv4Addr,
        /// Round-trip time in nanoseconds.
        rtt: u64,
        /// true = Echo Reply (destination reached), false = Time Exceeded (intermediate hop)
        reached: bool,
    },
    Timeout,
}

pub trait Probe {
    fn probe(&self, dest: Ipv4Addr, ttl: u8, seq: u16, payload: &[u8]) -> Result<HopResult, String>;
}

pub trait Net {
    fn request(&self, method: &str, url: &str, body: &[u8]) -> Result<Vec<u8>, String>;
}

pub struct TlsOptions<'a> {
    pub server_name: &'a str,
}

pub struct TlsInfo {
    pub certs: Vec<Vec<u8>>,
    pub verified: bool,
}

pub trait TlsCheck {
    fn check_tls(&self, host: &str, port: u16, options: &TlsOptions<'_>) -> Result<TlsInfo, String>;
}

pub struct CipherResult {
    pub aes128_gcm_sha256: bool,
    pub aes256_gcm_sha384: bool,
    pub chacha20_poly1305_sha256: bool,
}

pub trait CipherProbe {
    fn probe_ciphers(&self, host: &str, port: u16) -> Result<CipherResult, String>;
}

pub struct RedirectStep {
    pub status: u16,
    pub url: String,
}

pub trait Redirect {
    fn follow(&self, url: &str) -> Result<Vec<RedirectStep>, String>;
}

pub struct TlsPingResult {
    pub tcp_ms: u64,
    pub tls_ms: u64,
}

pub trait TlsPing {
    fn ping(&self, host: &str, port: u16) -> Result<TlsPingResult, String>;
}

// ---------------------------------------------------------------------------
// The clock and the random number generator of the system
// ---------------------------------------------------------------------------

/// Reads the system clock (`SystemTime::now`, measured from `UNIX_EPOCH`):
/// whole seconds and the nanoseconds past them, or `None` when the clock is
/// before the epoch. Nothing is promised of the values: they are the time.
#[verifier::external_body]
fn clock_now() -> (r: Option<(u64, u32)>) {
    std::time::SystemTime::now().duration_since(std::time::UNIX_EPOCH).ok().map(
        |d| (d.as_secs(), d.subsec_nanos()),
    )
}

/// The clock of the system.
pub struct SystemClock;

impl Clock for SystemClock {
    fn now(&self) -> Option<u64> {
        match clock_now() {
            Some((secs, _)) => Some(secs),
            None => None,
        }
    }
}

pub const XORSHIFT_SEED_MIX: u64 = 0x9e3779b97f4a7c15;

/// The initial state for a clock reading of `nanos`.
pub open spec fn seed_of(nanos: u32) -> u64 {
    (nanos as u64) ^ XORSHIFT_SEED_MIX
}

/// One step of xorshift64.
pub open spec fn xorshift(s: u64) -> u64 {
    let a = s ^ (s << 13u64);
    let b = a ^ (a >> 7u64);
    b ^ (b << 17u64)
}

/// A xorshift64 generator seeded from the clock.
pub struct SystemRng {
    state: u64,
}

impl SystemRng {
    pub closed spec fn state(&self) -> u64 {
        self.state
    }

    /// Seeds the generator with the nanoseconds of the current second
    /// (taken as 0 when the clock is before the epoch).
    pub fn new() -> (r: Self)
        ensures
            exists|nanos: u32| r.state() == #[trigger] seed_of(nanos),
    {
        let nanos: u32 = match clock_now() {
            Some((_, n)) => n,
            None => 0,
        };
        let r = SystemRng { state: (nanos as u64) ^ XORSHIFT_SEED_MIX };
        assert(r.state() == seed_of(nanos));
        r
    }

    pub fn from_state(state: u64) -> (r: Self)
        ensures
            r.state() == state,
    {
        SystemRng { state }
    }
}

impl SystemRng {
    /// Advances the state by one xorshift64 step and returns it.
    pub fn step(&mut self) -> (r: u64)
        ensures
            r == xorshift(old(self).state()),
            final(self).state() == r,
    {
        let mut s = self.state;
        s = s ^ (s << 13u64);
        s = s ^ (s >> 7u64);
        s = s ^ (s << 17u64);
        self.state = s;
        s
    }
}

impl Rng for SystemRng {
    /// One xorshift64 step: the new state, which is also the number returned.
    fn next_u64(&mut self) -> (r: u64)
        ensures
            r == xorshift(old(self).state()),
            final(self).state() == r,
    {
        self.step()
    }
}

} // verus!
