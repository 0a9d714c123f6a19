use vstd::prelude::*;

verus! {

/// The service port that every probe connects to.
pub const PROBE_PORT: u16 = 9012;

/// How long one connection attempt may take before it counts as unreachable.
pub const PROBE_TIMEOUT_MS: u64 = 2000;

/// Probe capacity on platforms with tight per-process socket limits.
pub const CAPACITY_CONSTRAINED: usize = 2048;

/// Probe capacity on platforms with generous per-process socket limits.
pub const CAPACITY_DEFAULT: usize = 65536;

/// The platform family, as far as probe capacity is concerned.
#[derive(Clone, Copy, Debug, PartialEq, Eq, Structural)]
pub enum Platform {
    MacOs,
    Other,
}

/// The fixed parameters of a scan.
#[derive(Clone, Copy, Debug)]
pub struct ProbeConfig {
    pub port: u16,
    pub timeout_ms: u64,
    pub capacity: usize,
}

pub open spec fn capacity_spec(platform: Platform) -> usize {
    match platform {
        Platform::MacOs => CAPACITY_CONSTRAINED,
        Platform::Other => CAPACITY_DEFAULT,
    }
}

/// The capacity chosen for a platform.
pub fn capacity_for(platform: Platform) -> (r: usize)
    ensures
        r == capacity_spec(platform),
        r >= 1,
{
    match platform {
        Platform::MacOs => CAPACITY_CONSTRAINED,
        Platform::Other => CAPACITY_DEFAULT,
    }
}

impl ProbeConfig {
    /// The configuration used on `platform`: the fixed port and timeout, and
    /// the platform's capacity.
    pub fn for_platform(platform: Platform) -> (r: ProbeConfig)
        ensures
            r.port == PROBE_PORT,
            r.timeout_ms == PROBE_TIMEOUT_MS,
            r.capacity == capacity_spec(platform),
            r.capacity >= 1,
    {
        ProbeConfig { port: PROBE_PORT, timeout_ms: PROBE_TIMEOUT_MS, capacity: capacity_for(platform) }
    }
}

/// How one connection attempt ended.
#[derive(Clone, Copy, Debug, PartialEq, Eq, Structural)]
pub enum ProbeOutcome {
    /// The handshake completed before the timeout.
    Connected,
    /// The attempt failed: refused, unreachable, reset, or not resolvable.
    Failed,
    /// The timeout elapsed first.
    TimedOut,
}

impl ProbeOutcome {
    /// Whether the address is reachable: true for a connection only.
    pub fn is_reachable(&self) -> (r: bool)
        ensures
            r == (*self == ProbeOutcome::Connected),
    {
        match self {
            ProbeOutcome::Connected => true,
            _ => false,
        }
    }
}

pub open spec fn digit_char(d: nat) -> char
    recommends
        d < 10,
{
    ((d + '0' as nat) as u8) as char
}

/// The decimal digits of `n`, most significant first, with no leading zeros.
pub open spec fn decimal(n: nat) -> Seq<char>
    decreases n,
{
    if n < 10 {
        seq![digit_char(n)]
    } else {
        decimal(n / 10) + seq![digit_char(n % 10)]
    }
}

/// The connection target `address:port`.
pub open spec fn target_spec(address: Seq<char>, port: u16) -> Seq<char> {
    address + seq![':'] + decimal(port as nat)
}

fn digit_str(d: u16) -> (r: &'static str)
    requires
        d < 10,
    ensures
        r@ == seq![digit_char(d as nat)],
{
    proof {
        reveal_strlit("0");
        reveal_strlit("1");
        reveal_strlit("2");
        reveal_strlit("3");
        reveal_strlit("4");
        reveal_strlit("5");
        reveal_strlit("6");
        reveal_strlit("7");
        reveal_strlit("8");
        reveal_strlit("9");
    }
    match d {
        0 => "0",
        1 => "1",
        2 => "2",
        3 => "3",
        4 => "4",
        5 => "5",
        6 => "6",
        7 => "7",
        8 => "8",
        _ => "9",
    }
}

fn append_decimal(s: &mut String, n: u16)
    ensures
        final(s)@ == old(s)@ + decimal(n as nat),
    decreases n,
{
    if n >= 10 {
        append_decimal(s, n / 10);
    }
    s.append(digit_str(n % 10));
    assert(s@ =~= old(s)@ + decimal(n as nat));
}

/// The target that a probe of `address` connects to: the address, a colon,
/// and the port in decimal.
pub fn probe_target(address: &str, port: u16) -> (r: String)
    ensures
        r@ == target_spec(address@, port),
{
    let mut s = String::from_str(address);
    proof {
        reveal_strlit(":");
    }
    s.append(":");
    append_decimal(&mut s, port);
    assert(s@ =~= target_spec(address@, port));
    s
}

} // verus!
