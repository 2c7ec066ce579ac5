//! Command-line configuration of the tunnel and the parser of the FEC ratio
//! option (`data:parity`, such as `10:3`).

use vstd::prelude::*;
use vstd::string::StringSliceAdditionalSpecFns;

verus! {

/// Top-level command line: which role to run in.
pub struct Cli {
    pub mode: Mode,
}

/// Role of this end of the tunnel.
pub enum Mode {
    /// Run as server (listener).
    Server(RunArgs),
    /// Run as client (connector).
    Client(RunArgs),
}

impl Mode {
    /// The arguments of either role.
    pub fn run_args(&self) -> (r: &RunArgs)
        ensures
            r == (match self {
                Mode::Server(a) => a,
                Mode::Client(a) => a,
            }),
    {
        match self {
            Mode::Server(a) => a,
            Mode::Client(a) => a,
        }
    }

    /// Whether this end runs as the server.
    pub fn is_server(&self) -> (r: bool)
        ensures
            r == (self is Server),
    {
        match self {
            Mode::Server(_) => true,
            Mode::Client(_) => false,
        }
    }
}

/// Options shared by both roles.
#[derive(Clone)]
pub struct RunArgs {
    /// Local UDP bind address (server) or local source (client).
    pub listen: String,
    /// Remote peer address.
    pub remote: Option<String>,
    /// TUN interface name.
    pub tun_name: String,
    /// TUN local IP / CIDR.
    pub tun_addr: String,
    /// MTU of the TUN device.
    pub mtu: u16,
    /// FEC ratio as data:parity (e.g. 10:3); 0:0 disables FEC.
    pub fec: String,
    /// Whether XOR obfuscation is on.
    pub obfs: bool,
    /// Pre-shared key for the obfuscation keystream.
    pub key: String,
    /// Number of multiplexed streams.
    pub mux: u16,
    /// Jitter buffer depth in packets.
    pub jitter: usize,
    /// Longest time in ms a packet waits in the jitter buffer.
    pub jitter_ms: u64,
    /// Pacing rate in Mbps (0 = unlimited).
    pub pace_mbps: u64,
    /// Worker threads of the event loop.
    pub workers: usize,
    /// Reverse tunnelling (server dials out to client).
    pub reverse: bool,
    /// Reconnect interval on link failure, in ms.
    pub reconnect_ms: u64,
}

/// Ratio of data shards to parity shards in each FEC block.
#[derive(Clone, Copy, Debug)]
pub struct FecRatio {
    pub data: usize,
    pub parity: usize,
}

/// Why a FEC ratio option was refused.
#[derive(Clone, Copy, Debug, PartialEq, Eq, Structural)]
pub enum FecParseError {
    /// The text holds no `:`.
    MissingSeparator,
    /// The part before the first `:` is not a decimal `usize`.
    InvalidData,
    /// The part after the first `:` is not a decimal `usize`.
    InvalidParity,
}

/// Whether `b` is an ASCII decimal digit.
pub open spec fn is_digit(b: u8) -> bool {
    48 <= b <= 57
}

/// Whether every byte of `s` is an ASCII decimal digit.
pub open spec fn all_digits(s: Seq<u8>) -> bool {
    forall|i: int| 0 <= i < s.len() ==> is_digit(#[trigger] s[i])
}

/// The number that the decimal digits `s` denote (most significant first).
pub open spec fn decimal_value(s: Seq<u8>) -> nat
    decreases s.len(),
{
    if s.len() == 0 {
        0
    } else {
        decimal_value(s.drop_last()) * 10 + (s.last() - 48) as nat
    }
}

/// The `usize` that `s` spells as a decimal number, in the form that
/// `usize::from_str` accepts: an optional `+` and then one or more digits,
/// with a value that fits.
pub open spec fn usize_from_decimal(s: Seq<u8>) -> Option<usize> {
    if s.len() > 1 && s[0] == 43u8 {
        usize_from_digits(s.drop_first())
    } else {
        usize_from_digits(s)
    }
}

/// The `usize` that a non-empty digit string denotes, if it fits.
pub open spec fn usize_from_digits(digits: Seq<u8>) -> Option<usize> {
    if digits.len() > 0 && all_digits(digits) && decimal_value(digits) <= usize::MAX {
        Some(decimal_value(digits) as usize)
    } else {
        None
    }
}

/// Whether `s` holds no `:`.
pub open spec fn no_colon(s: Seq<u8>) -> bool {
    forall|i: int| 0 <= i < s.len() ==> #[trigger] s[i] != 58u8
}

/// What parsing `s` as a FEC ratio gives: split at the first `:`, then
/// read each side as a decimal `usize`, the data side first.
pub open spec fn fec_ratio_from_bytes(s: Seq<u8>) -> Result<(usize, usize), FecParseError> {
    if no_colon(s) {
        Err(FecParseError::MissingSeparator)
    } else {
        let i = choose|i: int| 0 <= i < s.len() && s[i] == 58u8 && no_colon(s.subrange(0, i));
        match usize_from_decimal(s.subrange(0, i)) {
            None => Err(FecParseError::InvalidData),
            Some(d) => match usize_from_decimal(s.subrange(i + 1, s.len() as int)) {
                None => Err(FecParseError::InvalidParity),
                Some(p) => Ok((d, p)),
            },
        }
    }
}

/// The first `:` of a text that holds one is unique.
proof fn lemma_first_colon_unique(s: Seq<u8>, i: int, j: int)
    requires
        0 <= i < s.len(),
        s[i] == 58u8,
        no_colon(s.subrange(0, i)),
        0 <= j < s.len(),
        s[j] == 58u8,
        no_colon(s.subrange(0, j)),
    ensures
        i == j,
{
    if i < j {
        assert(s.subrange(0, j)[i] == s[i]);
    } else if j < i {
        assert(s.subrange(0, i)[j] == s[j]);
    }
}

/// Parsing a FEC ratio splits at the first `:`.
proof fn lemma_fec_ratio_split(s: Seq<u8>, i: int)
    requires
        0 <= i < s.len(),
        s[i] == 58u8,
        no_colon(s.subrange(0, i)),
    ensures
        fec_ratio_from_bytes(s) == (match usize_from_decimal(s.subrange(0, i)) {
            None => Err(FecParseError::InvalidData),
            Some(d) => match usize_from_decimal(s.subrange(i + 1, s.len() as int)) {
                None => Err(FecParseError::InvalidParity),
                Some(p) => Ok((d, p)),
            },
        }),
{
    assert(!no_colon(s));
    let c = choose|c: int| 0 <= c < s.len() && s[c] == 58u8 && no_colon(s.subrange(0, c));
    lemma_first_colon_unique(s, i, c);
}

/// Extending a digit string to the right never makes its value smaller.
proof fn lemma_decimal_value_prefix(s: Seq<u8>, k: int)
    requires
        0 <= k <= s.len(),
    ensures
        decimal_value(s.subrange(0, k)) <= decimal_value(s),
    decreases s.len() - k,
{
    if k < s.len() {
        lemma_decimal_value_prefix(s, k + 1);
        assert(s.subrange(0, k + 1).drop_last() =~= s.subrange(0, k));
    } else {
        assert(s.subrange(0, k) =~= s);
    }
}

/// Reads `b[start..end]` as a decimal `usize` the way `usize::from_str`
/// does.
fn parse_decimal(b: &[u8], start: usize, end: usize) -> (r: Option<usize>)
    requires
        start <= end <= b@.len(),
    ensures
        r == usize_from_decimal(b@.subrange(start as int, end as int)),
{
    let ghost s = b@.subrange(start as int, end as int);
    let mut i = start;
    if end - start > 1 && b[start] == 43u8 {
        i = start + 1;
    }
    let ghost digits = b@.subrange(i as int, end as int);
    assert(usize_from_decimal(s) == usize_from_digits(digits)) by {
        if s.len() > 1 && s[0] == 43u8 {
            assert(digits =~= s.drop_first());
        } else {
            assert(digits =~= s);
        }
    }
    if i == end {
        return None;
    }
    let first = i;
    let mut acc: usize = 0;
    while i < end
        invariant
            first <= i <= end <= b@.len(),
            digits == b@.subrange(first as int, end as int),
            usize_from_decimal(b@.subrange(start as int, end as int)) == usize_from_digits(digits),
            digits.len() > 0,
            all_digits(b@.subrange(first as int, i as int)),
            acc as nat == decimal_value(b@.subrange(first as int, i as int)),
        decreases end - i,
    {
        let c = b[i];
        let ghost prefix = b@.subrange(first as int, i as int);
        let ghost next = b@.subrange(first as int, i + 1);
        assert(next.drop_last() =~= prefix);
        assert(next.last() == c);
        if c < 48 || c > 57 {
            assert(digits[i - first] == c);
            assert(!is_digit(digits[i - first]));
            return None;
        }
        let d = (c - 48) as usize;
        if acc > (usize::MAX - d) / 10 {
            proof {
                assert(acc * 10 + d > usize::MAX) by (nonlinear_arith)
                    requires
                        acc > (usize::MAX - d) / 10,
                        d <= 9,
                ;
                assert(decimal_value(next) == acc * 10 + d);
                if all_digits(digits) {
                    assert(next =~= digits.subrange(0, (i + 1 - first) as int));
                    lemma_decimal_value_prefix(digits, (i + 1 - first) as int);
                }
            }
            return None;
        }
        proof {
            assert(acc * 10 + d <= usize::MAX) by (nonlinear_arith)
                requires
                    acc <= (usize::MAX - d) / 10,
                    d <= 9,
            ;
            assert forall|j: int| 0 <= j < next.len() implies is_digit(#[trigger] next[j]) by {
                if j < prefix.len() {
                    assert(next[j] == prefix[j]);
                }
            }
        }
        acc = acc * 10 + d;
        i = i + 1;
    }
    assert(b@.subrange(first as int, i as int) =~= digits);
    Some(acc)
}

/// The shortest decimal spelling of `n`.
pub open spec fn decimal_digits(n: nat) -> Seq<u8>
    decreases n,
{
    if n < 10 {
        seq![(48 + n) as u8]
    } else {
        decimal_digits(n / 10).push((48 + n % 10) as u8)
    }
}

proof fn lemma_decimal_digits(n: nat)
    ensures
        decimal_digits(n).len() > 0,
        all_digits(decimal_digits(n)),
        decimal_value(decimal_digits(n)) == n,
    decreases n,
{
    let s = decimal_digits(n);
    if n < 10 {
        assert(s.drop_last() =~= Seq::<u8>::empty());
        assert(s.last() == (48 + n) as u8);
        assert(decimal_value(s.drop_last()) == 0);
        assert(decimal_value(s) == decimal_value(s.drop_last()) * 10 + (s.last() - 48) as nat);
    } else {
        lemma_decimal_digits(n / 10);
        let t = decimal_digits(n / 10);
        assert(s.drop_last() =~= t);
        assert(n % 10 < 10);
        assert(s.last() == (48 + n % 10) as u8);
        assert((s.last() - 48) as nat == n % 10);
        assert(n == (n / 10) * 10 + n % 10);
        assert(decimal_value(s) == decimal_value(t) * 10 + (s.last() - 48) as nat);
        assert forall|i: int| 0 <= i < s.len() implies is_digit(#[trigger] s[i]) by {
            if i < t.len() {
                assert(s[i] == t[i]);
            }
        }
    }
}

/// The text `format!("{}:{}", data, parity)` parses back to the same ratio:
/// what `parse` reads is what a ratio is written as.
pub proof fn lemma_fec_ratio_text_roundtrip(data: usize, parity: usize)
    ensures
        fec_ratio_from_bytes(decimal_digits(data as nat) + seq![58u8] + decimal_digits(
            parity as nat,
        )) == Ok::<(usize, usize), FecParseError>((data, parity)),
{
    let ds = decimal_digits(data as nat);
    let ps = decimal_digits(parity as nat);
    lemma_decimal_digits(data as nat);
    lemma_decimal_digits(parity as nat);
    let s = ds + seq![58u8] + ps;
    let i = ds.len() as int;
    assert(s[i] == 58u8);
    assert(s.subrange(0, i) =~= ds);
    assert(s.subrange(i + 1, s.len() as int) =~= ps);
    assert forall|j: int| 0 <= j < ds.len() implies #[trigger] ds[j] != 58u8 by {
        assert(is_digit(ds[j]));
    }
    assert(is_digit(ds[0]));
    assert(is_digit(ps[0]));
    lemma_fec_ratio_split(s, i);
}

impl FecRatio {
    /// Parses `data:parity`, such as `10:3`. The text is split at its first
    /// `:` and each side must be a decimal `usize` as `usize::from_str`
    /// reads it.
    pub fn parse(s: &str) -> (r: Result<FecRatio, FecParseError>)
        ensures
            match fec_ratio_from_bytes(s.spec_bytes()) {
                Ok((d, p)) => r matches Ok(f) && f.data == d && f.parity == p,
                Err(e) => r == Err::<FecRatio, FecParseError>(e),
            },
    {
        let b = s.as_bytes();
        let n = b.len();
        let mut i: usize = 0;
        while i < n
            invariant
                n == b@.len(),
                i <= n,
                no_colon(b@.subrange(0, i as int)),
            ensures
                i < n ==> b@[i as int] == 58u8,
            decreases n - i,
        {
            if b[i] == 58u8 {
                break;
            }
            proof {
                let next = b@.subrange(0, i + 1);
                assert forall|j: int| 0 <= j < next.len() implies #[trigger] next[j] != 58u8 by {
                    if j < i {
                        assert(next[j] == b@.subrange(0, i as int)[j]);
                    }
                }
            }
            i = i + 1;
        }
        if i == n {
            assert(b@.subrange(0, n as int) =~= b@);
            return Err(FecParseError::MissingSeparator);
        }
        proof {
            lemma_fec_ratio_split(b@, i as int);
        }
        let data = match parse_decimal(b, 0, i) {
            Some(d) => d,
            None => {
                return Err(FecParseError::InvalidData);
            },
        };
        let parity = match parse_decimal(b, i + 1, n) {
            Some(p) => p,
            None => {
                return Err(FecParseError::InvalidParity);
            },
        };
        Ok(FecRatio { data, parity })
    }

    /// Whether FEC is on: both shard counts are positive.
    pub fn enabled(&self) -> (r: bool)
        ensures
            r == (self.data > 0 && self.parity > 0),
    {
        self.data > 0 && self.parity > 0
    }

    /// Number of shards in a block, data and parity together.
    pub fn total(&self) -> (r: usize)
        requires
            self.data + self.parity <= usize::MAX,
        ensures
            r == self.data + self.parity,
    {
        self.data + self.parity
    }
}

} // verus!
