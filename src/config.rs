//! Plain configuration, command and response values of the bot's driver.
use vstd::prelude::*;
use vstd::string::{StringExecFns, StringSliceAdditionalSpecFns};

verus! {

/// Height a rescan starts from: absolute, or this many blocks below the current one.
#[derive(Clone, Copy, Debug, PartialEq, Eq, Structural)]
pub enum RescanHeight {
    Absolute(i32),
    Relative(i32),
}

impl RescanHeight {
    /// The absolute height a rescan starts from, given the current height.
    pub fn resolve(&self, current_height: i32) -> (r: i32)
        ensures
            *self matches RescanHeight::Absolute(h) ==> r == h,
            *self matches RescanHeight::Relative(n) ==> r as int == if current_height as int
                - n as int <= 0 {
                0
            } else if current_height as int - n as int > i32::MAX {
                i32::MAX as int
            } else {
                current_height as int - n as int
            },
    {
        match self {
            RescanHeight::Absolute(h) => *h,
            RescanHeight::Relative(n) => {
                let d = current_height as i64 - *n as i64;
                if d <= 0 {
                    0
                } else if d > i32::MAX as i64 {
                    i32::MAX
                } else {
                    d as i32
                }
            },
        }
    }
}

/// Why a string is no decimal `i32`, as Rust's integer parsing reports it.
#[derive(Clone, Copy, Debug, PartialEq, Eq, Structural)]
pub enum IntErrorKind {
    Empty,
    InvalidDigit,
    PosOverflow,
    NegOverflow,
}

/// The message Rust's integer parsing gives for each kind of error.
pub open spec fn int_error_text(k: IntErrorKind) -> Seq<char> {
    match k {
        IntErrorKind::Empty => "cannot parse integer from empty string"@,
        IntErrorKind::InvalidDigit => "invalid digit found in string"@,
        IntErrorKind::PosOverflow => "number too large to fit in target type"@,
        IntErrorKind::NegOverflow => "number too small to fit in target type"@,
    }
}

impl IntErrorKind {
    pub fn description(&self) -> (r: &'static str)
        ensures
            r@ == int_error_text(*self),
    {
        match self {
            IntErrorKind::Empty => "cannot parse integer from empty string",
            IntErrorKind::InvalidDigit => "invalid digit found in string",
            IntErrorKind::PosOverflow => "number too large to fit in target type",
            IntErrorKind::NegOverflow => "number too small to fit in target type",
        }
    }
}

pub open spec fn is_digit(c: u8) -> bool {
    48 <= c <= 57
}

/// The first `n` digits of `d` read left to right, accumulating toward the sign:
/// the first character that is no digit, or the first step that leaves the `i32`
/// range, ends the reading with that error.
pub open spec fn read_digits(d: Seq<u8>, negative: bool, n: int) -> Result<int, IntErrorKind>
    decreases n,
{
    if n <= 0 {
        Ok(0)
    } else {
        match read_digits(d, negative, n - 1) {
            Err(e) => Err(e),
            Ok(v) => if !is_digit(d[n - 1]) {
                Err(IntErrorKind::InvalidDigit)
            } else {
                let next = if negative {
                    v * 10 - (d[n - 1] - 48)
                } else {
                    v * 10 + (d[n - 1] - 48)
                };
                if next < i32::MIN || next > i32::MAX {
                    Err(
                        if negative {
                            IntErrorKind::NegOverflow
                        } else {
                            IntErrorKind::PosOverflow
                        },
                    )
                } else {
                    Ok(next)
                }
            },
        }
    }
}

/// A decimal `i32` as Rust reads one: an optional sign, then one or more digits
/// and nothing else, with a value in range.
pub open spec fn decimal_i32(b: Seq<u8>) -> Result<i32, IntErrorKind> {
    if b.len() == 0 {
        Err(IntErrorKind::Empty)
    } else if (b[0] == 43 || b[0] == 45) && b.len() == 1 {
        Err(IntErrorKind::InvalidDigit)
    } else {
        let d = if b[0] == 43 || b[0] == 45 {
            b.drop_first()
        } else {
            b
        };
        match read_digits(d, b[0] == 45, d.len() as int) {
            Ok(v) => Ok(v as i32),
            Err(e) => Err(e),
        }
    }
}

/// Reads a decimal `i32` from `b[start..]`.
fn parse_i32_at(b: &[u8], start: usize) -> (r: Result<i32, IntErrorKind>)
    requires
        start <= b@.len(),
    ensures
        r == decimal_i32(b@.subrange(start as int, b@.len() as int)),
{
    let ghost s = b@.subrange(start as int, b@.len() as int);
    let n = b.len();
    if start == n {
        return Err(IntErrorKind::Empty);
    }
    let signed = b[start] == 43 || b[start] == 45;
    if signed && start + 1 == n {
        return Err(IntErrorKind::InvalidDigit);
    }
    let negative = b[start] == 45;
    let first: usize = if signed {
        start + 1
    } else {
        start
    };
    let ghost d = b@.subrange(first as int, n as int);
    proof {
        assert(s[0] == b@[start as int]);
        if signed {
            assert(d =~= s.drop_first());
        } else {
            assert(d =~= s);
        }
    }
    let mut acc: i64 = 0;
    let mut i = first;
    while i < n
        invariant
            first <= i <= n,
            n == b@.len(),
            d == b@.subrange(first as int, n as int),
            s == b@.subrange(start as int, n as int),
            s.len() > 0,
            !((s[0] == 43 || s[0] == 45) && s.len() == 1),
            d == (if s[0] == 43 || s[0] == 45 {
                s.drop_first()
            } else {
                s
            }),
            negative == (s[0] == 45),
            read_digits(d, negative, (i - first) as int) == Ok::<int, IntErrorKind>(acc as int),
            i32::MIN <= acc <= i32::MAX,
        decreases n - i,
    {
        let c = b[i];
        proof {
            assert(d[i - first] == c);
        }
        if c < 48 || c > 57 {
            proof {
                assert(read_digits(d, negative, (i - first) as int + 1) is Err);
                lemma_read_digits_prefix_error(d, negative, (i - first) as int + 1, d.len() as int);
            }
            return Err(IntErrorKind::InvalidDigit);
        }
        let next: i64 = if negative {
            acc * 10 - (c - 48) as i64
        } else {
            acc * 10 + (c - 48) as i64
        };
        i = i + 1;
        if next < i32::MIN as i64 || next > i32::MAX as i64 {
            proof {
                assert(read_digits(d, negative, (i - first) as int) is Err);
                lemma_read_digits_prefix_error(d, negative, (i - first) as int, d.len() as int);
            }
            return Err(
                if negative {
                    IntErrorKind::NegOverflow
                } else {
                    IntErrorKind::PosOverflow
                },
            );
        }
        acc = next;
    }
    Ok(acc as i32)
}

/// Once reading stops on an error, reading further gives the same error.
proof fn lemma_read_digits_prefix_error(d: Seq<u8>, negative: bool, k: int, n: int)
    requires
        0 <= k <= n,
        read_digits(d, negative, k) is Err,
    ensures
        read_digits(d, negative, n) == read_digits(d, negative, k),
    decreases n - k,
{
    if n > k {
        lemma_read_digits_prefix_error(d, negative, k, n - 1);
    }
}

/// The message a rescan height that is no `i32` gives.
pub open spec fn rescan_error_text(k: IntErrorKind) -> Seq<char> {
    "Invalid rescan height: "@ + int_error_text(k)
}

fn rescan_error(k: IntErrorKind) -> (r: String)
    ensures
        r@ == rescan_error_text(k),
{
    let prefix = "Invalid rescan height: ".to_owned();
    prefix.concat(k.description())
}

/// Reads a rescan height: `~n` is `n` blocks below the current height, a plain
/// number is absolute.
pub fn rescan_height_from_str(s: &str) -> (r: Result<RescanHeight, String>)
    ensures
        ({
            let b = s.spec_bytes();
            let relative = b.len() > 0 && b[0] == 126;
            let parsed = if relative {
                decimal_i32(b.drop_first())
            } else {
                decimal_i32(b)
            };
            match parsed {
                Ok(v) => r == Ok::<_, String>(
                    if relative {
                        RescanHeight::Relative(v)
                    } else {
                        RescanHeight::Absolute(v)
                    },
                ),
                Err(k) => r is Err && r->Err_0@ == rescan_error_text(k),
            }
        }),
{
    let b = s.as_bytes();
    if b.len() > 0 && b[0] == 126 {
        assert(b@.subrange(1, b@.len() as int) =~= b@.drop_first());
        match parse_i32_at(b, 1) {
            Ok(v) => Ok(RescanHeight::Relative(v)),
            Err(k) => Err(rescan_error(k)),
        }
    } else {
        assert(b@.subrange(0, b@.len() as int) =~= b@);
        match parse_i32_at(b, 0) {
            Ok(v) => Ok(RescanHeight::Absolute(v)),
            Err(k) => Err(rescan_error(k)),
        }
    }
}

/// Commands on scans.
#[derive(Clone, Debug)]
pub enum Commands {
    /// Write a scan configuration file, optionally asking for a rescan.
    CreateConfig { output_path: Option<String>, rescan_height: Option<RescanHeight> },
}

/// The node's scans that hold pools and orders.
#[derive(Clone, Copy, Debug, PartialEq, Eq, Structural)]
pub struct ScanConfig {
    pub n2t_scan_id: i32,
    pub wallet_grid_scan_id: i32,
}

/// Where the node's API is and the key that opens it.
#[derive(Clone, Debug)]
pub struct NodeConfig {
    pub api_url: String,
    pub api_key: String,
}

/// The API address of a node on this machine.
pub fn api_url_default() -> (r: String)
    ensures
        r@ == "http://127.0.0.1:9053"@,
{
    "http://127.0.0.1:9053".to_owned()
}

impl NodeConfig {
    /// A configuration for the given key, at the default address unless one is given.
    pub fn with_key(api_url: Option<String>, api_key: String) -> (r: NodeConfig)
        ensures
            api_url matches Some(u) ==> r.api_url@ == u@,
            api_url is None ==> r.api_url@ == "http://127.0.0.1:9053"@,
            r.api_key@ == api_key@,
    {
        let api_url = match api_url {
            Some(u) => u,
            None => api_url_default(),
        };
        NodeConfig { api_url, api_key }
    }
}

#[derive(Clone, Copy, Debug, PartialEq, Eq, Structural)]
pub enum WalletStatusError {
    WalletLocked,
    NoChangeAddress,
}

/// What the node reports of its wallet; the change address in its encoded form.
#[derive(Clone, Debug)]
pub struct WalletStatus {
    pub is_initialized: bool,
    pub is_unlocked: bool,
    pub change_address: Option<String>,
    pub wallet_height: i32,
    pub error: String,
}

impl WalletStatus {
    pub fn error_if_locked(&self) -> (r: Result<(), WalletStatusError>)
        ensures
            self.is_unlocked <==> r is Ok,
            !self.is_unlocked ==> r == Err::<(), _>(WalletStatusError::WalletLocked),
    {
        if self.is_unlocked {
            Ok(())
        } else {
            Err(WalletStatusError::WalletLocked)
        }
    }

    pub fn change_address(&self) -> (r: Result<String, WalletStatusError>)
        ensures
            self.change_address is None ==> r == Err::<String, _>(WalletStatusError::NoChangeAddress),
            self.change_address matches Some(a) ==> r is Ok && r->Ok_0@ == a@,
    {
        match &self.change_address {
            Some(a) => Ok(a.clone()),
            None => Err(WalletStatusError::NoChangeAddress),
        }
    }
}

/// An error the node's API answers with.
#[derive(Clone, Debug)]
pub struct ApiError {
    pub error: i32,
    pub reason: String,
    pub detail: String,
}

/// A reply of the node's API: the value asked for, or an error.
#[derive(Clone, Debug)]
pub enum ApiResponse<T> {
    Success(T),
    Failure(ApiError),
}

impl<T> ApiResponse<T> {
    pub fn into_result(self) -> (r: Result<T, ApiError>)
        ensures
            self matches ApiResponse::Success(v) ==> r == Ok::<T, ApiError>(v),
            self matches ApiResponse::Failure(e) ==> r == Err::<T, ApiError>(e),
    {
        match self {
            ApiResponse::Success(v) => Ok(v),
            ApiResponse::Failure(e) => Err(e),
        }
    }
}

} // verus!
