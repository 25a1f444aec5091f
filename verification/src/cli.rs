//! What the command line decides, on plain values.

use vstd::prelude::*;

use crate::config::CipherSuite;

verus! {

/// The most worker threads that are chosen without being asked for.
pub const MAX_DEFAULT_WORKERS: usize = 32;

/// The cipher suites that the command line names.
#[derive(Clone, Copy, Debug, Eq, PartialEq, Structural)]
pub enum CryptoArg {
    ChaCha20Poly1305,
    XChaCha20Poly1305,
    Aes128Gcm,
    Aes256Gcm,
    /// Authentication without encryption.
    Unencrypted,
}

/// The suite that an argument stands for.
pub open spec fn suite_of(value: CryptoArg) -> CipherSuite {
    match value {
        CryptoArg::ChaCha20Poly1305 => CipherSuite::ChaCha20Poly1305,
        CryptoArg::XChaCha20Poly1305 => CipherSuite::XChaCha20Poly1305,
        CryptoArg::Aes128Gcm => CipherSuite::Aes128Gcm,
        CryptoArg::Aes256Gcm => CipherSuite::Aes256Gcm,
        CryptoArg::Unencrypted => CipherSuite::NoneAuthenticated,
    }
}

impl From<CryptoArg> for CipherSuite {
    fn from(value: CryptoArg) -> (r: Self) {
        match value {
            CryptoArg::ChaCha20Poly1305 => CipherSuite::ChaCha20Poly1305,
            CryptoArg::XChaCha20Poly1305 => CipherSuite::XChaCha20Poly1305,
            CryptoArg::Aes128Gcm => CipherSuite::Aes128Gcm,
            CryptoArg::Aes256Gcm => CipherSuite::Aes256Gcm,
            CryptoArg::Unencrypted => CipherSuite::NoneAuthenticated,
        }
    }
}

impl vstd::std_specs::convert::FromSpecImpl<CryptoArg> for CipherSuite {
    open spec fn obeys_from_spec() -> bool {
        true
    }

    open spec fn from_spec(value: CryptoArg) -> Self {
        suite_of(value)
    }
}

/// How much is logged.
#[derive(Clone, Copy, Debug, Eq, PartialEq, Structural)]
pub enum LogLevelArg {
    Error,
    Warn,
    Info,
    Debug,
    Trace,
}

/// The name of a log level.
pub open spec fn level_name(level: LogLevelArg) -> Seq<char> {
    match level {
        LogLevelArg::Error => "error"@,
        LogLevelArg::Warn => "warn"@,
        LogLevelArg::Info => "info"@,
        LogLevelArg::Debug => "debug"@,
        LogLevelArg::Trace => "trace"@,
    }
}

impl LogLevelArg {
    pub fn as_str(self) -> (r: &'static str)
        ensures
            r@ == level_name(self),
    {
        match self {
            LogLevelArg::Error => "error",
            LogLevelArg::Warn => "warn",
            LogLevelArg::Info => "info",
            LogLevelArg::Debug => "debug",
            LogLevelArg::Trace => "trace",
        }
    }
}

/// What both commands check before anything else.
#[derive(Clone, Copy, Debug, Eq, PartialEq, Structural)]
pub struct CommonSettings {
    pub secret_file_given: bool,
    pub secret_env_given: bool,
    pub secret_stdin: bool,
    pub secret_given: bool,
    pub workers: usize,
    pub packet_workers: usize,
    pub io_threads: usize,
    pub queue_capacity: usize,
    pub ttl: u8,
    pub hop_limit: u8,
}

/// One for yes, nothing for no.
pub open spec fn tally(given: bool) -> int {
    if given {
        1
    } else {
        0
    }
}

/// How many sources of the secret are given.
pub open spec fn secret_sources(settings: CommonSettings) -> int {
    tally(settings.secret_file_given) + tally(settings.secret_env_given) + tally(
        settings.secret_stdin,
    ) + tally(settings.secret_given)
}

/// What is wrong with the settings.
pub open spec fn settings_fault(settings: CommonSettings) -> Option<Seq<char>> {
    if secret_sources(settings) != 1 {
        Some(
            "exactly one of --secret-file, --secret-env, --secret-stdin, or --secret is required"@,
        )
    } else if settings.workers == 0 || settings.packet_workers == 0 || settings.io_threads == 0
        || settings.queue_capacity == 0 {
        Some("worker counts and queue capacity must be greater than zero"@)
    } else if settings.ttl == 0 || settings.hop_limit == 0 {
        Some("--ttl and --hop-limit must be in 1..=255"@)
    } else {
        None
    }
}

fn counted(given: bool) -> (r: u8)
    ensures
        r == tally(given),
{
    if given {
        1
    } else {
        0
    }
}

/// Checks the settings that both commands share.
pub fn validate_common(settings: &CommonSettings) -> (r: Result<(), String>)
    ensures
        match r {
            Ok(()) => settings_fault(*settings) is None,
            Err(message) => settings_fault(*settings) == Some(message@),
        },
{
    let sources: u8 = counted(settings.secret_file_given) + counted(settings.secret_env_given)
        + counted(settings.secret_stdin) + counted(settings.secret_given);
    if sources != 1 {
        return Err(
            "exactly one of --secret-file, --secret-env, --secret-stdin, or --secret is required"
                .to_owned(),
        );
    }
    if settings.workers == 0 || settings.packet_workers == 0 || settings.io_threads == 0
        || settings.queue_capacity == 0 {
        return Err("worker counts and queue capacity must be greater than zero".to_owned());
    }
    if settings.ttl == 0 || settings.hop_limit == 0 {
        return Err("--ttl and --hop-limit must be in 1..=255".to_owned());
    }
    Ok(())
}

/// A secret without the line ending that an editor or a shell put behind it: one
/// line feed, and one carriage return before it.
pub open spec fn trimmed(bytes: Seq<u8>) -> Seq<u8> {
    if bytes.len() > 0 && bytes.last() == 10 {
        let line = bytes.drop_last();
        if line.len() > 0 && line.last() == 13 {
            line.drop_last()
        } else {
            line
        }
    } else {
        bytes
    }
}

pub fn trim_line_ending(bytes: Vec<u8>) -> (r: Vec<u8>)
    ensures
        r@ == trimmed(bytes@),
{
    let mut line = bytes;
    if line.len() > 0 && line[line.len() - 1] == 10 {
        line.pop();
        if line.len() > 0 && line[line.len() - 1] == 13 {
            line.pop();
        }
    }
    line
}

/// How many workers run when the command line does not say: one for each unit of
/// parallelism that the system reports, one where it reports none, and never more
/// than a fixed number.
pub fn default_workers(parallelism: Option<usize>) -> (r: usize)
    ensures
        r == match parallelism {
            Some(count) => if count <= MAX_DEFAULT_WORKERS {
                count
            } else {
                MAX_DEFAULT_WORKERS
            },
            None => 1,
        },
{
    match parallelism {
        Some(count) => {
            if count <= MAX_DEFAULT_WORKERS {
                count
            } else {
                MAX_DEFAULT_WORKERS
            }
        },
        None => 1,
    }
}

/// Whether others than the owner may use a file with these permission bits.
pub fn permissions_are_broad(mode: u32) -> (r: bool)
    ensures
        r == (mode % 64 != 0),
{
    mode % 64 != 0
}

/// One line ending behind a secret is not part of it, be it a line feed or a carriage
/// return with a line feed; anything else is.
pub proof fn law_one_line_ending_is_dropped(secret: Seq<u8>)
    ensures
        trimmed(secret + seq![13u8, 10u8]) == secret,
        secret.len() == 0 || secret.last() != 13 ==> trimmed(secret + seq![10u8]) == secret,
        secret.len() == 0 || secret.last() != 10 ==> trimmed(secret) == secret,
{
    let unix = secret + seq![10u8];
    let dos = secret + seq![13u8, 10u8];
    assert(unix.last() == 10);
    assert(unix.drop_last() =~= secret);
    assert(dos.last() == 10);
    assert(dos.drop_last().last() == 13);
    assert(dos.drop_last().drop_last() =~= secret);
}

/// Settings are taken exactly where one source of the secret is given and one only, every
/// count is above nothing, and so are both hop counts.
pub proof fn law_valid_settings(settings: CommonSettings)
    ensures
        settings_fault(settings) is None <==> {
            let (a, b, c, d) = (
                settings.secret_file_given,
                settings.secret_env_given,
                settings.secret_stdin,
                settings.secret_given,
            );
            &&& a || b || c || d
            &&& !(a && b) && !(a && c) && !(a && d) && !(b && c) && !(b && d) && !(c && d)
            &&& settings.workers > 0 && settings.packet_workers > 0 && settings.io_threads > 0
            &&& settings.queue_capacity > 0
            &&& settings.ttl > 0 && settings.hop_limit > 0
        },
{
}

} // verus!
