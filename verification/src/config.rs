//! Startup configuration: `listen <port>` or `send <host:port>`, parsed
//! from the argument list as raw byte strings.
use vstd::prelude::*;

use crate::frame::{all_digits, dec_value, is_digit, parse_u64, spec_parse_u64};

verus! {

/// The two startup roles.
#[derive(Debug)]
pub enum Config {
    /// Bind locally on the port and wait for peers.
    Listen(u16),
    /// Begin in sender role towards the raw `host:port` target string,
    /// which the runner resolves.
    Send(Vec<u8>),
}

/// Why the arguments were rejected. Each is fatal at startup.
#[derive(Clone, Copy, Debug, PartialEq, Eq, Structural)]
pub enum ConfigError {
    /// Fewer than two arguments.
    Usage,
    /// `listen` without a port argument.
    MissingPort,
    /// A port that is not a decimal number up to 65535.
    InvalidPort,
    /// `send` without a target argument.
    MissingTarget,
    /// A mode word other than `listen` or `send`.
    UnknownMode,
}

/// The bytes of the mode word `listen`.
pub open spec fn listen_word() -> Seq<u8> {
    seq![108u8, 105u8, 115u8, 116u8, 101u8, 110u8]
}

/// The bytes of the mode word `send`.
pub open spec fn send_word() -> Seq<u8> {
    seq![115u8, 101u8, 110u8, 100u8]
}

/// `Some(p)` exactly when `s` is a non-empty digit string whose value is a
/// valid port number.
pub open spec fn spec_parse_u16(s: Seq<u8>) -> Option<u16> {
    if s.len() > 0 && all_digits(s) && dec_value(s) <= u16::MAX {
        Some(dec_value(s) as u16)
    } else {
        None
    }
}

/// Parse a port number.
pub fn parse_u16(s: &[u8]) -> (r: Option<u16>)
    ensures
        r == spec_parse_u16(s@),
{
    match parse_u64(s) {
        None => None,
        Some(v) => {
            proof {
                crate::frame::lemma_dec_value_nonneg(s@);
            }
            if v <= 65535 {
                Some(v as u16)
            } else {
                None
            }
        },
    }
}

/// Byte-string equality.
fn bytes_eq(a: &[u8], b: &[u8]) -> (r: bool)
    ensures
        r <==> a@ == b@,
{
    if a.len() != b.len() {
        return false;
    }
    let mut i: usize = 0;
    while i < a.len()
        invariant
            i <= a@.len(),
            a@.len() == b@.len(),
            forall|j: int| 0 <= j < i ==> a@[j] == b@[j],
        decreases a@.len() - i,
    {
        if a[i] != b[i] {
            return false;
        }
        i = i + 1;
    }
    proof {
        assert(a@ =~= b@);
    }
    true
}

/// Parse the startup arguments (program name first, as handed to the
/// process). `listen` takes a port; `send` takes a target string; anything
/// else is a usage error. Arguments past the first three are ignored.
pub fn parse_config(args: &Vec<Vec<u8>>) -> (r: Result<Config, ConfigError>)
    ensures
        args.deep_view().len() < 2 ==> r == Err::<Config, ConfigError>(ConfigError::Usage),
        args.deep_view().len() >= 2 && args.deep_view()[1] != listen_word() && args.deep_view()[1]
            != send_word() ==> r == Err::<Config, ConfigError>(ConfigError::UnknownMode),
        args.deep_view().len() == 2 && args.deep_view()[1] == listen_word() ==> r == Err::<
            Config,
            ConfigError,
        >(ConfigError::MissingPort),
        args.deep_view().len() == 2 && args.deep_view()[1] == send_word() ==> r == Err::<
            Config,
            ConfigError,
        >(ConfigError::MissingTarget),
        args.deep_view().len() >= 3 && args.deep_view()[1] == listen_word() ==> (
        match spec_parse_u16(args.deep_view()[2]) {
            Some(p) => r == Ok::<Config, ConfigError>(Config::Listen(p)),
            None => r == Err::<Config, ConfigError>(ConfigError::InvalidPort),
        }),
        args.deep_view().len() >= 3 && args.deep_view()[1] == send_word() ==> (r matches Ok(c)
            && c matches Config::Send(t) && t@ == args.deep_view()[2]),
{
    proof {
        assert(args.deep_view().len() == args@.len());
    }
    if args.len() < 2 {
        return Err(ConfigError::Usage);
    }
    let listen_w: Vec<u8> = vec![108u8, 105u8, 115u8, 116u8, 101u8, 110u8];
    let send_w: Vec<u8> = vec![115u8, 101u8, 110u8, 100u8];
    proof {
        assert(listen_w@ =~= listen_word());
        assert(send_w@ =~= send_word());
        assert(args.deep_view()[1] == args@[1]@);
    }
    if bytes_eq(args[1].as_slice(), listen_w.as_slice()) {
        if args.len() < 3 {
            return Err(ConfigError::MissingPort);
        }
        proof {
            assert(args.deep_view()[2] == args@[2]@);
        }
        match parse_u16(args[2].as_slice()) {
            Some(p) => Ok(Config::Listen(p)),
            None => Err(ConfigError::InvalidPort),
        }
    } else if bytes_eq(args[1].as_slice(), send_w.as_slice()) {
        if args.len() < 3 {
            return Err(ConfigError::MissingTarget);
        }
        proof {
            assert(args.deep_view()[2] == args@[2]@);
        }
        let src = args[2].as_slice();
        let mut t: Vec<u8> = Vec::new();
        let mut i: usize = 0;
        while i < src.len()
            invariant
                i <= src@.len(),
                t@ == src@.take(i as int),
            decreases src@.len() - i,
        {
            t.push(src[i]);
            proof {
                assert(src@.take(i as int + 1) =~= src@.take(i as int).push(src@[i as int]));
            }
            i = i + 1;
        }
        proof {
            assert(src@.take(src@.len() as int) =~= src@);
        }
        Ok(Config::Send(t))
    } else {
        Err(ConfigError::UnknownMode)
    }
}

} // verus!
