//! Turning workset connections into per-session configs, and the small
//! pure helpers of the activation path and the stress harness.

use vstd::prelude::*;
use vstd::string::StringExecFns;
use vstd::string::StrSliceExecFns;
use crate::session::SshSessionConfig;
use crate::textscan::{spec_digits, str_eq, u64_to_string};
use crate::workset::{connection_view, opt_view, AuthMethod, ConnectionConfig};

verus! {

broadcast use vstd::string::group_string_axioms;

/// What the host application learns about each slot of an activation.
#[derive(Clone, Debug)]
pub struct SessionInfo {
    pub session_id: String,
    pub connection_index: usize,
    pub host: String,
    pub status: String,
}

/// The endpoint label shown for a session: `user@host:port`.
pub fn host_display(user: &str, host: &str, port: u16) -> (r: String)
    ensures
        r@ == user@ + "@"@ + host@ + ":"@ + spec_digits(port as int),
{
    let mut out: String = user.to_owned();
    out.append("@");
    out.append(host);
    out.append(":");
    let p = u64_to_string(port as u64);
    out.append(p.as_str());
    out
}

/// Builds the session config for a connection that authenticates directly
/// (key or password). The password is attached only under password
/// authentication.
pub fn session_config_for_connection(
    conn: &ConnectionConfig,
    id: String,
    password: Option<String>,
) -> (r: SshSessionConfig)
    requires
        !(connection_view(*conn).auth_method is SshConfig),
    ensures
        r.id == id,
        r.host@ == conn.host@,
        r.port == conn.port,
        r.user@ == conn.user@,
        r.auth_method@ == if connection_view(*conn).auth_method is Key {
            "key"@
        } else {
            "password"@
        },
        opt_view(r.key_path) == connection_view(*conn).key_path,
        opt_view(r.password) == if connection_view(*conn).auth_method is Password {
            opt_view(password)
        } else {
            Option::<Seq<char>>::None
        },
        r.project_path@ == conn.project_path@,
        opt_view(r.ai_cli_command) == connection_view(*conn).ai_cli_command,
        r.keepalive_interval_secs == conn.keepalive_interval_secs,
        r.reconnect_max_retries == conn.reconnect_max_retries,
{
    let is_key: bool = matches!(conn.auth_method, AuthMethod::Key);
    let auth_method: String = if is_key {
        "key".to_owned()
    } else {
        "password".to_owned()
    };
    let pw: Option<String> = if is_key {
        Option::None
    } else {
        password
    };
    SshSessionConfig {
        id,
        host: conn.host.clone(),
        port: conn.port,
        user: conn.user.clone(),
        auth_method,
        key_path: match &conn.key_path {
            Option::Some(p) => Option::Some(p.clone()),
            Option::None => Option::None,
        },
        password: pw,
        project_path: conn.project_path.clone(),
        ai_cli_command: match &conn.ai_cli_command {
            Option::Some(c) => Option::Some(c.clone()),
            Option::None => Option::None,
        },
        keepalive_interval_secs: conn.keepalive_interval_secs,
        reconnect_max_retries: conn.reconnect_max_retries,
    }
}

/// Builds the session config for a connection resolved through the user's
/// client configuration: the resolved endpoint and identity file arrive as
/// plain values, and the session authenticates by key.
pub fn session_config_from_resolved(
    conn: &ConnectionConfig,
    id: String,
    host: String,
    port: u16,
    user: String,
    key_path: String,
) -> (r: SshSessionConfig)
    ensures
        r.id == id,
        r.host == host,
        r.port == port,
        r.user == user,
        r.auth_method@ == "key"@,
        opt_view(r.key_path) == Option::Some(key_path@),
        r.password is None,
        r.project_path@ == conn.project_path@,
        opt_view(r.ai_cli_command) == connection_view(*conn).ai_cli_command,
        r.keepalive_interval_secs == conn.keepalive_interval_secs,
        r.reconnect_max_retries == conn.reconnect_max_retries,
{
    SshSessionConfig {
        id,
        host,
        port,
        user,
        auth_method: "key".to_owned(),
        key_path: Option::Some(key_path),
        password: Option::None,
        project_path: conn.project_path.clone(),
        ai_cli_command: match &conn.ai_cli_command {
            Option::Some(c) => Option::Some(c.clone()),
            Option::None => Option::None,
        },
        keepalive_interval_secs: conn.keepalive_interval_secs,
        reconnect_max_retries: conn.reconnect_max_retries,
    }
}

/// Index of the last colon, or minus one.
pub open spec fn last_colon(s: Seq<char>) -> int
    decreases s.len(),
{
    if s.len() == 0 {
        -1
    } else if s.last() == ':' {
        s.len() - 1
    } else {
        last_colon(s.drop_last())
    }
}

proof fn lemma_last_colon_at(s: Seq<char>, k: int)
    requires
        -1 <= k < s.len(),
        forall|j: int| k < j < s.len() ==> (#[trigger] s[j]) != ':',
        k >= 0 ==> s[k] == ':',
    ensures
        last_colon(s) == k,
    decreases s.len(),
{
    if s.len() > 0 {
        if k == s.len() - 1 {
        } else {
            assert(s.last() != ':');
            lemma_last_colon_at(s.drop_last(), k);
        }
    }
}

/// A decimal port number: an optional plus sign, then digits, valued at
/// most 65535.
pub open spec fn digits_val_c(s: Seq<char>) -> int
    decreases s.len(),
{
    if s.len() == 0 {
        0
    } else {
        digits_val_c(s.drop_last()) * 10 + (s.last() as u32 - 48)
    }
}

pub open spec fn is_digit_c(c: char) -> bool {
    48 <= c as u32 <= 57
}

pub open spec fn spec_parse_digits_u16(digits: Seq<char>) -> Option<u16> {
    if digits.len() > 0 && (forall|i: int| 0 <= i < digits.len() ==> is_digit_c(
        #[trigger] digits[i],
    )) && digits_val_c(digits) <= 65535 {
        Option::Some(digits_val_c(digits) as u16)
    } else {
        Option::None
    }
}

pub open spec fn spec_parse_u16(s: Seq<char>) -> Option<u16> {
    spec_parse_digits_u16(
        if s.len() > 0 && s[0] == '+' {
            s.drop_first()
        } else {
            s
        },
    )
}

/// The host part of a `host[:port]` target.
pub open spec fn spec_target_host(s: Seq<char>) -> Seq<char> {
    if last_colon(s) >= 0 {
        s.take(last_colon(s))
    } else {
        s
    }
}

/// The port of a `host[:port]` target; anything unusable falls back to 22.
pub open spec fn spec_target_port(s: Seq<char>) -> u16 {
    if last_colon(s) >= 0 {
        match spec_parse_u16(s.skip(last_colon(s) + 1)) {
            Option::Some(p) => p,
            Option::None => 22,
        }
    } else {
        22
    }
}

fn parse_u16_chars(s: &str, from: usize) -> (r: Option<u16>)
    requires
        from <= s@.len(),
    ensures
        r == spec_parse_u16(s@.skip(from as int)),
{
    let n: usize = s.unicode_len();
    let ghost piece = s@.skip(from as int);
    let mut i: usize = from;
    if i < n {
        let c = s.get_char(i);
        if c == '+' {
            i = i + 1;
        }
    }
    let ghost digits = s@.skip(i as int);
    proof {
        if piece.len() > 0 && piece[0] == '+' {
            assert(piece[0] == s@[from as int]);
            assert(digits =~= piece.drop_first());
        } else {
            if piece.len() > 0 {
                assert(piece[0] == s@[from as int]);
            }
            assert(digits =~= piece);
        }
        assert(spec_parse_u16(piece) == spec_parse_digits_u16(digits));
    }
    if i == n {
        return Option::None;
    }
    let mut acc: u32 = 0;
    let mut k: usize = i;
    while k < n
        invariant
            n == s@.len(),
            i <= k <= n,
            digits == s@.skip(i as int),
            piece == s@.skip(from as int),
            from <= s@.len(),
            spec_parse_u16(piece) == spec_parse_digits_u16(digits),
            forall|j: int| 0 <= j < k - i ==> is_digit_c(#[trigger] digits[j]),
            acc == digits_val_c(digits.take(k - i)),
            acc <= 65535,
        decreases n - k,
    {
        let c: char = s.get_char(k);
        let cu: u32 = c as u32;
        if !(48 <= cu && cu <= 57) {
            proof {
                assert(digits[k - i] == s@[k as int]);
                assert(!(forall|j: int| 0 <= j < digits.len() ==> is_digit_c(
                    #[trigger] digits[j],
                ))) by {
                    assert(0 <= k - i < digits.len() && !is_digit_c(digits[k - i]));
                }
                assert(spec_parse_digits_u16(digits) is None);
            }
            return Option::None;
        }
        let d: u32 = cu - 48;
        let cand: u32 = acc * 10 + d;
        proof {
            assert(digits.take(k - i + 1).drop_last() =~= digits.take(k - i));
            assert(digits.take(k - i + 1).last() == digits[k - i]);
            assert(digits[k - i] == s@[k as int]);
        }
        if cand > 65535 {
            proof {
                if forall|j: int| 0 <= j < digits.len() ==> is_digit_c(#[trigger] digits[j]) {
                    lemma_digits_monotone(digits, k - i + 1);
                    assert(digits_val_c(digits) > 65535);
                }
                assert(spec_parse_digits_u16(digits) is None);
            }
            return Option::None;
        }
        acc = cand;
        k = k + 1;
    }
    proof {
        assert(digits.take(n - i) =~= digits);
    }
    Option::Some(acc as u16)
}

/// A longer digit run never has a smaller value.
proof fn lemma_digits_monotone(s: Seq<char>, m: int)
    requires
        0 <= m <= s.len(),
        forall|j: int| 0 <= j < s.len() ==> is_digit_c(#[trigger] s[j]),
        digits_val_c(s.take(m)) > 65535,
    ensures
        digits_val_c(s) > 65535,
    decreases s.len() - m,
{
    if m < s.len() {
        assert(s.take(m + 1).drop_last() =~= s.take(m));
        assert(digits_val_c(s.take(m + 1)) == digits_val_c(s.take(m)) * 10 + (s[m] as u32 - 48));
        assert(s[m] as u32 - 48 >= 0);
        lemma_digits_monotone(s, m + 1);
    } else {
        assert(s.take(m) =~= s);
    }
}

/// Splits a `host[:port]` target at its last colon; a missing or
/// unparseable port falls back to 22.
pub fn parse_host_port(target: &str) -> (r: (String, u16))
    ensures
        r.0@ == spec_target_host(target@),
        r.1 == spec_target_port(target@),
{
    let n: usize = target.unicode_len();
    let mut k: usize = n;
    let mut found: bool = false;
    while k > 0 && !found
        invariant
            n == target@.len(),
            k <= n,
            forall|j: int| k <= j < n ==> (#[trigger] target@[j]) != ':',
            found ==> k > 0 && target@[k - 1] == ':',
        decreases k + (if found { 0int } else { 1int }),
    {
        if target.get_char(k - 1) == ':' {
            found = true;
        } else {
            k = k - 1;
        }
    }
    if found {
        proof {
            lemma_last_colon_at(target@, k - 1);
        }
        let host: String = target.substring_char(0, k - 1).to_owned();
        let port: u16 = match parse_u16_chars(target, k) {
            Option::Some(p) => p,
            Option::None => 22,
        };
        (host, port)
    } else {
        proof {
            lemma_last_colon_at(target@, -1);
        }
        (target.to_owned(), 22)
    }
}

/// The shell command one interactive workload cycle runs, by intensity.
pub fn pty_workload_cmd(intensity: &str) -> (r: &'static str)
    ensures
        intensity@ == "low"@ ==> r@ == "for i in $(seq 1 5); do echo pty-heartbeat-$i; done"@,
        intensity@ == "high"@ ==> r@ == "yes 'pty-flood-line' | head -n 200"@,
        intensity@ != "low"@ && intensity@ != "high"@ ==> r@
            == "for i in $(seq 1 20); do echo pty-line-$i; done"@,
{
    proof {
        reveal_strlit("low");
        reveal_strlit("high");
        assert("low"@.len() == 3);
        assert("high"@.len() == 4);
        assert("low"@ != "high"@);
    }
    if str_eq(intensity, "low") {
        let r: &'static str = "for i in $(seq 1 5); do echo pty-heartbeat-$i; done";
        proof {
            assert(r@ == "for i in $(seq 1 5); do echo pty-heartbeat-$i; done"@);
        }
        r
    } else if str_eq(intensity, "high") {
        let r: &'static str = "yes 'pty-flood-line' | head -n 200";
        proof {
            assert(r@ == "yes 'pty-flood-line' | head -n 200"@);
        }
        r
    } else {
        let r: &'static str = "for i in $(seq 1 20); do echo pty-line-$i; done";
        proof {
            assert(r@ == "for i in $(seq 1 20); do echo pty-line-$i; done"@);
        }
        r
    }
}

} // verus!
