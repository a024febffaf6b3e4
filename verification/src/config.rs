//! The configuration of the client and of the server: options given as
//! `name=value` arguments or as `RRR_NAME` environment variables, read into a
//! table and turned into an address, a passcode and a launcher directory.

use vstd::prelude::*;

use crate::server::{RRR_PASSCODE, RRR_PORT};
use crate::table::StrMap;
use crate::text::{
    chars_of, concat, free_of, has_prefix, join, join_path, lemma_split_on_join, path_join, skip_chars, split_chars,
    split_on, starts_with,
};

verus! {

/// An IPv4 address with a port.
#[derive(Debug, Clone, Copy, PartialEq, Eq)]
pub struct SocketAddrV4 {
    /// The four octets of the address, most significant first.
    pub ip: [u8; 4],
    /// The port.
    pub port: u16,
}

/// Why a text is not a port number (the kinds of `ParseIntError`).
#[derive(Debug, Clone, Copy, PartialEq, Eq)]
pub enum IntErrorKind {
    /// The text is empty.
    Empty,
    /// A character is not a decimal digit (or the text is a lone sign).
    InvalidDigit,
    /// The number is larger than 65535.
    PosOverflow,
}

/// The configuration of the server.
#[derive(Debug, Clone)]
pub struct ServerConfig {
    /// The directory that holds the launchers.
    pub launchers: String,
    /// The address the server listens at.
    pub socket_addr: SocketAddrV4,
    /// The passcode that seals requests and replies.
    pub passcode: String,
}

/// The configuration of the client.
#[derive(Debug, Clone)]
pub struct ClientConfig {
    /// The address of the server.
    pub socket_addr: SocketAddrV4,
    /// The passcode that seals requests and replies.
    pub passcode: String,
}

/// The address any interface listens at.
pub open spec fn unspecified() -> Seq<u8> {
    seq![0u8, 0u8, 0u8, 0u8]
}

/// The loopback address.
pub open spec fn localhost() -> Seq<u8> {
    seq![127u8, 0u8, 0u8, 1u8]
}

/// `c` is an ASCII decimal digit.
pub open spec fn is_digit(c: char) -> bool {
    '0' <= c && c <= '9'
}

/// The value of a decimal digit.
pub open spec fn digit_value(c: char) -> int {
    c as int - 48
}

/// The value of a sequence of decimal digits.
pub open spec fn decimal_value(s: Seq<char>) -> int
    decreases s.len(),
{
    if s.len() == 0 {
        0
    } else {
        decimal_value(s.drop_last()) * 10 + digit_value(s.last())
    }
}

/// One octet of a dotted IPv4 address: one to three digits, no leading zero
/// but in `"0"`, a value of at most 255.
pub open spec fn octet_of(p: Seq<char>) -> Option<u8> {
    if 1 <= p.len() <= 3 && (forall|i: int| 0 <= i < p.len() ==> is_digit(#[trigger] p[i])) && (
    p.len() == 1 || p[0] != '0') && decimal_value(p) <= 255 {
        Some(decimal_value(p) as u8)
    } else {
        None
    }
}

/// The IPv4 address that a text denotes as `Ipv4Addr::from_str` reads it:
/// four octets separated by dots, nothing else.
pub open spec fn ipv4_of(s: Seq<char>) -> Option<Seq<u8>> {
    let parts = split_on(s, '.');
    if parts.len() == 4 && (forall|i: int| 0 <= i < 4 ==> #[trigger] octet_of(parts[i]) is Some) {
        Some(Seq::new(4, |i: int| octet_of(parts[i])->0))
    } else {
        None
    }
}

/// The digits of a port number read from the left onto `acc`, as
/// `u16::from_str` reads them: the first character that is not a digit, or
/// the first digit that takes the value past 65535, is the error.
pub open spec fn port_digits(acc: int, s: Seq<char>) -> Result<int, IntErrorKind>
    decreases s.len(),
{
    if s.len() == 0 {
        Ok(acc)
    } else if !is_digit(s[0]) {
        Err(IntErrorKind::InvalidDigit)
    } else if acc * 10 + digit_value(s[0]) > 65535 {
        Err(IntErrorKind::PosOverflow)
    } else {
        port_digits(acc * 10 + digit_value(s[0]), s.skip(1))
    }
}

/// The port number that a text denotes as `u16::from_str` reads it: an
/// optional `'+'`, then decimal digits.
pub open spec fn port_of(s: Seq<char>) -> Result<u16, IntErrorKind> {
    if s.len() == 0 {
        Err(IntErrorKind::Empty)
    } else if s.len() == 1 && (s[0] == '+' || s[0] == '-') {
        Err(IntErrorKind::InvalidDigit)
    } else {
        let digits = if s[0] == '+' {
            s.skip(1)
        } else {
            s
        };
        match port_digits(0, digits) {
            Ok(v) => Ok(v as u16),
            Err(e) => Err(e),
        }
    }
}

/// The text of a `ParseIntError` of the given kind.
pub open spec fn int_error_text(k: IntErrorKind) -> Seq<char> {
    match k {
        IntErrorKind::Empty => "cannot parse integer from empty string"@,
        IntErrorKind::InvalidDigit => "invalid digit found in string"@,
        IntErrorKind::PosOverflow => "number too large to fit in target type"@,
    }
}

/// The text of the error of a bad IP address option.
pub open spec fn bad_ip_text() -> Seq<char> {
    "Could not parse ip address: invalid IPv4 address syntax"@
}

/// The address and port that the options give, the defaults standing in for
/// the missing ones; or the error of the first option that does not parse.
pub open spec fn socket_addr_of(m: Map<Seq<char>, String>, default_ip: Seq<u8>, default_port: u16) -> Result<
    (Seq<u8>, u16),
    Seq<char>,
> {
    let ip = if m.contains_key("ip"@) {
        ipv4_of(m["ip"@]@)
    } else {
        Some(default_ip)
    };
    let port = if m.contains_key("p"@) {
        port_of(m["p"@]@)
    } else {
        Ok(default_port)
    };
    match ip {
        None => Err(bad_ip_text()),
        Some(a) => match port {
            Err(k) => Err("Error parsing port: "@ + int_error_text(k)),
            Ok(p) => Ok((a, p)),
        },
    }
}

/// The passcode that the options give: option `k`, else `"rrr"`.
pub open spec fn passcode_of(m: Map<Seq<char>, String>) -> Seq<char> {
    if m.contains_key("k"@) {
        m["k"@]@
    } else {
        RRR_PASSCODE@
    }
}

/// The options that `RRR_`-prefixed environment variables give, applied in
/// order onto `m`: the name after the prefix, lowercased, is the option.
pub open spec fn env_applied(m: Map<Seq<char>, String>, vars: Seq<(String, String)>) -> Map<
    Seq<char>,
    String,
>
    decreases vars.len(),
{
    if vars.len() == 0 {
        m
    } else {
        let prev = env_applied(m, vars.drop_last());
        let k = vars.last().0@;
        if has_prefix(k, "RRR_"@) {
            prev.insert(str_lowercase(k.skip(4)), vars.last().1)
        } else {
            prev
        }
    }
}

/// The options given as arguments, applied in order onto `m`.
pub open spec fn args_applied(m: Map<Seq<char>, String>, args: Seq<(String, String)>) -> Map<
    Seq<char>,
    String,
>
    decreases args.len(),
{
    if args.len() == 0 {
        m
    } else {
        args_applied(m, args.drop_last()).insert(args.last().0@, args.last().1)
    }
}

/// What `str::to_lowercase` gives for a text (Unicode lowercase mapping).
pub uninterp spec fn str_lowercase(s: Seq<char>) -> Seq<char>;

/// `str::to_lowercase`.
#[verifier::external_body]
fn lowercase(s: &str) -> (out: String)
    ensures
        out@ == str_lowercase(s@),
{
    s.to_lowercase()
}

/// Adds to `map` the options that the environment variables `vars` give:
/// each variable named `RRR_<NAME>` sets option `<name>` (lowercased) to its
/// value, later ones over earlier ones; other variables are passed over.
pub fn read_env(map: &mut StrMap<String>, vars: &Vec<(String, String)>)
    ensures
        final(map)@ == env_applied(old(map)@, vars@),
{
    let mut i: usize = 0;
    while i < vars.len()
        invariant
            i <= vars.len(),
            map@ == env_applied(old(map)@, vars@.take(i as int)),
        decreases vars.len() - i,
    {
        let key = &vars[i].0;
        proof {
            reveal_strlit("RRR_");
        }
        assert(vars@.take(i + 1).drop_last() =~= vars@.take(i as int));
        if starts_with(key.as_str(), "RRR_") {
            let rest = skip_chars(key.as_str(), 4);
            let name = lowercase(rest.as_str());
            map.insert(name, vars[i].1.clone());
        }
        i = i + 1;
    }
    assert(vars@.take(vars.len() as int) =~= vars@);
}

/// The options that the environment variables give, with those given as
/// arguments over them.
pub fn settings(env_vars: &Vec<(String, String)>, args: &Vec<(String, String)>) -> (out: StrMap<String>)
    ensures
        out@ == args_applied(env_applied(Map::empty(), env_vars@), args@),
{
    let mut map: StrMap<String> = StrMap::new();
    read_env(&mut map, env_vars);
    let ghost from_env = map@;
    let mut i: usize = 0;
    while i < args.len()
        invariant
            i <= args.len(),
            map@ == args_applied(from_env, args@.take(i as int)),
        decreases args.len() - i,
    {
        assert(args@.take(i + 1).drop_last() =~= args@.take(i as int));
        map.insert(args[i].0.clone(), args[i].1.clone());
        i = i + 1;
    }
    assert(args@.take(args.len() as int) =~= args@);
    map
}

/// An option given as an argument takes precedence over the environment: its
/// value, the last one given for it, is what the settings hold.
pub proof fn lemma_arguments_override_environment(
    env_vars: Seq<(String, String)>,
    args: Seq<(String, String)>,
    k: Seq<char>,
    i: int,
)
    requires
        0 <= i < args.len(),
        args[i].0@ == k,
        forall|j: int| i < j < args.len() ==> #[trigger] args[j].0@ != k,
    ensures
        args_applied(env_applied(Map::empty(), env_vars), args).contains_key(k),
        args_applied(env_applied(Map::empty(), env_vars), args)[k] == args[i].1,
    decreases args.len(),
{
    let base = env_applied(Map::empty(), env_vars);
    if i == args.len() - 1 {
    } else {
        let init = args.drop_last();
        assert forall|j: int| i < j < init.len() implies #[trigger] init[j].0@ != k by {
            assert(init[j] == args[j]);
        }
        lemma_arguments_override_environment(env_vars, init, k, i);
        assert(args.last().0@ != k);
    }
}

/// A decimal digit's value.
fn digit(c: char) -> (d: u32)
    requires
        is_digit(c),
    ensures
        d == digit_value(c),
        d <= 9,
{
    (c as u32) - 48
}

/// One octet of a dotted address, or `None`.
fn parse_octet(p: &Vec<char>) -> (out: Option<u8>)
    ensures
        out == octet_of(p@),
{
    if p.len() < 1 || p.len() > 3 {
        return None;
    }
    if p.len() > 1 && p[0] == '0' {
        return None;
    }
    let mut acc: u32 = 0;
    let mut i: usize = 0;
    while i < p.len()
        invariant
            1 <= p.len() <= 3,
            i <= p.len(),
            forall|j: int| 0 <= j < i ==> is_digit(#[trigger] p@[j]),
            acc == decimal_value(p@.take(i as int)),
            acc <= 999,
            i == 0 ==> acc == 0,
            i == 1 ==> acc <= 9,
            i == 2 ==> acc <= 99,
        decreases p.len() - i,
    {
        let c = p[i];
        if !('0' <= c && c <= '9') {
            return None;
        }
        assert(p@.take(i + 1).drop_last() =~= p@.take(i as int));
        acc = acc * 10 + digit(c);
        i = i + 1;
    }
    assert(p@.take(p.len() as int) =~= p@);
    if acc > 255 {
        return None;
    }
    Some(acc as u8)
}

/// The IPv4 address that `s` denotes (`Ipv4Addr::from_str`), or `None`.
pub fn parse_ipv4(s: &str) -> (out: Option<[u8; 4]>)
    ensures
        out is Some <==> ipv4_of(s@) is Some,
        out matches Some(a) ==> a@ == ipv4_of(s@)->0,
{
    let cs = chars_of(s);
    let parts = split_chars(&cs, '.');
    if parts.len() != 4 {
        return None;
    }
    let mut octets: Vec<u8> = Vec::new();
    let mut i: usize = 0;
    while i < 4
        invariant
            parts@.len() == 4,
            cs@ == s@,
            forall|j: int| 0 <= j < 4 ==> #[trigger] parts@[j]@ == split_on(s@, '.')[j],
            i <= 4,
            octets@.len() == i,
            forall|j: int| 0 <= j < i ==> #[trigger] octet_of(split_on(s@, '.')[j]) == Some(octets@[j]),
        decreases 4 - i,
    {
        match parse_octet(&parts[i]) {
            Some(o) => {
                octets.push(o);
            },
            None => {
                assert(octet_of(split_on(s@, '.')[i as int]) is None);
                return None;
            },
        }
        i = i + 1;
    }
    let a: [u8; 4] = [octets[0], octets[1], octets[2], octets[3]];
    assert(a@ =~= ipv4_of(s@)->0);
    Some(a)
}

/// The port number that `s` denotes (`u16::from_str`), or why it is none.
#[verifier::rlimit(30)]
pub fn parse_port(s: &str) -> (out: Result<u16, IntErrorKind>)
    ensures
        out == port_of(s@),
{
    let cs = chars_of(s);
    if cs.len() == 0 {
        return Err(IntErrorKind::Empty);
    }
    if cs.len() == 1 && (cs[0] == '+' || cs[0] == '-') {
        return Err(IntErrorKind::InvalidDigit);
    }
    let start: usize = if cs[0] == '+' {
        1
    } else {
        0
    };
    let ghost digits = if cs@[0] == '+' {
        cs@.skip(1)
    } else {
        cs@
    };
    assert(digits =~= cs@.skip(start as int));
    let mut acc: u32 = 0;
    let mut i: usize = start;
    assert(cs@.skip(i as int) =~= digits.skip(0));
    while i < cs.len()
        invariant
            start <= i <= cs.len(),
            cs@ == s@,
            s@.len() > 0,
            !(s@.len() == 1 && (s@[0] == '+' || s@[0] == '-')),
            digits == (if s@[0] == '+' {
                s@.skip(1)
            } else {
                s@
            }),
            digits == cs@.skip(start as int),
            acc <= 65535,
            port_digits(0, digits) == port_digits(acc as int, cs@.skip(i as int)),
        decreases cs.len() - i,
    {
        let c = cs[i];
        assert(cs@.skip(i as int)[0] == c);
        if !('0' <= c && c <= '9') {
            return Err(IntErrorKind::InvalidDigit);
        }
        let next = acc * 10 + digit(c);
        if next > 65535 {
            return Err(IntErrorKind::PosOverflow);
        }
        assert(cs@.skip(i as int).skip(1) =~= cs@.skip(i + 1));
        acc = next;
        i = i + 1;
    }
    assert(cs@.skip(i as int) =~= Seq::<char>::empty());
    Ok(acc as u16)
}

/// The passcode that the options give: option `k`, else the default `"rrr"`.
pub fn parse_passcode(map: &StrMap<String>) -> (out: Result<String, String>)
    ensures
        out matches Ok(p) && p@ == passcode_of(map@),
{
    match map.get("k") {
        Some(p) => Ok(p.clone()),
        None => Ok(String::from_str(RRR_PASSCODE)),
    }
}

/// The address and port that the options `ip` and `p` give, the defaults
/// standing in for a missing one; a malformed one is an error.
pub fn parse_socket_addr(map: &StrMap<String>, default_ip: [u8; 4], default_port: u16) -> (out: Result<
    SocketAddrV4,
    String,
>)
    ensures
        match socket_addr_of(map@, default_ip@, default_port) {
            Ok((a, p)) => out matches Ok(addr) && addr.ip@ == a && addr.port == p,
            Err(e) => out matches Err(m) && m@ == e,
        },
{
    let ip = match map.get("ip") {
        Some(ip_str) => match parse_ipv4(ip_str.as_str()) {
            Some(a) => a,
            None => {
                return Err(String::from_str("Could not parse ip address: invalid IPv4 address syntax"));
            },
        },
        None => default_ip,
    };
    let port = match map.get("p") {
        Some(port_str) => match parse_port(port_str.as_str()) {
            Ok(p) => p,
            Err(k) => {
                return Err(concat("Error parsing port: ", int_error_message(k)));
            },
        },
        None => default_port,
    };
    Ok(SocketAddrV4 { ip, port })
}

/// The text of a `ParseIntError` of kind `k`.
pub fn int_error_message(k: IntErrorKind) -> (out: &'static str)
    ensures
        out@ == int_error_text(k),
{
    match k {
        IntErrorKind::Empty => "cannot parse integer from empty string",
        IntErrorKind::InvalidDigit => "invalid digit found in string",
        IntErrorKind::PosOverflow => "number too large to fit in target type",
    }
}

/// The launcher directory that the options give: option `l`, else
/// `launchers` under the working directory `cwd` (whose failure is then an
/// error).
pub open spec fn launchers_of(m: Map<Seq<char>, String>, cwd: Result<String, String>) -> Result<
    Seq<char>,
    Seq<char>,
> {
    if m.contains_key("l"@) {
        Ok(m["l"@]@)
    } else {
        match cwd {
            Ok(d) => Ok(path_join(d@, "launchers"@)),
            Err(e) => Err("Error locating launchers from current working directory: "@ + e@),
        }
    }
}

impl ServerConfig {
    /// The server's configuration from its options: the launcher directory
    /// (option `l`, else `launchers` under the working directory `cwd`), the
    /// address (options `ip` and `p`, else any interface and port 2967) and
    /// the passcode (option `k`, else `"rrr"`). The first that fails gives the
    /// error.
    pub fn parse(map: StrMap<String>, cwd: Result<String, String>) -> (out: Result<Self, String>)
        ensures
            match launchers_of(map@, cwd) {
                Err(e) => out matches Err(m) && m@ == e,
                Ok(l) => match socket_addr_of(map@, unspecified(), RRR_PORT) {
                    Err(e) => out matches Err(m) && m@ == e,
                    Ok((a, p)) => out matches Ok(c) && c.launchers@ == l && c.socket_addr.ip@ == a
                        && c.socket_addr.port == p && c.passcode@ == passcode_of(map@),
                },
            },
    {
        let launchers = match map.get("l") {
            Some(l) => l.clone(),
            None => match cwd {
                Ok(d) => join_path(d.as_str(), "launchers"),
                Err(e) => {
                    return Err(
                        concat(
                            "Error locating launchers from current working directory: ",
                            e.as_str(),
                        ),
                    );
                },
            },
        };
        let socket_addr = match parse_socket_addr(&map, [0u8, 0u8, 0u8, 0u8], RRR_PORT) {
            Ok(a) => a,
            Err(e) => {
                return Err(e);
            },
        };
        proof {
            assert([0u8, 0u8, 0u8, 0u8]@ =~= unspecified());
        }
        let passcode = match parse_passcode(&map) {
            Ok(p) => p,
            Err(e) => {
                return Err(e);
            },
        };
        Ok(ServerConfig { launchers, socket_addr, passcode })
    }
}

impl ClientConfig {
    /// The client's configuration from its options: the server's address
    /// (options `ip` and `p`, else the loopback address and port 2967) and the
    /// passcode (option `k`, else `"rrr"`).
    pub fn parse(map: StrMap<String>) -> (out: Result<Self, String>)
        ensures
            match socket_addr_of(map@, localhost(), RRR_PORT) {
                Err(e) => out matches Err(m) && m@ == e,
                Ok((a, p)) => out matches Ok(c) && c.socket_addr.ip@ == a && c.socket_addr.port == p
                    && c.passcode@ == passcode_of(map@),
            },
    {
        let socket_addr = match parse_socket_addr(&map, [127u8, 0u8, 0u8, 1u8], RRR_PORT) {
            Ok(a) => a,
            Err(e) => {
                return Err(e);
            },
        };
        proof {
            assert([127u8, 0u8, 0u8, 1u8]@ =~= localhost());
        }
        let passcode = match parse_passcode(&map) {
            Ok(p) => p,
            Err(e) => {
                return Err(e);
            },
        };
        Ok(ClientConfig { socket_addr, passcode })
    }
}

/// The port comes from the option `p` alone: without it the port is the
/// default, whatever the `ip` option holds, and with it the port is the
/// number it denotes. The address comes from the option `ip` alone in the
/// same way. Options are refused only for a malformed `ip` or `p`, the
/// address being checked first.
pub proof fn lemma_address_options(m: Map<Seq<char>, String>, default_ip: Seq<u8>, default_port: u16)
    ensures
        !m.contains_key("p"@) ==> (socket_addr_of(m, default_ip, default_port) matches Ok((a, p))
            ==> p == default_port),
        !m.contains_key("p"@) && !m.contains_key("ip"@) ==> (socket_addr_of(m, default_ip, default_port)
            matches Ok((a, p)) && a == default_ip && p == default_port),
        !m.contains_key("p"@) && m.contains_key("ip"@) && ipv4_of(m["ip"@]@) is Some ==> (socket_addr_of(
            m,
            default_ip,
            default_port,
        ) matches Ok((a, p)) && a == ipv4_of(m["ip"@]@)->0 && p == default_port),
        m.contains_key("p"@) ==> (socket_addr_of(m, default_ip, default_port) matches Ok((a, p)) ==> (port_of(
            m["p"@]@,
        ) matches Ok(q) && q == p)),
        !m.contains_key("ip"@) ==> (socket_addr_of(m, default_ip, default_port) matches Ok((a, p)) ==> a
            == default_ip),
        m.contains_key("ip"@) ==> (socket_addr_of(m, default_ip, default_port) matches Ok((a, p))
            ==> ipv4_of(m["ip"@]@) == Some(a)),
        socket_addr_of(m, default_ip, default_port) is Err <==> ((m.contains_key("ip"@) && ipv4_of(
            m["ip"@]@,
        ) is None) || (m.contains_key("p"@) && port_of(m["p"@]@) is Err)),
        m.contains_key("ip"@) && ipv4_of(m["ip"@]@) is None ==> (socket_addr_of(m, default_ip, default_port)
            matches Err(e) && e == "Could not parse ip address: invalid IPv4 address syntax"@),
{
}

/// Two sets of options that agree on `p` give the same port, and two that
/// agree on `ip` give the same address, whatever else they hold.
pub proof fn lemma_address_options_independent(
    m1: Map<Seq<char>, String>,
    m2: Map<Seq<char>, String>,
    default_ip: Seq<u8>,
    default_port: u16,
)
    requires
        socket_addr_of(m1, default_ip, default_port) is Ok,
        socket_addr_of(m2, default_ip, default_port) is Ok,
    ensures
        m1.contains_key("p"@) == m2.contains_key("p"@) && (m1.contains_key("p"@) ==> m1["p"@]@ == m2["p"@]@)
            ==> socket_addr_of(m1, default_ip, default_port)->Ok_0.1 == socket_addr_of(
            m2,
            default_ip,
            default_port,
        )->Ok_0.1,
        m1.contains_key("ip"@) == m2.contains_key("ip"@) && (m1.contains_key("ip"@) ==> m1["ip"@]@
            == m2["ip"@]@) ==> socket_addr_of(m1, default_ip, default_port)->Ok_0.0 == socket_addr_of(
            m2,
            default_ip,
            default_port,
        )->Ok_0.0,
{
}

/// The value of a run of digits does not shrink as digits are added.
proof fn lemma_decimal_grows(s: Seq<char>, j: int, k: int)
    requires
        0 <= j <= k <= s.len(),
        forall|i: int| 0 <= i < s.len() ==> is_digit(#[trigger] s[i]),
    ensures
        0 <= decimal_value(s.take(j)) <= decimal_value(s.take(k)),
    decreases k,
{
    if k > 0 {
        assert(s.take(k).drop_last() =~= s.take(k - 1));
        assert(s.take(k).last() == s[k - 1]);
        if j < k {
            lemma_decimal_grows(s, j, k - 1);
        } else {
            lemma_decimal_grows(s, k - 1, k - 1);
        }
    }
}

/// Reading the digits of `s` one by one, having read the first `k` without
/// failing: the reading gives the value of `s` when all of it is digits worth
/// at most 65535, and fails otherwise.
proof fn lemma_port_walk(s: Seq<char>, k: int)
    requires
        0 <= k <= s.len(),
        forall|j: int| 0 <= j < k ==> is_digit(#[trigger] s[j]),
        forall|j: int| 0 <= j <= k ==> #[trigger] decimal_value(s.take(j)) <= 65535,
        port_digits(0, s) == port_digits(decimal_value(s.take(k)), s.skip(k)),
    ensures
        (forall|j: int| 0 <= j < s.len() ==> is_digit(#[trigger] s[j])) && decimal_value(s) <= 65535
            ==> (port_digits(0, s) matches Ok(v) && v == decimal_value(s)),
        port_digits(0, s) is Ok ==> (forall|j: int| 0 <= j < s.len() ==> is_digit(#[trigger] s[j]))
            && decimal_value(s) <= 65535,
    decreases s.len() - k,
{
    if k == s.len() {
        assert(s.take(k) =~= s);
        assert(s.skip(k) =~= Seq::<char>::empty());
    } else {
        let t = s.skip(k);
        let d = decimal_value(s.take(k));
        assert(t[0] == s[k]);
        assert(s.take(k + 1).drop_last() =~= s.take(k));
        assert(s.take(k + 1).last() == s[k]);
        if (forall|j: int| 0 <= j < s.len() ==> is_digit(#[trigger] s[j])) && decimal_value(s) <= 65535 {
            lemma_decimal_grows(s, k + 1, s.len() as int);
            assert(s.take(s.len() as int) =~= s);
        }
        if is_digit(s[k]) && d * 10 + digit_value(s[k]) <= 65535 {
            assert(t.skip(1) =~= s.skip(k + 1));
            assert forall|j: int| 0 <= j <= k + 1 implies #[trigger] decimal_value(s.take(j)) <= 65535 by {
                if j <= k {
                }
            }
            lemma_port_walk(s, k + 1);
        }
    }
}

/// A text without the `+` sign that may lead it.
pub open spec fn sign_dropped(s: Seq<char>) -> Seq<char> {
    if s.len() > 0 && s[0] == '+' {
        s.skip(1)
    } else {
        s
    }
}

/// A port option is read as `u16::from_str` reads it: after an optional
/// leading `+`, nothing but decimal digits, at least one, worth at most
/// 65535; the port is then their value. An empty option is the error
/// `Empty`.
pub proof fn lemma_port_number(s: Seq<char>)
    ensures
        port_of(s) is Ok <==> (sign_dropped(s).len() > 0 && (forall|j: int|
            0 <= j < sign_dropped(s).len() ==> is_digit(#[trigger] sign_dropped(s)[j])) && decimal_value(
            sign_dropped(s),
        ) <= 65535),
        port_of(s) matches Ok(p) ==> p == decimal_value(sign_dropped(s)),
        s.len() == 0 ==> port_of(s) == Err::<u16, IntErrorKind>(IntErrorKind::Empty),
{
    let digits = if s.len() > 0 && s[0] == '+' {
        s.skip(1)
    } else {
        s
    };
    assert(digits.take(0) =~= Seq::<char>::empty());
    assert(digits.skip(0) =~= digits);
    lemma_port_walk(digits, 0);
    if forall|j: int| 0 <= j < digits.len() ==> is_digit(#[trigger] digits[j]) {
        lemma_decimal_grows(digits, 0, digits.len() as int);
        assert(digits.take(digits.len() as int) =~= digits);
    }
    if s.len() == 1 && (s[0] == '+' || s[0] == '-') {
        if s[0] == '-' {
            assert(!is_digit(digits[0]));
        }
    }
}

/// Four pieces without dots, joined with dots, are an IPv4 address exactly
/// when each piece is an octet, and the address is then those four octets in
/// order.
pub proof fn lemma_dotted_address(parts: Seq<Seq<char>>)
    requires
        parts.len() == 4,
        forall|i: int| 0 <= i < 4 ==> free_of(#[trigger] parts[i], '.'),
    ensures
        (forall|i: int| 0 <= i < 4 ==> #[trigger] octet_of(parts[i]) is Some) ==> (ipv4_of(
            join(parts, seq!['.']),
        ) matches Some(a) && a.len() == 4 && forall|i: int| 0 <= i < 4 ==> Some(#[trigger] a[i]) == octet_of(parts[i])),
        (exists|i: int| 0 <= i < 4 && #[trigger] octet_of(parts[i]) is None) ==> ipv4_of(join(parts, seq!['.'])) is None,
{
    lemma_split_on_join(parts, '.');
}

/// The passcode is option `k` when given and `rrr` otherwise; the launcher
/// directory is option `l` when given, else `launchers` under the working
/// directory; the default port is 2967.
pub proof fn lemma_config_defaults(m: Map<Seq<char>, String>, cwd: Result<String, String>)
    ensures
        m.contains_key("k"@) ==> passcode_of(m) == m["k"@]@,
        !m.contains_key("k"@) ==> passcode_of(m) == "rrr"@,
        m.contains_key("l"@) ==> (launchers_of(m, cwd) matches Ok(l) && l == m["l"@]@),
        !m.contains_key("l"@) && cwd is Ok ==> (launchers_of(m, cwd) matches Ok(l) && l == path_join(
            cwd->Ok_0@,
            "launchers"@,
        )),
        RRR_PORT == 2967,
{
}

} // verus!
