use rrr::config::{
    parse_ipv4, parse_passcode, parse_port, parse_socket_addr, read_env, settings, ClientConfig,
    IntErrorKind, ServerConfig,
};
use rrr::server::{RRR_PASSCODE, RRR_PORT};
use rrr::table::StrMap;

fn map_of(pairs: &[(&str, &str)]) -> StrMap<String> {
    let mut m = StrMap::new();
    for (k, v) in pairs {
        m.insert(k.to_string(), v.to_string());
    }
    m
}

fn pairs(v: &[(&str, &str)]) -> Vec<(String, String)> {
    v.iter().map(|(a, b)| (a.to_string(), b.to_string())).collect()
}

#[test]
fn default_port_and_passcode() {
    assert_eq!(RRR_PORT, 2967);
    assert_eq!(RRR_PASSCODE, "rrr");
}

#[test]
fn read_env_takes_rrr_variables_lowercased() {
    let mut m = StrMap::new();
    read_env(
        &mut m,
        &pairs(&[("RRR_IP", "192.168.1.1"), ("HOME", "/root"), ("RRR_K", "My Secret passcode"), ("rrr_p", "1")]),
    );
    assert_eq!(m.get("ip").map(|s| s.as_str()), Some("192.168.1.1"));
    assert_eq!(m.get("k").map(|s| s.as_str()), Some("My Secret passcode"));
    assert_eq!(m.get("HOME"), None);
    assert_eq!(m.get("p"), None);
    assert_eq!(m.len(), 2);
}

#[test]
fn read_env_later_variable_wins() {
    let mut m = StrMap::new();
    read_env(&mut m, &pairs(&[("RRR_P", "1"), ("RRR_p", "2")]));
    assert_eq!(m.get("p").map(|s| s.as_str()), Some("2"));
}

#[test]
fn arguments_override_environment() {
    let m = settings(
        &pairs(&[("RRR_K", "from-env"), ("RRR_P", "1234")]),
        &pairs(&[("k", "from-arg"), ("ip", "10.0.0.1"), ("k", "last-arg")]),
    );
    assert_eq!(m.get("k").map(|s| s.as_str()), Some("last-arg"));
    assert_eq!(m.get("p").map(|s| s.as_str()), Some("1234"));
    assert_eq!(m.get("ip").map(|s| s.as_str()), Some("10.0.0.1"));
}

#[test]
fn passcode_defaults_to_rrr() {
    assert_eq!(parse_passcode(&map_of(&[])), Ok(String::from("rrr")));
    assert_eq!(parse_passcode(&map_of(&[("k", "pw")])), Ok(String::from("pw")));
}

#[test]
fn ipv4_parsing() {
    assert_eq!(parse_ipv4("127.0.0.1"), Some([127, 0, 0, 1]));
    assert_eq!(parse_ipv4("255.255.255.255"), Some([255, 255, 255, 255]));
    assert_eq!(parse_ipv4("0.0.0.0"), Some([0, 0, 0, 0]));
    assert_eq!(parse_ipv4("256.0.0.1"), None);
    assert_eq!(parse_ipv4("01.0.0.1"), None);
    assert_eq!(parse_ipv4("1.2.3"), None);
    assert_eq!(parse_ipv4("1.2.3.4.5"), None);
    assert_eq!(parse_ipv4("1..3.4"), None);
    assert_eq!(parse_ipv4("1.2.3.4 "), None);
    assert_eq!(parse_ipv4("1000.2.3.4"), None);
    assert_eq!(parse_ipv4(""), None);
}

#[test]
fn ipv4_parsing_refuses_leading_zeros_and_signs() {
    for s in ["192.168.001.1", "a.b.c.d", "1.2.3.-4", "+1.2.3.4", "0.0.0.00"] {
        assert_eq!(parse_ipv4(s), None, "{s}");
    }
    assert_eq!(parse_ipv4("10.0.0.255"), Some([10, 0, 0, 255]));
}

#[test]
fn port_parsing() {
    assert_eq!(parse_port("2967"), Ok(2967));
    assert_eq!(parse_port("+80"), Ok(80));
    assert_eq!(parse_port("0080"), Ok(80));
    assert_eq!(parse_port("65535"), Ok(65535));
    assert_eq!(parse_port("65536"), Err(IntErrorKind::PosOverflow));
    assert_eq!(parse_port("80142"), Err(IntErrorKind::PosOverflow));
    assert_eq!(parse_port(""), Err(IntErrorKind::Empty));
    assert_eq!(parse_port("+"), Err(IntErrorKind::InvalidDigit));
    assert_eq!(parse_port("-"), Err(IntErrorKind::InvalidDigit));
    assert_eq!(parse_port("-1"), Err(IntErrorKind::InvalidDigit));
    assert_eq!(parse_port("12a"), Err(IntErrorKind::InvalidDigit));
    assert_eq!(parse_port("99999x"), Err(IntErrorKind::PosOverflow));
}

#[test]
fn port_parsing_agrees_with_std() {
    for s in ["1", "+1", "-1", "", "+", "65535", "65536", "0000065535", "7x", "999999x", " 1"] {
        let mine = parse_port(s).ok();
        assert_eq!(mine, s.parse::<u16>().ok(), "{s}");
    }
}

#[test]
fn socket_addr_defaults_and_options() {
    let a = parse_socket_addr(&map_of(&[]), [1, 2, 3, 4], 5).unwrap();
    assert_eq!((a.ip, a.port), ([1, 2, 3, 4], 5));
    let a = parse_socket_addr(&map_of(&[("ip", "10.0.0.2"), ("p", "1234")]), [1, 2, 3, 4], 5).unwrap();
    assert_eq!((a.ip, a.port), ([10, 0, 0, 2], 1234));
}

#[test]
fn socket_addr_errors() {
    assert_eq!(
        parse_socket_addr(&map_of(&[("ip", "localhost")]), [0; 4], 1),
        Err(String::from("Could not parse ip address: invalid IPv4 address syntax"))
    );
    assert_eq!(
        parse_socket_addr(&map_of(&[("p", "80142")]), [0; 4], 1),
        Err(String::from("Error parsing port: number too large to fit in target type"))
    );
    assert_eq!(
        parse_socket_addr(&map_of(&[("p", "")]), [0; 4], 1),
        Err(String::from("Error parsing port: cannot parse integer from empty string"))
    );
    assert_eq!(
        parse_socket_addr(&map_of(&[("p", "x")]), [0; 4], 1),
        Err(String::from("Error parsing port: invalid digit found in string"))
    );
    assert_eq!(
        parse_socket_addr(&map_of(&[("ip", "x"), ("p", "x")]), [0; 4], 1),
        Err(String::from("Could not parse ip address: invalid IPv4 address syntax"))
    );
}

#[test]
fn server_config_defaults() {
    let c = ServerConfig::parse(map_of(&[]), Ok(String::from("/srv/rrr"))).unwrap();
    assert_eq!(c.launchers, "/srv/rrr/launchers");
    assert_eq!(c.socket_addr.ip, [0, 0, 0, 0]);
    assert_eq!(c.socket_addr.port, 2967);
    assert_eq!(c.passcode, "rrr");
}

#[test]
fn server_config_from_options() {
    let c = ServerConfig::parse(
        map_of(&[("l", "/usr/share/rrr/launchers"), ("p", "1234"), ("ip", "127.0.0.1"), ("k", "pw")]),
        Err(String::from("unused")),
    )
    .unwrap();
    assert_eq!(c.launchers, "/usr/share/rrr/launchers");
    assert_eq!(c.socket_addr.ip, [127, 0, 0, 1]);
    assert_eq!(c.socket_addr.port, 1234);
    assert_eq!(c.passcode, "pw");
}

#[test]
fn server_config_root_working_directory() {
    let c = ServerConfig::parse(map_of(&[]), Ok(String::from("/"))).unwrap();
    assert_eq!(c.launchers, "/launchers");
}

#[test]
fn server_config_without_working_directory() {
    assert_eq!(
        ServerConfig::parse(map_of(&[]), Err(String::from("No such file or directory (os error 2)")))
            .unwrap_err(),
        "Error locating launchers from current working directory: No such file or directory (os error 2)"
    );
}

#[test]
fn server_config_bad_port() {
    assert_eq!(
        ServerConfig::parse(map_of(&[("p", "80142")]), Ok(String::from("/x"))).unwrap_err(),
        "Error parsing port: number too large to fit in target type"
    );
}

#[test]
fn client_config_defaults() {
    let c = ClientConfig::parse(map_of(&[])).unwrap();
    assert_eq!(c.socket_addr.ip, [127, 0, 0, 1]);
    assert_eq!(c.socket_addr.port, 2967);
    assert_eq!(c.passcode, "rrr");
}

#[test]
fn client_config_from_options() {
    let c = ClientConfig::parse(map_of(&[("p", "1234"), ("ip", "192.168.1.191"), ("k", "passcode")])).unwrap();
    assert_eq!(c.socket_addr.ip, [192, 168, 1, 191]);
    assert_eq!(c.socket_addr.port, 1234);
    assert_eq!(c.passcode, "passcode");
}

#[test]
fn client_config_bad_ip() {
    assert_eq!(
        ClientConfig::parse(map_of(&[("ip", "1.2.3.256")])).unwrap_err(),
        "Could not parse ip address: invalid IPv4 address syntax"
    );
}
