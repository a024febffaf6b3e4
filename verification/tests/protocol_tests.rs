use rrr::client::{create_request, kill_request, ls_request, query_request, Client};
use rrr::config::ClientConfig;
use rrr::config::SocketAddrV4;
use rrr::cypher::{cypher, uncypher};
use rrr::server::{
    creation_failed_reply, created_reply, decide, give_back, is_readable, killed_reply, listing_line,
    open_request, parse_request, record_start, resolve_work_dir, seal_reply, take_repl, Request, SealedReply,
    ServerAction,
};
use rrr::table::StrMap;
use rrr::utils::{ByteRead, LineReader};

fn client(pass: &str) -> Client {
    Client::new(ClientConfig {
        socket_addr: SocketAddrV4 { ip: [127, 0, 0, 1], port: 2967 },
        passcode: pass.to_string(),
    })
}

#[test]
fn request_texts() {
    assert_eq!(create_request("jl-shell", "jl", "~/projects"), "create\njl-shell\n~/projects\njl");
    assert_eq!(kill_request("jl-shell"), "kill\njl-shell\n");
    assert_eq!(ls_request(), "ls\n");
    assert_eq!(query_request("jl-shell", "t", "c = 5"), "run\nt\njl-shell\nc = 5");
}

#[test]
fn create_request_reads_back() {
    let req = create_request("jl-shell", "jl", ".");
    match parse_request(&req) {
        Request::Create { name, workdir, template } => {
            assert_eq!(name, "jl-shell");
            assert_eq!(workdir, ".");
            assert_eq!(template, "jl");
        }
        other => panic!("unexpected {other:?}"),
    }
}

#[test]
fn kill_request_reads_back() {
    match parse_request(&kill_request("jl")) {
        Request::Kill { name } => assert_eq!(name, "jl"),
        other => panic!("unexpected {other:?}"),
    }
    match parse_request(&kill_request("")) {
        Request::Kill { name } => assert_eq!(name, ""),
        other => panic!("unexpected {other:?}"),
    }
}

#[test]
fn ls_request_reads_back() {
    assert!(matches!(parse_request(&ls_request()), Request::List));
}

#[test]
fn query_request_reads_back() {
    match parse_request(&query_request("jl", "r", "a = 1\n\nb = 2")) {
        Request::Run { runtype, name, code } => {
            assert_eq!(runtype, "r");
            assert_eq!(name, "jl");
            assert_eq!(code, "a = 1\n\nb = 2");
        }
        other => panic!("unexpected {other:?}"),
    }
}

#[test]
fn query_request_code_loses_final_newline_and_carriage_returns() {
    match parse_request(&query_request("jl", "r", "a\r\nb\n")) {
        Request::Run { code, .. } => assert_eq!(code, "a\nb"),
        other => panic!("unexpected {other:?}"),
    }
    match parse_request(&query_request("jl", "r", "")) {
        Request::Run { code, .. } => assert_eq!(code, ""),
        other => panic!("unexpected {other:?}"),
    }
}

#[test]
fn malformed_requests() {
    match parse_request("create\na\nb") {
        Request::Invalid { reply } => {
            assert_eq!(reply, "ERRROR: Server error: Invalid number of argument lines in request")
        }
        other => panic!("unexpected {other:?}"),
    }
    match parse_request("kill\n") {
        Request::Invalid { reply } => {
            assert_eq!(reply, "ERRROR: Server error: invalid number of argument lines in request")
        }
        other => panic!("unexpected {other:?}"),
    }
    match parse_request("hello") {
        Request::Invalid { reply } => assert_eq!(reply, "ERRROR: Client sent invalid message query\n"),
        other => panic!("unexpected {other:?}"),
    }
}

#[test]
fn readable_requests() {
    assert!(!is_readable(""));
    assert!(!is_readable("run\nr"));
    assert!(is_readable("run\nr\njl"));
    assert!(is_readable("ls"));
    assert!(is_readable("\n"));
}

#[test]
fn decisions_for_unknown_names() {
    let repls: StrMap<u32> = StrMap::new();
    match decide(&repls, parse_request("kill\njl\n"), "/l/") {
        ServerAction::Reply { text } => assert_eq!(text, "ERRROR: Shell does not exist\n"),
        other => panic!("unexpected {other:?}"),
    }
    match decide(&repls, parse_request("run\nr\njl\nx"), "/l/") {
        ServerAction::Reply { text } => assert_eq!(text, "ERRROR: Repl does not exist"),
        other => panic!("unexpected {other:?}"),
    }
    assert!(matches!(decide(&repls, Request::List, "/l/"), ServerAction::List));
}

#[test]
fn decisions_for_create() {
    let mut repls: StrMap<u32> = StrMap::new();
    match decide(&repls, parse_request("create\njl\n/tmp\njl"), "/usr/share/rrr/launchers") {
        ServerAction::Spawn { name, exe, launcher, dir } => {
            assert_eq!(name, "jl");
            assert_eq!(exe, "jl");
            assert_eq!(launcher, "/usr/share/rrr/launchers/jl");
            assert_eq!(dir, "/tmp");
        }
        other => panic!("unexpected {other:?}"),
    }
    match decide(&repls, parse_request("create\njl\n+fish\n~/dir"), "/srv/launchers") {
        ServerAction::Spawn { exe, launcher, dir, .. } => {
            assert_eq!(exe, "~/dir");
            assert_eq!(launcher, "/srv/launchers/~/dir");
            assert_eq!(dir, "/srv/launchers/fish");
        }
        other => panic!("unexpected {other:?}"),
    }
    match decide(&repls, parse_request("create\njl\n.\n/opt/bin/fish"), "/srv/launchers") {
        ServerAction::Spawn { launcher, dir, .. } => {
            assert_eq!(launcher, "/opt/bin/fish");
            assert_eq!(dir, ".");
        }
        other => panic!("unexpected {other:?}"),
    }
    repls.insert(String::from("jl"), 7);
    match decide(&repls, parse_request("create\njl\n.\njl"), "/srv/launchers/") {
        ServerAction::Reply { text } => assert_eq!(text, "ERRROR: Repl already exists"),
        other => panic!("unexpected {other:?}"),
    }
}

#[test]
fn registry_steps() {
    let mut repls: StrMap<u32> = StrMap::new();
    let reply = record_start(&mut repls, String::from("jl"), Ok(7));
    assert_eq!(reply, "REPL created succesfully");
    assert!(repls.contains_key("jl"));
    let reply = record_start(&mut repls, String::from("py"), Err(String::from("No such file")));
    assert_eq!(reply, "Errror creating repl:No such file");
    assert!(!repls.contains_key("py"));
    assert_eq!(take_repl(&mut repls, "jl"), Some(7));
    assert!(!repls.contains_key("jl"));
    assert_eq!(take_repl(&mut repls, "jl"), None);
    give_back(&mut repls, String::from("jl"), 8);
    assert_eq!(take_repl(&mut repls, "jl"), Some(8));
}

#[test]
fn decisions_for_known_names() {
    let mut repls: StrMap<u32> = StrMap::new();
    repls.insert(String::from("jl"), 7);
    match decide(&repls, parse_request("run\nt\njl\nc\nd"), "/l/") {
        ServerAction::Evaluate { name, runtype, code } => {
            assert_eq!((name.as_str(), runtype.as_str(), code.as_str()), ("jl", "t", "c\nd"));
        }
        other => panic!("unexpected {other:?}"),
    }
    match decide(&repls, parse_request("kill\njl\n"), "/l/") {
        ServerAction::Kill { name } => assert_eq!(name, "jl"),
        other => panic!("unexpected {other:?}"),
    }
    assert_eq!(repls.remove("jl"), Some(7));
    match decide(&repls, parse_request("run\nt\njl\nc"), "/l/") {
        ServerAction::Reply { text } => assert_eq!(text, "ERRROR: Repl does not exist"),
        other => panic!("unexpected {other:?}"),
    }
}

#[test]
fn reply_texts() {
    assert_eq!(created_reply(), "REPL created succesfully");
    assert_eq!(creation_failed_reply("No such file"), "Errror creating repl:No such file");
    assert_eq!(killed_reply(), "Kill signal sent to shell");
    assert_eq!(listing_line("jl", "jl"), "jl jl");
}

#[test]
fn open_request_with_right_and_wrong_passcode() {
    let sealed = cypher(&String::from("ls\n"), "pw").unwrap();
    assert_eq!(open_request(sealed.clone(), "pw"), Ok(String::from("ls\n")));
    assert_eq!(
        open_request(sealed, "other"),
        Err(String::from("ERRROR: Invalid passcode: Could  not decrypt data: Decryption failed: aead::Error"))
    );
}

#[test]
fn sealed_reply_opens_to_its_text() {
    match seal_reply(b"REPL created succesfully".to_vec(), "pw") {
        SealedReply::Line(s) => assert_eq!(uncypher(s, "pw"), Ok(String::from("REPL created succesfully"))),
        other => panic!("unexpected {other:?}"),
    }
}

#[test]
fn sealed_reply_refuses_non_utf8() {
    match seal_reply(vec![0xff, 0x00], "pw") {
        SealedReply::NotUtf8(e) => assert_eq!(e, "invalid utf-8 sequence of 1 bytes from index 0"),
        other => panic!("unexpected {other:?}"),
    }
}

#[test]
fn client_requests_open_on_the_server() {
    let c = client("secret");
    let sealed = c.create_repl("jl", "jl", "/tmp").unwrap();
    let text = open_request(sealed, "secret").unwrap();
    assert_eq!(text, "create\njl\n/tmp\njl");
    let sealed = c.kill_repl("jl").unwrap();
    assert_eq!(open_request(sealed, "secret").unwrap(), "kill\njl\n");
    let sealed = c.ls().unwrap();
    assert_eq!(open_request(sealed, "secret").unwrap(), "ls\n");
    let sealed = c.query("jl", ".p", "").unwrap();
    assert_eq!(open_request(sealed, "secret").unwrap(), "run\n.p\njl\n");
}

#[test]
fn client_opens_server_replies() {
    let c = client("secret");
    let sealed = match seal_reply(b"c = 5".to_vec(), "secret") {
        SealedReply::Line(s) => s,
        other => panic!("unexpected {other:?}"),
    };
    assert_eq!(c.decode_reply(sealed), Ok(String::from("c = 5")));
    assert!(c.decode_reply(String::from("AAAA")).is_err());
    assert_eq!(c.config().passcode, "secret");
}

#[test]
fn reply_lines_open_in_order() {
    let mut stream: Vec<u8> = Vec::new();
    for text in ["jl jl", "", "ERRROR: Repl does not exist"] {
        match seal_reply(text.as_bytes().to_vec(), "pw") {
            SealedReply::Line(s) => {
                stream.extend_from_slice(s.as_bytes());
                stream.push(b'\n');
            }
            other => panic!("unexpected {other:?}"),
        }
    }
    let mut items: Vec<ByteRead> = stream.iter().map(|b| ByteRead::Byte(*b)).collect();
    items.push(ByteRead::End);
    let c = client("pw");
    let mut opened = Vec::new();
    let mut r = LineReader::new();
    for item in items.iter() {
        if let Some(Some(line)) = r.step(*item) {
            opened.push(c.decode_reply(String::from_utf8(line).unwrap()).unwrap());
            r = LineReader::new();
        }
    }
    assert_eq!(opened, vec!["jl jl", "", "ERRROR: Repl does not exist"]);
}

#[test]
fn working_directories_with_plus() {
    assert_eq!(resolve_work_dir("+fish", "/srv/launchers"), "/srv/launchers/fish");
    assert_eq!(resolve_work_dir("+", "/srv/launchers"), "/srv/launchers/");
    assert_eq!(resolve_work_dir("+x", "/srv/launchers/"), "/srv/launchers//x");
    assert_eq!(resolve_work_dir("~/a+b", "/srv/launchers"), "~/a+b");
    assert_eq!(resolve_work_dir("", "/srv/launchers"), "");
}
