use rrr::cli::{mode_of, split_arguments, Mode, RRR_HELP};
use rrr::eres::EvalResult;
use rrr::repl::{evaluation_message, kill_message, output_line, repl_launcher, resolve_dir, END_TOKEN};
use rrr::repls;
use rrr::table::StrMap;
use rrr::text::{join_from, join_path, lines, replace_all};
use rrr::utils::{read_line, ByteRead, LineReader};

fn strings(v: &[&str]) -> Vec<String> {
    v.iter().map(|s| s.to_string()).collect()
}

#[test]
fn launchers_paths() {
    assert_eq!(repl_launcher("fish"), "launchers/fish");
    assert_eq!(repl_launcher("/usr/bin/fish"), "/usr/bin/fish");
    assert_eq!(repls::repl_launcher("jl"), "/home/engon/apps/rrr/launchers/jl");
}

#[test]
fn path_joining() {
    assert_eq!(join_path("/srv", "launchers"), "/srv/launchers");
    assert_eq!(join_path("/srv/", "launchers"), "/srv/launchers");
    assert_eq!(join_path("", "launchers"), "launchers");
    assert_eq!(join_path("a", ""), "a/");
}

#[test]
fn messages_to_the_repl() {
    assert_eq!(END_TOKEN, "~THE END~");
    assert_eq!(evaluation_message("r", "c = 5"), "~THE END~\nr\nc = 5\n~THE END~\n");
    assert_eq!(kill_message(), "kill\n\n");
}

#[test]
fn repl_output_ends_at_the_end_token() {
    assert_eq!(output_line(Some(b"~THE END~".to_vec())), None);
    assert_eq!(output_line(Some(b"5".to_vec())), Some(b"5".to_vec()));
    assert_eq!(output_line(None), None);
}

#[test]
fn directories_of_repls() {
    assert_eq!(resolve_dir("~/projects", "/home/u"), Some(String::from("/home/u/projects")));
    assert_eq!(resolve_dir(".", "/home/u"), None);
    assert_eq!(resolve_dir("/tmp", "/home/u"), Some(String::from("/tmp")));
    assert_eq!(replace_all("~a~", '~', "H"), "HaH");
}

#[test]
fn eval_results() {
    assert!(matches!(repls::parse_eval_result(String::from("ERRROR: boom")), EvalResult::Error(e) if e == "ERRROR: boom"));
    assert!(matches!(repls::parse_eval_result(String::from("Int64")), EvalResult::Text(t) if t == "Int64"));
    assert_eq!(EvalResult::Text(String::from("a")).to_string(), "a");
    assert_eq!(EvalResult::Error(String::from("b")).to_string(), "b");
}

#[test]
fn reading_lines() {
    let items = vec![ByteRead::Byte(b'h'), ByteRead::Byte(b'i'), ByteRead::Byte(10), ByteRead::Byte(b'x')];
    assert_eq!(read_line(&items), Some(b"hi".to_vec()));
    assert_eq!(read_line(&vec![ByteRead::Byte(b'a'), ByteRead::End]), Some(b"a".to_vec()));
    assert_eq!(read_line(&vec![ByteRead::End]), None);
    assert_eq!(read_line(&vec![]), None);
    assert_eq!(read_line(&vec![ByteRead::Byte(10)]), Some(vec![]));
    assert_eq!(read_line(&vec![ByteRead::Byte(b'a'), ByteRead::Failed]), None);
}

#[test]
fn line_reader_steps() {
    let mut r = LineReader::new();
    assert_eq!(r.step(ByteRead::Byte(b'o')), None);
    assert_eq!(r.step(ByteRead::Byte(b'k')), None);
    assert_eq!(r.step(ByteRead::Byte(10)), Some(Some(b"ok".to_vec())));
    let mut r = LineReader::new();
    assert_eq!(r.step(ByteRead::End), Some(None));
}

#[test]
fn lines_and_join() {
    assert_eq!(lines("a\nb\r\nc\r"), strings(&["a", "b", "c\r"]));
    assert_eq!(lines("a\n"), strings(&["a"]));
    assert_eq!(lines("a\n\n"), strings(&["a", ""]));
    assert_eq!(lines(""), Vec::<String>::new());
    for s in ["x\ny\r\n\nz", "\n", "\r\n", "a\rb\n", ""] {
        assert_eq!(lines(s), s.lines().map(|l| l.to_string()).collect::<Vec<_>>(), "{s:?}");
    }
    assert_eq!(join_from(&strings(&["a", "b", "c"]), 1, "\n"), "b\nc");
    assert_eq!(join_from(&strings(&["a"]), 1, "\n"), "");
}

#[test]
fn table_operations() {
    let mut t: StrMap<u8> = StrMap::new();
    assert_eq!(t.len(), 0);
    t.insert(String::from("a"), 1);
    t.insert(String::from("b"), 2);
    t.insert(String::from("a"), 3);
    assert_eq!(t.len(), 2);
    assert_eq!(t.get("a"), Some(&3));
    assert!(t.contains_key("b"));
    let mut keys = t.keys();
    keys.sort();
    assert_eq!(keys, strings(&["a", "b"]));
    assert_eq!(t.remove("a"), Some(3));
    assert_eq!(t.remove("a"), None);
    assert!(!t.contains_key("a"));
    assert_eq!(t.len(), 1);
}

#[test]
fn arguments_split_into_options_and_plain() {
    let (opts, plain) = split_arguments(&strings(&["rrr", "p=1234", "ip=1.2.3.4", "k=a=b", "+jl", "jl", "x=y"]));
    assert_eq!(
        opts,
        vec![
            (String::from("p"), String::from("1234")),
            (String::from("ip"), String::from("1.2.3.4")),
            (String::from("k"), String::from("a=b")),
        ]
    );
    assert_eq!(plain, strings(&["+jl", "jl", "x=y"]));
    let (opts, plain) = split_arguments(&strings(&["rrr"]));
    assert!(opts.is_empty() && plain.is_empty());
}

#[test]
fn modes() {
    assert_eq!(mode_of(&vec![]), Mode::Help);
    assert_eq!(mode_of(&strings(&["help"])), Mode::Help);
    assert_eq!(mode_of(&strings(&["server"])), Mode::Server);
    assert_eq!(mode_of(&strings(&["jl"])), Mode::Client);
    assert!(RRR_HELP.contains("rrr, the remote repl runner:"));
}

#[test]
fn launcher_reads_back_run_type_and_code() {
    let msg = evaluation_message("t", "a = 1\r\nb = 2");
    let read: Vec<&str> = msg.lines().collect();
    assert_eq!(read, vec!["~THE END~", "t", "a = 1", "b = 2", "~THE END~"]);
    assert_eq!(lines(&msg), strings(&["~THE END~", "t", "a = 1", "b = 2", "~THE END~"]));
}

#[test]
fn successive_reads_of_one_stream() {
    let stream = b"a\n\nb";
    let mut items: Vec<ByteRead> = stream.iter().map(|b| ByteRead::Byte(*b)).collect();
    items.push(ByteRead::End);
    let mut got = Vec::new();
    let mut r = LineReader::new();
    for item in items.iter() {
        if let Some(line) = r.step(*item) {
            got.push(line);
            r = LineReader::new();
        }
    }
    assert_eq!(got, vec![Some(b"a".to_vec()), Some(vec![]), Some(b"b".to_vec())]);
    assert_eq!(r.step(ByteRead::End), Some(None));
}
