//! The server's side of the protocol: what a request asks, what the server
//! does for it and what it answers. The server loop itself (sockets and
//! processes) is the caller's; it performs the actions decided here.

use vstd::prelude::*;
use vstd::utf8::*;

use crate::client::{create_request_of, first_is, kill_request_of, ls_request_of, query_request_of};
use crate::cypher::{cypher, key_of, opened, result_view, sealed_for};
use crate::table::StrMap;
use crate::text::{
    concat, free_of, is_plain_field, join, join_from, join_path, lemma_lines_of_concat,
    lemma_lines_of_join, lemma_split_on_free, lines, lines_of, path_join, same_text, split_on,
    skip_chars, starts_with, strip_cr, string_from_utf8, utf8_error_text, views,
};

verus! {

/// The port that the server listens at and that the client connects to when
/// no port option is given.
pub const RRR_PORT: u16 = 2967;

/// The passcode used when no `k` option is given.
pub const RRR_PASSCODE: &'static str = "rrr";

/// A request, as the server reads it from the lines of its text.
#[derive(Debug)]
pub enum Request {
    /// `create`: start a REPL named `name` from launcher `template`, in the
    /// working directory `workdir`.
    Create { name: String, workdir: String, template: String },
    /// `kill`: stop the REPL named `name`.
    Kill { name: String },
    /// `run`: send `code` to the REPL named `name` with run type `runtype`.
    Run { runtype: String, name: String, code: String },
    /// `ls`: list the REPLs.
    List,
    /// A request the server refuses, with the reply it gets.
    Invalid { reply: String },
}

/// The meaning of a request.
pub enum RequestView {
    Create { name: Seq<char>, workdir: Seq<char>, template: Seq<char> },
    Kill { name: Seq<char> },
    Run { runtype: Seq<char>, name: Seq<char>, code: Seq<char> },
    List,
    Invalid { reply: Seq<char> },
}

impl View for Request {
    type V = RequestView;

    open spec fn view(&self) -> RequestView {
        match self {
            Request::Create { name, workdir, template } => RequestView::Create {
                name: name@,
                workdir: workdir@,
                template: template@,
            },
            Request::Kill { name } => RequestView::Kill { name: name@ },
            Request::Run { runtype, name, code } => RequestView::Run {
                runtype: runtype@,
                name: name@,
                code: code@,
            },
            Request::List => RequestView::List,
            Request::Invalid { reply } => RequestView::Invalid { reply: reply@ },
        }
    }
}

/// The reply to a `create` request without four lines.
pub open spec fn create_args_reply() -> Seq<char> {
    "ERRROR: Server error: Invalid number of argument lines in request"@
}

/// The reply to a `kill` request without two lines.
pub open spec fn kill_args_reply() -> Seq<char> {
    "ERRROR: Server error: invalid number of argument lines in request"@
}

/// The reply to a request of no known kind.
pub open spec fn unknown_reply() -> Seq<char> {
    "ERRROR: Client sent invalid message query\n"@
}

/// A request text the server can read: it has a first line, and a `run`
/// request has at least three.
pub open spec fn request_readable(content: Seq<char>) -> bool {
    let ls = lines_of(content);
    ls.len() >= 1 && (ls[0] == "run"@ ==> ls.len() >= 3)
}

/// What a request asks, from its lines: the first names the kind, the others
/// are its fields (for `create`: the name, the working directory, the
/// launcher); the code of a `run` request is all its lines from the
/// fourth on, joined with line feeds.
pub open spec fn request_of(ls: Seq<Seq<char>>) -> RequestView {
    if ls[0] == "create"@ {
        if ls.len() != 4 {
            RequestView::Invalid { reply: create_args_reply() }
        } else {
            RequestView::Create { name: ls[1], workdir: ls[2], template: ls[3] }
        }
    } else if ls[0] == "kill"@ {
        if ls.len() != 2 {
            RequestView::Invalid { reply: kill_args_reply() }
        } else {
            RequestView::Kill { name: ls[1] }
        }
    } else if ls[0] == "run"@ {
        RequestView::Run { runtype: ls[1], name: ls[2], code: join(ls.skip(3), "\n"@) }
    } else if ls[0] == "ls"@ {
        RequestView::List
    } else {
        RequestView::Invalid { reply: unknown_reply() }
    }
}

/// Whether the server can read the request text `content`.
pub fn is_readable(content: &str) -> (out: bool)
    ensures
        out == request_readable(content@),
{
    let ls = lines(content);
    if ls.len() == 0 {
        return false;
    }
    if same_text(ls[0].as_str(), "run") {
        ls.len() >= 3
    } else {
        true
    }
}

/// Reads a request from its text.
pub fn parse_request(content: &str) -> (req: Request)
    requires
        request_readable(content@),
    ensures
        req@ == request_of(lines_of(content@)),
{
    let ls = lines(content);
    let ghost v = views(ls@);
    assert(v[0] == ls@[0]@);
    if same_text(ls[0].as_str(), "create") {
        if ls.len() != 4 {
            Request::Invalid {
                reply: String::from_str("ERRROR: Server error: Invalid number of argument lines in request"),
            }
        } else {
            assert(v[1] == ls@[1]@ && v[2] == ls@[2]@ && v[3] == ls@[3]@);
            Request::Create { name: ls[1].clone(), workdir: ls[2].clone(), template: ls[3].clone() }
        }
    } else if same_text(ls[0].as_str(), "kill") {
        if ls.len() != 2 {
            Request::Invalid {
                reply: String::from_str("ERRROR: Server error: invalid number of argument lines in request"),
            }
        } else {
            assert(v[1] == ls@[1]@);
            Request::Kill { name: ls[1].clone() }
        }
    } else if same_text(ls[0].as_str(), "run") {
        assert(v[1] == ls@[1]@ && v[2] == ls@[2]@);
        let code = join_from(&ls, 3, "\n");
        Request::Run { runtype: ls[1].clone(), name: ls[2].clone(), code }
    } else if same_text(ls[0].as_str(), "ls") {
        Request::List
    } else {
        Request::Invalid { reply: String::from_str("ERRROR: Client sent invalid message query\n") }
    }
}

/// A `create` request built by the client reads back, on the server, as a
/// `create` request of the same REPL, launcher and working directory.
pub proof fn lemma_create_request_reads_back(replid: Seq<char>, template: Seq<char>, workdir: Seq<char>)
    requires
        is_plain_field(replid),
        is_plain_field(template),
        is_plain_field(workdir),
        template.len() > 0,
    ensures
        request_readable(create_request_of(replid, template, workdir)),
        request_of(lines_of(create_request_of(replid, template, workdir))) == (RequestView::Create {
            name: replid,
            workdir,
            template,
        }),
{
    reveal_strlit("create\n");
    reveal_strlit("create");
    reveal_strlit("\n");
    reveal_strlit("run");
    let word = seq!['c', 'r', 'e', 'a', 't', 'e'];
    let parts = seq![word, replid, workdir, template];
    assert(is_plain_field(word)) by {
        assert(strip_cr(word) == word);
    }
    assert(join(parts, seq!['\n']) =~= create_request_of(replid, template, workdir)) by {
        let p1 = seq![word];
        let p2 = seq![word, replid];
        let p3 = seq![word, replid, workdir];
        assert(p2.drop_last() =~= p1);
        assert(p3.drop_last() =~= p2);
        assert(parts.drop_last() =~= p3);
        assert(join(p1, seq!['\n']) == word);
        assert(join(p2, seq!['\n']) == word + seq!['\n'] + replid);
        assert(join(p3, seq!['\n']) == word + seq!['\n'] + replid + seq!['\n'] + workdir);
        assert("create\n"@ =~= word + seq!['\n']);
        assert("\n"@ =~= seq!['\n']);
    }
    assert forall|i: int| 0 <= i < parts.len() implies is_plain_field(#[trigger] parts[i]) by {}
    lemma_lines_of_join(parts);
    assert(word =~= "create"@);
    assert(word != "run"@) by {
        assert(word.len() != "run"@.len());
    }
}

/// A `kill` request built by the client reads back, on the server, as a
/// `kill` request of the same REPL.
pub proof fn lemma_kill_request_reads_back(name: Seq<char>)
    requires
        is_plain_field(name),
    ensures
        request_readable(kill_request_of(name)),
        request_of(lines_of(kill_request_of(name))) == (RequestView::Kill { name }),
{
    reveal_strlit("kill\n");
    reveal_strlit("kill");
    reveal_strlit("create");
    reveal_strlit("\n");
    reveal_strlit("run");
    let word = seq!['k', 'i', 'l', 'l'];
    assert(is_plain_field(word)) by {
        assert(strip_cr(word) == word);
    }
    assert(kill_request_of(name) =~= word + seq!['\n'] + name + seq!['\n'] + Seq::<char>::empty());
    lemma_lines_of_concat(word + seq!['\n'] + name, Seq::<char>::empty());
    lemma_split_pair(word, name);
    assert(lines_of(Seq::<char>::empty()) =~= Seq::<Seq<char>>::empty());
    assert(lines_of(kill_request_of(name)) =~= seq![word, name]);
    assert(word =~= "kill"@);
    assert(word != "create"@) by {
        assert(word.len() != "create"@.len());
    }
    assert(word != "run"@) by {
        assert(word.len() != "run"@.len());
    }
}

/// The pieces of two line-feed-free parts joined by a line feed, with their
/// carriage returns stripped.
proof fn lemma_split_pair(a: Seq<char>, b: Seq<char>)
    requires
        is_plain_field(a),
        is_plain_field(b),
    ensures
        split_on(a + seq!['\n'] + b, '\n').map_values(|l: Seq<char>| strip_cr(l)) == seq![a, b],
{
    lemma_split_on_free(a, '\n');
    lemma_split_on_free(b, '\n');
    crate::text::lemma_split_on_concat(a, b, '\n');
    assert(split_on(a + seq!['\n'] + b, '\n') =~= seq![a, b]);
    assert(seq![a, b].map_values(|l: Seq<char>| strip_cr(l)) =~= seq![a, b]);
}

/// The `ls` request built by the client reads back, on the server, as a
/// listing request.
pub proof fn lemma_ls_request_reads_back()
    ensures
        request_readable(ls_request_of()),
        request_of(lines_of(ls_request_of())) == RequestView::List,
{
    reveal_strlit("ls\n");
    reveal_strlit("ls");
    reveal_strlit("kill");
    reveal_strlit("create");
    reveal_strlit("run");
    let word = seq!['l', 's'];
    assert(ls_request_of() =~= word + seq!['\n'] + Seq::<char>::empty());
    lemma_lines_of_concat(word, Seq::<char>::empty());
    lemma_split_on_free(word, '\n');
    assert(lines_of(Seq::<char>::empty()) =~= Seq::<Seq<char>>::empty());
    assert(strip_cr(word) == word);
    assert(lines_of(ls_request_of()) =~= seq![word]);
    assert(word =~= "ls"@);
    assert(word != "create"@) by {
        assert(word.len() != "create"@.len());
    }
    assert(word != "kill"@) by {
        assert(word.len() != "kill"@.len());
    }
    assert(word != "run"@) by {
        assert(word.len() != "run"@.len());
    }
}

/// A `run` request built by the client reads back, on the server, as a `run`
/// request of the same REPL and run type; its code is the message with its
/// lines rejoined (the same text when the message has no carriage return and
/// no final line feed).
pub proof fn lemma_query_request_reads_back(replid: Seq<char>, query: Seq<char>, msg: Seq<char>)
    requires
        is_plain_field(replid),
        is_plain_field(query),
    ensures
        request_readable(query_request_of(replid, query, msg)),
        request_of(lines_of(query_request_of(replid, query, msg))) == (RequestView::Run {
            runtype: query,
            name: replid,
            code: join(lines_of(msg), "\n"@),
        }),
        free_of(msg, '\r') && (msg.len() > 0 ==> msg.last() != '\n') ==> join(lines_of(msg), "\n"@)
            == msg,
{
    reveal_strlit("run\n");
    reveal_strlit("run");
    reveal_strlit("kill");
    reveal_strlit("create");
    reveal_strlit("\n");
    let word = seq!['r', 'u', 'n'];
    let parts = seq![word, query, replid];
    assert(is_plain_field(word)) by {
        assert(strip_cr(word) == word);
    }
    let head = word + seq!['\n'] + query + seq!['\n'] + replid;
    assert(query_request_of(replid, query, msg) =~= head + seq!['\n'] + msg);
    lemma_lines_of_concat(head, msg);
    assert(join(parts, seq!['\n']) =~= head) by {
        let p1 = seq![word];
        let p2 = seq![word, query];
        assert(p2.drop_last() =~= p1);
        assert(parts.drop_last() =~= p2);
        assert(join(p1, seq!['\n']) == word);
        assert(join(p2, seq!['\n']) == word + seq!['\n'] + query);
    }
    assert forall|i: int| 0 <= i < parts.len() implies free_of(#[trigger] parts[i], '\n') by {
        assert(is_plain_field(parts[i]));
    }
    crate::text::lemma_split_on_join(parts, '\n');
    let f = |l: Seq<char>| strip_cr(l);
    assert(parts.map_values(f) =~= parts) by {
        assert forall|i: int| 0 <= i < parts.len() implies #[trigger] parts.map_values(f)[i] == parts[i] by {
            assert(is_plain_field(parts[i]));
        }
    }
    let ls = lines_of(query_request_of(replid, query, msg));
    assert(ls =~= parts + lines_of(msg));
    assert(ls.skip(3) =~= lines_of(msg));
    assert(word =~= "run"@);
    assert(word != "create"@) by {
        assert(word.len() != "create"@.len());
    }
    assert(word != "kill"@) by {
        assert(word.len() != "kill"@.len());
    }
    assert("\n"@ =~= seq!['\n']);
    if free_of(msg, '\r') && (msg.len() > 0 ==> msg.last() != '\n') {
        crate::text::lemma_join_lines_of(msg);
    }
}

/// What the server does for a request.
#[derive(Debug)]
pub enum ServerAction {
    /// Send this reply.
    Reply { text: String },
    /// Start the launcher at path `launcher` in directory `dir`, and record
    /// it as `name` running `exe` with `record_start`, which gives the reply.
    Spawn { name: String, exe: String, launcher: String, dir: String },
    /// Take the REPL `name` out of the registry with `take_repl`, stop it and
    /// reply `killed_reply`.
    Kill { name: String },
    /// Send `code` with run type `runtype` to the REPL `name` and forward the
    /// lines of its output, or the error of the sending.
    Evaluate { name: String, runtype: String, code: String },
    /// Reply one `listing_line` for each registered REPL.
    List,
}

/// The meaning of a server action.
pub enum ActionView {
    Reply { text: Seq<char> },
    Spawn { name: Seq<char>, exe: Seq<char>, launcher: Seq<char>, dir: Seq<char> },
    Kill { name: Seq<char> },
    Evaluate { name: Seq<char>, runtype: Seq<char>, code: Seq<char> },
    List,
}

impl View for ServerAction {
    type V = ActionView;

    open spec fn view(&self) -> ActionView {
        match self {
            ServerAction::Reply { text } => ActionView::Reply { text: text@ },
            ServerAction::Spawn { name, exe, launcher, dir } => ActionView::Spawn {
                name: name@,
                exe: exe@,
                launcher: launcher@,
                dir: dir@,
            },
            ServerAction::Kill { name } => ActionView::Kill { name: name@ },
            ServerAction::Evaluate { name, runtype, code } => ActionView::Evaluate {
                name: name@,
                runtype: runtype@,
                code: code@,
            },
            ServerAction::List => ActionView::List,
        }
    }
}

/// The reply to a `create` request for a name already in use.
pub open spec fn exists_reply() -> Seq<char> {
    "ERRROR: Repl already exists"@
}

/// The reply to a `kill` request for a name not in use.
pub open spec fn no_shell_reply() -> Seq<char> {
    "ERRROR: Shell does not exist\n"@
}

/// The reply to a `run` request for a name not in use.
pub open spec fn no_repl_reply() -> Seq<char> {
    "ERRROR: Repl does not exist"@
}

/// The working directory a REPL is started in, from the one a request
/// names: a leading `+` stands for the launcher directory and a `/`.
pub open spec fn work_dir(workdir: Seq<char>, launchers: Seq<char>) -> Seq<char> {
    if workdir.len() > 0 && workdir[0] == '+' {
        launchers + "/"@ + workdir.skip(1)
    } else {
        workdir
    }
}

/// The working directory named by a request, with a leading `+` replaced by
/// the launcher directory and a `/`.
pub fn resolve_work_dir(workdir: &str, launchers: &str) -> (out: String)
    ensures
        out@ == work_dir(workdir@, launchers@),
{
    proof {
        reveal_strlit("+");
        reveal_strlit("/");
    }
    assert(workdir@.len() > 0 && workdir@[0] == '+' ==> workdir@.take(1) =~= "+"@);
    if starts_with(workdir, "+") {
        assert(workdir@[0] == workdir@.take(1)[0]);
        let rest = skip_chars(workdir, 1);
        let with_sep = concat(launchers, "/");
        concat(with_sep.as_str(), rest.as_str())
    } else {
        String::from_str(workdir)
    }
}

/// What the server does for a request, given the names of the running REPLs
/// and the launcher directory: a new name is started from its launcher in
/// that directory, in the working directory the request names (see `work_dir`); a known one
/// is stopped or sent code; anything else is answered with its error.
pub open spec fn action_of(names: Set<Seq<char>>, req: RequestView, launchers: Seq<char>) -> ActionView {
    match req {
        RequestView::Create { name, workdir, template } => if names.contains(name) {
            ActionView::Reply { text: exists_reply() }
        } else {
            ActionView::Spawn {
                name,
                exe: template,
                launcher: path_join(launchers, template),
                dir: work_dir(workdir, launchers),
            }
        },
        RequestView::Kill { name } => if names.contains(name) {
            ActionView::Kill { name }
        } else {
            ActionView::Reply { text: no_shell_reply() }
        },
        RequestView::Run { runtype, name, code } => if names.contains(name) {
            ActionView::Evaluate { name, runtype, code }
        } else {
            ActionView::Reply { text: no_repl_reply() }
        },
        RequestView::List => ActionView::List,
        RequestView::Invalid { reply } => ActionView::Reply { text: reply },
    }
}

/// Decides what the server does for `request`, given the registry of running
/// REPLs and the launcher directory `launchers`.
pub fn decide<P>(repls: &StrMap<P>, request: Request, launchers: &str) -> (action: ServerAction)
    ensures
        action@ == action_of(repls@.dom(), request@, launchers@),
{
    match request {
        Request::Create { name, workdir, template } => {
            if repls.contains_key(name.as_str()) {
                ServerAction::Reply { text: String::from_str("ERRROR: Repl already exists") }
            } else {
                let launcher = join_path(launchers, template.as_str());
                let dir = resolve_work_dir(workdir.as_str(), launchers);
                ServerAction::Spawn { name, exe: template, launcher, dir }
            }
        },
        Request::Kill { name } => {
            if repls.contains_key(name.as_str()) {
                ServerAction::Kill { name }
            } else {
                ServerAction::Reply { text: String::from_str("ERRROR: Shell does not exist\n") }
            }
        },
        Request::Run { runtype, name, code } => {
            if repls.contains_key(name.as_str()) {
                ServerAction::Evaluate { name, runtype, code }
            } else {
                ServerAction::Reply { text: String::from_str("ERRROR: Repl does not exist") }
            }
        },
        Request::List => ServerAction::List,
        Request::Invalid { reply } => ServerAction::Reply { text: reply },
    }
}

/// The reply once a REPL has started.
pub fn created_reply() -> (out: &'static str)
    ensures
        out@ == "REPL created succesfully"@,
{
    "REPL created succesfully"
}

/// The reply when a REPL could not start, with the reason.
pub fn creation_failed_reply(err: &str) -> (out: String)
    ensures
        out@ == "Errror creating repl:"@ + err@,
{
    concat("Errror creating repl:", err)
}

/// The reply once a REPL has been told to stop.
pub fn killed_reply() -> (out: &'static str)
    ensures
        out@ == "Kill signal sent to shell"@,
{
    "Kill signal sent to shell"
}

/// One line of the listing: the REPL's name, a space, its launcher.
pub fn listing_line(name: &str, exe: &str) -> (out: String)
    ensures
        out@ == name@ + " "@ + exe@,
{
    let with_space = concat(name, " ");
    concat(with_space.as_str(), exe)
}

/// Records the outcome of starting the REPL `name`: a started process is
/// registered under its name and the reply says so; a failure leaves the
/// registry as it was and the reply gives the reason.
pub fn record_start<P>(repls: &mut StrMap<P>, name: String, started: Result<P, String>) -> (reply: String)
    ensures
        match started {
            Ok(p) => final(repls)@ == old(repls)@.insert(name@, p) && reply@
                == "REPL created succesfully"@,
            Err(e) => final(repls)@ == old(repls)@ && reply@ == "Errror creating repl:"@ + e@,
        },
{
    match started {
        Ok(p) => {
            repls.insert(name, p);
            String::from_str(created_reply())
        },
        Err(e) => creation_failed_reply(e.as_str()),
    }
}

/// Takes the REPL `name` out of the registry, to be stopped or to be lent
/// out for an evaluation; gives its process, if it was registered.
pub fn take_repl<P>(repls: &mut StrMap<P>, name: &str) -> (out: Option<P>)
    ensures
        final(repls)@ == old(repls)@.remove(name@),
        out matches Some(p) ==> old(repls)@.contains_key(name@) && p == old(repls)@[name@],
        out is None ==> !old(repls)@.contains_key(name@),
{
    repls.remove(name)
}

/// Puts back a REPL taken out for an evaluation, in the state the
/// evaluation left it in.
pub fn give_back<P>(repls: &mut StrMap<P>, name: String, process: P)
    ensures
        final(repls)@ == old(repls)@.insert(name@, process),
{
    repls.insert(name, process)
}

/// The names of the running REPLs once an action has been carried out: a
/// start that succeeded adds its name, a `kill` removes its name, nothing
/// else changes them (an evaluation takes its REPL out and puts it back).
pub open spec fn names_after(names: Set<Seq<char>>, action: ActionView, started: bool) -> Set<Seq<char>> {
    match action {
        ActionView::Spawn { name, .. } => if started {
            names.insert(name)
        } else {
            names
        },
        ActionView::Kill { name } => names.remove(name),
        _ => names,
    }
}

/// Over one request, the names of the running REPLs change only by a
/// `create` of a fresh name whose start succeeded (the name is added) and by
/// a `kill` of a running name (it is removed): `record_start`, `take_repl`
/// for a `kill`, and `take_repl` then `give_back` for an evaluation change
/// the registry as `names_after` says.
pub proof fn lemma_registry_changes<P>(
    repls: Map<Seq<char>, P>,
    req: RequestView,
    launchers: Seq<char>,
    started: Option<P>,
    after_use: P,
)
    ensures
        ({
            let a = action_of(repls.dom(), req, launchers);
            &&& a matches ActionView::Spawn { name, .. } ==> (match started {
                Some(p) => repls.insert(name, p).dom() == names_after(repls.dom(), a, true),
                None => repls.dom() == names_after(repls.dom(), a, false),
            })
            &&& a matches ActionView::Kill { name } ==> repls.remove(name).dom() == names_after(
                repls.dom(),
                a,
                false,
            )
            &&& a matches ActionView::Evaluate { name, .. } ==> repls.remove(name).insert(
                name,
                after_use,
            ).dom() == names_after(repls.dom(), a, false)
        }),
        names_after(repls.dom(), action_of(repls.dom(), req, launchers), started is Some) == match req {
            RequestView::Create { name, .. } => if !repls.dom().contains(name) && started is Some {
                repls.dom().insert(name)
            } else {
                repls.dom()
            },
            RequestView::Kill { name } => repls.dom().remove(name),
            _ => repls.dom(),
        },
{
    let a = action_of(repls.dom(), req, launchers);
    if let ActionView::Spawn { name, .. } = a {
        if let Some(p) = started {
            assert(repls.insert(name, p).dom() =~= repls.dom().insert(name));
        }
    }
    if let ActionView::Kill { name } = a {
        assert(repls.remove(name).dom() =~= repls.dom().remove(name));
    }
    if let ActionView::Evaluate { name, .. } = a {
        assert(repls.remove(name).insert(name, after_use).dom() =~= repls.dom());
    }
    if let RequestView::Kill { name } = req {
        if !repls.dom().contains(name) {
            assert(repls.dom().remove(name) =~= repls.dom());
        }
    }
}

/// What the server makes of a sealed request: its text, or the reply that
/// refuses it when it does not open with the passcode.
pub open spec fn opened_request(sealed: Seq<char>, passcode: Seq<char>) -> Result<Seq<char>, Seq<char>> {
    match opened(sealed, passcode) {
        Ok(t) => Ok(t),
        Err(e) => Err("ERRROR: Invalid passcode: "@ + e),
    }
}

/// Opens a sealed request with the passcode; when it does not open, gives
/// the reply that refuses it.
pub fn open_request(sealed: String, passcode: &str) -> (out: Result<String, String>)
    ensures
        result_view(out) == opened_request(sealed@, passcode@),
{
    match crate::cypher::uncypher(sealed, passcode) {
        Ok(t) => Ok(t),
        Err(e) => Err(concat("ERRROR: Invalid passcode: ", e.as_str())),
    }
}

/// A reply made ready to send.
#[derive(Debug)]
pub enum SealedReply {
    /// The sealed reply, to be sent followed by a line feed.
    Line(String),
    /// The reply's bytes are not UTF-8; nothing is sent. The text of the
    /// error.
    NotUtf8(String),
    /// The reply could not be sealed; nothing is sent. The text of the error.
    SealFailed(String),
}

/// Seals the bytes of a reply with the passcode, when they are UTF-8 text.
pub fn seal_reply(bytes: Vec<u8>, passcode: &str) -> (out: SealedReply)
    requires
        bytes@.len() <= usize::MAX / 2,
    ensures
        !valid_utf8(bytes@) <==> out is NotUtf8,
        out matches SealedReply::NotUtf8(e) ==> e@ == utf8_error_text(bytes@),
        out matches SealedReply::Line(s) ==> sealed_for(s@, decode_utf8(bytes@), key_of(passcode@))
            && opened(s@, passcode@) == crate::cypher::ok_text(decode_utf8(bytes@)),
        out matches SealedReply::SealFailed(e) ==> crate::cypher::has_encrypt_prefix(e@),
{
    let ghost b = bytes@;
    match string_from_utf8(bytes) {
        Err(e) => SealedReply::NotUtf8(e),
        Ok(text) => {
            proof {
                decode_utf8_encode_utf8(b);
            }
            match cypher(&text, passcode) {
                Ok(s) => SealedReply::Line(s),
                Err(e) => SealedReply::SealFailed(e),
            }
        },
    }
}

/// A request sealed by a client with the server's passcode opens, on the
/// server, to the very request text.
pub proof fn lemma_sealed_request_opens(sealed: Seq<char>, request: Seq<char>, passcode: Seq<char>)
    requires
        sealed_for(sealed, request, key_of(passcode)),
    ensures
        opened_request(sealed, passcode) == crate::cypher::ok_text(request),
{
    crate::cypher::lemma_uncypher_opens_cypher(sealed, request, passcode);
}

/// What a client sends to run code in a REPL, sealed with the server's
/// passcode, reaches the server as a `run` request of that REPL, that run
/// type and that code (its lines rejoined).
pub proof fn lemma_sealed_query_reaches_server(
    sealed: Seq<char>,
    replid: Seq<char>,
    query: Seq<char>,
    msg: Seq<char>,
    passcode: Seq<char>,
)
    requires
        sealed_for(sealed, query_request_of(replid, query, msg), key_of(passcode)),
        is_plain_field(replid),
        is_plain_field(query),
    ensures
        opened_request(sealed, passcode) == crate::cypher::ok_text(query_request_of(replid, query, msg)),
        request_of(lines_of(query_request_of(replid, query, msg))) == (RequestView::Run {
            runtype: query,
            name: replid,
            code: join(lines_of(msg), "\n"@),
        }),
{
    lemma_sealed_request_opens(sealed, query_request_of(replid, query, msg), passcode);
    lemma_query_request_reads_back(replid, query, msg);
}

/// What a client sends to create a REPL, sealed with the server's passcode,
/// reaches the server as a `create` request of that REPL.
pub proof fn lemma_sealed_create_reaches_server(
    sealed: Seq<char>,
    replid: Seq<char>,
    template: Seq<char>,
    workdir: Seq<char>,
    passcode: Seq<char>,
)
    requires
        sealed_for(sealed, create_request_of(replid, template, workdir), key_of(passcode)),
        is_plain_field(replid),
        is_plain_field(template),
        is_plain_field(workdir),
        template.len() > 0,
    ensures
        opened_request(sealed, passcode) == crate::cypher::ok_text(
            create_request_of(replid, template, workdir),
        ),
        request_of(lines_of(create_request_of(replid, template, workdir))) == (RequestView::Create {
            name: replid,
            workdir,
            template,
        }),
{
    lemma_sealed_request_opens(sealed, create_request_of(replid, template, workdir), passcode);
    lemma_create_request_reads_back(replid, template, workdir);
}

/// A name in use cannot be created a second time: the request is answered
/// with its error, and nothing starts.
pub proof fn lemma_running_name_is_refused<P>(
    repls: Map<Seq<char>, P>,
    name: Seq<char>,
    process: P,
    workdir: Seq<char>,
    template: Seq<char>,
    launchers: Seq<char>,
)
    ensures
        action_of(
            repls.insert(name, process).dom(),
            RequestView::Create { name, workdir, template },
            launchers,
        ) == (ActionView::Reply { text: exists_reply() }),
{
}

/// Once a REPL is taken out of the registry, code sent to it is refused, and
/// so is a second `kill`.
pub proof fn lemma_removed_name_is_refused<P>(
    repls: Map<Seq<char>, P>,
    name: Seq<char>,
    runtype: Seq<char>,
    code: Seq<char>,
    launchers: Seq<char>,
)
    ensures
        action_of(
            repls.remove(name).dom(),
            RequestView::Run { runtype, name, code },
            launchers,
        ) == (ActionView::Reply { text: no_repl_reply() }),
        action_of(repls.remove(name).dom(), RequestView::Kill { name }, launchers) == (
        ActionView::Reply { text: no_shell_reply() }),
{
}

/// A registered REPL is reached by the requests that name it.
pub proof fn lemma_running_name_is_reached<P>(
    repls: Map<Seq<char>, P>,
    name: Seq<char>,
    process: P,
    runtype: Seq<char>,
    code: Seq<char>,
    launchers: Seq<char>,
)
    ensures
        action_of(
            repls.insert(name, process).dom(),
            RequestView::Run { runtype, name, code },
            launchers,
        ) == (ActionView::Evaluate { name, runtype, code }),
        action_of(repls.insert(name, process).dom(), RequestView::Kill { name }, launchers)
            == (ActionView::Kill { name }),
{
}

/// A `create` of a name that is not running starts that REPL from the
/// launcher named by the template: the template itself when it is an
/// absolute path, else the template inside the launcher directory. The REPL
/// starts in the working directory the request names, as it is, unless it
/// begins with `+`, which then stands for the launcher directory and a `/`.
pub proof fn lemma_create_spawns(
    names: Set<Seq<char>>,
    name: Seq<char>,
    workdir: Seq<char>,
    template: Seq<char>,
    launchers: Seq<char>,
)
    requires
        !names.contains(name),
    ensures
        action_of(names, RequestView::Create { name, workdir, template }, launchers) matches ActionView::Spawn {
            name: n,
            exe,
            launcher,
            dir,
        } && {
            &&& n == name
            &&& exe == template
            &&& !first_is(workdir, '+') ==> dir == workdir
            &&& first_is(workdir, '+') ==> dir == launchers + seq!['/'] + workdir.skip(1)
            &&& first_is(template, '/') ==> launcher == template
            &&& !first_is(template, '/') && (launchers.len() == 0 || launchers.last() == '/') ==> launcher
                == launchers + template
            &&& !first_is(template, '/') && launchers.len() > 0 && launchers.last() != '/' ==> launcher
                == launchers + seq!['/'] + template
        },
{
    reveal_strlit("/");
    assert("/"@ =~= seq!['/']);
}

/// The request a client sends to create a REPL, once read by the server,
/// starts that REPL (when its name is not running) in the very directory
/// the client named, unless that begins with `+`.
pub proof fn lemma_created_repl_directory(
    names: Set<Seq<char>>,
    replid: Seq<char>,
    template: Seq<char>,
    workdir: Seq<char>,
    launchers: Seq<char>,
)
    requires
        is_plain_field(replid),
        is_plain_field(template),
        is_plain_field(workdir),
        template.len() > 0,
        !names.contains(replid),
        !first_is(workdir, '+'),
    ensures
        action_of(names, request_of(lines_of(create_request_of(replid, template, workdir))), launchers) matches ActionView::Spawn {
            name,
            exe,
            dir,
            ..
        } && name == replid && exe == template && dir == workdir,
{
    lemma_create_request_reads_back(replid, template, workdir);
    lemma_create_spawns(names, replid, workdir, template, launchers);
}

/// A `create` of a running name, a `kill` of a name not running and a `run`
/// for a name not running are answered with their errors and change
/// nothing; a `kill` of a running name stops it; a `run` for a running name
/// sends it the code with the run type; `ls` lists; a request that could not
/// be read is answered with its own reply.
pub proof fn lemma_requests_by_name(names: Set<Seq<char>>, req: RequestView, launchers: Seq<char>)
    ensures
        req is Create && names.contains(req->Create_name) ==> action_of(names, req, launchers) == (ActionView::Reply {
            text: "ERRROR: Repl already exists"@,
        }),
        req is Kill && names.contains(req->Kill_name) ==> action_of(names, req, launchers) == (ActionView::Kill {
            name: req->Kill_name,
        }),
        req is Kill && !names.contains(req->Kill_name) ==> action_of(names, req, launchers) == (ActionView::Reply {
            text: "ERRROR: Shell does not exist\n"@,
        }),
        req is Run && names.contains(req->Run_name) ==> action_of(names, req, launchers) == (ActionView::Evaluate {
            name: req->Run_name,
            runtype: req->runtype,
            code: req->code,
        }),
        req is Run && !names.contains(req->Run_name) ==> action_of(names, req, launchers) == (ActionView::Reply {
            text: "ERRROR: Repl does not exist"@,
        }),
        req is List ==> action_of(names, req, launchers) is List,
        req is Invalid ==> action_of(names, req, launchers) == (ActionView::Reply { text: req->reply }),
{
}

} // verus!
