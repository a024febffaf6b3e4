//! The client's side of the protocol: the requests it sends, sealed with the
//! passcode, the replies it opens, and the decisions of its command line and
//! of its interactive mode.

use vstd::prelude::*;
use vstd::utf8::*;

use crate::config::ClientConfig;
use crate::cypher::{
    b64_encode, cypher, key_of, lemma_b64_text_is_one_line, lemma_uncypher_opens_cypher, ok_text, opened,
    result_view, sealable, sealed_for, uncypher,
};
use crate::utils::{byte_lines, lemma_stream_of_lines, lines_stream, newline_free};
use crate::text::{bytes_of, concat, has_prefix, lemma_has_prefix_chars, same_text, skip_chars, starts_with};

verus! {

/// The request that creates REPL `replid` from launcher `template` in
/// directory `workdir`.
pub open spec fn create_request_of(replid: Seq<char>, template: Seq<char>, workdir: Seq<char>) -> Seq<char> {
    "create\n"@ + replid + "\n"@ + workdir + "\n"@ + template
}

/// The request that stops REPL `name`.
pub open spec fn kill_request_of(name: Seq<char>) -> Seq<char> {
    "kill\n"@ + name + "\n"@
}

/// The request that lists the REPLs.
pub open spec fn ls_request_of() -> Seq<char> {
    "ls\n"@
}

/// The request that runs `msg` in REPL `replid` with run type `query`.
pub open spec fn query_request_of(replid: Seq<char>, query: Seq<char>, msg: Seq<char>) -> Seq<char> {
    "run\n"@ + query + "\n"@ + replid + "\n"@ + msg
}

/// The request that creates REPL `replid` from launcher `template` in
/// directory `workdir`, unsealed.
pub fn create_request(replid: &str, template: &str, workdir: &str) -> (req: String)
    ensures
        req@ == create_request_of(replid@, template@, workdir@),
{
    let mut req = String::new();
    req.append("create\n");
    req.append(replid);
    req.append("\n");
    req.append(workdir);
    req.append("\n");
    req.append(template);
    req
}

/// The request that stops REPL `name`, unsealed.
pub fn kill_request(name: &str) -> (req: String)
    ensures
        req@ == kill_request_of(name@),
{
    let mut req = String::new();
    req.append("kill\n");
    req.append(name);
    req.append("\n");
    req
}

/// The request that lists the REPLs, unsealed.
pub fn ls_request() -> (req: String)
    ensures
        req@ == ls_request_of(),
{
    let mut req = String::new();
    req.append("ls\n");
    req
}

/// The request that runs `msg` in REPL `replid` with run type `query`,
/// unsealed.
pub fn query_request(replid: &str, query: &str, msg: &str) -> (req: String)
    ensures
        req@ == query_request_of(replid@, query@, msg@),
{
    let mut req = String::new();
    req.append("run\n");
    req.append(query);
    req.append("\n");
    req.append(replid);
    req.append("\n");
    req.append(msg);
    req
}

/// The error text of a request that could not be sealed.
pub open spec fn is_seal_error(e: Seq<char>) -> bool {
    exists|reason: Seq<char>|
        e == "Could not cypher data with passcode to send query to client: "@ + reason
}

/// `sealed` is what the client sends for `request`: it opens to the request
/// under the client's passcode.
pub open spec fn sends(out: Result<String, String>, request: Seq<char>, passcode: Seq<char>) -> bool {
    match out {
        Ok(s) => sealed_for(s@, request, key_of(passcode)) && opened(s@, passcode) == ok_text(request),
        Err(e) => is_seal_error(e@),
    }
}

/// A client of the server, with its configuration. The connection itself is
/// the caller's: these methods give the sealed text that each request is
/// sent as, and open the lines of the replies.
pub struct Client {
    config: ClientConfig,
}

impl Client {
    /// The passcode the client seals with.
    pub closed spec fn passcode(&self) -> Seq<char> {
        self.config.passcode@
    }

    /// The client's configuration.
    pub closed spec fn configuration(&self) -> ClientConfig {
        self.config
    }

    /// A client with the given configuration.
    pub fn new(config: ClientConfig) -> (c: Self)
        ensures
            c.configuration() == config,
            c.passcode() == config.passcode@,
    {
        Client { config }
    }

    /// The client's configuration.
    pub fn config(&self) -> (c: &ClientConfig)
        ensures
            *c == self.configuration(),
            c.passcode@ == self.passcode(),
    {
        &self.config
    }

    /// Seals a request with the passcode.
    fn seal(&self, req: &String) -> (out: Result<String, String>)
        requires
            sealable(req@),
        ensures
            sends(out, req@, self.passcode()),
    {
        match cypher(req, self.config.passcode.as_str()) {
            Ok(s) => Ok(s),
            Err(e) => {
                let m = concat("Could not cypher data with passcode to send query to client: ", e.as_str());
                assert(m@ == "Could not cypher data with passcode to send query to client: "@ + e@);
                Err(m)
            },
        }
    }

    /// The sealed request that creates REPL `replid` from launcher `template`
    /// in directory `workdir`.
    pub fn create_repl(&self, replid: &str, template: &str, workdir: &str) -> (out: Result<String, String>)
        requires
            sealable(create_request_of(replid@, template@, workdir@)),
        ensures
            sends(out, create_request_of(replid@, template@, workdir@), self.passcode()),
    {
        let req = create_request(replid, template, workdir);
        self.seal(&req)
    }

    /// The sealed request that stops REPL `name`.
    pub fn kill_repl(&self, name: &str) -> (out: Result<String, String>)
        requires
            sealable(kill_request_of(name@)),
        ensures
            sends(out, kill_request_of(name@), self.passcode()),
    {
        let req = kill_request(name);
        self.seal(&req)
    }

    /// The sealed request that lists the REPLs.
    pub fn ls(&self) -> (out: Result<String, String>)
        ensures
            sends(out, ls_request_of(), self.passcode()),
    {
        let req = ls_request();
        proof {
            reveal_strlit("ls\n");
            assert(encode_utf8(req@).len() == 3) by {
                assert(req@ =~= seq!['l', 's', '\n']);
                assert(is_ascii_chars(req@));
                is_ascii_chars_encode_utf8(req@);
            }
        }
        self.seal(&req)
    }

    /// The sealed request that runs `msg` in REPL `replid` with run type
    /// `query`.
    pub fn query(&self, replid: &str, query: &str, msg: &str) -> (out: Result<String, String>)
        requires
            sealable(query_request_of(replid@, query@, msg@)),
        ensures
            sends(out, query_request_of(replid@, query@, msg@), self.passcode()),
    {
        let req = query_request(replid, query, msg);
        self.seal(&req)
    }

    /// Opens one line of a reply with the passcode.
    pub fn decode_reply(&self, line: String) -> (out: Result<String, String>)
        ensures
            result_view(out) == opened(line@, self.passcode()),
    {
        uncypher(line, self.config.passcode.as_str())
    }
}

/// What the client is asked to do, by its plain arguments.
#[derive(Debug)]
pub enum ClientCommand {
    /// `ls`: list the REPLs.
    List,
    /// `+<replid> <launcher> [dir]`: create a REPL.
    Create { replid: String, launcher: String, workdir: String },
    /// `-<replid>`: stop a REPL.
    Kill { replid: String },
    /// `%<replid>`: talk to a REPL interactively.
    Interactive { replid: String },
    /// `<replid> [runtype] [- <code>]`: send `code`, or else the standard
    /// input, to a REPL.
    Query { replid: String, runtype: String, code: Option<String> },
}

/// The meaning of a client command.
pub enum CommandView {
    List,
    Create { replid: Seq<char>, launcher: Seq<char>, workdir: Seq<char> },
    Kill { replid: Seq<char> },
    Interactive { replid: Seq<char> },
    Query { replid: Seq<char>, runtype: Seq<char>, code: Option<Seq<char>> },
}

impl View for ClientCommand {
    type V = CommandView;

    open spec fn view(&self) -> CommandView {
        match self {
            ClientCommand::List => CommandView::List,
            ClientCommand::Create { replid, launcher, workdir } => CommandView::Create {
                replid: replid@,
                launcher: launcher@,
                workdir: workdir@,
            },
            ClientCommand::Kill { replid } => CommandView::Kill { replid: replid@ },
            ClientCommand::Interactive { replid } => CommandView::Interactive { replid: replid@ },
            ClientCommand::Query { replid, runtype, code } => CommandView::Query {
                replid: replid@,
                runtype: runtype@,
                code: match code {
                    Some(c) => Some(c@),
                    None => None,
                },
            },
        }
    }
}

/// The error of a `+` command without a launcher.
pub open spec fn create_usage() -> Seq<char> {
    "Invalid number of arguments, use: +<name> <launcher>"@
}

/// The command that the plain arguments give: `ls`; a first argument that
/// starts with `+`, `-` or `%` names the REPL after that character; any other
/// names the REPL itself, with the run type `r` unless a second argument
/// gives one, and the code that follows a third argument `-` (without one,
/// the code is read from the standard input). A `+` command needs the launcher as its second argument, and
/// takes a third as the directory only when there are exactly three
/// (else `.`).
pub open spec fn command_of(args: Seq<Seq<char>>) -> Result<CommandView, Seq<char>> {
    let a = args[0];
    if a == "ls"@ {
        Ok(CommandView::List)
    } else if has_prefix(a, "+"@) {
        if args.len() < 2 {
            Err(create_usage())
        } else {
            Ok(
                CommandView::Create {
                    replid: a.skip(1),
                    launcher: args[1],
                    workdir: if args.len() == 3 {
                        args[2]
                    } else {
                        "."@
                    },
                },
            )
        }
    } else if has_prefix(a, "-"@) {
        Ok(CommandView::Kill { replid: a.skip(1) })
    } else if has_prefix(a, "%"@) {
        Ok(CommandView::Interactive { replid: a.skip(1) })
    } else {
        Ok(
            CommandView::Query {
                replid: a,
                runtype: if args.len() >= 2 {
                    args[1]
                } else {
                    "r"@
                },
                code: if args.len() >= 4 && args[2] == "-"@ {
                    Some(args[3])
                } else {
                    None
                },
            },
        )
    }
}

/// The first character of `a` is `c`.
pub open spec fn first_is(a: Seq<char>, c: char) -> bool {
    a.len() > 0 && a[0] == c
}

/// The marks at the head of a first argument: `+`, `-` and `%` are read as
/// one-character prefixes.
proof fn lemma_marks(a: Seq<char>)
    ensures
        has_prefix(a, "+"@) <==> first_is(a, '+'),
        has_prefix(a, "-"@) <==> first_is(a, '-'),
        has_prefix(a, "%"@) <==> first_is(a, '%'),
        a == "ls"@ ==> first_is(a, 'l'),
{
    reveal_strlit("+");
    reveal_strlit("-");
    reveal_strlit("%");
    reveal_strlit("ls");
    lemma_has_prefix_chars(a, "+"@);
    lemma_has_prefix_chars(a, "-"@);
    lemma_has_prefix_chars(a, "%"@);
}

/// A command line whose first argument is a REPL name (not `ls`, and not
/// marked with `+`, `-` or `%`) sends code to that REPL: the run type is the
/// second argument whenever there is one, and `r` only when there is none;
/// code is given on the command line exactly when the third argument is `-`
/// and a fourth follows, and it is then the fourth.
pub proof fn lemma_query_command(args: Seq<Seq<char>>)
    requires
        args.len() >= 1,
        args[0] != "ls"@,
        !first_is(args[0], '+'),
        !first_is(args[0], '-'),
        !first_is(args[0], '%'),
    ensures
        command_of(args) matches Ok(CommandView::Query { replid, runtype, code }) && {
            &&& replid == args[0]
            &&& args.len() >= 2 ==> runtype == args[1]
            &&& args.len() == 1 ==> runtype == "r"@
            &&& code matches Some(c) ==> args.len() >= 4 && args[2] == "-"@ && c == args[3]
            &&& args.len() >= 4 && args[2] == "-"@ ==> code == Some(args[3])
        },
{
    lemma_marks(args[0]);
}

/// The mark on the first argument decides the command: `ls` lists; `+name`
/// creates REPL `name` from the launcher in the second argument (which must
/// be there), in the directory of the third when there are exactly three
/// arguments and in `.` otherwise (with no launcher the usage is the
/// error); `-name` stops REPL `name`; `%name` talks to it interactively.
pub proof fn lemma_marked_commands(args: Seq<Seq<char>>)
    requires
        args.len() >= 1,
    ensures
        args[0] == "ls"@ ==> command_of(args) matches Ok(CommandView::List),
        first_is(args[0], '+') ==> (command_of(args) is Err <==> args.len() < 2),
        first_is(args[0], '+') && args.len() < 2 ==> (command_of(args) matches Err(e) && e
            == "Invalid number of arguments, use: +<name> <launcher>"@),
        first_is(args[0], '+') && args.len() >= 2 ==> (command_of(args) matches Ok(
            CommandView::Create { replid, launcher, workdir },
        ) && replid == args[0].skip(1) && launcher == args[1] && (args.len() == 3 ==> workdir
            == args[2]) && (args.len() != 3 ==> workdir == "."@)),
        first_is(args[0], '-') ==> (command_of(args) matches Ok(CommandView::Kill { replid }) && replid
            == args[0].skip(1)),
        first_is(args[0], '%') ==> (command_of(args) matches Ok(CommandView::Interactive { replid })
            && replid == args[0].skip(1)),
{
    lemma_marks(args[0]);
}

/// The view of a parsed command.
pub open spec fn command_view(r: Result<ClientCommand, String>) -> Result<CommandView, Seq<char>> {
    match r {
        Ok(c) => Ok(c@),
        Err(e) => Err(e@),
    }
}

/// Reads the command from the plain arguments (there is at least one).
pub fn parse_command(args: &Vec<String>) -> (out: Result<ClientCommand, String>)
    requires
        args@.len() >= 1,
    ensures
        command_view(out) == command_of(crate::text::views(args@)),
{
    let ghost v = crate::text::views(args@);
    assert(v[0] == args@[0]@);
    let a = args[0].as_str();
    proof {
        reveal_strlit("+");
        reveal_strlit("-");
        reveal_strlit("%");
    }
    if same_text(a, "ls") {
        Ok(ClientCommand::List)
    } else if starts_with(a, "+") {
        if args.len() < 2 {
            return Err(String::from_str("Invalid number of arguments, use: +<name> <launcher>"));
        }
        assert(v[1] == args@[1]@);
        let workdir = if args.len() == 3 {
            assert(v[2] == args@[2]@);
            args[2].clone()
        } else {
            String::from_str(".")
        };
        Ok(ClientCommand::Create { replid: skip_chars(a, 1), launcher: args[1].clone(), workdir })
    } else if starts_with(a, "-") {
        Ok(ClientCommand::Kill { replid: skip_chars(a, 1) })
    } else if starts_with(a, "%") {
        Ok(ClientCommand::Interactive { replid: skip_chars(a, 1) })
    } else {
        let runtype = if args.len() >= 2 {
            assert(v[1] == args@[1]@);
            args[1].clone()
        } else {
            String::from_str("r")
        };
        let code = if args.len() >= 4 && same_text(args[2].as_str(), "-") {
            assert(v[2] == args@[2]@ && v[3] == args@[3]@);
            Some(args[3].clone())
        } else {
            proof {
                if args.len() >= 4 {
                    assert(v[2] == args@[2]@);
                }
            }
            None
        };
        Ok(ClientCommand::Query { replid: args[0].clone(), runtype, code })
    }
}

/// What a line typed in interactive mode asks.
#[derive(Debug)]
pub enum InputAction {
    /// `/k…`: stop the REPL.
    KillRepl,
    /// `/s…`: talk to another REPL, named by what follows the third
    /// character.
    Switch { replid: String },
    /// `/q…`: leave.
    Quit,
    /// Any other line that starts with `/`.
    BadSlash,
    /// `!…`: run the rest of the line in a shell.
    Shell { command: String },
    /// Anything else: send it to the REPL.
    Send { code: String },
}

/// The meaning of an interactive line.
pub enum InputView {
    KillRepl,
    Switch { replid: Seq<char> },
    Quit,
    BadSlash,
    Shell { command: Seq<char> },
    Send { code: Seq<char> },
}

impl View for InputAction {
    type V = InputView;

    open spec fn view(&self) -> InputView {
        match self {
            InputAction::KillRepl => InputView::KillRepl,
            InputAction::Switch { replid } => InputView::Switch { replid: replid@ },
            InputAction::Quit => InputView::Quit,
            InputAction::BadSlash => InputView::BadSlash,
            InputAction::Shell { command } => InputView::Shell { command: command@ },
            InputAction::Send { code } => InputView::Send { code: code@ },
        }
    }
}

/// A line that `classify_input` can take: a `/s` line goes on past its third
/// byte, so its third character is a one-byte (ASCII) character.
pub open spec fn input_splittable(code: Seq<char>) -> bool {
    has_prefix(code, "/s"@) ==> code.len() >= 3 && (code[2] as u32) < 128
}

/// What an interactive line asks.
pub open spec fn input_of(code: Seq<char>) -> InputView {
    if has_prefix(code, "/"@) {
        if has_prefix(code, "/k"@) {
            InputView::KillRepl
        } else if has_prefix(code, "/s"@) {
            InputView::Switch { replid: code.skip(3) }
        } else if has_prefix(code, "/q"@) {
            InputView::Quit
        } else {
            InputView::BadSlash
        }
    } else if has_prefix(code, "!"@) {
        InputView::Shell { command: code.skip(1) }
    } else {
        InputView::Send { code }
    }
}

/// What an interactive line asks, by its first two characters: `/k` stops
/// the REPL, `/s` switches to the REPL named from the fourth character on,
/// `/q` quits, any other line starting with `/` is a bad slash code, `!`
/// runs the rest of the line in a shell, and every other line (the empty
/// one too) is code sent to the REPL as it is.
pub proof fn lemma_input_kinds(code: Seq<char>)
    ensures
        code.len() >= 2 && code[0] == '/' && code[1] == 'k' ==> input_of(code) is KillRepl,
        code.len() >= 2 && code[0] == '/' && code[1] == 's' ==> (input_of(code) matches InputView::Switch {
            replid,
        } && replid == code.skip(3)),
        code.len() >= 2 && code[0] == '/' && code[1] == 'q' ==> input_of(code) is Quit,
        first_is(code, '/') && !(code.len() >= 2 && (code[1] == 'k' || code[1] == 's' || code[1] == 'q'))
            ==> input_of(code) is BadSlash,
        first_is(code, '!') ==> (input_of(code) matches InputView::Shell { command } && command == code.skip(
            1,
        )),
        !first_is(code, '/') && !first_is(code, '!') ==> (input_of(code) matches InputView::Send {
            code: sent,
        } && sent == code),
{
    reveal_strlit("/");
    reveal_strlit("/k");
    reveal_strlit("/s");
    reveal_strlit("/q");
    reveal_strlit("!");
    lemma_has_prefix_chars(code, "/"@);
    lemma_has_prefix_chars(code, "/k"@);
    lemma_has_prefix_chars(code, "/s"@);
    lemma_has_prefix_chars(code, "/q"@);
    lemma_has_prefix_chars(code, "!"@);
}

/// Reads what an interactive line asks.
pub fn classify_input(code: &str) -> (out: InputAction)
    requires
        input_splittable(code@),
    ensures
        out@ == input_of(code@),
{
    proof {
        reveal_strlit("!");
    }
    if starts_with(code, "/") {
        if starts_with(code, "/k") {
            InputAction::KillRepl
        } else if starts_with(code, "/s") {
            InputAction::Switch { replid: skip_chars(code, 3) }
        } else if starts_with(code, "/q") {
            InputAction::Quit
        } else {
            InputAction::BadSlash
        }
    } else if starts_with(code, "!") {
        InputAction::Shell { command: skip_chars(code, 1) }
    } else {
        InputAction::Send { code: String::from_str(code) }
    }
}

/// `b` is one of the bytes `u8::is_ascii_whitespace` accepts.
pub open spec fn is_ascii_space(b: u8) -> bool {
    b == 32 || b == 9 || b == 10 || b == 12 || b == 13
}

/// `p` holds a byte other than ASCII white space (`trim_ascii` leaves it
/// non-empty).
pub open spec fn has_content(p: Seq<u8>) -> bool {
    exists|i: int| 0 <= i < p.len() && !is_ascii_space(#[trigger] p[i])
}

/// The lines of the REPL's answer to `.p` put together: each line after
/// some content is preceded by a line feed.
pub open spec fn joined_prompt(lines: Seq<Seq<u8>>) -> Seq<u8>
    decreases lines.len(),
{
    if lines.len() == 0 {
        Seq::<u8>::empty()
    } else {
        let p = joined_prompt(lines.drop_last());
        if has_content(p) {
            p.push(10u8) + lines.last()
        } else {
            p + lines.last()
        }
    }
}

/// The interactive prompt from the REPL's answer to `.p`: its lines put
/// together, with a line feed and `> ` added when it is an error.
pub open spec fn prompt_of(lines: Seq<Seq<u8>>) -> Seq<u8> {
    let p = joined_prompt(lines);
    if p.len() >= 6 && p.take(6) == encode_utf8("ERRROR"@) {
        p + encode_utf8("\n> "@)
    } else {
        p
    }
}

/// Bytes put together hold content exactly when one of the parts does.
proof fn lemma_content_concat(a: Seq<u8>, b: Seq<u8>)
    ensures
        has_content(a + b) <==> has_content(a) || has_content(b),
{
    let c = a + b;
    if has_content(a) {
        let i = choose|i: int| 0 <= i < a.len() && !is_ascii_space(#[trigger] a[i]);
        assert(c[i] == a[i]);
    }
    if has_content(b) {
        let i = choose|i: int| 0 <= i < b.len() && !is_ascii_space(#[trigger] b[i]);
        assert(c[a.len() + i] == b[i]);
    }
    if has_content(c) {
        let i = choose|i: int| 0 <= i < c.len() && !is_ascii_space(#[trigger] c[i]);
        if i < a.len() {
            assert(c[i] == a[i]);
        } else {
            assert(c[i] == b[i - a.len()]);
        }
    }
}

/// The prompt put together from the lines of the answer to `.p`: a single
/// line is taken as it is; the result holds content exactly when some line
/// does; a further line is set after a line feed once some earlier line held
/// content, and put right after the others while none did.
pub proof fn lemma_prompt_lines(lines: Seq<Seq<u8>>, l: Seq<u8>)
    ensures
        joined_prompt(Seq::<Seq<u8>>::empty()) == Seq::<u8>::empty(),
        joined_prompt(seq![l]) == l,
        has_content(joined_prompt(lines)) <==> exists|i: int| 0 <= i < lines.len() && has_content(#[trigger] lines[i]),
        (exists|i: int| 0 <= i < lines.len() && has_content(#[trigger] lines[i])) ==> joined_prompt(lines.push(l))
            == joined_prompt(lines).push(10u8) + l,
        (forall|i: int| 0 <= i < lines.len() ==> !has_content(#[trigger] lines[i])) ==> joined_prompt(lines.push(l))
            == joined_prompt(lines) + l,
    decreases lines.len(),
{
    assert(seq![l].drop_last() =~= Seq::<Seq<u8>>::empty());
    assert(Seq::<u8>::empty() + l =~= l);
    assert(!has_content(Seq::<u8>::empty()));
    assert(lines.push(l).drop_last() =~= lines);
    if lines.len() > 0 {
        let front = lines.drop_last();
        lemma_prompt_lines(front, lines.last());
        let p = joined_prompt(front);
        lemma_content_concat(p.push(10u8), lines.last());
        lemma_content_concat(p, lines.last());
        lemma_content_concat(p, seq![10u8]);
        assert(p.push(10u8) =~= p + seq![10u8]);
        assert(!has_content(seq![10u8]));
        if exists|i: int| 0 <= i < lines.len() && has_content(#[trigger] lines[i]) {
            let i = choose|i: int| 0 <= i < lines.len() && has_content(#[trigger] lines[i]);
            if i < front.len() {
                assert(front[i] == lines[i]);
            }
        }
        if exists|i: int| 0 <= i < front.len() && has_content(#[trigger] front[i]) {
            let i = choose|i: int| 0 <= i < front.len() && has_content(#[trigger] front[i]);
            assert(front[i] == lines[i]);
        }
    }
}

/// A prompt whose text begins with `ERRROR` gets a line feed and `> ` after
/// it; any other is the lines put together, as they are.
pub proof fn lemma_error_prompt(lines: Seq<Seq<u8>>)
    ensures
        ({
            let p = joined_prompt(lines);
            &&& p.len() >= 6 && p.take(6) == seq![69u8, 82u8, 82u8, 82u8, 79u8, 82u8] ==> prompt_of(lines) == p
                + seq![10u8, 62u8, 32u8]
            &&& !(p.len() >= 6 && p.take(6) == seq![69u8, 82u8, 82u8, 82u8, 79u8, 82u8]) ==> prompt_of(lines) == p
        }),
{
    reveal_strlit("ERRROR");
    reveal_strlit("\n> ");
    is_ascii_chars_encode_utf8("ERRROR"@);
    is_ascii_chars_encode_utf8("\n> "@);
    assert(encode_utf8("ERRROR"@) =~= seq![69u8, 82u8, 82u8, 82u8, 79u8, 82u8]);
    assert(encode_utf8("\n> "@) =~= seq![10u8, 62u8, 32u8]);
}

/// The views of a sequence of byte vectors.
pub open spec fn byte_views(v: Seq<Vec<u8>>) -> Seq<Seq<u8>> {
    v.map_values(|b: Vec<u8>| b@)
}

/// The interactive prompt built from the lines of the REPL's answer to `.p`.
pub fn build_prompt(lines: &Vec<Vec<u8>>) -> (out: Vec<u8>)
    ensures
        out@ == prompt_of(byte_views(lines@)),
{
    let mut prompt: Vec<u8> = Vec::new();
    let mut i: usize = 0;
    while i < lines.len()
        invariant
            i <= lines.len(),
            prompt@ == joined_prompt(byte_views(lines@).take(i as int)),
        decreases lines.len() - i,
    {
        assert(byte_views(lines@).take(i + 1).drop_last() =~= byte_views(lines@).take(i as int));
        assert(byte_views(lines@).take(i + 1).last() == lines@[i as int]@);
        if content_in(&prompt) {
            prompt.push(10u8);
        }
        append_bytes(&mut prompt, lines[i].as_slice());
        i = i + 1;
    }
    assert(byte_views(lines@).take(lines.len() as int) =~= byte_views(lines@));
    let head = bytes_of("ERRROR");
    proof {
        reveal_strlit("ERRROR");
        assert(is_ascii_chars("ERRROR"@));
        is_ascii_chars_encode_utf8("ERRROR"@);
    }
    if prompt.len() >= 6 {
        let mut k: usize = 0;
        let mut same = true;
        while k < 6
            invariant
                k <= 6,
                prompt@.len() >= 6,
                head@.len() == 6,
                same == (forall|m: int| 0 <= m < k ==> prompt@[m] == head@[m]),
            decreases 6 - k,
        {
            if prompt[k] != head[k] {
                same = false;
            }
            k = k + 1;
        }
        if same {
            assert(prompt@.take(6) =~= head@);
            let tail = bytes_of("\n> ");
            append_bytes(&mut prompt, tail.as_slice());
        } else {
            assert(prompt@.take(6) != head@) by {
                let m = choose|m: int| 0 <= m < 6 && prompt@[m] != head@[m];
                assert(prompt@.take(6)[m] != head@[m]);
            }
        }
    }
    prompt
}

/// Appends the bytes of `src` to `dst`.
fn append_bytes(dst: &mut Vec<u8>, src: &[u8])
    ensures
        final(dst)@ == old(dst)@ + src@,
{
    dst.extend_from_slice(src);
    assert(dst@ =~= old(dst)@ + src@);
}

/// Whether `p` holds a byte other than ASCII white space.
fn content_in(p: &Vec<u8>) -> (out: bool)
    ensures
        out == has_content(p@),
{
    let mut i: usize = 0;
    while i < p.len()
        invariant
            i <= p.len(),
            forall|k: int| 0 <= k < i ==> is_ascii_space(#[trigger] p@[k]),
        decreases p.len() - i,
    {
        if !is_space(p[i]) {
            return true;
        }
        i = i + 1;
    }
    false
}

/// Whether `b` is ASCII white space.
fn is_space(b: u8) -> (out: bool)
    ensures
        out == is_ascii_space(b),
{
    b == 32 || b == 9 || b == 10 || b == 12 || b == 13
}

/// The prompt when the REPL does not answer `.p`: a dot, the REPL's name
/// and `% `.
pub fn fallback_prompt(replid: &str) -> (out: Vec<u8>)
    ensures
        out@ == encode_utf8("."@ + replid@ + "% "@),
{
    let text = concat(".", replid);
    let text = concat(text.as_str(), "% ");
    bytes_of(text.as_str())
}

/// The prompt for the next interactive line: built from the lines of the
/// REPL's answer to `.p`, or the fallback prompt when the `.p` request could
/// not be sent (`None`).
pub fn next_prompt(replid: &str, answer: Option<Vec<Vec<u8>>>) -> (out: Vec<u8>)
    ensures
        out@ == match answer {
            None => encode_utf8("."@ + replid@ + "% "@),
            Some(lines) => prompt_of(byte_views(lines@)),
        },
{
    match answer {
        None => fallback_prompt(replid),
        Some(lines) => build_prompt(&lines),
    }
}

/// How the interactive loop goes on once a line has been carried out.
#[derive(Debug, Clone, Copy, PartialEq, Eq, Structural)]
pub enum LoopControl {
    /// Print the replies and read the next line.
    Continue,
    /// Print the replies, then leave.
    Stop,
    /// Leave at once.
    Leave,
}

/// How the interactive loop goes on after `action`: `/q` leaves at once, a
/// `/k` whose request could not be sent (`kill_failed`) stops after the
/// replies, anything else goes on.
pub fn loop_control(action: &InputAction, kill_failed: bool) -> (out: LoopControl)
    ensures
        out == match action@ {
            InputView::Quit => LoopControl::Leave,
            InputView::KillRepl => if kill_failed {
                LoopControl::Stop
            } else {
                LoopControl::Continue
            },
            _ => LoopControl::Continue,
        },
{
    match action {
        InputAction::Quit => LoopControl::Leave,
        InputAction::KillRepl => if kill_failed {
            LoopControl::Stop
        } else {
            LoopControl::Continue
        },
        _ => LoopControl::Continue,
    }
}

/// A reply made of sealed forms of the texts `plain`, each on a line of its
/// own, is read back line after line (whatever follows it, `rest`, comes
/// after) and each line opens with the passcode to its text, in order.
pub proof fn lemma_reply_lines_open(
    sealed: Seq<Seq<char>>,
    plain: Seq<Seq<char>>,
    code: Seq<char>,
    rest: Seq<u8>,
)
    requires
        sealed.len() == plain.len(),
        forall|i: int| 0 <= i < sealed.len() ==> sealed_for(#[trigger] sealed[i], plain[i], key_of(code)),
    ensures
        ({
            let lines = byte_lines(lines_stream(sealed.map_values(|s: Seq<char>| encode_utf8(s))) + rest);
            &&& lines.len() >= sealed.len()
            &&& forall|k: int|
                0 <= k < sealed.len() ==> valid_utf8(#[trigger] lines[k]) && opened(decode_utf8(lines[k]), code)
                    == ok_text(plain[k])
        }),
{
    let ls = sealed.map_values(|s: Seq<char>| encode_utf8(s));
    assert forall|i: int| 0 <= i < ls.len() implies newline_free(#[trigger] ls[i]) by {
        let c = choose|c: Seq<u8>|
            #![trigger b64_encode(c)]
            sealed[i] == b64_encode(c) && c.len() == encode_utf8(plain[i]).len() + 28 && crate::cypher::b64_decoded(
                sealed[i],
            ) == crate::cypher::ok_bytes(c) && crate::cypher::decrypted_text(c, key_of(code)) == ok_text(plain[i]);
        lemma_b64_text_is_one_line(c);
        is_ascii_chars_encode_utf8(sealed[i]);
        assert forall|k: int| 0 <= k < ls[i].len() implies ls[i][k] != 10 by {
            assert(sealed[i][k] != '\n');
            assert(sealed[i][k] as u8 == ls[i][k]);
        }
    }
    lemma_stream_of_lines(ls, rest);
    let lines = byte_lines(lines_stream(ls) + rest);
    assert forall|k: int| 0 <= k < sealed.len() implies valid_utf8(#[trigger] lines[k]) && opened(
        decode_utf8(lines[k]),
        code,
    ) == ok_text(plain[k]) by {
        assert(lines[k] == ls[k]);
        encode_utf8_valid_utf8(sealed[k]);
        encode_utf8_decode_utf8(sealed[k]);
        lemma_uncypher_opens_cypher(sealed[k], plain[k], code);
    }
}

} // verus!
