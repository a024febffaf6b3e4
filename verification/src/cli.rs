//! The command line: options before the first plain argument, and the mode
//! that the first plain argument selects.

use vstd::prelude::*;

use crate::text::{chars_of, free_of, same_text, string_of, views};

verus! {

/// The usage text.
pub const RRR_HELP: &'static str = "
rrr, the remote repl runner:
   rrr [conf] server                 -- to start the server at /tmp/rrr.sock
   rrr [conf] +<id> <launcher> [dir] -- to create a new repl named <id> in <dir>
   rrr [conf] <id> [runtype]         -- to send stdin to repl <id>
   rrr [conf] -<id>                  -- to kill repl <id>
[conf]
    ip=127.0.0.1                # server listening address(default all available(UNSPECIFIED))
                                # client query addres
    p=80142                     # server listening port | client query port
    l=/usr/share/rrr/launchers  # server launchers location
<launcher>
    An executable file located in the directory specified by launchers config
    option.
";

/// The position of the first `c` in `s`, or the length of `s` when there is
/// none.
pub open spec fn index_of(s: Seq<char>, c: char) -> int
    decreases s.len(),
{
    if s.len() == 0 {
        0
    } else if s[0] == c {
        0
    } else {
        1 + index_of(s.skip(1), c)
    }
}

/// How many of the leading arguments are options: each holds a `=`.
pub open spec fn option_count(args: Seq<Seq<char>>) -> int
    decreases args.len(),
{
    if args.len() == 0 {
        0
    } else if !free_of(args[0], '=') {
        1 + option_count(args.skip(1))
    } else {
        0
    }
}

/// An option as a name and a value: the text before and after its first `=`
/// (`str::split_once`).
pub open spec fn option_of(arg: Seq<char>) -> (Seq<char>, Seq<char>) {
    (arg.take(index_of(arg, '=')), arg.skip(index_of(arg, '=') + 1))
}

/// What the program does, by its first plain argument.
#[derive(Debug, Clone, Copy, PartialEq, Eq)]
pub enum Mode {
    /// Print the usage text: no plain argument, or `help`.
    Help,
    /// Run the server: `server`.
    Server,
    /// Run the client: anything else.
    Client,
}

/// The mode that the plain arguments select.
pub open spec fn mode_from(args: Seq<Seq<char>>) -> Mode {
    if args.len() == 0 || args[0] == "help"@ {
        Mode::Help
    } else if args[0] == "server"@ {
        Mode::Server
    } else {
        Mode::Client
    }
}

proof fn lemma_index_of_bounds(s: Seq<char>, c: char)
    ensures
        0 <= index_of(s, c) <= s.len(),
        index_of(s, c) < s.len() ==> s[index_of(s, c)] == c,
        forall|k: int| 0 <= k < index_of(s, c) ==> s[k] != c,
    decreases s.len(),
{
    if s.len() > 0 && s[0] != c {
        lemma_index_of_bounds(s.skip(1), c);
        assert forall|k: int| 0 <= k < index_of(s, c) implies s[k] != c by {
            if k > 0 {
                assert(s[k] == s.skip(1)[k - 1]);
            }
        }
    }
}

/// Splits `arg` at its first `=`, if it has one.
fn split_option(arg: &str) -> (out: Option<(String, String)>)
    ensures
        free_of(arg@, '=') <==> out is None,
        out matches Some(p) ==> p.0@ == option_of(arg@).0 && p.1@ == option_of(arg@).1,
{
    let cs = chars_of(arg);
    let mut i: usize = 0;
    proof {
        lemma_index_of_bounds(arg@, '=');
    }
    while i < cs.len()
        invariant
            cs@ == arg@,
            i <= cs.len(),
            forall|k: int| 0 <= k < i ==> cs@[k] != '=',
            i <= index_of(arg@, '='),
            index_of(arg@, '=') <= arg@.len(),
            index_of(arg@, '=') < arg@.len() ==> arg@[index_of(arg@, '=')] == '=',
        decreases cs.len() - i,
    {
        if cs[i] == '=' {
            let mut name: Vec<char> = Vec::new();
            let mut value: Vec<char> = Vec::new();
            let mut j: usize = 0;
            while j < i
                invariant
                    j <= i < cs.len(),
                    name@ == cs@.take(j as int),
                decreases i - j,
            {
                name.push(cs[j]);
                j = j + 1;
            }
            let mut j: usize = i + 1;
            while j < cs.len()
                invariant
                    i + 1 <= j <= cs.len(),
                    value@ == cs@.subrange(i + 1, j as int),
                decreases cs.len() - j,
            {
                value.push(cs[j]);
                j = j + 1;
            }
            proof {
                lemma_index_of_bounds(arg@, '=');
                assert(index_of(arg@, '=') == i);
                assert(value@ =~= arg@.skip(i + 1));
                assert(!free_of(arg@, '='));
            }
            return Some((string_of(&name), string_of(&value)));
        }
        i = i + 1;
    }
    None
}

/// Splits the program's arguments, the program's name first, into the
/// options that lead them (each `name=value`, split at its first `=`) and the
/// plain arguments from the first one without a `=` on.
pub fn split_arguments(os_args: &Vec<String>) -> (out: (Vec<(String, String)>, Vec<String>))
    requires
        os_args@.len() >= 1,
    ensures
        ({
            let rest = views(os_args@).skip(1);
            let n = option_count(rest);
            &&& out.0@.len() == n
            &&& forall|i: int|
                0 <= i < n ==> (#[trigger] out.0@[i]).0@ == option_of(rest[i]).0 && out.0@[i].1@
                    == option_of(rest[i]).1
            &&& views(out.1@) == rest.skip(n)
        }),
{
    let ghost rest = views(os_args@).skip(1);
    let mut options: Vec<(String, String)> = Vec::new();
    let mut plain: Vec<String> = Vec::new();
    let mut is_option = true;
    let mut i: usize = 1;
    proof {
        lemma_option_count_bounds(rest);
        assert(rest.skip(0) =~= rest);
    }
    while i < os_args.len()
        invariant
            1 <= i <= os_args.len(),
            rest == views(os_args@).skip(1),
            0 <= option_count(rest) <= rest.len(),
            is_option ==> options@.len() == i - 1 && option_count(rest) == (i - 1) + option_count(
                rest.skip(i - 1),
            ) && plain@.len() == 0,
            !is_option ==> option_count(rest) <= i - 1,
            !is_option ==> options@.len() == option_count(rest) && views(plain@) == rest.subrange(
                option_count(rest),
                i - 1,
            ),
            forall|k: int|
                0 <= k < options@.len() ==> (#[trigger] options@[k]).0@ == option_of(rest[k]).0
                    && options@[k].1@ == option_of(rest[k]).1,
        decreases os_args.len() - i,
    {
        let arg = &os_args[i];
        assert(rest[i - 1] == arg@);
        let mut taken = false;
        if is_option {
            proof {
                assert(rest.skip(i - 1)[0] == arg@);
                assert(rest.skip(i - 1).skip(1) =~= rest.skip(i as int));
            }
            match split_option(arg.as_str()) {
                Some(p) => {
                    options.push(p);
                    taken = true;
                },
                None => {
                    is_option = false;
                    assert(option_count(rest) == i - 1);
                    assert(rest.subrange(i - 1, i - 1) =~= Seq::<Seq<char>>::empty());
                    assert(views(plain@) =~= Seq::<Seq<char>>::empty());
                },
            }
        }
        if !taken {
            let ghost before = views(plain@);
            plain.push(arg.clone());
            assert(views(plain@) =~= before.push(arg@));
            assert(views(plain@) =~= rest.subrange(option_count(rest), i as int));
        }
        i = i + 1;
    }
    proof {
        if is_option {
            assert(rest.skip(i - 1) =~= Seq::<Seq<char>>::empty());
            assert(rest.skip(option_count(rest)) =~= Seq::<Seq<char>>::empty());
            assert(views(plain@) =~= rest.skip(option_count(rest)));
        } else {
            assert(rest.subrange(option_count(rest), i - 1) =~= rest.skip(option_count(rest)));
        }
    }
    (options, plain)
}

proof fn lemma_option_count_bounds(args: Seq<Seq<char>>)
    ensures
        0 <= option_count(args) <= args.len(),
    decreases args.len(),
{
    if args.len() > 0 {
        lemma_option_count_bounds(args.skip(1));
    }
}

/// The mode that the plain arguments select: `help` or none prints the
/// usage, `server` runs the server, anything else the client.
pub fn mode_of(args: &Vec<String>) -> (m: Mode)
    ensures
        m == mode_from(views(args@)),
{
    if args.len() == 0 {
        return Mode::Help;
    }
    assert(views(args@)[0] == args@[0]@);
    if same_text(args[0].as_str(), "help") {
        Mode::Help
    } else if same_text(args[0].as_str(), "server") {
        Mode::Server
    } else {
        Mode::Client
    }
}

/// The usage text is printed only with no plain argument or when the first
/// is exactly `help`; the server runs only when it is exactly `server`;
/// every other first argument (a REPL name, `ls`, or one marked with `+`,
/// `-` or `%`) runs the client.
pub proof fn lemma_modes(args: Seq<Seq<char>>)
    ensures
        mode_from(args) == Mode::Help <==> (args.len() == 0 || args[0] == "help"@),
        mode_from(args) == Mode::Server <==> (args.len() > 0 && args[0] == "server"@),
        mode_from(args) == Mode::Client <==> (args.len() > 0 && args[0] != "help"@ && args[0] != "server"@),
        args.len() > 0 && args[0].len() > 0 && (args[0][0] == '+' || args[0][0] == '-' || args[0][0] == '%')
            ==> mode_from(args) == Mode::Client,
        args.len() > 0 && args[0] == "ls"@ ==> mode_from(args) == Mode::Client,
{
    reveal_strlit("help");
    reveal_strlit("server");
    reveal_strlit("ls");
    if args.len() > 0 && args[0].len() > 0 && (args[0][0] == '+' || args[0][0] == '-' || args[0][0] == '%') {
        assert(args[0] != "help"@ && args[0] != "server"@) by {
            if args[0] == "help"@ {
                assert("help"@[0] == 'h');
            }
            if args[0] == "server"@ {
                assert("server"@[0] == 's');
            }
        }
    }
    if args.len() > 0 && args[0] == "ls"@ {
        assert("ls"@.len() != "help"@.len());
        assert("ls"@.len() != "server"@.len());
    }
}

/// The options are the leading arguments that hold a `=`: each of them
/// holds one, and the first plain argument, if any, holds none.
pub proof fn lemma_options_lead(args: Seq<Seq<char>>)
    ensures
        0 <= option_count(args) <= args.len(),
        forall|i: int| 0 <= i < option_count(args) ==> !free_of(#[trigger] args[i], '='),
        option_count(args) < args.len() ==> free_of(args[option_count(args)], '='),
    decreases args.len(),
{
    lemma_option_count_bounds(args);
    if args.len() > 0 && !free_of(args[0], '=') {
        lemma_options_lead(args.skip(1));
        assert forall|i: int| 0 <= i < option_count(args) implies !free_of(#[trigger] args[i], '=') by {
            if i > 0 {
                assert(args[i] == args.skip(1)[i - 1]);
            }
        }
        if option_count(args) < args.len() {
            assert(args[option_count(args)] == args.skip(1)[option_count(args.skip(1))]);
        }
    }
}

/// An option is split at its first `=`: the name holds no `=`, and the name,
/// a `=` and the value give the option back.
pub proof fn lemma_option_split(arg: Seq<char>)
    requires
        !free_of(arg, '='),
    ensures
        free_of(option_of(arg).0, '='),
        option_of(arg).0 + seq!['='] + option_of(arg).1 == arg,
{
    lemma_index_of_bounds(arg, '=');
    let i = index_of(arg, '=');
    assert(i < arg.len());
    assert(arg.take(i) + seq!['='] + arg.skip(i + 1) =~= arg);
}

} // verus!
