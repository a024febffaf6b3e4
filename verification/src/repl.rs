//! The conversation with one REPL process: the launcher it runs from, the
//! directory it runs in, what is written to it and where its output ends.

use vstd::prelude::*;
use vstd::utf8::*;

use crate::utils::{byte_lines, lemma_stream_of_lines, lines_stream, newline_free};
use crate::text::{
    bytes_of, is_plain_field, join_path, lemma_lines_of_concat, lemma_split_on_free, lines_of,
    path_join, replace_all, replace_char, same_bytes, split_on, strip_cr,
};

verus! {

/// The line a launcher prints when its output for a request is complete; it
/// also opens and closes each request written to the launcher.
pub const END_TOKEN: &'static str = "~THE END~";

/// The launcher for `name`: `name` under the relative directory `launchers/`
/// (an absolute `name` stands for itself).
pub fn repl_launcher(name: &str) -> (out: String)
    ensures
        out@ == path_join("launchers/"@, name@),
{
    join_path("launchers/", name)
}

/// What is written to a REPL to have it evaluate `txt` with run type
/// `runtype`: the end token, the run type, the code and the end token again,
/// each followed by a line feed.
pub fn evaluation_message(runtype: &str, txt: &str) -> (out: String)
    ensures
        out@ == END_TOKEN@ + "\n"@ + runtype@ + "\n"@ + txt@ + "\n"@ + END_TOKEN@ + "\n"@,
{
    let mut m = String::new();
    m.append(END_TOKEN);
    m.append("\n");
    m.append(runtype);
    m.append("\n");
    m.append(txt);
    m.append("\n");
    m.append(END_TOKEN);
    m.append("\n");
    m
}

/// Read line by line, as a launcher reads it, the message that asks a REPL
/// to evaluate `txt` holds the end token, the run type, the lines of `txt`
/// (each piece between line feeds, carriage return before a line feed
/// dropped) and the end token again.
pub proof fn lemma_evaluation_message_lines(runtype: Seq<char>, txt: Seq<char>)
    requires
        is_plain_field(runtype),
    ensures
        lines_of(END_TOKEN@ + "\n"@ + runtype + "\n"@ + txt + "\n"@ + END_TOKEN@ + "\n"@) == seq![
            END_TOKEN@,
            runtype,
        ] + split_on(txt, '\n').map_values(|l: Seq<char>| strip_cr(l)) + seq![END_TOKEN@],
{
    reveal_strlit("~THE END~");
    reveal_strlit("\n");
    let end = END_TOKEN@;
    let nl = seq!['\n'];
    let f = |l: Seq<char>| strip_cr(l);
    assert(is_plain_field(end)) by {
        assert(strip_cr(end) == end);
    }
    let head = end + nl + runtype;
    let tail = end + nl;
    let msg = END_TOKEN@ + "\n"@ + runtype + "\n"@ + txt + "\n"@ + END_TOKEN@ + "\n"@;
    assert(msg =~= head + nl + (txt + nl + tail));
    lemma_lines_of_concat(head, txt + nl + tail);
    assert(txt + nl + tail =~= txt + nl + (end + nl + Seq::<char>::empty()));
    lemma_lines_of_concat(txt, end + nl + Seq::<char>::empty());
    lemma_lines_of_concat(end, Seq::<char>::empty());
    lemma_split_on_free(end, '\n');
    assert(lines_of(Seq::<char>::empty()) =~= Seq::<Seq<char>>::empty());
    assert(lines_of(end + nl + Seq::<char>::empty()) =~= seq![end]);
    lemma_split_on_free(runtype, '\n');
    crate::text::lemma_split_on_concat(end, runtype, '\n');
    assert(split_on(head, '\n') =~= seq![end, runtype]);
    assert(split_on(head, '\n').map_values(f) =~= seq![end, runtype]);
    assert(lines_of(msg) =~= seq![end, runtype] + split_on(txt, '\n').map_values(f) + seq![end]);
}

/// What is written to a REPL to have it stop.
pub fn kill_message() -> (out: &'static str)
    ensures
        out@ == "kill\n\n"@,
{
    "kill\n\n"
}

/// What a line read from a REPL's output stands for: no output once the
/// stream has ended or at the end token, else the line itself.
pub open spec fn output_of(line: Option<Seq<u8>>) -> Option<Seq<u8>> {
    match line {
        None => None,
        Some(l) => if l == encode_utf8(END_TOKEN@) {
            None
        } else {
            Some(l)
        },
    }
}

/// A line read from a REPL's output as the output of a request: the end
/// token, or the end of the stream, closes it.
pub fn output_line(line: Option<Vec<u8>>) -> (out: Option<Vec<u8>>)
    ensures
        crate::utils::line_view(out) == output_of(crate::utils::line_view(line)),
{
    match line {
        None => None,
        Some(l) => {
            let end = bytes_of(END_TOKEN);
            if same_bytes(&l, &end) {
                None
            } else {
                Some(l)
            }
        },
    }
}

/// A REPL that answers with the lines `os` (none of them the end token)
/// and then the end token gives, read line after line, exactly `os` and then
/// nothing, whatever it writes after the end token.
pub proof fn lemma_repl_output_stream(os: Seq<Seq<u8>>, rest: Seq<u8>)
    requires
        forall|i: int| 0 <= i < os.len() ==> newline_free(#[trigger] os[i]),
        forall|i: int| 0 <= i < os.len() ==> #[trigger] os[i] != encode_utf8(END_TOKEN@),
    ensures
        ({
            let lines = byte_lines(lines_stream(os.push(encode_utf8(END_TOKEN@))) + rest);
            &&& lines.len() > os.len()
            &&& forall|k: int| 0 <= k < os.len() ==> #[trigger] output_of(Some(lines[k])) == Some(os[k])
            &&& output_of(Some(lines[os.len() as int])) is None
        }),
{
    let end = encode_utf8(END_TOKEN@);
    reveal_strlit("~THE END~");
    assert(is_ascii_chars(END_TOKEN@));
    is_ascii_chars_encode_utf8(END_TOKEN@);
    assert(newline_free(end)) by {
        assert forall|k: int| 0 <= k < end.len() implies end[k] != 10 by {
            assert(END_TOKEN@[k] as u8 == end[k]);
            assert(END_TOKEN@[k] != '\n');
        }
    }
    let all = os.push(end);
    assert forall|i: int| 0 <= i < all.len() implies newline_free(#[trigger] all[i]) by {
        if i < os.len() {
            assert(all[i] == os[i]);
        }
    }
    lemma_stream_of_lines(all, rest);
    let lines = byte_lines(lines_stream(all) + rest);
    assert forall|k: int| 0 <= k < os.len() implies #[trigger] output_of(Some(lines[k])) == Some(os[k]) by {
        assert(lines[k] == all[k]);
    }
    assert(lines[os.len() as int] == end);
}

/// The directory a REPL is started in, from the one a request names: each
/// `~` stands for the home directory `home`; `None` when the result is `.`,
/// which stands for the server's working directory.
pub fn resolve_dir(dir: &str, home: &str) -> (out: Option<String>)
    ensures
        replace_char(dir@, '~', home@) == "."@ ==> out is None,
        replace_char(dir@, '~', home@) != "."@ ==> (out matches Some(d) && d@ == replace_char(
            dir@,
            '~',
            home@,
        )),
{
    let resolved = replace_all(dir, '~', home);
    if crate::text::same_text(resolved.as_str(), ".") {
        None
    } else {
        Some(resolved)
    }
}

} // verus!
