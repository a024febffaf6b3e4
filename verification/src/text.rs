//! Character-level helpers over `String`, with their specifications:
//! splitting into lines, joining, prefixes and the UTF-8 byte encoding.

use vstd::prelude::*;
use vstd::string::*;
use vstd::utf8::*;

verus! {

/// The pieces of `s` between the occurrences of `sep`, in order; there is one
/// more piece than there are separators (`str::split`).
pub open spec fn split_on(s: Seq<char>, sep: char) -> Seq<Seq<char>>
    decreases s.len(),
{
    if s.len() == 0 {
        seq![Seq::<char>::empty()]
    } else {
        let prev = split_on(s.drop_last(), sep);
        if s.last() == sep {
            prev.push(Seq::<char>::empty())
        } else {
            prev.update(prev.len() - 1, prev.last().push(s.last()))
        }
    }
}

/// A line without the carriage return that ends it, if one does.
pub open spec fn strip_cr(line: Seq<char>) -> Seq<char> {
    if line.len() > 0 && line.last() == '\r' {
        line.drop_last()
    } else {
        line
    }
}

/// The lines of `s` as `str::lines` yields them: split at each `'\n'`, a
/// `'\r'` right before a `'\n'` dropped, and no empty line after a final
/// `'\n'`.
pub open spec fn lines_of(s: Seq<char>) -> Seq<Seq<char>> {
    let pieces = split_on(s, '\n');
    let body = pieces.drop_last().map_values(|l: Seq<char>| strip_cr(l));
    if pieces.last().len() == 0 {
        body
    } else {
        body.push(pieces.last())
    }
}

/// The parts joined with `sep` between each two (`[T]::join`).
pub open spec fn join(parts: Seq<Seq<char>>, sep: Seq<char>) -> Seq<char>
    decreases parts.len(),
{
    if parts.len() == 0 {
        Seq::<char>::empty()
    } else if parts.len() == 1 {
        parts[0]
    } else {
        join(parts.drop_last(), sep) + sep + parts.last()
    }
}

/// The views of a sequence of strings.
pub open spec fn views(v: Seq<String>) -> Seq<Seq<char>> {
    v.map_values(|s: String| s@)
}

/// `s` begins with `prefix`.
pub open spec fn has_prefix(s: Seq<char>, prefix: Seq<char>) -> bool {
    prefix.len() <= s.len() && s.take(prefix.len() as int) == prefix
}

/// `s` begins with `prefix` exactly when its first characters are those of
/// `prefix`, one by one.
pub proof fn lemma_has_prefix_chars(s: Seq<char>, prefix: Seq<char>)
    ensures
        has_prefix(s, prefix) <==> (prefix.len() <= s.len() && forall|i: int|
            0 <= i < prefix.len() ==> #[trigger] s[i] == prefix[i]),
{
    if prefix.len() <= s.len() && forall|i: int| 0 <= i < prefix.len() ==> #[trigger] s[i] == prefix[i] {
        assert(s.take(prefix.len() as int) =~= prefix);
    }
    if has_prefix(s, prefix) {
        assert forall|i: int| 0 <= i < prefix.len() implies #[trigger] s[i] == prefix[i] by {
            assert(s.take(prefix.len() as int)[i] == s[i]);
        }
    }
}

/// No character of `s` is `c`.
pub open spec fn free_of(s: Seq<char>, c: char) -> bool {
    forall|i: int| 0 <= i < s.len() ==> s[i] != c
}

/// A field that a line-based message carries unchanged: no line feed in it,
/// and no carriage return at its end.
pub open spec fn is_plain_field(s: Seq<char>) -> bool {
    free_of(s, '\n') && strip_cr(s) == s
}

/// The one-piece split of a separator-free sequence.
pub proof fn lemma_split_on_free(s: Seq<char>, sep: char)
    requires
        free_of(s, sep),
    ensures
        split_on(s, sep) == seq![s],
    decreases s.len(),
{
    if s.len() > 0 {
        lemma_split_on_free(s.drop_last(), sep);
        assert(s.drop_last().push(s.last()) =~= s);
        assert(split_on(s, sep) =~= seq![s]);
    } else {
        assert(s =~= Seq::<char>::empty());
    }
}

/// Every split has at least one piece.
pub proof fn lemma_split_on_nonempty(s: Seq<char>, sep: char)
    ensures
        split_on(s, sep).len() >= 1,
    decreases s.len(),
{
    if s.len() > 0 {
        lemma_split_on_nonempty(s.drop_last(), sep);
    }
}

/// Splitting at a separator splits the two sides independently.
pub proof fn lemma_split_on_concat(x: Seq<char>, y: Seq<char>, sep: char)
    ensures
        split_on(x + seq![sep] + y, sep) == split_on(x, sep) + split_on(y, sep),
    decreases y.len(),
{
    lemma_split_on_nonempty(x, sep);
    lemma_split_on_nonempty(y, sep);
    if y.len() == 0 {
        assert((x + seq![sep] + y).drop_last() =~= x);
        assert(split_on(x + seq![sep] + y, sep) =~= split_on(x, sep) + split_on(y, sep));
    } else {
        let y0 = y.drop_last();
        lemma_split_on_concat(x, y0, sep);
        lemma_split_on_nonempty(y0, sep);
        assert((x + seq![sep] + y).drop_last() =~= x + seq![sep] + y0);
        assert((x + seq![sep] + y).last() == y.last());
        assert(split_on(x + seq![sep] + y, sep) =~= split_on(x, sep) + split_on(y, sep));
    }
}

/// Joining the pieces of a split gives back the split sequence.
pub proof fn lemma_join_split_on(s: Seq<char>, sep: char)
    ensures
        join(split_on(s, sep), seq![sep]) == s,
    decreases s.len(),
{
    if s.len() == 0 {
        assert(join(split_on(s, sep), seq![sep]) =~= s);
    } else {
        let s0 = s.drop_last();
        let p = split_on(s0, sep);
        lemma_join_split_on(s0, sep);
        lemma_split_on_nonempty(s0, sep);
        assert(s0.push(s.last()) =~= s);
        if s.last() == sep {
            assert(p.push(Seq::<char>::empty()).drop_last() =~= p);
            assert(join(split_on(s, sep), seq![sep]) =~= s);
        } else {
            let q = p.update(p.len() - 1, p.last().push(s.last()));
            if p.len() == 1 {
                assert(join(q, seq![sep]) =~= s);
            } else {
                assert(q.drop_last() =~= p.drop_last());
                assert(join(q, seq![sep]) == join(p.drop_last(), seq![sep]) + seq![sep] + q.last());
                assert(join(p, seq![sep]) == join(p.drop_last(), seq![sep]) + seq![sep] + p.last());
                assert(join(q, seq![sep]) =~= s);
            }
        }
    }
}

/// The split of a join of separator-free parts gives the parts back.
pub proof fn lemma_split_on_join(parts: Seq<Seq<char>>, sep: char)
    requires
        parts.len() >= 1,
        forall|i: int| 0 <= i < parts.len() ==> free_of(#[trigger] parts[i], sep),
    ensures
        split_on(join(parts, seq![sep]), sep) == parts,
    decreases parts.len(),
{
    if parts.len() == 1 {
        assert(free_of(parts[0], sep));
        lemma_split_on_free(parts[0], sep);
        assert(split_on(join(parts, seq![sep]), sep) =~= parts);
    } else {
        let init = parts.drop_last();
        assert forall|i: int| 0 <= i < init.len() implies free_of(#[trigger] init[i], sep) by {
            assert(init[i] == parts[i]);
        }
        lemma_split_on_join(init, sep);
        assert(free_of(parts[parts.len() - 1], sep));
        lemma_split_on_free(parts.last(), sep);
        lemma_split_on_concat(join(init, seq![sep]), parts.last(), sep);
        assert(init.push(parts.last()) =~= parts);
        assert(split_on(join(parts, seq![sep]), sep) =~= parts);
    }
}

/// The lines after a line feed are the lines of what follows it.
pub proof fn lemma_lines_of_concat(x: Seq<char>, y: Seq<char>)
    ensures
        lines_of(x + seq!['\n'] + y) == split_on(x, '\n').map_values(|l: Seq<char>| strip_cr(l))
            + lines_of(y),
{
    lemma_split_on_concat(x, y, '\n');
    lemma_split_on_nonempty(x, '\n');
    lemma_split_on_nonempty(y, '\n');
    let px = split_on(x, '\n');
    let py = split_on(y, '\n');
    assert((px + py).drop_last() =~= px + py.drop_last());
    assert((px + py).last() == py.last());
    let f = |l: Seq<char>| strip_cr(l);
    assert((px + py.drop_last()).map_values(f) =~= px.map_values(f) + py.drop_last().map_values(f));
    if py.last().len() == 0 {
        assert(lines_of(x + seq!['\n'] + y) =~= px.map_values(f) + lines_of(y));
    } else {
        assert(lines_of(x + seq!['\n'] + y) =~= px.map_values(f) + lines_of(y));
    }
}

/// The lines of a join of plain fields whose last one is not empty are those
/// fields.
pub proof fn lemma_lines_of_join(parts: Seq<Seq<char>>)
    requires
        parts.len() >= 1,
        forall|i: int| 0 <= i < parts.len() ==> is_plain_field(#[trigger] parts[i]),
        parts.last().len() > 0,
    ensures
        lines_of(join(parts, seq!['\n'])) == parts,
{
    assert forall|i: int| 0 <= i < parts.len() implies free_of(#[trigger] parts[i], '\n') by {
        assert(is_plain_field(parts[i]));
    }
    lemma_split_on_join(parts, '\n');
    let f = |l: Seq<char>| strip_cr(l);
    assert forall|i: int| 0 <= i < parts.drop_last().len() implies #[trigger] parts.drop_last().map_values(f)[i]
        == parts.drop_last()[i] by {
        assert(is_plain_field(parts[i]));
    }
    assert(parts.drop_last().map_values(f) =~= parts.drop_last());
    assert(parts.drop_last().push(parts.last()) =~= parts);
}

/// Separator-free text with no carriage return and no final line feed is
/// what joining its lines gives back.
pub proof fn lemma_join_lines_of(s: Seq<char>)
    requires
        free_of(s, '\r'),
        s.len() > 0 ==> s.last() != '\n',
    ensures
        join(lines_of(s), seq!['\n']) == s,
{
    lemma_split_on_nonempty(s, '\n');
    lemma_join_split_on(s, '\n');
    let p = split_on(s, '\n');
    lemma_split_pieces_free(s, '\n', '\r');
    let f = |l: Seq<char>| strip_cr(l);
    assert forall|i: int| 0 <= i < p.drop_last().len() implies #[trigger] p.drop_last().map_values(f)[i]
        == p.drop_last()[i] by {
        assert(free_of(p[i], '\r'));
        if p[i].len() > 0 {
            assert(p[i][p[i].len() - 1] != '\r');
        }
    }
    assert(p.drop_last().map_values(f) =~= p.drop_last());
    if s.len() == 0 {
        assert(p =~= seq![Seq::<char>::empty()]);
        assert(lines_of(s) =~= Seq::<Seq<char>>::empty());
        assert(join(lines_of(s), seq!['\n']) =~= s);
    } else {
        lemma_split_last_piece(s, '\n');
        assert(p.drop_last().push(p.last()) =~= p);
    }
}

/// The last piece of a split of a sequence that does not end with the
/// separator is not empty.
pub proof fn lemma_split_last_piece(s: Seq<char>, sep: char)
    requires
        s.len() > 0,
        s.last() != sep,
    ensures
        split_on(s, sep).last().len() > 0,
{
    lemma_split_on_nonempty(s.drop_last(), sep);
}

/// The pieces of a split keep the characters that the split sequence lacks.
pub proof fn lemma_split_pieces_free(s: Seq<char>, sep: char, c: char)
    requires
        free_of(s, c),
    ensures
        forall|i: int| 0 <= i < split_on(s, sep).len() ==> free_of(#[trigger] split_on(s, sep)[i], c),
    decreases s.len(),
{
    if s.len() > 0 {
        let s0 = s.drop_last();
        assert(free_of(s0, c)) by {
            assert forall|k: int| 0 <= k < s0.len() implies s0[k] != c by {
                assert(s0[k] == s[k]);
            }
        }
        lemma_split_pieces_free(s0, sep, c);
        lemma_split_on_nonempty(s0, sep);
        let p = split_on(s0, sep);
        assert(s[s.len() - 1] != c);
        if s.last() != sep {
            assert(free_of(p.last(), c)) by {
                assert(free_of(p[p.len() - 1], c));
            }
            assert forall|i: int| 0 <= i < split_on(s, sep).len() implies free_of(
                #[trigger] split_on(s, sep)[i],
                c,
            ) by {
                if i == p.len() - 1 {
                    assert(split_on(s, sep)[i] == p.last().push(s.last()));
                } else {
                    assert(split_on(s, sep)[i] == p[i]);
                }
            }
        } else {
            assert forall|i: int| 0 <= i < split_on(s, sep).len() implies free_of(
                #[trigger] split_on(s, sep)[i],
                c,
            ) by {
                if i < p.len() {
                    assert(split_on(s, sep)[i] == p[i]);
                }
            }
        }
    }
}

/// The characters of `s`, in order.
pub fn chars_of(s: &str) -> (out: Vec<char>)
    ensures
        out@ == s@,
{
    let mut out: Vec<char> = Vec::new();
    for c in it: s.chars()
        invariant
            out@ == it.seq().take(it.index() as int),
            it.seq() == s@,
    {
        out.push(c);
    }
    out
}

/// Builds a `String` from its characters (`Iterator::collect`).
#[verifier::external_body]
pub(crate) fn string_of(chars: &Vec<char>) -> (out: String)
    ensures
        out@ == chars@,
{
    chars.iter().collect()
}

/// The UTF-8 bytes of `s`.
pub fn bytes_of(s: &str) -> (out: Vec<u8>)
    ensures
        out@ == encode_utf8(s@),
{
    vstd::slice::slice_to_vec(s.as_bytes())
}

/// The reason the bytes are not UTF-8: the text of the error that
/// `String::from_utf8` gives for them.
pub uninterp spec fn utf8_error_text(bytes: Seq<u8>) -> Seq<char>;

/// `String::from_utf8`: the bytes decoded when they are valid UTF-8, else the
/// text of the error that it returns.
#[verifier::external_body]
pub(crate) fn string_from_utf8(bytes: Vec<u8>) -> (out: Result<String, String>)
    ensures
        out is Ok <==> valid_utf8(bytes@),
        out matches Ok(s) ==> s@ == decode_utf8(bytes@),
        out matches Err(e) ==> e@ == utf8_error_text(bytes@),
{
    String::from_utf8(bytes).map_err(|e| format!("{e}"))
}

/// `a` and `b` hold the same characters.
pub fn same_text(a: &str, b: &str) -> (out: bool)
    ensures
        out == (a@ == b@),
{
    let x = chars_of(a);
    let y = chars_of(b);
    if x.len() != y.len() {
        return false;
    }
    let mut i: usize = 0;
    while i < x.len()
        invariant
            x@ == a@,
            y@ == b@,
            x.len() == y.len(),
            i <= x.len(),
            forall|k: int| 0 <= k < i ==> x@[k] == y@[k],
        decreases x.len() - i,
    {
        if x[i] != y[i] {
            return false;
        }
        i = i + 1;
    }
    assert(x@ =~= y@);
    true
}

/// `a` and `b` hold the same bytes.
pub fn same_bytes(a: &Vec<u8>, b: &Vec<u8>) -> (out: bool)
    ensures
        out == (a@ == b@),
{
    if a.len() != b.len() {
        return false;
    }
    let mut i: usize = 0;
    while i < a.len()
        invariant
            a.len() == b.len(),
            i <= a.len(),
            forall|k: int| 0 <= k < i ==> a@[k] == b@[k],
        decreases a.len() - i,
    {
        if a[i] != b[i] {
            return false;
        }
        i = i + 1;
    }
    assert(a@ =~= b@);
    true
}

/// `s` with every occurrence of `c` replaced by `with` (`str::replace` with a
/// one-character pattern).
pub open spec fn replace_char(s: Seq<char>, c: char, with: Seq<char>) -> Seq<char>
    decreases s.len(),
{
    if s.len() == 0 {
        Seq::<char>::empty()
    } else {
        replace_char(s.drop_last(), c, with) + (if s.last() == c {
            with
        } else {
            seq![s.last()]
        })
    }
}

/// `s` with every `c` replaced by `with`.
pub fn replace_all(s: &str, c: char, with: &str) -> (out: String)
    ensures
        out@ == replace_char(s@, c, with@),
{
    let cs = chars_of(s);
    let w = chars_of(with);
    let mut out: Vec<char> = Vec::new();
    let mut i: usize = 0;
    while i < cs.len()
        invariant
            cs@ == s@,
            w@ == with@,
            i <= cs.len(),
            out@ == replace_char(cs@.take(i as int), c, with@),
        decreases cs.len() - i,
    {
        assert(cs@.take(i + 1).drop_last() =~= cs@.take(i as int));
        if cs[i] == c {
            let mut j: usize = 0;
            let ghost before = out@;
            while j < w.len()
                invariant
                    j <= w.len(),
                    out@ == before + w@.take(j as int),
                decreases w.len() - j,
            {
                out.push(w[j]);
                j = j + 1;
                assert(out@ =~= before + w@.take(j as int));
            }
            assert(w@.take(w.len() as int) =~= w@);
        } else {
            out.push(cs[i]);
        }
        i = i + 1;
        assert(out@ =~= replace_char(cs@.take(i as int), c, with@));
    }
    assert(cs@.take(cs.len() as int) =~= s@);
    string_of(&out)
}

/// `s` begins with `prefix`.
pub fn starts_with(s: &str, prefix: &str) -> (out: bool)
    ensures
        out == has_prefix(s@, prefix@),
{
    let x = chars_of(s);
    let p = chars_of(prefix);
    if p.len() > x.len() {
        return false;
    }
    let mut i: usize = 0;
    while i < p.len()
        invariant
            x@ == s@,
            p@ == prefix@,
            p.len() <= x.len(),
            i <= p.len(),
            forall|k: int| 0 <= k < i ==> x@[k] == p@[k],
        decreases p.len() - i,
    {
        if x[i] != p[i] {
            assert(s@.take(prefix@.len() as int)[i as int] != prefix@[i as int]);
            return false;
        }
        i = i + 1;
    }
    assert(s@.take(prefix@.len() as int) =~= prefix@);
    true
}

/// `s` without its first `n` characters.
pub fn skip_chars(s: &str, n: usize) -> (out: String)
    requires
        n <= s@.len(),
    ensures
        out@ == s@.skip(n as int),
{
    let x = chars_of(s);
    let mut rest: Vec<char> = Vec::new();
    let mut i: usize = n;
    while i < x.len()
        invariant
            x@ == s@,
            n <= i <= x.len(),
            rest@ == s@.subrange(n as int, i as int),
        decreases x.len() - i,
    {
        rest.push(x[i]);
        i = i + 1;
    }
    assert(rest@ =~= s@.skip(n as int));
    string_of(&rest)
}

/// `a` followed by `b`.
pub fn concat(a: &str, b: &str) -> (out: String)
    ensures
        out@ == a@ + b@,
{
    let mut out = String::from_str(a);
    out.append(b);
    out
}

/// The lines of `s`, as `str::lines` yields them.
pub fn lines(s: &str) -> (out: Vec<String>)
    ensures
        views(out@) == lines_of(s@),
{
    let cs = chars_of(s);
    let mut out: Vec<String> = Vec::new();
    let mut cur: Vec<char> = Vec::new();
    let ghost mut done: Seq<Seq<char>> = Seq::empty();
    let mut i: usize = 0;
    while i < cs.len()
        invariant
            cs@ == s@,
            i <= cs.len(),
            split_on(cs@.take(i as int), '\n') == done.push(cur@),
            views(out@) == done.map_values(|l: Seq<char>| strip_cr(l)),
        decreases cs.len() - i,
    {
        let c = cs[i];
        assert(cs@.take(i + 1).drop_last() =~= cs@.take(i as int));
        assert(cs@.take(i + 1).last() == c);
        if c == '\n' {
            let ghost old_out = views(out@);
            let mut line = cur;
            if line.len() > 0 && line[line.len() - 1] == '\r' {
                line.pop();
            }
            assert(line@ == strip_cr(cur@));
            out.push(string_of(&line));
            proof {
                done = done.push(cur@);
                assert(views(out@) =~= old_out.push(line@));
                assert(views(out@) =~= done.map_values(|l: Seq<char>| strip_cr(l)));
            }
            cur = Vec::new();
            assert(split_on(cs@.take(i + 1), '\n') =~= done.push(cur@));
        } else {
            cur.push(c);
            assert(split_on(cs@.take(i + 1), '\n') =~= done.push(cur@));
        }
        i = i + 1;
    }
    assert(cs@.take(cs.len() as int) =~= s@);
    assert(done.push(cur@).drop_last() =~= done);
    if cur.len() > 0 {
        let ghost old_out = views(out@);
        out.push(string_of(&cur));
        assert(views(out@) =~= old_out.push(cur@));
    }
    out
}

/// The pieces of `cs` between the occurrences of `sep` (`str::split`).
pub fn split_chars(cs: &Vec<char>, sep: char) -> (out: Vec<Vec<char>>)
    ensures
        out@.len() == split_on(cs@, sep).len(),
        forall|i: int| 0 <= i < out@.len() ==> #[trigger] out@[i]@ == split_on(cs@, sep)[i],
{
    let mut out: Vec<Vec<char>> = Vec::new();
    let mut cur: Vec<char> = Vec::new();
    let mut i: usize = 0;
    while i < cs.len()
        invariant
            i <= cs.len(),
            split_on(cs@.take(i as int), sep).len() == out@.len() + 1,
            forall|j: int| 0 <= j < out@.len() ==> #[trigger] out@[j]@ == split_on(cs@.take(i as int), sep)[j],
            split_on(cs@.take(i as int), sep).last() == cur@,
        decreases cs.len() - i,
    {
        let c = cs[i];
        assert(cs@.take(i + 1).drop_last() =~= cs@.take(i as int));
        assert(cs@.take(i + 1).last() == c);
        if c == sep {
            let piece = cur;
            out.push(piece);
            cur = Vec::new();
            assert(cur@ =~= Seq::<char>::empty());
        } else {
            cur.push(c);
        }
        i = i + 1;
    }
    assert(cs@.take(cs.len() as int) =~= cs@);
    out.push(cur);
    out
}

/// `rel` appended to the path `base` as `Path::join` does it on Unix: an
/// absolute `rel` replaces `base`, else one `'/'` stands between them unless
/// `base` is empty or already ends with one.
pub open spec fn path_join(base: Seq<char>, rel: Seq<char>) -> Seq<char> {
    if rel.len() > 0 && rel[0] == '/' {
        rel
    } else if base.len() == 0 || base.last() == '/' {
        base + rel
    } else {
        base + seq!['/'] + rel
    }
}

/// The path `rel` joined to `base` (`Path::join`, Unix rules).
pub fn join_path(base: &str, rel: &str) -> (out: String)
    ensures
        out@ == path_join(base@, rel@),
{
    let b = chars_of(base);
    let r = chars_of(rel);
    if r.len() > 0 && r[0] == '/' {
        return String::from_str(rel);
    }
    if b.len() == 0 || b[b.len() - 1] == '/' {
        concat(base, rel)
    } else {
        let with_sep = concat(base, "/");
        proof {
            reveal_strlit("/");
        }
        concat(with_sep.as_str(), rel)
    }
}

/// The strings of `parts` from index `from` on, joined with `sep` (`[T]::join`).
pub fn join_from(parts: &Vec<String>, from: usize, sep: &str) -> (out: String)
    requires
        from <= parts@.len(),
    ensures
        out@ == join(views(parts@).skip(from as int), sep@),
{
    let mut out = String::new();
    if from == parts.len() {
        assert(views(parts@).skip(from as int) =~= Seq::<Seq<char>>::empty());
        return out;
    }
    out.append(parts[from].as_str());
    let mut i: usize = from + 1;
    assert(views(parts@).subrange(from as int, i as int) =~= seq![parts@[from as int]@]);
    while i < parts.len()
        invariant
            from < i <= parts.len(),
            out@ == join(views(parts@).subrange(from as int, i as int), sep@),
        decreases parts.len() - i,
    {
        out.append(sep);
        out.append(parts[i].as_str());
        let ghost w = views(parts@).subrange(from as int, i + 1);
        assert(w.drop_last() =~= views(parts@).subrange(from as int, i as int));
        i = i + 1;
    }
    assert(views(parts@).subrange(from as int, parts.len() as int) =~= views(parts@).skip(
        from as int,
    ));
    out
}

} // verus!
