//! Reading one line of bytes from a stream.

use vstd::prelude::*;

verus! {

/// One outcome of reading a byte from a stream.
#[derive(Debug, Clone, Copy, PartialEq, Eq)]
pub enum ByteRead {
    /// A byte was read.
    Byte(u8),
    /// The read failed.
    Failed,
    /// The stream has ended.
    End,
}

/// The line that reading goes on to give, having read the bytes `acc` of it
/// so far (`seen`: whether anything at all was read) and with `items` still
/// to come: it ends at a line feed, which it leaves out, or where the stream
/// ends; a failed read, or a stream that ends before anything was read,
/// gives no line.
pub open spec fn line_from(acc: Seq<u8>, seen: bool, items: Seq<ByteRead>) -> Option<Seq<u8>>
    decreases items.len(),
{
    if items.len() == 0 {
        if seen {
            Some(acc)
        } else {
            None
        }
    } else {
        match items[0] {
            ByteRead::End => if seen {
                Some(acc)
            } else {
                None
            },
            ByteRead::Failed => None,
            ByteRead::Byte(b) => if b == 10 {
                Some(acc)
            } else {
                line_from(acc.push(b), true, items.skip(1))
            },
        }
    }
}

/// The view of an optional line.
pub open spec fn line_view(o: Option<Vec<u8>>) -> Option<Seq<u8>> {
    match o {
        Some(v) => Some(v@),
        None => None,
    }
}

/// A line being read from a stream, one read outcome at a time.
pub struct LineReader {
    bytes: Vec<u8>,
    seen: bool,
}

impl LineReader {
    /// The bytes of the line read so far.
    pub closed spec fn bytes(&self) -> Seq<u8> {
        self.bytes@
    }

    /// Whether anything has been read.
    pub closed spec fn seen(&self) -> bool {
        self.seen
    }

    /// A reader that has read nothing yet.
    pub fn new() -> (r: Self)
        ensures
            r.bytes() == Seq::<u8>::empty(),
            !r.seen(),
    {
        LineReader { bytes: Vec::new(), seen: false }
    }

    /// Takes in one read outcome: gives the line once it is complete (`None`
    /// when there is none to give), or nothing while it goes on. Whatever
    /// outcomes follow, the line given, now or later, is the one that
    /// `line_from` gives for all of them.
    pub fn step(&mut self, item: ByteRead) -> (out: Option<Option<Vec<u8>>>)
        ensures
            forall|rest: Seq<ByteRead>|
                line_from(old(self).bytes(), old(self).seen(), seq![item] + rest) == match out {
                    Some(line) => line_view(line),
                    None => line_from(final(self).bytes(), final(self).seen(), rest),
                },
    {
        proof {
            assert forall|rest: Seq<ByteRead>| (#[trigger] (seq![item] + rest)).skip(1) == rest by {
                assert((seq![item] + rest).skip(1) =~= rest);
            }
        }
        match item {
            ByteRead::End => {
                if self.seen {
                    let mut line = Vec::new();
                    std::mem::swap(&mut line, &mut self.bytes);
                    Some(Some(line))
                } else {
                    Some(None)
                }
            },
            ByteRead::Failed => {
                self.seen = true;
                Some(None)
            },
            ByteRead::Byte(b) => {
                self.seen = true;
                if b == 10 {
                    let mut line = Vec::new();
                    std::mem::swap(&mut line, &mut self.bytes);
                    Some(Some(line))
                } else {
                    self.bytes.push(b);
                    None
                }
            },
        }
    }
}

/// The line that reading `items`, the outcomes of reading a stream byte by
/// byte, gives: the bytes before the first line feed, or before the end of
/// the stream; `None` when a read fails, or when the stream ends before any
/// byte. What follows the line is not read.
pub fn read_line(items: &Vec<ByteRead>) -> (out: Option<Vec<u8>>)
    ensures
        line_view(out) == line_from(Seq::<u8>::empty(), false, items@),
{
    let mut reader = LineReader::new();
    let mut i: usize = 0;
    assert(items@.skip(0) =~= items@);
    while i < items.len()
        invariant
            i <= items.len(),
            line_from(Seq::<u8>::empty(), false, items@) == line_from(reader.bytes(), reader.seen(), items@.skip(i as int)),
        decreases items.len() - i,
    {
        let ghost rest = items@.skip(i + 1);
        assert(items@.skip(i as int) =~= seq![items@[i as int]] + rest);
        match reader.step(items[i]) {
            Some(line) => {
                return line;
            },
            None => {},
        }
        i = i + 1;
    }
    assert(items@.skip(i as int) =~= Seq::<ByteRead>::empty());
    if reader.seen {
        Some(reader.bytes)
    } else {
        None
    }
}

/// The read outcomes of a stream that yields the bytes of `u`.
pub open spec fn byte_items(u: Seq<u8>) -> Seq<ByteRead> {
    u.map_values(|b: u8| ByteRead::Byte(b))
}

/// The read outcomes of a stream that holds the bytes `t`, then ends.
pub open spec fn stream_items(t: Seq<u8>) -> Seq<ByteRead> {
    byte_items(t) + seq![ByteRead::End]
}

/// The position of the first line feed in `t`, or its length when there is
/// none.
pub open spec fn first_newline(t: Seq<u8>) -> int
    decreases t.len(),
{
    if t.len() == 0 {
        0
    } else if t[0] == 10 {
        0
    } else {
        1 + first_newline(t.skip(1))
    }
}

/// Where the first line feed of `t` stands.
pub proof fn lemma_first_newline(t: Seq<u8>)
    ensures
        0 <= first_newline(t) <= t.len(),
        first_newline(t) < t.len() ==> t[first_newline(t)] == 10,
        forall|k: int| 0 <= k < first_newline(t) ==> t[k] != 10,
    decreases t.len(),
{
    if t.len() > 0 && t[0] != 10 {
        lemma_first_newline(t.skip(1));
        assert forall|k: int| 0 <= k < first_newline(t) implies t[k] != 10 by {
            if k > 0 {
                assert(t[k] == t.skip(1)[k - 1]);
            }
        }
    }
}

/// The lines that successive reads take from a stream holding `t`: the
/// pieces between line feeds, and a last piece without one when it is not
/// empty.
pub open spec fn byte_lines(t: Seq<u8>) -> Seq<Seq<u8>>
    decreases t.len(),
{
    if t.len() == 0 {
        Seq::<Seq<u8>>::empty()
    } else {
        let i = first_newline(t);
        proof {
            lemma_first_newline(t);
        }
        if i >= t.len() {
            seq![t]
        } else {
            seq![t.take(i)] + byte_lines(t.skip(i + 1))
        }
    }
}

/// Bytes without a line feed are taken in as they come.
proof fn lemma_line_from_plain(acc: Seq<u8>, seen: bool, u: Seq<u8>, rest: Seq<ByteRead>)
    requires
        forall|k: int| 0 <= k < u.len() ==> u[k] != 10,
    ensures
        line_from(acc, seen, byte_items(u) + rest) == line_from(acc + u, seen || u.len() > 0, rest),
    decreases u.len(),
{
    if u.len() == 0 {
        assert(byte_items(u) + rest =~= rest);
        assert(acc + u =~= acc);
    } else {
        let items = byte_items(u) + rest;
        assert(items[0] == ByteRead::Byte(u[0]));
        assert(items.skip(1) =~= byte_items(u.skip(1)) + rest);
        lemma_line_from_plain(acc.push(u[0]), true, u.skip(1), rest);
        assert(acc.push(u[0]) + u.skip(1) =~= acc + u);
    }
}

/// Successive reads of a stream that holds the bytes `t` give the lines of
/// `t` in order and then nothing: the first read gives the first line (none
/// when `t` is empty), it reads nothing past the line feed that ends that
/// line, and the lines of what is left are the remaining lines of `t`.
pub proof fn lemma_successive_reads(t: Seq<u8>)
    ensures
        byte_lines(t).len() == 0 <==> t.len() == 0,
        t.len() == 0 ==> line_from(Seq::<u8>::empty(), false, stream_items(t)) is None,
        t.len() > 0 ==> line_from(Seq::<u8>::empty(), false, stream_items(t)) == Some(byte_lines(t)[0]),
        first_newline(t) < t.len() ==> (forall|after: Seq<ByteRead>|
            line_from(Seq::<u8>::empty(), false, #[trigger] (byte_items(t.take(first_newline(t) + 1)) + after))
                == Some(byte_lines(t)[0])),
        first_newline(t) < t.len() ==> byte_lines(t.skip(first_newline(t) + 1)) == byte_lines(t).drop_first(),
        first_newline(t) >= t.len() ==> byte_lines(t).len() <= 1,
{
    lemma_first_newline(t);
    let i = first_newline(t);
    let u = t.take(i);
    assert forall|k: int| 0 <= k < u.len() implies u[k] != 10 by {}
    if t.len() == 0 {
        assert(stream_items(t) =~= seq![ByteRead::End]);
    } else if i >= t.len() {
        assert(u =~= t);
        lemma_line_from_plain(Seq::<u8>::empty(), false, t, seq![ByteRead::End]);
        assert(Seq::<u8>::empty() + t =~= t);
    } else {
        assert forall|after: Seq<ByteRead>|
            line_from(Seq::<u8>::empty(), false, #[trigger] (byte_items(t.take(i + 1)) + after)) == Some(
                byte_lines(t)[0],
            ) by {
            assert(byte_items(t.take(i + 1)) + after =~= byte_items(u) + (seq![ByteRead::Byte(10u8)] + after));
            lemma_line_from_plain(Seq::<u8>::empty(), false, u, seq![ByteRead::Byte(10u8)] + after);
            assert(Seq::<u8>::empty() + u =~= u);
        }
        assert(stream_items(t) =~= byte_items(t.take(i + 1)) + stream_items(t.skip(i + 1)));
        assert((seq![u] + byte_lines(t.skip(i + 1))).drop_first() =~= byte_lines(t.skip(i + 1)));
    }
}

/// What is left of a stream holding `t` after one read: the bytes after its
/// first line feed, or nothing when it has none.
pub open spec fn after_read(t: Seq<u8>) -> Seq<u8> {
    if first_newline(t) < t.len() {
        t.skip(first_newline(t) + 1)
    } else {
        Seq::<u8>::empty()
    }
}

/// What is left of a stream holding `t` after `k` reads.
pub open spec fn left_after(t: Seq<u8>, k: nat) -> Seq<u8>
    decreases k,
{
    if k == 0 {
        t
    } else {
        after_read(left_after(t, (k - 1) as nat))
    }
}

/// One read takes the first line off what is left.
proof fn lemma_after_read_lines(t: Seq<u8>)
    ensures
        t.len() > 0 ==> byte_lines(after_read(t)) == byte_lines(t).drop_first(),
        t.len() == 0 ==> after_read(t).len() == 0,
{
    lemma_successive_reads(t);
    lemma_first_newline(t);
    if t.len() > 0 && first_newline(t) >= t.len() {
        assert(byte_lines(after_read(t)) =~= Seq::<Seq<u8>>::empty());
        assert(byte_lines(t).drop_first() =~= Seq::<Seq<u8>>::empty());
    }
}

/// After `k` reads, the lines left are those of `t` from the `k`-th on.
proof fn lemma_lines_left(t: Seq<u8>, k: nat)
    ensures
        byte_lines(left_after(t, k)) == if k <= byte_lines(t).len() {
            byte_lines(t).skip(k as int)
        } else {
            Seq::<Seq<u8>>::empty()
        },
    decreases k,
{
    let n = byte_lines(t).len();
    if k == 0 {
        assert(byte_lines(t).skip(0) =~= byte_lines(t));
    } else {
        let u = left_after(t, (k - 1) as nat);
        lemma_lines_left(t, (k - 1) as nat);
        lemma_successive_reads(u);
        lemma_after_read_lines(u);
        if u.len() == 0 {
            lemma_successive_reads(after_read(u));
            assert(k - 1 <= byte_lines(t).len() ==> byte_lines(t).skip(k - 1).len() == 0);
        } else {
            assert(byte_lines(t).skip(k - 1).drop_first() =~= byte_lines(t).skip(k as int));
        }
    }
}

/// Reading a stream that holds `t` again and again, each read taking up
/// where the last one stopped, gives the lines of `t` in order and then
/// nothing: read number `k` (from 0) gives the `k`-th line while there is
/// one, and every read after the last line gives `None`.
pub proof fn lemma_reads_in_order(t: Seq<u8>, k: nat)
    ensures
        k < byte_lines(t).len() ==> line_from(Seq::<u8>::empty(), false, stream_items(left_after(t, k)))
            == Some(byte_lines(t)[k as int]),
        k >= byte_lines(t).len() ==> line_from(Seq::<u8>::empty(), false, stream_items(left_after(t, k))) is None,
{
    let u = left_after(t, k);
    lemma_lines_left(t, k);
    lemma_successive_reads(u);
    if k == byte_lines(t).len() {
        assert(byte_lines(t).skip(k as int) =~= Seq::<Seq<u8>>::empty());
    }
}

/// The bytes of a stream that carries the lines `ls`, each followed by a
/// line feed.
pub open spec fn lines_stream(ls: Seq<Seq<u8>>) -> Seq<u8>
    decreases ls.len(),
{
    if ls.len() == 0 {
        Seq::<u8>::empty()
    } else {
        ls[0] + seq![10u8] + lines_stream(ls.skip(1))
    }
}

/// A line without a line feed in it.
pub open spec fn newline_free(l: Seq<u8>) -> bool {
    forall|k: int| 0 <= k < l.len() ==> l[k] != 10
}

/// Successive reads of a stream that carries the lines `ls`, each followed
/// by a line feed, and then the bytes `rest`, give the lines `ls` in order
/// and then the lines of `rest`.
pub proof fn lemma_stream_of_lines(ls: Seq<Seq<u8>>, rest: Seq<u8>)
    requires
        forall|i: int| 0 <= i < ls.len() ==> newline_free(#[trigger] ls[i]),
    ensures
        byte_lines(lines_stream(ls) + rest) == ls + byte_lines(rest),
    decreases ls.len(),
{
    if ls.len() == 0 {
        assert(lines_stream(ls) + rest =~= rest);
        assert(ls + byte_lines(rest) =~= byte_lines(rest));
    } else {
        let o = ls[0];
        let tail = ls.skip(1);
        assert forall|i: int| 0 <= i < tail.len() implies newline_free(#[trigger] tail[i]) by {
            assert(tail[i] == ls[i + 1]);
        }
        lemma_stream_of_lines(tail, rest);
        let t = lines_stream(ls) + rest;
        let x = lines_stream(tail) + rest;
        assert(newline_free(o));
        assert(t =~= o + seq![10u8] + x);
        lemma_first_newline_after(o, x);
        assert(t.take(o.len() as int) =~= o);
        assert(t.skip(o.len() as int + 1) =~= x);
        assert(ls =~= seq![o] + tail);
        assert(byte_lines(t) =~= seq![o] + byte_lines(x));
    }
}

/// The first line feed after a line without one is the one that ends it.
proof fn lemma_first_newline_after(o: Seq<u8>, x: Seq<u8>)
    requires
        newline_free(o),
    ensures
        first_newline(o + seq![10u8] + x) == o.len(),
    decreases o.len(),
{
    let t = o + seq![10u8] + x;
    if o.len() > 0 {
        lemma_first_newline_after(o.skip(1), x);
        assert(t.skip(1) =~= o.skip(1) + seq![10u8] + x);
        assert(t[0] == o[0]);
    } else {
        assert(t[0] == 10u8);
    }
}

} // verus!
