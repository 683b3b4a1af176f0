//! The policy of workspace file reads: size caps, UTF-8 decoding and the selection of a
//! line range from a stream of lines, with stable error messages.
//!
//! Opening, reading and writing the files happen at the caller.

use vstd::prelude::*;

use crate::path_encoding::from_utf8;
use crate::text::{chars_of, concat2, push_char, slice_chars, string_of};

verus! {

broadcast use vstd::string::group_string_axioms;

/// Files up to this size can be read directly into memory in one shot.
pub const INLINE_READ_BYTES: u64 = 4096;

/// Disk read block size used for streaming reads.
pub const IO_BLOCK_BYTES: usize = 4096;

/// Refuses a path that is not a regular file, or a file larger than `max_bytes`.
pub fn validate_file_size(label: &str, is_file: bool, len: u64, max_bytes: u64) -> (r: Result<(), String>)
    ensures
        !is_file ==> r is Err && r->Err_0@ == "not a file: "@ + label@,
        is_file && len > max_bytes ==> r is Err && r->Err_0@ == "file exceeds configured size limit: "@
            + label@,
        is_file && len <= max_bytes ==> r is Ok,
{
    if !is_file {
        return Err(concat2("not a file: ", label));
    }
    if len > max_bytes {
        return Err(concat2("file exceeds configured size limit: ", label));
    }
    Ok(())
}

/// The text of UTF-8 bytes; other bytes are refused.
pub fn decode_utf8_text(bytes: Vec<u8>, label: &str) -> (r: Result<String, String>)
    ensures
        vstd::utf8::valid_utf8(bytes@) ==> r is Ok && r->Ok_0@ == vstd::utf8::decode_utf8(bytes@),
        !vstd::utf8::valid_utf8(bytes@) ==> r is Err && r->Err_0@ == "file is not available as UTF-8 text: "@
            + label@,
{
    match from_utf8(bytes.as_slice()) {
        Ok(text) => Ok(text),
        Err(_) => Err(concat2("file is not available as UTF-8 text: ", label)),
    }
}

/// `s` without its trailing `\n` and `\r` characters.
pub open spec fn trim_line_end(s: Seq<char>) -> Seq<char>
    decreases s.len(),
{
    if s.len() > 0 && (s.last() == '\n' || s.last() == '\r') {
        trim_line_end(s.drop_last())
    } else {
        s
    }
}

/// `out` with `line` appended, after a `\n` unless `out` is empty.
pub open spec fn pushed_line(out: Seq<char>, line: Seq<char>) -> Seq<char> {
    if out.len() == 0 {
        line
    } else {
        out + seq!['\n'] + line
    }
}

/// The lines `lines` pushed one after the other.
pub open spec fn pushed_lines(lines: Seq<Seq<char>>) -> Seq<char>
    decreases lines.len(),
{
    if lines.len() == 0 {
        Seq::empty()
    } else {
        pushed_line(pushed_lines(lines.drop_last()), lines.last())
    }
}

/// The lines of `lines` a range starting at line `start` (1-based) keeps, without their
/// line endings: every line from `start` on (all of them when `start` is 0).
pub open spec fn wanted_lines(lines: Seq<Seq<char>>, start: usize) -> Seq<Seq<char>> {
    let first: int = if start > 0 {
        start - 1
    } else {
        0
    };
    if lines.len() <= first {
        Seq::empty()
    } else {
        Seq::new((lines.len() - first) as nat, |i: int| trim_line_end(lines[first + i]))
    }
}

/// `s` without its trailing `\n` and `\r` characters.
pub fn trim_line_ending(s: &str) -> (r: String)
    ensures
        r@ == trim_line_end(s@),
{
    let chars = chars_of(s);
    let mut n = chars.len();
    assert(chars@.subrange(0, n as int) =~= chars@);
    while n > 0 && (chars[n - 1] == '\n' || chars[n - 1] == '\r')
        invariant
            n <= chars@.len(),
            trim_line_end(s@) == trim_line_end(chars@.subrange(0, n as int)),
            chars@ == s@,
        decreases n,
    {
        assert(chars@.subrange(0, n as int).drop_last() =~= chars@.subrange(0, n - 1));
        n = n - 1;
    }
    let kept = slice_chars(chars.as_slice(), 0, n);
    string_of(kept.as_slice())
}

/// Collects the lines `start..=end` (1-based) of a stream of lines, each without its line
/// ending; it wants lines until it has seen `end` of them.
pub struct LineRange {
    start: usize,
    end: usize,
    seen: usize,
    output: String,
    lines: Ghost<Seq<Seq<char>>>,
}

impl LineRange {
    /// The lines seen so far, as they were read.
    pub closed spec fn seen_view(&self) -> Seq<Seq<char>> {
        self.lines@
    }

    /// The first line wanted.
    pub closed spec fn start_view(&self) -> usize {
        self.start
    }

    /// The last line wanted.
    pub closed spec fn end_view(&self) -> usize {
        self.end
    }

    /// The text collected so far.
    pub closed spec fn output_view(&self) -> Seq<char> {
        self.output@
    }

    /// The collected text is that of the wanted lines seen so far.
    pub closed spec fn wf(&self) -> bool {
        &&& self.seen == self.lines@.len()
        &&& self.seen <= self.end
        &&& self.output@ == pushed_lines(wanted_lines(self.lines@, self.start))
    }

    /// A collector for lines `start..=end`, with nothing seen.
    pub fn new(start: usize, end: usize) -> (r: Self)
        ensures
            r.wf(),
            r.start_view() == start,
            r.end_view() == end,
            r.seen_view().len() == 0,
    {
        LineRange { start, end, seen: 0, output: String::new(), lines: Ghost(Seq::empty()) }
    }

    /// Whether more lines are wanted.
    pub fn wants_more(&self) -> (r: bool)
        requires
            self.wf(),
        ensures
            r == (self.seen_view().len() < self.end_view()),
    {
        self.seen < self.end
    }

    /// Takes the next line of the stream.
    pub fn accept_line(&mut self, line: &str)
        requires
            old(self).wf(),
            old(self).seen_view().len() < old(self).end_view(),
        ensures
            final(self).wf(),
            final(self).start_view() == old(self).start_view(),
            final(self).end_view() == old(self).end_view(),
            final(self).seen_view() == old(self).seen_view().push(line@),
    {
        let ghost before = self.lines@;
        let ghost w0 = wanted_lines(before, self.start);
        self.seen = self.seen + 1;
        self.lines = Ghost(before.push(line@));
        let ghost w1 = wanted_lines(self.lines@, self.start);
        if self.seen >= self.start {
            let trimmed = trim_line_ending(line);
            proof {
                assert(w1 =~= w0.push(trim_line_end(line@)));
                assert(w1.drop_last() =~= w0);
            }
            let ghost o = self.output@;
            if self.output.as_str().is_empty() {
                self.output = trimmed;
            } else {
                push_char(&mut self.output, '\n');
                self.output.append(trimmed.as_str());
                assert(self.output@ =~= o + seq!['\n'] + trim_line_end(line@));
            }
            proof {
                assert(pushed_lines(w1) == pushed_line(pushed_lines(w0), trim_line_end(line@)));
            }
        } else {
            proof {
                assert(w1 =~= w0);
            }
        }
    }

    /// The collected text once the stream ended or enough lines were seen; an error when
    /// the stream had fewer than `end` lines.
    pub fn finish(&self, path: &str) -> (r: Result<String, String>)
        requires
            self.wf(),
        ensures
            self.seen_view().len() < self.end_view() ==> r is Err && r->Err_0@
                == "requested line range is out of bounds for file: "@ + path@,
            self.seen_view().len() >= self.end_view() ==> r is Ok && r->Ok_0@ == pushed_lines(
                wanted_lines(self.seen_view(), self.start_view()),
            ),
    {
        if self.end > self.seen {
            return Err(concat2("requested line range is out of bounds for file: ", path));
        }
        Ok(self.output.clone())
    }
}

} // verus!
