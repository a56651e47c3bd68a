use vstd::prelude::*;
use crate::text::{append_chars, chars_of, dec, dec_u64, string_of};

verus! {

/// How many lines the in-memory log keeps.
pub const LOG_CAPACITY: usize = 600;

/// The most recent log lines, oldest first, at most `LOG_CAPACITY` of them.
pub struct LogRing {
    lines: Vec<String>,
}

/// The characters of each line.
pub open spec fn line_views(v: Seq<String>) -> Seq<Seq<char>> {
    v.map_values(|l: String| l@)
}

/// The last `cap` of `s`, or all of `s` when it is shorter.
pub open spec fn keep_last(s: Seq<Seq<char>>, cap: int) -> Seq<Seq<char>> {
    if s.len() > cap {
        s.skip(s.len() - cap)
    } else {
        s
    }
}

impl View for LogRing {
    type V = Seq<Seq<char>>;

    closed spec fn view(&self) -> Seq<Seq<char>> {
        line_views(self.lines@)
    }
}

impl LogRing {
    /// An empty log.
    pub fn new() -> (r: LogRing)
        ensures
            r@ == Seq::<Seq<char>>::empty(),
    {
        let r = LogRing { lines: Vec::new() };
        assert(r@ =~= Seq::<Seq<char>>::empty());
        r
    }

    /// Appends `line`, dropping the oldest lines beyond `LOG_CAPACITY`.
    pub fn push(&mut self, line: String)
        ensures
            final(self)@ == keep_last(old(self)@.push(line@), LOG_CAPACITY as int),
    {
        let ghost s = old(self)@.push(line@);
        self.lines.push(line);
        assert(line_views(self.lines@) =~= s);
        while self.lines.len() > LOG_CAPACITY
            invariant
                line_views(self.lines@) == s.skip(s.len() - self.lines@.len()),
                self.lines@.len() <= s.len(),
                self.lines@.len() >= LOG_CAPACITY || self.lines@.len() == s.len(),
            decreases self.lines@.len(),
        {
            let ghost before = self.lines@;
            self.lines.remove(0);
            assert(self.lines@ == before.remove(0));
            assert forall|j: int| 0 <= j < self.lines@.len() implies line_views(self.lines@)[j] == s.skip(s.len() - self.lines@.len())[j] by {
                assert(self.lines@[j] == before[j + 1]);
                assert(line_views(before)[j + 1] == s.skip(s.len() - before.len())[j + 1]);
            }
            assert(line_views(self.lines@) =~= s.skip(s.len() - self.lines@.len()));
        }
        proof {
            if s.len() <= LOG_CAPACITY as nat {
                assert(s.skip(0) =~= s);
            }
        }
    }

    /// The number of lines held.
    pub fn len(&self) -> (r: usize)
        ensures
            r == self@.len(),
    {
        self.lines.len()
    }

    /// The last `n` lines, oldest first (all of them when fewer are held).
    pub fn recent(&self, n: usize) -> (r: Vec<String>)
        ensures
            line_views(r@) == keep_last(self@, n as int),
    {
        let len = self.lines.len();
        let from = if len > n { len - n } else { 0 };
        let mut r: Vec<String> = Vec::new();
        for i in from..len
            invariant
                len == self.lines@.len(),
                from <= len,
                line_views(r@) == line_views(self.lines@).subrange(from as int, i as int),
        {
            let ghost before = r@;
            r.push(self.lines[i].clone());
            assert(r@ == before.push(self.lines@[i as int]));
            assert(line_views(r@) =~= line_views(before).push(self.lines@[i as int]@));
            assert(line_views(self.lines@).subrange(from as int, i + 1) =~= line_views(self.lines@).subrange(from as int, i as int).push(line_views(self.lines@)[i as int]));
            assert(line_views(r@) =~= line_views(self.lines@).subrange(from as int, i + 1));
        }
        assert(line_views(self.lines@).subrange(from as int, len as int) =~= keep_last(self@, n as int));
        r
    }
}

/// A log line: the time in seconds, the level in brackets, the message.
pub open spec fn log_line(ts: u64, level: Seq<char>, msg: Seq<char>) -> Seq<char> {
    dec(ts as nat) + seq![' ', '['] + level + seq![']', ' '] + msg
}

/// Formats a log line.
pub fn format_log_line(ts: u64, level: &str, msg: &str) -> (r: String)
    ensures
        r@ == log_line(ts, level@, msg@),
{
    let mut v = dec_u64(ts);
    v.push(' ');
    v.push('[');
    append_chars(&mut v, &chars_of(level));
    v.push(']');
    v.push(' ');
    append_chars(&mut v, &chars_of(msg));
    assert(v@ =~= log_line(ts, level@, msg@));
    string_of(v.as_slice())
}

/// The in-memory log never holds more than `LOG_CAPACITY` lines, and the line just
/// pushed is the most recent one.
pub proof fn law_log_bounded(lines: Seq<Seq<char>>, line: Seq<char>)
    ensures
        keep_last(lines.push(line), LOG_CAPACITY as int).len() <= LOG_CAPACITY,
        keep_last(lines.push(line), LOG_CAPACITY as int).last() == line,
        keep_last(keep_last(lines.push(line), LOG_CAPACITY as int), 1) == seq![line],
{
    let s = lines.push(line);
    let k = keep_last(s, LOG_CAPACITY as int);
    assert(k.last() == line);
    assert(keep_last(k, 1) =~= seq![line]);
}

}
