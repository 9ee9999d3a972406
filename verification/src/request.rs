use vstd::prelude::*;

use crate::http_error::{
    client_timeout, incomplete_request, is_error_of_kind, HttpError, HttpErrorType,
};

verus! {

/// What one read of a single byte from the client gave.
pub enum ReadEvent {
    /// The byte that was read.
    Byte(u8),
    /// The read returned no byte: the client sent nothing more in time.
    EndOfStream,
    /// The read failed.
    ReadError,
}

/// What the head reader asks for after an event.
pub enum HeadStep {
    /// Read one more byte.
    NeedByte,
    /// The head is complete: its lines can be parsed.
    HeadComplete,
    /// The request failed; answer the client with the error.
    Failed(HttpError),
}

/// The state of a head reader: whether a line was kept, the partial line,
/// and the kept lines.
pub struct HeadState {
    pub had_first_line: bool,
    pub current: Seq<u8>,
    pub lines: Seq<Seq<u8>>,
}

/// The state of a reader that has read nothing.
pub open spec fn fresh_state() -> HeadState {
    HeadState { had_first_line: false, current: seq![], lines: seq![] }
}

/// Reading the byte `b` in state `s`: the next state, and whether the head is
/// then complete.
pub open spec fn next_state(s: HeadState, b: u8) -> (HeadState, bool) {
    let line = s.current.push(b);
    if b != 10 {
        (HeadState { current: line, ..s }, false)
    } else if line.len() == 2 {
        (HeadState { current: seq![], ..s }, s.had_first_line)
    } else {
        (HeadState { had_first_line: true, current: seq![], lines: s.lines.push(line) }, false)
    }
}

/// Reading `bytes` one by one from state `s`, stopping when the head is
/// complete: the state reached, and the number of bytes read when the head
/// completed, if it did.
pub open spec fn run_state(s: HeadState, bytes: Seq<u8>) -> (HeadState, Option<nat>)
    decreases bytes.len(),
{
    if bytes.len() == 0 {
        (s, None)
    } else {
        let (next, done) = next_state(s, bytes[0]);
        if done {
            (next, Some(1))
        } else {
            let (last, count) = run_state(next, bytes.drop_first());
            (
                last,
                match count {
                    Some(k) => Some(k + 1),
                    None => None,
                },
            )
        }
    }
}

/// `k` blank lines `"\r\n"`.
pub open spec fn blank_lines(k: nat) -> Seq<u8>
    decreases k,
{
    if k == 0 {
        seq![]
    } else {
        seq![13u8, 10u8] + blank_lines((k - 1) as nat)
    }
}

/// Blank lines before a request are skipped: a fresh reader that reads `k`
/// blank lines and then `rest` ends as one that reads `rest` alone, with the
/// head completing `2 * k` bytes later.
pub proof fn lemma_blank_lines_skipped(k: nat, rest: Seq<u8>)
    ensures
        run_state(fresh_state(), blank_lines(k) + rest).0 == run_state(fresh_state(), rest).0,
        run_state(fresh_state(), blank_lines(k) + rest).1 == match run_state(fresh_state(), rest).1 {
            Some(c) => Some(c + 2 * k),
            None => None::<nat>,
        },
    decreases k,
{
    if k > 0 {
        lemma_blank_lines_skipped((k - 1) as nat, rest);
        let all = blank_lines(k) + rest;
        let tail = blank_lines((k - 1) as nat) + rest;
        assert(all =~= seq![13u8, 10u8] + tail);
        assert(all[0] == 13u8);
        assert(all.drop_first() =~= seq![10u8] + tail);
        assert((seq![10u8] + tail)[0] == 10u8);
        assert((seq![10u8] + tail).drop_first() =~= tail);
        let after_cr = next_state(fresh_state(), 13u8).0;
        assert(after_cr.current =~= seq![13u8]);
        assert(next_state(after_cr, 10u8).0 == fresh_state()) by {
            assert(after_cr.current.push(10u8).len() == 2);
            assert(next_state(after_cr, 10u8).0.current =~= Seq::<u8>::empty());
            assert(next_state(after_cr, 10u8).0 =~= fresh_state());
        }
        assert(!next_state(fresh_state(), 13u8).1);
        assert(!next_state(after_cr, 10u8).1);
        let inner = run_state(fresh_state(), tail);
        let mid = run_state(after_cr, seq![10u8] + tail);
        assert(mid.0 == inner.0);
        assert(mid.1 == match inner.1 {
            Some(c) => Some(c + 1),
            None => None::<nat>,
        });
        let outer = run_state(fresh_state(), all);
        assert(outer.0 == mid.0);
        assert(outer.1 == match mid.1 {
            Some(c) => Some(c + 1),
            None => None::<nat>,
        });
    } else {
        assert(blank_lines(0) + rest =~= rest);
    }
}

/// Collects the lines of a request head, byte by byte. A line is the bytes up
/// to and including a `'\n'`. A line of exactly two bytes (such as `"\r\n"`) is
/// blank: blank lines before the first line are skipped, and the first blank
/// line after it ends the head.
pub struct RequestHeadReader {
    had_first_line: bool,
    current: Vec<u8>,
    lines: Vec<Vec<u8>>,
}

/// Whether `line` is a line kept in the head: it ends with `'\n'` and does not
/// have exactly two bytes.
pub open spec fn is_kept_line(line: Seq<u8>) -> bool {
    line.len() > 0 && line.last() == 10 && line.len() != 2
}

/// The bytes of each line.
pub open spec fn byte_lines(lines: Seq<Vec<u8>>) -> Seq<Seq<u8>> {
    lines.map_values(|line: Vec<u8>| line@)
}

impl RequestHeadReader {
    /// Whether a line has been kept.
    pub closed spec fn spec_had_first_line(&self) -> bool {
        self.had_first_line
    }

    /// The bytes of the line being read.
    pub closed spec fn spec_current(&self) -> Seq<u8> {
        self.current@
    }

    /// The lines kept so far.
    pub closed spec fn spec_lines(&self) -> Seq<Seq<u8>> {
        byte_lines(self.lines@)
    }

    /// The state of the reader.
    pub open spec fn spec_state(&self) -> HeadState {
        HeadState {
            had_first_line: self.spec_had_first_line(),
            current: self.spec_current(),
            lines: self.spec_lines(),
        }
    }

    /// The reader's state is consistent: every kept line is a kept line, the
    /// partial line holds no `'\n'`, and a line was kept exactly when there is one.
    pub open spec fn wf(&self) -> bool {
        &&& forall|i: int| 0 <= i < self.spec_lines().len() ==> is_kept_line(#[trigger] self.spec_lines()[i])
        &&& forall|i: int| 0 <= i < self.spec_current().len() ==> #[trigger] self.spec_current()[i] != 10
        &&& self.spec_had_first_line() == (self.spec_lines().len() > 0)
    }

    /// A reader that has read nothing.
    pub fn new() -> (res: RequestHeadReader)
        ensures
            res.wf(),
            !res.spec_had_first_line(),
            res.spec_current() == Seq::<u8>::empty(),
            res.spec_lines() == Seq::<Seq<u8>>::empty(),
    {
        let res = RequestHeadReader { had_first_line: false, current: Vec::new(), lines: Vec::new() };
        assert(res.spec_lines() =~= Seq::<Seq<u8>>::empty());
        assert(res.spec_current() =~= Seq::<u8>::empty());
        res
    }

    /// The lines kept so far.
    pub fn lines(&self) -> (res: &Vec<Vec<u8>>)
        ensures
            byte_lines(res@) == self.spec_lines(),
    {
        &self.lines
    }

    /// Takes in the outcome of one read of a byte and says what to do next.
    pub fn step(&mut self, event: ReadEvent) -> (res: HeadStep)
        requires
            old(self).wf(),
        ensures
            final(self).wf(),
            res is HeadComplete ==> final(self).spec_lines().len() >= 1,
            event matches ReadEvent::Byte(b) ==> next_state(old(self).spec_state(), b) == (
                final(self).spec_state(),
                res is HeadComplete,
            ),
            match event {
                ReadEvent::ReadError => {
                    &&& res matches HeadStep::Failed(e) && is_error_of_kind(
                        e,
                        HttpErrorType::IncompleteHttpRequest,
                    )
                    &&& *final(self) == *old(self)
                },
                ReadEvent::EndOfStream => {
                    &&& res matches HeadStep::Failed(e) && is_error_of_kind(
                        e,
                        HttpErrorType::ClientTimeout,
                    )
                    &&& *final(self) == *old(self)
                },
                ReadEvent::Byte(b) => {
                    let line = old(self).spec_current().push(b);
                    if b != 10 {
                        &&& res is NeedByte
                        &&& final(self).spec_current() == line
                        &&& final(self).spec_lines() == old(self).spec_lines()
                        &&& final(self).spec_had_first_line() == old(self).spec_had_first_line()
                    } else if line.len() == 2 {
                        &&& if old(self).spec_had_first_line() {
                            res is HeadComplete
                        } else {
                            res is NeedByte
                        }
                        &&& final(self).spec_current() == Seq::<u8>::empty()
                        &&& final(self).spec_lines() == old(self).spec_lines()
                        &&& final(self).spec_had_first_line() == old(self).spec_had_first_line()
                    } else {
                        &&& res is NeedByte
                        &&& final(self).spec_current() == Seq::<u8>::empty()
                        &&& final(self).spec_lines() == old(self).spec_lines().push(line)
                        &&& final(self).spec_had_first_line()
                    }
                },
            },
    {
        match event {
            ReadEvent::ReadError => HeadStep::Failed(incomplete_request()),
            ReadEvent::EndOfStream => HeadStep::Failed(client_timeout()),
            ReadEvent::Byte(character) => {
                let ghost old_lines = self.spec_lines();
                let ghost old_current = self.current@;
                self.current.push(character);
                if character != 10 {
                    assert forall|i: int| 0 <= i < self.spec_current().len() implies #[trigger] self.spec_current()[i] != 10 by {
                        if i < old_current.len() {
                            assert(old(self).spec_current()[i] != 10);
                            assert(self.spec_current()[i] == old_current[i]);
                        }
                    }
                    return HeadStep::NeedByte;
                }
                if self.current.len() == 2 {
                    self.current = Vec::new();
                    if !self.had_first_line {
                        HeadStep::NeedByte
                    } else {
                        HeadStep::HeadComplete
                    }
                } else {
                    let mut line: Vec<u8> = Vec::new();
                    std::mem::swap(&mut line, &mut self.current);
                    self.lines.push(line);
                    self.had_first_line = true;
                    assert(self.spec_lines() =~= old_lines.push(line@));
                    HeadStep::NeedByte
                }
            },
        }
    }
}

} // verus!
