//! The line-framed notification protocol of the `aw-notify` module.
//!
//! That module is spawned with `--output-only` prepended to its arguments
//! and its stdout is read line by line. A line of exactly fifty dashes
//! toggles the notification frame; the non-blank lines inside a frame
//! accumulate, and the closing delimiter joins them with newlines into one
//! OS notification titled `ActivityWatch`. Anything outside a frame is
//! ignored.

use vstd::prelude::*;
use vstd::string::StrSliceExecFns;
use vstd::string::StringExecFns;
use crate::text::contains_seq;
use crate::text::contains_str;
use crate::text::is_blank;
use crate::text::is_blank_seq;
use crate::text::join_lines;
use crate::text::join_nl;

verus! {

/// A line of `n` dashes.
pub open spec fn dash_line(n: nat) -> Seq<char> {
    Seq::new(n, |i: int| '-')
}

/// A frame delimiter: exactly fifty dashes, nothing else.
pub open spec fn is_delimiter_seq(s: Seq<char>) -> bool {
    s.len() == 50 && (forall|i: int| 0 <= i < s.len() ==> s[i] == '-')
}

/// Only the line of exactly fifty dashes delimits a frame; forty-nine or
/// fifty-one do not.
pub proof fn lemma_delimiter_exact(n: nat)
    ensures
        is_delimiter_seq(dash_line(n)) <==> n == 50,
{
}

/// Whether a line is a frame delimiter.
pub fn is_delimiter_line(s: &str) -> (r: bool)
    ensures
        r == is_delimiter_seq(s@),
{
    let len = s.unicode_len();
    if len != 50 {
        return false;
    }
    let mut i: usize = 0;
    while i < len
        invariant
            len == s@.len(),
            len == 50,
            0 <= i <= len,
            forall|j: int| 0 <= j < i ==> s@[j] == '-',
        decreases len - i,
    {
        if s.get_char(i) != '-' {
            return false;
        }
        i += 1;
    }
    true
}

/// One OS notification to dispatch.
pub struct Notification {
    pub title: String,
    pub body: String,
}

/// The mathematical value of a [`Notification`].
pub struct NotificationV {
    pub title: Seq<char>,
    pub body: Seq<char>,
}

impl View for Notification {
    type V = NotificationV;

    open spec fn view(&self) -> NotificationV {
        NotificationV { title: self.title@, body: self.body@ }
    }
}

/// The reader state over the module's stdout: whether a frame is open, and
/// the lines collected inside it.
pub struct NotifyParser {
    pub in_notification: bool,
    pub buffer: Vec<String>,
}

/// The mathematical value of a [`NotifyParser`].
pub struct NotifyParserV {
    pub in_notification: bool,
    pub buffer: Seq<Seq<char>>,
}

impl View for NotifyParser {
    type V = NotifyParserV;

    open spec fn view(&self) -> NotifyParserV {
        NotifyParserV { in_notification: self.in_notification, buffer: self.buffer.deep_view() }
    }
}

/// The parser state after one line.
pub open spec fn feed_next(p: NotifyParserV, line: Seq<char>) -> NotifyParserV {
    if is_delimiter_seq(line) {
        if p.in_notification {
            NotifyParserV { in_notification: false, buffer: Seq::empty() }
        } else {
            NotifyParserV { in_notification: true, ..p }
        }
    } else if p.in_notification && !is_blank_seq(line) {
        NotifyParserV { buffer: p.buffer.push(line), ..p }
    } else {
        p
    }
}

/// A line dispatches a notification exactly when it closes a non-empty
/// frame.
pub open spec fn feed_emits(p: NotifyParserV, line: Seq<char>) -> bool {
    is_delimiter_seq(line) && p.in_notification && p.buffer.len() > 0
}

impl NotifyParser {
    /// A fresh reader state: no frame open, nothing collected.
    pub fn new() -> (r: NotifyParser)
        ensures
            !r@.in_notification,
            r@.buffer == Seq::<Seq<char>>::empty(),
    {
        let r = NotifyParser { in_notification: false, buffer: Vec::new() };
        proof {
            assert(r@.buffer =~= Seq::<Seq<char>>::empty());
        }
        r
    }

    /// Consumes one line of the module's output. A delimiter toggles the
    /// frame and, when it closes a frame with content, yields the collected
    /// lines joined with newlines, titled `ActivityWatch`; a non-blank line
    /// inside a frame is collected; blank lines and everything outside a
    /// frame are dropped.
    pub fn feed_line(&mut self, line: &str) -> (r: Option<Notification>)
        ensures
            final(self)@ == feed_next(old(self)@, line@),
            (r is Some) == feed_emits(old(self)@, line@),
            r matches Some(n) ==> {
                &&& n.title@ == "ActivityWatch"@
                &&& n.body@ == join_nl(old(self)@.buffer)
            },
    {
        if is_delimiter_line(line) {
            if self.in_notification {
                self.in_notification = false;
                let emitted = if self.buffer.len() > 0 {
                    let body = join_lines(&self.buffer);
                    Some(Notification { title: String::from_str("ActivityWatch"), body })
                } else {
                    None
                };
                self.buffer = Vec::new();
                proof {
                    assert(self@.buffer =~= Seq::<Seq<char>>::empty());
                    assert(old(self)@.buffer.len() == 0 ==> !feed_emits(old(self)@, line@));
                }
                emitted
            } else {
                self.in_notification = true;
                None
            }
        } else if self.in_notification && !is_blank(line) {
            self.buffer.push(String::from_str(line));
            proof {
                assert(self@.buffer =~= old(self)@.buffer.push(line@));
            }
            None
        } else {
            None
        }
    }
}

/// The arguments `aw-notify` is spawned with: `--output-only` first, then
/// `--port <port>` when the port is not the default, then any configured
/// arguments.
pub open spec fn notify_args_spec(custom: Option<Seq<Seq<char>>>, port: u16) -> Seq<Seq<char>> {
    seq!["--output-only"@] + (if port != crate::DEFAULT_PORT {
        seq!["--port"@, crate::text::dec_str(port as nat)]
    } else {
        Seq::empty()
    }) + (match custom {
        Some(a) => a,
        None => Seq::empty(),
    })
}

/// Computes the spawn arguments for the `aw-notify` module.
pub fn notify_spawn_args(custom: Option<&Vec<String>>, port: u16) -> (r: Vec<String>)
    ensures
        r.deep_view() == notify_args_spec(
            match custom {
                Some(v) => Some(v.deep_view()),
                None => None,
            },
            port,
        ),
{
    let mut out: Vec<String> = Vec::new();
    out.push(String::from_str("--output-only"));
    if port != crate::DEFAULT_PORT {
        out.push(String::from_str("--port"));
        out.push(crate::text::u16_to_string(port));
    }
    if let Some(v) = custom {
        let mut i: usize = 0;
        let ghost base = out.deep_view();
        while i < v.len()
            invariant
                0 <= i <= v.len(),
                out.deep_view() == base + v.deep_view().take(i as int),
            decreases v.len() - i,
        {
            let ghost pre = out.deep_view();
            let c = v[i].clone();
            assert(c@ == v@[i as int]@);
            out.push(c);
            proof {
                assert(out.deep_view() =~= pre.push(v.deep_view()[i as int]));
                assert(out.deep_view() =~= base + v.deep_view().take(i + 1));
            }
            i += 1;
        }
        proof {
            assert(v.deep_view().take(v@.len() as int) =~= v.deep_view());
        }
    }
    proof {
        assert(out.deep_view() =~= notify_args_spec(
            match custom {
                Some(v) => Some(v.deep_view()),
                None => None,
            },
            port,
        ));
    }
    out
}

/// Whether a spawn error means the child rejected `--output-only`, in which
/// case the supervisor falls back to the generic spawn path.
pub fn is_output_only_rejection(err: &str) -> (r: bool)
    ensures
        r == contains_seq(err@, "No such option: --output-only"@),
{
    contains_str(err, "No such option: --output-only")
}

} // verus!
