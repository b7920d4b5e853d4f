//! A serial connection as the supervisor sees it: what it was opened with,
//! and what to make of each attempt to read from it.

use vstd::prelude::*;
use crate::config::SerialConfig;
use crate::connections::ConnectionEvent;
use crate::matching::chars_of;
use crate::text::text_of;
use crate::{ConnectionEventData, Event};

verus! {

/// What can be asked of the control side of a serial port.
#[derive(Clone, Debug, PartialEq)]
pub enum SerialAction {
    /// Set the line "data terminal ready".
    Dtr(bool),
    /// Set the line "request to send".
    Rts(bool),
    /// Set the speed.
    Baud(u32),
}

/// How an attempt to read from a connection ended.
#[derive(Clone, Debug, PartialEq)]
pub enum ReadOutcome {
    /// A whole line came, given here without its end.
    Line(String),
    /// A chunk of bytes came.
    Bytes(Vec<u8>),
    /// Nothing came.
    Idle,
    /// The read failed.
    Failed,
}

/// What follows an attempt to read: the event to hand on, if there is one,
/// and whether to read once more before others get their turn.
#[derive(Clone, Debug)]
pub struct ReadStep {
    pub event: Option<Event>,
    pub again: bool,
}

/// Milliseconds that one turn of reading may last.
pub const READ_SLICE_MS: u64 = 100;

/// The place of the last slash in `path`, or -1 where it has none.
pub open spec fn last_slash(path: Seq<char>) -> int
    decreases path.len(),
{
    if path.len() == 0 {
        -1
    } else if path.last() == '/' {
        path.len() - 1
    } else {
        last_slash(path.drop_last())
    }
}

/// The directory that holds `path`, going by the text alone: what stands
/// before the last slash, or the root where that is the only slash. The
/// root has no such directory, nor has a path without a slash.
pub open spec fn parent_of(path: Seq<char>) -> Option<Seq<char>> {
    let cut = last_slash(path);
    if cut < 0 {
        None
    } else if cut > 0 {
        Some(path.take(cut))
    } else if path.len() > 1 {
        Some(seq!['/'])
    } else {
        None
    }
}

/// The directories above `path`, the nearest first. Each is shorter than
/// what it holds, which is why there is an end to them.
pub open spec fn ancestors(path: Seq<char>) -> Seq<Seq<char>>
    decreases path.len(),
{
    match parent_of(path) {
        Some(dir) => if dir.len() < path.len() {
            seq![dir] + ancestors(dir)
        } else {
            Seq::empty()
        },
        None => Seq::empty(),
    }
}

proof fn lemma_last_slash(path: Seq<char>)
    ensures
        -1 <= last_slash(path) < path.len(),
        last_slash(path) >= 0 ==> path[last_slash(path)] == '/',
    decreases path.len(),
{
    if path.len() > 0 && path.last() != '/' {
        lemma_last_slash(path.drop_last());
    }
}

/// The place of the last slash among the first `n` of `chars`.
fn find_last_slash(chars: &Vec<char>, n: usize) -> (r: Option<usize>)
    requires
        n <= chars@.len(),
    ensures
        match r {
            Some(i) => last_slash(chars@.take(n as int)) == i,
            None => last_slash(chars@.take(n as int)) == -1,
        },
{
    let mut k: usize = n;
    while k > 0
        invariant
            k <= n <= chars@.len(),
            last_slash(chars@.take(n as int)) == last_slash(chars@.take(k as int)),
        decreases k,
    {
        k -= 1;
        assert(chars@.take(k + 1).drop_last() =~= chars@.take(k as int));
        if chars[k] == '/' {
            return Some(k);
        }
    }
    None
}

/// The directories above `path`, the nearest first. A watch for a device
/// file that may not be there yet is set on the first of them that is
/// there.
pub fn watch_dirs(path: &str) -> (dirs: Vec<String>)
    ensures
        dirs@.map_values(|d: String| d@) == ancestors(path@),
{
    let chars = chars_of(path);
    let mut dirs: Vec<String> = Vec::new();
    let mut n: usize = chars.len();
    assert(chars@.take(n as int) =~= path@);
    loop
        invariant
            n <= chars@.len(),
            dirs@.map_values(|d: String| d@) + ancestors(chars@.take(n as int)) == ancestors(
                path@,
            ),
        decreases n,
    {
        let ghost here = chars@.take(n as int);
        let ghost had = dirs@.map_values(|d: String| d@);
        proof {
            lemma_last_slash(here);
        }
        match find_last_slash(&chars, n) {
            None => {
                assert(had + ancestors(here) =~= had);
                return dirs;
            },
            Some(cut) => {
                if cut > 0 {
                    dirs.push(text_of(&chars, cut));
                    assert(here.take(cut as int) =~= chars@.take(cut as int));
                    assert(dirs@.map_values(|d: String| d@) + ancestors(chars@.take(cut as int))
                        =~= had + ancestors(here));
                    n = cut;
                } else if n > 1 {
                    dirs.push(text_of(&chars, 1));
                    let ghost root = chars@.take(1);
                    assert(root =~= seq!['/']);
                    assert(last_slash(root) == 0);
                    assert(ancestors(root) =~= Seq::<Seq<char>>::empty());
                    assert(dirs@.map_values(|d: String| d@) =~= had + ancestors(here));
                    return dirs;
                } else {
                    assert(had + ancestors(here) =~= had);
                    return dirs;
                }
            },
        }
    }
}

/// A serial connection. The side that reads and the side that controls
/// open the device each for itself, so what they were opened with is kept
/// here for both: the path and the speed.
pub struct Serial {
    info: SerialConfig,
}

impl View for Serial {
    type V = SerialConfig;

    closed spec fn view(&self) -> SerialConfig {
        self.info
    }
}

impl Serial {
    /// The connection that `info` describes.
    pub fn new(info: SerialConfig) -> (s: Serial)
        ensures
            s@ == info,
    {
        Serial { info }
    }

    /// The label of the connection.
    pub fn name(&self) -> (label: &str)
        ensures
            label@ == self@.label@,
    {
        self.info.label.as_str()
    }

    /// The device file of the connection.
    pub fn path(&self) -> (path: &str)
        ensures
            path@ == self@.path@,
    {
        self.info.path.as_str()
    }

    /// The speed at which the device is to be opened.
    pub fn baud(&self) -> (baud: u32)
        ensures
            baud == self@.baud,
    {
        self.info.baud
    }

    /// The directories above the device file, the nearest first.
    pub fn watch_dirs(&self) -> (dirs: Vec<String>)
        ensures
            dirs@.map_values(|d: String| d@) == ancestors(self@.path@),
    {
        watch_dirs(self.info.path.as_str())
    }

    /// Whether the device is read line by line rather than in chunks of
    /// bytes.
    pub fn lines(&self) -> (lines: bool)
        ensures
            lines == self@.lines,
    {
        self.info.lines
    }

    /// Takes note of an action that the control side has carried out: a
    /// new speed is the speed of the connection from now on. Nothing else
    /// changes.
    pub fn applied(&mut self, action: &SerialAction)
        ensures
            !(*action is Baud) ==> *final(self) == *old(self),
            final(self)@.label == old(self)@.label,
            final(self)@.getty == old(self)@.getty,
            final(self)@.path == old(self)@.path,
            final(self)@.lines == old(self)@.lines,
            final(self)@.baud == match *action {
                SerialAction::Baud(rate) => rate,
                _ => old(self)@.baud,
            },
    {
        match action {
            SerialAction::Baud(rate) => {
                self.info.baud = *rate;
            },
            _ => {},
        }
    }

    /// Decides what follows an attempt to read, `elapsed_ms` milliseconds
    /// into the turn. What came is handed on as an event under the label
    /// of the connection. Reading goes on while the turn has time left, so
    /// that a burst is drained but the control side is not kept waiting;
    /// a failed read ends the turn without an event.
    pub fn read(&self, outcome: ReadOutcome, elapsed_ms: u64) -> (step: ReadStep)
        ensures
            step.again == (outcome != ReadOutcome::Failed && elapsed_ms < READ_SLICE_MS),
            match outcome {
                ReadOutcome::Line(line) => step.event matches Some(
                    Event::ConnectionEvent(data),
                ) && data.device@ == self@.label@ && data.event == ConnectionEvent::NewLine(line),
                ReadOutcome::Bytes(bytes) => step.event matches Some(
                    Event::ConnectionEvent(data),
                ) && data.device@ == self@.label@ && data.event == ConnectionEvent::Bytes(bytes),
                ReadOutcome::Idle => step.event is None,
                ReadOutcome::Failed => step.event is None,
            },
    {
        let within = elapsed_ms < READ_SLICE_MS;
        match outcome {
            ReadOutcome::Line(line) => ReadStep {
                event: Some(
                    Event::ConnectionEvent(
                        ConnectionEventData {
                            device: self.info.label.clone(),
                            event: ConnectionEvent::NewLine(line),
                        },
                    ),
                ),
                again: within,
            },
            ReadOutcome::Bytes(bytes) => ReadStep {
                event: Some(
                    Event::ConnectionEvent(
                        ConnectionEventData {
                            device: self.info.label.clone(),
                            event: ConnectionEvent::Bytes(bytes),
                        },
                    ),
                ),
                again: within,
            },
            ReadOutcome::Idle => ReadStep { event: None, again: within },
            ReadOutcome::Failed => ReadStep { event: None, again: false },
        }
    }
}

} // verus!
