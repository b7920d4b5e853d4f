//! How triggers are put into words for an operator.

use vstd::prelude::*;
use vstd::string::StringExecFns;
use crate::matching::chars_of;
use crate::config::{texts, Action, ConfigError, ConnectionInfo, ControlAction, ControlType,
    GlobalProperties, TransitionTrigger, TransitionTriggerSequence};

verus! {

/// The most opening brackets that a text may hold to be put into title
/// case. Each of them can cost a level of recursion in the outside crate.
/// In an unoptimised build 256 levels fit the two megabytes of stack that
/// a thread is started with and 512 do not, so that a level takes between
/// four and eight kilobytes; the limit keeps the call within half of such
/// a stack.
pub const BRACKET_LIMIT: usize = 128;

/// The longest text that is put into title case. The outside crate counts
/// the brackets of a word in a number of 32 bits, which a longer text
/// could carry beyond its range.
pub const TITLE_LENGTH_LIMIT: usize = 0x7fff_ffff;

/// The number of opening brackets in `s`.
pub open spec fn brackets(s: Seq<char>) -> nat
    decreases s.len(),
{
    if s.len() == 0 {
        0
    } else if s.last() == '(' {
        brackets(s.drop_last()) + 1
    } else {
        brackets(s.drop_last())
    }
}

/// What `titlecase::titlecase` makes of `input`.
pub uninterp spec fn titlecase_of(input: Seq<char>) -> Seq<char>;

/// What `str::to_lowercase` makes of `input`.
pub uninterp spec fn lowercase_of(input: Seq<char>) -> Seq<char>;

/// A text can be put into title case: it is within the two limits.
pub open spec fn fit_for_title(s: Seq<char>) -> bool {
    s.len() <= TITLE_LENGTH_LIMIT && brackets(s) <= BRACKET_LIMIT
}

/// `titlecase::titlecase`, which gives `input` in the title case of English
/// headlines. It calls itself for a word that begins with an opening
/// bracket, on what follows the bracket, and it balances the brackets of a
/// word in a number of 32 bits, which panics beyond its range; so the
/// number of opening brackets in `input` and its length are bounded here.
#[verifier::external_body]
fn title_case(input: &str) -> (out: String)
    requires
        fit_for_title(input@),
    ensures
        out@ == titlecase_of(input@),
{
    titlecase::titlecase(input)
}

/// `str::to_lowercase`, which gives `input` in lower case.
#[verifier::external_body]
fn lower_case(input: &str) -> (out: String)
    ensures
        out@ == lowercase_of(input@),
{
    input.to_lowercase()
}

/// `String::push`, which appends one character.
#[verifier::external_body]
pub(crate) fn push_char(s: &mut String, c: char)
    ensures
        final(s)@ == old(s)@.push(c),
{
    s.push(c)
}

/// The text made of the first `n` of `chars`.
pub(crate) fn text_of(chars: &Vec<char>, n: usize) -> (out: String)
    requires
        n <= chars@.len(),
    ensures
        out@ == chars@.take(n as int),
{
    let mut out = String::new();
    let mut k: usize = 0;
    while k < n
        invariant
            k <= n <= chars@.len(),
            out@ == chars@.take(k as int),
        decreases n - k,
    {
        push_char(&mut out, chars[k]);
        assert(out@ =~= chars@.take(k + 1));
        k += 1;
    }
    out
}

/// A longer text holds no fewer opening brackets.
proof fn lemma_brackets_grow(s: Seq<char>, n: int)
    requires
        0 <= n <= s.len(),
    ensures
        brackets(s.take(n)) <= brackets(s),
    decreases s.len() - n,
{
    if n < s.len() {
        lemma_brackets_grow(s, n + 1);
        assert(s.take(n + 1).drop_last() =~= s.take(n));
    } else {
        assert(s.take(n) =~= s);
    }
}

/// Spaces for underscores leave the opening brackets as they are.
proof fn lemma_brackets_spaced(s: Seq<char>)
    ensures
        brackets(spaced(s)) == brackets(s),
    decreases s.len(),
{
    if s.len() > 0 {
        lemma_brackets_spaced(s.drop_last());
        assert(spaced(s).drop_last() =~= spaced(s.drop_last()));
    }
}

/// Whether `s` can be put into title case.
pub fn is_fit_for_title(s: &str) -> (b: bool)
    ensures
        b == fit_for_title(s@),
{
    let chars = chars_of(s);
    if chars.len() > TITLE_LENGTH_LIMIT {
        return false;
    }
    let mut n: usize = 0;
    let mut k: usize = 0;
    while k < chars.len()
        invariant
            k <= chars@.len(),
            chars@ == s@,
            n == brackets(chars@.take(k as int)),
            n <= BRACKET_LIMIT,
        decreases chars.len() - k,
    {
        assert(chars@.take(k + 1).drop_last() =~= chars@.take(k as int));
        if chars[k] == '(' {
            n += 1;
            if n > BRACKET_LIMIT {
                proof {
                    lemma_brackets_grow(chars@, k + 1);
                }
                return false;
            }
        }
        k += 1;
    }
    assert(chars@.take(k as int) =~= chars@);
    true
}

/// The digit that stands for `d`, which is below ten.
pub open spec fn digit_of(d: nat) -> char {
    seq!['0', '1', '2', '3', '4', '5', '6', '7', '8', '9'][d as int]
}

/// `n` in decimal digits, without leading zeros.
pub open spec fn decimal(n: nat) -> Seq<char>
    decreases n,
{
    if n < 10 {
        seq![digit_of(n)]
    } else {
        decimal(n / 10).push(digit_of(n % 10))
    }
}

/// `s` with a space for each underscore.
pub open spec fn spaced(s: Seq<char>) -> Seq<char> {
    s.map_values(
        |c: char|
            if c == '_' {
                ' '
            } else {
                c
            },
    )
}

/// The first `n` of `parts` in a row, with `sep` between neighbours.
pub open spec fn joined(parts: Seq<Seq<char>>, sep: Seq<char>, n: int) -> Seq<char>
    decreases n,
{
    if n <= 0 {
        Seq::empty()
    } else if n == 1 {
        parts[0]
    } else {
        joined(parts, sep, n - 1) + sep + parts[n - 1]
    }
}

fn digit(d: u32) -> (c: char)
    requires
        d < 10,
    ensures
        c == digit_of(d as nat),
{
    match d {
        0 => '0',
        1 => '1',
        2 => '2',
        3 => '3',
        4 => '4',
        5 => '5',
        6 => '6',
        7 => '7',
        8 => '8',
        _ => '9',
    }
}

/// Appends `n` in decimal digits.
pub fn append_decimal(out: &mut String, n: u32)
    ensures
        final(out)@ == old(out)@ + decimal(n as nat),
    decreases n,
{
    if n >= 10 {
        append_decimal(out, n / 10);
    }
    push_char(out, digit(n % 10));
    assert(out@ =~= old(out)@ + decimal(n as nat));
}

/// `s` with a space for each underscore.
pub fn spaced_text(s: &str) -> (out: String)
    ensures
        out@ == spaced(s@),
{
    let mut out = String::new();
    for c in it: s.chars()
        invariant
            it.seq() == s@,
            out@ == spaced(s@.take(it.index() as int)),
    {
        let ghost before = out@;
        if c == '_' {
            push_char(&mut out, ' ');
        } else {
            push_char(&mut out, c);
        }
        assert(out@ =~= spaced(s@.take(it.index() + 1)));
    }
    assert(s@.take(s@.len() as int) =~= s@);
    out
}

/// `parts` in a row, with `sep` between neighbours.
pub fn join_texts(parts: &Vec<String>, sep: &str) -> (out: String)
    ensures
        out@ == joined(texts(parts@), sep@, parts@.len() as int),
{
    let mut out = String::new();
    let mut k: usize = 0;
    while k < parts.len()
        invariant
            k <= parts@.len(),
            out@ == joined(texts(parts@), sep@, k as int),
        decreases parts.len() - k,
    {
        if k > 0 {
            out.append(sep);
        }
        out.append(parts[k].as_str());
        assert(out@ =~= joined(texts(parts@), sep@, k + 1));
        k += 1;
    }
    out
}

impl ConnectionInfo {
    /// The name of the kind of connection.
    pub open spec fn text(&self) -> Seq<char> {
        match self {
            ConnectionInfo::Serial(_) => "Serial"@,
            ConnectionInfo::Usb(_) => "Usb"@,
            ConnectionInfo::Ssh(_) => "Ssh"@,
        }
    }

    /// The name of the kind of connection.
    pub fn to_string(&self) -> (out: String)
        ensures
            out@ == self.text(),
    {
        match self {
            ConnectionInfo::Serial(_) => String::from_str("Serial"),
            ConnectionInfo::Usb(_) => String::from_str("Usb"),
            ConnectionInfo::Ssh(_) => String::from_str("Ssh"),
        }
    }
}

impl ControlType {
    /// The name of the kind of control.
    pub open spec fn text(&self) -> Seq<char> {
        match self {
            ControlType::Button(_) => "Button"@,
            ControlType::Command(_) => "Command"@,
        }
    }

    /// The name of the kind of control.
    pub fn to_string(&self) -> (out: String)
        ensures
            out@ == self.text(),
    {
        match self {
            ControlType::Button(_) => String::from_str("Button"),
            ControlType::Command(_) => String::from_str("Command"),
        }
    }
}

impl Action {
    /// The name of what a button is wired to.
    pub open spec fn text(&self) -> Seq<char> {
        match self {
            Action::Dtr => "Dtr"@,
            Action::Rts => "Rts"@,
            Action::Command => "Command"@,
        }
    }

    /// The name of what a button is wired to.
    pub fn to_string(&self) -> (out: String)
        ensures
            out@ == self.text(),
    {
        match self {
            Action::Dtr => String::from_str("Dtr"),
            Action::Rts => String::from_str("Rts"),
            Action::Command => String::from_str("Command"),
        }
    }
}

impl GlobalProperties {
    /// The name of the setting.
    pub open spec fn text(&self) -> Seq<char> {
        match self {
            GlobalProperties::Baud(_) => "Baud"@,
        }
    }

    /// The name of the setting.
    pub fn to_string(&self) -> (out: String)
        ensures
            out@ == self.text(),
    {
        match self {
            GlobalProperties::Baud(_) => String::from_str("Baud"),
        }
    }
}

impl ConfigError {
    /// The error in words.
    pub open spec fn text(&self) -> Seq<char> {
        match self {
            ConfigError::UnknownState(name) => "State "@ + name@ + " not found"@,
            ConfigError::DuplicateState => "Duplicate state names found"@,
            ConfigError::DuplicateTransition => "Duplicate transition names found"@,
            ConfigError::UnknownConnection { control, connection } => "Control "@ + control@
                + " references non-existent connection "@ + connection@,
            ConfigError::MalformedPattern(value) => "Malformed pattern "@ + value@,
        }
    }

    /// The error in words.
    pub fn to_string(&self) -> (out: String)
        ensures
            out@ == self.text(),
    {
        match self {
            ConfigError::UnknownState(name) => {
                let mut out = String::from_str("State ");
                out.append(name.as_str());
                out.append(" not found");
                out
            },
            ConfigError::DuplicateState => String::from_str("Duplicate state names found"),
            ConfigError::DuplicateTransition => String::from_str(
                "Duplicate transition names found",
            ),
            ConfigError::UnknownConnection { control, connection } => {
                let mut out = String::from_str("Control ");
                out.append(control.as_str());
                out.append(" references non-existent connection ");
                out.append(connection.as_str());
                out
            },
            ConfigError::MalformedPattern(value) => {
                let mut out = String::from_str("Malformed pattern ");
                out.append(value.as_str());
                out
            },
        }
    }
}

impl ControlAction {
    /// The name of the action.
    pub open spec fn text(&self) -> Seq<char> {
        match self {
            ControlAction::Press => "Press"@,
            ControlAction::Release => "Release"@,
            ControlAction::Hold => "Hold"@,
        }
    }

    /// The name of the action.
    pub fn to_string(&self) -> (out: String)
        ensures
            out@ == self.text(),
    {
        match self {
            ControlAction::Press => String::from_str("Press"),
            ControlAction::Release => String::from_str("Release"),
            ControlAction::Hold => String::from_str("Hold"),
        }
    }
}

impl TransitionTriggerSequence {
    /// The line that tells an operator of the step: what to do to which
    /// control, the name of the control in title case with its underscores
    /// as spaces, and for how long where the step has a duration.
    pub open spec fn text(&self) -> Seq<char> {
        let head = "\t* "@ + self.action.text() + " "@ + titlecase_of(spaced(self.control@)) + " "@;
        match self.duration {
            Some(d) => head + "for "@ + decimal(d as nat) + "ms"@,
            None => head,
        }
    }

    /// The line that tells an operator of the step.
    pub fn to_string(&self) -> (out: String)
        requires
            fit_for_title(self.control@),
        ensures
            out@ == self.text(),
    {
        let mut out = String::from_str("\t* ");
        let action = self.action.to_string();
        out.append(action.as_str());
        out.append(" ");
        let name = spaced_text(self.control.as_str());
        proof {
            lemma_brackets_spaced(self.control@);
        }
        let title = title_case(name.as_str());
        out.append(title.as_str());
        out.append(" ");
        match self.duration {
            Some(d) => {
                out.append("for ");
                append_decimal(&mut out, d);
                out.append("ms");
            },
            None => {},
        }
        out
    }
}

/// One of the first `n` steps has a duration.
pub open spec fn timed(steps: Seq<TransitionTriggerSequence>, n: int) -> bool {
    exists|k: int| 0 <= k < n && (#[trigger] steps[k]).duration is Some
}

/// The lines of the first `n` steps, each ended by a line feed.
pub open spec fn step_lines(steps: Seq<TransitionTriggerSequence>, n: int) -> Seq<char>
    decreases n,
{
    if n <= 0 {
        Seq::empty()
    } else {
        step_lines(steps, n - 1) + steps[n - 1].text() + "\n"@
    }
}

impl TransitionTrigger {
    /// The name of every control of the trigger can be put into title
    /// case.
    pub open spec fn printable(&self) -> bool {
        forall|k: int|
            0 <= k < self.sequence@.len() ==> fit_for_title(
                (#[trigger] self.sequence@[k]).control@,
            )
    }

    /// Whether the name of every control of the trigger can be put into
    /// title case.
    pub fn is_printable(&self) -> (b: bool)
        ensures
            b == self.printable(),
    {
        let mut k: usize = 0;
        while k < self.sequence.len()
            invariant
                k <= self.sequence@.len(),
                forall|j: int|
                    0 <= j < k ==> fit_for_title((#[trigger] self.sequence@[j]).control@),
            decreases self.sequence.len() - k,
        {
            if !is_fit_for_title(self.sequence[k].control.as_str()) {
                return false;
            }
            k += 1;
        }
        true
    }

    /// What stands before the steps: the name, the description in lower
    /// case and the timeout, as far as the trigger has them.
    pub open spec fn heading(&self) -> Seq<char> {
        let named = match self.description {
            Some(d) => self.name@ + ": "@ + lowercase_of(d@),
            None => self.name@,
        };
        match self.timeout {
            Some(t) => named + "timeout: "@ + decimal(t as nat),
            None => named,
        }
    }

    /// The states that the trigger leaves, or `any state` where it names
    /// none.
    pub open spec fn origin(&self) -> Seq<char> {
        if self.from@.len() == 0 {
            "any state"@
        } else {
            joined(texts(self.from@), ", "@, self.from@.len() as int)
        }
    }

    /// What an operator is told of the trigger. A trigger without steps is
    /// its heading. One with steps goes on with the states it leaves and a
    /// line for each step; where no step has a duration, a last line says
    /// that the steps last until the device enters the target.
    pub open spec fn text(&self) -> Seq<char> {
        if self.sequence@.len() == 0 {
            self.heading()
        } else {
            let steps = self.heading() + " from "@ + self.origin() + "\n"@ + step_lines(
                self.sequence@,
                self.sequence@.len() as int,
            );
            if timed(self.sequence@, self.sequence@.len() as int) {
                steps
            } else {
                steps + "\t* Until device enters state "@ + self.to@ + "\n"@
            }
        }
    }

    /// What an operator is told of the trigger.
    pub fn to_string(&self) -> (out: String)
        requires
            self.printable(),
        ensures
            out@ == self.text(),
    {
        let mut out = self.name.clone();
        match &self.description {
            Some(d) => {
                out.append(": ");
                let lower = lower_case(d.as_str());
                out.append(lower.as_str());
            },
            None => {},
        }
        match self.timeout {
            Some(t) => {
                out.append("timeout: ");
                append_decimal(&mut out, t);
            },
            None => {},
        }
        assert(out@ == self.heading());
        if self.sequence.len() != 0 {
            out.append(" from ");
            if self.from.len() == 0 {
                out.append("any state");
            } else {
                let from = join_texts(&self.from, ", ");
                out.append(from.as_str());
            }
            out.append("\n");
            let ghost start = out@;
            let mut has_duration = false;
            let mut k: usize = 0;
            while k < self.sequence.len()
                invariant
                    k <= self.sequence@.len(),
                    self.printable(),
                    out@ == start + step_lines(self.sequence@, k as int),
                    has_duration == timed(self.sequence@, k as int),
                decreases self.sequence.len() - k,
            {
                let step = &self.sequence[k];
                if step.duration.is_some() {
                    has_duration = true;
                }
                let line = step.to_string();
                out.append(line.as_str());
                out.append("\n");
                assert(out@ =~= start + step_lines(self.sequence@, k + 1));
                k += 1;
            }
            if !has_duration {
                out.append("\t* Until device enters state ");
                out.append(self.to.as_str());
                out.append("\n");
            }
        }
        out
    }
}

} // verus!
