//! The supervisor of the connections to a device: which handles it holds,
//! how they are found, and what it does about what it is told.

use vstd::prelude::*;
use vstd::string::StringExecFns;
use crate::config::{ConnectionInfo, GlobalProperties, Property, SerialConfig, SshConnection,
    UsbConnection};
use crate::connections::serial::Serial;

pub mod serial;

pub use serial::SerialAction;

verus! {

/// Why a connection could not be set up.
#[derive(Debug, Clone, PartialEq)]
pub enum ConnectionError {
    /// The device file never appeared.
    NoSuchDevice,
    /// The device could not be opened.
    OpenFailed,
    /// The system reported something else.
    Other(String),
}

/// What a connection delivers.
#[derive(Clone, Debug, PartialEq)]
pub enum ConnectionEvent {
    NewLine(String),
    Bytes(Vec<u8>),
}

/// The kinds of connection.
#[derive(PartialEq, Eq, Clone, Debug)]
pub enum ConnectionType {
    Serial,
    Ssh,
    Usb,
}

/// A handle on a connection.
pub enum Connectable {
    Serial(Serial),
    Ssh,
    Usb,
}

/// What happened to a path in a directory that is watched.
#[derive(PartialEq, Eq, Clone, Debug)]
pub enum PathChange {
    Created,
    Removed,
    Modified,
}

/// What the supervisor is told.
#[derive(Clone, Debug, PartialEq)]
pub enum Notice {
    /// A state was entered that declares these properties.
    Properties(Vec<Property>),
    /// The control side of the handle `connection` has carried out
    /// `action`.
    Applied { connection: usize, action: SerialAction },
    /// Something happened to `path`.
    Path { change: PathChange, path: String },
}

/// What the supervisor wants done.
#[derive(Clone, Debug, PartialEq)]
pub enum Command {
    /// Ask `action` of the control side of the handle `connection`.
    Control { connection: usize, action: SerialAction },
    /// Open the reading side of the handle `connection` anew, at the speed
    /// `baud`.
    Reopen { connection: usize, baud: u32 },
}

impl ConnectionError {
    /// The error in words.
    pub open spec fn text(&self) -> Seq<char> {
        match self {
            ConnectionError::NoSuchDevice => "No such device"@,
            ConnectionError::OpenFailed => "Failed to open device"@,
            ConnectionError::Other(message) => "Other error: "@ + message@,
        }
    }

    /// The error in words.
    pub fn to_string(&self) -> (out: String)
        ensures
            out@ == self.text(),
    {
        match self {
            ConnectionError::NoSuchDevice => String::from_str("No such device"),
            ConnectionError::OpenFailed => String::from_str("Failed to open device"),
            ConnectionError::Other(message) => {
                let mut out = String::from_str("Other error: ");
                out.append(message.as_str());
                out
            },
        }
    }
}

/// The handles that the supervisor holds, and the description of the
/// connections as it was when the supervisor was made. Only serial
/// connections have a handle.
pub struct Connections {
    connections: Vec<Connectable>,
    c_info: Vec<ConnectionInfo>,
}

impl View for Connections {
    type V = Seq<Connectable>;

    closed spec fn view(&self) -> Seq<Connectable> {
        self.connections@
    }
}

/// The kind of a handle.
pub open spec fn kind_of(c: Connectable) -> ConnectionType {
    match c {
        Connectable::Serial(_) => ConnectionType::Serial,
        Connectable::Ssh => ConnectionType::Ssh,
        Connectable::Usb => ConnectionType::Usb,
    }
}

/// The handle is a serial one that was opened with `info`.
pub open spec fn opened_with(c: Connectable, info: SerialConfig) -> bool {
    c matches Connectable::Serial(s) && s@ == info
}

/// The handle is a serial one with the label `label`.
pub open spec fn labelled(c: Connectable, label: Seq<char>) -> bool {
    c matches Connectable::Serial(s) && s@.label@ == label
}

/// The handle is a serial one on the device file `path`.
pub open spec fn on_path(c: Connectable, path: Seq<char>) -> bool {
    c matches Connectable::Serial(s) && s@.path@ == path
}

/// The handle at `i` is the first of the kind `kind`.
pub open spec fn first_of_kind(handles: Seq<Connectable>, kind: ConnectionType, i: int) -> bool {
    &&& 0 <= i < handles.len()
    &&& kind_of(handles[i]) == kind
    &&& forall|k: int| 0 <= k < i ==> kind_of(#[trigger] handles[k]) != kind
}

/// No handle is of the kind `kind`.
pub open spec fn none_of_kind(handles: Seq<Connectable>, kind: ConnectionType) -> bool {
    forall|k: int| 0 <= k < handles.len() ==> kind_of(#[trigger] handles[k]) != kind
}

/// The handle at `i` is the first with the label `label`.
pub open spec fn first_labelled(handles: Seq<Connectable>, label: Seq<char>, i: int) -> bool {
    &&& 0 <= i < handles.len()
    &&& labelled(handles[i], label)
    &&& forall|k: int| 0 <= k < i ==> !labelled(#[trigger] handles[k], label)
}

/// The serial connections among the first `n` of `infos`, in order.
pub open spec fn serial_infos(infos: Seq<ConnectionInfo>, n: int) -> Seq<SerialConfig>
    decreases n,
{
    if n <= 0 {
        Seq::empty()
    } else {
        match infos[n - 1] {
            ConnectionInfo::Serial(s) => serial_infos(infos, n - 1).push(s),
            _ => serial_infos(infos, n - 1),
        }
    }
}

/// The action that brings a property about.
pub open spec fn action_for(p: Property) -> SerialAction {
    match p.name {
        GlobalProperties::Baud(rate) => SerialAction::Baud(rate),
    }
}

/// What is asked of the handle `c` when a state with the properties
/// `props` is entered: one action for each property, in order.
pub open spec fn control_commands(c: int, props: Seq<Property>) -> Seq<Command> {
    Seq::new(
        props.len(),
        |k: int| Command::Control { connection: c as usize, action: action_for(props[k]) },
    )
}

/// What is done when the device file `path` has been made: each of the
/// first `n` handles that is on this file is opened anew, at its speed.
pub open spec fn reopen_commands(handles: Seq<Connectable>, path: Seq<char>, n: int) -> Seq<
    Command,
>
    decreases n,
{
    if n <= 0 {
        Seq::empty()
    } else {
        match handles[n - 1] {
            Connectable::Serial(s) if s@.path@ == path => reopen_commands(handles, path, n - 1).push(
                Command::Reopen { connection: (n - 1) as usize, baud: s@.baud },
            ),
            _ => reopen_commands(handles, path, n - 1),
        }
    }
}

/// What is asked of the handle `c` before anything is read: both lines are
/// lowered, "data terminal ready" first.
pub open spec fn lowering_commands(c: int) -> Seq<Command> {
    seq![
        Command::Control { connection: c as usize, action: SerialAction::Dtr(false) },
        Command::Control { connection: c as usize, action: SerialAction::Rts(false) },
    ]
}

/// What the supervisor wants done at the start while it holds `handles`:
/// the lines of the first serial handle are lowered, and nothing is done
/// where there is none.
pub open spec fn startup_commands(handles: Seq<Connectable>) -> Seq<Command> {
    if exists|i: int| first_of_kind(handles, ConnectionType::Serial, i) {
        lowering_commands(choose|i: int| first_of_kind(handles, ConnectionType::Serial, i))
    } else {
        Seq::empty()
    }
}

/// At most one handle is the first of a kind.
pub proof fn lemma_one_first(handles: Seq<Connectable>, kind: ConnectionType, i: int, j: int)
    requires
        first_of_kind(handles, kind, i),
        first_of_kind(handles, kind, j),
    ensures
        i == j,
{
    if i < j {
        assert(kind_of(handles[i]) != kind);
    } else if j < i {
        assert(kind_of(handles[j]) != kind);
    }
}

/// Each command that opens anew names a handle on the path, by its place,
/// and the speed of that handle.
pub proof fn lemma_reopen_places(handles: Seq<Connectable>, path: Seq<char>, n: int, k: int)
    requires
        0 <= n <= handles.len() <= usize::MAX,
        0 <= k < reopen_commands(handles, path, n).len(),
    ensures
        reopen_commands(handles, path, n)[k] matches Command::Reopen { connection, baud }
            && connection < n && on_path(handles[connection as int], path) && (
        handles[connection as int] matches Connectable::Serial(s) && baud == s@.baud),
    decreases n,
{
    if n > 0 {
        let before = reopen_commands(handles, path, n - 1);
        if k < before.len() {
            lemma_reopen_places(handles, path, n - 1, k);
        }
    }
}

/// Every handle on the path is opened anew, once.
pub proof fn lemma_reopen_complete(handles: Seq<Connectable>, path: Seq<char>, n: int, i: int)
    requires
        0 <= i < n <= handles.len() <= usize::MAX,
        on_path(handles[i], path),
    ensures
        exists|k: int|
            0 <= k < reopen_commands(handles, path, n).len() && (#[trigger] reopen_commands(
                handles,
                path,
                n,
            )[k] matches Command::Reopen { connection, .. } && connection == i),
    decreases n,
{
    let now = reopen_commands(handles, path, n);
    if i < n - 1 {
        lemma_reopen_complete(handles, path, n - 1, i);
        let before = reopen_commands(handles, path, n - 1);
        let k = choose|k: int|
            0 <= k < before.len() && (#[trigger] before[k] matches Command::Reopen {
                connection,
                ..
            } && connection == i);
        assert(now[k] == before[k]);
    } else {
        let k = now.len() - 1;
        assert(now[k] matches Command::Reopen { connection, .. } && connection == i);
    }
}

/// What the supervisor wants done about `notice` while it holds `handles`.
/// Properties are asked of the first serial handle, and of nobody where
/// there is none. A path that was made is opened anew by the handles on
/// it. Nothing else asks for anything.
pub open spec fn commands_for(handles: Seq<Connectable>, notice: Notice) -> Seq<Command> {
    match notice {
        Notice::Properties(props) => {
            if exists|i: int| first_of_kind(handles, ConnectionType::Serial, i) {
                control_commands(
                    choose|i: int| first_of_kind(handles, ConnectionType::Serial, i),
                    props@,
                )
            } else {
                Seq::empty()
            }
        },
        Notice::Path { change: PathChange::Created, path } => reopen_commands(
            handles,
            path@,
            handles.len() as int,
        ),
        _ => Seq::empty(),
    }
}

/// What becomes of the handle at `i` when the supervisor is told `notice`:
/// a serial handle whose control side has set a speed has that speed, and
/// nothing else changes.
pub open spec fn handle_after(before: Connectable, i: int, notice: Notice, after: Connectable) -> bool {
    match (notice, before) {
        (
            Notice::Applied { connection, action: SerialAction::Baud(rate) },
            Connectable::Serial(s),
        ) if connection == i => {
            &&& after matches Connectable::Serial(t)
            &&& t@.label == s@.label
            &&& t@.getty == s@.getty
            &&& t@.path == s@.path
            &&& t@.lines == s@.lines
            &&& t@.baud == rate
        },
        _ => after == before,
    }
}

/// One of `paths` is `path`.
pub open spec fn lists(paths: Seq<String>, path: Seq<char>) -> bool {
    exists|i: int| 0 <= i < paths.len() && (#[trigger] paths[i])@ == path
}

/// A notice of the change `change` for each of the first `n` of `paths`
/// that `others` does not list, in order.
pub open spec fn notices_of(
    paths: Seq<String>,
    others: Seq<String>,
    change: PathChange,
    n: int,
) -> Seq<Notice>
    decreases n,
{
    if n <= 0 {
        Seq::empty()
    } else if lists(others, paths[n - 1]@) {
        notices_of(paths, others, change, n - 1)
    } else {
        notices_of(paths, others, change, n - 1).push(Notice::Path { change, path: paths[n - 1] })
    }
}

/// What has happened in a directory that held `before` and now holds
/// `now`: what is new was made, and what is gone was removed.
pub open spec fn changes_between(before: Seq<String>, now: Seq<String>) -> Seq<Notice> {
    notices_of(now, before, PathChange::Created, now.len() as int) + notices_of(
        before,
        now,
        PathChange::Removed,
        before.len() as int,
    )
}

fn is_listed(paths: &Vec<String>, path: &String) -> (b: bool)
    ensures
        b == lists(paths@, path@),
{
    let mut i: usize = 0;
    while i < paths.len()
        invariant
            i <= paths@.len(),
            forall|k: int| 0 <= k < i ==> (#[trigger] paths@[k])@ != path@,
        decreases paths.len() - i,
    {
        if paths[i] == *path {
            return true;
        }
        i += 1;
    }
    false
}

/// Tells what has happened in a directory that held the paths `before`
/// and now holds the paths `now`: first what was made, then what was
/// removed, each in the order of its listing.
pub fn path_changes(before: &Vec<String>, now: &Vec<String>) -> (out: Vec<Notice>)
    ensures
        out@ == changes_between(before@, now@),
{
    let mut out: Vec<Notice> = Vec::new();
    let mut i: usize = 0;
    while i < now.len()
        invariant
            i <= now@.len(),
            out@ == notices_of(now@, before@, PathChange::Created, i as int),
        decreases now.len() - i,
    {
        if !is_listed(before, &now[i]) {
            out.push(Notice::Path { change: PathChange::Created, path: now[i].clone() });
        }
        i += 1;
    }
    let ghost made = out@;
    let mut i: usize = 0;
    while i < before.len()
        invariant
            i <= before@.len(),
            out@ == made + notices_of(before@, now@, PathChange::Removed, i as int),
        decreases before.len() - i,
    {
        if !is_listed(now, &before[i]) {
            let ghost had = out@;
            out.push(Notice::Path { change: PathChange::Removed, path: before[i].clone() });
            assert(out@ =~= made + notices_of(before@, now@, PathChange::Removed, i + 1));
        }
        i += 1;
    }
    out
}

fn copy_serial(s: &SerialConfig) -> (out: SerialConfig)
    ensures
        out == *s,
{
    SerialConfig {
        label: s.label.clone(),
        getty: s.getty,
        path: s.path.clone(),
        baud: s.baud,
        lines: s.lines,
    }
}

fn copy_info(info: &ConnectionInfo) -> (out: ConnectionInfo)
    ensures
        out == *info,
{
    match info {
        ConnectionInfo::Serial(s) => ConnectionInfo::Serial(copy_serial(s)),
        ConnectionInfo::Usb(u) => ConnectionInfo::Usb(
            UsbConnection { label: u.label.clone(), port: u.port.clone() },
        ),
        ConnectionInfo::Ssh(s) => ConnectionInfo::Ssh(
            SshConnection { label: s.label.clone(), host: s.host.clone(), port: s.port },
        ),
    }
}

/// Those of the first `n` of `infos` whose opening had no error, in order.
pub open spec fn opened_infos(
    infos: Seq<SerialConfig>,
    outcomes: Seq<Option<ConnectionError>>,
    n: int,
) -> Seq<SerialConfig>
    decreases n,
{
    if n <= 0 {
        Seq::empty()
    } else if outcomes[n - 1] is None {
        opened_infos(infos, outcomes, n - 1).push(infos[n - 1])
    } else {
        opened_infos(infos, outcomes, n - 1)
    }
}

/// The errors among the first `n` of `outcomes`, each with its place, in
/// order.
pub open spec fn open_failures(outcomes: Seq<Option<ConnectionError>>, n: int) -> Seq<
    (usize, ConnectionError),
>
    decreases n,
{
    if n <= 0 {
        Seq::empty()
    } else {
        match outcomes[n - 1] {
            Some(e) => open_failures(outcomes, n - 1).push(((n - 1) as usize, e)),
            None => open_failures(outcomes, n - 1),
        }
    }
}

/// The serial connections among the first `k` are the first of those among
/// the first `n`.
proof fn lemma_serial_prefix(infos: Seq<ConnectionInfo>, k: int, n: int)
    requires
        0 <= k <= n <= infos.len(),
    ensures
        serial_infos(infos, k).len() <= serial_infos(infos, n).len(),
        forall|j: int|
            0 <= j < serial_infos(infos, k).len() ==> #[trigger] serial_infos(infos, n)[j]
                == serial_infos(infos, k)[j],
    decreases n - k,
{
    if k < n {
        lemma_serial_prefix(infos, k, n - 1);
    }
}

fn copy_error(e: &ConnectionError) -> (out: ConnectionError)
    ensures
        out == *e,
{
    match e {
        ConnectionError::NoSuchDevice => ConnectionError::NoSuchDevice,
        ConnectionError::OpenFailed => ConnectionError::OpenFailed,
        ConnectionError::Other(message) => ConnectionError::Other(message.clone()),
    }
}

impl Connections {
    /// The places of the handles are machine words.
    pub proof fn lemma_places(self)
        ensures
            self@.len() <= usize::MAX,
    {
        assert(self.connections@.len() == self.connections.len());
    }

    /// The description of the connections that the supervisor was made
    /// with.
    pub closed spec fn infos(&self) -> Seq<ConnectionInfo> {
        self.c_info@
    }

    /// The supervisor of the connections `c_info`: it holds a handle for
    /// each serial connection, in the order of the description, and none
    /// for the others.
    pub fn new(c_info: &Vec<ConnectionInfo>) -> (c: Connections)
        ensures
            c.infos() == c_info@,
            c@.len() <= usize::MAX,
            c@.len() == serial_infos(c_info@, c_info@.len() as int).len(),
            forall|i: int|
                0 <= i < c@.len() ==> opened_with(
                    #[trigger] c@[i],
                    serial_infos(c_info@, c_info@.len() as int)[i],
                ),
    {
        let mut connections: Vec<Connectable> = Vec::new();
        let mut copy: Vec<ConnectionInfo> = Vec::new();
        let mut k: usize = 0;
        while k < c_info.len()
            invariant
                k <= c_info@.len(),
                copy@ == c_info@.take(k as int),
                connections@.len() == serial_infos(c_info@, k as int).len(),
                forall|i: int|
                    0 <= i < connections@.len() ==> opened_with(
                        #[trigger] connections@[i],
                        serial_infos(c_info@, k as int)[i],
                    ),
            decreases c_info.len() - k,
        {
            match &c_info[k] {
                ConnectionInfo::Serial(info) => {
                    connections.push(Connectable::Serial(Serial::new(copy_serial(info))));
                },
                ConnectionInfo::Ssh(_) => {},
                ConnectionInfo::Usb(_) => {},
            }
            copy.push(copy_info(&c_info[k]));
            k += 1;
        }
        assert(c_info@.take(k as int) =~= c_info@);
        assert(connections@.len() == connections.len());
        Connections { connections, c_info: copy }
    }

    /// The supervisor of the connections `c_info` once their devices have
    /// been opened, with `outcomes` holding for each serial connection, in
    /// the order of the description, the error of its opening if there was
    /// one. A connection that could not be opened gets no handle, and does
    /// not stand in the way of the others; its error is handed back with
    /// its place among the serial connections.
    pub fn opened(c_info: &Vec<ConnectionInfo>, outcomes: &Vec<Option<ConnectionError>>) -> (r: (
        Connections,
        Vec<(usize, ConnectionError)>,
    ))
        requires
            outcomes@.len() == serial_infos(c_info@, c_info@.len() as int).len(),
        ensures
            r.0.infos() == c_info@,
            r.0@.len() <= usize::MAX,
            r.0@.len() == opened_infos(
                serial_infos(c_info@, c_info@.len() as int),
                outcomes@,
                outcomes@.len() as int,
            ).len(),
            forall|i: int|
                0 <= i < r.0@.len() ==> opened_with(
                    #[trigger] r.0@[i],
                    opened_infos(
                        serial_infos(c_info@, c_info@.len() as int),
                        outcomes@,
                        outcomes@.len() as int,
                    )[i],
                ),
            r.1@ == open_failures(outcomes@, outcomes@.len() as int),
    {
        let ghost serials = serial_infos(c_info@, c_info@.len() as int);
        let mut connections: Vec<Connectable> = Vec::new();
        let mut failures: Vec<(usize, ConnectionError)> = Vec::new();
        let mut copy: Vec<ConnectionInfo> = Vec::new();
        let mut j: usize = 0;
        let mut k: usize = 0;
        while k < c_info.len()
            invariant
                k <= c_info@.len(),
                serials == serial_infos(c_info@, c_info@.len() as int),
                outcomes@.len() == serials.len(),
                copy@ == c_info@.take(k as int),
                j == serial_infos(c_info@, k as int).len(),
                connections@.len() == opened_infos(serials, outcomes@, j as int).len(),
                forall|i: int|
                    0 <= i < connections@.len() ==> opened_with(
                        #[trigger] connections@[i],
                        opened_infos(serials, outcomes@, j as int)[i],
                    ),
                failures@ == open_failures(outcomes@, j as int),
            decreases c_info.len() - k,
        {
            proof {
                lemma_serial_prefix(c_info@, k + 1, c_info@.len() as int);
            }
            match &c_info[k] {
                ConnectionInfo::Serial(info) => {
                    assert(serial_infos(c_info@, k + 1)[j as int] == *info);
                    assert(j < outcomes.len());
                    match &outcomes[j] {
                        None => {
                            connections.push(Connectable::Serial(Serial::new(copy_serial(info))));
                        },
                        Some(e) => {
                            failures.push((j, copy_error(e)));
                        },
                    }
                    j += 1;
                },
                ConnectionInfo::Ssh(_) => {},
                ConnectionInfo::Usb(_) => {},
            }
            copy.push(copy_info(&c_info[k]));
            k += 1;
        }
        assert(c_info@.take(k as int) =~= c_info@);
        assert(connections@.len() == connections.len());
        (Connections { connections, c_info: copy }, failures)
    }

    /// The place of the first handle of the kind `c_type`.
    pub fn get(&self, c_type: ConnectionType) -> (r: Option<usize>)
        ensures
            self@.len() <= usize::MAX,
            match r {
                Some(i) => first_of_kind(self@, c_type, i as int),
                None => none_of_kind(self@, c_type),
            },
    {
        let mut i: usize = 0;
        while i < self.connections.len()
            invariant
                i <= self.connections@.len(),
                forall|k: int| 0 <= k < i ==> kind_of(#[trigger] self.connections@[k]) != c_type,
            decreases self.connections.len() - i,
        {
            let found = match (&self.connections[i], &c_type) {
                (Connectable::Serial(_), ConnectionType::Serial) => true,
                (Connectable::Ssh, ConnectionType::Ssh) => true,
                (Connectable::Usb, ConnectionType::Usb) => true,
                _ => false,
            };
            if found {
                return Some(i);
            }
            i += 1;
        }
        None
    }

    /// The place of the first handle with the label `name`.
    pub fn find(&self, name: &str) -> (r: Option<usize>)
        ensures
            self@.len() <= usize::MAX,
            match r {
                Some(i) => first_labelled(self@, name@, i as int),
                None => forall|k: int| 0 <= k < self@.len() ==> !labelled(#[trigger] self@[k], name@),
            },
    {
        let wanted = String::from_str(name);
        let mut i: usize = 0;
        while i < self.connections.len()
            invariant
                i <= self.connections@.len(),
                wanted@ == name@,
                forall|k: int| 0 <= k < i ==> !labelled(#[trigger] self.connections@[k], name@),
            decreases self.connections.len() - i,
        {
            let found = match &self.connections[i] {
                Connectable::Serial(s) => {
                    let label = String::from_str(s.name());
                    label == wanted
                },
                Connectable::Ssh => false,
                Connectable::Usb => false,
            };
            if found {
                return Some(i);
            }
            i += 1;
        }
        None
    }

    /// The serial connection behind the handle at `i`.
    pub fn serial(&self, i: usize) -> (r: Option<&Serial>)
        ensures
            match r {
                Some(s) => i < self@.len() && self@[i as int] == Connectable::Serial(*s),
                None => i >= self@.len() || !(self@[i as int] is Serial),
            },
    {
        if i >= self.connections.len() {
            return None;
        }
        match &self.connections[i] {
            Connectable::Serial(s) => Some(s),
            _ => None,
        }
    }

    /// Decides what is done at the start, before anything is read. The
    /// commands are for the caller to carry out, in order.
    pub fn startup(&self) -> (out: Vec<Command>)
        ensures
            self@.len() <= usize::MAX,
            out@ == startup_commands(self@),
    {
        let mut out: Vec<Command> = Vec::new();
        match self.get(ConnectionType::Serial) {
            Some(c) => {
                proof {
                    lemma_one_first(
                        self@,
                        ConnectionType::Serial,
                        c as int,
                        choose|i: int| first_of_kind(self@, ConnectionType::Serial, i),
                    );
                }
                out.push(Command::Control { connection: c, action: SerialAction::Dtr(false) });
                out.push(Command::Control { connection: c, action: SerialAction::Rts(false) });
                assert(out@ =~= lowering_commands(c as int));
            },
            None => {
                assert forall|i: int| !first_of_kind(self@, ConnectionType::Serial, i) by {
                    if 0 <= i < self@.len() {
                        assert(kind_of(self@[i]) != ConnectionType::Serial);
                    }
                }
            },
        }
        out
    }

    /// Decides what is done about `notice`, and takes note of it. The
    /// commands are for the caller to carry out, in order.
    pub fn poll(&mut self, notice: &Notice) -> (out: Vec<Command>)
        ensures
            out@ == commands_for(old(self)@, *notice),
            final(self).infos() == old(self).infos(),
            final(self)@.len() == old(self)@.len(),
            old(self)@.len() <= usize::MAX,
            forall|i: int|
                0 <= i < old(self)@.len() ==> handle_after(
                    old(self)@[i],
                    i,
                    *notice,
                    #[trigger] final(self)@[i],
                ),
    {
        proof {
            self.lemma_places();
        }
        let mut out: Vec<Command> = Vec::new();
        match notice {
            Notice::Properties(props) => {
                match self.get(ConnectionType::Serial) {
                    Some(c) => {
                        proof {
                            lemma_one_first(
                                self@,
                                ConnectionType::Serial,
                                c as int,
                                choose|i: int| first_of_kind(self@, ConnectionType::Serial, i),
                            );
                        }
                        let mut k: usize = 0;
                        while k < props.len()
                            invariant
                                k <= props@.len(),
                                out@ == control_commands(c as int, props@).take(k as int),
                            decreases props.len() - k,
                        {
                            let action = match props[k].name {
                                GlobalProperties::Baud(rate) => SerialAction::Baud(rate),
                            };
                            out.push(Command::Control { connection: c, action });
                            assert(out@ =~= control_commands(c as int, props@).take(k + 1));
                            k += 1;
                        }
                        assert(control_commands(c as int, props@).take(k as int)
                            =~= control_commands(c as int, props@));
                    },
                    None => {
                        assert forall|i: int| !first_of_kind(self@, ConnectionType::Serial, i) by {
                            if 0 <= i < self@.len() {
                                assert(kind_of(self@[i]) != ConnectionType::Serial);
                            }
                        }
                    },
                }
            },
            Notice::Applied { connection, action } => {
                if *connection < self.connections.len() {
                    match &mut self.connections[*connection] {
                        Connectable::Serial(s) => {
                            s.applied(action);
                        },
                        _ => {},
                    }
                }

            },
            Notice::Path { change, path } => {
                match change {
                    PathChange::Created => {
                        let wanted = path;
                        let mut i: usize = 0;
                        while i < self.connections.len()
                            invariant
                                i <= self.connections@.len(),
                                self.connections@ == old(self)@,
                                self.c_info@ == old(self).infos(),
                                out@ == reopen_commands(old(self)@, wanted@, i as int),
                            decreases self.connections.len() - i,
                        {
                            match &self.connections[i] {
                                Connectable::Serial(s) => {
                                    let on = String::from_str(s.path());
                                    if on == *wanted {
                                        out.push(
                                            Command::Reopen { connection: i, baud: s.baud() },
                                        );
                                    }
                                },
                                _ => {},
                            }
                            i += 1;
                        }
                    },
                    _ => {},
                }
            },
        }
        out
    }
}

} // verus!
