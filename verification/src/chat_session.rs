use vstd::prelude::*;

use crate::text::{ascii_alnum, is_ascii_alnum};
use vstd::string::{StringExecFns, StringSliceAdditionalSpecFns};

verus! {

/// A user name is accepted when it has between 1 and 16 characters, all of
/// them ASCII letters or digits.
pub open spec fn valid_username(name: Seq<char>) -> bool {
    &&& 1 <= name.len() <= 16
    &&& forall|i: int| 0 <= i < name.len() ==> #[trigger] is_ascii_alnum(name[i])
}

/// Decides whether `username` may be used in the chat room.
pub fn validate_username(username: &str) -> (ok: bool)
    ensures
        ok == valid_username(username@),
{
    if username.is_empty() || 16 < username.as_bytes().len() {
        proof {
            if username@.len() != 0 && forall|j: int| 0 <= j < username@.len() ==> #[trigger] is_ascii_alnum(username@[j]) {
                lemma_alnum_is_ascii(username);
            }
        }
        return false;
    }
    let mut all_alnum = true;
    for c in it: username.chars()
        invariant
            it.seq() == username@,
            all_alnum <==> forall|j: int| 0 <= j < it.index() ==> #[trigger] is_ascii_alnum(username@[j]),
    {
        if !ascii_alnum(c) {
            all_alnum = false;
        }
    }
    if all_alnum {
        proof {
            lemma_alnum_is_ascii(username);
        }
    }
    all_alnum
}

/// A string of ASCII letters and digits has as many bytes as characters.
proof fn lemma_alnum_is_ascii(s: &str)
    requires
        forall|j: int| 0 <= j < s@.len() ==> #[trigger] is_ascii_alnum(s@[j]),
    ensures
        vstd::string::is_ascii(s),
        s.spec_bytes().len() == s@.len(),
{
    broadcast use vstd::string::is_ascii_spec_bytes;

    assert forall|j: int| 0 <= j < s@.len() implies '\0' <= #[trigger] s@[j] <= '\u{7f}' by {
        assert(is_ascii_alnum(s@[j]));
    }
    assert(vstd::string::is_ascii(s));
    assert(s.spec_bytes() =~= Seq::new(s@.len(), |i| s@.index(i) as u8));
}

/// The line greeting a new connection.
pub open spec fn greeting_text() -> Seq<char> {
    "Welcome to budgetchat! What shall I call you?"@
}

/// The line answering a name that breaks the naming rules.
pub open spec fn invalid_name_text() -> Seq<char> {
    "Please choose a name with between 1-16 characters or numbers. No special symbols or spaces are allowed."@
}

/// The line answering a name that a member already uses.
pub open spec fn name_taken_text() -> Seq<char> {
    "This name is already taken. Please choose another name"@
}

/// The `Debug` rendering of a list of names, as `format!("{:?}", names)`
/// writes it.
pub uninterp spec fn debug_names(names: Seq<Seq<char>>) -> Seq<char>;

/// The line telling a newcomer who is in the room.
pub open spec fn room_contents_text(names: Seq<Seq<char>>) -> Seq<char> {
    "* The room contains: "@ + debug_names(names)
}

/// The announcement that `name` joined.
pub open spec fn entered_text(name: Seq<char>) -> Seq<char> {
    "* "@ + name + " has entered the room"@
}

/// The announcement that `name` left.
pub open spec fn left_text(name: Seq<char>) -> Seq<char> {
    "* "@ + name + " has left the room"@
}

/// A chat line of `name` as the other members see it.
pub open spec fn chat_text(name: Seq<char>, message: Seq<char>) -> Seq<char> {
    "["@ + name + "] "@ + message
}

/// Renders a list of names with `Debug`.
///
/// Calls `format!("{:?}", names)` on a `Vec<String>`; the contract only
/// names the result, which depends on the names alone.
#[verifier::external_body]
fn format_names(names: &Vec<String>) -> (text: String)
    ensures
        text@ == debug_names(names@.map_values(|n: String| n@)),
{
    format!("{:?}", names)
}

/// The line greeting a new connection.
pub fn greeting() -> (line: String)
    ensures
        line@ == greeting_text(),
{
    String::from_str("Welcome to budgetchat! What shall I call you?")
}

/// The line telling a newcomer who is in the room.
pub fn room_contents(names: &Vec<String>) -> (line: String)
    ensures
        line@ == room_contents_text(names@.map_values(|n: String| n@)),
        line@.subrange(21, line@.len() as int) == debug_names(names@.map_values(|n: String| n@)),
{
    let listed = format_names(names);
    let mut line = String::from_str("* The room contains: ");
    line.append(listed.as_str());
    proof {
        lemma_room_line_shape(names@.map_values(|n: String| n@));
    }
    line
}

/// The announcement that `name` joined.
pub fn entered_announcement(name: &str) -> (line: String)
    ensures
        line@ == entered_text(name@),
{
    let mut line = String::from_str("* ");
    line.append(name);
    line.append(" has entered the room");
    line
}

/// The announcement that `name` left.
pub fn left_announcement(name: &str) -> (line: String)
    ensures
        line@ == left_text(name@),
{
    let mut line = String::from_str("* ");
    line.append(name);
    line.append(" has left the room");
    line
}

/// A chat line of `name` as the other members see it.
pub fn chat_line(name: &str, message: &str) -> (line: String)
    ensures
        line@ == chat_text(name@, message@),
        line@.len() == name@.len() + message@.len() + 3,
        line@.subrange(name@.len() as int + 3, line@.len() as int) == message@,
{
    let mut line = String::from_str("[");
    line.append(name);
    line.append("] ");
    line.append(message);
    proof {
        lemma_chat_line_shape(name@, message@);
    }
    line
}


/// Where a connection stands, as the contracts see it.
pub enum Phase {
    AwaitingName,
    CheckingName(Seq<char>),
    ListingRoom(Seq<char>),
    Chatting(Seq<char>),
    Finished,
}

/// Something that happens to a connection, as the contracts see it.
pub enum EventView {
    Line(Seq<char>),
    LineError,
    Disconnected,
    NameAvailability(bool),
    RoomNames(Seq<Seq<char>>),
}

/// Something a connection asks to be done, as the contracts see it.
pub enum ActionView {
    Send(Seq<char>),
    CheckName(Seq<char>),
    ListNames,
    Join(Seq<char>),
    Broadcast(Seq<char>),
    Leave(Seq<char>),
    Fail,
}

/// Where a connection stands.
pub enum SessionState {
    /// Waiting for the client to propose a name.
    AwaitingName,
    /// Waiting for the room to say whether `name` is free.
    CheckingName { name: String },
    /// Waiting for the room to list its members before `name` joins.
    ListingRoom { name: String },
    /// `name` is in the room.
    Chatting { name: String },
    /// The connection is over.
    Finished,
}

/// Something that happens to a connection.
pub enum SessionEvent {
    /// The client sent this line.
    Line(String),
    /// Reading a line from the client failed.
    LineError,
    /// The client closed its side.
    Disconnected,
    /// The room answered whether the proposed name is free.
    NameAvailability(bool),
    /// The room answered with the names of its members.
    RoomNames(Vec<String>),
}

/// Something a connection asks to be done.
pub enum SessionAction {
    /// Send this line to the client.
    Send(String),
    /// Ask the room whether nobody goes by this name.
    CheckName(String),
    /// Ask the room for the names of its members.
    ListNames,
    /// Enter the room under this name and announce it.
    Join(String),
    /// Pass this line to the other members.
    Broadcast(String),
    /// Leave the room, where this name is known, and announce it.
    Leave(String),
    /// Give up on the connection with an error.
    Fail,
}

impl View for SessionState {
    type V = Phase;

    open spec fn view(&self) -> Phase {
        match self {
            SessionState::AwaitingName => Phase::AwaitingName,
            SessionState::CheckingName { name } => Phase::CheckingName(name@),
            SessionState::ListingRoom { name } => Phase::ListingRoom(name@),
            SessionState::Chatting { name } => Phase::Chatting(name@),
            SessionState::Finished => Phase::Finished,
        }
    }
}

impl View for SessionEvent {
    type V = EventView;

    open spec fn view(&self) -> EventView {
        match self {
            SessionEvent::Line(line) => EventView::Line(line@),
            SessionEvent::LineError => EventView::LineError,
            SessionEvent::Disconnected => EventView::Disconnected,
            SessionEvent::NameAvailability(free) => EventView::NameAvailability(*free),
            SessionEvent::RoomNames(names) => EventView::RoomNames(names@.map_values(|n: String| n@)),
        }
    }
}

impl View for SessionAction {
    type V = ActionView;

    open spec fn view(&self) -> ActionView {
        match self {
            SessionAction::Send(line) => ActionView::Send(line@),
            SessionAction::CheckName(name) => ActionView::CheckName(name@),
            SessionAction::ListNames => ActionView::ListNames,
            SessionAction::Join(name) => ActionView::Join(name@),
            SessionAction::Broadcast(line) => ActionView::Broadcast(line@),
            SessionAction::Leave(name) => ActionView::Leave(name@),
            SessionAction::Fail => ActionView::Fail,
        }
    }
}

/// The views of a list of actions.
pub open spec fn actions_view(actions: Seq<SessionAction>) -> Seq<ActionView> {
    actions.map_values(|a: SessionAction| a@)
}

/// How a connection moves on: the next phase and what it asks to be done.
///
/// A proposed name is first checked against the naming rules, then against
/// the room; a free name gets the room's member list and then joins. Once in
/// the room, each line goes to the others prefixed with the sender's name;
/// a clean disconnect leaves the room, a failed read gives up without
/// leaving. An event the phase does not wait for changes nothing.
pub open spec fn next(phase: Phase, event: EventView) -> (Phase, Seq<ActionView>) {
    match phase {
        Phase::AwaitingName => match event {
            EventView::Line(line) => if valid_username(line) {
                (Phase::CheckingName(line), seq![ActionView::CheckName(line)])
            } else {
                (Phase::AwaitingName, seq![ActionView::Send(invalid_name_text())])
            },
            EventView::LineError | EventView::Disconnected => (Phase::Finished, seq![ActionView::Fail]),
            _ => (phase, Seq::empty()),
        },
        Phase::CheckingName(name) => match event {
            EventView::NameAvailability(free) => if free {
                (Phase::ListingRoom(name), seq![ActionView::ListNames])
            } else {
                (Phase::AwaitingName, seq![ActionView::Send(name_taken_text())])
            },
            _ => (phase, Seq::empty()),
        },
        Phase::ListingRoom(name) => match event {
            EventView::RoomNames(names) => (
                Phase::Chatting(name),
                seq![ActionView::Send(room_contents_text(names)), ActionView::Join(name)],
            ),
            _ => (phase, Seq::empty()),
        },
        Phase::Chatting(name) => match event {
            EventView::Line(line) => (Phase::Chatting(name), seq![ActionView::Broadcast(chat_text(name, line))]),
            EventView::LineError => (Phase::Finished, seq![ActionView::Fail]),
            EventView::Disconnected => (Phase::Finished, seq![ActionView::Leave(name)]),
            _ => (phase, Seq::empty()),
        },
        Phase::Finished => (phase, Seq::empty()),
    }
}

/// The state machine of one chat connection.
pub struct ChatSession {
    state: SessionState,
}

impl View for ChatSession {
    type V = Phase;

    closed spec fn view(&self) -> Phase {
        self.state@
    }
}

impl ChatSession {
    /// A connection that has just been greeted and waits for a name.
    pub fn new() -> (session: ChatSession)
        ensures
            session@ == Phase::AwaitingName,
    {
        ChatSession { state: SessionState::AwaitingName }
    }

    /// Whether the connection is over.
    pub fn is_finished(&self) -> (done: bool)
        ensures
            done == (self@ is Finished),
    {
        match self.state {
            SessionState::Finished => true,
            _ => false,
        }
    }

    /// Moves the connection on by one event.
    pub fn step(&mut self, event: SessionEvent) -> (actions: Vec<SessionAction>)
        ensures
            (final(self)@, actions_view(actions@)) == next(old(self)@, event@),
    {
        let ghost ev = event@;
        let mut actions: Vec<SessionAction> = Vec::new();
        let mut state = SessionState::Finished;
        std::mem::swap(&mut state, &mut self.state);
        let next_state = match state {
            SessionState::AwaitingName => match event {
                SessionEvent::Line(line) => {
                    if validate_username(line.as_str()) {
                        actions.push(SessionAction::CheckName(line.clone()));
                        SessionState::CheckingName { name: line }
                    } else {
                        actions.push(SessionAction::Send(String::from_str(
                            "Please choose a name with between 1-16 characters or numbers. No special symbols or spaces are allowed.",
                        )));
                        SessionState::AwaitingName
                    }
                },
                SessionEvent::LineError | SessionEvent::Disconnected => {
                    actions.push(SessionAction::Fail);
                    SessionState::Finished
                },
                _ => SessionState::AwaitingName,
            },
            SessionState::CheckingName { name } => match event {
                SessionEvent::NameAvailability(free) => {
                    if free {
                        actions.push(SessionAction::ListNames);
                        SessionState::ListingRoom { name }
                    } else {
                        actions.push(SessionAction::Send(String::from_str(
                            "This name is already taken. Please choose another name",
                        )));
                        SessionState::AwaitingName
                    }
                },
                _ => SessionState::CheckingName { name },
            },
            SessionState::ListingRoom { name } => match event {
                SessionEvent::RoomNames(names) => {
                    actions.push(SessionAction::Send(room_contents(&names)));
                    actions.push(SessionAction::Join(name.clone()));
                    SessionState::Chatting { name }
                },
                _ => SessionState::ListingRoom { name },
            },
            SessionState::Chatting { name } => match event {
                SessionEvent::Line(line) => {
                    actions.push(SessionAction::Broadcast(chat_line(name.as_str(), line.as_str())));
                    SessionState::Chatting { name }
                },
                SessionEvent::LineError => {
                    actions.push(SessionAction::Fail);
                    SessionState::Finished
                },
                SessionEvent::Disconnected => {
                    actions.push(SessionAction::Leave(name));
                    SessionState::Finished
                },
                _ => SessionState::Chatting { name },
            },
            SessionState::Finished => SessionState::Finished,
        };
        self.state = next_state;
        proof {
            reveal_strlit("Please choose a name with between 1-16 characters or numbers. No special symbols or spaces are allowed.");
            reveal_strlit("This name is already taken. Please choose another name");
            assert(actions_view(actions@) =~= next(old(self)@, ev).1);
        }
        actions
    }
}

/// The name a phase holds, where it holds one, obeys the naming rules.
pub open spec fn holds_valid_name(phase: Phase) -> bool {
    match phase {
        Phase::CheckingName(name) => valid_username(name),
        Phase::ListingRoom(name) => valid_username(name),
        Phase::Chatting(name) => valid_username(name),
        _ => true,
    }
}

/// Every step keeps the held name valid, and a connection only ever joins,
/// speaks or leaves under a valid name: a name that breaks the rules never
/// reaches the room.
pub proof fn lemma_only_valid_names_enter(phase: Phase, event: EventView)
    requires
        holds_valid_name(phase),
    ensures
        holds_valid_name(next(phase, event).0),
        forall|i: int|
            0 <= i < next(phase, event).1.len() ==> match #[trigger] next(phase, event).1[i] {
                ActionView::CheckName(name) => valid_username(name),
                ActionView::Join(name) => valid_username(name),
                ActionView::Leave(name) => valid_username(name),
                _ => true,
            },
{
}

/// A connection joins the room only from the phase in which the room has
/// confirmed its name as free and listed its members, and only under that
/// name.
pub proof fn lemma_join_follows_listing(phase: Phase, event: EventView, name: Seq<char>)
    requires
        next(phase, event).1.contains(ActionView::Join(name)),
    ensures
        phase == Phase::ListingRoom(name),
        event is RoomNames,
{
}

/// A name the room reports as taken sends the connection back to choosing a
/// name, and it does not join.
pub proof fn lemma_taken_name_is_refused(name: Seq<char>)
    ensures
        next(Phase::CheckingName(name), EventView::NameAvailability(false)) == (
            Phase::AwaitingName,
            seq![ActionView::Send(name_taken_text())],
        ),
{
}

/// A character may stand in a user name exactly when it is an ASCII digit
/// (code points 48 to 57), an upper-case ASCII letter (65 to 90) or a
/// lower-case ASCII letter (97 to 122), as `char::is_ascii_alphanumeric`
/// says.
pub proof fn lemma_allowed_characters(c: char)
    ensures
        is_ascii_alnum(c) <==> (48 <= (c as u32) <= 57 || 65 <= (c as u32) <= 90 || 97 <= (c as u32)
            <= 122),
{
}

/// A name is accepted exactly when it has 1 to 16 characters and each of
/// them is an ASCII digit or letter, by code point.
pub proof fn lemma_valid_names_by_code_point(name: Seq<char>)
    ensures
        valid_username(name) <==> {
            &&& 1 <= name.len() <= 16
            &&& forall|i: int|
                0 <= i < name.len() ==> {
                    let c = #[trigger] name[i] as u32;
                    48 <= c <= 57 || 65 <= c <= 90 || 97 <= c <= 122
                }
        },
{
    assert forall|i: int| 0 <= i < name.len() implies (is_ascii_alnum(name[i]) <==> {
        let c = #[trigger] name[i] as u32;
        48 <= c <= 57 || 65 <= c <= 90 || 97 <= c <= 122
    }) by {
        lemma_allowed_characters(name[i]);
    }
}

/// The relayed chat line is `[`, the name, `] ` and the whole message: it is
/// three characters longer than name and message together, holds the name
/// right after the opening bracket, and ends with the full message.
pub proof fn lemma_chat_line_shape(name: Seq<char>, message: Seq<char>)
    ensures
        ({
            let line = chat_text(name, message);
            &&& line.len() == name.len() + message.len() + 3
            &&& line[0] == '['
            &&& line.subrange(1, name.len() as int + 1) == name
            &&& line[name.len() as int + 1] == ']'
            &&& line[name.len() as int + 2] == ' '
            &&& line.subrange(name.len() as int + 3, line.len() as int) == message
        }),
{
    reveal_strlit("[");
    reveal_strlit("] ");
    let line = chat_text(name, message);
    assert(line.subrange(1, name.len() as int + 1) =~= name);
    assert(line.subrange(name.len() as int + 3, line.len() as int) =~= message);
}

/// The line telling a newcomer who is in the room is the 21 characters
/// `* The room contains: ` followed by the rendering of the whole list it is
/// given.
pub proof fn lemma_room_line_shape(names: Seq<Seq<char>>)
    ensures
        ({
            let line = room_contents_text(names);
            &&& line.len() == 21 + debug_names(names).len()
            &&& line.subrange(0, 21) == seq!['*', ' ', 'T', 'h', 'e', ' ', 'r', 'o', 'o', 'm', ' ', 'c', 'o', 'n', 't', 'a', 'i', 'n', 's', ':', ' ']
            &&& line.subrange(21, line.len() as int) == debug_names(names)
        }),
{
    reveal_strlit("* The room contains: ");
    let line = room_contents_text(names);
    assert(line.subrange(0, 21) =~= seq!['*', ' ', 'T', 'h', 'e', ' ', 'r', 'o', 'o', 'm', ' ', 'c', 'o', 'n', 't', 'a', 'i', 'n', 's', ':', ' ']);
    assert(line.subrange(21, line.len() as int) =~= debug_names(names));
}

/// An announcement is `* `, the name, then ` has entered the room` or
/// ` has left the room`: the whole name, right after the two leading
/// characters.
pub proof fn lemma_announcement_shape(name: Seq<char>)
    ensures
        entered_text(name).len() == name.len() + 23,
        entered_text(name).subrange(0, 2) == seq!['*', ' '],
        entered_text(name).subrange(2, name.len() as int + 2) == name,
        entered_text(name).subrange(name.len() as int + 2, name.len() as int + 23) == seq![
            ' ', 'h', 'a', 's', ' ', 'e', 'n', 't', 'e', 'r', 'e', 'd', ' ', 't', 'h', 'e', ' ', 'r', 'o', 'o', 'm'
        ],
        left_text(name).len() == name.len() + 20,
        left_text(name).subrange(0, 2) == seq!['*', ' '],
        left_text(name).subrange(2, name.len() as int + 2) == name,
        left_text(name).subrange(name.len() as int + 2, name.len() as int + 20) == seq![
            ' ', 'h', 'a', 's', ' ', 'l', 'e', 'f', 't', ' ', 't', 'h', 'e', ' ', 'r', 'o', 'o', 'm'
        ],
{
    reveal_strlit("* ");
    reveal_strlit(" has entered the room");
    reveal_strlit(" has left the room");
    let e = entered_text(name);
    let l = left_text(name);
    assert(e.subrange(0, 2) =~= seq!['*', ' ']);
    assert(e.subrange(2, name.len() as int + 2) =~= name);
    assert(l.subrange(0, 2) =~= seq!['*', ' ']);
    assert(l.subrange(2, name.len() as int + 2) =~= name);
    assert(e.subrange(name.len() as int + 2, name.len() as int + 23) =~= " has entered the room"@);
    assert(l.subrange(name.len() as int + 2, name.len() as int + 20) =~= " has left the room"@);
}

/// The way into the room: a valid name is checked with the room; once the
/// room calls it free, the member list is asked for; the list is sent to
/// the client and the connection joins under that name; from then on each
/// line goes to the others as `[name] line`, and a clean disconnect leaves
/// the room under that name.
pub proof fn lemma_way_into_the_room(
    name: Seq<char>,
    members: Seq<Seq<char>>,
    line: Seq<char>,
)
    requires
        valid_username(name),
    ensures
        next(Phase::AwaitingName, EventView::Line(name)) == (
            Phase::CheckingName(name),
            seq![ActionView::CheckName(name)],
        ),
        next(Phase::CheckingName(name), EventView::NameAvailability(true)) == (
            Phase::ListingRoom(name),
            seq![ActionView::ListNames],
        ),
        next(Phase::ListingRoom(name), EventView::RoomNames(members)) == (
            Phase::Chatting(name),
            seq![ActionView::Send(room_contents_text(members)), ActionView::Join(name)],
        ),
        next(Phase::Chatting(name), EventView::Line(line)) == (
            Phase::Chatting(name),
            seq![ActionView::Broadcast(chat_text(name, line))],
        ),
        next(Phase::Chatting(name), EventView::Disconnected) == (
            Phase::Finished,
            seq![ActionView::Leave(name)],
        ),
{
}

/// A name that breaks the rules is answered with the rules and the client
/// may try again; losing the connection before having a name, or a failed
/// read at any point, gives up, and a failed read while chatting does not
/// leave the room.
pub proof fn lemma_ways_out(name: Seq<char>, line: Seq<char>)
    ensures
        !valid_username(line) ==> next(Phase::AwaitingName, EventView::Line(line)) == (
            Phase::AwaitingName,
            seq![ActionView::Send(invalid_name_text())],
        ),
        next(Phase::AwaitingName, EventView::Disconnected) == (Phase::Finished, seq![ActionView::Fail]),
        next(Phase::AwaitingName, EventView::LineError) == (Phase::Finished, seq![ActionView::Fail]),
        next(Phase::Chatting(name), EventView::LineError) == (Phase::Finished, seq![ActionView::Fail]),
        forall|e: EventView| #[trigger] next(Phase::Finished, e) == (Phase::Finished, Seq::<ActionView>::empty()),
{
}

} // verus!
