//! The course of a session with the service: connecting, then viewing
//! tables and their rows. Each event gives the next state and says what to
//! ask the service for; asking is left to the caller.

use vstd::prelude::*;
use crate::definition::{find_table, found_table, TableDefinition};
use crate::rows::TableEntry;
use crate::schema::Table;

verus! {

/// Whether a request is under way.
#[derive(Debug, Clone, Copy, PartialEq, Eq, Structural)]
pub enum RequestState {
    Idle,
    Requesting,
}

/// Connecting: the address of the service, and what the last attempt said.
#[derive(Debug)]
pub struct StateConnect {
    pub url: String,
    pub state: RequestState,
    pub message: Option<String>,
}

/// Viewing: the definitions that the service gave, and the rows of the
/// table that was last fetched, under its identifier.
#[derive(Debug)]
pub struct StateTable {
    pub url: String,
    pub tables: Vec<TableDefinition>,
    pub state: RequestState,
    pub message: Option<String>,
    pub entries: Option<(String, Vec<TableEntry>)>,
}

/// A session is connecting or viewing.
#[derive(Debug)]
pub enum State {
    Connect(StateConnect),
    View(StateTable),
}

/// What happens while connecting.
#[derive(Debug)]
pub enum MessageConnect {
    /// The address was edited.
    Edit(String),
    /// A connection was asked for.
    Connect,
    /// The service answered the request for its tables.
    Response(Result<Vec<TableDefinition>, String>),
}

/// What happens while viewing.
#[derive(Debug)]
pub enum MessageTable {
    /// The rows of a table were asked for.
    GetRequest(String),
    /// The service answered the request for the rows of a table.
    GetResponse(String, Result<Vec<TableEntry>, String>),
}

/// What happens to a session.
#[derive(Debug)]
pub enum Message {
    Connect(MessageConnect),
    View(MessageTable),
}

/// What to ask the service for.
#[derive(Debug)]
pub enum Action {
    Nothing,
    /// The tables of the service.
    FetchTables,
    /// All rows of the table with this identifier.
    FetchRows(String),
}

impl StateConnect {
    /// Whether the message is taken here: every message but the tables of
    /// the service, which end the connecting state.
    pub open spec fn accepts(self, message: MessageConnect) -> bool {
        !(message matches MessageConnect::Response(Ok(_)))
    }

    /// The state after a message: an edit sets the address, a request for
    /// a connection starts a request, and a failure ends it and leaves its
    /// message; the first two clear the message.
    pub open spec fn after(self, message: MessageConnect) -> StateConnect {
        match message {
            MessageConnect::Edit(url) => StateConnect { url, state: self.state, message: None },
            MessageConnect::Connect => StateConnect {
                url: self.url,
                state: RequestState::Requesting,
                message: None,
            },
            MessageConnect::Response(Err(error)) => StateConnect {
                url: self.url,
                state: RequestState::Idle,
                message: Some(error),
            },
            MessageConnect::Response(Ok(_)) => self,
        }
    }

    /// What a message asks the service for.
    pub open spec fn asks(self, message: MessageConnect) -> Action {
        match message {
            MessageConnect::Connect => Action::FetchTables,
            _ => Action::Nothing,
        }
    }

    /// Whether the message is taken here.
    pub fn takes(&self, message: &MessageConnect) -> (b: bool)
        ensures
            b == self.accepts(*message),
    {
        match message {
            MessageConnect::Response(Ok(_)) => false,
            _ => true,
        }
    }

    /// Takes a message in, and says what to ask the service for.
    pub fn update(&mut self, message: MessageConnect) -> (action: Action)
        requires
            old(self).accepts(message),
        ensures
            *final(self) == old(self).after(message),
            action == old(self).asks(message),
    {
        match message {
            MessageConnect::Edit(url) => {
                self.url = url;
                self.message = None;
                Action::Nothing
            },
            MessageConnect::Connect => {
                self.state = RequestState::Requesting;
                self.message = None;
                Action::FetchTables
            },
            MessageConnect::Response(response) => {
                self.state = RequestState::Idle;
                match response {
                    Ok(_) => {},
                    Err(error) => {
                        self.message = Some(error);
                    },
                }
                Action::Nothing
            },
        }
    }

    /// Whether a connection can be asked for: no request is under way.
    pub fn can_connect(&self) -> (b: bool)
        ensures
            b == (self.state == RequestState::Idle),
    {
        match self.state {
            RequestState::Idle => true,
            RequestState::Requesting => false,
        }
    }
}

impl State {
    /// Whether the message can come in this state: each state takes its
    /// own messages, and the tables of the service come while connecting.
    pub open spec fn accepts(self, message: Message) -> bool {
        match (self, message) {
            (State::Connect(_), Message::Connect(_)) => true,
            (State::View(_), Message::View(_)) => true,
            _ => false,
        }
    }

    /// The viewing state that a connecting state enters with the tables of
    /// the service.
    pub open spec fn entered(self, tables: Vec<TableDefinition>) -> State {
        State::View(
            StateTable {
                url: self->Connect_0.url,
                tables,
                state: RequestState::Idle,
                message: None,
                entries: None,
            },
        )
    }

    /// The state after a message: the tables of the service end the
    /// connecting state and enter the viewing state; any other message
    /// goes to the state that the session is in.
    pub open spec fn after(self, message: Message) -> State {
        match (self, message) {
            (State::Connect(_), Message::Connect(MessageConnect::Response(Ok(tables)))) => self.entered(
                tables,
            ),
            (State::Connect(s), Message::Connect(m)) => State::Connect(s.after(m)),
            (State::View(s), Message::View(m)) => State::View(s.after(m)),
            _ => self,
        }
    }

    /// What a message in this state asks the service for.
    pub open spec fn asks(self, message: Message) -> Action {
        match (self, message) {
            (State::Connect(_), Message::Connect(MessageConnect::Response(Ok(_)))) => Action::Nothing,
            (State::Connect(s), Message::Connect(m)) => s.asks(m),
            (State::View(s), Message::View(m)) => s.asks(m),
            _ => Action::Nothing,
        }
    }

    /// A session that starts to connect to `url`.
    pub fn new(url: String) -> (state: State)
        ensures
            state == State::Connect(
                StateConnect { url, state: RequestState::Idle, message: None },
            ),
    {
        State::Connect(StateConnect { url, state: RequestState::Idle, message: None })
    }

    /// The viewing state that a connecting state enters with the tables of
    /// the service.
    pub fn into_view(self, tables: Vec<TableDefinition>) -> (state: State)
        requires
            self is Connect,
        ensures
            state == self.entered(tables),
    {
        match self {
            State::Connect(s) => State::View(
                StateTable {
                    url: s.url,
                    tables,
                    state: RequestState::Idle,
                    message: None,
                    entries: None,
                },
            ),
            State::View(s) => State::View(s),
        }
    }

    /// Whether the message can come in this state.
    pub fn takes(&self, message: &Message) -> (b: bool)
        ensures
            b == self.accepts(*message),
    {
        match self {
            State::Connect(_) => match message {
                Message::Connect(_) => true,
                Message::View(_) => false,
            },
            State::View(_) => match message {
                Message::Connect(_) => false,
                Message::View(_) => true,
            },
        }
    }

    /// Takes a message in, and says what to ask the service for.
    pub fn update(&mut self, message: Message) -> (action: Action)
        requires
            old(self).accepts(message),
        ensures
            *final(self) == old(self).after(message),
            action == old(self).asks(message),
    {
        if let Message::Connect(MessageConnect::Response(Ok(tables))) = message {
            enter(self, tables);
            Action::Nothing
        } else {
            match self {
                State::Connect(state) => match message {
                    Message::Connect(message) => state.update(message),
                    Message::View(_) => Action::Nothing,
                },
                State::View(state) => match message {
                    Message::View(message) => state.update(message),
                    Message::Connect(_) => Action::Nothing,
                },
            }
        }
    }
}

/// Puts in place of a connecting state the viewing state that it enters,
/// with `take_mut::take`: the closure gets the state that the reference
/// holds, and the reference then holds what the closure returns.
#[verifier::external_body]
fn enter(state: &mut State, tables: Vec<TableDefinition>)
    requires
        *old(state) is Connect,
    ensures
        *final(state) == old(state).entered(tables),
{
    take_mut::take(state, |state| state.into_view(tables))
}

/// The tables that a sequence of definitions offers for viewing: a single
/// table itself, and of a family its leaves.
pub open spec fn offered(definitions: Seq<TableDefinition>) -> Seq<Table>
    decreases definitions.len(),
{
    if definitions.len() == 0 {
        Seq::empty()
    } else {
        offered(definitions.drop_last()) + match definitions.last() {
            TableDefinition::Single(table) => seq![table],
            TableDefinition::Family { base, leaves } => leaves@,
        }
    }
}

impl StateTable {
    /// The state after a message: a request for rows starts a request and
    /// clears the message; an answer ends the request, and leaves its rows
    /// under the identifier of their table, or its message.
    pub open spec fn after(self, message: MessageTable) -> StateTable {
        match message {
            MessageTable::GetRequest(_) => StateTable {
                url: self.url,
                tables: self.tables,
                state: RequestState::Requesting,
                message: None,
                entries: self.entries,
            },
            MessageTable::GetResponse(table, Ok(entries)) => StateTable {
                url: self.url,
                tables: self.tables,
                state: RequestState::Idle,
                message: self.message,
                entries: Some((table, entries)),
            },
            MessageTable::GetResponse(_, Err(error)) => StateTable {
                url: self.url,
                tables: self.tables,
                state: RequestState::Idle,
                message: Some(error),
                entries: self.entries,
            },
        }
    }

    /// What a message asks the service for.
    pub open spec fn asks(self, message: MessageTable) -> Action {
        match message {
            MessageTable::GetRequest(table) => Action::FetchRows(table),
            _ => Action::Nothing,
        }
    }

    /// Takes a message in, and says what to ask the service for.
    pub fn update(&mut self, message: MessageTable) -> (action: Action)
        ensures
            *final(self) == old(self).after(message),
            action == old(self).asks(message),
    {
        match message {
            MessageTable::GetRequest(table) => {
                self.state = RequestState::Requesting;
                self.message = None;
                Action::FetchRows(table)
            },
            MessageTable::GetResponse(table, entries) => {
                self.state = RequestState::Idle;
                match entries {
                    Ok(entries) => {
                        self.entries = Some((table, entries));
                    },
                    Err(error) => {
                        self.message = Some(error);
                    },
                }
                Action::Nothing
            },
        }
    }

    /// Whether the rows of `table` are the ones last fetched.
    pub open spec fn shows(self, table: Table) -> bool {
        match self.entries {
            Some(entries) => entries.0@ == table.table@,
            None => false,
        }
    }

    /// The table whose rows were last fetched, if rows were fetched and a
    /// definition holds the table.
    pub fn selected_table(&self) -> (found: Option<&Table>)
        ensures
            match found {
                Some(table) => self.entries is Some && found_table(
                    self.tables@,
                    self.entries.unwrap().0@,
                ) == Some(*table),
                None => self.entries is None || found_table(
                    self.tables@,
                    self.entries.unwrap().0@,
                ).is_none(),
            },
    {
        match &self.entries {
            Some(entries) => find_table(&self.tables, entries.0.as_str()),
            None => None,
        }
    }

    /// Whether the rows of `table` can be asked for: no request is under
    /// way, and the rows last fetched are not those of `table`.
    pub fn can_select(&self, table: &Table) -> (b: bool)
        ensures
            b == (self.state == RequestState::Idle && !self.shows(*table)),
    {
        let idle = match self.state {
            RequestState::Idle => true,
            RequestState::Requesting => false,
        };
        let selected = match &self.entries {
            Some(entries) => entries.0 == table.table,
            None => false,
        };
        idle && !selected
    }

    /// The tables offered for viewing, in order: a single table itself, and
    /// of a family its leaves.
    pub fn offered_tables(&self) -> (tables: Vec<&Table>)
        ensures
            tables@.len() == offered(self.tables@).len(),
            forall|i: int| 0 <= i < tables@.len() ==> *(#[trigger] tables@[i]) == offered(self.tables@)[i],
    {
        let mut tables: Vec<&Table> = Vec::new();
        let mut i: usize = 0;
        while i < self.tables.len()
            invariant
                i <= self.tables@.len(),
                tables@.len() == offered(self.tables@.take(i as int)).len(),
                forall|k: int|
                    0 <= k < tables@.len() ==> *(#[trigger] tables@[k]) == offered(
                        self.tables@.take(i as int),
                    )[k],
            decreases self.tables.len() - i,
        {
            let ghost prev = offered(self.tables@.take(i as int));
            let ghost next = offered(self.tables@.take(i + 1));
            let ghost start = tables@;
            proof {
                assert(self.tables@.take(i + 1).drop_last() =~= self.tables@.take(i as int));
            }
            match &self.tables[i] {
                TableDefinition::Single(table) => {
                    tables.push(table);
                },
                TableDefinition::Family { base: _, leaves } => {
                    let ghost before = tables@;
                    let mut j: usize = 0;
                    while j < leaves.len()
                        invariant
                            j <= leaves@.len(),
                            tables@.len() == before.len() + j,
                            forall|k: int| 0 <= k < before.len() ==> tables@[k] == before[k],
                            forall|k: int| 0 <= k < j ==> *(#[trigger] tables@[before.len() + k]) == leaves@[k],
                        decreases leaves.len() - j,
                    {
                        tables.push(&leaves[j]);
                        j += 1;
                    }
                    assert forall|k: int| prev.len() <= k < tables@.len() implies *(
                    #[trigger] tables@[k]) == next[k] by {
                        let m = k - before.len();
                        assert(*tables@[before.len() + m] == leaves@[m]);
                    }
                },
            }
            proof {
                assert forall|k: int| 0 <= k < tables@.len() implies *(#[trigger] tables@[k])
                    == next[k] by {
                    if k < prev.len() {
                        assert(tables@[k] == start[k]);
                    }
                }
            }
            i += 1;
        }
        proof {
            assert(self.tables@.take(i as int) =~= self.tables@);
        }
        tables
    }
}

} // verus!
