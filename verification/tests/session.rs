use gameshopui::definition::find_table;
use gameshopui::session::{Action, Message, MessageConnect, MessageTable, RequestState, State, StateTable};
use gameshopui::{ColumnType, Table, TableColumn, TableDefinition, TableEntry};

fn column(name: &str) -> TableColumn {
    TableColumn {
        name: name.to_owned(),
        ty: ColumnType::String,
        optional: true,
        primary_key: false,
        foreign_keys: Vec::new(),
        mapper: None,
    }
}

fn table(id: &str) -> Table {
    Table {
        name: id.to_owned(),
        table: id.to_owned(),
        polymorphic: Some("kind".to_owned()),
        columns: vec![column("id"), column("kind"), column("label")],
    }
}

fn definitions() -> Vec<TableDefinition> {
    vec![
        TableDefinition::Single(table("solo")),
        TableDefinition::Family { base: table("item"), leaves: vec![table("game"), table("book")] },
        TableDefinition::Single(table("last")),
    ]
}

fn tables_message(tables: Result<Vec<TableDefinition>, String>) -> Message {
    Message::Connect(MessageConnect::Response(tables))
}

fn edit_message(url: String) -> Message {
    Message::Connect(MessageConnect::Edit(url))
}

fn request_message(table: String) -> Message {
    Message::View(MessageTable::GetRequest(table))
}

fn response_message(table: String, rows: Result<Vec<TableEntry>, String>) -> Message {
    Message::View(MessageTable::GetResponse(table, rows))
}

fn viewing() -> State {
    let mut state = State::new("http://h".to_owned());
    state.update(tables_message(Ok(definitions())));
    state
}

fn view(state: &State) -> &StateTable {
    match state {
        State::View(view) => view,
        State::Connect(_) => panic!("not viewing"),
    }
}

#[test]
fn session_starts_idle_and_connecting() {
    match State::new("u".to_owned()) {
        State::Connect(state) => {
            assert_eq!(state.url, "u");
            assert_eq!(state.state, RequestState::Idle);
            assert!(state.message.is_none());
            assert!(state.can_connect());
        }
        State::View(_) => panic!("not connecting"),
    }
}

#[test]
fn editing_sets_the_address_and_clears_the_message() {
    let mut state = State::new("u".to_owned());
    assert!(matches!(state.update(tables_message(Err("down".to_owned()))), Action::Nothing));
    assert!(matches!(state.update(edit_message("v".to_owned())), Action::Nothing));
    match state {
        State::Connect(state) => {
            assert_eq!(state.url, "v");
            assert!(state.message.is_none());
        }
        State::View(_) => panic!("not connecting"),
    }
}

#[test]
fn connecting_asks_for_the_tables() {
    let mut state = State::new("u".to_owned());
    assert!(matches!(state.update(Message::Connect(MessageConnect::Connect)), Action::FetchTables));
    match &state {
        State::Connect(state) => {
            assert_eq!(state.state, RequestState::Requesting);
            assert!(!state.can_connect());
        }
        State::View(_) => panic!("not connecting"),
    }
    assert!(matches!(state.update(tables_message(Err("down".to_owned()))), Action::Nothing));
    match &state {
        State::Connect(state) => {
            assert_eq!(state.state, RequestState::Idle);
            assert_eq!(state.message.as_deref(), Some("down"));
            assert_eq!(state.url, "u");
        }
        State::View(_) => panic!("not connecting"),
    }
}

#[test]
fn tables_enter_the_view() {
    let state = viewing();
    let view = view(&state);
    assert_eq!(view.url, "http://h");
    assert_eq!(view.tables.len(), 3);
    assert_eq!(view.state, RequestState::Idle);
    assert!(view.message.is_none());
    assert!(view.entries.is_none());
    assert!(view.selected_table().is_none());
}

#[test]
fn states_take_only_their_messages() {
    let connecting = State::new("u".to_owned());
    assert!(connecting.takes(&edit_message(String::new())));
    assert!(connecting.takes(&Message::Connect(MessageConnect::Connect)));
    assert!(connecting.takes(&tables_message(Ok(Vec::new()))));
    assert!(connecting.takes(&tables_message(Err(String::new()))));
    assert!(!connecting.takes(&request_message(String::new())));
    assert!(!connecting.takes(&response_message(String::new(), Ok(Vec::new()))));
    let viewing = viewing();
    assert!(!viewing.takes(&edit_message(String::new())));
    assert!(!viewing.takes(&Message::Connect(MessageConnect::Connect)));
    assert!(!viewing.takes(&tables_message(Ok(Vec::new()))));
    assert!(viewing.takes(&request_message(String::new())));
    assert!(viewing.takes(&response_message(String::new(), Err(String::new()))));
}

#[test]
fn connecting_state_takes_all_but_the_tables() {
    let mut state = gameshopui::session::StateConnect {
        url: "u".to_owned(),
        state: RequestState::Requesting,
        message: Some("old".to_owned()),
    };
    assert!(state.takes(&MessageConnect::Edit(String::new())));
    assert!(state.takes(&MessageConnect::Connect));
    assert!(state.takes(&MessageConnect::Response(Err(String::new()))));
    assert!(!state.takes(&MessageConnect::Response(Ok(Vec::new()))));
    assert!(matches!(state.update(MessageConnect::Edit("v".to_owned())), Action::Nothing));
    assert_eq!(state.url, "v");
    assert_eq!(state.state, RequestState::Requesting);
    assert!(state.message.is_none());
}

#[test]
fn viewing_state_updates_on_its_own() {
    let mut state = StateTable {
        url: "u".to_owned(),
        tables: definitions(),
        state: RequestState::Idle,
        message: Some("old".to_owned()),
        entries: None,
    };
    assert!(matches!(
        state.update(MessageTable::GetResponse("game".to_owned(), Ok(Vec::new()))),
        Action::Nothing
    ));
    assert_eq!(state.message.as_deref(), Some("old"));
    assert_eq!(state.entries.as_ref().map(|e| e.0.as_str()), Some("game"));
    assert!(matches!(state.update(MessageTable::GetRequest("book".to_owned())), Action::FetchRows(_)));
    assert!(state.message.is_none());
    assert_eq!(state.state, RequestState::Requesting);
}

#[test]
fn asking_for_rows_and_getting_them() {
    let mut state = viewing();
    match state.update(request_message("game".to_owned())) {
        Action::FetchRows(table) => assert_eq!(table, "game"),
        other => panic!("unexpected {:?}", other),
    }
    assert_eq!(view(&state).state, RequestState::Requesting);
    assert!(!view(&state).can_select(&table("book")));
    let rows: Vec<TableEntry> = vec![TableEntry::new()];
    assert!(matches!(state.update(response_message("game".to_owned(), Ok(rows))), Action::Nothing));
    let view = view(&state);
    assert_eq!(view.state, RequestState::Idle);
    assert_eq!(view.entries.as_ref().map(|e| (e.0.as_str(), e.1.len())), Some(("game", 1)));
    assert_eq!(view.selected_table().map(|t| t.table.as_str()), Some("game"));
    assert!(!view.can_select(&table("game")));
    assert!(view.can_select(&table("book")));
}

#[test]
fn failed_rows_leave_a_message_and_keep_the_rows() {
    let mut state = viewing();
    state.update(response_message("game".to_owned(), Ok(Vec::new())));
    state.update(request_message("book".to_owned()));
    state.update(response_message("book".to_owned(), Err("no".to_owned())));
    let view = view(&state);
    assert_eq!(view.state, RequestState::Idle);
    assert_eq!(view.message.as_deref(), Some("no"));
    assert_eq!(view.entries.as_ref().map(|e| e.0.as_str()), Some("game"));
}

#[test]
fn families_offer_their_leaves_only() {
    let state = viewing();
    let offered: Vec<&str> = view(&state).offered_tables().iter().map(|t| t.table.as_str()).collect();
    assert_eq!(offered, vec!["solo", "game", "book", "last"]);
}

#[test]
fn find_table_takes_the_first_definition_that_holds_it() {
    let defs = definitions();
    assert_eq!(find_table(&defs, "solo").map(|t| t.table.as_str()), Some("solo"));
    assert_eq!(find_table(&defs, "item").map(|t| t.table.as_str()), Some("item"));
    assert_eq!(find_table(&defs, "book").map(|t| t.table.as_str()), Some("book"));
    assert_eq!(find_table(&defs, "last").map(|t| t.table.as_str()), Some("last"));
    assert!(find_table(&defs, "none").is_none());
    assert!(find_table(&Vec::new(), "solo").is_none());
}

#[test]
fn shown_columns_leave_out_the_marker() {
    let t = table("game");
    let shown: Vec<&str> = t.shown_columns().iter().map(|c| c.name.as_str()).collect();
    assert_eq!(shown, vec!["id", "label"]);
    let mut plain = table("game");
    plain.polymorphic = None;
    assert_eq!(plain.shown_columns().len(), 3);
}
