use clogwench::central::{audio_response, database_response, route, to_query, CentralState, Outgoing};
use clogwench::db::{JObj, JDB};
use clogwench::geom::Rect;
use clogwench::protocol::{
    APICommand, AudioPauseTrackRequest, DBAddRequest, DBDeleteRequest, DBQueryClause, DBQueryClauseKind,
    DBQueryRequest, DBUpdateRequest, DebugMessage, HelloApp, HelloWindowManager, IncomingMessage, KeyUpEvent,
    OpenWindowCommand,
};

fn msg(source: u128, command: APICommand) -> IncomingMessage {
    IncomingMessage { source, command, trace: false, timestamp_usec: 42 }
}

fn song(id: &str, title: &str) -> JObj {
    let mut o = JObj::make();
    o.id = id.to_string();
    o.add_field("type", "song-track");
    o.add_field("title", title);
    o
}

fn state_with_songs() -> CentralState {
    let mut db = JDB::make_empty();
    db.add_object(song("s1", "Closer"));
    db.add_object(song("s2", "Nightime"));
    CentralState::init(db)
}

#[test]
fn app_connect_is_answered() {
    let mut st = state_with_songs();
    let out = route(&mut st, msg(9, APICommand::AppConnect(HelloApp {})));
    assert_eq!(out.len(), 3);
    assert!(matches!(&out[0], Outgoing::ToApp(9, APICommand::AppConnectResponse(r)) if r.app_id == 9));
    assert!(matches!(&out[1], Outgoing::ToAllWm(APICommand::AppConnectResponse(r)) if r.app_id == 9));
    assert!(matches!(&out[2], Outgoing::ToDebugger(DebugMessage::AppConnected(t)) if t == "foo"));
}

#[test]
fn wm_connect_and_shutdown() {
    let mut st = state_with_songs();
    let out = route(&mut st, msg(3, APICommand::WMConnect(HelloWindowManager {})));
    assert_eq!(out.len(), 2);
    assert!(matches!(&out[0], Outgoing::ToWm(3, APICommand::WMConnectResponse(r), false) if r.wm_id == 3));
    assert!(matches!(&out[1], Outgoing::ToDebugger(DebugMessage::WindowManagerConnected)));
    let out = route(&mut st, msg(3, APICommand::Debug(DebugMessage::RequestServerShutdown)));
    assert_eq!(out.len(), 3);
    assert!(matches!(&out[0], Outgoing::ToAllWm(APICommand::SystemShutdown)));
    assert!(matches!(&out[1], Outgoing::ToAllApps(APICommand::SystemShutdown)));
    assert!(matches!(&out[2], Outgoing::Stop));
}

#[test]
fn open_window_is_recorded() {
    let mut st = state_with_songs();
    let app = st.add_app();
    assert!(st.app_connected(app));
    assert!(!st.app_connected(app.wrapping_add(1)));
    let ow = OpenWindowCommand {
        window_type: "plain".to_string(),
        window_title: "hello".to_string(),
        bounds: Rect::from_ints(1, 2, 3, 4),
    };
    let out = route(&mut st, msg(app, APICommand::OpenWindowCommand(ow)));
    assert_eq!(out.len(), 3);
    assert_eq!(st.apps.len(), 1);
    assert_eq!(st.apps[0].windows.len(), 1);
    let winid = st.apps[0].windows[0].id;
    assert_eq!(st.apps[0].windows[0].title, "hello");
    match &out[0] {
        Outgoing::ToApp(to, APICommand::OpenWindowResponse(r)) => {
            assert_eq!(*to, app);
            assert_eq!(r.window_id, winid);
            assert_eq!(r.bounds, Rect::from_ints(1, 2, 3, 4));
            assert_eq!(r.window_title, "hello");
        },
        other => panic!("unexpected {:?}", other),
    }
    assert!(matches!(&out[1], Outgoing::ToAllWm(APICommand::OpenWindowResponse(r)) if r.window_id == winid));
    assert!(matches!(&out[2], Outgoing::ToDebugger(DebugMessage::WindowOpened(t)) if t == "foo"));
}

#[test]
fn database_requests_are_answered() {
    let mut st = state_with_songs();
    let query = vec![DBQueryClause {
        kind: DBQueryClauseKind::equals,
        key: "title".to_string(),
        value: "Closer".to_string(),
    }];
    let out = route(&mut st, msg(4, APICommand::DBQueryRequest(DBQueryRequest { app_id: 4, query })));
    assert_eq!(out.len(), 1);
    match &out[0] {
        Outgoing::ToApp(4, APICommand::DBQueryResponse(r)) => {
            assert!(r.success);
            assert_eq!(r.results.len(), 1);
            assert_eq!(r.results[0].id, "s1");
        },
        other => panic!("unexpected {:?}", other),
    }

    let out = route(&mut st, msg(4, APICommand::DBAddRequest(DBAddRequest { app_id: 4, object: song("", "New") })));
    let new_id = match &out[0] {
        Outgoing::ToApp(4, APICommand::DBAddResponse(r)) => r.object.id.clone(),
        other => panic!("unexpected {:?}", other),
    };
    assert!(new_id.starts_with("obj_$"));
    assert_eq!(st.db.data.len(), 3);

    let out = route(
        &mut st,
        msg(4, APICommand::DBUpdateRequest(DBUpdateRequest { app_id: 4, object: song("s2", "Renamed") })),
    );
    assert!(matches!(&out[0], Outgoing::ToApp(4, APICommand::DBUpdateResponse(r)) if r.object.id == "s2"));
    assert!(st.db.find_by_id("s2").unwrap().field_matches("title", "Renamed"));

    let out = route(
        &mut st,
        msg(4, APICommand::DBDeleteRequest(DBDeleteRequest { app_id: 4, object: song("s1", "Closer") })),
    );
    assert!(matches!(&out[0], Outgoing::ToApp(4, APICommand::DBDeleteResponse(r)) if r.success));
    assert!(st.db.find_by_id("s1").is_none());
}

#[test]
fn database_refuses_other_commands() {
    let mut db = JDB::make_empty();
    assert!(database_response(&mut db, APICommand::SystemShutdown).is_none());
    assert_eq!(db.data.len(), 0);
}

#[test]
fn audio_pause_is_acknowledged() {
    let r = audio_response(APICommand::AudioPauseTrackRequest(AudioPauseTrackRequest { app_id: 6, track: song("t", "x") }));
    match r {
        Some((6, APICommand::AudioPauseTrackResponse(resp))) => {
            assert!(resp.success);
            assert_eq!(resp.track.id, "t");
        },
        other => panic!("unexpected {:?}", other),
    }
    assert!(audio_response(APICommand::SystemShutdown).is_none());
}

#[test]
fn key_up_goes_to_its_app_and_unknown_is_logged() {
    let mut st = state_with_songs();
    let ev = KeyUpEvent { app_id: 12, window_id: 13, original_timestamp: 0, key: 65 };
    let out = route(&mut st, msg(1, APICommand::KeyUp(ev)));
    assert!(matches!(&out[..], [Outgoing::ToApp(12, APICommand::KeyUp(_))]));
    let out = route(&mut st, msg(1, APICommand::SystemShutdown));
    assert!(matches!(&out[..], [Outgoing::Unhandled]));
}

#[test]
fn query_builder_keeps_last_clause_per_field() {
    let clauses = vec![
        DBQueryClause { kind: DBQueryClauseKind::equals, key: "title".to_string(), value: "Nope".to_string() },
        DBQueryClause { kind: DBQueryClauseKind::substringi, key: "title".to_string(), value: "NIGHT".to_string() },
    ];
    let q = to_query(clauses);
    let st = state_with_songs();
    let res = st.db.process_query(&q);
    assert_eq!(res.len(), 1);
    assert_eq!(res[0].id, "s2");
}
