use vstd::prelude::*;
use crate::db::{
    mark_deleted, query_results, without_id, ClauseModel, JDB, JObj, JQuery, ObjModel,
};
use crate::geom::Rect;
use crate::ids::{fresh_id, is_ascii_alphanumeric};
use crate::protocol::{
    APICommand, AudioPauseTrackResponse, DBAddResponse, DBDeleteResponse, DBQueryClause,
    DBQueryClauseKind, DBQueryResponse, DBUpdateResponse, DebugMessage, HelloAppResponse,
    HelloWindowManagerResponse, IncomingMessage, OpenWindowCommand, OpenWindowResponse,
};

verus! {

/// The query that a list of clauses builds: a later clause on a field
/// replaces an earlier one.
pub open spec fn clauses_map(cls: Seq<DBQueryClause>) -> Map<Seq<char>, ClauseModel>
    decreases cls.len(),
{
    if cls.len() == 0 {
        Map::empty()
    } else {
        let c = cls.last();
        clauses_map(cls.drop_last()).insert(
            c.key@,
            match c.kind {
                DBQueryClauseKind::equals => ClauseModel::Equals(c.value@),
                DBQueryClauseKind::equalsi => ClauseModel::EqualsI(c.value@),
                DBQueryClauseKind::substring => ClauseModel::Substring(c.value@),
                DBQueryClauseKind::substringi => ClauseModel::SubstringI(c.value@),
            },
        )
    }
}

/// Builds a query from the clauses of a request.
pub fn to_query(clauses: Vec<DBQueryClause>) -> (q: JQuery)
    ensures
        q@ == clauses_map(clauses@),
{
    let mut q = JQuery::new();
    let mut i: usize = 0;
    while i < clauses.len()
        invariant
            i <= clauses@.len(),
            q@ == clauses_map(clauses@.take(i as int)),
        decreases clauses@.len() - i,
    {
        assert(clauses@.take(i + 1).drop_last() =~= clauses@.take(i as int));
        let cl = &clauses[i];
        match cl.kind {
            DBQueryClauseKind::equals => q.add_equal(cl.key.as_str(), cl.value.as_str()),
            DBQueryClauseKind::equalsi => q.add_equal_ci(cl.key.as_str(), cl.value.as_str()),
            DBQueryClauseKind::substring => q.add_substring(cl.key.as_str(), cl.value.as_str()),
            DBQueryClauseKind::substringi => q.add_substringi(cl.key.as_str(), cl.value.as_str()),
        }
        i = i + 1;
    }
    assert(clauses@.take(clauses@.len() as int) =~= clauses@);
    q
}

/// How `delete` leaves the objects: the first object with the id marked
/// deleted, or nothing changed when there is none.
pub open spec fn delete_outcome(old: Seq<ObjModel>, new: Seq<ObjModel>, id: Seq<char>) -> bool {
    &&& (exists|i: int| 0 <= i < old.len() && old[i].id == id) ==> exists|i: int|
        0 <= i < old.len() && old[i].id == id && (forall|j: int| 0 <= j < i ==> #[trigger] old[j].id != id)
            && new == mark_deleted(old, i)
    &&& (forall|i: int| 0 <= i < old.len() ==> old[i].id != id) ==> new == old
}

/// What the database does with a command, and the reply it sends to which
/// application. Requests other than the four database requests are
/// refused: nothing changes and nothing is sent.
pub open spec fn db_outcome(
    old: Seq<ObjModel>,
    new: Seq<ObjModel>,
    cmd: APICommand,
    r: Option<(u128, APICommand)>,
) -> bool {
    match cmd {
        APICommand::DBQueryRequest(req) => {
            &&& new == old
            &&& r matches Some((to, APICommand::DBQueryResponse(resp)))
            &&& to == req.app_id && resp.app_id == req.app_id && resp.success
            &&& crate::db::models(resp.results@) == query_results(old, clauses_map(req.query@))
        },
        APICommand::DBUpdateRequest(req) => {
            &&& r matches Some((to, APICommand::DBUpdateResponse(resp)))
            &&& to == req.app_id && resp.app_id == req.app_id && resp.success
            &&& resp.object@ == req.object@
            &&& new == without_id(old, req.object@.id).push(req.object@)
        },
        APICommand::DBAddRequest(req) => {
            &&& r matches Some((to, APICommand::DBAddResponse(resp)))
            &&& to == req.app_id && resp.app_id == req.app_id && resp.success
            &&& exists|suffix: Seq<char>|
                suffix.len() == 30 && (forall|i: int|
                    0 <= i < 30 ==> is_ascii_alphanumeric(#[trigger] suffix[i])) && resp.object@
                    == (ObjModel { id: "obj_$"@ + suffix, ..req.object@ })
            &&& new == old.push(resp.object@)
        },
        APICommand::DBDeleteRequest(req) => {
            &&& r matches Some((to, APICommand::DBDeleteResponse(resp)))
            &&& to == req.app_id && resp.app_id == req.app_id && resp.success
            &&& resp.object@ == req.object@
            &&& delete_outcome(old, new, req.object@.id)
        },
        _ => new == old && r is None,
    }
}

/// Runs a database request against `db` and gives the reply with the
/// application it goes to.
pub fn database_response(db: &mut JDB, cmd: APICommand) -> (r: Option<(u128, APICommand)>)
    ensures
        db_outcome(old(db)@, final(db)@, cmd, r),
        final(db).base_path == old(db).base_path,
        final(db).save_path == old(db).save_path,
{
    match cmd {
        APICommand::DBQueryRequest(req) => {
            let query: JQuery = to_query(req.query);
            let data = db.process_query(&query);
            let msg = DBQueryResponse { app_id: req.app_id, success: true, results: data };
            Some((msg.app_id, APICommand::DBQueryResponse(msg)))
        },
        APICommand::DBUpdateRequest(req) => {
            let data: JObj = db.process_update(req.object);
            let msg = DBUpdateResponse { app_id: req.app_id, success: true, object: data };
            Some((msg.app_id, APICommand::DBUpdateResponse(msg)))
        },
        APICommand::DBAddRequest(req) => {
            let data: JObj = db.process_add(req.object);
            let msg = DBAddResponse { app_id: req.app_id, success: true, object: data };
            Some((msg.app_id, APICommand::DBAddResponse(msg)))
        },
        APICommand::DBDeleteRequest(req) => {
            let data: JObj = db.process_delete(req.object);
            let msg = DBDeleteResponse { app_id: req.app_id, success: true, object: data };
            Some((msg.app_id, APICommand::DBDeleteResponse(msg)))
        },
        _ => None,
    }
}

/// The reply of the audio service: pausing is acknowledged to the
/// application; playing sends nothing back; other commands are refused.
pub fn audio_response(cmd: APICommand) -> (r: Option<(u128, APICommand)>)
    ensures
        match cmd {
            APICommand::AudioPauseTrackRequest(req) => r == Some(
                (
                    req.app_id,
                    APICommand::AudioPauseTrackResponse(
                        AudioPauseTrackResponse { app_id: req.app_id, success: true, track: req.track },
                    ),
                ),
            ),
            _ => r is None,
        },
{
    match cmd {
        APICommand::AudioPauseTrackRequest(req) => {
            let msg = AudioPauseTrackResponse { app_id: req.app_id, success: true, track: req.track };
            Some((msg.app_id, APICommand::AudioPauseTrackResponse(msg)))
        },
        _ => None,
    }
}

/// A window as the central server records it.
#[derive(Debug)]
pub struct WindowRecord {
    pub id: u128,
    pub bounds: Rect,
    pub title: String,
}

/// A connected application and the windows it opened.
#[derive(Debug)]
pub struct AppRecord {
    pub id: u128,
    pub windows: Vec<WindowRecord>,
}

/// What the central server knows: the connected window managers,
/// applications and debuggers, by id, and the database.
pub struct CentralState {
    pub wms: Vec<u128>,
    pub apps: Vec<AppRecord>,
    pub debuggers: Vec<u128>,
    pub db: JDB,
}

/// The first application with the given id is at `i`.
pub open spec fn first_app_record(apps: Seq<AppRecord>, id: u128, i: int) -> bool {
    0 <= i < apps.len() && apps[i].id == id && forall|j: int| 0 <= j < i ==> #[trigger] apps[j].id != id
}

impl CentralState {
    pub open spec fn has_app(&self, id: u128) -> bool {
        exists|i: int| 0 <= i < self.apps@.len() && self.apps@[i].id == id
    }

    /// A state with nothing connected, serving the given database.
    pub fn init(db: JDB) -> (st: CentralState)
        ensures
            st.wms@.len() == 0,
            st.apps@.len() == 0,
            st.debuggers@.len() == 0,
            st.db@ == db@,
    {
        CentralState { wms: vec![], apps: vec![], debuggers: vec![], db }
    }

    /// Whether an application with the given id is connected.
    pub fn app_connected(&self, id: u128) -> (r: bool)
        ensures
            r == self.has_app(id),
    {
        let mut i: usize = 0;
        while i < self.apps.len()
            invariant
                i <= self.apps@.len(),
                forall|j: int| 0 <= j < i ==> self.apps@[j].id != id,
            decreases self.apps@.len() - i,
        {
            if self.apps[i].id == id {
                return true;
            }
            i = i + 1;
        }
        false
    }

    /// Registers a newly connected application under a fresh id, which it
    /// returns.
    pub fn add_app(&mut self) -> (id: u128)
        ensures
            final(self).apps@.len() == old(self).apps@.len() + 1,
            forall|i: int| 0 <= i < old(self).apps@.len() ==> final(self).apps@[i] == old(self).apps@[i],
            final(self).apps@.last().id == id,
            final(self).apps@.last().windows@.len() == 0,
            final(self).wms@ == old(self).wms@,
            final(self).debuggers@ == old(self).debuggers@,
            final(self).db@ == old(self).db@,
    {
        let id = fresh_id();
        self.apps.push(AppRecord { id, windows: vec![] });
        id
    }

    /// Registers a newly connected window manager under a fresh id, which it
    /// returns.
    pub fn add_wm(&mut self) -> (id: u128)
        ensures
            final(self).wms@ == old(self).wms@.push(id),
            final(self).apps@ == old(self).apps@,
            final(self).debuggers@ == old(self).debuggers@,
            final(self).db@ == old(self).db@,
    {
        let id = fresh_id();
        self.wms.push(id);
        id
    }

    /// Registers a newly connected debugger under a fresh id, which it
    /// returns.
    pub fn add_debugger(&mut self) -> (id: u128)
        ensures
            final(self).debuggers@ == old(self).debuggers@.push(id),
            final(self).apps@ == old(self).apps@,
            final(self).wms@ == old(self).wms@,
            final(self).db@ == old(self).db@,
    {
        let id = fresh_id();
        self.debuggers.push(id);
        id
    }

    /// Records a window for the first application with id `appid` under a
    /// fresh id, which it returns.
    pub fn add_window_to_app(&mut self, appid: u128, ow: &OpenWindowCommand) -> (winid: u128)
        requires
            old(self).has_app(appid),
        ensures
            final(self).wms@ == old(self).wms@,
            final(self).debuggers@ == old(self).debuggers@,
            final(self).db == old(self).db,
            final(self).apps@.len() == old(self).apps@.len(),
            exists|i: int|
                first_app_record(old(self).apps@, appid, i) && (forall|j: int|
                    0 <= j < old(self).apps@.len() && j != i ==> final(self).apps@[j] == old(self).apps@[j])
                    && final(self).apps@[i].id == appid && final(self).apps@[i].windows@ == old(
                    self,
                ).apps@[i].windows@.push(WindowRecord { id: winid, bounds: ow.bounds, title: ow.window_title }),
    {
        let winid = fresh_id();
        let win = WindowRecord { id: winid, bounds: ow.bounds, title: ow.window_title.clone() };
        let mut i: usize = 0;
        while i < self.apps.len()
            invariant
                i <= self.apps@.len(),
                *self == *old(self),
                old(self).has_app(appid),
                win == (WindowRecord { id: winid, bounds: ow.bounds, title: ow.window_title }),
                forall|j: int| 0 <= j < i ==> self.apps@[j].id != appid,
            decreases self.apps@.len() - i,
        {
            if self.apps[i].id == appid {
                assert(first_app_record(old(self).apps@, appid, i as int));
                let ghost w = win;
                let ghost old_apps = self.apps@;
                self.apps[i].windows.push(win);
                assert(self.apps@[i as int].windows@ == old_apps[i as int].windows@.push(w));
                assert(self.apps@[i as int].id == appid);
                assert(forall|j: int| 0 <= j < old_apps.len() && j != i ==> self.apps@[j] == old_apps[j]);
                assert(w == WindowRecord { id: winid, bounds: ow.bounds, title: ow.window_title });
                assert(first_app_record(old(self).apps@, appid, i as int) && (forall|j: int|
                    0 <= j < old(self).apps@.len() && j != i ==> self.apps@[j] == old(self).apps@[j])
                    && self.apps@[i as int].id == appid && self.apps@[i as int].windows@ == old(
                    self,
                ).apps@[i as int].windows@.push(WindowRecord { id: winid, bounds: ow.bounds, title: ow.window_title }));
                return winid;
            }
            i = i + 1;
        }
        assert(false);
        winid
    }
}

/// Where the router sends a message. `ToApp` goes to one application,
/// stamped as coming from nowhere at the current time; `ToAppFrom` keeps
/// the source, trace flag and time given; `ToWm` goes to one window manager
/// with the given trace flag; `Stop` ends the server; `Unhandled` is logged.
#[derive(Debug)]
pub enum Outgoing {
    ToApp(u128, APICommand),
    ToAppFrom(u128, APICommand, u128, bool, u128),
    ToAllApps(APICommand),
    ToWm(u128, APICommand, bool),
    ToAllWm(APICommand),
    ToDebugger(DebugMessage),
    Stop,
    Unhandled,
}

/// The text the router reports to debuggers about applications and windows.
pub open spec fn is_note(s: String) -> bool {
    s@ == "foo"@
}

/// The response to a window being opened.
pub open spec fn open_response(src: u128, ow: OpenWindowCommand, winid: u128, r: APICommand) -> bool {
    r matches APICommand::OpenWindowResponse(resp) && resp.app_id == src && resp.window_id == winid
        && resp.window_type == ow.window_type && resp.window_title == ow.window_title && resp.bounds
        == ow.bounds
}

/// What the router sends for a message that does not touch the state.
pub open spec fn forwarded(msg: IncomingMessage, out: Seq<Outgoing>) -> bool {
    let src = msg.source;
    match msg.command {
        APICommand::Debug(DebugMessage::HelloDebugger) => out == seq![
            Outgoing::ToDebugger(DebugMessage::HelloDebuggerResponse),
        ],
        APICommand::Debug(DebugMessage::FakeMouseEvent(evt)) => out == seq![
            Outgoing::ToAllWm(APICommand::MouseDown(evt)),
        ],
        APICommand::Debug(DebugMessage::BackgroundReceivedMouseEvent) => out == seq![
            Outgoing::ToDebugger(DebugMessage::BackgroundReceivedMouseEvent),
        ],
        APICommand::Debug(DebugMessage::WindowFocusChanged(t)) => out == seq![
            Outgoing::ToDebugger(DebugMessage::WindowFocusChanged(t)),
        ],
        APICommand::Debug(DebugMessage::AppLog(t)) => out == seq![
            Outgoing::ToDebugger(DebugMessage::AppLog(t)),
        ],
        APICommand::Debug(DebugMessage::ScreenCapture(rect, t)) => out == seq![
            Outgoing::ToAllWm(APICommand::Debug(DebugMessage::ScreenCapture(rect, t))),
        ],
        APICommand::Debug(DebugMessage::ScreenCaptureResponse()) => out == seq![
            Outgoing::ToDebugger(DebugMessage::ScreenCaptureResponse()),
        ],
        APICommand::Debug(DebugMessage::RequestServerShutdown) => out == seq![
            Outgoing::ToAllWm(APICommand::SystemShutdown),
            Outgoing::ToAllApps(APICommand::SystemShutdown),
            Outgoing::Stop,
        ],
        APICommand::AppConnect(_) => out.len() == 3 && out[0] == Outgoing::ToApp(
            src,
            APICommand::AppConnectResponse(HelloAppResponse { app_id: src }),
        ) && out[1] == Outgoing::ToAllWm(
            APICommand::AppConnectResponse(HelloAppResponse { app_id: src }),
        ) && (out[2] matches Outgoing::ToDebugger(DebugMessage::AppConnected(t)) && is_note(t)),
        APICommand::AppDisconnected(dis) => out.len() == 2 && out[0] == Outgoing::ToAllWm(
            APICommand::AppDisconnected(dis),
        ) && (out[1] matches Outgoing::ToDebugger(DebugMessage::AppDisconnected(t)) && is_note(t)),
        APICommand::CloseWindowResponse(e) => out == seq![
            Outgoing::ToApp(e.app_id, APICommand::CloseWindowResponse(e)),
        ],
        APICommand::WindowResized(e) => out == seq![
            Outgoing::ToApp(e.app_id, APICommand::WindowResized(e)),
        ],
        APICommand::WMConnect(_) => out == seq![
            Outgoing::ToWm(
                src,
                APICommand::WMConnectResponse(HelloWindowManagerResponse { wm_id: src }),
                msg.trace,
            ),
            Outgoing::ToDebugger(DebugMessage::WindowManagerConnected),
        ],
        APICommand::DrawRectCommand(c) => out == seq![
            Outgoing::ToAllWm(APICommand::DrawRectCommand(c)),
        ],
        APICommand::DrawImageCommand(c) => out == seq![
            Outgoing::ToAllWm(APICommand::DrawImageCommand(c)),
        ],
        APICommand::DBQueryResponse(c) => out == seq![
            Outgoing::ToApp(c.app_id, APICommand::DBQueryResponse(c)),
        ],
        APICommand::DBAddResponse(c) => out == seq![
            Outgoing::ToApp(c.app_id, APICommand::DBAddResponse(c)),
        ],
        APICommand::DBUpdateResponse(c) => out == seq![
            Outgoing::ToApp(c.app_id, APICommand::DBUpdateResponse(c)),
        ],
        APICommand::DBDeleteResponse(c) => out == seq![
            Outgoing::ToApp(c.app_id, APICommand::DBDeleteResponse(c)),
        ],
        APICommand::AudioPlayTrackRequest(_) => out == Seq::<Outgoing>::empty(),
        APICommand::AudioPauseTrackRequest(req) => out == seq![
            Outgoing::ToApp(
                req.app_id,
                APICommand::AudioPauseTrackResponse(
                    AudioPauseTrackResponse { app_id: req.app_id, success: true, track: req.track },
                ),
            ),
        ],
        APICommand::AudioPlayTrackResponse(c) => out == seq![
            Outgoing::ToApp(c.app_id, APICommand::AudioPlayTrackResponse(c)),
        ],
        APICommand::AudioPauseTrackResponse(c) => out == seq![
            Outgoing::ToApp(c.app_id, APICommand::AudioPauseTrackResponse(c)),
        ],
        APICommand::KeyDown(e) => out == seq![Outgoing::ToApp(e.app_id, APICommand::KeyDown(e))],
        APICommand::KeyUp(e) => out == seq![Outgoing::ToApp(e.app_id, APICommand::KeyUp(e))],
        APICommand::MouseDown(e) => out == seq![
            Outgoing::ToAppFrom(
                e.app_id,
                APICommand::MouseDown(e),
                msg.source,
                msg.trace,
                msg.timestamp_usec,
            ),
        ],
        APICommand::MouseUp(e) => out == seq![Outgoing::ToApp(e.app_id, APICommand::MouseUp(e))],
        _ => out == seq![Outgoing::Unhandled],
    }
}

/// Whether a message goes to the database or opens a window.
pub open spec fn changes_state(cmd: APICommand) -> bool {
    cmd is DBQueryRequest || cmd is DBAddRequest || cmd is DBUpdateRequest || cmd is DBDeleteRequest
        || cmd is OpenWindowCommand
}

/// Decides what the central server does with one incoming message: the
/// messages to send, in order, and the changes to its state. Database
/// requests are answered to the requesting application; opening a window
/// records it and tells the application, every window manager and the
/// debuggers.
pub fn route(state: &mut CentralState, msg: IncomingMessage) -> (out: Vec<Outgoing>)
    requires
        msg.command is OpenWindowCommand ==> old(state).has_app(msg.source),
    ensures
        !changes_state(msg.command) ==> forwarded(msg, out@) && final(state).apps@ == old(state).apps@
            && final(state).db@ == old(state).db@,
        msg.command matches APICommand::KeyDown(e) ==> out@ == seq![
            Outgoing::ToApp(e.app_id, APICommand::KeyDown(e)),
        ],
        msg.command matches APICommand::KeyUp(e) ==> out@ == seq![Outgoing::ToApp(e.app_id, APICommand::KeyUp(e))],
        msg.command matches APICommand::MouseUp(e) ==> out@ == seq![
            Outgoing::ToApp(e.app_id, APICommand::MouseUp(e)),
        ],
        final(state).wms@ == old(state).wms@,
        final(state).debuggers@ == old(state).debuggers@,
        final(state).db.base_path == old(state).db.base_path,
        final(state).db.save_path == old(state).db.save_path,
        msg.command is DBQueryRequest || msg.command is DBAddRequest || msg.command is DBUpdateRequest
            || msg.command is DBDeleteRequest ==> final(state).apps@ == old(state).apps@ && exists|
            r: Option<(u128, APICommand)>,
        |
            db_outcome(old(state).db@, final(state).db@, msg.command, r) && #[trigger] r.is_some()
                && out@ == seq![Outgoing::ToApp(r.unwrap().0, r.unwrap().1)],
        msg.command matches APICommand::OpenWindowCommand(ow) ==> final(state).db@ == old(state).db@
            && final(state).apps@.len() == old(state).apps@.len() && exists|i: int, winid: u128|
            first_app_record(old(state).apps@, msg.source, i) && (forall|j: int|
                0 <= j < old(state).apps@.len() && j != i ==> final(state).apps@[j] == old(state).apps@[j])
                && final(state).apps@[i].id == msg.source && final(state).apps@[i].windows@ == old(
                state,
            ).apps@[i].windows@.push(
                WindowRecord { id: winid, bounds: ow.bounds, title: ow.window_title },
            ) && out@.len() == 3 && (out@[0] matches Outgoing::ToApp(to, r) && to == msg.source
                && open_response(msg.source, ow, winid, r)) && (out@[1] matches Outgoing::ToAllWm(r)
                && open_response(msg.source, ow, winid, r)) && (out@[2] matches Outgoing::ToDebugger(
                DebugMessage::WindowOpened(t),
            ) && is_note(t)),
{
    let src = msg.source;
    let trace = msg.trace;
    let stamp = msg.timestamp_usec;
    let ghost m = msg;
    let mut out: Vec<Outgoing> = Vec::new();
    match msg.command {
        APICommand::Debug(DebugMessage::HelloDebugger) => {
            out.push(Outgoing::ToDebugger(DebugMessage::HelloDebuggerResponse));
        },
        APICommand::Debug(DebugMessage::FakeMouseEvent(evt)) => {
            out.push(Outgoing::ToAllWm(APICommand::MouseDown(evt)));
        },
        APICommand::Debug(DebugMessage::BackgroundReceivedMouseEvent) => {
            out.push(Outgoing::ToDebugger(DebugMessage::BackgroundReceivedMouseEvent));
        },
        APICommand::Debug(DebugMessage::WindowFocusChanged(t)) => {
            out.push(Outgoing::ToDebugger(DebugMessage::WindowFocusChanged(t)));
        },
        APICommand::Debug(DebugMessage::AppLog(t)) => {
            out.push(Outgoing::ToDebugger(DebugMessage::AppLog(t)));
        },
        APICommand::Debug(DebugMessage::ScreenCapture(rect, t)) => {
            out.push(Outgoing::ToAllWm(APICommand::Debug(DebugMessage::ScreenCapture(rect, t))));
        },
        APICommand::Debug(DebugMessage::ScreenCaptureResponse()) => {
            out.push(Outgoing::ToDebugger(DebugMessage::ScreenCaptureResponse()));
        },
        APICommand::Debug(DebugMessage::RequestServerShutdown) => {
            out.push(Outgoing::ToAllWm(APICommand::SystemShutdown));
            out.push(Outgoing::ToAllApps(APICommand::SystemShutdown));
            out.push(Outgoing::Stop);
            assert(out@ =~= seq![
                Outgoing::ToAllWm(APICommand::SystemShutdown),
                Outgoing::ToAllApps(APICommand::SystemShutdown),
                Outgoing::Stop,
            ]);
        },
        APICommand::AppConnect(_) => {
            out.push(Outgoing::ToApp(src, APICommand::AppConnectResponse(HelloAppResponse { app_id: src })));
            out.push(Outgoing::ToAllWm(APICommand::AppConnectResponse(HelloAppResponse { app_id: src })));
            out.push(Outgoing::ToDebugger(DebugMessage::AppConnected(crate::db::owned("foo"))));
        },
        APICommand::AppDisconnected(dis) => {
            out.push(Outgoing::ToAllWm(APICommand::AppDisconnected(dis)));
            out.push(Outgoing::ToDebugger(DebugMessage::AppDisconnected(crate::db::owned("foo"))));
        },
        APICommand::OpenWindowCommand(ow) => {
            let winid = state.add_window_to_app(src, &ow);
            let resp1 = OpenWindowResponse {
                app_id: src,
                window_id: winid,
                window_type: ow.window_type.clone(),
                bounds: ow.bounds,
                window_title: ow.window_title.clone(),
            };
            let resp2 = OpenWindowResponse {
                app_id: src,
                window_id: winid,
                window_type: ow.window_type,
                bounds: ow.bounds,
                window_title: ow.window_title,
            };
            out.push(Outgoing::ToApp(src, APICommand::OpenWindowResponse(resp1)));
            out.push(Outgoing::ToAllWm(APICommand::OpenWindowResponse(resp2)));
            out.push(Outgoing::ToDebugger(DebugMessage::WindowOpened(crate::db::owned("foo"))));
        },
        APICommand::CloseWindowResponse(e) => {
            out.push(Outgoing::ToApp(e.app_id, APICommand::CloseWindowResponse(e)));
        },
        APICommand::WindowResized(e) => {
            out.push(Outgoing::ToApp(e.app_id, APICommand::WindowResized(e)));
        },
        APICommand::WMConnect(_) => {
            out.push(
                Outgoing::ToWm(
                    src,
                    APICommand::WMConnectResponse(HelloWindowManagerResponse { wm_id: src }),
                    trace,
                ),
            );
            out.push(Outgoing::ToDebugger(DebugMessage::WindowManagerConnected));
            assert(out@ =~= seq![
                Outgoing::ToWm(
                    src,
                    APICommand::WMConnectResponse(HelloWindowManagerResponse { wm_id: src }),
                    trace,
                ),
                Outgoing::ToDebugger(DebugMessage::WindowManagerConnected),
            ]);
        },
        APICommand::DrawRectCommand(c) => {
            out.push(Outgoing::ToAllWm(APICommand::DrawRectCommand(c)));
        },
        APICommand::DrawImageCommand(c) => {
            out.push(Outgoing::ToAllWm(APICommand::DrawImageCommand(c)));
        },
        APICommand::DBQueryRequest(c) => {
            let r = database_response(&mut state.db, APICommand::DBQueryRequest(c));
            if let Some((to, resp)) = r {
                out.push(Outgoing::ToApp(to, resp));
            }
        },
        APICommand::DBAddRequest(c) => {
            let r = database_response(&mut state.db, APICommand::DBAddRequest(c));
            if let Some((to, resp)) = r {
                out.push(Outgoing::ToApp(to, resp));
            }
        },
        APICommand::DBUpdateRequest(c) => {
            let r = database_response(&mut state.db, APICommand::DBUpdateRequest(c));
            if let Some((to, resp)) = r {
                out.push(Outgoing::ToApp(to, resp));
            }
        },
        APICommand::DBDeleteRequest(c) => {
            let r = database_response(&mut state.db, APICommand::DBDeleteRequest(c));
            if let Some((to, resp)) = r {
                out.push(Outgoing::ToApp(to, resp));
            }
        },
        APICommand::DBQueryResponse(c) => {
            out.push(Outgoing::ToApp(c.app_id, APICommand::DBQueryResponse(c)));
        },
        APICommand::DBAddResponse(c) => {
            out.push(Outgoing::ToApp(c.app_id, APICommand::DBAddResponse(c)));
        },
        APICommand::DBUpdateResponse(c) => {
            out.push(Outgoing::ToApp(c.app_id, APICommand::DBUpdateResponse(c)));
        },
        APICommand::DBDeleteResponse(c) => {
            out.push(Outgoing::ToApp(c.app_id, APICommand::DBDeleteResponse(c)));
        },
        APICommand::AudioPlayTrackRequest(c) => {
            if let Some((to, resp)) = audio_response(APICommand::AudioPlayTrackRequest(c)) {
                out.push(Outgoing::ToApp(to, resp));
            }
        },
        APICommand::AudioPauseTrackRequest(c) => {
            if let Some((to, resp)) = audio_response(APICommand::AudioPauseTrackRequest(c)) {
                out.push(Outgoing::ToApp(to, resp));
            }
        },
        APICommand::AudioPlayTrackResponse(c) => {
            out.push(Outgoing::ToApp(c.app_id, APICommand::AudioPlayTrackResponse(c)));
        },
        APICommand::AudioPauseTrackResponse(c) => {
            out.push(Outgoing::ToApp(c.app_id, APICommand::AudioPauseTrackResponse(c)));
        },
        APICommand::KeyDown(e) => {
            out.push(Outgoing::ToApp(e.app_id, APICommand::KeyDown(e)));
        },
        APICommand::KeyUp(e) => {
            out.push(Outgoing::ToApp(e.app_id, APICommand::KeyUp(e)));
        },
        APICommand::MouseDown(e) => {
            out.push(Outgoing::ToAppFrom(e.app_id, APICommand::MouseDown(e), src, trace, stamp));
        },
        APICommand::MouseUp(e) => {
            out.push(Outgoing::ToApp(e.app_id, APICommand::MouseUp(e)));
        },
        _ => {
            out.push(Outgoing::Unhandled);
        },
    }
    out
}

/// An input event (a key pressed or released, a mouse button pressed or
/// released) goes to the application it names and to no one else: one
/// message, to that application, carrying the event unchanged; a press
/// also keeps the sender, trace flag and time of the incoming message.
pub proof fn lemma_input_goes_to_its_app(msg: IncomingMessage, out: Seq<Outgoing>)
    requires
        forwarded(msg, out),
    ensures
        msg.command matches APICommand::KeyDown(e) ==> out.len() == 1 && out[0] == Outgoing::ToApp(
            e.app_id,
            APICommand::KeyDown(e),
        ),
        msg.command matches APICommand::KeyUp(e) ==> out.len() == 1 && out[0] == Outgoing::ToApp(
            e.app_id,
            APICommand::KeyUp(e),
        ),
        msg.command matches APICommand::MouseUp(e) ==> out.len() == 1 && out[0] == Outgoing::ToApp(
            e.app_id,
            APICommand::MouseUp(e),
        ),
        msg.command matches APICommand::MouseDown(e) ==> out.len() == 1 && out[0] == Outgoing::ToAppFrom(
            e.app_id,
            APICommand::MouseDown(e),
            msg.source,
            msg.trace,
            msg.timestamp_usec,
        ),
        msg.command is KeyDown || msg.command is KeyUp || msg.command is MouseUp || msg.command is MouseDown
            ==> forall|i: int| 0 <= i < out.len() ==> !(#[trigger] out[i] is ToAllApps) && !(out[i] is ToAllWm),
{
}

/// Drawing commands go to every window manager and nowhere else; the
/// answers of the database and the window events go to the application
/// named in them and nowhere else; a shutdown request tells every window
/// manager and every application to shut down and then stops the server.
pub proof fn lemma_forwarded_recipients(msg: IncomingMessage, out: Seq<Outgoing>)
    requires
        forwarded(msg, out),
    ensures
        msg.command matches APICommand::DrawRectCommand(c) ==> out == seq![
            Outgoing::ToAllWm(APICommand::DrawRectCommand(c)),
        ],
        msg.command matches APICommand::DrawImageCommand(c) ==> out == seq![
            Outgoing::ToAllWm(APICommand::DrawImageCommand(c)),
        ],
        msg.command matches APICommand::DBQueryResponse(c) ==> out.len() == 1 && (out[0] matches Outgoing::ToApp(
            to,
            r,
        ) && to == c.app_id && r == APICommand::DBQueryResponse(c)),
        msg.command matches APICommand::DBAddResponse(c) ==> out.len() == 1 && (out[0] matches Outgoing::ToApp(
            to,
            r,
        ) && to == c.app_id && r == APICommand::DBAddResponse(c)),
        msg.command matches APICommand::DBUpdateResponse(c) ==> out.len() == 1 && (out[0] matches Outgoing::ToApp(
            to,
            r,
        ) && to == c.app_id && r == APICommand::DBUpdateResponse(c)),
        msg.command matches APICommand::DBDeleteResponse(c) ==> out.len() == 1 && (out[0] matches Outgoing::ToApp(
            to,
            r,
        ) && to == c.app_id && r == APICommand::DBDeleteResponse(c)),
        msg.command matches APICommand::WindowResized(e) ==> out.len() == 1 && (out[0] matches Outgoing::ToApp(
            to,
            r,
        ) && to == e.app_id && r == APICommand::WindowResized(e)),
        msg.command matches APICommand::CloseWindowResponse(e) ==> out.len() == 1 && (out[0] matches Outgoing::ToApp(
            to,
            r,
        ) && to == e.app_id && r == APICommand::CloseWindowResponse(e)),
        msg.command == APICommand::Debug(DebugMessage::RequestServerShutdown) ==> out.len() == 3 && out[0]
            == Outgoing::ToAllWm(APICommand::SystemShutdown) && out[1] == Outgoing::ToAllApps(
            APICommand::SystemShutdown,
        ) && out[2] is Stop,
{
}

} // verus!
