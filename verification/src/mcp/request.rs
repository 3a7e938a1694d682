//! The requests that the tools send to Frama-C.
//!
//! A tool says which requests it sends, in which order, and with which data. The
//! requests are sent one after the other; the first that fails ends the tool with
//! its error.

use vstd::prelude::*;

use crate::frama_c::client::Waiting;
use crate::frama_c::codec::{CommandView, FramaCCommand};
use crate::json;
use crate::json::{Json, JsonView};

verus! {

/// How a request is sent.
#[derive(Debug, Clone, Copy, PartialEq, Eq, Structural)]
pub enum Channel {
    /// Ask for a value.
    Get,
    /// Set a parameter.
    Assign,
    /// Run a computation, for at most so many seconds.
    Exec { secs: u64 },
    /// Ask for all entries of a table.
    FetchAll,
}

/// A request to Frama-C.
pub struct Request {
    pub channel: Channel,
    pub name: String,
    pub data: Json,
}

/// What a request is.
pub struct RequestView {
    pub channel: Channel,
    pub name: Seq<char>,
    pub data: JsonView,
}

impl View for Request {
    type V = RequestView;

    open spec fn view(&self) -> RequestView {
        RequestView { channel: self.channel, name: self.name@, data: self.data@ }
    }
}

/// What the requests of a list are.
pub open spec fn request_views(v: Seq<Request>) -> Seq<RequestView> {
    v.map_values(|r: Request| r@)
}

/// To ask for a value.
pub open spec fn to_get(name: Seq<char>, data: JsonView) -> RequestView {
    RequestView { channel: Channel::Get, name, data }
}

/// To set a parameter.
pub open spec fn to_assign(name: Seq<char>, data: JsonView) -> RequestView {
    RequestView { channel: Channel::Assign, name, data }
}

/// To run a computation.
pub open spec fn to_exec(name: Seq<char>, data: JsonView, secs: u64) -> RequestView {
    RequestView { channel: Channel::Exec { secs }, name, data }
}

/// To ask for all entries of a table. The request carries no data.
pub open spec fn to_fetch(name: Seq<char>) -> RequestView {
    RequestView { channel: Channel::FetchAll, name, data: JsonView::Null }
}

impl Request {
    /// A request for a value.
    pub fn get(name: &str, data: Json) -> (r: Request)
        ensures
            r@ == to_get(name@, data@),
    {
        Request { channel: Channel::Get, name: name.to_owned(), data }
    }

    /// A request to set a parameter.
    pub fn assign(name: &str, data: Json) -> (r: Request)
        ensures
            r@ == to_assign(name@, data@),
    {
        Request { channel: Channel::Assign, name: name.to_owned(), data }
    }

    /// A request to run a computation.
    pub fn exec(name: &str, data: Json, secs: u64) -> (r: Request)
        ensures
            r@ == to_exec(name@, data@, secs),
    {
        Request { channel: Channel::Exec { secs }, name: name.to_owned(), data }
    }

    /// A request for all entries of a table.
    pub fn fetch_all(name: &str) -> (r: Request)
        ensures
            r@ == to_fetch(name@),
    {
        Request { channel: Channel::FetchAll, name: name.to_owned(), data: Json::Null }
    }
}

/// How many entries of a table are asked for at a time.
pub const PAGE_SIZE: u64 = 20000;

/// The command that a request is sent as. A table is asked for page by page.
pub open spec fn command_of(r: RequestView, id: Seq<char>) -> CommandView {
    match r.channel {
        Channel::Get => CommandView::Get { id, request: r.name, data: r.data },
        Channel::Assign => CommandView::SetParam { id, request: r.name, data: r.data },
        Channel::Exec { .. } => CommandView::Exec { id, request: r.name, data: r.data },
        Channel::FetchAll => CommandView::Get {
            id,
            request: r.name,
            data: json::whole(PAGE_SIZE as int),
        },
    }
}

/// How many seconds a reply is waited for.
pub open spec fn time_limit(c: Channel) -> u64 {
    match c {
        Channel::Get | Channel::FetchAll => 10,
        Channel::Assign => 30,
        Channel::Exec { secs } => secs,
    }
}

/// How a reply is waited for: setting a parameter and running a computation are
/// queued by the server, and polled for.
pub open spec fn waiting_for(c: Channel) -> Waiting {
    match c {
        Channel::Get | Channel::FetchAll => Waiting::Direct,
        Channel::Assign | Channel::Exec { .. } => Waiting::BeforePolling,
    }
}

impl Request {
    /// The command that the request is sent as, under the given identifier.
    pub fn command(&self, id: &str) -> (r: FramaCCommand)
        ensures
            r@ == command_of(self@, id@),
    {
        let id = id.to_owned();
        let request = self.name.clone();
        match self.channel {
            Channel::Get => FramaCCommand::Get { id, request, data: self.data.clone() },
            Channel::Assign => FramaCCommand::SetParam { id, request, data: self.data.clone() },
            Channel::Exec { .. } => FramaCCommand::Exec { id, request, data: self.data.clone() },
            Channel::FetchAll => FramaCCommand::Get {
                id,
                request,
                data: Json::unsigned(PAGE_SIZE),
            },
        }
    }

    /// How many seconds a reply is waited for.
    pub fn time_limit_secs(&self) -> (r: u64)
        ensures
            r == time_limit(self.channel),
    {
        match self.channel {
            Channel::Get | Channel::FetchAll => 10,
            Channel::Assign => 30,
            Channel::Exec { secs } => secs,
        }
    }

    /// How a reply is waited for.
    pub fn waiting(&self) -> (r: Waiting)
        ensures
            r == waiting_for(self.channel),
    {
        match self.channel {
            Channel::Get | Channel::FetchAll => Waiting::Direct,
            Channel::Assign | Channel::Exec { .. } => Waiting::BeforePolling,
        }
    }
}

/// Adds a request at the end.
pub fn add_request(list: &mut Vec<Request>, r: Request)
    ensures
        request_views(final(list)@) == request_views(old(list)@).push(r@),
{
    list.push(r);
    assert(request_views(list@) =~= request_views(old(list)@).push(r@));
}

/// A table is read from its start: it is reloaded, then fetched.
pub open spec fn table_requests(reload: Seq<char>, fetch: Seq<char>) -> Seq<RequestView> {
    seq![to_get(reload, JsonView::Null), to_fetch(fetch)]
}

fn read_table(reload: &str, fetch: &str) -> (r: Vec<Request>)
    ensures
        request_views(r@) == table_requests(reload@, fetch@),
{
    let mut r: Vec<Request> = Vec::new();
    add_request(&mut r, Request::get(reload, Json::Null));
    add_request(&mut r, Request::fetch_all(fetch));
    assert(request_views(r@) =~= table_requests(reload@, fetch@));
    r
}

/// The requests for the functions of the program. The second reply holds them.
pub fn read_functions() -> (r: Vec<Request>)
    ensures
        request_views(r@) == table_requests(
            "kernel.ast.reloadFunctions"@,
            "kernel.ast.fetchFunctions"@,
        ),
{
    read_table("kernel.ast.reloadFunctions", "kernel.ast.fetchFunctions")
}

/// The requests for the global variables. The second reply holds them.
pub fn read_globals() -> (r: Vec<Request>)
    ensures
        request_views(r@) == table_requests(
            "kernel.ast.reloadGlobals"@,
            "kernel.ast.fetchGlobals"@,
        ),
{
    read_table("kernel.ast.reloadGlobals", "kernel.ast.fetchGlobals")
}

/// The requests for the properties and their status. The second reply holds them.
pub fn read_properties() -> (r: Vec<Request>)
    ensures
        request_views(r@) == table_requests(
            "kernel.properties.reloadStatus"@,
            "kernel.properties.fetchStatus"@,
        ),
{
    read_table("kernel.properties.reloadStatus", "kernel.properties.fetchStatus")
}

/// The requests for the proof goals. The second reply holds them.
pub fn read_goals() -> (r: Vec<Request>)
    ensures
        request_views(r@) == table_requests("plugins.wp.reloadGoals"@, "plugins.wp.fetchGoals"@),
{
    read_table("plugins.wp.reloadGoals", "plugins.wp.fetchGoals")
}

/// The requests for the call graph. The second reply holds it.
pub fn read_callgraph() -> (r: Vec<Request>)
    ensures
        request_views(r@) == seq![
            to_exec("plugins.callgraph.compute"@, JsonView::Null, 60),
            to_get("plugins.callgraph.getCallgraph"@, JsonView::Null),
        ],
{
    let mut r: Vec<Request> = Vec::new();
    add_request(&mut r, Request::exec("plugins.callgraph.compute", Json::Null, 60));
    add_request(&mut r, Request::get("plugins.callgraph.getCallgraph", Json::Null));
    assert(request_views(r@) =~= seq![
        to_exec("plugins.callgraph.compute"@, JsonView::Null, 60),
        to_get("plugins.callgraph.getCallgraph"@, JsonView::Null),
    ]);
    r
}

/// The requests that load the files into a running Frama-C: the old list is
/// emptied, the new one is set, and the program is computed.
pub fn reload_files_in_place(files: &[String]) -> (r: Vec<Request>)
    ensures
        request_views(r@) == seq![
            to_assign("kernel.ast.setFiles"@, json::text_list(Seq::empty())),
            to_assign("kernel.ast.setFiles"@, json::text_list(crate::text::texts(files@))),
            to_exec("kernel.ast.compute"@, JsonView::Null, 120),
        ],
{
    let mut r: Vec<Request> = Vec::new();
    let nothing: Vec<Json> = Vec::new();
    proof {
        assert(json::text_list(Seq::empty())->List_0 =~= json::json_views(nothing@));
    }
    add_request(&mut r, Request::assign("kernel.ast.setFiles", Json::list(nothing)));
    add_request(&mut r, Request::assign("kernel.ast.setFiles", Json::texts(files)));
    add_request(&mut r, Request::exec("kernel.ast.compute", Json::Null, 120));
    assert(request_views(r@) =~= seq![
        to_assign("kernel.ast.setFiles"@, json::text_list(Seq::empty())),
        to_assign("kernel.ast.setFiles"@, json::text_list(crate::text::texts(files@))),
        to_exec("kernel.ast.compute"@, JsonView::Null, 120),
    ]);
    r
}

} // verus!
