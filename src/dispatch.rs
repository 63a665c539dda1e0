//! Correlation of outbound peer requests with the local callers waiting for
//! them: a table of parked waiters keyed by request id, and the decision of
//! what each response or failure means for its waiter.
use vstd::prelude::*;
use vstd::string::StringExecFns;
use std::collections::HashMap;

verus! {

broadcast use vstd::std_specs::hash::group_hash_axioms;

/// Kind of a peer response.
#[derive(Debug, Clone, Copy, PartialEq, Eq, Structural)]
pub enum ResponseKind {
    DirEntries,
    FileStat,
    FileChunk,
    WriteAck,
    Cpus,
    Disks,
    Interfaces,
    FileEntries,
    Permissions,
    AccessGranted,
    UserCreated,
    ScanStarted,
    ScanEventAck,
    Thumbnail,
    UpdateStarted,
    UpdateEventAck,
    ShellStarted,
    ShellOutput,
    ShellExited,
}

/// What a response says, as far as the waiter needs it.
#[derive(Debug)]
pub enum Response {
    /// The server refused or failed the request.
    Error(String),
    /// Answer to a remote scan start.
    ScanStarted(Result<(), String>),
    /// Answer to a remote update start.
    UpdateStarted(Result<(), String>),
    /// Any other response, by kind; its payload stays with the caller.
    Other(ResponseKind),
}

/// A parked caller.
#[derive(Debug, Clone, Copy, PartialEq, Eq, Structural)]
pub enum Waiter {
    /// A caller waiting for a reply of kind `expects` on its channel `key`.
    Reply { key: u64, expects: ResponseKind },
    /// The start of a remote scan whose events feed the local stream `scan_id`.
    RemoteScanStart { scan_id: u64 },
    /// Delivery of one scan event to the peer that asked for the scan.
    ScanEventAck,
    /// The start of a remote update whose events feed the stream `update_id`.
    RemoteUpdateStart { update_id: u64 },
    /// Delivery of one update event to the peer that asked for the update.
    UpdateEventAck,
}

/// What to do once a waiter's request has been answered or has failed.
#[derive(Debug)]
pub enum Outcome {
    /// Hand the response's payload to channel `key`.
    Deliver { key: u64 },
    /// Fail channel `key` with `message`.
    Fail { key: u64, message: String },
    /// Close the local scan stream `scan_id` with a terminal error.
    EndScan { scan_id: u64, error: String },
    /// Close the local update stream `update_id` with a terminal error.
    EndUpdate { update_id: u64, error: String },
    /// Nothing waits for this answer.
    Ignore,
}

/// A waiter expecting `expects` takes a response of kind `kind`: the shell
/// output waiter also takes the exit notice.
pub open spec fn accepts(expects: ResponseKind, kind: ResponseKind) -> bool {
    kind == expects || (expects == ResponseKind::ShellOutput && kind == ResponseKind::ShellExited)
}

pub fn accepts_kind(expects: ResponseKind, kind: ResponseKind) -> (r: bool)
    ensures
        r == accepts(expects, kind),
{
    kind == expects || (expects == ResponseKind::ShellOutput && kind == ResponseKind::ShellExited)
}

/// Kind of a response that is not an error.
pub open spec fn kind_of(res: Response) -> Option<ResponseKind> {
    match res {
        Response::Error(_) => None,
        Response::ScanStarted(_) => Some(ResponseKind::ScanStarted),
        Response::UpdateStarted(_) => Some(ResponseKind::UpdateStarted),
        Response::Other(k) => Some(k),
    }
}

pub const UNEXPECTED_RESPONSE: &'static str = "unexpected response: ";

/// Name of a response kind, as it appears in messages.
pub open spec fn kind_label(k: ResponseKind) -> Seq<char> {
    match k {
        ResponseKind::DirEntries => "DirEntries"@,
        ResponseKind::FileStat => "FileStat"@,
        ResponseKind::FileChunk => "FileChunk"@,
        ResponseKind::WriteAck => "WriteAck"@,
        ResponseKind::Cpus => "Cpus"@,
        ResponseKind::Disks => "Disks"@,
        ResponseKind::Interfaces => "Interfaces"@,
        ResponseKind::FileEntries => "FileEntries"@,
        ResponseKind::Permissions => "Permissions"@,
        ResponseKind::AccessGranted => "AccessGranted"@,
        ResponseKind::UserCreated => "UserCreated"@,
        ResponseKind::ScanStarted => "ScanStarted"@,
        ResponseKind::ScanEventAck => "ScanEventAck"@,
        ResponseKind::Thumbnail => "Thumbnail"@,
        ResponseKind::UpdateStarted => "UpdateStarted"@,
        ResponseKind::UpdateEventAck => "UpdateEventAck"@,
        ResponseKind::ShellStarted => "ShellStarted"@,
        ResponseKind::ShellOutput => "ShellOutput"@,
        ResponseKind::ShellExited => "ShellExited"@,
    }
}

/// Name of a response kind.
pub fn kind_name(k: ResponseKind) -> (r: &'static str)
    ensures
        r@ == kind_label(k),
{
    match k {
        ResponseKind::DirEntries => "DirEntries",
        ResponseKind::FileStat => "FileStat",
        ResponseKind::FileChunk => "FileChunk",
        ResponseKind::WriteAck => "WriteAck",
        ResponseKind::Cpus => "Cpus",
        ResponseKind::Disks => "Disks",
        ResponseKind::Interfaces => "Interfaces",
        ResponseKind::FileEntries => "FileEntries",
        ResponseKind::Permissions => "Permissions",
        ResponseKind::AccessGranted => "AccessGranted",
        ResponseKind::UserCreated => "UserCreated",
        ResponseKind::ScanStarted => "ScanStarted",
        ResponseKind::ScanEventAck => "ScanEventAck",
        ResponseKind::Thumbnail => "Thumbnail",
        ResponseKind::UpdateStarted => "UpdateStarted",
        ResponseKind::UpdateEventAck => "UpdateEventAck",
        ResponseKind::ShellStarted => "ShellStarted",
        ResponseKind::ShellOutput => "ShellOutput",
        ResponseKind::ShellExited => "ShellExited",
    }
}



pub const REQUEST_FAILED: &'static str = "request failed: ";

pub const REPLACED: &'static str = "pending request was replaced";

/// The outcome that fails waiter `w` with `message`.
pub open spec fn failure(w: Waiter, message: Seq<char>) -> Option<(u64, Seq<char>)> {
    match w {
        Waiter::Reply { key, .. } => Some((key, message)),
        _ => None,
    }
}

/// `o` fails waiter `w` with `message` (or ignores it, for an ack).
pub open spec fn fails_with(w: Waiter, o: Outcome, message: Seq<char>) -> bool {
    match w {
        Waiter::Reply { key, .. } => o is Fail && o->Fail_key == key && o->Fail_message@ == message,
        Waiter::RemoteScanStart { scan_id } => o is EndScan && o->EndScan_scan_id == scan_id
            && o->EndScan_error@ == message,
        Waiter::RemoteUpdateStart { update_id } => o is EndUpdate && o->EndUpdate_update_id
            == update_id && o->EndUpdate_error@ == message,
        Waiter::ScanEventAck | Waiter::UpdateEventAck => o is Ignore,
    }
}

/// Fails waiter `w` with `message`.
pub fn fail_waiter(w: Waiter, message: String) -> (r: Outcome)
    ensures
        fails_with(w, r, message@),
{
    match w {
        Waiter::Reply { key, .. } => Outcome::Fail { key, message },
        Waiter::RemoteScanStart { scan_id } => Outcome::EndScan { scan_id, error: message },
        Waiter::RemoteUpdateStart { update_id } => Outcome::EndUpdate { update_id, error: message },
        Waiter::ScanEventAck | Waiter::UpdateEventAck => Outcome::Ignore,
    }
}

/// What a response means for the waiter that asked for it: an error
/// response fails a reply waiter with its text, a response of another
/// kind with "unexpected response: " and the kind's name; a refused
/// remote start closes its stream; acks need nothing.
pub open spec fn completes_with(w: Waiter, res: Response, o: Outcome) -> bool {
    match w {
        Waiter::Reply { key, expects } => match res {
            Response::Error(msg) => o is Fail && o->Fail_key == key && o->Fail_message@ == msg@,
            _ => if accepts(expects, kind_of(res)->Some_0) {
                o == (Outcome::Deliver { key })
            } else {
                o is Fail && o->Fail_key == key && o->Fail_message@ == UNEXPECTED_RESPONSE@ + kind_label(
                    kind_of(res)->Some_0,
                )
            },
        },
        Waiter::RemoteScanStart { scan_id } => match res {
            Response::ScanStarted(Err(e)) => o is EndScan && o->EndScan_scan_id == scan_id
                && o->EndScan_error@ == e@,
            _ => o is Ignore,
        },
        Waiter::RemoteUpdateStart { update_id } => match res {
            Response::UpdateStarted(Err(e)) => o is EndUpdate && o->EndUpdate_update_id == update_id
                && o->EndUpdate_error@ == e@,
            _ => o is Ignore,
        },
        Waiter::ScanEventAck | Waiter::UpdateEventAck => o is Ignore,
    }
}

/// Decides what response `res` means for waiter `w`.
pub fn complete_waiter(w: Waiter, res: Response) -> (r: Outcome)
    ensures
        completes_with(w, res, r),
{
    match w {
        Waiter::Reply { key, expects } => {
            let kind = match res {
                Response::Error(msg) => {
                    return Outcome::Fail { key, message: msg };
                },
                Response::ScanStarted(_) => ResponseKind::ScanStarted,
                Response::UpdateStarted(_) => ResponseKind::UpdateStarted,
                Response::Other(k) => k,
            };
            if accepts_kind(expects, kind) {
                Outcome::Deliver { key }
            } else {
                Outcome::Fail {
                    key,
                    message: String::from_str(UNEXPECTED_RESPONSE).concat(kind_name(kind)),
                }
            }
        },
        Waiter::RemoteScanStart { scan_id } => match res {
            Response::ScanStarted(Err(e)) => Outcome::EndScan { scan_id, error: e },
            _ => Outcome::Ignore,
        },
        Waiter::RemoteUpdateStart { update_id } => match res {
            Response::UpdateStarted(Err(e)) => Outcome::EndUpdate { update_id, error: e },
            _ => Outcome::Ignore,
        },
        Waiter::ScanEventAck | Waiter::UpdateEventAck => Outcome::Ignore,
    }
}

/// The in-flight requests of a node, keyed by transport request id.
pub struct PendingRequests {
    waiters: HashMap<u64, Waiter>,
}

impl View for PendingRequests {
    type V = Map<u64, Waiter>;

    closed spec fn view(&self) -> Map<u64, Waiter> {
        self.waiters@
    }
}

impl PendingRequests {
    pub fn new() -> (r: PendingRequests)
        ensures
            r@ == Map::<u64, Waiter>::empty(),
    {
        PendingRequests { waiters: HashMap::new() }
    }

    /// Number of parked waiters.
    pub fn len(&self) -> (r: usize)
        ensures
            r == self@.len(),
    {
        self.waiters.len()
    }

    /// Parks `w` under request id `id`. A waiter already parked under the
    /// same id is taken out and failed as replaced.
    pub fn park(&mut self, id: u64, w: Waiter) -> (r: Option<Outcome>)
        ensures
            final(self)@ == old(self)@.insert(id, w),
            !old(self)@.contains_key(id) ==> r is None,
            old(self)@.contains_key(id) ==> r is Some && fails_with(
                old(self)@[id],
                r->Some_0,
                REPLACED@,
            ),
    {
        match self.waiters.insert(id, w) {
            None => None,
            Some(prev) => Some(fail_waiter(prev, String::from_str(REPLACED))),
        }
    }

    /// Takes out the waiter parked under `id`, if any.
    fn take(&mut self, id: u64) -> (r: Option<Waiter>)
        ensures
            final(self)@ == old(self)@.remove(id),
            old(self)@.contains_key(id) ==> r == Some(old(self)@[id]),
            !old(self)@.contains_key(id) ==> r is None,
    {
        self.waiters.remove(&id)
    }

    /// A response arrived for request `id`: its waiter leaves the table and
    /// learns what the response means for it. An unknown id changes nothing.
    pub fn on_response(&mut self, id: u64, res: Response) -> (r: Option<Outcome>)
        ensures
            final(self)@ == old(self)@.remove(id),
            !old(self)@.contains_key(id) ==> r is None,
            old(self)@.contains_key(id) ==> r is Some && completes_with(
                old(self)@[id],
                res,
                r->Some_0,
            ),
    {
        match self.take(id) {
            None => None,
            Some(w) => Some(complete_waiter(w, res)),
        }
    }

    /// Request `id` failed in the transport: its waiter leaves the table and
    /// fails with "request failed: " and the cause.
    pub fn on_failure(&mut self, id: u64, cause: &str) -> (r: Option<Outcome>)
        ensures
            final(self)@ == old(self)@.remove(id),
            !old(self)@.contains_key(id) ==> r is None,
            old(self)@.contains_key(id) ==> r is Some && fails_with(
                old(self)@[id],
                r->Some_0,
                REQUEST_FAILED@ + cause@,
            ),
    {
        match self.take(id) {
            None => None,
            Some(w) => {
                let message = String::from_str(REQUEST_FAILED).concat(cause);
                Some(fail_waiter(w, message))
            },
        }
    }
}

/// Every parked caller hears back exactly once: whatever its request id
/// receives (a response or a transport failure) takes its waiter out of the
/// table, and a reply waiter is then either delivered to or failed on its
/// own channel.
pub proof fn lemma_waiter_answered_once(
    before: Map<u64, Waiter>,
    id: u64,
    res: Response,
    o: Outcome,
)
    requires
        before.contains_key(id),
        before[id] is Reply,
        completes_with(before[id], res, o),
    ensures
        !before.remove(id).contains_key(id),
        o == (Outcome::Deliver { key: before[id]->Reply_key }) || (o is Fail && o->Fail_key
            == before[id]->Reply_key),
{
}

/// A transport failure of a parked request also answers its caller: the
/// waiter leaves the table and its channel is failed with the message.
pub proof fn lemma_waiter_failed_once(
    before: Map<u64, Waiter>,
    id: u64,
    message: Seq<char>,
    o: Outcome,
)
    requires
        before.contains_key(id),
        before[id] is Reply,
        fails_with(before[id], o, message),
    ensures
        !before.remove(id).contains_key(id),
        o is Fail && o->Fail_key == before[id]->Reply_key && o->Fail_message@ == message,
{
}

/// The table after the loop handled, in order, one response or transport
/// failure for each request id of `ids` (each handling takes the id out,
/// as `on_response` and `on_failure` do).
pub open spec fn after_events(table: Map<u64, Waiter>, ids: Seq<u64>) -> Map<u64, Waiter>
    decreases ids.len(),
{
    if ids.len() == 0 {
        table
    } else {
        after_events(table.remove(ids[0]), ids.drop_first())
    }
}

proof fn lemma_untouched(table: Map<u64, Waiter>, ids: Seq<u64>, id: u64)
    requires
        table.contains_key(id),
        forall|j: int| 0 <= j < ids.len() ==> ids[j] != id,
    ensures
        after_events(table, ids).contains_key(id),
        after_events(table, ids)[id] == table[id],
    decreases ids.len(),
{
    if ids.len() > 0 {
        assert forall|j: int| 0 <= j < ids.drop_first().len() implies ids.drop_first()[j] != id by {
            assert(ids.drop_first()[j] == ids[j + 1]);
        }
        lemma_untouched(table.remove(ids[0]), ids.drop_first(), id);
    }
}

proof fn lemma_gone(table: Map<u64, Waiter>, ids: Seq<u64>, id: u64)
    requires
        !table.contains_key(id),
    ensures
        !after_events(table, ids).contains_key(id),
    decreases ids.len(),
{
    if ids.len() > 0 {
        lemma_gone(table.remove(ids[0]), ids.drop_first(), id);
    }
}

proof fn lemma_after_split(table: Map<u64, Waiter>, ids: Seq<u64>, s: int)
    requires
        0 <= s < ids.len(),
    ensures
        after_events(table, ids.take(s + 1)) == after_events(table, ids.take(s)).remove(ids[s]),
{
    assert(ids.take(s + 1) =~= ids.take(s).push(ids[s]));
    lemma_after_append(table, ids.take(s), ids[s]);
}

/// A command that goes to a remote peer parks its caller under the request
/// id that the transport gave it. As the loop handles the events that the
/// transport delivers, the caller is answered at the first response or
/// failure for that id, so within `s + 1` handled events when the first is
/// at position `s`: the waiter is still parked, unchanged, just before, and
/// gone just after. A command for the local node is answered at once.
pub proof fn lemma_parked_caller_answered(table: Map<u64, Waiter>, id: u64, ids: Seq<u64>, s: int)
    requires
        table.contains_key(id),
        0 <= s < ids.len(),
        ids[s] == id,
        forall|j: int| 0 <= j < s ==> ids[j] != id,
    ensures
        after_events(table, ids.take(s)).contains_key(id),
        after_events(table, ids.take(s))[id] == table[id],
        !after_events(table, ids.take(s + 1)).contains_key(id),
        forall|t: int| s < t <= ids.len() ==> !#[trigger] after_events(table, ids.take(t)).contains_key(id),
{
    assert forall|j: int| 0 <= j < ids.take(s).len() implies ids.take(s)[j] != id by {}
    lemma_untouched(table, ids.take(s), id);
    lemma_after_split(table, ids, s);
    assert forall|t: int| s < t <= ids.len() implies !#[trigger] after_events(table, ids.take(t)).contains_key(id) by {
        lemma_after_prefix(table, ids, s + 1, t);
        lemma_gone(after_events(table, ids.take(s + 1)), ids.subrange(s + 1, t), id);
    }
}

proof fn lemma_after_prefix(table: Map<u64, Waiter>, ids: Seq<u64>, a: int, b: int)
    requires
        0 <= a <= b <= ids.len(),
    ensures
        after_events(table, ids.take(b)) == after_events(after_events(table, ids.take(a)), ids.subrange(a, b)),
    decreases b - a,
{
    if a == b {
        assert(ids.subrange(a, b) =~= Seq::<u64>::empty());
    } else {
        lemma_after_prefix(table, ids, a, b - 1);
        lemma_after_split(table, ids, b - 1);
        lemma_after_append(after_events(table, ids.take(a)), ids.subrange(a, b - 1), ids[b - 1]);
        assert(ids.subrange(a, b - 1).push(ids[b - 1]) =~= ids.subrange(a, b));
    }
}

proof fn lemma_after_append(table: Map<u64, Waiter>, ids: Seq<u64>, x: u64)
    ensures
        after_events(table, ids.push(x)) == after_events(table, ids).remove(x),
    decreases ids.len(),
{
    if ids.len() == 0 {
        assert(ids.push(x).drop_first() =~= Seq::<u64>::empty());
        assert(ids.push(x)[0] == x);
        assert(after_events(table.remove(x), Seq::<u64>::empty()) == table.remove(x));
        assert(after_events(table, ids) == table);
    } else {
        assert(ids.push(x).drop_first() =~= ids.drop_first().push(x));
        assert(ids.push(x)[0] == ids[0]);
        lemma_after_append(table.remove(ids[0]), ids.drop_first(), x);
    }
}

} // verus!
