//! Sessions of a hub with spokes around it: their ids and permissions, the
//! requests of their editors, and what comes back.

use crate::number;
use crate::text;
use crate::types::ServerId;
use rand::Rng;
use vstd::prelude::*;
use vstd::string::*;

verus! {

// *** Ids and ports

/// The id of a host with a prefix.
pub fn create_test_id(prefix: &str) -> (r: ServerId)
    ensures
        r@ == prefix@,
{
    prefix.to_owned()
}

/// First port of the ephemeral range.
pub const FIRST_PORT: u16 = 49152;

/// Last port of the ephemeral range.
pub const LAST_PORT: u16 = 65535;

/// `Rng::gen_range` of `rand` draws a number from an inclusive range; which one
/// is left to chance.
#[verifier::external_body]
fn random_between(low: u16, high: u16) -> (r: u16)
    requires
        low <= high,
    ensures
        low <= r <= high,
{
    rand::thread_rng().gen_range(low..=high)
}

/// A port of the ephemeral range, left to chance.
pub fn get_random_port() -> (r: u16)
    ensures
        FIRST_PORT <= r <= LAST_PORT,
        49152 <= r,
{
    random_between(FIRST_PORT, LAST_PORT)
}

/// The address of a server on this machine.
pub fn local_addr(port: u16) -> (r: String)
    ensures
        r@ == "127.0.0.1:"@ + number::decimal(port as nat),
{
    text::concat("127.0.0.1:", number::decimal_text(port as u64).as_str())
}

/// The web socket address of a server.
pub fn signaling_url(addr: &str) -> (r: String)
    ensures
        r@ == "ws://"@ + addr@,
{
    text::concat("ws://", addr)
}

// *** Hub and spokes

/// What a host may do with another's files.
#[derive(Debug, Clone, Copy, PartialEq, Eq, Structural)]
pub struct Permission {
    /// Change them.
    pub write: bool,
    /// Add some.
    pub create: bool,
    /// Remove some.
    pub delete: bool,
}

/// Everything is allowed.
pub fn full_permission() -> (r: Permission)
    ensures
        r == (Permission { write: true, create: true, delete: true }),
{
    Permission { write: true, create: true, delete: true }
}

/// The id of the spoke with the number `i`, counted from zero.
pub open spec fn spoke_id(i: nat) -> Seq<char> {
    "spoke"@ + number::decimal(i + 1)
}

/// A hub and its spokes, with what each spoke may do on the hub. The hub may do
/// everything on every spoke.
pub struct HubAndSpokePlan {
    /// The id of the hub.
    pub hub_id: ServerId,
    /// The ids of the spokes.
    pub spoke_ids: Vec<ServerId>,
    /// What the spokes may do on the hub.
    pub spoke_permissions: Vec<Permission>,
    /// What the hub may do on a spoke.
    pub hub_permission: Permission,
}

/// The message for a list of permissions of the wrong length.
pub open spec fn permission_count_text(expected: nat, got: nat) -> Seq<char> {
    "spoke_permissions must have exactly "@ + number::decimal(expected) + " entries, got "@
        + number::decimal(got)
}

/// Plans a hub with spokes. Permissions that are given have to be as many as
/// there are spokes; without them every spoke may do everything.
pub fn setup_hub_and_spoke_servers(
    num_spokes: usize,
    spoke_permissions: Option<&[Permission]>,
) -> (r: Result<HubAndSpokePlan, String>)
    ensures
        match r {
            Ok(plan) => {
                &&& plan.hub_id@ == "hub"@
                &&& plan.hub_permission == (Permission { write: true, create: true, delete: true })
                &&& plan.spoke_ids@.len() == num_spokes
                &&& forall|i: int|
                    0 <= i < num_spokes ==> (#[trigger] plan.spoke_ids@[i])@ == spoke_id(i as nat)
                &&& plan.spoke_permissions@.len() == num_spokes
                &&& match spoke_permissions {
                    Some(p) => p@.len() == num_spokes && plan.spoke_permissions@ == p@,
                    None => forall|i: int|
                        0 <= i < num_spokes ==> #[trigger] plan.spoke_permissions@[i] == (
                        Permission { write: true, create: true, delete: true }),
                }
            },
            Err(e) => {
                &&& spoke_permissions matches Some(p) && p@.len() != num_spokes && e@
                    == permission_count_text(num_spokes as nat, p@.len())
            },
        },
{
    match spoke_permissions {
        Some(p) => {
            if p.len() != num_spokes {
                let mut e = "spoke_permissions must have exactly ".to_owned();
                e.append(number::decimal_text(num_spokes as u64).as_str());
                e.append(" entries, got ");
                e.append(number::decimal_text(p.len() as u64).as_str());
                return Err(e);
            }
        },
        None => {},
    }
    let mut spoke_ids: Vec<ServerId> = Vec::new();
    let mut permissions: Vec<Permission> = Vec::new();
    for i in 0..num_spokes
        invariant
            spoke_ids@.len() == i,
            permissions@.len() == i,
            forall|j: int| 0 <= j < i ==> (#[trigger] spoke_ids@[j])@ == spoke_id(j as nat),
            match spoke_permissions {
                Some(p) => p@.len() == num_spokes && permissions@ == p@.take(i as int),
                None => forall|j: int|
                    0 <= j < i ==> #[trigger] permissions@[j] == (Permission {
                        write: true,
                        create: true,
                        delete: true,
                    }),
            },
    {
        let name = text::concat("spoke", number::wide_decimal_text(i as u128 + 1).as_str());
        spoke_ids.push(create_test_id(name.as_str()));
        let permission = match spoke_permissions {
            Some(p) => p[i],
            None => full_permission(),
        };
        permissions.push(permission);
    }
    proof {
        match spoke_permissions {
            Some(p) => {
                assert(p@.take(num_spokes as int) =~= p@);
            },
            None => {},
        }
    }
    Ok(
        HubAndSpokePlan {
            hub_id: create_test_id("hub"),
            spoke_ids,
            spoke_permissions: permissions,
            hub_permission: full_permission(),
        },
    )
}

/// Spokes are called `spoke` with their number, counted from one.
pub proof fn lemma_spoke_names(i: nat)
    ensures
        spoke_id(i) == "spoke"@ + number::decimal(i + 1),
{
}

/// No two spokes have the same id, and none has that of the hub.
pub proof fn lemma_ids_apart(i: nat, j: nat)
    requires
        i != j,
    ensures
        spoke_id(i) != spoke_id(j),
        spoke_id(i) != "hub"@,
{
    reveal_strlit("spoke");
    reveal_strlit("hub");
    let m = if i < j {
        j + 1
    } else {
        i + 1
    };
    number::lemma_parse_decimal(i + 1, m);
    number::lemma_parse_decimal(j + 1, m);
    let a = spoke_id(i);
    let b = spoke_id(j);
    assert(a.skip(5) =~= number::decimal(i + 1));
    assert(b.skip(5) =~= number::decimal(j + 1));
    assert(a[0] == 's');
    assert("hub"@[0] == 'h');
}

/// One step on the way to a hub with its spokes connected.
#[derive(Debug, Clone, Copy, PartialEq, Eq, Structural)]
pub enum SetupStep {
    /// Start the hub.
    StartHub,
    /// Do nothing for that many milliseconds.
    Pause(u64),
    /// Tell the hub to accept connections.
    Accept,
    /// Wait until the hub accepts connections.
    AwaitAccepting,
    /// Start a spoke.
    StartSpoke(usize),
    /// Tell a spoke to connect to the hub.
    Connect(usize),
    /// Wait until a spoke connects.
    AwaitConnecting(usize),
    /// Wait until the hub has one more connection.
    AwaitHubConnected,
    /// Wait until a spoke is connected.
    AwaitSpokeConnected(usize),
}

/// The steps for the first `n` spokes.
pub open spec fn spoke_steps(n: nat) -> Seq<SetupStep>
    decreases n,
{
    if n == 0 {
        Seq::empty()
    } else {
        spoke_steps((n - 1) as nat) + seq![
            SetupStep::StartSpoke((n - 1) as usize),
            SetupStep::Connect((n - 1) as usize),
            SetupStep::AwaitConnecting((n - 1) as usize),
        ]
    }
}

/// All steps: the hub accepts connections before any spoke connects, and in the
/// end both sides of each connection are waited for.
pub open spec fn setup_script(n: nat) -> Seq<SetupStep> {
    seq![
        SetupStep::StartHub,
        SetupStep::Pause(100),
        SetupStep::Accept,
        SetupStep::AwaitAccepting,
        SetupStep::Pause(1000),
    ] + spoke_steps(n) + Seq::new(n, |i: int| SetupStep::AwaitHubConnected)
        + Seq::new(n, |i: int| SetupStep::AwaitSpokeConnected(i as usize))
}

/// The hub is started and accepts connections first. Then the spokes are started
/// one by one, and each is connected and waited for before the next. In the end
/// every connection is waited for, on the hub and on the spoke.
pub proof fn lemma_setup_order(n: nat, i: int)
    requires
        0 <= i < n <= usize::MAX,
    ensures
        setup_script(n).len() == 5 + 5 * n,
        setup_script(n)[0] == SetupStep::StartHub,
        setup_script(n)[1] == SetupStep::Pause(100),
        setup_script(n)[2] == SetupStep::Accept,
        setup_script(n)[3] == SetupStep::AwaitAccepting,
        setup_script(n)[4] == SetupStep::Pause(1000),
        setup_script(n)[5 + 3 * i] == SetupStep::StartSpoke(i as usize),
        setup_script(n)[6 + 3 * i] == SetupStep::Connect(i as usize),
        setup_script(n)[7 + 3 * i] == SetupStep::AwaitConnecting(i as usize),
        setup_script(n)[5 + 3 * n + i] == SetupStep::AwaitHubConnected,
        setup_script(n)[5 + 4 * n + i] == SetupStep::AwaitSpokeConnected(i as usize),
{
    lemma_spoke_steps(n, i);
    let head = seq![
        SetupStep::StartHub,
        SetupStep::Pause(100),
        SetupStep::Accept,
        SetupStep::AwaitAccepting,
        SetupStep::Pause(1000),
    ];
    let steps = spoke_steps(n);
    let hub = Seq::new(n, |j: int| SetupStep::AwaitHubConnected);
    let last = Seq::new(n, |j: int| SetupStep::AwaitSpokeConnected(j as usize));
    let all = head + steps + hub + last;
    assert(setup_script(n) =~= all);
    assert(all[5 + 3 * i] == steps[3 * i]);
    assert(all[6 + 3 * i] == steps[3 * i + 1]);
    assert(all[7 + 3 * i] == steps[3 * i + 2]);
    assert(all[5 + 3 * n + i] == hub[i]);
    assert(all[5 + 4 * n + i] == last[i]);
}

proof fn lemma_spoke_steps(n: nat, i: int)
    requires
        0 <= i < n,
    ensures
        spoke_steps(n).len() == 3 * n,
        spoke_steps(n)[3 * i] == SetupStep::StartSpoke(i as usize),
        spoke_steps(n)[3 * i + 1] == SetupStep::Connect(i as usize),
        spoke_steps(n)[3 * i + 2] == SetupStep::AwaitConnecting(i as usize),
    decreases n,
{
    let before = spoke_steps((n - 1) as nat);
    if n > 1 {
        lemma_spoke_steps((n - 1) as nat, if i < n - 1 {
            i
        } else {
            0
        });
    }
    assert(before.len() == 3 * (n - 1));
}

/// The steps to a hub with `num_spokes` spokes connected.
pub fn setup_steps(num_spokes: usize) -> (r: Vec<SetupStep>)
    ensures
        r@ == setup_script(num_spokes as nat),
{
    let mut r: Vec<SetupStep> = Vec::new();
    r.push(SetupStep::StartHub);
    r.push(SetupStep::Pause(100));
    r.push(SetupStep::Accept);
    r.push(SetupStep::AwaitAccepting);
    r.push(SetupStep::Pause(1000));
    let ghost head = r@;
    for i in 0..num_spokes
        invariant
            head =~= seq![
                SetupStep::StartHub,
                SetupStep::Pause(100),
                SetupStep::Accept,
                SetupStep::AwaitAccepting,
                SetupStep::Pause(1000),
            ],
            r@ =~= head + spoke_steps(i as nat),
    {
        r.push(SetupStep::StartSpoke(i));
        r.push(SetupStep::Connect(i));
        r.push(SetupStep::AwaitConnecting(i));
    }
    let ghost started = r@;
    for i in 0..num_spokes
        invariant
            r@ =~= started + Seq::new(i as nat, |j: int| SetupStep::AwaitHubConnected),
    {
        r.push(SetupStep::AwaitHubConnected);
    }
    let ghost heard = r@;
    for i in 0..num_spokes
        invariant
            r@ =~= heard + Seq::new(i as nat, |j: int| SetupStep::AwaitSpokeConnected(j as usize)),
    {
        r.push(SetupStep::AwaitSpokeConnected(i));
    }
    assert(r@ =~= setup_script(num_spokes as nat));
    r
}

// *** Requests and replies

/// The numbers of requests, each of them once until all are used up.
pub struct RequestIds {
    next: i32,
}

impl RequestIds {
    /// The number of the next request.
    pub closed spec fn upcoming(&self) -> i32 {
        self.next
    }

    /// The first request has the number one.
    pub fn new() -> (r: RequestIds)
        ensures
            r.upcoming() == 1,
    {
        RequestIds { next: 1 }
    }

    /// Takes a number; behind the largest comes the smallest.
    pub fn next_request_id(&mut self) -> (r: i32)
        ensures
            r == old(self).upcoming(),
            final(self).upcoming() == if r == i32::MAX {
                i32::MIN
            } else {
                (r + 1) as i32
            },
    {
        let r: i32 = self.next;
        self.next = if r == i32::MAX {
            i32::MIN
        } else {
            r + 1
        };
        r
    }
}

/// What an editor gets from its server. `P` stands for parameters and results.
pub enum Inbound<P> {
    /// A notification.
    Notification { method: String, params: P },
    /// A request.
    Request { id: i32, method: String, params: P },
    /// The result of a request, which may be left out.
    Result { id: i32, result: Option<P> },
    /// The failure of a request.
    Failure { id: i32, code: i32, message: String },
}

/// What is still awaited after a message.
pub enum Awaited<P> {
    /// The same as before: the message was something else.
    Still(),
    /// Nothing: here it is.
    Found(P),
    /// Nothing: the request failed.
    Failed(String),
}

/// The message for a request that failed.
pub open spec fn failure_text(code: int, message: Seq<char>) -> Seq<char> {
    "Response error: "@ + number::signed_decimal(code) + " - "@ + message
}

/// What is said of a request that failed, and of permissions that are too few or
/// too many.
pub proof fn lemma_failures_say(code: int, message: Seq<char>, expected: nat, got: nat)
    ensures
        failure_text(code, message) == "Response error: "@ + number::signed_decimal(code) + " - "@
            + message,
        permission_count_text(expected, got) == "spoke_permissions must have exactly "@
            + number::decimal(expected) + " entries, got "@ + number::decimal(got),
{
}

/// Looks for a notification.
pub fn match_notification<P>(wanted: &str, msg: Inbound<P>) -> (r: Awaited<P>)
    ensures
        match msg {
            Inbound::Notification { method, params } => if method@ == wanted@ {
                r == Awaited::Found(params)
            } else {
                r is Still
            },
            _ => r is Still,
        },
{
    match msg {
        Inbound::Notification { method, params } => if text::same(method.as_str(), wanted) {
            Awaited::Found(params)
        } else {
            Awaited::Still()
        },
        _ => Awaited::Still(),
    }
}

/// Looks for a request.
pub fn match_request<P>(wanted: &str, msg: Inbound<P>) -> (r: Awaited<(i32, P)>)
    ensures
        match msg {
            Inbound::Request { id, method, params } => if method@ == wanted@ {
                r == Awaited::Found((id, params))
            } else {
                r is Still
            },
            _ => r is Still,
        },
{
    match msg {
        Inbound::Request { id, method, params } => if text::same(method.as_str(), wanted) {
            Awaited::Found((id, params))
        } else {
            Awaited::Still()
        },
        _ => Awaited::Still(),
    }
}

/// Looks for the response to a request. A result that is left out counts as
/// `null`.
pub fn match_response<P>(wanted: i32, null: P, msg: Inbound<P>) -> (r: Awaited<P>)
    ensures
        match msg {
            Inbound::Result { id, result } => if id == wanted {
                r == Awaited::Found(
                    match result {
                        Some(p) => p,
                        None => null,
                    },
                )
            } else {
                r is Still
            },
            Inbound::Failure { id, code, message } => if id == wanted {
                r matches Awaited::Failed(e) && e@ == failure_text(code as int, message@)
            } else {
                r is Still
            },
            _ => r is Still,
        },
{
    match msg {
        Inbound::Result { id, result } => if id == wanted {
            match result {
                Some(p) => Awaited::Found(p),
                None => Awaited::Found(null),
            }
        } else {
            Awaited::Still()
        },
        Inbound::Failure { id, code, message } => if id == wanted {
            let mut e = "Response error: ".to_owned();
            e.append(number::signed_decimal_text(code as i64).as_str());
            e.append(" - ");
            e.append(message.as_str());
            Awaited::Failed(e)
        } else {
            Awaited::Still()
        },
        _ => Awaited::Still(),
    }
}

/// The result in whatever an editor finds waiting, if it is the result of a
/// request.
pub fn drain_response<P>(msg: Option<Inbound<P>>) -> (r: Option<P>)
    ensures
        match msg {
            Some(Inbound::Result { result, .. }) => r == result,
            _ => r is None,
        },
{
    match msg {
        Some(Inbound::Result { result, .. }) => result,
        _ => None,
    }
}

/// What an editor waited for in vain.
pub enum Missed {
    /// A notification.
    Notification(String),
    /// A request.
    Request(String),
    /// The response to a request.
    Response(i32),
    /// Anything: the channel is closed.
    Closed,
}

/// The message for what was waited for in vain.
pub fn missed_message(missed: &Missed) -> (r: String)
    ensures
        r@ == match missed {
            Missed::Notification(m) => "Timeout waiting for notification: "@ + m@,
            Missed::Request(m) => "Timeout waiting for request: "@ + m@,
            Missed::Response(id) => "Timeout waiting for response to request "@
                + number::signed_decimal(*id as int),
            Missed::Closed => "Channel closed"@,
        },
{
    match missed {
        Missed::Notification(m) => text::concat("Timeout waiting for notification: ", m.as_str()),
        Missed::Request(m) => text::concat("Timeout waiting for request: ", m.as_str()),
        Missed::Response(id) => text::concat(
            "Timeout waiting for response to request ",
            number::signed_decimal_text(*id as i64).as_str(),
        ),
        Missed::Closed => "Channel closed".to_owned(),
    }
}

/// The low half of a number.
pub open spec fn low_half(n: u64) -> int {
    n as int % 0x1_0000_0000
}

/// A number is its low half and a multiple of two to the power of thirty-two.
pub proof fn lemma_low_half(high: u32, low: u32)
    ensures
        low_half((high * 0x1_0000_0000 + low) as u64) == low,
{
}

/// The document id and the site id out of the reply to a request to share a
/// file. Of each number the low half is taken.
pub fn shared_file(doc_id: Option<u64>, site_id: Option<u64>) -> (r: Result<(u32, u32), String>)
    ensures
        match (doc_id, site_id) {
            (None, _) => r matches Err(e) && e@ == "Missing docId in response"@,
            (Some(_), None) => r matches Err(e) && e@ == "Missing siteId in response"@,
            (Some(d), Some(s)) => r matches Ok(p) && p.0 == low_half(d) && p.1 == low_half(s),
        },
{
    match (doc_id, site_id) {
        (None, _) => Err("Missing docId in response".to_owned()),
        (Some(_), None) => Err("Missing siteId in response".to_owned()),
        (Some(d), Some(s)) => Ok(((d % 0x1_0000_0000) as u32, (s % 0x1_0000_0000) as u32)),
    }
}

/// The document id, the site id and the content out of the reply to a request to
/// open a file.
pub fn opened_file(doc_id: Option<u64>, site_id: Option<u64>, content: Option<String>) -> (r:
    Result<(u32, u32, String), String>)
    ensures
        match (doc_id, site_id, content) {
            (None, _, _) => r matches Err(e) && e@ == "Missing docId in response"@,
            (Some(_), None, _) => r matches Err(e) && e@ == "Missing siteId in response"@,
            (Some(_), Some(_), None) => r matches Err(e) && e@ == "Missing content in response"@,
            (Some(d), Some(s), Some(c)) => r matches Ok(p) && p.0 == low_half(d) && p.1 == low_half(
                s,
            ) && p.2 == c,
        },
{
    match shared_file(doc_id, site_id) {
        Err(e) => Err(e),
        Ok((d, s)) => match content {
            None => Err("Missing content in response".to_owned()),
            Some(c) => Ok((d, s, c)),
        },
    }
}

/// The operations out of the reply to a request to undo.
pub fn undo_ops<P>(ops: Option<Vec<P>>) -> (r: Result<Vec<P>, String>)
    ensures
        match ops {
            Some(v) => r == Ok::<Vec<P>, String>(v),
            None => r matches Err(e) && e@ == "Missing ops in undo response"@,
        },
{
    match ops {
        Some(v) => Ok(v),
        None => Err("Missing ops in undo response".to_owned()),
    }
}

/// Who connected and what was said, out of a notification of a connection.
pub fn connected_fields(host_id: Option<String>, message: Option<String>) -> (r: Result<
    (ServerId, String),
    String,
>)
    ensures
        match (host_id, message) {
            (None, _) => r matches Err(e) && e@ == "Missing hostId in Connected notification"@,
            (Some(h), Some(m)) => r matches Ok(p) && p.0 == h && p.1 == m,
            (Some(h), None) => r matches Ok(p) && p.0 == h && p.1@ == Seq::<char>::empty(),
        },
{
    match (host_id, message) {
        (None, _) => Err("Missing hostId in Connected notification".to_owned()),
        (Some(h), Some(m)) => Ok((h, m)),
        (Some(h), None) => Ok((h, String::new())),
    }
}

} // verus!
