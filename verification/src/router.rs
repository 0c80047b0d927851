//! Broadcast router: the single authority over the set of connected
//! users. It resolves inbound envelopes to a sender, fans chat text out to
//! every other user, dispatches `/verb` commands, and tells its caller
//! which frames to write to which connection.
//!
//! The router owns no sockets: the caller performs the writes and reports
//! a failed recipient back through [`Router::remove_user`].
use crate::codec::{encode, spec_encode};
use crate::command::{parse_command, spec_parse, Command, CommandView, ParseError, SIGIL};
use crate::store::{spec_lookup, AccountStore, LookupResult};
use crate::text::{bytes_eq, copy_bytes, decimal_bytes, spec_decimal};
use vstd::prelude::*;
use vstd::string::StrSliceExecFns;
use vstd::string::StringSliceAdditionalSpecFns;

verus! {

/// Reserved sender id of the server operator's console; never assigned to
/// a connection.
pub const OPERATOR_ID: usize = 0;

/// One connected user: a stable id assigned at accept time and a mutable
/// display name. The write half of the connection stays with the caller,
/// keyed by the id.
pub struct User {
    pub username: Vec<u8>,
    pub id: usize,
}

/// Ghost shape of a registry entry.
pub struct UserView {
    pub username: Seq<u8>,
    pub id: usize,
}

impl DeepView for User {
    type V = UserView;

    open spec fn deep_view(&self) -> UserView {
        UserView { username: self.username@, id: self.id }
    }
}

impl User {
    /// A registry entry with the given name and id.
    pub fn new(username: &Vec<u8>, id: usize) -> (u: User)
        ensures
            u.deep_view() == (UserView { username: username@, id }),
    {
        User { username: copy_bytes(username), id }
    }
}

/// One frame to write to one recipient.
pub struct Outbound {
    pub recipient: usize,
    pub frame: Vec<u8>,
}

/// Ghost shape of an outbound write.
pub struct OutboundView {
    pub recipient: usize,
    pub frame: Seq<u8>,
}

impl DeepView for Outbound {
    type V = OutboundView;

    open spec fn deep_view(&self) -> OutboundView {
        OutboundView { recipient: self.recipient, frame: self.frame@ }
    }
}

/// What the caller must do after a routing step: keep going, or persist
/// the store and exit.
#[derive(Clone, Copy, Debug, PartialEq, Eq, Structural)]
pub enum Effect {
    Continue,
    Shutdown,
}

/// The first registry index holding the given id.
pub open spec fn spec_resolve(users: Seq<UserView>, id: usize) -> Option<int>
    decreases users.len(),
{
    if users.len() == 0 {
        None
    } else if users[0].id == id {
        Some(0)
    } else {
        match spec_resolve(users.drop_first(), id) {
            Some(i) => Some(i + 1),
            None => None,
        }
    }
}

/// The first registry index holding the given display name.
pub open spec fn spec_resolve_name(users: Seq<UserView>, name: Seq<u8>) -> Option<int>
    decreases users.len(),
{
    if users.len() == 0 {
        None
    } else if users[0].username == name {
        Some(0)
    } else {
        match spec_resolve_name(users.drop_first(), name) {
            Some(i) => Some(i + 1),
            None => None,
        }
    }
}

/// A well-formed registry: every id is a real connection id below the
/// allocator's next value, and no id occurs twice.
pub open spec fn wf_users(users: Seq<UserView>, next_id: usize) -> bool {
    &&& forall|i: int|
        0 <= i < users.len() ==> OPERATOR_ID < #[trigger] users[i].id && users[i].id < next_id
    &&& forall|i: int, j: int|
        0 <= i < j < users.len() ==> #[trigger] users[i].id != #[trigger] users[j].id
}

/// The frame `frame` addressed to every user, in registry order.
pub open spec fn spec_frames_to_all(users: Seq<UserView>, frame: Seq<u8>) -> Seq<OutboundView> {
    Seq::new(users.len(), |k: int| OutboundView { recipient: users[k].id, frame })
}

/// The frame `frame` addressed to every user but the one at index `s`, in
/// registry order.
pub open spec fn spec_frames_to_all_except(users: Seq<UserView>, s: int, frame: Seq<u8>) -> Seq<
    OutboundView,
>
    recommends
        0 <= s < users.len(),
{
    Seq::new(
        (users.len() - 1) as nat,
        |k: int|
            OutboundView {
                recipient: users[if k < s {
                    k
                } else {
                    k + 1
                }].id,
                frame,
            },
    )
}

/// A single frame addressed to one recipient.
pub open spec fn spec_frame_to(recipient: usize, frame: Seq<u8>) -> Seq<OutboundView> {
    seq![OutboundView { recipient, frame }]
}

/// Default display name of a fresh connection: `Guest<id>`.
pub open spec fn spec_guest_name(id: usize) -> Seq<u8> {
    "Guest".spec_bytes() + spec_decimal(id as nat)
}

/// Broadcast text: `<display_name>: <payload>`.
pub open spec fn spec_broadcast_text(name: Seq<u8>, payload: Seq<u8>) -> Seq<u8> {
    name + ": ".spec_bytes() + payload
}

/// Whisper text: `<display_name> whispered: <message>`.
pub open spec fn spec_whisper_text(name: Seq<u8>, message: Seq<u8>) -> Seq<u8> {
    name + " whispered: ".spec_bytes() + message
}

/// Reply to a whisper whose target is not registered.
pub open spec fn msg_not_found() -> Seq<u8> {
    "Couldn't find user.".spec_bytes()
}

/// Header frame of a `/listall` response.
pub open spec fn msg_list_header() -> Seq<u8> {
    "All users currently online listed:".spec_bytes()
}

/// Reply to a successful `/login`.
pub open spec fn spec_welcome_back(username: Seq<u8>) -> Seq<u8> {
    "Welcome back ".spec_bytes() + username
}

/// Reply to a `/login` with a missing account or wrong password.
pub open spec fn msg_login_failed() -> Seq<u8> {
    "Log in failed. Incorrect username/password.".spec_bytes()
}

/// Reply to a `/create` whose username is taken.
pub open spec fn msg_account_exists() -> Seq<u8> {
    "Account already exists".spec_bytes()
}

/// Reply to a successful `/create`.
pub open spec fn spec_welcome_created(username: Seq<u8>) -> Seq<u8> {
    "Welcome ".spec_bytes() + username + ". Account created.".spec_bytes()
}

/// Reply to `/ping`.
pub open spec fn msg_pong() -> Seq<u8> {
    "pong".spec_bytes()
}

/// Reply to `/aboutme`: `Username: <name>, ID: <id>`.
pub open spec fn spec_aboutme_text(name: Seq<u8>, id: usize) -> Seq<u8> {
    "Username: ".spec_bytes() + name + ", ID: ".spec_bytes() + spec_decimal(id as nat)
}

/// Shutdown notice broadcast on `/stop`.
pub open spec fn msg_shutdown() -> Seq<u8> {
    "Server is closing. No messages will be sent.".spec_bytes()
}

/// Error frame for a `/login` with too few arguments.
pub open spec fn msg_login_usage() -> Seq<u8> {
    "Wrong format. Use /login <user> <password>".spec_bytes()
}

/// Error frame for a `/create` with too few arguments.
pub open spec fn msg_create_usage() -> Seq<u8> {
    "Wrong format. Use /create <user> <password>".spec_bytes()
}

/// The serialization point for all shared state: the registry of
/// connected users, the id allocator, and the account store.
pub struct Router {
    pub users: Vec<User>,
    pub next_id: usize,
    pub store: AccountStore,
}

impl Router {
    /// Registry and store as ghost data.
    pub open spec fn users_v(self) -> Seq<UserView> {
        self.users.deep_view()
    }

    /// The router invariant: ids start at 1, stay below the allocator,
    /// and never repeat.
    pub open spec fn wf(self) -> bool {
        &&& OPERATOR_ID < self.next_id
        &&& wf_users(self.users_v(), self.next_id)
    }

    /// A router with no users and the given account snapshot; ids start
    /// at 1.
    pub fn new(store: AccountStore) -> (r: Router)
        ensures
            r.wf(),
            r.users_v() == Seq::<UserView>::empty(),
            r.next_id == 1,
            r.store@ == store@,
    {
        let r = Router { users: Vec::new(), next_id: 1, store };
        proof {
            assert(r.users_v() =~= Seq::<UserView>::empty());
        }
        r
    }

    /// Admit a new connection: assign the next id, register it under the
    /// default `Guest<id>` name, and hand the id back.
    pub fn accept(&mut self) -> (id: usize)
        requires
            old(self).wf(),
            old(self).next_id < usize::MAX,
        ensures
            final(self).wf(),
            id == old(self).next_id,
            final(self).next_id == old(self).next_id + 1,
            final(self).users_v() == old(self).users_v().push(
                UserView { username: spec_guest_name(id), id },
            ),
            final(self).store@ == old(self).store@,
    {
        let id = self.next_id;
        let name = guest_name_bytes(id);
        let ghost prev = self.users_v();
        self.users.push(User { username: name, id });
        self.next_id = id + 1;
        proof {
            assert(self.users_v() =~~= prev.push(UserView { username: spec_guest_name(id), id }));
            assert forall|i: int, j: int| 0 <= i < j < self.users_v().len() implies #[trigger] self
                .users_v()[i].id != #[trigger] self.users_v()[j].id by {
                if j + 1 == self.users_v().len() {
                    assert(prev[i].id < old(self).next_id);
                }
            }
        }
        id
    }

    /// Drop the user with the given id, if any: called when a write to
    /// that user's connection has failed and the peer is presumed gone.
    pub fn remove_user(&mut self, id: usize)
        requires
            old(self).wf(),
        ensures
            final(self).wf(),
            final(self).next_id == old(self).next_id,
            final(self).store@ == old(self).store@,
            match spec_resolve(old(self).users_v(), id) {
                Some(i) => final(self).users_v() == old(self).users_v().remove(i),
                None => final(self).users_v() == old(self).users_v(),
            },
    {
        match find_user(&self.users, id) {
            Some(i) => {
                let ghost prev = self.users_v();
                let ghost gi = i as int;
                self.users.remove(i);
                proof {
                    assert(self.users_v() =~~= prev.remove(gi));
                    assert forall|a: int, b: int|
                        0 <= a < b < self.users_v().len() implies #[trigger] self.users_v()[a].id
                        != #[trigger] self.users_v()[b].id by {
                        let a0 = if a < gi {
                            a
                        } else {
                            a + 1
                        };
                        let b0 = if b < gi {
                            b
                        } else {
                            b + 1
                        };
                        assert(self.users_v()[a] == prev[a0]);
                        assert(self.users_v()[b] == prev[b0]);
                    }
                }
            },
            None => {},
        }
    }
}

/// First registry index with the given id, scanning in order.
pub fn find_user(users: &Vec<User>, id: usize) -> (r: Option<usize>)
    ensures
        match r {
            Some(i) => spec_resolve(users.deep_view(), id) == Some(i as int) && i < users@.len()
                && users.deep_view()[i as int].id == id,
            None => spec_resolve(users.deep_view(), id) is None,
        },
{
    let ghost uv = users.deep_view();
    let mut i: usize = 0;
    proof {
        assert(uv.skip(0) =~= uv);
    }
    while i < users.len()
        invariant
            i <= users@.len(),
            uv == users.deep_view(),
            uv.len() == users@.len(),
            forall|j: int| 0 <= j < i ==> (#[trigger] uv[j]).id != id,
            spec_resolve(uv, id) == match spec_resolve(uv.skip(i as int), id) {
                Some(k) => Some(k + i),
                None => None::<int>,
            },
        decreases users@.len() - i,
    {
        let ghost rest = uv.skip(i as int);
        proof {
            assert(rest[0] == uv[i as int]);
            assert(rest.drop_first() =~= uv.skip(i + 1));
        }
        if users[i].id == id {
            proof {
                assert(uv[i as int] == users@[i as int].deep_view());
            }
            return Some(i);
        }
        i += 1;
    }
    proof {
        assert(uv.skip(uv.len() as int) =~= Seq::<UserView>::empty());
    }
    None
}

/// First registry index with the given display name, scanning in order.
fn find_user_by_name(users: &Vec<User>, name: &Vec<u8>) -> (r: Option<usize>)
    ensures
        match r {
            Some(i) => spec_resolve_name(users.deep_view(), name@) == Some(i as int) && i
                < users@.len(),
            None => spec_resolve_name(users.deep_view(), name@) is None,
        },
{
    let ghost uv = users.deep_view();
    let mut i: usize = 0;
    proof {
        assert(uv.skip(0) =~= uv);
    }
    while i < users.len()
        invariant
            i <= users@.len(),
            uv == users.deep_view(),
            uv.len() == users@.len(),
            spec_resolve_name(uv, name@) == match spec_resolve_name(uv.skip(i as int), name@) {
                Some(k) => Some(k + i),
                None => None::<int>,
            },
        decreases users@.len() - i,
    {
        let ghost rest = uv.skip(i as int);
        proof {
            assert(rest[0] == uv[i as int]);
            assert(rest.drop_first() =~= uv.skip(i + 1));
        }
        if bytes_eq(&users[i].username, name) {
            proof {
                assert(uv[i as int] == users@[i as int].deep_view());
            }
            return Some(i);
        }
        i += 1;
    }
    proof {
        assert(uv.skip(uv.len() as int) =~= Seq::<UserView>::empty());
    }
    None
}

/// Runtime copy of the default name `Guest<id>`.
pub fn guest_name_bytes(id: usize) -> (r: Vec<u8>)
    ensures
        r@ == spec_guest_name(id),
{
    let mut r = "Guest".as_bytes_vec();
    let mut d = decimal_bytes(id);
    r.append(&mut d);
    r
}

/// Runtime copy of the broadcast text `<name>: <payload>`.
fn broadcast_text_bytes(name: &Vec<u8>, payload: &Vec<u8>) -> (r: Vec<u8>)
    ensures
        r@ == spec_broadcast_text(name@, payload@),
{
    let mut r = copy_bytes(name);
    let mut sep = ": ".as_bytes_vec();
    r.append(&mut sep);
    crate::text::append_bytes(&mut r, payload);
    r
}

/// Runtime copy of the whisper text `<name> whispered: <message>`.
fn whisper_text_bytes(name: &Vec<u8>, message: &Vec<u8>) -> (r: Vec<u8>)
    ensures
        r@ == spec_whisper_text(name@, message@),
{
    let mut r = copy_bytes(name);
    let mut sep = " whispered: ".as_bytes_vec();
    r.append(&mut sep);
    crate::text::append_bytes(&mut r, message);
    r
}

/// Runtime copy of the `/login` success text.
fn welcome_back_bytes(username: &Vec<u8>) -> (r: Vec<u8>)
    ensures
        r@ == spec_welcome_back(username@),
{
    let mut r = "Welcome back ".as_bytes_vec();
    crate::text::append_bytes(&mut r, username);
    r
}

/// Runtime copy of the `/create` success text.
fn welcome_created_bytes(username: &Vec<u8>) -> (r: Vec<u8>)
    ensures
        r@ == spec_welcome_created(username@),
{
    let mut r = "Welcome ".as_bytes_vec();
    crate::text::append_bytes(&mut r, username);
    let mut tail = ". Account created.".as_bytes_vec();
    r.append(&mut tail);
    r
}

/// Runtime copy of the `/aboutme` text.
fn aboutme_text_bytes(name: &Vec<u8>, id: usize) -> (r: Vec<u8>)
    ensures
        r@ == spec_aboutme_text(name@, id),
{
    let mut r = "Username: ".as_bytes_vec();
    crate::text::append_bytes(&mut r, name);
    let mut sep = ", ID: ".as_bytes_vec();
    r.append(&mut sep);
    let mut d = decimal_bytes(id);
    r.append(&mut d);
    r
}

/// One frame addressed to one recipient.
fn frame_to(recipient: usize, frame: Vec<u8>) -> (r: Vec<Outbound>)
    ensures
        r.deep_view() == spec_frame_to(recipient, frame@),
{
    let ghost fv = frame@;
    let mut r: Vec<Outbound> = Vec::new();
    r.push(Outbound { recipient, frame });
    proof {
        assert(r.deep_view() =~= spec_frame_to(recipient, fv));
    }
    r
}

/// The same frame addressed to every registered user, in order.
fn frames_to_all(users: &Vec<User>, frame: &Vec<u8>) -> (r: Vec<Outbound>)
    ensures
        r.deep_view() == spec_frames_to_all(users.deep_view(), frame@),
{
    let ghost uv = users.deep_view();
    let mut r: Vec<Outbound> = Vec::new();
    let mut k: usize = 0;
    while k < users.len()
        invariant
            k <= users@.len(),
            uv == users.deep_view(),
            uv.len() == users@.len(),
            r.deep_view().len() == k,
            forall|m: int|
                0 <= m < k ==> r.deep_view()[m] == (OutboundView {
                    recipient: uv[m].id,
                    frame: frame@,
                }),
        decreases users@.len() - k,
    {
        let ghost prev = r.deep_view();
        r.push(Outbound { recipient: users[k].id, frame: copy_bytes(frame) });
        proof {
            assert(uv[k as int] == users@[k as int].deep_view());
            assert(r.deep_view() =~~= prev.push(
                OutboundView { recipient: uv[k as int].id, frame: frame@ },
            ));
        }
        k += 1;
    }
    proof {
        assert(r.deep_view() =~= spec_frames_to_all(uv, frame@));
    }
    r
}

/// The same frame addressed to every registered user but the one at
/// index `skip_idx`, in order.
fn frames_to_all_except(users: &Vec<User>, skip_idx: usize, frame: &Vec<u8>) -> (r: Vec<Outbound>)
    requires
        skip_idx < users@.len(),
    ensures
        r.deep_view() == spec_frames_to_all_except(users.deep_view(), skip_idx as int, frame@),
{
    let ghost uv = users.deep_view();
    let mut r: Vec<Outbound> = Vec::new();
    let mut k: usize = 0;
    while k < users.len()
        invariant
            k <= users@.len(),
            skip_idx < users@.len(),
            uv == users.deep_view(),
            uv.len() == users@.len(),
            r.deep_view().len() == if k <= skip_idx {
                k as int
            } else {
                k - 1
            },
            forall|m: int|
                0 <= m < r.deep_view().len() ==> r.deep_view()[m] == (OutboundView {
                    recipient: uv[if m < skip_idx {
                        m
                    } else {
                        m + 1
                    }].id,
                    frame: frame@,
                }),
        decreases users@.len() - k,
    {
        if k != skip_idx {
            let ghost prev = r.deep_view();
            r.push(Outbound { recipient: users[k].id, frame: copy_bytes(frame) });
            proof {
                assert(uv[k as int] == users@[k as int].deep_view());
                assert(r.deep_view() =~~= prev.push(
                    OutboundView { recipient: uv[k as int].id, frame: frame@ },
                ));
            }
        }
        k += 1;
    }
    proof {
        assert(r.deep_view() =~= spec_frames_to_all_except(uv, skip_idx as int, frame@));
    }
    r
}

/// The `/listall` response: a header frame, then one frame per registered
/// display name, all to the invoker.
pub open spec fn spec_listall_frames(users: Seq<UserView>, invoker_id: usize) -> Seq<OutboundView> {
    spec_frame_to(invoker_id, spec_encode(msg_list_header())) + Seq::new(
        users.len(),
        |k: int| OutboundView { recipient: invoker_id, frame: spec_encode(users[k].username) },
    )
}

/// Build the `/listall` response frames.
fn listall_frames(users: &Vec<User>, invoker_id: usize) -> (r: Vec<Outbound>)
    ensures
        r.deep_view() == spec_listall_frames(users.deep_view(), invoker_id),
{
    let ghost uv = users.deep_view();
    let mut r: Vec<Outbound> = Vec::new();
    let header = "All users currently online listed:".as_bytes_vec();
    r.push(Outbound { recipient: invoker_id, frame: encode(&header) });
    let mut k: usize = 0;
    while k < users.len()
        invariant
            k <= users@.len(),
            uv == users.deep_view(),
            uv.len() == users@.len(),
            r.deep_view().len() == k + 1,
            r.deep_view()[0] == (OutboundView {
                recipient: invoker_id,
                frame: spec_encode(msg_list_header()),
            }),
            forall|m: int|
                0 <= m < k ==> r.deep_view()[m + 1] == (OutboundView {
                    recipient: invoker_id,
                    frame: spec_encode(uv[m].username),
                }),
        decreases users@.len() - k,
    {
        let ghost prev = r.deep_view();
        r.push(Outbound { recipient: invoker_id, frame: encode(&users[k].username) });
        proof {
            assert(uv[k as int] == users@[k as int].deep_view());
            assert(r.deep_view() =~~= prev.push(
                OutboundView { recipient: invoker_id, frame: spec_encode(uv[k as int].username) },
            ));
        }
        k += 1;
    }
    proof {
        assert(r.deep_view() =~= spec_listall_frames(uv, invoker_id));
    }
    r
}

/// The transition a command payload causes: how the registry and the
/// store change, which frames go out, and whether the server keeps
/// running. `/stop` acts only for the operator; every other command acts
/// only for a sender still present in the registry — an envelope whose
/// sender is gone is dropped without effect.
pub open spec fn spec_command_step(
    users0: Seq<UserView>,
    store0: Seq<(Seq<u8>, Seq<u8>)>,
    sender_id: usize,
    payload: Seq<u8>,
    users1: Seq<UserView>,
    store1: Seq<(Seq<u8>, Seq<u8>)>,
    out: Seq<OutboundView>,
    eff: Effect,
) -> bool {
    match spec_parse(payload) {
        Ok(CommandView::Stop) => {
            &&& users1 == users0
            &&& store1 == store0
            &&& if sender_id == OPERATOR_ID {
                out == spec_frames_to_all(users0, spec_encode(msg_shutdown())) && eff
                    == Effect::Shutdown
            } else {
                out == Seq::<OutboundView>::empty() && eff == Effect::Continue
            }
        },
        Ok(cmd) => {
            match spec_resolve(users0, sender_id) {
                None => {
                    &&& users1 == users0
                    &&& store1 == store0
                    &&& out == Seq::<OutboundView>::empty()
                    &&& eff == Effect::Continue
                },
                Some(i) => {
                    &&& eff == Effect::Continue
                    &&& match cmd {
                        CommandView::Whisper { target, message } => {
                            &&& users1 == users0
                            &&& store1 == store0
                            &&& match spec_resolve_name(users0, target) {
                                Some(t) => out == spec_frame_to(
                                    users0[t].id,
                                    spec_encode(spec_whisper_text(users0[i].username, message)),
                                ),
                                None => out == spec_frame_to(
                                    sender_id,
                                    spec_encode(msg_not_found()),
                                ),
                            }
                        },
                        CommandView::ListAll => {
                            &&& users1 == users0
                            &&& store1 == store0
                            &&& out == spec_listall_frames(users0, sender_id)
                        },
                        CommandView::Login { username, password } => {
                            &&& store1 == store0
                            &&& if spec_lookup(store0, username, password)
                                == LookupResult::ExistsCorrectPassword {
                                users1 == users0.update(i, UserView { username, id: sender_id })
                                    && out == spec_frame_to(
                                    sender_id,
                                    spec_encode(spec_welcome_back(username)),
                                )
                            } else {
                                users1 == users0 && out == spec_frame_to(
                                    sender_id,
                                    spec_encode(msg_login_failed()),
                                )
                            }
                        },
                        CommandView::Create { username, password } => {
                            if spec_lookup(store0, username, password) == LookupResult::Absent {
                                &&& store1 == store0.push((username, password))
                                &&& users1 == users0.update(
                                    i,
                                    UserView { username, id: sender_id },
                                )
                                &&& out == spec_frame_to(
                                    sender_id,
                                    spec_encode(spec_welcome_created(username)),
                                )
                            } else {
                                &&& store1 == store0
                                &&& users1 == users0
                                &&& out == spec_frame_to(
                                    sender_id,
                                    spec_encode(msg_account_exists()),
                                )
                            }
                        },
                        CommandView::Ping => {
                            &&& users1 == users0
                            &&& store1 == store0
                            &&& out == spec_frame_to(sender_id, spec_encode(msg_pong()))
                        },
                        CommandView::AboutMe => {
                            &&& users1 == users0
                            &&& store1 == store0
                            &&& out == spec_frame_to(
                                sender_id,
                                spec_encode(spec_aboutme_text(users0[i].username, sender_id)),
                            )
                        },
                        CommandView::Stop => false,
                    }
                },
            }
        },
        Err(e) => {
            &&& users1 == users0
            &&& store1 == store0
            &&& eff == Effect::Continue
            &&& match spec_resolve(users0, sender_id) {
                None => out == Seq::<OutboundView>::empty(),
                Some(i) => match e {
                    ParseError::IncompleteLogin => out == spec_frame_to(
                        sender_id,
                        spec_encode(msg_login_usage()),
                    ),
                    ParseError::IncompleteCreate => out == spec_frame_to(
                        sender_id,
                        spec_encode(msg_create_usage()),
                    ),
                    _ => out == Seq::<OutboundView>::empty(),
                },
            }
        },
    }
}

/// The transition any inbound envelope causes: a payload that begins with
/// the command sigil is dispatched as a command; any other payload is
/// broadcast, formatted as `<name>: <payload>`, to every registered user
/// but the sender — or dropped when the sender is no longer registered.
pub open spec fn spec_step(
    users0: Seq<UserView>,
    store0: Seq<(Seq<u8>, Seq<u8>)>,
    sender_id: usize,
    payload: Seq<u8>,
    users1: Seq<UserView>,
    store1: Seq<(Seq<u8>, Seq<u8>)>,
    out: Seq<OutboundView>,
    eff: Effect,
) -> bool {
    if payload.len() > 0 && payload[0] == SIGIL {
        spec_command_step(users0, store0, sender_id, payload, users1, store1, out, eff)
    } else {
        &&& users1 == users0
        &&& store1 == store0
        &&& eff == Effect::Continue
        &&& match spec_resolve(users0, sender_id) {
            Some(s) => out == spec_frames_to_all_except(
                users0,
                s,
                spec_encode(spec_broadcast_text(users0[s].username, payload)),
            ),
            None => out == Seq::<OutboundView>::empty(),
        }
    }
}

impl Router {
    /// Dispatch one `/verb` payload: interpret it, mutate the invoking
    /// user's registry entry and the account store as the verb demands,
    /// and return the response frames with the resulting effect.
    pub fn handle_command(&mut self, sender_id: usize, payload: &Vec<u8>) -> (r: (
        Vec<Outbound>,
        Effect,
    ))
        requires
            old(self).wf(),
        ensures
            final(self).wf(),
            final(self).next_id == old(self).next_id,
            spec_command_step(
                old(self).users_v(),
                old(self).store@,
                sender_id,
                payload@,
                final(self).users_v(),
                final(self).store@,
                r.0.deep_view(),
                r.1,
            ),
    {
        let ghost users0 = self.users_v();
        let ghost store0 = self.store@;
        let parsed = parse_command(payload);
        let cmd = match parsed {
            Err(e) => {
                let out: Vec<Outbound> = match find_user(&self.users, sender_id) {
                    None => {
                        let v: Vec<Outbound> = Vec::new();
                        proof {
                            assert(v.deep_view() =~= Seq::<OutboundView>::empty());
                        }
                        v
                    },
                    Some(_) => match e {
                        ParseError::IncompleteLogin => {
                            let t = "Wrong format. Use /login <user> <password>".as_bytes_vec();
                            frame_to(sender_id, encode(&t))
                        },
                        ParseError::IncompleteCreate => {
                            let t = "Wrong format. Use /create <user> <password>".as_bytes_vec();
                            frame_to(sender_id, encode(&t))
                        },
                        _ => {
                            let v: Vec<Outbound> = Vec::new();
                            proof {
                                assert(v.deep_view() =~= Seq::<OutboundView>::empty());
                            }
                            v
                        },
                    },
                };
                return (out, Effect::Continue);
            },
            Ok(c) => c,
        };
        if let Command::Stop = cmd {
            if sender_id == OPERATOR_ID {
                let notice = "Server is closing. No messages will be sent.".as_bytes_vec();
                let frame = encode(&notice);
                let out = frames_to_all(&self.users, &frame);
                return (out, Effect::Shutdown);
            } else {
                let out: Vec<Outbound> = Vec::new();
                proof {
                    assert(out.deep_view() =~= Seq::<OutboundView>::empty());
                }
                return (out, Effect::Continue);
            }
        }
        let invoker = match find_user(&self.users, sender_id) {
            None => {
                let out: Vec<Outbound> = Vec::new();
                proof {
                    assert(out.deep_view() =~= Seq::<OutboundView>::empty());
                }
                return (out, Effect::Continue);
            },
            Some(i) => i,
        };
        match cmd {
            Command::Whisper { target, message } => {
                match find_user_by_name(&self.users, &target) {
                    Some(t) => {
                        let text = whisper_text_bytes(&self.users[invoker].username, &message);
                        let recipient = self.users[t].id;
                        proof {
                            assert(users0[t as int] == self.users@[t as int].deep_view());
                        }
                        (frame_to(recipient, encode(&text)), Effect::Continue)
                    },
                    None => {
                        let t = "Couldn't find user.".as_bytes_vec();
                        (frame_to(sender_id, encode(&t)), Effect::Continue)
                    },
                }
            },
            Command::ListAll => (listall_frames(&self.users, sender_id), Effect::Continue),
            Command::Login { username, password } => {
                match self.store.lookup(&username, &password) {
                    LookupResult::ExistsCorrectPassword => {
                        let ghost prev = self.users_v();
                        let name = copy_bytes(&username);
                        self.users[invoker] = User { username: name, id: sender_id };
                        proof {
                            assert(self.users_v() =~~= prev.update(
                                invoker as int,
                                UserView { username: username@, id: sender_id },
                            ));
                            lemma_same_ids_wf(prev, self.users_v(), self.next_id);
                        }
                        (frame_to(sender_id, encode(&welcome_back_bytes(&username))), Effect::Continue)
                    },
                    _ => {
                        let t = "Log in failed. Incorrect username/password.".as_bytes_vec();
                        (frame_to(sender_id, encode(&t)), Effect::Continue)
                    },
                }
            },
            Command::Create { username, password } => {
                match self.store.lookup(&username, &password) {
                    LookupResult::Absent => {
                        let ghost prev = self.users_v();
                        let ghost uname = username@;
                        let reply = welcome_created_bytes(&username);
                        self.users[invoker] = User { username: copy_bytes(&username), id: sender_id };
                        self.store.insert(username, password);
                        proof {
                            assert(self.users_v() =~~= prev.update(
                                invoker as int,
                                UserView { username: uname, id: sender_id },
                            ));
                            lemma_same_ids_wf(prev, self.users_v(), self.next_id);
                        }
                        (frame_to(sender_id, encode(&reply)), Effect::Continue)
                    },
                    _ => {
                        let t = "Account already exists".as_bytes_vec();
                        (frame_to(sender_id, encode(&t)), Effect::Continue)
                    },
                }
            },
            Command::Ping => {
                let t = "pong".as_bytes_vec();
                (frame_to(sender_id, encode(&t)), Effect::Continue)
            },
            Command::AboutMe => {
                let text = aboutme_text_bytes(&self.users[invoker].username, sender_id);
                (frame_to(sender_id, encode(&text)), Effect::Continue)
            },
            Command::Stop => {
                // unreachable: Stop returned above
                let out: Vec<Outbound> = Vec::new();
                proof {
                    assert(out.deep_view() =~= Seq::<OutboundView>::empty());
                }
                (out, Effect::Continue)
            },
        }
    }

    /// Route one inbound envelope: a `/`-payload is dispatched as a
    /// command, anything else is broadcast to every other user.
    pub fn handle_envelope(&mut self, sender_id: usize, payload: &Vec<u8>) -> (r: (
        Vec<Outbound>,
        Effect,
    ))
        requires
            old(self).wf(),
        ensures
            final(self).wf(),
            final(self).next_id == old(self).next_id,
            spec_step(
                old(self).users_v(),
                old(self).store@,
                sender_id,
                payload@,
                final(self).users_v(),
                final(self).store@,
                r.0.deep_view(),
                r.1,
            ),
    {
        if payload.len() > 0 && payload[0] == SIGIL {
            self.handle_command(sender_id, payload)
        } else {
            match find_user(&self.users, sender_id) {
                None => {
                    let out: Vec<Outbound> = Vec::new();
                    proof {
                        assert(out.deep_view() =~= Seq::<OutboundView>::empty());
                    }
                    (out, Effect::Continue)
                },
                Some(s) => {
                    let ghost users0 = self.users_v();
                    proof {
                        assert(users0[s as int] == self.users@[s as int].deep_view());
                    }
                    let text = broadcast_text_bytes(&self.users[s].username, payload);
                    let frame = encode(&text);
                    let out = frames_to_all_except(&self.users, s, &frame);
                    (out, Effect::Continue)
                },
            }
        }
    }
}

/// In a well-formed registry an envelope's sender id maps to at most one
/// user: whichever entry holds the id is the one resolution finds.
pub proof fn lemma_resolve_unique(users: Seq<UserView>, next_id: usize, i: int, id: usize)
    requires
        wf_users(users, next_id),
        0 <= i < users.len(),
        users[i].id == id,
    ensures
        spec_resolve(users, id) == Some(i),
    decreases users.len(),
{
    if i == 0 {
    } else {
        assert(users[0].id != users[i].id);
        assert(users.drop_first()[i - 1] == users[i]);
        assert forall|a: int, b: int|
            0 <= a < b < users.drop_first().len() implies #[trigger] users.drop_first()[a].id
            != #[trigger] users.drop_first()[b].id by {
            assert(users.drop_first()[a] == users[a + 1]);
            assert(users.drop_first()[b] == users[b + 1]);
        }
        assert forall|a: int| 0 <= a < users.drop_first().len() implies OPERATOR_ID < (#[trigger] users.drop_first()[a]).id
            && users.drop_first()[a].id < next_id by {
            assert(users.drop_first()[a] == users[a + 1]);
        }
        lemma_resolve_unique(users.drop_first(), next_id, i - 1, id);
    }
}

/// Broadcast delivery: the frame goes to every registered user except the
/// one at index `s` — each exactly once, in registry order — and never to
/// the user at `s` itself.
pub proof fn lemma_broadcast_delivery(users: Seq<UserView>, s: int, frame: Seq<u8>, next_id: usize)
    requires
        wf_users(users, next_id),
        0 <= s < users.len(),
    ensures
        spec_frames_to_all_except(users, s, frame).len() == users.len() - 1,
        forall|k: int|
            0 <= k < users.len() - 1 ==> (#[trigger] spec_frames_to_all_except(
                users,
                s,
                frame,
            )[k]).frame == frame,
        forall|k: int|
            0 <= k < users.len() - 1 ==> (#[trigger] spec_frames_to_all_except(
                users,
                s,
                frame,
            )[k]).recipient != users[s].id,
        forall|j: int|
            0 <= j < users.len() && j != s ==> (#[trigger] users[j]).id
                == spec_frames_to_all_except(users, s, frame)[if j < s {
                j
            } else {
                j - 1
            }].recipient,
{
    let out = spec_frames_to_all_except(users, s, frame);
    assert forall|k: int| 0 <= k < users.len() - 1 implies (#[trigger] out[k]).recipient
        != users[s].id by {
        let j = if k < s {
            k
        } else {
            k + 1
        };
        assert(out[k].recipient == users[j].id);
        if j < s {
            assert(users[j].id != users[s].id);
        } else {
            assert(users[s].id != users[j].id);
        }
    }
}

/// A whisper to a name nobody holds produces exactly one frame — the
/// "not found" notice back to the sender — and nothing to anyone else,
/// with no state change.
pub proof fn lemma_whisper_unknown_target(
    users0: Seq<UserView>,
    store0: Seq<(Seq<u8>, Seq<u8>)>,
    sender_id: usize,
    payload: Seq<u8>,
    users1: Seq<UserView>,
    store1: Seq<(Seq<u8>, Seq<u8>)>,
    out: Seq<OutboundView>,
    eff: Effect,
    target: Seq<u8>,
    message: Seq<u8>,
)
    requires
        spec_command_step(users0, store0, sender_id, payload, users1, store1, out, eff),
        spec_parse(payload) == Ok::<CommandView, ParseError>(
            CommandView::Whisper { target, message },
        ),
        spec_resolve(users0, sender_id) is Some,
        spec_resolve_name(users0, target) is None,
    ensures
        out.len() == 1,
        out[0].recipient == sender_id,
        out[0].frame == spec_encode(msg_not_found()),
        users1 == users0,
        store1 == store0,
        eff == Effect::Continue,
{
}

/// `/stop` from the operator: every registered user is sent the shutdown
/// notice, the store is left exactly as it was — ready to be persisted —
/// and the effect orders the shutdown.
pub proof fn lemma_stop_notifies_all(
    users0: Seq<UserView>,
    store0: Seq<(Seq<u8>, Seq<u8>)>,
    payload: Seq<u8>,
    users1: Seq<UserView>,
    store1: Seq<(Seq<u8>, Seq<u8>)>,
    out: Seq<OutboundView>,
    eff: Effect,
)
    requires
        spec_command_step(users0, store0, OPERATOR_ID, payload, users1, store1, out, eff),
        spec_parse(payload) == Ok::<CommandView, ParseError>(CommandView::Stop),
    ensures
        out.len() == users0.len(),
        forall|k: int|
            0 <= k < out.len() ==> (#[trigger] out[k]).recipient == users0[k].id && out[k].frame
                == spec_encode(msg_shutdown()),
        eff == Effect::Shutdown,
        users1 == users0,
        store1 == store0,
{
}

/// Two registries with identical ids in identical positions are equally
/// well formed.
proof fn lemma_same_ids_wf(users0: Seq<UserView>, users1: Seq<UserView>, next_id: usize)
    requires
        wf_users(users0, next_id),
        users1.len() == users0.len(),
        forall|j: int| 0 <= j < users1.len() ==> (#[trigger] users1[j]).id == users0[j].id,
    ensures
        wf_users(users1, next_id),
{
}

} // verus!
