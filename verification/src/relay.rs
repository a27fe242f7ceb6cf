//! The relay: which connections a message goes to.

use crate::message::{system_nanos, Kind, Message};
use crate::text::same;
use crate::textmap::TextMap;
use vstd::prelude::*;

verus! {

/// What the command line asks for.
pub enum Command {
    /// Listen on an address.
    Listen(String),
    /// Print the usage text.
    Help,
    /// The named option lacks its value.
    MissingValue(String),
    /// The argument is not known.
    Unknown(String),
}

/// What a command line asks for.
pub enum CommandView {
    Listen(Seq<char>),
    Help,
    MissingValue(Seq<char>),
    Unknown(Seq<char>),
}

impl View for Command {
    type V = CommandView;

    open spec fn view(&self) -> CommandView {
        match self {
            Command::Listen(a) => CommandView::Listen(a@),
            Command::Help => CommandView::Help,
            Command::MissingValue(a) => CommandView::MissingValue(a@),
            Command::Unknown(a) => CommandView::Unknown(a@),
        }
    }
}

/// The address listened on where neither arguments nor environment give one.
pub const DEFAULT_ADDR: &'static str = "127.0.0.1:8080";

/// What `args` ask for, with `addr` as the address so far. The last address given
/// wins; the first argument that asks for help or is wrong decides.
pub open spec fn command(addr: Seq<char>, args: Seq<Seq<char>>) -> CommandView
    decreases args.len(),
{
    if args.len() == 0 {
        CommandView::Listen(addr)
    } else if args[0] == "--bind"@ || args[0] == "--addr"@ {
        if args.len() == 1 {
            CommandView::MissingValue(args[0])
        } else {
            command(args[1], args.skip(2))
        }
    } else if args[0] == "-h"@ || args[0] == "--help"@ {
        CommandView::Help
    } else {
        CommandView::Unknown(args[0])
    }
}

/// Reads the command line, after the program's name. `env` is what the environment
/// sets as the address.
pub fn parse_command(env: Option<String>, args: &Vec<String>) -> (res: Command)
    ensures
        res@ == command(
            match env {
                Some(a) => a@,
                None => DEFAULT_ADDR@,
            },
            args.deep_view(),
        ),
{
    let mut addr: String = match env {
        Some(a) => a,
        None => DEFAULT_ADDR.to_string(),
    };
    let ghost start = addr@;
    let ghost all = args.deep_view();
    let mut i: usize = 0;
    assert(all.skip(0) =~= all);
    while i < args.len()
        invariant
            all == args.deep_view(),
            all.len() == args@.len(),
            i <= args@.len(),
            command(start, all) == command(addr@, all.skip(i as int)),
        decreases args@.len() - i,
    {
        let a = args[i].as_str();
        let ghost rest = all.skip(i as int);
        assert(rest[0] == a@);
        if same(a, "--bind") || same(a, "--addr") {
            if i + 1 == args.len() {
                return Command::MissingValue(a.to_string());
            }
            addr = args[i + 1].clone();
            assert(rest[1] == addr@);
            assert(rest.skip(2) =~= all.skip(i + 2));
            i += 2;
        } else if same(a, "-h") || same(a, "--help") {
            return Command::Help;
        } else {
            return Command::Unknown(a.to_string());
        }
    }
    Command::Listen(addr)
}

/// A connection in a room: its identifier, and the number of the channel through
/// which it is written to.
#[derive(Clone, Copy, Debug, PartialEq, Eq, Structural)]
pub struct Member {
    pub conn: u64,
    pub channel: u64,
}

/// The rooms and who is in them, each in the order of joining.
pub struct Rooms {
    rooms: TextMap<Vec<Member>>,
}

impl View for Rooms {
    type V = Map<Seq<char>, Seq<Member>>;

    closed spec fn view(&self) -> Map<Seq<char>, Seq<Member>> {
        self.rooms@.map_values(|v: Vec<Member>| v@)
    }
}

/// The members of a room; none where the room does not exist.
pub open spec fn members(rooms: Map<Seq<char>, Seq<Member>>, room: Seq<char>) -> Seq<Member> {
    if rooms.contains_key(room) {
        rooms[room]
    } else {
        Seq::empty()
    }
}

/// The members whose channel is not among `closed`.
pub open spec fn live(list: Seq<Member>, closed: Seq<u64>) -> Seq<Member> {
    list.filter(|m: Member| !closed.contains(m.channel))
}

/// The channels of the members other than `conn`.
pub open spec fn channels_of_others(list: Seq<Member>, conn: u64) -> Seq<u64> {
    list.filter(|m: Member| m.conn != conn).map_values(|m: Member| m.channel)
}

/// `rooms` with the closed channels of one room dropped.
pub open spec fn pruned(
    rooms: Map<Seq<char>, Seq<Member>>,
    room: Seq<char>,
    closed: Seq<u64>,
) -> Map<Seq<char>, Seq<Member>> {
    if rooms.contains_key(room) {
        rooms.insert(room, live(rooms[room], closed))
    } else {
        rooms
    }
}

/// `rooms` with a member added at the end of a room.
pub open spec fn joined(
    rooms: Map<Seq<char>, Seq<Member>>,
    room: Seq<char>,
    m: Member,
) -> Map<Seq<char>, Seq<Member>> {
    rooms.insert(room, members(rooms, room).push(m))
}

fn listed(list: &Vec<u64>, x: u64) -> (res: bool)
    ensures
        res == list@.contains(x),
{
    let mut i: usize = 0;
    while i < list.len()
        invariant
            i <= list@.len(),
            forall|j: int| 0 <= j < i ==> list@[j] != x,
        decreases list@.len() - i,
    {
        if list[i] == x {
            return true;
        }
        i += 1;
    }
    false
}

impl Rooms {
    /// No room is listed twice.
    pub closed spec fn wf(&self) -> bool {
        self.rooms.wf()
    }

    /// No rooms.
    pub fn new() -> (res: Rooms)
        ensures
            res.wf(),
            res@ == Map::<Seq<char>, Seq<Member>>::empty(),
    {
        let res = Rooms { rooms: TextMap::new() };
        assert(res@ =~= Map::<Seq<char>, Seq<Member>>::empty());
        res
    }

    /// The members of a room.
    pub fn members(&self, room: &str) -> (res: Vec<Member>)
        requires
            self.wf(),
        ensures
            res@ == members(self@, room@),
    {
        match self.rooms.get(room) {
            Some(list) => {
                let mut out: Vec<Member> = Vec::new();
                let mut i: usize = 0;
                while i < list.len()
                    invariant
                        i <= list@.len(),
                        out@ == list@.take(i as int),
                    decreases list@.len() - i,
                {
                    out.push(list[i]);
                    i += 1;
                }
                assert(out@ =~= list@);
                out
            },
            None => Vec::new(),
        }
    }

    fn put(&mut self, room: &str, list: Vec<Member>)
        requires
            old(self).wf(),
        ensures
            final(self).wf(),
            final(self)@ == old(self)@.insert(room@, list@),
    {
        let ghost before = self@;
        self.rooms.insert(room, list);
        assert(self@ =~= before.insert(room@, list@));
    }

    /// Adds a member at the end of a room, which is made where it does not exist.
    pub fn join(&mut self, room: &str, m: Member)
        requires
            old(self).wf(),
        ensures
            final(self).wf(),
            final(self)@ == joined(old(self)@, room@, m),
    {
        let mut list = self.members(room);
        list.push(m);
        self.put(room, list);
    }

    /// Drops the members of a room whose channel is closed. A channel that is merely
    /// full stays.
    pub fn prune(&mut self, room: &str, closed: &Vec<u64>)
        requires
            old(self).wf(),
        ensures
            final(self).wf(),
            final(self)@ == pruned(old(self)@, room@, closed@),
    {
        if self.rooms.get(room).is_none() {
            return;
        }
        let list = self.members(room);
        let mut kept: Vec<Member> = Vec::new();
        let mut i: usize = 0;
        let ghost keep = |m: Member| !closed@.contains(m.channel);
        assert(list@.take(0).filter(keep) =~= Seq::empty()) by {
            reveal(Seq::filter);
        }
        while i < list.len()
            invariant
                i <= list@.len(),
                keep == (|m: Member| !closed@.contains(m.channel)),
                kept@ == list@.take(i as int).filter(keep),
            decreases list@.len() - i,
        {
            let m = list[i];
            assert(list@.take(i + 1).drop_last() =~= list@.take(i as int));
            proof {
                reveal(Seq::filter);
            }
            if !listed(closed, m.channel) {
                kept.push(m);
            }
            i += 1;
        }
        assert(list@.take(i as int) =~= list@);
        self.put(room, kept);
    }
}

/// The channels of the members other than `conn`.
fn other_channels(list: &Vec<Member>, conn: u64) -> (res: Vec<u64>)
    ensures
        res@ == channels_of_others(list@, conn),
{
    let mut out: Vec<u64> = Vec::new();
    let mut i: usize = 0;
    let ghost other = |m: Member| m.conn != conn;
    let ghost channel = |m: Member| m.channel;
    assert(list@.take(0).filter(other).map_values(channel) =~= Seq::empty()) by {
        reveal(Seq::filter);
    }
    while i < list.len()
        invariant
            i <= list@.len(),
            other == (|m: Member| m.conn != conn),
            channel == (|m: Member| m.channel),
            out@ == list@.take(i as int).filter(other).map_values(channel),
        decreases list@.len() - i,
    {
        let m = list[i];
        assert(list@.take(i + 1).drop_last() =~= list@.take(i as int));
        proof {
            reveal(Seq::filter);
        }
        if m.conn != conn {
            out.push(m.channel);
        }
        assert(out@ =~= list@.take(i + 1).filter(other).map_values(channel));
        i += 1;
    }
    assert(list@.take(i as int) =~= list@);
    out
}

/// One connection, as the relay sees it.
pub struct Connection {
    pub me: Member,
    /// The room of its first message.
    pub room: Option<String>,
}

/// The rooms after a message: its connection joins the room of its first message,
/// and a message that is passed on drops the room's closed channels.
pub open spec fn rooms_after(
    rooms: Map<Seq<char>, Seq<Member>>,
    me: Member,
    registered: bool,
    room: Seq<char>,
    kind: Kind,
    closed: Seq<u64>,
) -> Map<Seq<char>, Seq<Member>> {
    let entered = if registered {
        rooms
    } else {
        joined(rooms, room, me)
    };
    if kind == Kind::Join {
        entered
    } else {
        pruned(entered, room, closed)
    }
}

/// The channels that a message is passed on to: those of the other members of its
/// room. A join is not passed on.
pub open spec fn targets(
    rooms: Map<Seq<char>, Seq<Member>>,
    me: Member,
    registered: bool,
    room: Seq<char>,
    kind: Kind,
    closed: Seq<u64>,
) -> Seq<u64> {
    if kind == Kind::Join {
        Seq::empty()
    } else {
        channels_of_others(
            members(rooms_after(rooms, me, registered, room, kind, closed), room),
            me.conn,
        )
    }
}

impl Connection {
    /// A connection that has sent nothing yet.
    pub fn new(me: Member) -> (res: Connection)
        ensures
            res.me == me,
            res.room is None,
    {
        Connection { me, room: None }
    }

    /// Takes a message from the connection: the channels that its bytes go to.
    /// `closed` are the channels of the message's room that are closed.
    pub fn on_message(&mut self, rooms: &mut Rooms, msg: &Message, closed: &Vec<u64>) -> (res: Vec<
        u64,
    >)
        requires
            old(rooms).wf(),
        ensures
            final(rooms).wf(),
            final(self).me == old(self).me,
            match old(self).room {
                Some(_) => final(self).room == old(self).room,
                None => final(self).room is Some && final(self).room->0@ == msg.room@,
            },
            final(rooms)@ == rooms_after(
                old(rooms)@,
                old(self).me,
                old(self).room is Some,
                msg.room@,
                msg.kind,
                closed@,
            ),
            res@ == targets(
                old(rooms)@,
                old(self).me,
                old(self).room is Some,
                msg.room@,
                msg.kind,
                closed@,
            ),
    {
        let room = msg.room.as_str();
        if self.room.is_none() {
            rooms.join(room, self.me);
            self.room = Some(room.to_string());
        }
        if msg.kind == Kind::Join {
            return Vec::new();
        }
        rooms.prune(room, closed);
        let list = rooms.members(room);
        other_channels(&list, self.me.conn)
    }

    /// The connection has ended: its room's closed channels are dropped.
    pub fn on_end(&self, rooms: &mut Rooms, closed: &Vec<u64>)
        requires
            old(rooms).wf(),
        ensures
            final(rooms).wf(),
            final(rooms)@ == match self.room {
                Some(r) => pruned(old(rooms)@, r@, closed@),
                None => old(rooms)@,
            },
    {
        if let Some(r) = &self.room {
            rooms.prune(r.as_str(), closed);
        }
    }
}

/// A message never goes back to the connection that sent it: every channel it goes
/// to is that of another connection, in the message's room, and open.
pub proof fn law_targets_are_open_others_in_the_room(
    rooms: Map<Seq<char>, Seq<Member>>,
    me: Member,
    registered: bool,
    room: Seq<char>,
    kind: Kind,
    closed: Seq<u64>,
    i: int,
)
    requires
        0 <= i < targets(rooms, me, registered, room, kind, closed).len(),
    ensures
        exists|m: Member|
            members(rooms, room).contains(m) && m.conn != me.conn && !closed.contains(m.channel)
                && m.channel == targets(rooms, me, registered, room, kind, closed)[i],
{
    let entered = if registered {
        rooms
    } else {
        joined(rooms, room, me)
    };
    let after = members(pruned(entered, room, closed), room);
    let others = after.filter(|m: Member| m.conn != me.conn);
    let m = others[i];
    lemma_filtered(after, |m: Member| m.conn != me.conn, i);
    assert(after.contains(m));
    let j = choose|j: int| 0 <= j < after.len() && after[j] == m;
    let list = members(entered, room);
    assert(after == live(list, closed));
    lemma_filtered(list, |m: Member| !closed.contains(m.channel), j);
    assert(list.contains(m));
    if !registered {
        let k = choose|k: int| 0 <= k < list.len() && list[k] == m;
        if k < members(rooms, room).len() {
            assert(members(rooms, room)[k] == m);
        }
    }
    assert(members(rooms, room).contains(m));
}

/// Every open member of the room other than the sender gets the message.
pub proof fn law_open_others_are_targets(
    rooms: Map<Seq<char>, Seq<Member>>,
    me: Member,
    registered: bool,
    room: Seq<char>,
    kind: Kind,
    closed: Seq<u64>,
    m: Member,
)
    requires
        kind != Kind::Join,
        members(rooms, room).contains(m),
        m.conn != me.conn,
        !closed.contains(m.channel),
    ensures
        targets(rooms, me, registered, room, kind, closed).contains(m.channel),
{
    let entered = if registered {
        rooms
    } else {
        joined(rooms, room, me)
    };
    let list = members(entered, room);
    let k = choose|k: int| 0 <= k < members(rooms, room).len() && members(rooms, room)[k] == m;
    assert(list[k] == m);
    let open = |m: Member| !closed.contains(m.channel);
    let after = members(pruned(entered, room, closed), room);
    lemma_kept(list, open, k);
    assert(after == list.filter(open));
    let j = choose|j: int| 0 <= j < after.len() && after[j] == m;
    let other = |m: Member| m.conn != me.conn;
    lemma_kept(after, other, j);
    let others = after.filter(other);
    let h = choose|h: int| 0 <= h < others.len() && others[h] == m;
    assert(others.map_values(|m: Member| m.channel)[h] == m.channel);
}

/// What a message does to a room that it is not for: nothing.
pub proof fn law_other_rooms_are_untouched(
    rooms: Map<Seq<char>, Seq<Member>>,
    me: Member,
    registered: bool,
    room: Seq<char>,
    kind: Kind,
    closed: Seq<u64>,
    other: Seq<char>,
)
    requires
        other != room,
    ensures
        members(rooms_after(rooms, me, registered, room, kind, closed), other) == members(
            rooms,
            other,
        ),
{
}

proof fn lemma_filtered<A>(s: Seq<A>, p: spec_fn(A) -> bool, i: int)
    requires
        0 <= i < s.filter(p).len(),
    ensures
        p(s.filter(p)[i]),
        s.contains(s.filter(p)[i]),
    decreases s.len(),
{
    reveal(Seq::filter);
    if s.len() > 0 {
        let t = s.drop_last();
        if i < t.filter(p).len() {
            lemma_filtered(t, p, i);
            let j = choose|j: int| 0 <= j < t.len() && t[j] == t.filter(p)[i];
            assert(s[j] == t[j]);
        } else {
            assert(s[s.len() - 1] == s.filter(p)[i]);
        }
    }
}

proof fn lemma_kept<A>(s: Seq<A>, p: spec_fn(A) -> bool, k: int)
    requires
        0 <= k < s.len(),
        p(s[k]),
    ensures
        s.filter(p).contains(s[k]),
    decreases s.len(),
{
    reveal(Seq::filter);
    let t = s.drop_last();
    if k < t.len() {
        lemma_kept(t, p, k);
        let j = choose|j: int| 0 <= j < t.filter(p).len() && t.filter(p)[j] == s[k];
        assert(s.filter(p)[j] == s[k]);
    } else {
        assert(s.filter(p).last() == s[k]);
    }
}

/// A clock reading in nanoseconds, in 64 bits; zero for a clock before 1970.
pub open spec fn conn_id(nanos: Option<u128>) -> u64 {
    match nanos {
        Some(n) => (n % 0x1_0000_0000_0000_0000) as u64,
        None => 0,
    }
}

/// The connection identifier for a clock reading.
pub fn conn_id_of(nanos: Option<u128>) -> (res: u64)
    ensures
        res == conn_id(nanos),
{
    match nanos {
        Some(n) => (n % 0x1_0000_0000_0000_0000) as u64,
        None => 0,
    }
}

/// A connection identifier, from the present time.
pub fn rand_conn_id() -> (res: u64)
    ensures
        exists|nanos: Option<u128>| res == #[trigger] conn_id(nanos),
{
    conn_id_of(system_nanos())
}

/// After its first message a connection whose channel is open is in the message's room, whoever
/// else was there: what another connection sends to the room later is passed on to it.
pub proof fn law_who_has_joined_gets_messages(
    rooms: Map<Seq<char>, Seq<Member>>,
    me: Member,
    room: Seq<char>,
    first: Kind,
    closed_then: Seq<u64>,
    other: Member,
    other_registered: bool,
    kind: Kind,
    closed_now: Seq<u64>,
)
    requires
        !closed_then.contains(me.channel),
        !closed_now.contains(me.channel),
        other.conn != me.conn,
        kind != Kind::Join,
    ensures
        members(rooms_after(rooms, me, false, room, first, closed_then), room).contains(me),
        targets(
            rooms_after(rooms, me, false, room, first, closed_then),
            other,
            other_registered,
            room,
            kind,
            closed_now,
        ).contains(me.channel),
{
    let list = members(rooms, room).push(me);
    assert(list[list.len() - 1] == me);
    let open = |m: Member| !closed_then.contains(m.channel);
    lemma_kept(list, open, list.len() - 1);
    let after = rooms_after(rooms, me, false, room, first, closed_then);
    assert(members(joined(rooms, room, me), room) == list);
    assert(members(after, room).contains(me));
    law_open_others_are_targets(
        after,
        other,
        other_registered,
        room,
        kind,
        closed_now,
        me,
    );
}

/// Who is in a room and whose channel is open stays there, whatever message comes, and so do
/// the members of every other room.
pub proof fn law_open_members_stay(
    rooms: Map<Seq<char>, Seq<Member>>,
    me: Member,
    registered: bool,
    room: Seq<char>,
    kind: Kind,
    closed: Seq<u64>,
    at: Seq<char>,
    m: Member,
)
    requires
        members(rooms, at).contains(m),
        at == room ==> !closed.contains(m.channel),
    ensures
        members(rooms_after(rooms, me, registered, room, kind, closed), at).contains(m),
{
    if at == room {
        let list = if registered {
            members(rooms, room)
        } else {
            members(rooms, room).push(me)
        };
        let k = choose|k: int| 0 <= k < members(rooms, room).len() && members(rooms, room)[k] == m;
        assert(list[k] == m);
        lemma_kept(list, |m: Member| !closed.contains(m.channel), k);
    } else {
        law_other_rooms_are_untouched(rooms, me, registered, room, kind, closed, at);
    }
}

/// Nobody comes into a room but by a first message to it, and a message that is passed on
/// leaves no closed channel there.
pub proof fn law_members_have_joined(
    rooms: Map<Seq<char>, Seq<Member>>,
    me: Member,
    registered: bool,
    room: Seq<char>,
    kind: Kind,
    closed: Seq<u64>,
    at: Seq<char>,
    m: Member,
)
    requires
        members(rooms_after(rooms, me, registered, room, kind, closed), at).contains(m),
    ensures
        members(rooms, at).contains(m) || (!registered && at == room && m == me),
        at == room && kind != Kind::Join ==> !closed.contains(m.channel),
{
    let after = members(rooms_after(rooms, me, registered, room, kind, closed), at);
    let i = choose|i: int| 0 <= i < after.len() && after[i] == m;
    if at == room {
        let list = if registered {
            members(rooms, room)
        } else {
            members(rooms, room).push(me)
        };
        let open = |m: Member| !closed.contains(m.channel);
        if kind != Kind::Join {
            assert(after == list.filter(open));
            lemma_filtered(list, open, i);
        }
        assert(list.contains(m));
        let k = choose|k: int| 0 <= k < list.len() && list[k] == m;
        if k < members(rooms, room).len() {
            assert(members(rooms, room)[k] == m);
        }
    } else {
        law_other_rooms_are_untouched(rooms, me, registered, room, kind, closed, at);
    }
}

/// A join is passed on to nobody.
pub proof fn law_joins_are_not_passed_on(
    rooms: Map<Seq<char>, Seq<Member>>,
    me: Member,
    registered: bool,
    room: Seq<char>,
    closed: Seq<u64>,
)
    ensures
        targets(rooms, me, registered, room, Kind::Join, closed).len() == 0,
{
}

/// No two members of the list have the same channel.
pub open spec fn own_channels(list: Seq<Member>) -> bool {
    forall|i: int, j: int|
        0 <= i < j < list.len() ==> (#[trigger] list[i]).channel != (#[trigger] list[j]).channel
}

proof fn lemma_filter_keeps_channels(list: Seq<Member>, p: spec_fn(Member) -> bool)
    requires
        own_channels(list),
    ensures
        own_channels(list.filter(p)),
    decreases list.len(),
{
    reveal(Seq::filter);
    if list.len() > 0 {
        let t = list.drop_last();
        assert(own_channels(t)) by {
            assert forall|i: int, j: int| 0 <= i < j < t.len() implies (#[trigger] t[i]).channel
                != (#[trigger] t[j]).channel by {
                assert(list[i].channel != list[j].channel);
            }
        }
        lemma_filter_keeps_channels(t, p);
        let f = list.filter(p);
        let g = t.filter(p);
        assert forall|i: int, j: int| 0 <= i < j < f.len() implies (#[trigger] f[i]).channel != (
        #[trigger] f[j]).channel by {
            if j < g.len() {
                assert(g[i].channel != g[j].channel);
            } else {
                lemma_filtered(t, p, i);
                let k = choose|k: int| 0 <= k < t.len() && t[k] == g[i];
                assert(list[k].channel != list[list.len() - 1].channel);
            }
        }
    }
}

/// Where each member has a channel of its own, a message goes to none of them twice.
pub proof fn law_nobody_gets_a_message_twice(
    rooms: Map<Seq<char>, Seq<Member>>,
    me: Member,
    registered: bool,
    room: Seq<char>,
    kind: Kind,
    closed: Seq<u64>,
)
    requires
        own_channels(members(rooms, room)),
        !registered ==> forall|i: int|
            0 <= i < members(rooms, room).len() ==> (#[trigger] members(rooms, room)[i]).channel
                != me.channel,
    ensures
        targets(rooms, me, registered, room, kind, closed).no_duplicates(),
        own_channels(members(rooms_after(rooms, me, registered, room, kind, closed), room)),
{
    let list = if registered {
        members(rooms, room)
    } else {
        members(rooms, room).push(me)
    };
    assert(own_channels(list));
    let open = |m: Member| !closed.contains(m.channel);
    let other = |m: Member| m.conn != me.conn;
    lemma_filter_keeps_channels(list, open);
    lemma_filter_keeps_channels(list.filter(open), other);
}

/// The end of a connection drops the closed channels of its room and nobody else.
pub proof fn law_an_end_drops_the_closed(
    rooms: Map<Seq<char>, Seq<Member>>,
    room: Seq<char>,
    closed: Seq<u64>,
    at: Seq<char>,
    m: Member,
)
    ensures
        members(pruned(rooms, room, closed), at).contains(m) <==> members(rooms, at).contains(m)
            && !(at == room && closed.contains(m.channel)),
{
    let list = members(rooms, at);
    let after = members(pruned(rooms, room, closed), at);
    let open = |m: Member| !closed.contains(m.channel);
    if at == room && rooms.contains_key(room) {
        assert(after == list.filter(open));
        if after.contains(m) {
            let i = choose|i: int| 0 <= i < after.len() && after[i] == m;
            lemma_filtered(list, open, i);
        }
        if list.contains(m) && !closed.contains(m.channel) {
            let k = choose|k: int| 0 <= k < list.len() && list[k] == m;
            lemma_kept(list, open, k);
        }
    }
}

/// An address that is given after all others is the one listened on.
pub proof fn law_the_last_address_wins(
    addr: Seq<char>,
    args: Seq<Seq<char>>,
    option: Seq<char>,
    last: Seq<char>,
)
    requires
        command(addr, args) is Listen,
        option == "--bind"@ || option == "--addr"@,
    ensures
        command(addr, args + seq![option, last]) == CommandView::Listen(last),
        command(addr, args + seq![option]) == CommandView::MissingValue(option),
        command(addr, Seq::empty()) == CommandView::Listen(addr),
    decreases args.len(),
{
    let all = args + seq![option, last];
    let short = args + seq![option];
    reveal_with_fuel(command, 2);
    if args.len() == 0 {
        assert(all.skip(2) =~= Seq::<Seq<char>>::empty());
    } else {
        assert(all.skip(2) =~= args.skip(2) + seq![option, last]);
        assert(short.skip(2) =~= args.skip(2) + seq![option]);
        law_the_last_address_wins(args[1], args.skip(2), option, last);
    }
}

/// The first argument that is no option for the address decides: help is given where it is
/// asked for, and any other argument is unknown.
pub proof fn law_the_first_other_argument_decides(
    addr: Seq<char>,
    args: Seq<Seq<char>>,
    arg: Seq<char>,
    rest: Seq<Seq<char>>,
)
    requires
        command(addr, args) is Listen,
        arg != "--bind"@,
        arg != "--addr"@,
    ensures
        command(addr, args + seq![arg] + rest) == if arg == "-h"@ || arg == "--help"@ {
            CommandView::Help
        } else {
            CommandView::Unknown(arg)
        },
    decreases args.len(),
{
    let all = args + seq![arg] + rest;
    reveal_with_fuel(command, 2);
    if args.len() == 0 {
        assert(all[0] == arg);
    } else {
        assert(all.skip(2) =~= args.skip(2) + seq![arg] + rest);
        law_the_first_other_argument_decides(args[1], args.skip(2), arg, rest);
    }
}

/// Connections that are made at different times have different identifiers, as long as the
/// clock fits in 64 bits.
pub proof fn law_connections_are_told_apart(a: u128, b: u128)
    requires
        a < 18446744073709551616,
        b < 18446744073709551616,
        conn_id(Some(a)) == conn_id(Some(b)),
    ensures
        a == b,
{
}

} // verus!
