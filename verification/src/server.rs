//! The server: who is known under which nickname, and what each message of
//! a client does to that and to the other clients.
//!
//! One task owns the state and applies the messages one by one, in the order
//! in which they come off its queue. [`ServerState::apply`] is one such step.
//! It sends and receives nothing: it says what is to be sent.

use crate::command::Command;
use crate::command::CommandView;
use crate::message::render_message;
use crate::message::LanChatMessage;
use crate::message::MessageView;
use crate::message::Prefix;
use crate::message::PrefixView;
use vstd::prelude::*;

verus! {

/// How many messages of the clients may wait for the server.
pub const INBOUND_CAPACITY: usize = 128;

/// How many lines may wait for a client that is slow to take them. A client
/// that falls further behind misses the oldest lines and goes on with the
/// oldest that is still kept.
pub const BROADCAST_CAPACITY: usize = 8;

/// The address of the far end of a connection. It tells the connections
/// apart: a client that comes back from the same address is the same to the
/// server.
#[derive(Clone, Copy, Debug, PartialEq, Eq, Hash, Structural)]
#[allow(inconsistent_fields)]
pub enum ConnectionAddr {
    /// An address of IP version 4, and a port.
    V4 { ip: u32, port: u16 },
    /// An address of IP version 6, a port, and the flow and scope that go
    /// with the address.
    V6 { ip: u128, port: u16, flowinfo: u32, scope_id: u32 },
}

/// What the server answers to the connection that a message came from.
#[derive(Clone, Copy, Debug, PartialEq, Eq, Structural)]
pub enum Response {
    /// The command has been carried out.
    Ack,
    /// The connection is to be closed: the client has asked to leave.
    HangUp,
}

/// What is to be done after a message has been applied.
#[derive(Debug, Clone, PartialEq)]
pub struct Effect {
    /// The line to send to every client, if there is one.
    pub broadcast: Option<String>,
    /// The answer to the connection that the message came from, if there is
    /// one. With none, the connection gets no answer and goes on.
    pub reply: Option<Response>,
}

/// An effect as a mathematical value.
pub struct EffectView {
    pub broadcast: Option<Seq<char>>,
    pub reply: Option<Response>,
}

impl View for Effect {
    type V = EffectView;

    open spec fn view(&self) -> EffectView {
        EffectView {
            broadcast: match self.broadcast {
                Some(line) => Some(line@),
                None => None,
            },
            reply: self.reply,
        }
    }
}

/// The nickname of a client that has not chosen one.
pub open spec fn default_nick() -> Seq<char> {
    seq!['u', 'n', 'k', 'n', 'o', 'w', 'n']
}

/// The prefix under which the client at `addr` is known: the one on file,
/// or the default nickname where none is.
pub open spec fn spec_identity(
    state: Map<ConnectionAddr, PrefixView>,
    addr: ConnectionAddr,
) -> PrefixView {
    if state.contains_key(addr) {
        state[addr]
    } else {
        PrefixView { nick: default_nick() }
    }
}

/// The line that goes to every client when the client known as `sender`
/// says `text`.
pub open spec fn spec_broadcast_line(sender: PrefixView, text: Seq<char>) -> Seq<char> {
    render_message(MessageView { prefix: Some(sender), command: CommandView::Msg(text) })
}

/// One step of the server: the message `message` from the connection `addr`
/// in the state `state`. `NICK` puts the nickname on file, over the one that
/// was there. `MSG` goes to every client under the sender's nickname; a
/// prefix that the client has written is not looked at. `QUIT` takes the
/// nickname off the file and has the connection closed.
pub open spec fn spec_apply(
    state: Map<ConnectionAddr, PrefixView>,
    addr: ConnectionAddr,
    message: MessageView,
) -> (Map<ConnectionAddr, PrefixView>, EffectView) {
    match message.command {
        CommandView::Nick(nick) => (
            state.insert(addr, PrefixView { nick }),
            EffectView { broadcast: None, reply: None },
        ),
        CommandView::Msg(text) => (
            state,
            EffectView {
                broadcast: Some(spec_broadcast_line(spec_identity(state, addr), text)),
                reply: None,
            },
        ),
        CommandView::Quit => (
            state.remove(addr),
            EffectView { broadcast: None, reply: Some(Response::HangUp) },
        ),
    }
}

/// A nickname belongs to one connection: after `NICK` from `addr`, what
/// `addr` says goes out under that nickname, whatever was on file before, and
/// what is said from another address that has chosen no nickname goes out
/// under the default one.
pub proof fn lemma_nickname_scoping(
    state: Map<ConnectionAddr, PrefixView>,
    addr: ConnectionAddr,
    other: ConnectionAddr,
    choice: MessageView,
    said: MessageView,
)
    requires
        choice.command is Nick,
        said.command is Msg,
        other != addr,
        !state.contains_key(other),
    ensures
        ({
            let named = spec_apply(state, addr, choice).0;
            let nick = choice.command->Nick_0;
            let text = said.command->Msg_0;
            &&& spec_apply(named, addr, said).1.broadcast == Some(
                spec_broadcast_line(PrefixView { nick }, text),
            )
            &&& spec_apply(named, other, said).1.broadcast == Some(
                spec_broadcast_line(PrefixView { nick: default_nick() }, text),
            )
        }),
{
}

/// Leaving clears the nickname: after `QUIT` from `addr`, what is said from
/// `addr` goes out under the default nickname, whatever was on file before.
pub proof fn lemma_quit_clears_nickname(
    state: Map<ConnectionAddr, PrefixView>,
    addr: ConnectionAddr,
    quit: MessageView,
    said: MessageView,
)
    requires
        quit.command is Quit,
        said.command is Msg,
    ensures
        ({
            let left = spec_apply(state, addr, quit).0;
            let text = said.command->Msg_0;
            &&& !left.contains_key(addr)
            &&& spec_apply(state, addr, quit).1.reply == Some(Response::HangUp)
            &&& spec_apply(left, addr, said).1.broadcast == Some(
                spec_broadcast_line(PrefixView { nick: default_nick() }, text),
            )
        }),
{
}

/// The line that goes to every client, spelled out: a colon, the nickname,
/// ` MSG :`, the text, and the line end.
pub proof fn lemma_broadcast_line(sender: PrefixView, text: Seq<char>)
    ensures
        spec_broadcast_line(sender, text) == seq![':'] + sender.nick + seq![
            ' ',
            'M',
            'S',
            'G',
            ' ',
            ':',
        ] + text + seq!['\r', '\n'],
{
    assert(spec_broadcast_line(sender, text) =~= seq![':'] + sender.nick + seq![
        ' ',
        'M',
        'S',
        'G',
        ' ',
        ':',
    ] + text + seq!['\r', '\n']);
}

/// One client on file.
struct Entry {
    addr: ConnectionAddr,
    prefix: Prefix,
}

/// Whether no address is on file twice.
spec fn distinct(entries: Seq<Entry>) -> bool {
    forall|i: int, j: int|
        0 <= i < j < entries.len() ==> (#[trigger] entries[i]).addr != (#[trigger] entries[j]).addr
}

/// Whether `addr` is on file at `i`.
spec fn filed_at(entries: Seq<Entry>, addr: ConnectionAddr, i: int) -> bool {
    0 <= i < entries.len() && entries[i].addr == addr
}

/// The file as a map from addresses to prefixes.
spec fn table(entries: Seq<Entry>) -> Map<ConnectionAddr, PrefixView> {
    Map::new(
        |addr: ConnectionAddr| exists|i: int| filed_at(entries, addr, i),
        |addr: ConnectionAddr| entries[choose|i: int| filed_at(entries, addr, i)].prefix@,
    )
}

/// The nicknames of the clients, by the address of their connection. An
/// address is on file once at most.
pub struct ServerState {
    entries: Vec<Entry>,
}

impl View for ServerState {
    type V = Map<ConnectionAddr, PrefixView>;

    closed spec fn view(&self) -> Map<ConnectionAddr, PrefixView> {
        table(self.entries@)
    }
}

impl ServerState {
    #[verifier::type_invariant]
    spec fn well_formed(self) -> bool {
        distinct(self.entries@)
    }

    /// The state of a server that knows nobody.
    pub fn new() -> (state: ServerState)
        ensures
            state@ == Map::<ConnectionAddr, PrefixView>::empty(),
    {
        let state = ServerState { entries: Vec::new() };
        assert(state@ =~= Map::<ConnectionAddr, PrefixView>::empty());
        state
    }

    /// Where `addr` is on file.
    fn position(&self, addr: ConnectionAddr) -> (found: Option<usize>)
        ensures
            match found {
                Some(i) => filed_at(self.entries@, addr, i as int),
                None => forall|i: int| !filed_at(self.entries@, addr, i),
            },
    {
        let mut i: usize = 0;
        while i < self.entries.len()
            invariant
                i <= self.entries@.len(),
                forall|j: int| 0 <= j < i ==> !filed_at(self.entries@, addr, j),
            decreases self.entries@.len() - i,
        {
            if self.entries[i].addr == addr {
                return Some(i);
            }
            i = i + 1;
        }
        None
    }

    /// The prefix under which the client at `addr` is known.
    pub fn identity(&self, addr: ConnectionAddr) -> (prefix: Prefix)
        ensures
            prefix@ == spec_identity(self@, addr),
    {
        proof {
            use_type_invariant(self);
        }
        match self.position(addr) {
            Some(i) => {
                proof {
                    let k = choose|k: int| filed_at(self.entries@, addr, k);
                    assert(k == i);
                }
                Prefix { nick: self.entries[i].prefix.nick.clone() }
            },
            None => {
                proof {
                    reveal_strlit("unknown");
                }
                let prefix = Prefix { nick: String::from_str("unknown") };
                assert(prefix@.nick =~= default_nick());
                prefix
            },
        }
    }

    /// Puts `prefix` on file for `addr`, over the one that was there.
    fn insert(&mut self, addr: ConnectionAddr, prefix: Prefix)
        ensures
            final(self)@ == old(self)@.insert(addr, prefix@),
    {
        proof {
            use_type_invariant(&*self);
        }
        let found = self.position(addr);
        let mut entries = Vec::new();
        std::mem::swap(&mut self.entries, &mut entries);
        let ghost before = entries@;
        match found {
            Some(i) => {
                entries[i] = Entry { addr, prefix };
                assert(entries@ == before.update(i as int, entries@[i as int]));
            },
            None => {
                entries.push(Entry { addr, prefix });
                assert(entries@.drop_last() =~= before);
            },
        }
        proof {
            lemma_table_insert(before, entries@, addr, prefix@);
        }
        self.entries = entries;
    }

    /// Takes `addr` off the file.
    fn remove(&mut self, addr: ConnectionAddr)
        ensures
            final(self)@ == old(self)@.remove(addr),
    {
        proof {
            use_type_invariant(&*self);
        }
        match self.position(addr) {
            Some(i) => {
                let mut entries = Vec::new();
                std::mem::swap(&mut self.entries, &mut entries);
                proof {
                    lemma_table_remove(entries@, i as int);
                }
                entries.remove(i);
                self.entries = entries;
            },
            None => {
                assert(table(self.entries@) =~= table(self.entries@).remove(addr));
            },
        }
    }

    /// Applies one message from the connection `addr`, and says what is to
    /// be sent after it.
    pub fn apply(&mut self, addr: ConnectionAddr, message: LanChatMessage) -> (effect: Effect)
        ensures
            (final(self)@, effect@) == spec_apply(old(self)@, addr, message@),
    {
        match message.command {
            Command::Nick(nick) => {
                self.insert(addr, Prefix { nick });
                Effect { broadcast: None, reply: None }
            },
            Command::Msg(text) => {
                let line = LanChatMessage {
                    prefix: Some(self.identity(addr)),
                    command: Command::Msg(text),
                };
                Effect { broadcast: Some(line.to_string()), reply: None }
            },
            Command::Quit => {
                self.remove(addr);
                Effect { broadcast: None, reply: Some(Response::HangUp) }
            },
        }
    }
}

/// Where the address is on file, there and nowhere else is its prefix.
proof fn lemma_table_at(entries: Seq<Entry>, i: int)
    requires
        distinct(entries),
        0 <= i < entries.len(),
    ensures
        table(entries).contains_key(entries[i].addr),
        table(entries)[entries[i].addr] == entries[i].prefix@,
{
    let addr = entries[i].addr;
    assert(filed_at(entries, addr, i));
    let k = choose|k: int| filed_at(entries, addr, k);
    assert(k == i);
}

/// A file into which one entry was written, in the place of the one for its
/// address or at the end, is the old file with that address set.
proof fn lemma_table_insert(
    before: Seq<Entry>,
    after: Seq<Entry>,
    addr: ConnectionAddr,
    prefix: PrefixView,
)
    requires
        distinct(before),
        (exists|i: int|
            filed_at(before, addr, i) && after == before.update(i, after[i]) && after[i].addr
                == addr && after[i].prefix@ == prefix) || ((forall|i: int|
            !filed_at(before, addr, i)) && after.len() == before.len() + 1 && after.drop_last()
            == before && after.last().addr == addr && after.last().prefix@ == prefix),
    ensures
        distinct(after),
        table(after) == table(before).insert(addr, prefix),
{
    assert forall|i: int, j: int| 0 <= i < j < after.len() implies after[i].addr
        != after[j].addr by {
        if j < before.len() {
            assert(before[i].addr != before[j].addr);
        } else {
            assert(!filed_at(before, addr, i));
            assert(after.drop_last()[i] == after[i]);
        }
    }
    assert forall|a: ConnectionAddr| #[trigger]
        table(after).contains_key(a) == table(before).insert(addr, prefix).contains_key(a) by {
        if table(after).contains_key(a) {
            let i = choose|i: int| filed_at(after, a, i);
            if a != addr {
                if after.len() > before.len() {
                    assert(after.drop_last()[i] == after[i]);
                }
                assert(filed_at(before, a, i));
            }
        }
        if table(before).insert(addr, prefix).contains_key(a) {
            if a == addr {
                if exists|i: int| filed_at(before, addr, i) {
                    let i = choose|i: int|
                        filed_at(before, addr, i) && after == before.update(i, after[i])
                            && after[i].addr == addr && after[i].prefix@ == prefix;
                    assert(filed_at(after, a, i));
                } else {
                    assert(filed_at(after, a, after.len() - 1));
                }
            } else {
                let i = choose|i: int| filed_at(before, a, i);
                if after.len() > before.len() {
                    assert(after.drop_last()[i] == after[i]);
                }
                assert(filed_at(after, a, i));
            }
        }
    }
    assert forall|a: ConnectionAddr| #[trigger] table(after).contains_key(a) implies table(
        after,
    )[a] == table(before).insert(addr, prefix)[a] by {
        let i = choose|i: int| filed_at(after, a, i);
        lemma_table_at(after, i);
        if a != addr {
            if after.len() > before.len() {
                assert(after.drop_last()[i] == after[i]);
            }
            assert(filed_at(before, a, i));
            lemma_table_at(before, i);
        }
    }
    assert(table(after) =~= table(before).insert(addr, prefix));
}

/// A file from which the entry at `i` was taken is the old file without the
/// address of that entry.
proof fn lemma_table_remove(before: Seq<Entry>, i: int)
    requires
        distinct(before),
        0 <= i < before.len(),
    ensures
        distinct(before.remove(i)),
        table(before.remove(i)) == table(before).remove(before[i].addr),
{
    let after = before.remove(i);
    let addr = before[i].addr;
    assert forall|a: ConnectionAddr| #[trigger]
        table(after).contains_key(a) == table(before).remove(addr).contains_key(a) by {
        if table(after).contains_key(a) {
            let j = choose|j: int| filed_at(after, a, j);
            if j < i {
                assert(filed_at(before, a, j));
            } else {
                assert(filed_at(before, a, j + 1));
            }
        }
        if table(before).remove(addr).contains_key(a) {
            let j = choose|j: int| filed_at(before, a, j);
            if j < i {
                assert(filed_at(after, a, j));
            } else {
                assert(filed_at(after, a, j - 1));
            }
        }
    }
    assert forall|a: ConnectionAddr| #[trigger] table(after).contains_key(a) implies table(
        after,
    )[a] == table(before).remove(addr)[a] by {
        let j = choose|j: int| filed_at(after, a, j);
        lemma_table_at(after, j);
        if j < i {
            lemma_table_at(before, j);
        } else {
            lemma_table_at(before, j + 1);
        }
    }
    assert(table(after) =~= table(before).remove(addr));
}

} // verus!
