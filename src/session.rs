use crate::error::Error;
use crate::packet::{
    PacketView, RconPacket, SERVERDATA_AUTH, SERVERDATA_AUTH_RESPONSE, SERVERDATA_EXECCOMMAND,
    SERVERDATA_RESPONSE_VALUE,
};
use vstd::prelude::*;
use vstd::string::*;

verus! {

/// The first packet id of a session, and the one that follows `LAST_ID`.
pub const FIRST_ID: i32 = 10;

/// The largest packet id that a session hands out before wrapping.
pub const LAST_ID: i32 = 100000;

/// The command sent after each real command to mark the end of its reply.
pub const CHECKPOINT_COMMAND: &'static str = "ListCommands";

/// The id handed out after `id`.
pub open spec fn id_after(id: int) -> int {
    if id + 1 > LAST_ID {
        FIRST_ID as int
    } else {
        id + 1
    }
}

/// Every id handed out lies in `FIRST_ID..=LAST_ID`, so it is never 0 nor
/// the failure sentinel `-1`; the id after `LAST_ID` is `FIRST_ID`, and two
/// consecutive ids differ.
pub proof fn lemma_id_wraparound(id: int)
    requires
        FIRST_ID <= id <= LAST_ID,
    ensures
        FIRST_ID <= id_after(id) <= LAST_ID,
        id_after(id) != 0,
        id_after(id) != -1,
        id_after(id) != id,
        id == LAST_ID ==> id_after(id) == FIRST_ID,
        id < LAST_ID ==> id_after(id) == id + 1,
{
}

/// How far the authentication handshake has come.
#[derive(Clone, Copy, Debug, PartialEq, Eq, Structural)]
pub enum AuthPhase {
    /// No authentication packet has been sent yet.
    NotStarted,
    /// The authentication packet is out; the empty response value is due.
    AwaitingValue,
    /// The response value came; the authentication response is due.
    AwaitingAuthResponse,
    /// The server accepted the password.
    Ready,
}

/// The state of one RCON session: the packet-id counter, the password, and
/// the progress of the handshake. The transport itself is kept by the caller,
/// which sends the packets that this state hands out and feeds back the
/// packets that it reads.
pub struct RconClient {
    next_id: i32,
    password: String,
    phase: AuthPhase,
}

impl RconClient {
    /// The ids stay in `FIRST_ID..=LAST_ID`, clear of the sentinel `-1`.
    #[verifier::type_invariant]
    spec fn inv(&self) -> bool {
        FIRST_ID <= self.next_id <= LAST_ID
    }

    /// The id that the next allocation returns.
    pub closed spec fn next_id_spec(&self) -> int {
        self.next_id as int
    }

    pub closed spec fn password_spec(&self) -> Seq<char> {
        self.password@
    }

    pub closed spec fn phase_spec(&self) -> AuthPhase {
        self.phase
    }

    pub fn new(password: String) -> (r: RconClient)
        ensures
            r.next_id_spec() == FIRST_ID,
            r.password_spec() == password@,
            r.phase_spec() == AuthPhase::NotStarted,
    {
        RconClient { next_id: FIRST_ID, password: password, phase: AuthPhase::NotStarted }
    }

    /// Hands out the next packet id, wrapping from `LAST_ID` to `FIRST_ID`.
    pub fn get_next_id(&mut self) -> (r: i32)
        ensures
            r == old(self).next_id_spec(),
            FIRST_ID <= r <= LAST_ID,
            final(self).next_id_spec() == id_after(r as int),
            final(self).password_spec() == old(self).password_spec(),
            final(self).phase_spec() == old(self).phase_spec(),
    {
        proof {
            use_type_invariant(&*self);
        }
        let next_id = self.next_id;
        self.next_id = if next_id + 1 > LAST_ID {
            FIRST_ID
        } else {
            next_id + 1
        };
        next_id
    }

    /// The password used to open this session.
    pub fn password(&self) -> (r: &str)
        ensures
            r@ == self.password_spec(),
    {
        self.password.as_str()
    }

    pub fn phase(&self) -> (r: AuthPhase)
        ensures
            r == self.phase_spec(),
    {
        self.phase
    }

    pub fn is_authenticated(&self) -> (r: bool)
        ensures
            r == (self.phase_spec() == AuthPhase::Ready),
    {
        self.phase == AuthPhase::Ready
    }

    /// The authentication packet to send: a fresh id, the auth type, and the
    /// password as body. The session then waits for the response value.
    pub fn auth_packet(&mut self) -> (r: RconPacket)
        ensures
            r@ == (PacketView {
                id: old(self).next_id_spec(),
                type_: SERVERDATA_AUTH as int,
                body: old(self).password_spec(),
            }),
            final(self).next_id_spec() == id_after(old(self).next_id_spec()),
            final(self).password_spec() == old(self).password_spec(),
            final(self).phase_spec() == AuthPhase::AwaitingValue,
    {
        let id = self.get_next_id();
        proof {
            use_type_invariant(&*self);
        }
        let body = String::from_str(self.password.as_str());
        self.phase = AuthPhase::AwaitingValue;
        RconPacket::new(id, SERVERDATA_AUTH, body)
    }

    /// Takes one packet read during the handshake. The first must be a
    /// response value and the second an authentication response; an id of
    /// `-1` on the latter means that the password was refused. Any packet out
    /// of that order is a protocol error.
    pub fn on_auth_reply(&mut self, reply: &RconPacket) -> (r: Result<(), Error>)
        ensures
            final(self).next_id_spec() == old(self).next_id_spec(),
            final(self).password_spec() == old(self).password_spec(),
            old(self).phase_spec() == AuthPhase::AwaitingValue ==> {
                if reply@.type_ == SERVERDATA_RESPONSE_VALUE {
                    r is Ok && final(self).phase_spec() == AuthPhase::AwaitingAuthResponse
                } else {
                    (r matches Err(Error::ProtocolError)) && final(self).phase_spec()
                        == old(self).phase_spec()
                }
            },
            old(self).phase_spec() == AuthPhase::AwaitingAuthResponse ==> {
                if reply@.type_ != SERVERDATA_AUTH_RESPONSE {
                    (r matches Err(Error::ProtocolError)) && final(self).phase_spec()
                        == old(self).phase_spec()
                } else if reply@.id == -1 {
                    (r matches Err(Error::AuthenticationFailure)) && final(self).phase_spec()
                        == old(self).phase_spec()
                } else {
                    r is Ok && final(self).phase_spec() == AuthPhase::Ready
                }
            },
            (old(self).phase_spec() == AuthPhase::NotStarted || old(self).phase_spec()
                == AuthPhase::Ready) ==> (r matches Err(Error::ProtocolError))
                && final(self).phase_spec() == old(self).phase_spec(),
    {
        proof {
            use_type_invariant(&*self);
        }
        match self.phase {
            AuthPhase::AwaitingValue => {
                if reply.type_() != SERVERDATA_RESPONSE_VALUE {
                    return Err(Error::ProtocolError);
                }
                self.phase = AuthPhase::AwaitingAuthResponse;
                Ok(())
            },
            AuthPhase::AwaitingAuthResponse => {
                if reply.type_() != SERVERDATA_AUTH_RESPONSE {
                    return Err(Error::ProtocolError);
                }
                if reply.id() == -1 {
                    return Err(Error::AuthenticationFailure);
                }
                self.phase = AuthPhase::Ready;
                Ok(())
            },
            _ => Err(Error::ProtocolError),
        }
    }

    /// Starts a command: allocates a request id and a checkpoint id, and
    /// returns the exchange that collects the reply together with the two
    /// packets to send, the command first and the checkpoint command after
    /// it. With `keep_others`, packets that answer neither are kept.
    pub fn begin_command(&mut self, command: String, keep_others: bool) -> (r: (
        CommandExchange,
        RconPacket,
        RconPacket,
    ))
        ensures
            final(self).password_spec() == old(self).password_spec(),
            final(self).phase_spec() == old(self).phase_spec(),
            final(self).next_id_spec() == id_after(id_after(old(self).next_id_spec())),
            r.0@ == (ExchangeView {
                request_id: old(self).next_id_spec(),
                check_id: id_after(old(self).next_id_spec()),
                body: Seq::empty(),
                others: Seq::empty(),
                keep_others: keep_others,
                done: false,
            }),
            r.1@ == (PacketView {
                id: old(self).next_id_spec(),
                type_: SERVERDATA_EXECCOMMAND as int,
                body: command@,
            }),
            r.2@ == (PacketView {
                id: id_after(old(self).next_id_spec()),
                type_: SERVERDATA_EXECCOMMAND as int,
                body: CHECKPOINT_COMMAND@,
            }),
    {
        let request_id = self.get_next_id();
        let check_id = self.get_next_id();
        let request = RconPacket::new(request_id, SERVERDATA_EXECCOMMAND, command);
        let check = RconPacket::new(
            check_id,
            SERVERDATA_EXECCOMMAND,
            String::from_str(CHECKPOINT_COMMAND),
        );
        let exchange = CommandExchange {
            request_id: request_id,
            check_id: check_id,
            body: String::new(),
            others: Vec::new(),
            keep_others: keep_others,
            done: false,
        };
        assert(exchange.others@.map_values(|p: RconPacket| p@) =~= Seq::empty());
        (exchange, request, check)
    }
}

/// A command exchange as a mathematical value.
pub struct ExchangeView {
    pub request_id: int,
    pub check_id: int,
    pub body: Seq<char>,
    pub others: Seq<PacketView>,
    pub keep_others: bool,
    pub done: bool,
}

/// The exchange after one more packet: a fragment of the reply is appended,
/// the checkpoint ends the exchange, and any other packet is kept or dropped.
pub open spec fn exchange_step(x: ExchangeView, p: PacketView) -> ExchangeView {
    if p.id == x.request_id {
        ExchangeView { body: x.body + p.body, ..x }
    } else if p.id == x.check_id {
        ExchangeView { done: true, ..x }
    } else if x.keep_others {
        ExchangeView { others: x.others.push(p), ..x }
    } else {
        x
    }
}

/// The exchange after the packets `ps`, in order.
pub open spec fn exchange_feed(x: ExchangeView, ps: Seq<PacketView>) -> ExchangeView
    decreases ps.len(),
{
    if ps.len() == 0 {
        x
    } else {
        exchange_step(exchange_feed(x, ps.drop_last()), ps.last())
    }
}

/// The bodies of the packets of `ps` that carry `id`, concatenated in order.
pub open spec fn bodies_with_id(ps: Seq<PacketView>, id: int) -> Seq<char>
    decreases ps.len(),
{
    if ps.len() == 0 {
        Seq::empty()
    } else if ps.last().id == id {
        bodies_with_id(ps.drop_last(), id) + ps.last().body
    } else {
        bodies_with_id(ps.drop_last(), id)
    }
}

/// The packets of `ps` that carry neither id, in order.
pub open spec fn packets_without(ps: Seq<PacketView>, a: int, b: int) -> Seq<PacketView> {
    ps.filter(|p: PacketView| p.id != a && p.id != b)
}

/// Collects the reply to one command from the packets read after it.
pub struct CommandExchange {
    request_id: i32,
    check_id: i32,
    body: String,
    others: Vec<RconPacket>,
    keep_others: bool,
    done: bool,
}

impl View for CommandExchange {
    type V = ExchangeView;

    closed spec fn view(&self) -> ExchangeView {
        ExchangeView {
            request_id: self.request_id as int,
            check_id: self.check_id as int,
            body: self.body@,
            others: self.others@.map_values(|p: RconPacket| p@),
            keep_others: self.keep_others,
            done: self.done,
        }
    }
}

impl CommandExchange {
    pub fn is_done(&self) -> (r: bool)
        ensures
            r == self@.done,
    {
        self.done
    }

    /// Takes the next packet read from the connection.
    pub fn on_packet(&mut self, p: RconPacket)
        requires
            !old(self)@.done,
        ensures
            final(self)@ == exchange_step(old(self)@, p@),
    {
        let id = p.id();
        if id == self.request_id {
            let part = p.into_body();
            self.body.append(part.as_str());
        } else if id == self.check_id {
            self.done = true;
        } else if self.keep_others {
            let ghost before = self.others@;
            self.others.push(p);
            assert(self.others@.map_values(|q: RconPacket| q@) =~= before.map_values(
                |q: RconPacket| q@,
            ).push(p@));
        }
    }

    /// The reply: the fragments that carried the request id, in order of
    /// arrival, with no separator.
    pub fn into_response(self) -> (r: String)
        ensures
            r@ == self@.body,
    {
        self.body
    }

    /// The reply, and the packets that answered neither command, in order of
    /// arrival.
    pub fn into_response_and_others(self) -> (r: (String, Vec<RconPacket>))
        ensures
            r.0@ == self@.body,
            r.1@.map_values(|p: RconPacket| p@) == self@.others,
    {
        (self.body, self.others)
    }
}

/// Reassembly: fed the packets up to and including the first one with the
/// checkpoint id, a fresh exchange is done exactly then and not before; its
/// reply is the concatenated bodies of the packets with the request id, and
/// it has kept, when asked to, the other packets in their order.
pub proof fn lemma_reassembly(x: ExchangeView, ps: Seq<PacketView>, k: int)
    requires
        !x.done,
        x.body == Seq::<char>::empty(),
        x.others == Seq::<PacketView>::empty(),
        x.request_id != x.check_id,
        0 <= k < ps.len(),
        ps[k].id == x.check_id,
        forall|i: int| 0 <= i < k ==> ps[i].id != x.check_id,
    ensures
        exchange_feed(x, ps.take(k + 1)).done,
        forall|j: int| 0 <= j <= k ==> !(#[trigger] exchange_feed(x, ps.take(j))).done,
        exchange_feed(x, ps.take(k + 1)).body == bodies_with_id(ps.take(k), x.request_id),
        exchange_feed(x, ps.take(k + 1)).others == if x.keep_others {
            packets_without(ps.take(k), x.request_id, x.check_id)
        } else {
            Seq::empty()
        },
{
    assert forall|j: int| 0 <= j <= k implies {
        let y = #[trigger] exchange_feed(x, ps.take(j));
        &&& !y.done
        &&& y.request_id == x.request_id
        &&& y.check_id == x.check_id
        &&& y.keep_others == x.keep_others
        &&& y.body == bodies_with_id(ps.take(j), x.request_id)
        &&& y.others == if x.keep_others {
            packets_without(ps.take(j), x.request_id, x.check_id)
        } else {
            Seq::empty()
        }
    } by {
        lemma_feed_prefix(x, ps, j, k);
    }
    lemma_feed_prefix(x, ps, k, k);
    assert(ps.take(k + 1).drop_last() =~= ps.take(k));
}

proof fn lemma_feed_prefix(x: ExchangeView, ps: Seq<PacketView>, j: int, k: int)
    requires
        !x.done,
        x.body == Seq::<char>::empty(),
        x.others == Seq::<PacketView>::empty(),
        0 <= j <= k < ps.len(),
        forall|i: int| 0 <= i < k ==> ps[i].id != x.check_id,
    ensures
        ({
            let y = exchange_feed(x, ps.take(j));
            &&& !y.done
            &&& y.request_id == x.request_id
            &&& y.check_id == x.check_id
            &&& y.keep_others == x.keep_others
            &&& y.body == bodies_with_id(ps.take(j), x.request_id)
            &&& y.others == if x.keep_others {
                packets_without(ps.take(j), x.request_id, x.check_id)
            } else {
                Seq::empty()
            }
        }),
    decreases j,
{
    let pre = ps.take(j);
    if j == 0 {
        assert(pre =~= Seq::<PacketView>::empty());
        assert(packets_without(pre, x.request_id, x.check_id) =~= Seq::<PacketView>::empty());
    } else {
        lemma_feed_prefix(x, ps, j - 1, k);
        assert(pre.drop_last() =~= ps.take(j - 1));
        assert(pre.last() == ps[j - 1]);
        let f = |p: PacketView| p.id != x.request_id && p.id != x.check_id;
        assert(pre.filter(f) == {
            let q = ps.take(j - 1).filter(f);
            if f(ps[j - 1]) {
                q.push(ps[j - 1])
            } else {
                q
            }
        }) by {
            assert(pre =~= ps.take(j - 1).push(ps[j - 1]));
            ps.take(j - 1).lemma_filter_push(ps[j - 1], f);
        }
    }
}

} // verus!
