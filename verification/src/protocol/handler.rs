//! Where decoded signals go.

use crate::protocol::ll::disconnect::{ClientDisconnect, ServerDisconnect, ServerDisconnectView};
use crate::protocol::ll::login_request::{LoginRequest, LoginRequestView};
use crate::protocol::ll::ping::{Ping, Pong};
use crate::protocol::pk::cube_dict::{CubeDict, CubeDictView};
use crate::protocol::pk::spawn::SpawnSignal;
use vstd::prelude::*;

verus! {

/// A signal by value: what was decoded, whatever object carried it.
pub enum Signal {
    LoginRequest(LoginRequestView),
    ServerDisconnect(ServerDisconnectView),
    ClientDisconnect(ClientDisconnect),
    Ping(Ping),
    Pong(Pong),
    Spawn(SpawnSignal),
    CubeDict(CubeDictView),
}

/// The consumer of decoded signals: each method takes one signal of its
/// kind. What a handler does with a signal is its own affair.
pub trait SignalHandler {
    fn handle_ll_login_request(&mut self, signal: LoginRequest);

    fn handle_ll_server_disconnect(&mut self, signal: ServerDisconnect);

    fn handle_ll_client_disconnect(&mut self, signal: ClientDisconnect);

    fn handle_ll_ping(&mut self, signal: Ping);

    fn handle_ll_pong(&mut self, signal: Pong);

    fn handle_pk_spawn(&mut self, signal: SpawnSignal);

    fn handle_pk_cube_dict(&mut self, signal: CubeDict);
}

/// A signal as it was received.
#[derive(Debug)]
pub enum Received {
    LoginRequest(LoginRequest),
    ServerDisconnect(ServerDisconnect),
    ClientDisconnect(ClientDisconnect),
    Ping(Ping),
    Pong(Pong),
    Spawn(SpawnSignal),
    CubeDict(CubeDict),
}

impl View for Received {
    type V = Signal;

    open spec fn view(&self) -> Signal {
        match self {
            Received::LoginRequest(signal) => Signal::LoginRequest(signal@),
            Received::ServerDisconnect(signal) => Signal::ServerDisconnect(signal@),
            Received::ClientDisconnect(signal) => Signal::ClientDisconnect(*signal),
            Received::Ping(signal) => Signal::Ping(*signal),
            Received::Pong(signal) => Signal::Pong(*signal),
            Received::Spawn(signal) => Signal::Spawn(*signal),
            Received::CubeDict(signal) => Signal::CubeDict(signal@),
        }
    }
}

/// The signals of `signals`, each by value.
pub open spec fn signals_of(signals: Seq<Received>) -> Seq<Signal> {
    signals.map_values(|signal: Received| signal@)
}

/// Whether `call` is a call of the method of `H` that takes signals of the
/// kind of `signal`, made with `signal`, that has returned: `call` borrows
/// the handler as it is when the method is called, and gives it back as it
/// is when the method returns. What a method can return with is for each
/// handler to say; of a handler of which nothing is known, this holds only
/// of a call that was made.
pub open spec fn called<H: SignalHandler>(call: &mut H, signal: Received) -> bool {
    match signal {
        Received::LoginRequest(signal) => call_ensures(
            H::handle_ll_login_request,
            (call, signal),
            (),
        ),
        Received::ServerDisconnect(signal) => call_ensures(
            H::handle_ll_server_disconnect,
            (call, signal),
            (),
        ),
        Received::ClientDisconnect(signal) => call_ensures(
            H::handle_ll_client_disconnect,
            (call, signal),
            (),
        ),
        Received::Ping(signal) => call_ensures(H::handle_ll_ping, (call, signal), ()),
        Received::Pong(signal) => call_ensures(H::handle_ll_pong, (call, signal), ()),
        Received::Spawn(signal) => call_ensures(H::handle_pk_spawn, (call, signal), ()),
        Received::CubeDict(signal) => call_ensures(H::handle_pk_cube_dict, (call, signal), ()),
    }
}

/// Hands `signal` to the method of `handler` that takes signals of its
/// kind: that method is called once, with the handler as it is and with
/// `signal`, and the handler is left as the method leaves it.
pub fn deliver<H: SignalHandler>(handler: &mut H, signal: Received)
    ensures
        exists|call: &mut H|
            #[trigger] called(call, signal) && *call == *old(handler) && *final(call)
                == *final(handler),
{
    let ghost before = *handler;
    match signal {
        Received::LoginRequest(signal) => {
            handler.handle_ll_login_request(signal);
            proof {
                let call = choose|call: &mut H|
                    *call == before && *final(call) == *handler && call_ensures(
                        H::handle_ll_login_request,
                        (call, signal),
                        (),
                    );
                assert(called(call, Received::LoginRequest(signal)));
            }
        },
        Received::ServerDisconnect(signal) => {
            handler.handle_ll_server_disconnect(signal);
            proof {
                let call = choose|call: &mut H|
                    *call == before && *final(call) == *handler && call_ensures(
                        H::handle_ll_server_disconnect,
                        (call, signal),
                        (),
                    );
                assert(called(call, Received::ServerDisconnect(signal)));
            }
        },
        Received::ClientDisconnect(signal) => {
            handler.handle_ll_client_disconnect(signal);
            proof {
                let call = choose|call: &mut H|
                    *call == before && *final(call) == *handler && call_ensures(
                        H::handle_ll_client_disconnect,
                        (call, signal),
                        (),
                    );
                assert(called(call, Received::ClientDisconnect(signal)));
            }
        },
        Received::Ping(signal) => {
            handler.handle_ll_ping(signal);
            proof {
                let call = choose|call: &mut H|
                    *call == before && *final(call) == *handler && call_ensures(
                        H::handle_ll_ping,
                        (call, signal),
                        (),
                    );
                assert(called(call, Received::Ping(signal)));
            }
        },
        Received::Pong(signal) => {
            handler.handle_ll_pong(signal);
            proof {
                let call = choose|call: &mut H|
                    *call == before && *final(call) == *handler && call_ensures(
                        H::handle_ll_pong,
                        (call, signal),
                        (),
                    );
                assert(called(call, Received::Pong(signal)));
            }
        },
        Received::Spawn(signal) => {
            handler.handle_pk_spawn(signal);
            proof {
                let call = choose|call: &mut H|
                    *call == before && *final(call) == *handler && call_ensures(
                        H::handle_pk_spawn,
                        (call, signal),
                        (),
                    );
                assert(called(call, Received::Spawn(signal)));
            }
        },
        Received::CubeDict(signal) => {
            handler.handle_pk_cube_dict(signal);
            proof {
                let call = choose|call: &mut H|
                    *call == before && *final(call) == *handler && call_ensures(
                        H::handle_pk_cube_dict,
                        (call, signal),
                        (),
                    );
                assert(called(call, Received::CubeDict(signal)));
            }
        },
    }
}

/// Whether `calls` are calls that have returned, one for each of `signals`
/// in their order, each a call of the method that takes signals of the kind
/// of its signal, made with that signal; and whether the first of `states`
/// is the handler that the first call is made with, and each of the other
/// calls is made with the state that follows the state of the call before
/// it.
pub open spec fn all_called<H: SignalHandler>(
    calls: Seq<&mut H>,
    states: Seq<H>,
    signals: Seq<Received>,
) -> bool {
    calls.len() == signals.len() && states.len() == signals.len() + 1 && forall|i: int|
        0 <= i < calls.len() ==> called(#[trigger] calls[i], signals[i]) && *calls[i] == states[i]
}

/// Hands the signals of `signals` to `handler`, one after the other in
/// their order: for each signal the method that takes signals of its kind
/// is called once, with the handler as the call before left it, and the
/// handler is left as the last call leaves it.
pub fn deliver_all<H: SignalHandler>(handler: &mut H, signals: Vec<Received>)
    ensures
        exists|calls: Seq<&mut H>, states: Seq<H>|
            #[trigger] all_called(calls, states, signals@) && states[0] == *old(handler) && (
            forall|i: int|
                0 <= i < calls.len() ==> *final(#[trigger] calls[i]) == states[i + 1])
                && states[signals@.len() as int] == *final(handler),
{
    let ghost all = signals@;
    let mut signals = signals;
    let mut waiting: Vec<Received> = Vec::new();
    while signals.len() > 0
        invariant
            *handler == *old(handler),
            signals@.len() + waiting@.len() == all.len(),
            forall|j: int| 0 <= j < signals@.len() ==> signals@[j] == all[j],
            forall|j: int| 0 <= j < waiting@.len() ==> waiting@[j] == all[all.len() - 1 - j],
        decreases signals.len(),
    {
        match signals.pop() {
            Some(signal) => waiting.push(signal),
            None => {},
        }
    }
    proof {
        let calls = Seq::<&mut H>::empty();
        let states = seq![*handler];
        assert(all.len() - waiting@.len() == 0);
        assert(all_called(calls, states, all.take(all.len() - waiting@.len())));
        assert(states[0] == *old(handler));
        assert(states[all.len() - waiting@.len()] == *handler);
    }
    while waiting.len() > 0
        invariant
            waiting@.len() <= all.len(),
            forall|j: int| 0 <= j < waiting@.len() ==> waiting@[j] == all[all.len() - 1 - j],
            exists|calls: Seq<&mut H>, states: Seq<H>|
                #[trigger] all_called(calls, states, all.take(all.len() - waiting@.len()))
                    && states[0] == *old(handler) && (forall|i: int|
                    0 <= i < calls.len() ==> *final(#[trigger] calls[i]) == states[i + 1])
                    && states[all.len() - waiting@.len()] == *handler,
        decreases waiting.len(),
    {
        let ghost done = all.len() - waiting@.len();
        let ghost between = *handler;
        let ghost (made, seen) = choose|calls: Seq<&mut H>, states: Seq<H>|
            #[trigger] all_called(calls, states, all.take(done)) && states[0] == *old(handler) && (
            forall|i: int| 0 <= i < calls.len() ==> *final(#[trigger] calls[i]) == states[i + 1])
                && states[done] == between;
        match waiting.pop() {
            Some(signal) => {
                assert(signal == all[done]);
                deliver(handler, signal);
                proof {
                    let call = choose|call: &mut H|
                        #[trigger] called(call, signal) && *call == between && *final(call)
                            == *handler;
                    let more = made.push(call);
                    let states = seen.push(*handler);
                    assert forall|i: int| 0 <= i < more.len() implies called(
                        #[trigger] more[i],
                        all.take(done + 1)[i],
                    ) && *more[i] == states[i] by {
                        if i < done {
                            assert(more[i] == made[i]);
                            assert(all.take(done + 1)[i] == all.take(done)[i]);
                        }
                    }
                    assert forall|i: int| 0 <= i < more.len() implies *final(#[trigger] more[i])
                        == states[i + 1] by {
                        if i < done {
                            assert(more[i] == made[i]);
                            assert(states[i + 1] == seen[i + 1]);
                        }
                    }
                    assert(all.len() - waiting@.len() == done + 1);
                    assert(all_called(more, states, all.take(all.len() - waiting@.len())));
                    assert(states[0] == seen[0]);
                    assert(states[all.len() - waiting@.len()] == *handler);
                }
            },
            None => {},
        }
    }
    assert(all.take(all.len() as int) =~= all);
}

/// A handler that keeps every signal, in the order of arrival.
#[derive(Debug)]
pub struct Recorder {
    pub signals: Vec<Received>,
}

impl Recorder {
    /// A handler that has kept nothing yet.
    pub fn new() -> (recorder: Recorder)
        ensures
            recorder.signals@.len() == 0,
    {
        Recorder { signals: Vec::new() }
    }
}

impl SignalHandler for Recorder {
    fn handle_ll_login_request(&mut self, signal: LoginRequest)
        ensures
            final(self).signals@ == old(self).signals@.push(Received::LoginRequest(signal)),
    {
        self.signals.push(Received::LoginRequest(signal));
    }

    fn handle_ll_server_disconnect(&mut self, signal: ServerDisconnect)
        ensures
            final(self).signals@ == old(self).signals@.push(Received::ServerDisconnect(signal)),
    {
        self.signals.push(Received::ServerDisconnect(signal));
    }

    fn handle_ll_client_disconnect(&mut self, signal: ClientDisconnect)
        ensures
            final(self).signals@ == old(self).signals@.push(Received::ClientDisconnect(signal)),
    {
        self.signals.push(Received::ClientDisconnect(signal));
    }

    fn handle_ll_ping(&mut self, signal: Ping)
        ensures
            final(self).signals@ == old(self).signals@.push(Received::Ping(signal)),
    {
        self.signals.push(Received::Ping(signal));
    }

    fn handle_ll_pong(&mut self, signal: Pong)
        ensures
            final(self).signals@ == old(self).signals@.push(Received::Pong(signal)),
    {
        self.signals.push(Received::Pong(signal));
    }

    fn handle_pk_spawn(&mut self, signal: SpawnSignal)
        ensures
            final(self).signals@ == old(self).signals@.push(Received::Spawn(signal)),
    {
        self.signals.push(Received::Spawn(signal));
    }

    fn handle_pk_cube_dict(&mut self, signal: CubeDict)
        ensures
            final(self).signals@ == old(self).signals@.push(Received::CubeDict(signal)),
    {
        self.signals.push(Received::CubeDict(signal));
    }
}

} // verus!
