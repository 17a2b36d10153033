//! The network-device service: its requests, and the loop that drains the
//! receive queue towards the one listener.
//!
//! The service itself talks to nobody. Whatever needs the device, the memory
//! manager or the listener is handed out as an `Action`; the caller performs
//! it and reports what came of it as the next `Event`.

use std::collections::VecDeque;
use vstd::prelude::*;
use crate::PAGE_SIZE;
use crate::channel::Channel;
use crate::error::Error;
use crate::message::Page;

verus! {

/// The name of a published service contract.
pub type InterfaceId = u8;

/// Where the drain of the receive queue stands.
#[derive(Debug, Clone, Copy, PartialEq, Eq, Structural)]
pub enum Phase {
    /// No drain is under way.
    Idle,
    /// The memory manager was asked for pages for the front packet.
    AwaitingPages,
    /// The front packet was sent to the listener, whose answer is due.
    AwaitingSend,
}

/// What the caller reports to the service.
#[derive(Debug, Clone, Copy, PartialEq, Eq)]
pub enum Event {
    /// The device raised an interrupt, and was acknowledged.
    Interrupt,
    /// The memory manager's answer to a request for pages.
    Pages(Result<Page, Error>),
    /// The listener's answer to a send that does not block.
    Sent(Result<(), Error>),
}

/// What the service asks the caller to do next.
#[derive(Debug, Clone, Copy, PartialEq, Eq)]
pub enum Action {
    /// Nothing: the drain rests until the next interrupt.
    Idle,
    /// Ask the memory manager for `num_pages` pages, and report its answer.
    AllocPages { num_pages: usize },
    /// Copy the front packet into `page`, send the page to the listener
    /// without blocking, and report its answer.
    Deliver { page: Page },
}

/// The number of whole pages that hold `len` bytes.
pub open spec fn pages_spanning(len: int) -> int {
    (len + PAGE_SIZE - 1) / (PAGE_SIZE as int)
}

/// The number of whole pages that hold `len` bytes.
pub fn pages_for(len: usize) -> (num_pages: usize)
    ensures
        num_pages == pages_spanning(len as int),
        (num_pages - 1) * PAGE_SIZE < len <= num_pages * PAGE_SIZE,
{
    if len % PAGE_SIZE == 0 {
        len / PAGE_SIZE
    } else {
        len / PAGE_SIZE + 1
    }
}

/// The service as its contracts see it.
pub struct ServerView {
    /// The number of the service's own endpoint.
    pub ch: int,
    /// The interface that the service is published under.
    pub interface: InterfaceId,
    /// The hardware address of the device.
    pub mac_addr: Seq<u8>,
    /// The number of the listener's endpoint, once one has registered.
    pub listener: Option<int>,
    /// The received packets that wait for delivery, oldest first.
    pub rx_queue: Seq<Seq<u8>>,
    /// Where the drain stands.
    pub phase: Phase,
    /// The page that was obtained for the front packet and that the listener
    /// has not taken yet.
    pub reserved: Option<Page>,
}

impl ServerView {
    /// What ties the fields together: a drain is under way, or a page is
    /// held back, only for a front packet and a listener; a page is held
    /// while a send is awaited and none while pages are.
    pub open spec fn wf(self) -> bool {
        &&& self.phase != Phase::Idle ==> self.listener.is_some() && self.rx_queue.len() > 0
        &&& self.reserved.is_some() ==> self.listener.is_some() && self.rx_queue.len() > 0
        &&& self.phase == Phase::AwaitingSend ==> self.reserved.is_some()
        &&& self.phase == Phase::AwaitingPages ==> self.reserved.is_none()
    }

    /// The drain at the head of its loop: what it does with the queue as it
    /// stands, and what it asks for. Without a listener every packet is
    /// dropped. With one, the front packet goes out in the page held back
    /// for it, or pages are asked for first.
    pub open spec fn resume(self) -> (ServerView, Action) {
        if self.rx_queue.len() == 0 {
            (ServerView { phase: Phase::Idle, ..self }, Action::Idle)
        } else if self.listener.is_none() {
            (ServerView { phase: Phase::Idle, rx_queue: Seq::empty(), ..self }, Action::Idle)
        } else {
            match self.reserved {
                Some(page) => (
                    ServerView { phase: Phase::AwaitingSend, ..self },
                    Action::Deliver { page },
                ),
                None => (
                    ServerView { phase: Phase::AwaitingPages, ..self },
                    Action::AllocPages {
                        num_pages: pages_spanning(self.rx_queue[0].len() as int) as usize,
                    },
                ),
            }
        }
    }

    /// The service after `event`, and its answer. An interrupt starts the
    /// drain. Pages that were granted are held for the front packet, which
    /// is sent in them; pages that were refused end the drain with the queue
    /// as it is. A listener that asks to try again ends the drain too, with
    /// the packet still at the front and its page held back; any other
    /// answer removes the packet, and the drain goes on. An event that the
    /// phase does not await changes nothing and is a violation.
    pub open spec fn step(self, event: Event) -> (ServerView, Result<Action, Error>) {
        match (self.phase, event) {
            (Phase::Idle, Event::Interrupt) => (self.resume().0, Ok(self.resume().1)),
            (Phase::AwaitingPages, Event::Pages(Ok(page))) => (
                ServerView { phase: Phase::AwaitingSend, reserved: Some(page), ..self },
                Ok(Action::Deliver { page }),
            ),
            (Phase::AwaitingPages, Event::Pages(Err(_))) => (
                ServerView { phase: Phase::Idle, ..self },
                Ok(Action::Idle),
            ),
            (Phase::AwaitingSend, Event::Sent(Err(Error::NeedsRetry))) => (
                ServerView { phase: Phase::Idle, ..self },
                Ok(Action::Idle),
            ),
            (Phase::AwaitingSend, Event::Sent(_)) => {
                let next = ServerView {
                    phase: Phase::Idle,
                    rx_queue: self.rx_queue.skip(1),
                    reserved: None,
                    ..self
                };
                (next.resume().0, Ok(next.resume().1))
            },
            _ => (self, Err(Error::ContractViolation)),
        }
    }
}

/// The network-device service.
pub struct Server {
    ch: Channel,
    interface: InterfaceId,
    mac_addr: [u8; 6],
    listener: Option<Channel>,
    rx_queue: VecDeque<Vec<u8>>,
    phase: Phase,
    reserved: Option<Page>,
}

impl View for Server {
    type V = ServerView;

    closed spec fn view(&self) -> ServerView {
        ServerView {
            ch: self.ch@,
            interface: self.interface,
            mac_addr: self.mac_addr@,
            listener: match self.listener {
                Some(ch) => Some(ch@),
                None => None,
            },
            rx_queue: self.rx_queue@.map_values(|packet: Vec<u8>| packet@),
            phase: self.phase,
            reserved: self.reserved,
        }
    }
}

impl Server {
    /// The invariant of the service.
    pub open spec fn wf(&self) -> bool {
        self@.wf()
    }

    /// A service on the endpoint `ch`, published under `interface`, for the
    /// device with the hardware address `mac_addr`. It has no listener and
    /// no packets.
    pub fn new(ch: Channel, interface: InterfaceId, mac_addr: [u8; 6]) -> (server: Server)
        ensures
            server.wf(),
            server@ == (ServerView {
                ch: ch@,
                interface,
                mac_addr: mac_addr@,
                listener: None,
                rx_queue: Seq::empty(),
                phase: Phase::Idle,
                reserved: None,
            }),
    {
        let server = Server {
            ch,
            interface,
            mac_addr,
            listener: None,
            rx_queue: VecDeque::new(),
            phase: Phase::Idle,
            reserved: None,
        };
        proof {
            assert(server@.rx_queue =~= Seq::empty());
        }
        server
    }

    /// The hardware address of the device.
    pub fn get_macaddr(&self) -> (reply: Result<(u8, u8, u8, u8, u8, u8), Error>)
        ensures
            self@.mac_addr.len() == 6,
            reply == Ok::<(u8, u8, u8, u8, u8, u8), Error>(
                (
                    self@.mac_addr[0],
                    self@.mac_addr[1],
                    self@.mac_addr[2],
                    self@.mac_addr[3],
                    self@.mac_addr[4],
                    self@.mac_addr[5],
                ),
            ),
    {
        let m = &self.mac_addr;
        Ok((m[0], m[1], m[2], m[3], m[4], m[5]))
    }

    /// Registers `ch` as the one receiver of packets. Once a listener is
    /// registered it stays: a further call is a violation and changes nothing.
    pub fn listen(&mut self, ch: Channel) -> (reply: Result<(), Error>)
        requires
            old(self).wf(),
        ensures
            final(self).wf(),
            old(self)@.listener.is_none() ==> reply == Ok::<(), Error>(()) && final(self)@ == (
            ServerView { listener: Some(ch@), ..old(self)@ }),
            old(self)@.listener.is_some() ==> reply == Err::<(), Error>(Error::ContractViolation)
                && final(self)@ == old(self)@,
    {
        if self.listener.is_some() {
            return Err(Error::ContractViolation);
        }
        self.listener = Some(ch);
        Ok(())
    }

    /// Judges a packet that a client wants sent: `declared_len` is the length
    /// that the request states, `data` the bytes that back it. A request
    /// that states more than it holds is refused; of any other, `data` is
    /// what goes to the device.
    pub fn transmit<'a>(&self, declared_len: usize, data: &'a [u8]) -> (reply: Result<
        &'a [u8],
        Error,
    >)
        ensures
            declared_len > data@.len() ==> reply == Err::<&[u8], Error>(Error::InvalidArg),
            declared_len <= data@.len() ==> reply == Ok::<&[u8], Error>(data),
    {
        if declared_len > data.len() {
            return Err(Error::InvalidArg);
        }
        Ok(data)
    }

    /// Answers a client's wish to bind to `interface`. Where it is the
    /// interface of this service, the answer names it together with the
    /// number of the service's endpoint, to which the caller then transfers
    /// a fresh channel. Any other interface is a violation, for which no
    /// channel is to be made.
    pub fn connect(&self, interface: InterfaceId) -> (reply: Result<(InterfaceId, i32), Error>)
        ensures
            interface == self@.interface ==> reply.is_ok() && reply.unwrap().0 == interface
                && reply.unwrap().1 == self@.ch,
            interface != self@.interface ==> reply == Err::<(InterfaceId, i32), Error>(
                Error::ContractViolation,
            ),
    {
        if interface != self.interface {
            return Err(Error::ContractViolation);
        }
        Ok((interface, self.ch.cid()))
    }

    /// Puts a packet that the device received at the back of the queue.
    pub fn receive(&mut self, packet: Vec<u8>)
        requires
            old(self).wf(),
        ensures
            final(self).wf(),
            final(self)@ == (ServerView {
                rx_queue: old(self)@.rx_queue.push(packet@),
                ..old(self)@
            }),
    {
        self.rx_queue.push_back(packet);
        proof {
            assert(self@.rx_queue =~= old(self)@.rx_queue.push(packet@));
        }
    }

    /// The number of the listener's endpoint, once one has registered.
    pub fn listener(&self) -> (cid: Option<i32>)
        ensures
            match cid {
                Some(cid) => self@.listener == Some(cid as int),
                None => self@.listener.is_none(),
            },
    {
        match &self.listener {
            Some(ch) => Some(ch.cid()),
            None => None,
        }
    }

    /// The number of packets that wait for delivery.
    pub fn pending(&self) -> (count: usize)
        ensures
            count == self@.rx_queue.len(),
    {
        self.rx_queue.len()
    }

    /// The packet at the front of the queue, if there is one.
    pub fn front(&self) -> (packet: Option<&Vec<u8>>)
        ensures
            match packet {
                Some(packet) => self@.rx_queue.len() > 0 && packet@ == self@.rx_queue[0],
                None => self@.rx_queue.len() == 0,
            },
    {
        if self.rx_queue.len() > 0 {
            Some(&self.rx_queue[0])
        } else {
            None
        }
    }

    /// Where the drain stands.
    pub fn phase(&self) -> (phase: Phase)
        ensures
            phase == self@.phase,
    {
        self.phase
    }

    fn resume(&mut self) -> (action: Action)
        requires
            old(self).wf(),
        ensures
            final(self).wf(),
            final(self)@ == old(self)@.resume().0,
            action == old(self)@.resume().1,
    {
        if self.rx_queue.len() == 0 {
            self.phase = Phase::Idle;
            return Action::Idle;
        }
        if self.listener.is_none() {
            while self.rx_queue.len() > 0
                invariant
                    self.listener.is_none(),
                    self.ch == old(self).ch,
                    self.interface == old(self).interface,
                    self.mac_addr == old(self).mac_addr,
                    self.reserved == old(self).reserved,
                decreases self.rx_queue.len(),
            {
                self.rx_queue.pop_front();
            }
            self.phase = Phase::Idle;
            proof {
                assert(self@.rx_queue =~= Seq::empty());
            }
            return Action::Idle;
        }
        match self.reserved {
            Some(page) => {
                self.phase = Phase::AwaitingSend;
                Action::Deliver { page }
            },
            None => {
                let num_pages = pages_for(self.rx_queue[0].len());
                self.phase = Phase::AwaitingPages;
                Action::AllocPages { num_pages }
            },
        }
    }

    /// Takes the drain of the receive queue one step on: `event` is what
    /// happened, the answer what is to be done next.
    pub fn notification(&mut self, event: Event) -> (reply: Result<Action, Error>)
        requires
            old(self).wf(),
        ensures
            final(self).wf(),
            final(self)@ == old(self)@.step(event).0,
            reply == old(self)@.step(event).1,
    {
        match (self.phase, event) {
            (Phase::Idle, Event::Interrupt) => Ok(self.resume()),
            (Phase::AwaitingPages, Event::Pages(Ok(page))) => {
                self.reserved = Some(page);
                self.phase = Phase::AwaitingSend;
                Ok(Action::Deliver { page })
            },
            (Phase::AwaitingPages, Event::Pages(Err(_))) => {
                self.phase = Phase::Idle;
                Ok(Action::Idle)
            },
            (Phase::AwaitingSend, Event::Sent(Err(Error::NeedsRetry))) => {
                self.phase = Phase::Idle;
                Ok(Action::Idle)
            },
            (Phase::AwaitingSend, Event::Sent(_)) => {
                self.rx_queue.pop_front();
                self.reserved = None;
                self.phase = Phase::Idle;
                proof {
                    assert(self@.rx_queue =~= old(self)@.rx_queue.skip(1));
                }
                Ok(self.resume())
            },
            _ => Err(Error::ContractViolation),
        }
    }
}

} // verus!
