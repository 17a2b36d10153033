//! What holds of the drain of the receive queue, whatever the device, the
//! memory manager and the listener do.

use vstd::prelude::*;
use crate::error::Error;
use crate::message::Page;
use crate::server::{Action, Event, Phase, ServerView, pages_spanning};

verus! {

/// A step keeps the invariant of the service, and never touches the
/// listener, the endpoint, the interface or the hardware address.
pub proof fn lemma_step_keeps_identity(s: ServerView, event: Event)
    requires
        s.wf(),
    ensures
        s.step(event).0.wf(),
        s.step(event).0.listener == s.listener,
        s.step(event).0.ch == s.ch,
        s.step(event).0.interface == s.interface,
        s.step(event).0.mac_addr == s.mac_addr,
{
}

/// A step only ever removes packets from the front of the queue: what is
/// left is the old queue without its first few packets, in the old order.
pub proof fn lemma_step_removes_from_front(s: ServerView, event: Event) -> (removed: int)
    requires
        s.wf(),
    ensures
        0 <= removed <= s.rx_queue.len(),
        s.step(event).0.rx_queue == s.rx_queue.skip(removed),
{
    let after = s.step(event).0.rx_queue;
    if after == s.rx_queue {
        assert(s.rx_queue.skip(0) =~= s.rx_queue);
        0
    } else if after == s.rx_queue.skip(1) {
        1
    } else {
        assert(after =~= s.rx_queue.skip(s.rx_queue.len() as int));
        s.rx_queue.len() as int
    }
}

/// A packet leaves the queue only when the listener has answered a send
/// with something other than a wish to try again, or when an interrupt finds
/// no listener. Every other step leaves the queue as it is.
pub proof fn lemma_queue_changes_only_on_delivery_or_drop(s: ServerView, event: Event)
    requires
        s.wf(),
        s.step(event).0.rx_queue != s.rx_queue,
    ensures
        match event {
            Event::Sent(answer) => s.phase == Phase::AwaitingSend && answer != Err::<(), Error>(
                Error::NeedsRetry,
            ),
            Event::Interrupt => s.phase == Phase::Idle && s.listener.is_none(),
            Event::Pages(_) => false,
        },
{
}

/// Without a listener, an interrupt empties the queue at once: no pages are
/// asked for and nothing is sent.
pub proof fn lemma_no_listener_drops_all(s: ServerView)
    requires
        s.wf(),
        s.phase == Phase::Idle,
        s.listener.is_none(),
    ensures
        s.step(Event::Interrupt).1 == Ok::<Action, Error>(Action::Idle),
        s.step(Event::Interrupt).0.rx_queue.len() == 0,
        s.step(Event::Interrupt).0.phase == Phase::Idle,
{
}

/// Where the memory manager refuses the pages, the drain ends for this
/// interrupt: nothing is sent and the queue is untouched.
pub proof fn lemma_refused_pages_stop_the_drain(s: ServerView, error: Error)
    requires
        s.wf(),
        s.phase == Phase::AwaitingPages,
    ensures
        s.step(Event::Pages(Err(error))).1 == Ok::<Action, Error>(Action::Idle),
        s.step(Event::Pages(Err(error))).0 == (ServerView { phase: Phase::Idle, ..s }),
{
}

/// Where the listener asks to try again, the drain ends for this interrupt
/// with the queue untouched, and the next interrupt sends the same packet in
/// the same page, with no further request for pages.
pub proof fn lemma_retry_keeps_packet_and_page(s: ServerView)
    requires
        s.wf(),
        s.phase == Phase::AwaitingSend,
    ensures
        s.step(Event::Sent(Err(Error::NeedsRetry))).1 == Ok::<Action, Error>(Action::Idle),
        s.step(Event::Sent(Err(Error::NeedsRetry))).0 == (ServerView { phase: Phase::Idle, ..s }),
        s.step(Event::Sent(Err(Error::NeedsRetry))).0.step(Event::Interrupt) == (
            s,
            Ok::<Action, Error>(Action::Deliver { page: s.reserved.unwrap() }),
        ),
{
    let paused = s.step(Event::Sent(Err(Error::NeedsRetry))).0;
    assert(paused.resume().0 == s);
}

/// One round of the drain with a listener and no page held back: the
/// interrupt asks for the pages that span the front packet, the granted page
/// is the one the packet is sent in, and an answer other than a wish to try
/// again removes exactly that packet and lets the drain go on with the
/// next.
pub proof fn lemma_delivery_round(s: ServerView, page: Page, answer: Result<(), Error>)
    requires
        s.wf(),
        s.phase == Phase::Idle,
        s.listener.is_some(),
        s.reserved.is_none(),
        s.rx_queue.len() > 0,
        answer != Err::<(), Error>(Error::NeedsRetry),
    ensures
        s.step(Event::Interrupt).1 == Ok::<Action, Error>(
            Action::AllocPages { num_pages: pages_spanning(s.rx_queue[0].len() as int) as usize },
        ),
        s.step(Event::Interrupt).0.step(Event::Pages(Ok(page))).1 == Ok::<Action, Error>(
            Action::Deliver { page },
        ),
        s.step(Event::Interrupt).0.step(Event::Pages(Ok(page))).0.step(Event::Sent(answer)) == (
            ServerView { rx_queue: s.rx_queue.skip(1), ..s }).step(Event::Interrupt),
{
}

/// The service after the events of `events` were reported in turn.
pub open spec fn run(s: ServerView, events: Seq<Event>) -> ServerView
    decreases events.len(),
{
    if events.len() == 0 {
        s
    } else {
        run(s.step(events[0]).0, events.skip(1))
    }
}

/// The sends that the service asks for while the events of `events` are
/// reported in turn: each with its page and with the packet that is at the
/// front of the queue when it is asked for.
pub open spec fn deliveries(s: ServerView, events: Seq<Event>) -> Seq<(Page, Seq<u8>)>
    decreases events.len(),
{
    if events.len() == 0 {
        Seq::empty()
    } else {
        let next = s.step(events[0]).0;
        let later = deliveries(next, events.skip(1));
        match s.step(events[0]).1 {
            Ok(Action::Deliver { page }) => seq![(page, next.rx_queue[0])] + later,
            _ => later,
        }
    }
}

/// What is reported after the interrupt in a drain during which the memory
/// manager grants the pages of `pages`, one for each packet, and the
/// listener takes every packet.
pub open spec fn granted_and_taken(pages: Seq<Page>) -> Seq<Event>
    decreases pages.len(),
{
    if pages.len() == 0 {
        Seq::empty()
    } else {
        seq![Event::Pages(Ok(pages[0])), Event::Sent(Ok(()))] + granted_and_taken(pages.skip(1))
    }
}

/// Packet number `k` of `packets` in page number `k` of `pages`, for every
/// `k`.
pub open spec fn each_in_its_page(pages: Seq<Page>, packets: Seq<Seq<u8>>) -> Seq<
    (Page, Seq<u8>),
> {
    Seq::new(packets.len(), |k: int| (pages[k], packets[k]))
}

/// Whatever is reported, and in whatever order, the service stays valid and
/// its queue only loses packets from the front.
pub proof fn lemma_run_removes_from_front(s: ServerView, events: Seq<Event>) -> (removed: int)
    requires
        s.wf(),
    ensures
        run(s, events).wf(),
        run(s, events).listener == s.listener,
        0 <= removed <= s.rx_queue.len(),
        run(s, events).rx_queue == s.rx_queue.skip(removed),
    decreases events.len(),
{
    if events.len() == 0 {
        assert(s.rx_queue.skip(0) =~= s.rx_queue);
        0
    } else {
        let next = s.step(events[0]).0;
        let first = lemma_step_removes_from_front(s, events[0]);
        let rest = lemma_run_removes_from_front(next, events.skip(1));
        assert(s.rx_queue.skip(first).skip(rest) =~= s.rx_queue.skip(first + rest));
        first + rest
    }
}

proof fn lemma_accepting_drain_from_first_request(s: ServerView, pages: Seq<Page>)
    requires
        s.wf(),
        s.phase == Phase::AwaitingPages,
        pages.len() == s.rx_queue.len(),
    ensures
        run(s, granted_and_taken(pages)) == (ServerView {
            phase: Phase::Idle,
            rx_queue: Seq::empty(),
            ..s
        }),
        deliveries(s, granted_and_taken(pages)) == each_in_its_page(pages, s.rx_queue),
    decreases pages.len(),
{
    let events = granted_and_taken(pages);
    let later = granted_and_taken(pages.skip(1));
    let sending = s.step(events[0]).0;
    let next = sending.step(events[1]).0;
    assert(events.len() == later.len() + 2);
    assert(events[0] == Event::Pages(Ok(pages[0])));
    assert(events[1] == Event::Sent(Ok(())));
    assert(events.skip(1).skip(1) =~= later);
    assert(events.skip(1)[0] == events[1]);
    assert(run(s, events) == run(sending, events.skip(1)));
    assert(run(sending, events.skip(1)) == run(next, later));
    assert(deliveries(s, events) == seq![(pages[0], s.rx_queue[0])] + deliveries(
        sending,
        events.skip(1),
    ));
    assert(deliveries(sending, events.skip(1)) == deliveries(next, later));
    if pages.len() == 1 {
        assert(next.rx_queue =~= Seq::empty());
        assert(later.len() == 0);
        assert(deliveries(s, events) =~= each_in_its_page(pages, s.rx_queue));
    } else {
        lemma_accepting_drain_from_first_request(next, pages.skip(1));
        assert(deliveries(s, events) =~= each_in_its_page(pages, s.rx_queue));
    }
}

/// With a listener that takes every packet and a memory manager that grants
/// every request, one interrupt delivers the whole queue, each packet once
/// and in the order of the queue, and leaves the queue empty.
pub proof fn lemma_accepting_drain_delivers_all(s: ServerView, pages: Seq<Page>)
    requires
        s.wf(),
        s.phase == Phase::Idle,
        s.listener.is_some(),
        s.reserved.is_none(),
        pages.len() == s.rx_queue.len(),
    ensures
        run(s, seq![Event::Interrupt] + granted_and_taken(pages)) == (ServerView {
            rx_queue: Seq::empty(),
            ..s
        }),
        deliveries(s, seq![Event::Interrupt] + granted_and_taken(pages)) == each_in_its_page(
            pages,
            s.rx_queue,
        ),
{
    let events = seq![Event::Interrupt] + granted_and_taken(pages);
    let started = s.step(Event::Interrupt).0;
    assert(events[0] == Event::Interrupt);
    assert(events.skip(1) =~= granted_and_taken(pages));
    assert(run(s, events) == run(started, granted_and_taken(pages)));
    assert(deliveries(s, events) == deliveries(started, granted_and_taken(pages)));
    if pages.len() == 0 {
        assert(s.rx_queue =~= Seq::empty());
        assert(granted_and_taken(pages).len() == 0);
        assert(deliveries(s, events) =~= each_in_its_page(pages, s.rx_queue));
    } else {
        lemma_accepting_drain_from_first_request(started, pages);
    }
}

} // verus!
