use resea_netdev::channel::Channel;
use resea_netdev::error::Error;
use resea_netdev::message::Page;
use resea_netdev::server::{pages_for, Action, Event, Phase, Server};

const INTERFACE: u8 = 7;
const MAC: [u8; 6] = [0x52, 0x54, 0x00, 0x12, 0x34, 0x56];

fn server() -> Server {
    Server::new(Channel::from_cid(3), INTERFACE, MAC)
}

fn packet(tag: u8, len: usize) -> Vec<u8> {
    vec![tag; len]
}

/// What the collaborators saw during one interrupt.
struct Trace {
    page_requests: Vec<usize>,
    deliveries: Vec<(Page, Vec<u8>)>,
}

/// Serves one interrupt: `grants` answers the requests for pages in turn and
/// `answers` the sends; where one runs out, the request succeeds.
fn interrupt(
    server: &mut Server,
    grants: &[Result<Page, Error>],
    answers: &[Result<(), Error>],
) -> Trace {
    let mut trace = Trace { page_requests: Vec::new(), deliveries: Vec::new() };
    let mut next_page: usize = 0x10_0000;
    let mut event = Event::Interrupt;
    loop {
        match server.notification(event) {
            Ok(Action::Idle) => return trace,
            Ok(Action::AllocPages { num_pages }) => {
                let k = trace.page_requests.len();
                trace.page_requests.push(num_pages);
                let grant = if k < grants.len() {
                    grants[k]
                } else {
                    next_page += 0x10_000;
                    Ok(Page::new(next_page, num_pages))
                };
                event = Event::Pages(grant);
            }
            Ok(Action::Deliver { page }) => {
                let k = trace.deliveries.len();
                let front = server.front().expect("a packet is at the front").clone();
                trace.deliveries.push((page, front));
                event = Event::Sent(if k < answers.len() { answers[k] } else { Ok(()) });
            }
            Err(error) => panic!("the service refused an event: {:?}", error),
        }
    }
}

#[test]
fn pages_for_rounds_up() {
    assert_eq!(pages_for(0), 0);
    assert_eq!(pages_for(1), 1);
    assert_eq!(pages_for(4095), 1);
    assert_eq!(pages_for(4096), 1);
    assert_eq!(pages_for(4097), 2);
    assert_eq!(pages_for(3 * 4096), 3);
    assert_eq!(pages_for(usize::MAX), usize::MAX / 4096 + 1);
}

#[test]
fn new_server_is_idle_and_empty() {
    let s = server();
    assert_eq!(s.listener(), None);
    assert_eq!(s.pending(), 0);
    assert_eq!(s.phase(), Phase::Idle);
    assert!(s.front().is_none());
}

#[test]
fn macaddr_is_the_devices() {
    let s = server();
    assert_eq!(s.get_macaddr(), Ok((0x52, 0x54, 0x00, 0x12, 0x34, 0x56)));
}

#[test]
fn listen_registers_the_listener() {
    let mut s = server();
    assert_eq!(s.listen(Channel::from_cid(11)), Ok(()));
    assert_eq!(s.listener(), Some(11));
}

#[test]
fn second_listen_is_rejected_and_keeps_the_first() {
    let mut s = server();
    assert_eq!(s.listen(Channel::from_cid(11)), Ok(()));
    assert_eq!(s.listen(Channel::from_cid(12)), Err(Error::ContractViolation));
    assert_eq!(s.listener(), Some(11));
    assert_eq!(s.listen(Channel::from_cid(11)), Err(Error::ContractViolation));
    assert_eq!(s.listener(), Some(11));
}

#[test]
fn transmit_rejects_a_length_beyond_the_buffer() {
    let s = server();
    let data = [1u8, 2, 3, 4];
    assert_eq!(s.transmit(5, &data), Err(Error::InvalidArg));
    assert_eq!(s.transmit(usize::MAX, &data), Err(Error::InvalidArg));
    assert_eq!(s.transmit(1, &[]), Err(Error::InvalidArg));
}

#[test]
fn transmit_hands_the_bytes_to_the_device() {
    let s = server();
    let data = [1u8, 2, 3, 4];
    assert_eq!(s.transmit(4, &data), Ok(&data[..]));
    assert_eq!(s.transmit(2, &data), Ok(&data[..]));
    assert_eq!(s.transmit(0, &[]), Ok(&[][..]));
}

#[test]
fn connect_binds_to_the_published_interface() {
    let s = server();
    assert_eq!(s.connect(INTERFACE), Ok((INTERFACE, 3)));
    assert_eq!(s.connect(INTERFACE), Ok((INTERFACE, 3)));
}

#[test]
fn connect_rejects_another_interface() {
    let s = server();
    assert_eq!(s.connect(INTERFACE + 1), Err(Error::ContractViolation));
    assert_eq!(s.connect(0), Err(Error::ContractViolation));
}

#[test]
fn receive_queues_in_order() {
    let mut s = server();
    s.receive(packet(1, 10));
    s.receive(packet(2, 20));
    assert_eq!(s.pending(), 2);
    assert_eq!(s.front(), Some(&packet(1, 10)));
}

#[test]
fn all_packets_are_delivered_in_order() {
    let mut s = server();
    assert_eq!(s.listen(Channel::from_cid(9)), Ok(()));
    s.receive(packet(1, 60));
    s.receive(packet(2, 5000));
    s.receive(packet(3, 4096));
    let trace = interrupt(&mut s, &[], &[]);
    assert_eq!(trace.page_requests, vec![1, 2, 1]);
    assert_eq!(trace.deliveries.len(), 3);
    assert_eq!(trace.deliveries[0].1, packet(1, 60));
    assert_eq!(trace.deliveries[1].1, packet(2, 5000));
    assert_eq!(trace.deliveries[2].1, packet(3, 4096));
    assert_eq!(trace.deliveries[0].0.num_pages, 1);
    assert_eq!(trace.deliveries[1].0.num_pages, 2);
    assert_eq!(s.pending(), 0);
    assert_eq!(s.phase(), Phase::Idle);
}

#[test]
fn without_listener_packets_are_dropped() {
    let mut s = server();
    s.receive(packet(1, 60));
    s.receive(packet(2, 60));
    let trace = interrupt(&mut s, &[], &[]);
    assert!(trace.page_requests.is_empty());
    assert!(trace.deliveries.is_empty());
    assert_eq!(s.pending(), 0);
    assert_eq!(s.phase(), Phase::Idle);
}

#[test]
fn busy_listener_stops_the_drain_and_is_retried() {
    let mut s = server();
    assert_eq!(s.listen(Channel::from_cid(9)), Ok(()));
    s.receive(packet(1, 100));
    s.receive(packet(2, 200));
    let granted = Page::new(0x20_0000, 1);
    let first = interrupt(&mut s, &[Ok(granted)], &[Err(Error::NeedsRetry)]);
    assert_eq!(first.page_requests, vec![1]);
    assert_eq!(first.deliveries, vec![(granted, packet(1, 100))]);
    assert_eq!(s.pending(), 2);
    assert_eq!(s.front(), Some(&packet(1, 100)));
    assert_eq!(s.phase(), Phase::Idle);

    let second = interrupt(&mut s, &[], &[]);
    assert_eq!(second.page_requests, vec![1]);
    assert_eq!(second.deliveries.len(), 2);
    assert_eq!(second.deliveries[0], (granted, packet(1, 100)));
    assert_eq!(second.deliveries[1].1, packet(2, 200));
    assert_eq!(s.pending(), 0);
}

#[test]
fn refused_pages_leave_the_queue_untouched() {
    let mut s = server();
    assert_eq!(s.listen(Channel::from_cid(9)), Ok(()));
    s.receive(packet(1, 100));
    s.receive(packet(2, 200));
    s.receive(packet(3, 300));
    let trace = interrupt(&mut s, &[Err(Error::Other)], &[]);
    assert_eq!(trace.page_requests, vec![1]);
    assert!(trace.deliveries.is_empty());
    assert_eq!(s.pending(), 3);
    assert_eq!(s.front(), Some(&packet(1, 100)));
    assert_eq!(s.phase(), Phase::Idle);

    let later = interrupt(&mut s, &[], &[]);
    assert_eq!(later.deliveries.len(), 3);
    assert_eq!(later.deliveries[0].1, packet(1, 100));
    assert_eq!(later.deliveries[1].1, packet(2, 200));
    assert_eq!(later.deliveries[2].1, packet(3, 300));
    assert_eq!(s.pending(), 0);
}

#[test]
fn failed_send_drops_the_packet_and_goes_on() {
    let mut s = server();
    assert_eq!(s.listen(Channel::from_cid(9)), Ok(()));
    s.receive(packet(1, 100));
    s.receive(packet(2, 200));
    let trace = interrupt(&mut s, &[], &[Err(Error::Other), Ok(())]);
    assert_eq!(trace.deliveries.len(), 2);
    assert_eq!(trace.deliveries[1].1, packet(2, 200));
    assert_eq!(s.pending(), 0);
}

#[test]
fn each_step_asks_for_the_next_action() {
    let mut s = server();
    assert_eq!(s.listen(Channel::from_cid(9)), Ok(()));
    s.receive(packet(1, 8192));
    assert_eq!(s.notification(Event::Interrupt), Ok(Action::AllocPages { num_pages: 2 }));
    assert_eq!(s.phase(), Phase::AwaitingPages);
    let page = Page::new(0x30_0000, 2);
    assert_eq!(s.notification(Event::Pages(Ok(page))), Ok(Action::Deliver { page }));
    assert_eq!(s.phase(), Phase::AwaitingSend);
    assert_eq!(s.pending(), 1);
    assert_eq!(s.notification(Event::Sent(Ok(()))), Ok(Action::Idle));
    assert_eq!(s.phase(), Phase::Idle);
    assert_eq!(s.pending(), 0);
}

#[test]
fn empty_packet_asks_for_no_pages() {
    let mut s = server();
    assert_eq!(s.listen(Channel::from_cid(9)), Ok(()));
    s.receive(Vec::new());
    assert_eq!(s.notification(Event::Interrupt), Ok(Action::AllocPages { num_pages: 0 }));
}

#[test]
fn interrupt_on_empty_queue_does_nothing() {
    let mut s = server();
    assert_eq!(s.listen(Channel::from_cid(9)), Ok(()));
    assert_eq!(s.notification(Event::Interrupt), Ok(Action::Idle));
    assert_eq!(s.phase(), Phase::Idle);
}

#[test]
fn unawaited_events_are_violations() {
    let mut s = server();
    assert_eq!(s.listen(Channel::from_cid(9)), Ok(()));
    s.receive(packet(1, 10));
    let page = Page::new(0x30_0000, 1);
    assert_eq!(s.notification(Event::Pages(Ok(page))), Err(Error::ContractViolation));
    assert_eq!(s.notification(Event::Sent(Ok(()))), Err(Error::ContractViolation));
    assert_eq!(s.pending(), 1);
    assert_eq!(s.phase(), Phase::Idle);
    assert_eq!(s.notification(Event::Interrupt), Ok(Action::AllocPages { num_pages: 1 }));
    assert_eq!(s.notification(Event::Interrupt), Err(Error::ContractViolation));
    assert_eq!(s.notification(Event::Sent(Ok(()))), Err(Error::ContractViolation));
    assert_eq!(s.phase(), Phase::AwaitingPages);
    assert_eq!(s.notification(Event::Pages(Ok(page))), Ok(Action::Deliver { page }));
    assert_eq!(s.notification(Event::Pages(Ok(page))), Err(Error::ContractViolation));
    assert_eq!(s.notification(Event::Interrupt), Err(Error::ContractViolation));
    assert_eq!(s.pending(), 1);
    assert_eq!(s.phase(), Phase::AwaitingSend);
}

#[test]
fn packets_received_during_a_drain_are_kept() {
    let mut s = server();
    assert_eq!(s.listen(Channel::from_cid(9)), Ok(()));
    s.receive(packet(1, 10));
    assert_eq!(s.notification(Event::Interrupt), Ok(Action::AllocPages { num_pages: 1 }));
    s.receive(packet(2, 5000));
    let page = Page::new(0x30_0000, 1);
    assert_eq!(s.notification(Event::Pages(Ok(page))), Ok(Action::Deliver { page }));
    assert_eq!(s.notification(Event::Sent(Ok(()))), Ok(Action::AllocPages { num_pages: 2 }));
    assert_eq!(s.front(), Some(&packet(2, 5000)));
}

#[test]
fn listener_registered_between_interrupts_gets_later_packets() {
    let mut s = server();
    s.receive(packet(1, 10));
    let dropped = interrupt(&mut s, &[], &[]);
    assert!(dropped.deliveries.is_empty());
    assert_eq!(s.listen(Channel::from_cid(9)), Ok(()));
    s.receive(packet(2, 10));
    let trace = interrupt(&mut s, &[], &[]);
    assert_eq!(trace.deliveries.len(), 1);
    assert_eq!(trace.deliveries[0].1, packet(2, 10));
}

#[test]
fn channel_keeps_its_number() {
    assert_eq!(Channel::from_cid(42).cid(), 42);
    assert_eq!(Channel::from_cid(-1).cid(), -1);
}
