use cluster_monitor::client::{ClientAddr, ClientMetadata, LivenessTable};
use cluster_monitor::connection::{handle_received, packet_report, HandlerReport, Received};
use cluster_monitor::control::{
    on_accept_event, on_control, undelivered, AcceptAction, AcceptEvent, ControlChannel, ControlMsg, Verdict,
};
use cluster_monitor::measurement::{Cpu, Measurement, NodeInfo, State, StaticInfo};
use cluster_monitor::time::Timestamp;

fn sample(secs: i64) -> Measurement {
    Measurement {
        time: Timestamp::new(secs, 0),
        state: State::Initial(StaticInfo {
            node_info: NodeInfo { id: 1, mem_total: 64 },
            cpu_info: Cpu { nodes: vec![] },
            gpu_info: vec![],
        }),
    }
}

#[test]
fn broadcast_reaches_every_receiver() {
    let mut channel = ControlChannel::new();
    assert_eq!(channel.send(ControlMsg::Shutdown), Vec::<bool>::new());
    let mut a = channel.new_receiver();
    let mut b = channel.new_receiver();
    let mut c = channel.new_receiver();
    assert_eq!(channel.send(ControlMsg::Shutdown), vec![true, true, true]);
    assert_eq!(a.try_recv(), Ok(ControlMsg::Shutdown));
    assert_eq!(b.try_recv(), Ok(ControlMsg::Shutdown));
    assert_eq!(c.try_recv(), Ok(ControlMsg::Shutdown));
    assert!(a.try_recv().is_err());
}

#[test]
fn broadcast_goes_on_after_a_receiver_that_is_gone() {
    let mut channel = ControlChannel::new();
    let a = channel.new_receiver();
    let mut b = channel.new_receiver();
    let c = channel.new_receiver();
    let mut d = channel.new_receiver();
    drop(a);
    drop(c);
    let taken = channel.send(ControlMsg::Shutdown);
    assert_eq!(taken, vec![false, true, false, true]);
    assert_eq!(undelivered(&taken), vec![0, 2]);
    assert_eq!(b.try_recv(), Ok(ControlMsg::Shutdown));
    assert_eq!(d.try_recv(), Ok(ControlMsg::Shutdown));
}

#[test]
fn undelivered_lists_refusals_in_order() {
    assert_eq!(undelivered(&vec![]), Vec::<usize>::new());
    assert_eq!(undelivered(&vec![true, true]), Vec::<usize>::new());
    assert_eq!(undelivered(&vec![false, false, true, false]), vec![0, 1, 3]);
}

#[test]
fn control_verdicts() {
    assert_eq!(on_control(Some(ControlMsg::Shutdown)), Verdict::Stop);
    assert_eq!(on_control(None), Verdict::StopPremature);
    assert_eq!(on_accept_event(AcceptEvent::Incoming), AcceptAction::Dispatch);
    assert_eq!(on_accept_event(AcceptEvent::Control(Some(ControlMsg::Shutdown))), AcceptAction::Stop);
    assert_eq!(on_accept_event(AcceptEvent::Control(None)), AcceptAction::StopPremature);
    assert_eq!(on_accept_event(AcceptEvent::ListenerClosed), AcceptAction::StopPremature);
}

#[test]
fn a_packet_is_enqueued_and_the_sender_noted() {
    let (tx, mut rx) = tokio::sync::mpsc::unbounded_channel::<Measurement>();
    let mut table = LivenessTable::new();
    let addr = ClientAddr::V4(0x7f00_0001);
    let now = Timestamp::new(500, 0);
    assert_eq!(handle_received(Received::Packet(sample(499)), addr, &tx, &mut table, now), HandlerReport::Enqueued);
    assert_eq!(rx.try_recv(), Ok(sample(499)));
    assert!(rx.try_recv().is_err());
    assert_eq!(table.get(addr), Some(ClientMetadata::new_at(now)));
}

#[test]
fn a_malformed_payload_is_not_enqueued_but_the_sender_is_noted() {
    let (tx, mut rx) = tokio::sync::mpsc::unbounded_channel::<Measurement>();
    let mut table = LivenessTable::new();
    let addr = ClientAddr::V6(1);
    let now = Timestamp::new(500, 0);
    assert_eq!(handle_received(Received::Malformed, addr, &tx, &mut table, now), HandlerReport::MalformedPayload);
    assert!(rx.try_recv().is_err());
    assert_eq!(table.get(addr), Some(ClientMetadata::new_at(now)));
}

#[test]
fn a_read_error_touches_nothing() {
    let (tx, mut rx) = tokio::sync::mpsc::unbounded_channel::<Measurement>();
    let mut table = LivenessTable::new();
    let addr = ClientAddr::V4(3);
    assert_eq!(
        handle_received(Received::ReadFailed, addr, &tx, &mut table, Timestamp::new(1, 0)),
        HandlerReport::ReadError
    );
    assert!(rx.try_recv().is_err());
    assert_eq!(table.get(addr), None);
}

#[test]
fn a_closed_queue_is_reported_and_not_fatal() {
    let (tx, rx) = tokio::sync::mpsc::unbounded_channel::<Measurement>();
    drop(rx);
    let mut table = LivenessTable::new();
    let addr = ClientAddr::V4(3);
    let now = Timestamp::new(9, 0);
    assert_eq!(handle_received(Received::Packet(sample(8)), addr, &tx, &mut table, now), HandlerReport::QueueClosed);
    assert_eq!(table.get(addr), Some(ClientMetadata::new_at(now)));
    assert_eq!(packet_report(true), HandlerReport::Enqueued);
    assert_eq!(packet_report(false), HandlerReport::QueueClosed);
}
