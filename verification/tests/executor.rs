use ipfix_collector::executor::{
    parser_step, Aggregator, Coordinator, CoordinatorAction, IPFIXCollectorHandle,
    MsgToAggregatorThread, MsgToCoordinatorThread, MsgToParserThread, ParserAction,
};
use ipfix_collector::parse_data::{DataRow, DataSet, DataType};
use ipfix_collector::parse_packet::PacketInfo;
use ipfix_collector::template_ring::TemplateRing;
use ipfix_collector::templates::{IPFIXField, IPFIXTemplate};
use std::sync::mpsc;

fn template_256(fields: Vec<IPFIXField>) -> IPFIXTemplate {
    IPFIXTemplate { id: 256, odid: 3, fields }
}

fn wide_then_narrow() -> IPFIXTemplate {
    template_256(vec![
        IPFIXField { width: 4, start_byte: 0, en: 0, field_id: 8 },
        IPFIXField { width: 2, start_byte: 4, en: 0, field_id: 7 },
    ])
}

fn narrow_then_wide() -> IPFIXTemplate {
    template_256(vec![
        IPFIXField { width: 2, start_byte: 0, en: 0, field_id: 7 },
        IPFIXField { width: 4, start_byte: 2, en: 0, field_id: 8 },
    ])
}

/// A datagram of the observation domain 3 with one data set for the
/// template 256 and one record of six bytes.
fn data_datagram(seq: u32) -> Vec<u8> {
    let mut out = vec![0x00, 0x0a, 0x00, 0x1a, 0, 0, 0, 1];
    out.extend_from_slice(&seq.to_be_bytes());
    out.extend_from_slice(&[0, 0, 0, 3]);
    out.extend_from_slice(&[0x01, 0x00, 0x00, 0x0a, 0x11, 0x22, 0x33, 0x44, 0x55, 0x66]);
    out
}

/// A datagram of the observation domain 3 that announces `wide_then_narrow`.
fn template_datagram() -> Vec<u8> {
    let mut out = vec![0x00, 0x0a, 0x00, 0x20, 0, 0, 0, 1, 0, 0, 0, 2, 0, 0, 0, 3];
    out.extend_from_slice(&[
        0x00, 0x02, 0x00, 0x10, 0x01, 0x00, 0x00, 0x02, 0x00, 0x08, 0x00, 0x04, 0x00, 0x07, 0x00,
        0x02,
    ]);
    out
}

fn packet(odid: u32, seq_num: u32) -> PacketInfo {
    PacketInfo { export_time: 0, seq_num, templates: vec![], data: vec![], set_error_count: 0, odid }
}

#[test]
fn parser_stops_on_stop() {
    let mut ring = TemplateRing::new();
    assert_eq!(parser_step(&mut ring, MsgToParserThread::Stop), ParserAction::Stop);
}

#[test]
fn parser_installs_a_template() {
    let mut ring = TemplateRing::new();
    let action = parser_step(&mut ring, MsgToParserThread::InstallTemplate(wide_then_narrow()));
    assert_eq!(action, ParserAction::Installed);
    assert_eq!(ring.get_template(256, 3), Some(wide_then_narrow()));
}

#[test]
fn parser_drops_an_unusable_datagram() {
    let mut ring = TemplateRing::new();
    let action = parser_step(&mut ring, MsgToParserThread::Work(vec![0x00, 0x09, 0x00, 0x10]));
    assert_eq!(action, ParserAction::Dropped);
    let mut pkt = template_datagram();
    pkt[1] = 9;
    assert_eq!(parser_step(&mut ring, MsgToParserThread::Work(pkt)), ParserAction::Dropped);
    assert_eq!(ring.get_template(256, 3), None);
}

#[test]
fn parser_publishes_templates_and_result() {
    let mut ring = TemplateRing::new();
    let action = parser_step(&mut ring, MsgToParserThread::Work(template_datagram()));
    let info = PacketInfo {
        export_time: 1,
        seq_num: 2,
        templates: vec![wide_then_narrow()],
        data: vec![],
        set_error_count: 0,
        odid: 3,
    };
    assert_eq!(
        action,
        ParserAction::Publish {
            announce: vec![MsgToCoordinatorThread::NewTemplate(wide_then_narrow())],
            result: MsgToAggregatorThread::Packet(info),
        }
    );
    // The parser learns the template only when the coordinator sends it.
    assert_eq!(ring.get_template(256, 3), None);
}

#[test]
fn parser_counts_unknown_template_until_it_is_installed() {
    let mut ring = TemplateRing::new();
    match parser_step(&mut ring, MsgToParserThread::Work(data_datagram(5))) {
        ParserAction::Publish { announce, result: MsgToAggregatorThread::Packet(info) } => {
            assert_eq!(announce, vec![]);
            assert_eq!(info.data, vec![]);
            assert_eq!(info.set_error_count, 1);
        }
        other => panic!("unexpected action {:?}", other),
    }
    parser_step(&mut ring, MsgToParserThread::InstallTemplate(wide_then_narrow()));
    match parser_step(&mut ring, MsgToParserThread::Work(data_datagram(6))) {
        ParserAction::Publish { announce, result: MsgToAggregatorThread::Packet(info) } => {
            assert_eq!(announce, vec![]);
            assert_eq!(info.seq_num, 6);
            assert_eq!(info.data.len(), 1);
            assert_eq!(info.set_error_count, 0);
        }
        other => panic!("unexpected action {:?}", other),
    }
}

#[test]
fn template_refresh_changes_the_layout() {
    let mut ring = TemplateRing::new();
    let mut agg = Aggregator::new();
    let mut feed = |ring: &mut TemplateRing, msg: MsgToParserThread| {
        if let ParserAction::Publish { result, .. } = parser_step(ring, msg) {
            assert!(agg.step(result));
        }
    };
    feed(&mut ring, MsgToParserThread::InstallTemplate(wide_then_narrow()));
    feed(&mut ring, MsgToParserThread::Work(data_datagram(1)));
    feed(&mut ring, MsgToParserThread::InstallTemplate(narrow_then_wide()));
    feed(&mut ring, MsgToParserThread::Work(data_datagram(2)));
    let seen = agg.snapshot(3).unwrap();
    assert_eq!(seen.len(), 2);
    assert_eq!(
        seen[0].data,
        vec![DataSet {
            id: 256,
            template: 256,
            fields: vec![
                DataRow { id: 8, en: 0, data: DataType::U32(0x11223344) },
                DataRow { id: 7, en: 0, data: DataType::U16(0x5566) },
            ],
        }]
    );
    assert_eq!(
        seen[1].data,
        vec![DataSet {
            id: 256,
            template: 256,
            fields: vec![
                DataRow { id: 7, en: 0, data: DataType::U16(0x1122) },
                DataRow { id: 8, en: 0, data: DataType::U32(0x33445566) },
            ],
        }]
    );
}

#[test]
fn coordinator_needs_a_parser() {
    assert!(Coordinator::new(0).is_none());
    assert_eq!(Coordinator::new(1).unwrap().parser_count(), 1);
    assert_eq!(Coordinator::new(32).unwrap().parser_count(), 32);
}

#[test]
fn two_parsers_three_datagrams() {
    let mut c = Coordinator::new(2).unwrap();
    assert_eq!(c.dispatch(&[1]), (0, MsgToParserThread::Work(vec![1])));
    assert_eq!(c.dispatch(&[2, 2]), (1, MsgToParserThread::Work(vec![2, 2])));
    assert_eq!(c.dispatch(&[3, 3, 3]), (0, MsgToParserThread::Work(vec![3, 3, 3])));
}

#[test]
fn single_parser_gets_everything() {
    let mut c = Coordinator::new(1).unwrap();
    for _ in 0..5 {
        assert_eq!(c.dispatch(&[]).0, 0);
    }
}

#[test]
fn round_robin_is_fair() {
    for n in 1..6usize {
        for total in 0..23usize {
            let mut c = Coordinator::new(n).unwrap();
            let mut got = vec![0usize; n];
            for k in 0..total {
                let (target, _) = c.dispatch(&[k as u8]);
                assert_eq!(target, k % n);
                got[target] += 1;
            }
            for (i, g) in got.iter().enumerate() {
                assert_eq!(*g, total / n + if i < total % n { 1 } else { 0 });
                assert!(*g == total / n || *g == (total + n - 1) / n);
            }
        }
    }
}

#[test]
fn seven_datagrams_for_three_parsers() {
    let mut c = Coordinator::new(3).unwrap();
    let targets: Vec<usize> = (0..7).map(|_| c.dispatch(&[0]).0).collect();
    assert_eq!(targets, vec![0, 1, 2, 0, 1, 2, 0]);
}

#[test]
fn new_template_goes_to_every_parser() {
    let c = Coordinator::new(3).unwrap();
    let action = c.control(MsgToCoordinatorThread::NewTemplate(wide_then_narrow()));
    assert_eq!(
        action,
        CoordinatorAction::Broadcast {
            parsers: vec![
                MsgToParserThread::InstallTemplate(wide_then_narrow()),
                MsgToParserThread::InstallTemplate(wide_then_narrow()),
                MsgToParserThread::InstallTemplate(wide_then_narrow()),
            ],
        }
    );
}

#[test]
fn stop_goes_to_every_parser_and_the_aggregator() {
    let c = Coordinator::new(2).unwrap();
    assert_eq!(
        c.control(MsgToCoordinatorThread::Stop),
        CoordinatorAction::Shutdown {
            parsers: vec![MsgToParserThread::Stop, MsgToParserThread::Stop],
            aggregator: MsgToAggregatorThread::Stop,
        }
    );
}

#[test]
fn control_does_not_move_the_turn() {
    let mut c = Coordinator::new(2).unwrap();
    assert_eq!(c.dispatch(&[]).0, 0);
    c.control(MsgToCoordinatorThread::NewTemplate(wide_then_narrow()));
    assert_eq!(c.dispatch(&[]).0, 1);
}

#[test]
fn aggregator_files_by_domain_in_arrival_order() {
    let mut agg = Aggregator::new();
    assert!(agg.snapshot(1).is_none());
    assert!(agg.step(MsgToAggregatorThread::Packet(packet(1, 10))));
    assert!(agg.step(MsgToAggregatorThread::Packet(packet(2, 20))));
    assert!(agg.step(MsgToAggregatorThread::Packet(packet(1, 11))));
    assert!(agg.step(MsgToAggregatorThread::Packet(packet(1, 9))));
    assert_eq!(agg.snapshot(1), Some(&vec![packet(1, 10), packet(1, 11), packet(1, 9)]));
    assert_eq!(agg.snapshot(2), Some(&vec![packet(2, 20)]));
    assert!(agg.snapshot(3).is_none());
}

#[test]
fn aggregator_ends_on_stop() {
    let mut agg = Aggregator::new();
    agg.step(MsgToAggregatorThread::Packet(packet(1, 10)));
    assert!(!agg.step(MsgToAggregatorThread::Stop));
    assert_eq!(agg.snapshot(1), Some(&vec![packet(1, 10)]));
}

#[test]
fn handle_sends_one_stop_to_the_coordinator() {
    let (tx, rx) = mpsc::channel();
    let mut handle = IPFIXCollectorHandle::new(tx);
    assert!(handle.stop());
    assert_eq!(rx.try_recv(), Ok(MsgToCoordinatorThread::Stop));
    assert!(rx.try_recv().is_err());
}

#[test]
fn handle_tells_when_the_coordinator_is_gone() {
    let (tx, rx) = mpsc::channel();
    let mut handle = IPFIXCollectorHandle::new(tx);
    drop(rx);
    assert!(!handle.stop());
}
