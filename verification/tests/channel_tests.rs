use serial_bridge::channel::ChannelConfig;
use serial_bridge::channel::DuplexChannel;
use serial_bridge::channel::FlowControl;
use serial_bridge::channel::Parity;
use serial_bridge::channel::StopBits;

#[test]
fn config_is_fixed_at_open() {
    let cfg = ChannelConfig {
        port: 2,
        baud: 9600,
        data_bits: 7,
        parity: Parity::Even,
        stop_bits: StopBits::Two,
        flow: FlowControl::RtsCts,
    };
    let mut c = DuplexChannel::open(cfg);
    assert_eq!(c.config(), cfg);
    c.emit(&vec![1]);
    let _ = c.read(4);
    let _ = c.write(&vec![2]);
    assert_eq!(c.config(), cfg);
}

#[test]
fn standard_config_is_8n1() {
    let cfg = ChannelConfig::standard(0, 115_200);
    assert_eq!(cfg.data_bits, 8);
    assert_eq!(cfg.parity, Parity::Disabled);
    assert_eq!(cfg.stop_bits, StopBits::One);
    assert_eq!(cfg.flow, FlowControl::Disabled);
    assert_eq!(cfg.baud, 115_200);
}

#[test]
fn write_appends_whole_records() {
    let mut c = DuplexChannel::new();
    assert!(c.write(&b"one".to_vec()));
    assert!(c.write(&b"two".to_vec()));
    assert_eq!(c.write_count(), 2);
    assert_eq!(c.write_record(0), b"one".to_vec());
    assert_eq!(c.write_record(1), b"two".to_vec());
    assert_eq!(c.wire_bytes(), b"onetwo".to_vec());
}

#[test]
fn competing_writers_never_interleave() {
    // three writers, each with a distinct marker, take turns in an
    // arbitrary serialized order; the captured wire is a concatenation of
    // whole markers, never a byte-level merge
    let markers: [&[u8]; 3] = [b"<AAAA>", b"[bb]", b"{cccccc}"];
    let schedule: [usize; 12] = [0, 1, 2, 2, 0, 1, 1, 0, 2, 0, 1, 2];

    let mut c = DuplexChannel::new();
    for &w in schedule.iter() {
        assert!(c.write(&markers[w].to_vec()));
    }

    // the wire equals the whole markers laid end to end in schedule order
    let mut expected: Vec<u8> = Vec::new();
    for &w in schedule.iter() {
        expected.extend_from_slice(markers[w]);
    }
    assert_eq!(c.wire_bytes(), expected);

    // and it parses back into whole markers, greedily, with no remainder
    let wire = c.wire_bytes();
    let mut at = 0;
    let mut seen = 0;
    while at < wire.len() {
        let m = markers
            .iter()
            .find(|m| wire[at..].starts_with(m))
            .expect("wire must continue with a whole marker");
        at += m.len();
        seen += 1;
    }
    assert_eq!(at, wire.len());
    assert_eq!(seen, schedule.len());
}

#[test]
fn read_consumes_from_the_front() {
    let mut c = DuplexChannel::new();
    c.emit(&vec![10, 20, 30, 40]);
    assert_eq!(c.read(3), vec![10, 20, 30]);
    assert_eq!(c.read(3), vec![40]);
    assert_eq!(c.read(3), Vec::<u8>::new());
}

#[test]
fn read_zero_returns_nothing() {
    let mut c = DuplexChannel::new();
    c.emit(&vec![7]);
    assert_eq!(c.read(0), Vec::<u8>::new());
    assert_eq!(c.read(8), vec![7]);
}

#[test]
fn reads_do_not_touch_the_write_log() {
    let mut c = DuplexChannel::new();
    c.emit(&vec![1, 2]);
    assert!(c.write(&vec![9]));
    let _ = c.read(16);
    assert_eq!(c.write_count(), 1);
    assert_eq!(c.wire_bytes(), vec![9]);
}
