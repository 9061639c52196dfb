use delorean_tsm::{ErrorKind, InfluxID};

#[test]
fn influx_id() {
    let id = InfluxID::new_str("20aa9b0").unwrap();
    assert_eq!(id, InfluxID(34_253_232));
    assert_eq!(id.to_string(), "00000000020aa9b0");
}

#[test]
fn influx_id_round_trip_extremes() {
    for v in [0u64, 1, 0x0123_4567_89ab_cdef, u64::MAX] {
        let s = InfluxID(v).to_string();
        assert_eq!(s.len(), 16);
        assert_eq!(InfluxID::new_str(&s).unwrap(), InfluxID(v));
    }
    assert_eq!(InfluxID(u64::MAX).to_string(), "ffffffffffffffff");
    assert_eq!(InfluxID(0).to_string(), "0000000000000000");
}

#[test]
fn influx_id_accepts_upper_case() {
    assert_eq!(InfluxID::new_str("05C19117091A1000").unwrap(), InfluxID(0x05c1_9117_091a_1000));
}

#[test]
fn influx_id_rejects_bad_text() {
    for s in ["", "12345678901234567", "xyz", "12 4", "+1"] {
        let e = InfluxID::new_str(s).unwrap_err();
        assert_eq!(e.kind, ErrorKind::Decode);
    }
}

#[test]
fn influx_id_from_be_bytes() {
    let id = InfluxID::from_be_bytes([0x05, 0xc1, 0x91, 0x17, 0x09, 0x1a, 0x10, 0x01]);
    assert_eq!(id, InfluxID(0x05c1_9117_091a_1001));
}
