use enigma::device::block::BlockError;
use enigma::device::details::SegmentError;
use enigma::device::plugboard::{PlugBoard, PlugBoardError};
use enigma::device::reflector::{Reflector, ReflectorError};
use enigma::device::rotor::{Rotor, RotorError};
use enigma::device::text::decimal_string;
use enigma::device::{Device, DeviceError, EnigmaError};

#[test]
fn messages_decimal_string() {
    assert_eq!(decimal_string(0), "0");
    assert_eq!(decimal_string(7), "7");
    assert_eq!(decimal_string(10), "10");
    assert_eq!(decimal_string(26), "26");
    assert_eq!(decimal_string(1090), "1090");
    assert_eq!(decimal_string(usize::MAX), format!("{}", usize::MAX));
}

#[test]
fn messages_of_segment_errors() {
    assert_eq!(
        SegmentError::InvalidRingSize(3, 26).message(),
        "invalid ring size: 3/26 (actual/expected)"
    );
    assert_eq!(
        SegmentError::MissedRingSegment('Q').message(),
        "missed ring segment: Q"
    );
    assert_eq!(SegmentError::InvalidNotch('!').message(), "invalid notch: !");
}

#[test]
fn messages_of_rotor_errors() {
    assert_eq!(
        RotorError::InvalidSegmentPosition(',').message(),
        "invalid segment position: ,"
    );
    assert_eq!(
        RotorError::InvalidRingOffset(':').message(),
        "invalid ring offset: :"
    );
    assert_eq!(
        RotorError::InvalidRotorType("IX".to_string()).message(),
        "invalid rotor type: IX"
    );
}

#[test]
fn messages_of_reflector_errors() {
    assert_eq!(
        ReflectorError::InvalidReflectorType("D".to_string()).message(),
        "invalid reflector type: D"
    );
    assert_eq!(
        ReflectorError::InvalidCharacter('$').message(),
        "invalid character: $"
    );
}

#[test]
fn messages_of_plugboard_errors() {
    assert_eq!(
        PlugBoardError::InvalidCharacter(';').message(),
        "invalid character: ;"
    );
    assert_eq!(
        PlugBoardError::Duplicate('C').message(),
        "plugboard already have connection for: C"
    );
    assert_eq!(
        PlugBoardError::SameCharacters.message(),
        "input and output of plug pair can not be same"
    );
    assert_eq!(
        PlugBoardError::PairCountMismatch.message(),
        "count of characters in pair settings should be even"
    );
}

#[test]
fn messages_of_block_and_device_errors() {
    assert_eq!(
        BlockError::InvalidCountOfSegments(4, 3).message(),
        "invalid count of segments: 4/3 (actual/expected)"
    );
    assert_eq!(
        BlockError::InvalidInput('?').message(),
        "invalid input character: ?"
    );
    assert_eq!(
        DeviceError::InvalidCharacter(' ').message(),
        "invalid character:  "
    );
}

#[test]
fn messages_of_failures_as_they_come() {
    assert_eq!(
        Rotor::model("x").err().unwrap().message(),
        "invalid rotor type: X"
    );
    assert_eq!(
        Reflector::model("").err().unwrap().message(),
        "invalid reflector type: "
    );
    assert_eq!(
        Rotor::new("ABC", "").err().unwrap().message(),
        "invalid ring size: 3/26 (actual/expected)"
    );
    let mut device = Device::new();
    device.add_rotor_type("I").unwrap();
    assert_eq!(
        device.set_segments("AB").unwrap_err().message(),
        "invalid count of segments: 2/1 (actual/expected)"
    );
    assert_eq!(
        device.crypt('~').unwrap_err().message(),
        "invalid character: ~"
    );
    assert_eq!(
        device.set_plug_pairs("ABA").unwrap_err().message(),
        "count of characters in pair settings should be even"
    );
    let mut board = PlugBoard::new();
    board.add_pair('A', 'B').unwrap();
    assert_eq!(
        board.add_pair('B', 'C').unwrap_err().message(),
        "plugboard already have connection for: B"
    );
    assert!(matches!(
        device.set_ring_offsets("?"),
        Err(EnigmaError::Rotor(RotorError::InvalidRingOffset('?')))
    ));
}
