use enigma::device::block::BlockError;
use enigma::device::details::SEGMENTS;
use enigma::device::plugboard::PlugBoardError;
use enigma::device::reflector::{Reflector, ReflectorError};
use enigma::device::rotor::{Rotor, RotorError};
use enigma::device::{Device, DeviceError, EnigmaError};

fn machine(reflector: &str, rotors: &[&str], pairs: &str, segments: &str, offsets: &str) -> Device {
    let mut device = Device::new();
    device.set_plug_pairs(pairs).unwrap();
    device.set_reflector_type(reflector).unwrap();
    for rotor in rotors {
        device.add_rotor_type(rotor).unwrap();
    }
    device.set_segments(segments).unwrap();
    device.set_ring_offsets(offsets).unwrap();
    device
}

#[test]
fn device_crypt() {
    let mut device = Device::new();
    device.set_reflector_type("B").unwrap();
    device.add_rotor_type("I").unwrap();
    device.add_rotor_type("II").unwrap();
    device.add_rotor_type("III").unwrap();

    device.set_plug_pairs("HWKLAO").unwrap();
    device.set_segments("PDU").unwrap();
    device.set_ring_offsets("IUP").unwrap();

    let mut encoded = String::new();

    for ch in "Hello, World!!".chars() {
        match device.crypt(ch) {
            Ok(out) => encoded.push(out),
            Err(_) => (), // ignore
        }
    }

    assert_eq!(encoded, "WHJDZGZLEN");
}

#[test]
fn device_without_plugboard() {
    let mut device = machine("B", &["I", "II", "III"], "", "PDU", "AAA");
    assert_eq!(device.crypt_text("HelloWorld"), "MPVJAELATQ");
}

#[test]
fn device_crypt_text_passes_over_what_is_refused() {
    let mut device = machine("B", &["I", "II", "III"], "HWKLAO", "PDU", "IUP");
    assert_eq!(device.crypt_text("Hello, World!!"), "WHJDZGZLEN");
    // ten symbols were keyed in, and the rotors turned ten times
    assert_eq!(device.segments(), "QFE");
    assert_eq!(device.crypt_text(""), "");
    assert_eq!(device.crypt_text(" ,;\n"), "");
    assert_eq!(device.segments(), "QFE");
}

#[test]
fn device_deciphers_what_it_enciphered() {
    let plain = "HelloWorld";
    let mut sender = machine("B", &["I", "II", "III"], "HWKLAO", "PDU", "IUP");
    let cipher = sender.crypt_text(plain);
    let mut receiver = machine("B", &["I", "II", "III"], "HWKLAO", "PDU", "IUP");
    assert_eq!(receiver.crypt_text(&cipher), plain.to_ascii_uppercase());
    assert_eq!(receiver.segments(), sender.segments());
}

#[test]
fn device_deciphers_with_any_historical_setup() {
    let plain = "WEATHERREPORTFORTHENORTHSEAWINDFORCESIXFROMTHEWESTRAINLATER";
    let rotors = ["I", "II", "III", "IV", "V", "VI", "VII", "VIII"];
    for (n, reflector) in ["A", "B", "C"].iter().enumerate() {
        for first in 0..rotors.len() {
            for count in 0..5 {
                let chosen: Vec<&str> = (0..count)
                    .map(|i| rotors[(first + i * (n + 1)) % rotors.len()])
                    .collect();
                let segments: String = (0..count)
                    .map(|i| SEGMENTS.chars().nth((7 * first + 5 * i + n) % 26).unwrap())
                    .collect();
                let offsets: String = (0..count)
                    .map(|i| SEGMENTS.chars().nth((3 * first + 11 * i + 2 * n) % 26).unwrap())
                    .collect();
                let mut sender = machine(reflector, &chosen, "QAWSEDRFTG", &segments, &offsets);
                let mut receiver = machine(reflector, &chosen, "QAWSEDRFTG", &segments, &offsets);
                let cipher = sender.crypt_text(plain);
                assert_eq!(cipher.len(), plain.len());
                assert_eq!(receiver.crypt_text(&cipher), plain);
            }
        }
    }
}

#[test]
fn device_never_enciphers_a_symbol_as_itself() {
    let mut device = machine("B", &["IV", "II", "V"], "ABCD", "KEY", "RNG");
    for _ in 0..20 {
        for ch in SEGMENTS.chars() {
            assert_ne!(device.crypt(ch).unwrap(), ch);
        }
    }
}

#[test]
fn device_with_a_reflector_that_does_not_swap_is_not_its_own_inverse() {
    let cycle = "BCADEFGHIJKLMNOPQRSTUVWXYZ";
    let mut sender = Device::new();
    sender.set_reflector(Reflector::new(cycle).unwrap());
    let mut receiver = Device::new();
    receiver.set_reflector(Reflector::new(cycle).unwrap());
    let cipher = sender.crypt('A').unwrap();
    assert_eq!(cipher, 'B');
    assert_eq!(receiver.crypt(cipher).unwrap(), 'C');
}

#[test]
fn device_without_reflector_hands_symbols_on() {
    let mut device = Device::new();
    device.add_rotor_type("I").unwrap();
    device.add_rotor_type("II").unwrap();
    device.set_plug_pairs("AB").unwrap();
    assert_eq!(device.crypt_text("AbCz"), "ABCZ");
    assert_eq!(device.segments(), "AE");
}

#[test]
fn device_as_unpacked() {
    let mut device = Device::new();
    assert_eq!(device.plugboard(), "");
    assert_eq!(device.segments(), "");
    assert_eq!(device.ring_offsets(), "");
    assert_eq!(device.crypt('x').unwrap(), 'X');
    assert!(matches!(
        device.crypt('1'),
        Err(EnigmaError::Device(DeviceError::InvalidCharacter('1')))
    ));
}

#[test]
fn device_refuses_before_the_rotors_turn() {
    let mut device = machine("B", &["I", "II", "III"], "", "AAA", "AAA");
    assert!(matches!(
        device.crypt(' '),
        Err(EnigmaError::Device(DeviceError::InvalidCharacter(' ')))
    ));
    assert!(matches!(
        device.crypt('\u{e4}'),
        Err(EnigmaError::Device(DeviceError::InvalidCharacter('\u{e4}')))
    ));
    assert_eq!(device.segments(), "AAA");
    device.crypt('a').unwrap();
    assert_eq!(device.segments(), "AAB");
}

#[test]
fn device_set_reflector_and_add_rotor() {
    let mut by_value = Device::new();
    by_value.set_reflector(Reflector::model("B").unwrap());
    by_value.add_rotor(Rotor::model("I").unwrap());
    by_value.add_rotor(Rotor::model("II").unwrap());
    by_value.add_rotor(Rotor::model("III").unwrap());
    let mut by_name = machine("b", &["i", "ii", "iii"], "", "AAA", "AAA");
    assert_eq!(by_value.crypt_text("AAAAA"), "BDZGO");
    assert_eq!(by_name.crypt_text("AAAAA"), "BDZGO");
}

#[test]
fn device_refuses_unknown_models() {
    let mut device = machine("B", &["I"], "", "A", "A");
    match device.set_reflector_type("d") {
        Err(EnigmaError::Reflector(ReflectorError::InvalidReflectorType(given))) => {
            assert_eq!(given, "D")
        }
        _ => panic!("reflector model d was not refused"),
    }
    match device.add_rotor_type("ix") {
        Err(EnigmaError::Rotor(RotorError::InvalidRotorType(given))) => assert_eq!(given, "IX"),
        _ => panic!("rotor model ix was not refused"),
    }
    // the machine is as it was
    assert_eq!(device.segments(), "A");
    // rotor I steps to B and sends A to J, reflector B sends back X,
    // which leaves the rotor as N
    assert_eq!(device.crypt('A').unwrap(), 'N');
}

#[test]
fn device_set_segments_and_ring_offsets() {
    let mut device = machine("B", &["I", "II", "III"], "", "AAA", "AAA");
    assert_eq!(device.set_segments("pdu").unwrap(), "PDU");
    assert_eq!(device.segments(), "PDU");
    assert_eq!(device.set_ring_offsets("iup").unwrap(), "IUP");
    assert_eq!(device.ring_offsets(), "IUP");
    assert!(matches!(
        device.set_segments("PD"),
        Err(EnigmaError::Block(BlockError::InvalidCountOfSegments(2, 3)))
    ));
    assert!(matches!(
        device.set_ring_offsets("IUPX"),
        Err(EnigmaError::Block(BlockError::InvalidCountOfSegments(4, 3)))
    ));
    assert!(matches!(
        device.set_segments("P.U"),
        Err(EnigmaError::Rotor(RotorError::InvalidSegmentPosition('.')))
    ));
    assert!(matches!(
        device.set_ring_offsets("IU9"),
        Err(EnigmaError::Rotor(RotorError::InvalidRingOffset('9')))
    ));
    assert_eq!(device.segments(), "PDU");
    assert_eq!(device.ring_offsets(), "IUP");
}

#[test]
fn device_plug_pairs() {
    let mut device = Device::new();
    assert_eq!(device.add_plug_pair('h', 'w').unwrap(), ('H', 'W'));
    assert_eq!(device.set_plug_pairs("klao").unwrap(), "HWKLAO");
    assert_eq!(device.plugboard(), "HWKLAO");
    assert!(matches!(
        device.add_plug_pair('H', 'X'),
        Err(EnigmaError::PlugBoard(PlugBoardError::Duplicate('H')))
    ));
    assert!(matches!(
        device.add_plug_pair('X', 'x'),
        Err(EnigmaError::PlugBoard(PlugBoardError::SameCharacters))
    ));
    assert!(matches!(
        device.add_plug_pair('X', '+'),
        Err(EnigmaError::PlugBoard(PlugBoardError::InvalidCharacter('+')))
    ));
    assert!(matches!(
        device.set_plug_pairs("XYZ"),
        Err(EnigmaError::PlugBoard(PlugBoardError::PairCountMismatch))
    ));
    assert_eq!(device.plugboard(), "HWKLAO");
    // with nothing between them the two passes of the plugboard cancel
    assert_eq!(device.crypt('h').unwrap(), 'H');
    device.set_reflector_type("B").unwrap();
    // H is plugged to W, which reflector B sends back as V
    assert_eq!(device.crypt('h').unwrap(), 'V');
    // A is plugged to O, which comes back as M
    assert_eq!(device.crypt('A').unwrap(), 'M');
    // M is not plugged and comes back as O, which is plugged to A
    assert_eq!(device.crypt('M').unwrap(), 'A');
}
