use enigma::device::details::{SegmentError, RING_B, SEGMENTS};
use enigma::device::reflector::{Reflector, ReflectorError};
use enigma::device::EnigmaError;

#[test]
fn new_reflector() {
    Reflector::model("A").unwrap();
    Reflector::model("B").unwrap();
    Reflector::model("C").unwrap();
}

#[test]
fn reflector_encryption() {
    let reflectors = vec![
        Reflector::model("A").unwrap(),
        Reflector::model("B").unwrap(),
        Reflector::model("C").unwrap(),
    ];

    for reflector in reflectors {
        for ch in SEGMENTS.chars() {
            for input in vec![ch, ch.to_ascii_lowercase()] {
                let intermediate = reflector.forward(input).unwrap();
                let output = reflector.backward(intermediate).unwrap();

                assert_eq!(
                    input.to_ascii_uppercase(),
                    output,
                    "forward + backward not equal to original value"
                );
            }
        }
    }
}

#[test]
fn reflector_check_encryption_failure() {
    Reflector::model("A").unwrap().forward('$').unwrap_err();
}

#[test]
fn reflector_models_send_back_twice_to_the_same_symbol() {
    for name in ["A", "B", "C"] {
        let reflector = Reflector::model(name).unwrap();
        for ch in SEGMENTS.chars() {
            let once = reflector.forward(ch).unwrap();
            assert_ne!(once, ch);
            assert_eq!(reflector.forward(once).unwrap(), ch);
        }
    }
}

#[test]
fn reflector_b_wiring() {
    let reflector = Reflector::model("b").unwrap();
    for (i, ch) in SEGMENTS.chars().enumerate() {
        let wired = RING_B.chars().nth(i).unwrap();
        assert_eq!(reflector.forward(ch).unwrap(), wired);
        assert_eq!(reflector.backward(ch).unwrap(), wired);
    }
    assert_eq!(reflector.forward('a').unwrap(), 'Y');
}

#[test]
fn reflector_model_refuses_unknown_names() {
    for name in ["", "D", "AB", "I", "b "] {
        match Reflector::model(name) {
            Err(EnigmaError::Reflector(ReflectorError::InvalidReflectorType(given))) => {
                assert_eq!(given, name.to_uppercase());
            }
            _ => panic!("reflector model {:?} was not refused as expected", name),
        }
    }
}

#[test]
fn reflector_from_model_name_takes_the_name_as_it_stands() {
    assert!(Reflector::from_model_name("C".to_string()).is_ok());
    match Reflector::from_model_name("c".to_string()) {
        Err(EnigmaError::Reflector(ReflectorError::InvalidReflectorType(given))) => {
            assert_eq!(given, "c")
        }
        _ => panic!("a lower-case name was not refused"),
    }
}

#[test]
fn reflector_new_checks_the_wiring() {
    let custom = Reflector::new("badcfehgjilknmporqtsvuxwzy").unwrap();
    assert_eq!(custom.forward('A').unwrap(), 'B');
    assert_eq!(custom.forward('b').unwrap(), 'A');
    assert!(matches!(
        Reflector::new("ABCDEFGHIJKLMNOPQRSTUVWXYZA"),
        Err(EnigmaError::Segment(SegmentError::InvalidRingSize(27, 26)))
    ));
    assert!(matches!(
        Reflector::new("ABCDEFGHIJKLMNOPQRSTUVWXYA"),
        Err(EnigmaError::Segment(SegmentError::MissedRingSegment('Z')))
    ));
}

#[test]
fn reflector_refusal_names_the_character() {
    let reflector = Reflector::model("C").unwrap();
    assert!(matches!(
        reflector.forward('7'),
        Err(ReflectorError::InvalidCharacter('7'))
    ));
    assert!(matches!(
        reflector.backward('{'),
        Err(ReflectorError::InvalidCharacter('{'))
    ));
}
