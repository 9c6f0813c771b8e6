use enigma::device::block::{Block, BlockError};
use enigma::device::reflector::{Reflector, ReflectorError};
use enigma::device::rotor::{Rotor, RotorError};
use enigma::device::EnigmaError;

fn stack(reflector: &str, rotors: &[&str]) -> Block {
    let mut block = Block::new();
    block.set_reflector(Reflector::model(reflector).unwrap());
    for rotor in rotors {
        block.add_rotor(Rotor::model(rotor).unwrap());
    }
    block
}

fn after_steps(block: &mut Block, from: &str, steps: usize) -> String {
    block.set_segments(from).unwrap();
    for _ in 0..steps {
        block.advance();
    }
    block.segments()
}

#[test]
fn set_segments() {
    let mut block = Block::new();
    block.set_reflector(Reflector::model("B").unwrap());
    block.add_rotor(Rotor::model("I").unwrap());
    block.add_rotor(Rotor::model("II").unwrap());
    block.add_rotor(Rotor::model("III").unwrap());

    assert_eq!(block.set_segments("BhR").unwrap(), block.segments());
    assert_eq!(block.segments(), "BHR");
}

#[test]
fn check_segments_failure_too_much_segments() {
    let mut block = Block::new();
    block.set_reflector(Reflector::model("B").unwrap());
    block.add_rotor(Rotor::model("I").unwrap());
    block.add_rotor(Rotor::model("II").unwrap());
    block.add_rotor(Rotor::model("III").unwrap());

    block.set_segments("AAAA").unwrap_err();
}

#[test]
fn check_segments_failure_invalid_segment() {
    let mut block = Block::new();
    block.set_reflector(Reflector::model("B").unwrap());
    block.add_rotor(Rotor::model("I").unwrap());
    block.add_rotor(Rotor::model("II").unwrap());
    block.add_rotor(Rotor::model("III").unwrap());

    block.set_segments("AA;").unwrap_err();
}

#[test]
fn double_step() {
    let mut block = Block::new();
    block.set_reflector(Reflector::model("B").unwrap());
    block.add_rotor(Rotor::model("I").unwrap());
    block.add_rotor(Rotor::model("II").unwrap());
    block.add_rotor(Rotor::model("III").unwrap());

    _ = block.set_segments("ADU").unwrap();
    block.advance();
    block.advance();
    block.advance();
    block.advance();

    assert_eq!(block.segments(), "BFY");
}

#[test]
fn block_crypt() {
    let mut block = Block::new();
    block.set_reflector(Reflector::model("B").unwrap());
    block.add_rotor(Rotor::model("I").unwrap());
    block.add_rotor(Rotor::model("II").unwrap());
    block.add_rotor(Rotor::model("III").unwrap());

    _ = block.set_segments("PDU").unwrap();

    let mut encoded = String::new();
    for ch in "HelloWorld".chars() {
        match block.crypt(ch) {
            Ok(out) => encoded.push(out),
            Err(err) => panic!("unexpected error from block: {}", err.message()),
        }
    }

    assert_eq!(encoded, "MPVJAELATQ");
}

#[test]
fn block_double_step_one_step_at_a_time() {
    let mut block = stack("B", &["I", "II", "III"]);
    block.set_segments("ADU").unwrap();
    block.advance();
    assert_eq!(block.segments(), "ADV");
    block.advance();
    assert_eq!(block.segments(), "AEW");
    block.advance();
    assert_eq!(block.segments(), "BFX");
    block.advance();
    assert_eq!(block.segments(), "BFY");
}

#[test]
fn block_steps_without_turnover() {
    let mut block = stack("B", &["I", "II", "III"]);
    assert_eq!(after_steps(&mut block, "AAA", 1), "AAB");
    assert_eq!(after_steps(&mut block, "AAA", 21), "AAV");
    assert_eq!(after_steps(&mut block, "AAZ", 1), "AAA");
}

#[test]
fn block_turnover_from_the_rightmost_rotor() {
    let mut block = stack("B", &["I", "II", "III"]);
    // the right rotor leaves its notch and takes the middle one along
    assert_eq!(after_steps(&mut block, "AAV", 1), "ABW");
    // the middle rotor stands at its notch too: all three turn
    assert_eq!(after_steps(&mut block, "AEV", 1), "BFW");
    // the left rotor at its notch has nobody to take along
    assert_eq!(after_steps(&mut block, "QAV", 1), "QBW");
}

#[test]
fn block_turnover_runs_through_four_rotors() {
    let mut block = stack("B", &["I", "II", "III", "IV"]);
    // right rotor not at its notch, its neighbour neither
    assert_eq!(after_steps(&mut block, "AAAA", 1), "AAAB");
    // right rotor at its notch, neighbour not: two rotors turn
    assert_eq!(after_steps(&mut block, "AAAJ", 1), "AABK");
    // right rotor and neighbour at their notches: three rotors turn
    assert_eq!(after_steps(&mut block, "AAVJ", 1), "ABWK");
    // all of them at their notches
    assert_eq!(after_steps(&mut block, "QEVJ", 1), "RFWK");
    // double step: the neighbour alone stands at its notch
    assert_eq!(after_steps(&mut block, "AAVA", 1), "ABWB");
    // double step that runs on to the left
    assert_eq!(after_steps(&mut block, "AEVA", 1), "BFWB");
    // a notch further left does not start anything
    assert_eq!(after_steps(&mut block, "AEAA", 1), "AEAB");
    assert_eq!(after_steps(&mut block, "QEAA", 1), "QEAB");
}

#[test]
fn block_one_and_two_rotors() {
    let mut one = stack("B", &["III"]);
    assert_eq!(after_steps(&mut one, "U", 2), "W");
    assert_eq!(after_steps(&mut one, "Z", 1), "A");

    let mut two = stack("B", &["II", "III"]);
    assert_eq!(after_steps(&mut two, "AV", 1), "BW");
    assert_eq!(after_steps(&mut two, "EA", 1), "FB");
    assert_eq!(after_steps(&mut two, "EV", 1), "FW");
    assert_eq!(after_steps(&mut two, "AA", 1), "AB");
}

#[test]
fn block_without_rotors_does_not_step() {
    let mut block = Block::new();
    block.advance();
    assert_eq!(block.segments(), "");
    assert_eq!(block.ring_offsets(), "");
    assert_eq!(block.set_segments("").unwrap(), "");
    assert_eq!(block.set_ring_offsets("").unwrap(), "");
}

#[test]
fn block_without_parts_hands_characters_on() {
    let mut block = Block::new();
    assert_eq!(block.crypt('A').unwrap(), 'A');
    assert_eq!(block.crypt('a').unwrap(), 'a');
    assert_eq!(block.crypt(';').unwrap(), ';');
}

#[test]
fn block_with_reflector_alone() {
    let mut block = Block::new();
    block.set_reflector(Reflector::model("B").unwrap());
    assert_eq!(block.crypt('a').unwrap(), 'Y');
    assert_eq!(block.crypt('Y').unwrap(), 'A');
    assert!(matches!(
        block.crypt('?'),
        Err(EnigmaError::Reflector(ReflectorError::InvalidCharacter('?')))
    ));
}

#[test]
fn block_without_reflector_passes_the_rotors_both_ways() {
    let mut block = Block::new();
    block.add_rotor(Rotor::model("I").unwrap());
    block.add_rotor(Rotor::model("II").unwrap());
    block.add_rotor(Rotor::model("III").unwrap());
    block.set_segments("PDU").unwrap();
    let mut out = String::new();
    for ch in "HelloWorld".chars() {
        out.push(block.crypt(ch).unwrap());
    }
    assert_eq!(out, "HELLOWORLD");
    // ten steps from PDU: the right rotor passes its notch V, and the
    // middle rotor then stands at its own notch E and takes the left along
    assert_eq!(block.segments(), "QFE");
}

#[test]
fn block_turns_before_it_refuses() {
    let mut block = stack("B", &["I", "II", "III"]);
    block.set_segments("ADU").unwrap();
    assert!(matches!(
        block.crypt('!'),
        Err(EnigmaError::Rotor(RotorError::InvalidSegmentPosition('!')))
    ));
    assert_eq!(block.segments(), "ADV");
}

#[test]
fn block_crypt_exact_first_symbols() {
    let mut block = stack("B", &["I", "II", "III"]);
    // the classic check: AAA turns A after A into BDZGO
    let mut out = String::new();
    for _ in 0..5 {
        out.push(block.crypt('A').unwrap());
    }
    assert_eq!(out, "BDZGO");
    assert_eq!(block.segments(), "AAF");
}

#[test]
fn block_is_its_own_inverse() {
    let mut sender = stack("C", &["IV", "VI", "II", "VIII"]);
    let mut receiver = stack("C", &["IV", "VI", "II", "VIII"]);
    for block in [&mut sender, &mut receiver] {
        block.set_segments("MZEL").unwrap();
        block.set_ring_offsets("BXQA").unwrap();
    }
    for ch in "THEQUICKBROWNFOXJUMPSOVERTHELAZYDOGAGAINANDAGAIN".chars() {
        let cipher = sender.crypt(ch).unwrap();
        assert_ne!(cipher, ch);
        assert_eq!(receiver.crypt(cipher).unwrap(), ch);
        assert_eq!(sender.segments(), receiver.segments());
    }
}

#[test]
fn block_set_segments_reports_the_counts() {
    let mut block = stack("B", &["I", "II", "III"]);
    block.set_segments("XYZ").unwrap();
    assert!(matches!(
        block.set_segments("AAAA"),
        Err(EnigmaError::Block(BlockError::InvalidCountOfSegments(4, 3)))
    ));
    assert!(matches!(
        block.set_segments(""),
        Err(EnigmaError::Block(BlockError::InvalidCountOfSegments(0, 3)))
    ));
    assert!(matches!(
        block.set_ring_offsets("AA"),
        Err(EnigmaError::Block(BlockError::InvalidCountOfSegments(2, 3)))
    ));
    // a wrong count changes nothing
    assert_eq!(block.segments(), "XYZ");
    assert_eq!(block.ring_offsets(), "AAA");
}

#[test]
fn block_set_segments_keeps_what_was_set_before_the_refusal() {
    let mut block = stack("B", &["I", "II", "III"]);
    block.set_segments("XYZ").unwrap();
    assert!(matches!(
        block.set_segments("AB;"),
        Err(EnigmaError::Rotor(RotorError::InvalidSegmentPosition(';')))
    ));
    assert_eq!(block.segments(), "ABZ");
    assert!(matches!(
        block.set_segments("C1!"),
        Err(EnigmaError::Rotor(RotorError::InvalidSegmentPosition('1')))
    ));
    assert_eq!(block.segments(), "CBZ");
    assert!(matches!(
        block.set_segments("?DE"),
        Err(EnigmaError::Rotor(RotorError::InvalidSegmentPosition('?')))
    ));
    assert_eq!(block.segments(), "CBZ");
    assert_eq!(block.ring_offsets(), "AAA");
}

#[test]
fn block_set_ring_offsets() {
    let mut block = stack("B", &["I", "II", "III"]);
    assert_eq!(block.ring_offsets(), "AAA");
    assert_eq!(block.set_ring_offsets("iUp").unwrap(), "IUP");
    assert_eq!(block.ring_offsets(), "IUP");
    assert_eq!(block.segments(), "AAA");
    assert!(matches!(
        block.set_ring_offsets("Q-R"),
        Err(EnigmaError::Rotor(RotorError::InvalidRingOffset('-')))
    ));
    assert_eq!(block.ring_offsets(), "QUP");
}

#[test]
fn block_counts_characters_not_bytes() {
    let mut block = stack("B", &["I", "II", "III"]);
    // two characters, three bytes
    assert!(matches!(
        block.set_segments("\u{e9}A"),
        Err(EnigmaError::Block(BlockError::InvalidCountOfSegments(2, 3)))
    ));
    // three characters, five bytes
    assert!(matches!(
        block.set_segments("AB\u{20ac}"),
        Err(EnigmaError::Rotor(RotorError::InvalidSegmentPosition('\u{20ac}')))
    ));
    assert_eq!(block.segments(), "ABA");
}

#[test]
fn block_new_reflector_takes_the_place_of_the_old() {
    let mut block = Block::new();
    block.set_reflector(Reflector::model("A").unwrap());
    assert_eq!(block.crypt('A').unwrap(), 'E');
    block.set_reflector(Reflector::model("C").unwrap());
    assert_eq!(block.crypt('A').unwrap(), 'F');
}
