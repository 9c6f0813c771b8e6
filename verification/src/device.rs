//! The complete machine and its parts.
//!
//! A character enters through the plugboard, runs through the rotor stack
//! and leaves through the plugboard again. The rotors turn before each
//! character, so that the same character is enciphered differently each
//! time; a machine set up as the sender's was turns the cipher text back
//! into the plain text.
pub mod block;
pub mod details;
pub mod plugboard;
pub mod reflector;
pub mod rotor;
pub mod text;
pub mod wiring;

use crate::device::block::{Block, BlockError, BlockView, ring_offsets_verdict, segments_verdict};
use crate::device::details::{
    all_symbols, index_of_symbol, is_symbol, lemma_symbol_index, names_symbols, upper, upper_seq,
    SegmentError,
};
use crate::device::plugboard::{PlugBoard, PlugBoardError, PlugBoardView};
use crate::device::reflector::{reflector_model, Reflector, ReflectorError, ReflectorView};
use crate::device::rotor::{rotor_model, Rotor, RotorError, RotorView};
use crate::device::text::{to_upper, unicode_uppercase, with_char};
use vstd::prelude::*;
use vstd::string::*;

verus! {

/// Why the machine could not pass a character.
#[derive(Debug, Clone)]
pub enum DeviceError {
    /// The character is no symbol of the alphabet.
    InvalidCharacter(char),
}

/// Any failure of the machine or of one of its parts.
#[derive(Debug, Clone)]
pub enum EnigmaError {
    /// A wiring or a notch set was turned down.
    Segment(SegmentError),
    /// A rotor failed.
    Rotor(RotorError),
    /// The reflector failed.
    Reflector(ReflectorError),
    /// The plugboard failed.
    PlugBoard(PlugBoardError),
    /// The rotor stack failed.
    Block(BlockError),
    /// The machine itself failed.
    Device(DeviceError),
}

impl DeviceError {
    /// What the error says.
    pub open spec fn text(&self) -> Seq<char> {
        match self {
            DeviceError::InvalidCharacter(c) => "invalid character: "@.push(*c),
        }
    }

    /// What the error says.
    pub fn message(&self) -> (r: String)
        ensures
            r@ == self.text(),
    {
        match self {
            DeviceError::InvalidCharacter(c) => with_char("invalid character: ", *c),
        }
    }
}

impl EnigmaError {
    /// What the error says: what the failure of the part says.
    pub open spec fn text(&self) -> Seq<char> {
        match self {
            EnigmaError::Segment(e) => e.text(),
            EnigmaError::Rotor(e) => e.text(),
            EnigmaError::Reflector(e) => e.text(),
            EnigmaError::PlugBoard(e) => e.text(),
            EnigmaError::Block(e) => e.text(),
            EnigmaError::Device(e) => e.text(),
        }
    }

    /// What the error says.
    pub fn message(&self) -> (r: String)
        ensures
            r@ == self.text(),
    {
        match self {
            EnigmaError::Segment(e) => e.message(),
            EnigmaError::Rotor(e) => e.message(),
            EnigmaError::Reflector(e) => e.message(),
            EnigmaError::PlugBoard(e) => e.message(),
            EnigmaError::Block(e) => e.message(),
            EnigmaError::Device(e) => e.message(),
        }
    }
}

/// A machine as its user sees it.
pub struct DeviceView {
    /// The plugboard.
    pub board: PlugBoardView,
    /// The rotor stack.
    pub block: BlockView,
}

impl DeviceView {
    /// Whether every part of the machine can be built.
    pub open spec fn wf(self) -> bool {
        self.board.wf() && self.block.wf()
    }

    /// The machine as it is unpacked: nothing plugged, no rotor, no reflector.
    pub open spec fn empty() -> DeviceView {
        DeviceView { board: PlugBoardView::empty(), block: BlockView::empty() }
    }

    /// Whether the machine deciphers what it enciphers: that depends on its
    /// reflector alone.
    pub open spec fn is_reciprocal(self) -> bool {
        self.block.is_reciprocal()
    }

    /// The symbol that `c` leaves the machine as, the rotors standing as
    /// they are.
    pub open spec fn encode(self, c: char) -> char {
        self.board.transform(self.block.encode(self.board.transform(c)))
    }

    /// The machine after the character `ch` was keyed in: the rotors have
    /// turned if `ch` names a symbol, and nothing has moved if it does not.
    pub open spec fn after(self, ch: char) -> DeviceView {
        if is_symbol(upper(ch)) {
            DeviceView { block: self.block.stepped(), ..self }
        } else {
            self
        }
    }

    /// What the machine answers when `ch` is keyed in: the symbol that
    /// `ch`, read without regard to case, leaves as once the rotors have
    /// turned, or the refusal of a character that names no symbol.
    pub open spec fn crypt(self, ch: char) -> Result<char, EnigmaError> {
        if is_symbol(upper(ch)) {
            Ok(self.after(ch).encode(upper(ch)))
        } else {
            Err(EnigmaError::Device(DeviceError::InvalidCharacter(ch)))
        }
    }

    /// The machine after the characters of `s` were keyed in.
    pub open spec fn after_text(self, s: Seq<char>) -> DeviceView
        decreases s.len(),
    {
        if s.len() == 0 {
            self
        } else {
            self.after(s[0]).after_text(s.drop_first())
        }
    }

    /// The answers of the machine to the characters of `s`, keyed in one
    /// after the other; a character that is refused leaves no trace.
    pub open spec fn crypt_text(self, s: Seq<char>) -> Seq<char>
        decreases s.len(),
    {
        if s.len() == 0 {
            Seq::empty()
        } else {
            let rest = self.after(s[0]).crypt_text(s.drop_first());
            match self.crypt(s[0]) {
                Ok(c) => seq![c] + rest,
                Err(_) => rest,
            }
        }
    }

    /// Keying in the answer to a character gives the character back, if the
    /// machine stands as it stood when it gave the answer; and both times
    /// the rotors end up in the same place.
    pub proof fn lemma_crypt_twice(self, ch: char)
        requires
            self.wf(),
            self.is_reciprocal(),
            is_symbol(upper(ch)),
        ensures
            ({
                let out = self.after(ch).encode(upper(ch));
                &&& is_symbol(out)
                &&& self.crypt(ch) == Ok::<char, EnigmaError>(out)
                &&& self.crypt(out) == Ok::<char, EnigmaError>(upper(ch))
                &&& self.after(out) == self.after(ch)
            }),
    {
        // each of the three stages undoes itself, and the rotors turn the
        // same way whatever symbol is keyed in
        let turned = self.after(ch);
        self.block.lemma_stepped();
        let plugged = self.board.transform(upper(ch));
        self.board.lemma_involution(upper(ch));
        let mixed = turned.block.encode(plugged);
        turned.block.lemma_encode_twice(plugged);
        self.board.lemma_involution(mixed);
        lemma_symbol_index();
    }

    /// A machine that is set up as the one that enciphered a text was, turns
    /// the cipher text back into the symbols of the text, and ends up where
    /// the other machine ended up. This holds of every text: what names no
    /// symbol is passed over, and lower case comes back as upper case.
    pub proof fn lemma_text_round_trip(self, s: Seq<char>)
        requires
            self.wf(),
            self.is_reciprocal(),
        ensures
            all_symbols(self.crypt_text(s)),
            self.crypt_text(s).len() == symbols_of(s).len(),
            self.crypt_text(self.crypt_text(s)) == symbols_of(s),
            self.after_text(self.crypt_text(s)) == self.after_text(s),
        decreases s.len(),
    {
        if s.len() > 0 {
            let next = self.after(s[0]);
            let rest = s.drop_first();
            self.block.lemma_stepped();
            next.lemma_text_round_trip(rest);
            if is_symbol(upper(s[0])) {
                self.lemma_crypt_twice(s[0]);
                let cipher = self.crypt_text(s);
                assert(cipher.drop_first() == next.crypt_text(rest));
                assert(all_symbols(cipher));
            }
        }
    }

    /// A text of symbols that was enciphered and then deciphered, on
    /// machines set up alike, is the text again.
    pub proof fn lemma_symbols_round_trip(self, s: Seq<char>)
        requires
            self.wf(),
            self.is_reciprocal(),
            all_symbols(s),
        ensures
            self.crypt_text(s).len() == s.len(),
            self.crypt_text(self.crypt_text(s)) == s,
    {
        self.lemma_text_round_trip(s);
        lemma_symbols_of_symbols(s);
    }
}

/// The symbols that the characters of `s` name, in canonical form and in
/// the order of `s`; a character that names no symbol is left out.
pub open spec fn symbols_of(s: Seq<char>) -> Seq<char>
    decreases s.len(),
{
    if s.len() == 0 {
        Seq::empty()
    } else if is_symbol(upper(s[0])) {
        seq![upper(s[0])] + symbols_of(s.drop_first())
    } else {
        symbols_of(s.drop_first())
    }
}

/// Where every character names a symbol none is left out, and a text of
/// symbols stays as it is.
pub proof fn lemma_symbols_of_symbols(s: Seq<char>)
    ensures
        names_symbols(s, s.len() as int) ==> symbols_of(s) == upper_seq(s),
        all_symbols(s) ==> symbols_of(s) == s,
    decreases s.len(),
{
    lemma_symbol_index();
    if s.len() > 0 {
        let rest = s.drop_first();
        lemma_symbols_of_symbols(rest);
        if names_symbols(s, s.len() as int) {
            assert(names_symbols(rest, rest.len() as int));
            assert(symbols_of(s) =~= upper_seq(s));
        }
    }
}

/// The machine.
pub struct Device {
    board: PlugBoard,
    block: Block,
}

impl View for Device {
    type V = DeviceView;

    closed spec fn view(&self) -> DeviceView {
        DeviceView { board: self.board@, block: self.block@ }
    }
}

impl Device {
    /// Whether every part of the machine is one that its constructors build.
    pub open spec fn wf(&self) -> bool {
        self@.wf()
    }

    /// A machine with nothing plugged, no rotor and no reflector.
    pub fn new() -> (device: Device)
        ensures
            device.wf(),
            device@ == DeviceView::empty(),
    {
        Device { board: PlugBoard::new(), block: Block::new() }
    }

    /// Sets the reflector, to the left of all rotors.
    pub fn set_reflector(&mut self, reflector: Reflector)
        requires
            old(self).wf(),
            reflector.wf(),
        ensures
            final(self).wf(),
            final(self)@ == (DeviceView {
                block: BlockView { reflector: Some(reflector@), ..old(self)@.block },
                ..old(self)@
            }),
    {
        self.block.set_reflector(reflector);
    }

    /// Adds a rotor to the right of those that are there.
    pub fn add_rotor(&mut self, rotor: Rotor)
        requires
            old(self).wf(),
            rotor.wf(),
        ensures
            final(self).wf(),
            final(self)@ == (DeviceView {
                block: BlockView {
                    rotors: old(self)@.block.rotors.push(rotor@),
                    ..old(self)@.block
                },
                ..old(self)@
            }),
    {
        self.block.add_rotor(rotor);
    }

    /// Sets the reflector model that `reflector_type` names; see
    /// [`Reflector::model`]. A name that no model has is refused, and nothing
    /// changes.
    pub fn set_reflector_type(&mut self, reflector_type: &str) -> (r: Result<(), EnigmaError>)
        requires
            old(self).wf(),
        ensures
            final(self).wf(),
            match reflector_model(unicode_uppercase(reflector_type@)) {
                Some(wiring) => r is Ok && final(self)@ == (DeviceView {
                    block: BlockView {
                        reflector: Some(ReflectorView { wiring }),
                        ..old(self)@.block
                    },
                    ..old(self)@
                }),
                None => r matches Err(
                    EnigmaError::Reflector(ReflectorError::InvalidReflectorType(given)),
                ) && given@ == unicode_uppercase(reflector_type@) && final(self)@ == old(self)@,
            },
            r is Ok ==> final(self)@.is_reciprocal(),
    {
        let made = Reflector::model(reflector_type);
        match made {
            Ok(reflector) => {
                self.block.set_reflector(reflector);
                Ok(())
            },
            Err(e) => Err(e),
        }
    }

    /// Adds the rotor model that `rotor_type` names to the right of the
    /// rotors that are there; see [`Rotor::model`]. A name that no model has
    /// is refused, and nothing changes.
    pub fn add_rotor_type(&mut self, rotor_type: &str) -> (r: Result<(), EnigmaError>)
        requires
            old(self).wf(),
        ensures
            final(self).wf(),
            match rotor_model(unicode_uppercase(rotor_type@)) {
                Some((wiring, notches)) => r is Ok && final(self)@ == (DeviceView {
                    block: BlockView {
                        rotors: old(self)@.block.rotors.push(
                            RotorView { wiring, notches, position: 0, ring_offset: 0 },
                        ),
                        ..old(self)@.block
                    },
                    ..old(self)@
                }),
                None => r matches Err(EnigmaError::Rotor(RotorError::InvalidRotorType(given)))
                    && given@ == unicode_uppercase(rotor_type@) && final(self)@ == old(self)@,
            },
    {
        let made = Rotor::model(rotor_type);
        match made {
            Ok(rotor) => {
                self.block.add_rotor(rotor);
                Ok(())
            },
            Err(e) => Err(e),
        }
    }

    /// The symbols in the windows, from left to right.
    pub fn segments(&self) -> (r: String)
        requires
            self.wf(),
        ensures
            r@ == self@.block.segments(),
    {
        self.block.segments()
    }

    /// Turns the rotors, from left to right, to the positions that the
    /// characters of `segments` name; see [`Block::set_segments`].
    pub fn set_segments(&mut self, segments: &str) -> (r: Result<String, EnigmaError>)
        requires
            old(self).wf(),
        ensures
            final(self).wf(),
            final(self)@ == (DeviceView {
                block: old(self)@.block.with_segments(segments@),
                ..old(self)@
            }),
            segments_verdict(old(self)@.block, segments@, r),
            r matches Ok(shown) ==> shown@ == final(self)@.block.segments(),
    {
        self.block.set_segments(segments)
    }

    /// The ring offsets, named by symbols, from left to right.
    pub fn ring_offsets(&self) -> (r: String)
        requires
            self.wf(),
        ensures
            r@ == self@.block.ring_offsets(),
    {
        self.block.ring_offsets()
    }

    /// Sets the ring offsets of the rotors, from left to right, to those
    /// that the characters of `offsets` name; see
    /// [`Block::set_ring_offsets`].
    pub fn set_ring_offsets(&mut self, offsets: &str) -> (r: Result<String, EnigmaError>)
        requires
            old(self).wf(),
        ensures
            final(self).wf(),
            final(self)@ == (DeviceView {
                block: old(self)@.block.with_ring_offsets(offsets@),
                ..old(self)@
            }),
            ring_offsets_verdict(old(self)@.block, offsets@, r),
            r matches Ok(set) ==> set@ == final(self)@.block.ring_offsets(),
    {
        self.block.set_ring_offsets(offsets)
    }

    /// The plugged symbols, pair after pair in the order of plugging.
    pub fn plugboard(&self) -> (r: &String)
        ensures
            r@ == self@.board.inputs,
    {
        self.board.pairs()
    }

    /// Plugs a cable between `input` and `output`; see
    /// [`PlugBoard::add_pair`].
    pub fn add_plug_pair(&mut self, input: char, output: char) -> (r: Result<
        (char, char),
        EnigmaError,
    >)
        requires
            old(self).wf(),
        ensures
            final(self).wf(),
            match old(self)@.board.add_pair(input, output) {
                Ok(next) => r == Ok::<(char, char), EnigmaError>((upper(input), upper(output)))
                    && final(self)@ == (DeviceView { board: next, ..old(self)@ }),
                Err(e) => r == Err::<(char, char), EnigmaError>(EnigmaError::PlugBoard(e))
                    && final(self)@ == old(self)@,
            },
    {
        match self.board.add_pair(input, output) {
            Ok(pair) => Ok(pair),
            Err(e) => Err(EnigmaError::PlugBoard(e)),
        }
    }

    /// Plugs the cables that `plug_pairs` names two characters at a time;
    /// see [`PlugBoard::set_plug_pairs`].
    pub fn set_plug_pairs(&mut self, plug_pairs: &str) -> (r: Result<&String, EnigmaError>)
        requires
            old(self).wf(),
        ensures
            final(self).wf(),
            final(self)@ == (DeviceView {
                board: old(self)@.board.set_pairs(plug_pairs@).0,
                ..old(self)@
            }),
            match old(self)@.board.set_pairs(plug_pairs@).1 {
                Some(e) => r == Err::<&String, EnigmaError>(EnigmaError::PlugBoard(e)),
                None => r matches Ok(pairs) && pairs@ == final(self)@.board.inputs,
            },
    {
        match self.board.set_plug_pairs(plug_pairs) {
            Ok(pairs) => Ok(pairs),
            Err(e) => Err(EnigmaError::PlugBoard(e)),
        }
    }

    /// Enciphers one character. A character that names no symbol, read
    /// without regard to case, is refused, and the rotors stay where they
    /// are. Otherwise the rotors turn, and the symbol runs through the
    /// plugboard, the rotor stack and the plugboard again.
    pub fn crypt(&mut self, ch: char) -> (r: Result<char, EnigmaError>)
        requires
            old(self).wf(),
        ensures
            final(self).wf(),
            final(self)@ == old(self)@.after(ch),
            r == old(self)@.crypt(ch),
            r matches Ok(out) ==> is_symbol(out),
    {
        let mut val = to_upper(ch);
        if index_of_symbol(val).is_none() {
            return Err(EnigmaError::Device(DeviceError::InvalidCharacter(ch)));
        }
        proof {
            lemma_symbol_index();
            self@.board.lemma_involution(val);
            self@.block.lemma_stepped();
        }
        val = match self.board.crypt(val) {
            Ok(out) => out,
            Err(e) => {
                return Err(EnigmaError::PlugBoard(e));
            },
        };
        val = match self.block.crypt(val) {
            Ok(out) => out,
            Err(e) => {
                return Err(e);
            },
        };
        proof {
            self@.block.lemma_encode_is_symbol(self@.board.transform(upper(ch)));
        }
        val = match self.board.crypt(val) {
            Ok(out) => out,
            Err(e) => {
                return Err(EnigmaError::PlugBoard(e));
            },
        };
        Ok(val)
    }

    /// Enciphers the characters of `text` one after the other and returns
    /// the answers; a character that is refused is passed over.
    pub fn crypt_text(&mut self, text: &str) -> (r: String)
        requires
            old(self).wf(),
        ensures
            final(self).wf(),
            final(self)@ == old(self)@.after_text(text@),
            r@ == old(self)@.crypt_text(text@),
    {
        let mut answers = String::new();
        assert(text@.skip(0) == text@);
        for ch in it: text.chars()
            invariant
                it.seq() == text@,
                self.wf(),
                old(self)@.after_text(text@) == self@.after_text(text@.skip(it.index())),
                old(self)@.crypt_text(text@) == answers@ + self@.crypt_text(
                    text@.skip(it.index()),
                ),
        {
            assert(text@.skip(it.index()).drop_first() == text@.skip(it.index() + 1));
            let ghost before = answers@;
            match self.crypt(ch) {
                Ok(out) => {
                    answers.push(out);
                    assert(before.push(out) + self@.crypt_text(text@.skip(it.index() + 1))
                        == before + (seq![out] + self@.crypt_text(text@.skip(it.index() + 1))));
                },
                Err(_) => {},
            }
        }
        answers
    }
}

} // verus!
