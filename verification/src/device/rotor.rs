//! The rotor: a wired disk that turns, and that turns its left neighbour when
//! it leaves one of its notches.
use crate::device::details::{
    all_symbols, alphabet_size, check_notches, check_ring, index_of_symbol, is_symbol, is_wiring,
    lemma_alphabet, lemma_rotor_i, lemma_rotor_ii, lemma_rotor_iii, lemma_rotor_iv, lemma_rotor_v,
    lemma_rotor_vi, lemma_rotor_vii, lemma_rotor_viii, lemma_symbols_are_canonical,
    lemma_wiring_is_permutation, notch_verdict, ring_verdict,
    symbol_at, symbol_index, symbol_of_index, upper, upper_seq, NOTCH_I, NOTCH_II, NOTCH_III,
    NOTCH_IV, NOTCH_V, NOTCH_VI, NOTCH_VII, NOTCH_VIII, RING_I, RING_II, RING_III, RING_IV,
    RING_V, RING_VI, RING_VII, RING_VIII, SEGMENTS,
};
use crate::device::text::{
    ascii_uppercase, find_char, same_text, to_upper, to_uppercase, unicode_uppercase, with_char,
    with_text,
};
use crate::device::wiring::{
    lemma_pass_congruent, lemma_pass_inverse, lemma_wire_inverse, pass_backward, pass_forward,
    wire_out, wrap,
};
use crate::device::EnigmaError;
use vstd::prelude::*;
use vstd::string::*;

verus! {

/// Why a rotor could not be built, set or passed.
#[derive(Debug, Clone)]
pub enum RotorError {
    /// The character names no position, or cannot enter the rotor.
    InvalidSegmentPosition(char),
    /// The character names no ring offset.
    InvalidRingOffset(char),
    /// No rotor model has this name.
    InvalidRotorType(String),
}

impl RotorError {
    /// What the error says.
    pub open spec fn text(&self) -> Seq<char> {
        match self {
            RotorError::InvalidSegmentPosition(pos) => "invalid segment position: "@.push(*pos),
            RotorError::InvalidRingOffset(pos) => "invalid ring offset: "@.push(*pos),
            RotorError::InvalidRotorType(name) => "invalid rotor type: "@ + name@,
        }
    }

    /// What the error says.
    pub fn message(&self) -> (r: String)
        ensures
            r@ == self.text(),
    {
        match self {
            RotorError::InvalidSegmentPosition(pos) => with_char(
                "invalid segment position: ",
                *pos,
            ),
            RotorError::InvalidRingOffset(pos) => with_char("invalid ring offset: ", *pos),
            RotorError::InvalidRotorType(name) => with_text("invalid rotor type: ", name.as_str()),
        }
    }
}

/// A rotor as the rest of the machine sees it.
pub struct RotorView {
    /// The symbol that each right-hand contact is wired to.
    pub wiring: Seq<char>,
    /// The positions at which the rotor turns its left neighbour.
    pub notches: Seq<char>,
    /// The index of the symbol in the window.
    pub position: int,
    /// How far the wiring is turned against the symbols on the ring.
    pub ring_offset: int,
}

impl RotorView {
    /// Whether this is a rotor that can be built.
    pub open spec fn wf(self) -> bool {
        &&& is_wiring(self.wiring)
        &&& all_symbols(self.notches)
        &&& 0 <= self.position < alphabet_size()
        &&& 0 <= self.ring_offset < alphabet_size()
    }

    /// How far the wiring is turned against the fixed contacts.
    pub open spec fn shift(self) -> int {
        self.position - self.ring_offset
    }

    /// The symbol in the window.
    pub open spec fn segment(self) -> char {
        symbol_at(self.position)
    }

    /// Whether the rotor stands at one of its notches.
    pub open spec fn at_notch(self) -> bool {
        self.notches.contains(self.segment())
    }

    /// The rotor one step further.
    pub open spec fn advanced(self) -> RotorView {
        RotorView { position: (self.position + 1) % 26, ..self }
    }

    /// The symbol that `c` becomes on its way from the right to the left.
    pub open spec fn forward(self, c: char) -> char {
        pass_forward(self.wiring, self.shift(), c)
    }

    /// The symbol that `c` becomes on its way from the left to the right.
    pub open spec fn backward(self, c: char) -> char {
        pass_backward(self.wiring, self.shift(), c)
    }

    /// The rotor `k` steps further.
    pub open spec fn advanced_by(self, k: nat) -> RotorView
        decreases k,
    {
        if k == 0 {
            self
        } else {
            self.advanced().advanced_by((k - 1) as nat)
        }
    }

    /// The two ways through a rotor undo each other, wherever the rotor
    /// stands and whatever its ring offset is.
    pub proof fn lemma_round_trip(self, c: char)
        requires
            self.wf(),
            is_symbol(c),
        ensures
            is_symbol(self.forward(c)),
            is_symbol(self.backward(c)),
            self.backward(self.forward(c)) == c,
            self.forward(self.backward(c)) == c,
    {
        lemma_pass_inverse(self.wiring, self.shift(), c);
    }

    /// After `k` steps the rotor stands `k` places further round the
    /// alphabet, and nothing else about it has changed.
    pub proof fn lemma_advanced_by(self, k: nat)
        requires
            self.wf(),
        ensures
            self.advanced_by(k) == (RotorView { position: (self.position + k) % 26, ..self }),
            self.advanced_by(k).wf(),
        decreases k,
    {
        if k > 0 {
            self.advanced().lemma_advanced_by((k - 1) as nat);
        }
    }

    /// Position and ring offset are coupled: a rotor that was turned `k`
    /// steps forward passes every symbol as the same rotor does when its
    /// ring offset is set back by `k` instead.
    pub proof fn lemma_position_offset_equivalence(self, k: nat, c: char)
        requires
            self.wf(),
        ensures
            ({
                let turned = self.advanced_by(k);
                let offset = RotorView { ring_offset: (self.ring_offset - k) % 26, ..self };
                &&& offset.wf()
                &&& turned.forward(c) == offset.forward(c)
                &&& turned.backward(c) == offset.backward(c)
            }),
    {
        self.lemma_advanced_by(k);
        let turned = self.advanced_by(k);
        let offset = RotorView { ring_offset: (self.ring_offset - k) % 26, ..self };
        lemma_pass_congruent(self.wiring, turned.shift(), offset.shift(), c);
    }

    /// Only the difference of position and ring offset matters, and of it
    /// only the remainder by the size of the alphabet.
    pub proof fn lemma_same_shift(self, other: RotorView, c: char)
        requires
            self.wiring == other.wiring,
            wrap(self.shift()) == wrap(other.shift()),
        ensures
            self.forward(c) == other.forward(c),
            self.backward(c) == other.backward(c),
    {
        lemma_pass_congruent(self.wiring, self.shift(), other.shift(), c);
    }
}

/// The wiring and the notches of the rotor model with the given name.
pub open spec fn rotor_model(name: Seq<char>) -> Option<(Seq<char>, Seq<char>)> {
    if name == "I"@ {
        Some((RING_I@, NOTCH_I@))
    } else if name == "II"@ {
        Some((RING_II@, NOTCH_II@))
    } else if name == "III"@ {
        Some((RING_III@, NOTCH_III@))
    } else if name == "IV"@ {
        Some((RING_IV@, NOTCH_IV@))
    } else if name == "V"@ {
        Some((RING_V@, NOTCH_V@))
    } else if name == "VI"@ {
        Some((RING_VI@, NOTCH_VI@))
    } else if name == "VII"@ {
        Some((RING_VII@, NOTCH_VII@))
    } else if name == "VIII"@ {
        Some((RING_VIII@, NOTCH_VIII@))
    } else {
        None
    }
}

/// Whether `r` is what asking for the rotor model `name` gives: the model's
/// rotor, showing the first symbol and with no ring offset, or the refusal of
/// a name that no model has.
pub open spec fn rotor_model_verdict(name: Seq<char>, r: Result<Rotor, EnigmaError>) -> bool {
    match rotor_model(name) {
        Some((wiring, notches)) => r matches Ok(rotor) && rotor.wf() && rotor@ == (RotorView {
            wiring,
            notches,
            position: 0,
            ring_offset: 0,
        }),
        None => r matches Err(EnigmaError::Rotor(RotorError::InvalidRotorType(given)))
            && given@ == name,
    }
}

/// A rotor of the machine.
pub struct Rotor {
    ring: String,
    notches: String,
    position: usize,
    ring_offset: usize,
}

impl View for Rotor {
    type V = RotorView;

    closed spec fn view(&self) -> RotorView {
        RotorView {
            wiring: self.ring@,
            notches: self.notches@,
            position: self.position as int,
            ring_offset: self.ring_offset as int,
        }
    }
}

impl Rotor {
    /// Whether the rotor is one that its constructors build.
    pub open spec fn wf(&self) -> bool {
        self@.wf()
    }

    /// Builds a rotor from a wiring and a notch set, both read without
    /// regard to case. The rotor shows the first symbol, with no ring offset.
    pub fn new(outputs: &str, notches: &str) -> (r: Result<Rotor, EnigmaError>)
        ensures
            r is Ok <==> is_wiring(upper_seq(outputs@)) && all_symbols(upper_seq(notches@)),
            match r {
                Ok(rotor) => rotor.wf() && rotor@ == (RotorView {
                    wiring: upper_seq(outputs@),
                    notches: upper_seq(notches@),
                    position: 0,
                    ring_offset: 0,
                }),
                Err(e) => e matches EnigmaError::Segment(fault) && if is_wiring(
                    upper_seq(outputs@),
                ) {
                    notch_verdict(upper_seq(notches@), Err(fault))
                } else {
                    ring_verdict(upper_seq(outputs@), Err(fault))
                },
            },
    {
        let so = ascii_uppercase(outputs);
        let sn = ascii_uppercase(notches);
        match check_ring(&so) {
            Ok(()) => {},
            Err(e) => {
                return Err(EnigmaError::Segment(e));
            },
        }
        match check_notches(&sn) {
            Ok(()) => {},
            Err(e) => {
                return Err(EnigmaError::Segment(e));
            },
        }
        Ok(Rotor { ring: so, notches: sn, position: 0, ring_offset: 0 })
    }

    /// Builds the rotor model that `s` names. The name is looked up in
    /// upper case, so that `"iv"` names model IV; a name that is none of
    /// `I` to `VIII` then is refused, and the refusal holds it in upper case.
    pub fn model(s: &str) -> (r: Result<Rotor, EnigmaError>)
        ensures
            rotor_model_verdict(unicode_uppercase(s@), r),
    {
        Self::from_model_name(to_uppercase(s))
    }

    /// Builds the rotor model with the name `val`, taken as it stands: one of
    /// `I` to `VIII`. Any other name is refused, and the refusal holds it.
    pub fn from_model_name(val: String) -> (r: Result<Rotor, EnigmaError>)
        ensures
            rotor_model_verdict(val@, r),
    {
        proof {
            Self::lemma_models();
        }
        let name = val.as_str();
        if same_text(name, "I") {
            Self::new(RING_I, NOTCH_I)
        } else if same_text(name, "II") {
            Self::new(RING_II, NOTCH_II)
        } else if same_text(name, "III") {
            Self::new(RING_III, NOTCH_III)
        } else if same_text(name, "IV") {
            Self::new(RING_IV, NOTCH_IV)
        } else if same_text(name, "V") {
            Self::new(RING_V, NOTCH_V)
        } else if same_text(name, "VI") {
            Self::new(RING_VI, NOTCH_VI)
        } else if same_text(name, "VII") {
            Self::new(RING_VII, NOTCH_VII)
        } else if same_text(name, "VIII") {
            Self::new(RING_VIII, NOTCH_VIII)
        } else {
            Err(EnigmaError::Rotor(RotorError::InvalidRotorType(val)))
        }
    }

    /// Every rotor model has a wiring and notches that `new` accepts as
    /// they stand.
    pub proof fn lemma_models()
        ensures
            forall|name: Seq<char>| #[trigger]
                rotor_model(name) is Some ==> {
                    let (wiring, notches) = rotor_model(name)->0;
                    &&& is_wiring(wiring)
                    &&& all_symbols(notches)
                    &&& upper_seq(wiring) == wiring
                    &&& upper_seq(notches) == notches
                },
    {
        lemma_rotor_i();
        lemma_rotor_ii();
        lemma_rotor_iii();
        lemma_rotor_iv();
        lemma_rotor_v();
        lemma_rotor_vi();
        lemma_rotor_vii();
        lemma_rotor_viii();
        assert forall|name: Seq<char>| #[trigger] rotor_model(name) is Some implies {
            let (wiring, notches) = rotor_model(name)->0;
            &&& is_wiring(wiring)
            &&& all_symbols(notches)
            &&& upper_seq(wiring) == wiring
            &&& upper_seq(notches) == notches
        } by {
            let (wiring, notches) = rotor_model(name)->0;
            lemma_wiring_is_permutation(wiring);
            lemma_symbols_are_canonical(wiring);
            lemma_symbols_are_canonical(notches);
        }
    }

    /// The symbol in the window.
    pub fn segment(&self) -> (c: char)
        requires
            self.wf(),
        ensures
            c == self@.segment(),
            is_symbol(c),
    {
        symbol_of_index(self.position)
    }

    /// Turns the rotor until `pos`, read without regard to case, stands in
    /// the window. A character that is no symbol is refused, and the rotor
    /// stays as it is.
    pub fn set_segment(&mut self, pos: char) -> (r: Result<char, RotorError>)
        requires
            old(self).wf(),
        ensures
            final(self).wf(),
            is_symbol(upper(pos)) ==> r == Ok::<char, RotorError>(upper(pos)) && final(self)@ == (
            RotorView { position: symbol_index(upper(pos)), ..old(self)@ }),
            !is_symbol(upper(pos)) ==> r == Err::<char, RotorError>(
                RotorError::InvalidSegmentPosition(pos),
            ) && final(self)@ == old(self)@,
    {
        let val = to_upper(pos);
        match index_of_symbol(val) {
            Some(place) => {
                self.position = place;
                Ok(val)
            },
            None => Err(RotorError::InvalidSegmentPosition(pos)),
        }
    }

    /// The ring offset, named by a symbol.
    pub fn ring_offset(&self) -> (c: char)
        requires
            self.wf(),
        ensures
            c == symbol_at(self@.ring_offset),
            is_symbol(c),
    {
        symbol_of_index(self.ring_offset)
    }

    /// Sets the ring offset to the place of `pos`, read without regard to
    /// case. A character that is no symbol is refused, and the rotor stays
    /// as it is.
    pub fn set_ring_offset(&mut self, pos: char) -> (r: Result<char, RotorError>)
        requires
            old(self).wf(),
        ensures
            final(self).wf(),
            is_symbol(upper(pos)) ==> r == Ok::<char, RotorError>(upper(pos)) && final(self)@ == (
            RotorView { ring_offset: symbol_index(upper(pos)), ..old(self)@ }),
            !is_symbol(upper(pos)) ==> r == Err::<char, RotorError>(
                RotorError::InvalidRingOffset(pos),
            ) && final(self)@ == old(self)@,
    {
        let val = to_upper(pos);
        match index_of_symbol(val) {
            Some(place) => {
                self.ring_offset = place;
                Ok(val)
            },
            None => Err(RotorError::InvalidRingOffset(pos)),
        }
    }

    /// Whether the rotor stands at one of its notches.
    pub fn at_notch(&self) -> (b: bool)
        requires
            self.wf(),
        ensures
            b == self@.at_notch(),
    {
        find_char(self.notches.as_str(), symbol_of_index(self.position)).is_some()
    }

    /// Turns the rotor by one step. Returns whether it stood at a notch
    /// before the step, and so whether its left neighbour has to turn too.
    pub fn advance(&mut self) -> (need_turnover: bool)
        requires
            old(self).wf(),
        ensures
            final(self).wf(),
            need_turnover == old(self)@.at_notch(),
            final(self)@ == old(self)@.advanced(),
    {
        proof {
            lemma_alphabet();
        }
        let need_turnover = self.at_notch();
        if self.position == SEGMENTS.unicode_len() - 1 {
            self.position = 0;
        } else {
            self.position += 1;
        }
        need_turnover
    }

    /// The index that the fixed contact `index` meets on the turned wiring.
    fn turned(&self, index: usize) -> (r: usize)
        requires
            self.wf(),
            index < alphabet_size(),
        ensures
            r == wrap(index + self@.shift()),
            r < alphabet_size(),
    {
        proof {
            lemma_alphabet();
        }
        let size = SEGMENTS.unicode_len();
        (index + self.position + size - self.ring_offset) % size
    }

    /// The fixed contact that the index `index` of the turned wiring meets.
    fn turned_back(&self, index: usize) -> (r: usize)
        requires
            self.wf(),
            index < alphabet_size(),
        ensures
            r == wrap(index - self@.shift()),
            r < alphabet_size(),
    {
        proof {
            lemma_alphabet();
        }
        let size = SEGMENTS.unicode_len();
        (index + self.ring_offset + size - self.position) % size
    }

    /// Passes `ch`, read without regard to case, from the right of the rotor
    /// to its left. A character that is no symbol is refused.
    pub fn forward(&self, ch: char) -> (r: Result<char, RotorError>)
        requires
            self.wf(),
        ensures
            is_symbol(upper(ch)) ==> r == Ok::<char, RotorError>(self@.forward(upper(ch))),
            !is_symbol(upper(ch)) ==> r == Err::<char, RotorError>(
                RotorError::InvalidSegmentPosition(ch),
            ),
            r matches Ok(out) ==> is_symbol(out),
    {
        let val = to_upper(ch);
        let segment = match index_of_symbol(val) {
            Some(place) => place,
            None => {
                return Err(RotorError::InvalidSegmentPosition(val));
            },
        };
        proof {
            lemma_wire_inverse(self@.wiring);
        }
        let entry = self.turned(segment);
        let wired = self.ring.as_str().get_char(entry);
        assert(symbol_index(wired) == wire_out(self@.wiring, entry as int));
        let exit = index_of_symbol(wired).unwrap();
        Ok(symbol_of_index(self.turned_back(exit)))
    }

    /// Passes `ch`, read without regard to case, from the left of the rotor
    /// to its right. A character that is no symbol is refused.
    pub fn backward(&self, ch: char) -> (r: Result<char, RotorError>)
        requires
            self.wf(),
        ensures
            is_symbol(upper(ch)) ==> r == Ok::<char, RotorError>(self@.backward(upper(ch))),
            !is_symbol(upper(ch)) ==> r == Err::<char, RotorError>(
                RotorError::InvalidSegmentPosition(ch),
            ),
            r matches Ok(out) ==> is_symbol(out),
    {
        let val = to_upper(ch);
        let segment = match index_of_symbol(val) {
            Some(place) => place,
            None => {
                return Err(RotorError::InvalidSegmentPosition(val));
            },
        };
        proof {
            lemma_wire_inverse(self@.wiring);
        }
        let entry = self.turned(segment);
        let wired = symbol_of_index(entry);
        let exit = find_char(self.ring.as_str(), wired).unwrap();
        Ok(symbol_of_index(self.turned_back(exit)))
    }
}

} // verus!
