//! The reflector: the fixed disk that sends the signal back into the rotors.
use crate::device::details::{
    check_ring, index_of_symbol, is_symbol, is_wiring, lemma_reflector_a, lemma_reflector_b,
    lemma_reflector_c, lemma_symbol_index, lemma_symbols_are_canonical,
    lemma_wiring_is_permutation, ring_verdict, symbol_index, upper, upper_seq, RING_A, RING_B,
    RING_C,
};
use crate::device::text::{
    ascii_uppercase, same_text, to_upper, to_uppercase, unicode_uppercase, with_char, with_text,
};
use crate::device::wiring::{
    is_involution, lemma_swaps_before, pass_forward, swaps_before, wire_out,
};
use crate::device::EnigmaError;
use vstd::prelude::*;
use vstd::string::*;

verus! {

/// Why a reflector could not be built or could not pass a character.
#[derive(Debug, Clone)]
pub enum ReflectorError {
    /// No reflector model has this name.
    InvalidReflectorType(String),
    /// The character is no symbol of the alphabet.
    InvalidCharacter(char),
}

impl ReflectorError {
    /// What the error says.
    pub open spec fn text(&self) -> Seq<char> {
        match self {
            ReflectorError::InvalidReflectorType(name) => "invalid reflector type: "@ + name@,
            ReflectorError::InvalidCharacter(c) => "invalid character: "@.push(*c),
        }
    }

    /// What the error says.
    pub fn message(&self) -> (r: String)
        ensures
            r@ == self.text(),
    {
        match self {
            ReflectorError::InvalidReflectorType(name) => with_text(
                "invalid reflector type: ",
                name.as_str(),
            ),
            ReflectorError::InvalidCharacter(c) => with_char("invalid character: ", *c),
        }
    }
}

/// A reflector as the rest of the machine sees it.
pub struct ReflectorView {
    /// The symbol that each contact is wired to.
    pub wiring: Seq<char>,
}

impl ReflectorView {
    /// Whether this is a reflector that can be built.
    pub open spec fn wf(self) -> bool {
        is_wiring(self.wiring)
    }

    /// Whether the reflector sends every symbol to a partner that it sends
    /// back. The historical reflectors do; one built from a wiring of the
    /// caller's need not.
    pub open spec fn is_involutive(self) -> bool {
        is_involution(self.wiring)
    }

    /// The symbol that `c` is sent back as.
    pub open spec fn forward(self, c: char) -> char {
        self.wiring[symbol_index(c)]
    }

    /// The signal path of a reflector is that of a rotor which never turns.
    pub proof fn lemma_forward_is_unturned_pass(self, c: char)
        requires
            self.wf(),
            is_symbol(c),
        ensures
            is_symbol(self.forward(c)),
            self.forward(c) == pass_forward(self.wiring, 0, c),
    {
        lemma_wiring_is_permutation(self.wiring);
        lemma_symbol_index();
    }

    /// An involutive reflector sends back what it was sent.
    pub proof fn lemma_involution(self, c: char)
        requires
            self.wf(),
            self.is_involutive(),
            is_symbol(c),
        ensures
            self.forward(self.forward(c)) == c,
    {
        lemma_wiring_is_permutation(self.wiring);
        lemma_symbol_index();
        let i = symbol_index(c);
        assert(wire_out(self.wiring, wire_out(self.wiring, i)) == i);
    }
}

/// The wiring of the reflector model with the given name.
pub open spec fn reflector_model(name: Seq<char>) -> Option<Seq<char>> {
    if name == "A"@ {
        Some(RING_A@)
    } else if name == "B"@ {
        Some(RING_B@)
    } else if name == "C"@ {
        Some(RING_C@)
    } else {
        None
    }
}

/// Whether `r` is what asking for the reflector model `name` gives: the
/// model's reflector, or the refusal of a name that no model has.
pub open spec fn reflector_model_verdict(
    name: Seq<char>,
    r: Result<Reflector, EnigmaError>,
) -> bool {
    match reflector_model(name) {
        Some(wiring) => r matches Ok(reflector) && reflector.wf() && reflector@ == (ReflectorView {
            wiring,
        }),
        None => r matches Err(EnigmaError::Reflector(ReflectorError::InvalidReflectorType(given)))
            && given@ == name,
    }
}

/// Every reflector model has a wiring that `new` accepts as it stands, and
/// that swaps the symbols in pairs.
pub proof fn lemma_reflector_models()
    ensures
        forall|name: Seq<char>| #[trigger]
            reflector_model(name) is Some ==> {
                let wiring = reflector_model(name)->0;
                &&& is_wiring(wiring)
                &&& upper_seq(wiring) == wiring
                &&& is_involution(wiring)
            },
{
    lemma_reflector_a();
    lemma_reflector_b();
    lemma_reflector_c();
    reveal_strlit("EJMZALYXVBWFCRQUONTSPIKHGD");
    reveal_strlit("YRUHQSLDPXNGOKMIEBFZCWVJAT");
    reveal_strlit("FVPJIAOYEDRZXWGCTKUQSBNMHL");
    assert(swaps_before(RING_A@, 26)) by {
        reveal_with_fuel(swaps_before, 27);
    }
    assert(swaps_before(RING_B@, 26)) by {
        reveal_with_fuel(swaps_before, 27);
    }
    assert(swaps_before(RING_C@, 26)) by {
        reveal_with_fuel(swaps_before, 27);
    }
    lemma_swaps_before(RING_A@, 26);
    lemma_swaps_before(RING_B@, 26);
    lemma_swaps_before(RING_C@, 26);
    assert forall|name: Seq<char>| #[trigger] reflector_model(name) is Some implies {
        let wiring = reflector_model(name)->0;
        &&& is_wiring(wiring)
        &&& upper_seq(wiring) == wiring
        &&& is_involution(wiring)
    } by {
        let wiring = reflector_model(name)->0;
        lemma_wiring_is_permutation(wiring);
        lemma_symbols_are_canonical(wiring);
    }
}

/// Each reflector model sends back what it was sent: passing a symbol
/// through it twice gives the symbol again.
pub proof fn lemma_model_reflects_twice(name: Seq<char>, c: char)
    requires
        reflector_model(name) is Some,
        is_symbol(c),
    ensures
        ({
            let reflector = ReflectorView { wiring: reflector_model(name)->0 };
            reflector.forward(reflector.forward(c)) == c
        }),
{
    lemma_reflector_models();
    let reflector = ReflectorView { wiring: reflector_model(name)->0 };
    reflector.lemma_involution(c);
}

/// The reflector of the machine.
pub struct Reflector {
    ring: String,
}

impl View for Reflector {
    type V = ReflectorView;

    closed spec fn view(&self) -> ReflectorView {
        ReflectorView { wiring: self.ring@ }
    }
}

impl Reflector {
    /// Whether the reflector is one that its constructors build.
    pub open spec fn wf(&self) -> bool {
        self@.wf()
    }

    /// Builds a reflector from a wiring, read without regard to case.
    pub fn new(outputs: &str) -> (r: Result<Reflector, EnigmaError>)
        ensures
            r is Ok <==> is_wiring(upper_seq(outputs@)),
            match r {
                Ok(reflector) => reflector.wf() && reflector@ == (ReflectorView {
                    wiring: upper_seq(outputs@),
                }),
                Err(e) => e matches EnigmaError::Segment(fault) && ring_verdict(
                    upper_seq(outputs@),
                    Err(fault),
                ),
            },
    {
        let s = ascii_uppercase(outputs);
        match check_ring(&s) {
            Ok(()) => Ok(Reflector { ring: s }),
            Err(e) => Err(EnigmaError::Segment(e)),
        }
    }

    /// Builds the reflector model that `s` names. The name is looked up in
    /// upper case, so that `"b"` names model B; a name that is none of `A`,
    /// `B` and `C` then is refused, and the refusal holds it in upper case.
    pub fn model(s: &str) -> (r: Result<Reflector, EnigmaError>)
        ensures
            reflector_model_verdict(unicode_uppercase(s@), r),
            r matches Ok(reflector) ==> reflector@.is_involutive(),
    {
        Self::from_model_name(to_uppercase(s))
    }

    /// Builds the reflector model with the name `val`, taken as it stands:
    /// one of `A`, `B` and `C`. Any other name is refused, and the refusal
    /// holds it.
    pub fn from_model_name(val: String) -> (r: Result<Reflector, EnigmaError>)
        ensures
            reflector_model_verdict(val@, r),
            r matches Ok(reflector) ==> reflector@.is_involutive(),
    {
        proof {
            lemma_reflector_models();
        }
        let name = val.as_str();
        if same_text(name, "A") {
            Self::new(RING_A)
        } else if same_text(name, "B") {
            Self::new(RING_B)
        } else if same_text(name, "C") {
            Self::new(RING_C)
        } else {
            Err(EnigmaError::Reflector(ReflectorError::InvalidReflectorType(val)))
        }
    }

    /// Sends `ch`, read without regard to case, back as the symbol it is
    /// wired to. A character that is no symbol is refused.
    pub fn forward(&self, ch: char) -> (r: Result<char, ReflectorError>)
        requires
            self.wf(),
        ensures
            is_symbol(upper(ch)) ==> r == Ok::<char, ReflectorError>(self@.forward(upper(ch))),
            !is_symbol(upper(ch)) ==> r == Err::<char, ReflectorError>(
                ReflectorError::InvalidCharacter(ch),
            ),
            r matches Ok(out) ==> is_symbol(out),
    {
        let val = to_upper(ch);
        let index = match index_of_symbol(val) {
            Some(place) => place,
            None => {
                return Err(ReflectorError::InvalidCharacter(val));
            },
        };
        proof {
            lemma_wiring_is_permutation(self@.wiring);
        }
        Ok(self.ring.as_str().get_char(index))
    }

    /// The way back through a reflector is the way into it.
    pub fn backward(&self, ch: char) -> (r: Result<char, ReflectorError>)
        requires
            self.wf(),
        ensures
            is_symbol(upper(ch)) ==> r == Ok::<char, ReflectorError>(self@.forward(upper(ch))),
            !is_symbol(upper(ch)) ==> r == Err::<char, ReflectorError>(
                ReflectorError::InvalidCharacter(ch),
            ),
            r matches Ok(out) ==> is_symbol(out),
    {
        self.forward(ch)
    }
}

} // verus!
