//! The plugboard: symbol pairs that are swapped on the way in and on the way out.
use crate::device::details::{all_symbols, index_of_symbol, is_symbol, upper};
use crate::device::text::{find_char, to_upper, with_char};
use vstd::prelude::*;
use vstd::string::*;

verus! {

/// Why a pair was not plugged or a character not passed.
#[derive(Debug, Clone)]
pub enum PlugBoardError {
    /// The character is no symbol of the alphabet.
    InvalidCharacter(char),
    /// The symbol is plugged already.
    Duplicate(char),
    /// A symbol cannot be paired with itself.
    SameCharacters,
    /// Pairs are given two symbols at a time.
    PairCountMismatch,
}

impl PlugBoardError {
    /// What the error says.
    pub open spec fn text(&self) -> Seq<char> {
        match self {
            PlugBoardError::InvalidCharacter(c) => "invalid character: "@.push(*c),
            PlugBoardError::Duplicate(c) => "plugboard already have connection for: "@.push(*c),
            PlugBoardError::SameCharacters => "input and output of plug pair can not be same"@,
            PlugBoardError::PairCountMismatch => {
                "count of characters in pair settings should be even"@
            },
        }
    }

    /// What the error says.
    pub fn message(&self) -> (r: String)
        ensures
            r@ == self.text(),
    {
        match self {
            PlugBoardError::InvalidCharacter(c) => with_char("invalid character: ", *c),
            PlugBoardError::Duplicate(c) => with_char(
                "plugboard already have connection for: ",
                *c,
            ),
            PlugBoardError::SameCharacters => {
                "input and output of plug pair can not be same".to_owned()
            },
            PlugBoardError::PairCountMismatch => {
                "count of characters in pair settings should be even".to_owned()
            },
        }
    }
}

/// The place of the other end of the cable whose one end is at place `i`.
pub open spec fn partner(i: int) -> int {
    if i % 2 == 0 {
        i + 1
    } else {
        i - 1
    }
}

/// A plugboard as the rest of the machine sees it: the plugged symbols in
/// the order in which they were plugged, and beside each the symbol at the
/// other end of its cable.
pub struct PlugBoardView {
    /// The plugged symbols, pair after pair.
    pub inputs: Seq<char>,
    /// For each plugged symbol, the symbol that it is swapped with.
    pub outputs: Seq<char>,
}

impl PlugBoardView {
    /// Whether this is a plugboard that can be built: cables join two
    /// different symbols, and no symbol has two cables.
    pub open spec fn wf(self) -> bool {
        &&& self.inputs.len() == self.outputs.len()
        &&& self.inputs.len() % 2 == 0
        &&& all_symbols(self.inputs)
        &&& self.inputs.no_duplicates()
        &&& forall|i: int|
            0 <= i < self.inputs.len() ==> #[trigger] self.outputs[i] == self.inputs[partner(i)]
    }

    /// The board without cables.
    pub open spec fn empty() -> PlugBoardView {
        PlugBoardView { inputs: Seq::empty(), outputs: Seq::empty() }
    }

    /// The symbol that `c` is swapped with, or `c` itself where no cable
    /// ends at it.
    pub open spec fn transform(self, c: char) -> char {
        if self.inputs.contains(c) {
            self.outputs[self.inputs.index_of(c)]
        } else {
            c
        }
    }

    /// The board with one more cable, between `a` and `b`.
    pub open spec fn plugged(self, a: char, b: char) -> PlugBoardView {
        PlugBoardView {
            inputs: self.inputs.push(a).push(b),
            outputs: self.outputs.push(b).push(a),
        }
    }

    /// What asking for a cable between `inp` and `out` gives, both read
    /// without regard to case: the board with the cable, or the first of the
    /// reasons against it.
    pub open spec fn add_pair(self, inp: char, out: char) -> Result<PlugBoardView, PlugBoardError> {
        let a = upper(inp);
        let b = upper(out);
        if a == b {
            Err(PlugBoardError::SameCharacters)
        } else if !is_symbol(a) {
            Err(PlugBoardError::InvalidCharacter(a))
        } else if !is_symbol(b) {
            Err(PlugBoardError::InvalidCharacter(b))
        } else if self.inputs.contains(a) {
            Err(PlugBoardError::Duplicate(a))
        } else if self.outputs.contains(b) {
            Err(PlugBoardError::Duplicate(b))
        } else {
            Ok(self.plugged(a, b))
        }
    }

    /// What asking for the cables `s[0]`-`s[1]`, `s[2]`-`s[3]` and so on
    /// gives: the board with the cables up to the first one that was
    /// refused, and the reason of that refusal, if there was one.
    pub open spec fn add_pairs(self, s: Seq<char>) -> (PlugBoardView, Option<PlugBoardError>)
        decreases s.len(),
    {
        if s.len() < 2 {
            (self, None)
        } else {
            match self.add_pair(s[0], s[1]) {
                Ok(next) => next.add_pairs(s.skip(2)),
                Err(e) => (self, Some(e)),
            }
        }
    }

    /// What setting the pairs from `s` gives: nothing is plugged if the
    /// symbols of `s` cannot be taken two at a time.
    pub open spec fn set_pairs(self, s: Seq<char>) -> (PlugBoardView, Option<PlugBoardError>) {
        if s.len() % 2 != 0 {
            (self, Some(PlugBoardError::PairCountMismatch))
        } else {
            self.add_pairs(s)
        }
    }

    /// A board stays well-formed when a cable is added, and the symbols at
    /// the ends of the cables are the same on both sides.
    pub proof fn lemma_add_pair(self, inp: char, out: char)
        requires
            self.wf(),
        ensures
            self.add_pair(inp, out) matches Ok(next) ==> next.wf(),
            forall|c: char| self.inputs.contains(c) <==> self.outputs.contains(c),
    {
        assert forall|c: char| self.inputs.contains(c) <==> self.outputs.contains(c) by {
            if self.inputs.contains(c) {
                let i = self.inputs.index_of(c);
                assert(self.outputs[partner(i)] == c);
            }
            if self.outputs.contains(c) {
                let i = self.outputs.index_of(c);
                assert(self.inputs[partner(i)] == c);
            }
        }
        if let Ok(next) = self.add_pair(inp, out) {
            let n = self.inputs.len() as int;
            assert forall|i: int| 0 <= i < next.inputs.len() implies #[trigger] next.outputs[i]
                == next.inputs[partner(i)] by {
                if i < n {
                    assert(self.outputs[i] == self.inputs[partner(i)]);
                }
            }
            assert(next.inputs.no_duplicates()) by {
                assert forall|i: int, j: int|
                    0 <= i < next.inputs.len() && 0 <= j < next.inputs.len() && i != j implies next.inputs[i]
                    != next.inputs[j] by {
                    if i < n {
                        assert(self.inputs.contains(self.inputs[i]));
                    }
                    if j < n {
                        assert(self.inputs.contains(self.inputs[j]));
                    }
                }
            }
        }
    }

    /// The plugboard swaps: what it turns a symbol into, it turns back into
    /// that symbol.
    pub proof fn lemma_involution(self, c: char)
        requires
            self.wf(),
            is_symbol(c),
        ensures
            is_symbol(self.transform(c)),
            self.transform(self.transform(c)) == c,
    {
        if self.inputs.contains(c) {
            // the cable that ends at `c` has its other end at the partner's
            // place, and from there it leads back
            let i = self.inputs.index_of(c);
            let j = partner(i);
            assert(self.outputs[i] == self.inputs[j]);
            assert(self.outputs[j] == self.inputs[i]);
            assert(self.inputs.index_of(self.inputs[j]) == j);
        }
    }
}

/// The plugboard of the machine.
pub struct PlugBoard {
    inputs: String,
    outputs: String,
}

impl View for PlugBoard {
    type V = PlugBoardView;

    closed spec fn view(&self) -> PlugBoardView {
        PlugBoardView { inputs: self.inputs@, outputs: self.outputs@ }
    }
}

impl PlugBoard {
    /// Whether the plugboard is one that `new` and `add_pair` build.
    pub open spec fn wf(&self) -> bool {
        self@.wf()
    }

    /// A plugboard without cables.
    pub fn new() -> (board: PlugBoard)
        ensures
            board.wf(),
            board@ == PlugBoardView::empty(),
    {
        PlugBoard { inputs: String::new(), outputs: String::new() }
    }

    /// The plugged symbols, pair after pair in the order of plugging.
    pub fn pairs(&self) -> (r: &String)
        ensures
            r@ == self@.inputs,
    {
        &self.inputs
    }

    /// Plugs a cable between `inp` and `out`, both read without regard to
    /// case, and returns the two symbols. Refused are, in this order: a pair
    /// of equal characters, a character that is no symbol, and a symbol that
    /// has a cable already. A refusal leaves the board as it is.
    pub fn add_pair(&mut self, inp: char, out: char) -> (r: Result<(char, char), PlugBoardError>)
        requires
            old(self).wf(),
        ensures
            final(self).wf(),
            match old(self)@.add_pair(inp, out) {
                Ok(next) => r == Ok::<(char, char), PlugBoardError>((upper(inp), upper(out)))
                    && final(self)@ == next,
                Err(e) => r == Err::<(char, char), PlugBoardError>(e) && final(self)@ == old(self)@,
            },
    {
        proof {
            self@.lemma_add_pair(inp, out);
        }
        let input = to_upper(inp);
        let output = to_upper(out);

        if input == output {
            return Err(PlugBoardError::SameCharacters);
        }
        if index_of_symbol(input).is_none() {
            return Err(PlugBoardError::InvalidCharacter(input));
        } else if index_of_symbol(output).is_none() {
            return Err(PlugBoardError::InvalidCharacter(output));
        }
        if find_char(self.inputs.as_str(), input).is_some() {
            return Err(PlugBoardError::Duplicate(input));
        } else if find_char(self.outputs.as_str(), output).is_some() {
            return Err(PlugBoardError::Duplicate(output));
        }
        // one way
        self.inputs.push(input);
        self.outputs.push(output);

        // and the other
        self.inputs.push(output);
        self.outputs.push(input);

        Ok((input, output))
    }

    /// Plugs the cables `plug_pairs[0]`-`plug_pairs[1]`, `plug_pairs[2]`-
    /// `plug_pairs[3]` and so on, and returns the plugged symbols. A string
    /// of odd length is refused as a whole. The first cable that is refused
    /// ends the call; the cables before it stay plugged.
    pub fn set_plug_pairs(&mut self, plug_pairs: &str) -> (r: Result<&String, PlugBoardError>)
        requires
            old(self).wf(),
        ensures
            final(self).wf(),
            final(self)@ == old(self)@.set_pairs(plug_pairs@).0,
            match old(self)@.set_pairs(plug_pairs@).1 {
                Some(e) => r == Err::<&String, PlugBoardError>(e),
                None => r matches Ok(pairs) && pairs@ == final(self)@.inputs,
            },
    {
        let n = plug_pairs.unicode_len();
        if n % 2 != 0 {
            return Err(PlugBoardError::PairCountMismatch);
        }
        let mut i: usize = 0;
        proof {
            assert(plug_pairs@.skip(0) == plug_pairs@);
        }
        while i < n / 2
            invariant
                n == plug_pairs@.len(),
                n % 2 == 0,
                i <= n / 2,
                self.wf(),
                old(self)@.add_pairs(plug_pairs@) == self@.add_pairs(plug_pairs@.skip(2 * i)),
            decreases n / 2 - i,
        {
            let input = plug_pairs.get_char(i * 2);
            let output = plug_pairs.get_char(i * 2 + 1);
            proof {
                assert(plug_pairs@.skip(2 * i).skip(2) == plug_pairs@.skip(2 * (i + 1)));
            }
            match self.add_pair(input, output) {
                Ok(_) => {},
                Err(e) => {
                    return Err(e);
                },
            }
            i += 1;
        }
        Ok(self.pairs())
    }

    /// Swaps `ch`, read without regard to case, with the symbol at the other
    /// end of its cable, or hands it on where it has none. A character that
    /// is no symbol is refused.
    pub fn crypt(&self, ch: char) -> (r: Result<char, PlugBoardError>)
        requires
            self.wf(),
        ensures
            is_symbol(upper(ch)) ==> r == Ok::<char, PlugBoardError>(
                self@.transform(upper(ch)),
            ),
            !is_symbol(upper(ch)) ==> r == Err::<char, PlugBoardError>(
                PlugBoardError::InvalidCharacter(ch),
            ),
            r matches Ok(out) ==> is_symbol(out),
    {
        let val = to_upper(ch);
        if index_of_symbol(val).is_none() {
            return Err(PlugBoardError::InvalidCharacter(ch));
        }
        proof {
            self@.lemma_involution(val);
        }
        match find_char(self.inputs.as_str(), val) {
            Some(pos) => {
                assert(pos == self@.inputs.index_of(val)) by {
                    let k = self@.inputs.index_of(val);
                }
                Ok(self.outputs.as_str().get_char(pos))
            },
            None => Ok(val),
        }
    }
}

} // verus!
