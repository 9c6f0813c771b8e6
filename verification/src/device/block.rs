//! The rotor stack: the rotors between the plugboard and the reflector.
//!
//! The rotors stand from left to right in the order in which they were
//! added. The signal enters at the rightmost rotor, which is the one that
//! turns with every character.
use crate::device::details::{
    is_first_outsider, is_symbol, lemma_symbol_index, names_symbols, symbol_at, symbol_index,
    upper, upper_seq,
};
use crate::device::reflector::{Reflector, ReflectorError, ReflectorView};
use crate::device::rotor::{Rotor, RotorError, RotorView};
use crate::device::text::{counts_text, with_char, with_counts};
use crate::device::wiring::lemma_pass_inverse;
use crate::device::EnigmaError;
use vstd::prelude::*;
use vstd::string::*;

verus! {

/// Why the rotor stack turned a request down.
#[derive(Debug, Clone)]
pub enum BlockError {
    /// As many positions were given as the first number says; the second is
    /// the number of rotors.
    InvalidCountOfSegments(usize, usize),
    /// The character cannot enter the stack.
    InvalidInput(char),
}

impl BlockError {
    /// What the error says.
    pub open spec fn text(&self) -> Seq<char> {
        match self {
            BlockError::InvalidCountOfSegments(actual, expected) => counts_text(
                "invalid count of segments: "@,
                *actual,
                *expected,
            ),
            BlockError::InvalidInput(c) => "invalid input character: "@.push(*c),
        }
    }

    /// What the error says.
    pub fn message(&self) -> (r: String)
        ensures
            r@ == self.text(),
    {
        match self {
            BlockError::InvalidCountOfSegments(actual, expected) => with_counts(
                "invalid count of segments: ",
                *actual,
                *expected,
            ),
            BlockError::InvalidInput(c) => with_char("invalid input character: ", *c),
        }
    }
}

/// The symbol that `c` becomes on its way through `rotors` from the right
/// to the left.
pub open spec fn forward_all(rotors: Seq<RotorView>, c: char) -> char
    decreases rotors.len(),
{
    if rotors.len() == 0 {
        c
    } else {
        rotors.first().forward(forward_all(rotors.drop_first(), c))
    }
}

/// The symbol that `c` becomes on its way through `rotors` from the left
/// to the right.
pub open spec fn backward_all(rotors: Seq<RotorView>, c: char) -> char
    decreases rotors.len(),
{
    if rotors.len() == 0 {
        c
    } else {
        backward_all(rotors.drop_first(), rotors.first().backward(c))
    }
}

/// Whether every one of `rotors` can be built.
pub open spec fn all_wf(rotors: Seq<RotorView>) -> bool {
    forall|i: int| 0 <= i < rotors.len() ==> (#[trigger] rotors[i]).wf()
}

/// The way back through a row of rotors undoes the way in, and the way in
/// undoes the way back.
pub proof fn lemma_through_and_back(rotors: Seq<RotorView>, c: char)
    requires
        all_wf(rotors),
        is_symbol(c),
    ensures
        is_symbol(forward_all(rotors, c)),
        is_symbol(backward_all(rotors, c)),
        backward_all(rotors, forward_all(rotors, c)) == c,
        forward_all(rotors, backward_all(rotors, c)) == c,
    decreases rotors.len(),
{
    if rotors.len() > 0 {
        let first = rotors.first();
        let rest = rotors.drop_first();
        assert(all_wf(rest));
        lemma_through_and_back(rest, c);
        lemma_pass_inverse(first.wiring, first.shift(), forward_all(rest, c));
        lemma_pass_inverse(first.wiring, first.shift(), c);
        lemma_through_and_back(rest, first.backward(c));
    }
}

/// A rotor stack as the rest of the machine sees it.
pub struct BlockView {
    /// The reflector, if one is set.
    pub reflector: Option<ReflectorView>,
    /// The rotors from left to right.
    pub rotors: Seq<RotorView>,
}

impl BlockView {
    /// Whether every part of the stack can be built.
    pub open spec fn wf(self) -> bool {
        &&& all_wf(self.rotors)
        &&& self.reflector matches Some(reflector) ==> reflector.wf()
    }

    /// The stack without rotors and without a reflector.
    pub open spec fn empty() -> BlockView {
        BlockView { reflector: None, rotors: Seq::empty() }
    }

    /// Whether every rotor between the places `i` and `from`, both left
    /// out, stands at a notch.
    pub open spec fn carries(self, i: int, from: int) -> bool {
        forall|j: int| i < j < from ==> (#[trigger] self.rotors[j]).at_notch()
    }

    /// Whether the rotor at place `i` turns with the next character. The
    /// rightmost rotor always turns. Its left neighbour turns if one of the
    /// two stands at a notch. A rotor further left turns if that neighbour
    /// turns and every rotor from the neighbour up to its own right-hand
    /// neighbour stands at a notch.
    pub open spec fn turns(self, i: int) -> bool {
        let last = self.rotors.len() - 1;
        i == last || ((self.rotors[last].at_notch() || self.rotors[last - 1].at_notch())
            && self.carries(i, last))
    }

    /// The stack after the step that precedes every character.
    pub open spec fn stepped(self) -> BlockView {
        BlockView {
            rotors: Seq::new(
                self.rotors.len(),
                |i: int|
                    if self.turns(i) {
                        self.rotors[i].advanced()
                    } else {
                        self.rotors[i]
                    },
            ),
            ..self
        }
    }

    /// The symbols in the windows, from left to right.
    pub open spec fn segments(self) -> Seq<char> {
        Seq::new(self.rotors.len(), |i: int| self.rotors[i].segment())
    }

    /// The ring offsets, named by symbols, from left to right.
    pub open spec fn ring_offsets(self) -> Seq<char> {
        Seq::new(self.rotors.len(), |i: int| symbol_at(self.rotors[i].ring_offset))
    }

    /// The stack after the positions `s` were asked for: nothing changes
    /// unless there is one position for each rotor, and then the rotors take
    /// their positions from the left up to the first character that names
    /// none.
    pub open spec fn with_segments(self, s: Seq<char>) -> BlockView {
        if s.len() != self.rotors.len() {
            self
        } else {
            BlockView {
                rotors: Seq::new(
                    self.rotors.len(),
                    |i: int|
                        if names_symbols(s, i + 1) {
                            RotorView { position: symbol_index(upper(s[i])), ..self.rotors[i] }
                        } else {
                            self.rotors[i]
                        },
                ),
                ..self
            }
        }
    }

    /// The stack after the ring offsets `s` were asked for: nothing changes
    /// unless there is one offset for each rotor, and then the rotors take
    /// their offsets from the left up to the first character that names
    /// none.
    pub open spec fn with_ring_offsets(self, s: Seq<char>) -> BlockView {
        if s.len() != self.rotors.len() {
            self
        } else {
            BlockView {
                rotors: Seq::new(
                    self.rotors.len(),
                    |i: int|
                        if names_symbols(s, i + 1) {
                            RotorView { ring_offset: symbol_index(upper(s[i])), ..self.rotors[i] }
                        } else {
                            self.rotors[i]
                        },
                ),
                ..self
            }
        }
    }

    /// The symbol that `c` is sent back as: by the reflector if one is set,
    /// unchanged if none is.
    pub open spec fn reflect(self, c: char) -> char {
        match self.reflector {
            Some(reflector) => reflector.forward(c),
            None => c,
        }
    }

    /// The symbol that `c` leaves the stack as: through the rotors to the
    /// left, back at the reflector, through the rotors to the right.
    pub open spec fn encode(self, c: char) -> char {
        backward_all(self.rotors, self.reflect(forward_all(self.rotors, c)))
    }

    /// What the stack, as it stands, makes of the character `ch`. A stack
    /// without any part hands every character on as it is. Otherwise the
    /// character is read without regard to case, and one that is no symbol
    /// is refused by the part that it meets first.
    pub open spec fn pass(self, ch: char) -> Result<char, EnigmaError> {
        if self.rotors.len() == 0 && self.reflector is None {
            Ok(ch)
        } else if is_symbol(upper(ch)) {
            Ok(self.encode(upper(ch)))
        } else if self.rotors.len() > 0 {
            Err(EnigmaError::Rotor(RotorError::InvalidSegmentPosition(ch)))
        } else {
            Err(EnigmaError::Reflector(ReflectorError::InvalidCharacter(ch)))
        }
    }

    /// Whether a signal that passes the stack twice, the rotors standing
    /// still, comes out as it went in. That is so where no reflector is set,
    /// and where the one that is set swaps the symbols in pairs.
    pub open spec fn is_reciprocal(self) -> bool {
        self.reflector matches Some(reflector) ==> reflector.is_involutive()
    }

    /// Stepping turns rotors and changes nothing else.
    pub proof fn lemma_stepped(self)
        requires
            self.wf(),
        ensures
            self.stepped().wf(),
            self.stepped().reflector == self.reflector,
            self.stepped().rotors.len() == self.rotors.len(),
            self.stepped().is_reciprocal() == self.is_reciprocal(),
    {
    }

    /// What leaves the stack is a symbol, if what enters is one.
    pub proof fn lemma_encode_is_symbol(self, c: char)
        requires
            self.wf(),
            is_symbol(c),
        ensures
            is_symbol(self.encode(c)),
    {
        let left = forward_all(self.rotors, c);
        lemma_through_and_back(self.rotors, c);
        match self.reflector {
            Some(reflector) => {
                reflector.lemma_forward_is_unturned_pass(left);
            },
            None => {},
        }
        lemma_through_and_back(self.rotors, self.reflect(left));
    }

    /// A reciprocal stack is its own inverse as long as it stands still.
    pub proof fn lemma_encode_twice(self, c: char)
        requires
            self.wf(),
            self.is_reciprocal(),
            is_symbol(c),
        ensures
            is_symbol(self.encode(c)),
            self.encode(self.encode(c)) == c,
    {
        let left = forward_all(self.rotors, c);
        lemma_through_and_back(self.rotors, c);
        let back = self.reflect(left);
        match self.reflector {
            Some(reflector) => {
                reflector.lemma_forward_is_unturned_pass(left);
                reflector.lemma_involution(left);
            },
            None => {},
        }
        lemma_through_and_back(self.rotors, back);
        lemma_through_and_back(self.rotors, left);
    }
}

/// Whether `r` is the answer to asking the stack `before` for the positions
/// `s`: a wrong count is reported first, then the first character that names
/// no position; otherwise the answer holds the positions in canonical form.
pub open spec fn segments_verdict(
    before: BlockView,
    s: Seq<char>,
    r: Result<String, EnigmaError>,
) -> bool {
    if s.len() != before.rotors.len() {
        r matches Err(EnigmaError::Block(BlockError::InvalidCountOfSegments(actual, expected)))
            && actual == s.len() && expected == before.rotors.len()
    } else if names_symbols(s, s.len() as int) {
        r matches Ok(shown) && shown@ == upper_seq(s)
    } else {
        r matches Err(EnigmaError::Rotor(RotorError::InvalidSegmentPosition(c))) && exists|k: int|
            is_first_outsider(upper_seq(s), k) && s[k] == c
    }
}

/// Whether `r` is the answer to asking the stack `before` for the ring
/// offsets `s`: a wrong count is reported first, then the first character
/// that names no offset; otherwise the answer holds the offsets in canonical
/// form.
pub open spec fn ring_offsets_verdict(
    before: BlockView,
    s: Seq<char>,
    r: Result<String, EnigmaError>,
) -> bool {
    if s.len() != before.rotors.len() {
        r matches Err(EnigmaError::Block(BlockError::InvalidCountOfSegments(actual, expected)))
            && actual == s.len() && expected == before.rotors.len()
    } else if names_symbols(s, s.len() as int) {
        r matches Ok(set) && set@ == upper_seq(s)
    } else {
        r matches Err(EnigmaError::Rotor(RotorError::InvalidRingOffset(c))) && exists|k: int|
            is_first_outsider(upper_seq(s), k) && s[k] == c
    }
}

/// The rotor stack of the machine.
pub struct Block {
    reflector: Option<Reflector>,
    rotors: Vec<Rotor>,
}

impl View for Block {
    type V = BlockView;

    closed spec fn view(&self) -> BlockView {
        BlockView {
            reflector: match self.reflector {
                Some(reflector) => Some(reflector@),
                None => None,
            },
            rotors: Seq::new(self.rotors@.len(), |i: int| self.rotors@[i]@),
        }
    }
}

impl Block {
    /// Whether every part of the stack is one that its constructors build.
    pub open spec fn wf(&self) -> bool {
        self@.wf()
    }

    /// A stack without rotors and without a reflector.
    pub fn new() -> (block: Block)
        ensures
            block.wf(),
            block@ == BlockView::empty(),
    {
        let block = Block { reflector: None, rotors: Vec::<Rotor>::new() };
        assert(block@.rotors =~= Seq::empty());
        block
    }

    /// Sets the reflector, in place of the one set before if there was one.
    pub fn set_reflector(&mut self, reflector: Reflector)
        requires
            old(self).wf(),
            reflector.wf(),
        ensures
            final(self).wf(),
            final(self)@ == (BlockView { reflector: Some(reflector@), ..old(self)@ }),
    {
        self.reflector = Some(reflector);
    }

    /// Adds a rotor to the right of those that are there.
    pub fn add_rotor(&mut self, rotor: Rotor)
        requires
            old(self).wf(),
            rotor.wf(),
        ensures
            final(self).wf(),
            final(self)@ == (BlockView { rotors: old(self)@.rotors.push(rotor@), ..old(self)@ }),
    {
        self.rotors.push(rotor);
        assert(self@.rotors =~= old(self)@.rotors.push(rotor@));
    }

    /// The symbols in the windows, from left to right.
    pub fn segments(&self) -> (r: String)
        requires
            self.wf(),
        ensures
            r@ == self@.segments(),
    {
        let mut retval = String::new();
        let n = self.rotors.len();
        let mut i: usize = 0;
        while i < n
            invariant
                n == self.rotors.len(),
                i <= n,
                self.wf(),
                retval@ == self@.segments().take(i as int),
            decreases n - i,
        {
            assert(self.rotors@[i as int]@ == self@.rotors[i as int]);
            retval.push(self.rotors[i].segment());
            assert(self@.segments().take(i + 1) == self@.segments().take(i as int).push(
                self@.segments()[i as int],
            ));
            i += 1;
        }
        retval
    }

    /// Turns the rotors, from left to right, to the positions that the
    /// characters of `segments` name, and returns the symbols that then stand
    /// in the windows. Refused are a string that does not hold one character
    /// for each rotor, which changes nothing, and a character that names no
    /// position: the rotors to the left of it keep their new positions.
    pub fn set_segments(&mut self, segments: &str) -> (r: Result<String, EnigmaError>)
        requires
            old(self).wf(),
        ensures
            final(self).wf(),
            final(self)@ == old(self)@.with_segments(segments@),
            segments_verdict(old(self)@, segments@, r),
            r matches Ok(shown) ==> shown@ == final(self)@.segments(),
    {
        let n = self.rotors.len();
        let count = segments.unicode_len();
        if count != n {
            return Err(EnigmaError::Block(BlockError::InvalidCountOfSegments(count, n)));
        }
        let mut i: usize = 0;
        while i < n
            invariant
                n == self.rotors.len(),
                n == segments@.len(),
                n == old(self)@.rotors.len(),
                i <= n,
                self.wf(),
                self@.reflector == old(self)@.reflector,
                names_symbols(segments@, i as int),
                forall|j: int|
                    0 <= j < n ==> #[trigger] self@.rotors[j] == if j < i {
                        RotorView {
                            position: symbol_index(upper(segments@[j])),
                            ..old(self)@.rotors[j]
                        }
                    } else {
                        old(self)@.rotors[j]
                    },
            decreases n - i,
        {
            let ghost before = self@.rotors;
            assert(self.rotors@[i as int]@ == before[i as int]);
            let set = self.rotors[i].set_segment(segments.get_char(i));
            assert(self@.rotors =~= before.update(i as int, self.rotors@[i as int]@));
            match set {
                Ok(_) => {},
                Err(e) => {
                    proof {
                        assert(self@.rotors =~= old(self)@.with_segments(segments@).rotors);
                    }
                    return Err(EnigmaError::Rotor(e));
                },
            }
            i += 1;
        }
        assert(self@.rotors =~= old(self)@.with_segments(segments@).rotors);
        assert(self@.segments() =~= upper_seq(segments@)) by {
            lemma_symbol_index();
        }
        Ok(self.segments())
    }

    /// The ring offsets, named by symbols, from left to right.
    pub fn ring_offsets(&self) -> (r: String)
        requires
            self.wf(),
        ensures
            r@ == self@.ring_offsets(),
    {
        let mut offsets = String::new();
        let n = self.rotors.len();
        let mut i: usize = 0;
        while i < n
            invariant
                n == self.rotors.len(),
                i <= n,
                self.wf(),
                offsets@ == self@.ring_offsets().take(i as int),
            decreases n - i,
        {
            assert(self.rotors@[i as int]@ == self@.rotors[i as int]);
            offsets.push(self.rotors[i].ring_offset());
            assert(self@.ring_offsets().take(i + 1) == self@.ring_offsets().take(i as int).push(
                self@.ring_offsets()[i as int],
            ));
            i += 1;
        }
        offsets
    }

    /// Sets the ring offsets of the rotors, from left to right, to those
    /// that the characters of `offsets` name, and returns the offsets that
    /// are then set. Refused are a string that does not hold one character
    /// for each rotor, which changes nothing, and a character that names no
    /// offset: the rotors to the left of it keep their new offsets.
    pub fn set_ring_offsets(&mut self, offsets: &str) -> (r: Result<String, EnigmaError>)
        requires
            old(self).wf(),
        ensures
            final(self).wf(),
            final(self)@ == old(self)@.with_ring_offsets(offsets@),
            ring_offsets_verdict(old(self)@, offsets@, r),
            r matches Ok(set) ==> set@ == final(self)@.ring_offsets(),
    {
        let n = self.rotors.len();
        let count = offsets.unicode_len();
        if count != n {
            return Err(EnigmaError::Block(BlockError::InvalidCountOfSegments(count, n)));
        }
        let mut i: usize = 0;
        while i < n
            invariant
                n == self.rotors.len(),
                n == offsets@.len(),
                n == old(self)@.rotors.len(),
                i <= n,
                self.wf(),
                self@.reflector == old(self)@.reflector,
                names_symbols(offsets@, i as int),
                forall|j: int|
                    0 <= j < n ==> #[trigger] self@.rotors[j] == if j < i {
                        RotorView {
                            ring_offset: symbol_index(upper(offsets@[j])),
                            ..old(self)@.rotors[j]
                        }
                    } else {
                        old(self)@.rotors[j]
                    },
            decreases n - i,
        {
            let ghost before = self@.rotors;
            assert(self.rotors@[i as int]@ == before[i as int]);
            let set = self.rotors[i].set_ring_offset(offsets.get_char(i));
            assert(self@.rotors =~= before.update(i as int, self.rotors@[i as int]@));
            match set {
                Ok(_) => {},
                Err(e) => {
                    proof {
                        assert(self@.rotors =~= old(self)@.with_ring_offsets(offsets@).rotors);
                    }
                    return Err(EnigmaError::Rotor(e));
                },
            }
            i += 1;
        }
        assert(self@.rotors =~= old(self)@.with_ring_offsets(offsets@).rotors);
        assert(self@.ring_offsets() =~= upper_seq(offsets@)) by {
            lemma_symbol_index();
        }
        Ok(self.ring_offsets())
    }

    /// Turns the rotors to the left of place `from` one after the other,
    /// from the right, as long as the rotor turned last had stood at a notch.
    fn turnover(&mut self, from: usize)
        requires
            old(self).wf(),
            from <= old(self)@.rotors.len(),
        ensures
            final(self).wf(),
            final(self)@.reflector == old(self)@.reflector,
            final(self)@.rotors.len() == old(self)@.rotors.len(),
            forall|i: int|
                0 <= i < old(self)@.rotors.len() ==> #[trigger] final(self)@.rotors[i] == if i
                    < from && old(self)@.carries(i, from as int) {
                    old(self)@.rotors[i].advanced()
                } else {
                    old(self)@.rotors[i]
                },
    {
        let mut k = from;
        let mut carry = true;
        while k > 0 && carry
            invariant
                k <= from <= self.rotors.len(),
                self.wf(),
                self@.reflector == old(self)@.reflector,
                self@.rotors.len() == old(self)@.rotors.len(),
                carry == old(self)@.carries(k as int - 1, from as int),
                forall|i: int|
                    0 <= i < self@.rotors.len() ==> #[trigger] self@.rotors[i] == if k <= i < from
                        && old(self)@.carries(i, from as int) {
                        old(self)@.rotors[i].advanced()
                    } else {
                        old(self)@.rotors[i]
                    },
            decreases k,
        {
            k -= 1;
            let ghost before = self@.rotors;
            assert(self.rotors@[k as int]@ == before[k as int]);
            carry = self.rotors[k].advance();
            assert(self@.rotors =~= before.update(k as int, before[k as int].advanced()));
        }
    }

    /// Turns the rotors as they turn before every character: the rightmost
    /// rotor by one step, and with it each rotor whose turn has come.
    pub fn advance(&mut self)
        requires
            old(self).wf(),
        ensures
            final(self).wf(),
            final(self)@ == old(self)@.stepped(),
    {
        let n = self.rotors.len();
        if n == 0 {
            assert(self@.rotors =~= self@.stepped().rotors);
            return ;
        }
        let ghost start = self@.rotors;
        if self.rotors[n - 1].at_notch() {
            // the turnover runs to the left from the rightmost rotor
            self.turnover(n);
        } else {
            // the rightmost rotor turns alone, unless its neighbour stands at
            // a notch: then the neighbour turns too (the double step), and
            // the turnover runs on from there
            let _ = self.rotors[n - 1].advance();
            assert(self@.rotors =~= start.update(n - 1, start[n - 1].advanced()));
            if n >= 2 {
                assert(self.rotors@[n - 2]@ == start[n - 2]);
                if self.rotors[n - 2].at_notch() {
                    let _ = self.rotors[n - 2].advance();
                    let ghost before = self@;
                    assert(before.rotors =~= start.update(n - 1, start[n - 1].advanced()).update(
                        n - 2,
                        start[n - 2].advanced(),
                    ));
                    self.turnover(n - 2);
                    // further left the rotors were as at the start, and the
                    // neighbour stood at its notch
                    assert forall|i: int| 0 <= i < n - 2 implies #[trigger] before.carries(
                        i,
                        n - 2,
                    ) == old(self)@.carries(i, n - 1) by {
                        assert(forall|j: int| i < j < n - 2 ==> before.rotors[j] == start[j]);
                    }
                }
            }
        }
        assert(self@.rotors =~= old(self)@.stepped().rotors);
    }

    /// Passes one character through the stack. The rotors turn first, and
    /// they turn whether or not the character is then refused. The signal
    /// runs through the rotors from right to left, is sent back by the
    /// reflector, where one is set, and runs through the rotors from left to
    /// right.
    pub fn crypt(&mut self, ch: char) -> (r: Result<char, EnigmaError>)
        requires
            old(self).wf(),
        ensures
            final(self).wf(),
            final(self)@ == old(self)@.stepped(),
            r == final(self)@.pass(ch),
    {
        self.advance();

        let n = self.rotors.len();
        let mut val = ch;
        let mut k = n;
        while k > 0
            invariant
                n == self.rotors.len(),
                n == self@.rotors.len(),
                k <= n,
                self.wf(),
                self@ == old(self)@.stepped(),
                k == n ==> val == ch,
                k < n ==> is_symbol(upper(ch)) && is_symbol(val) && val == forward_all(
                    self@.rotors.skip(k as int),
                    upper(ch),
                ),
            decreases k,
        {
            k -= 1;
            proof {
                // the signal so far has passed the rotors to the right of
                // this one, which it meets next
                let rest = self@.rotors.skip(k as int);
                assert(rest.drop_first() == self@.rotors.skip(k + 1));
                assert(forward_all(rest, upper(ch)) == rest.first().forward(
                    forward_all(rest.drop_first(), upper(ch)),
                ));
                lemma_symbol_index();
            }
            match self.rotors[k].forward(val) {
                Ok(out) => {
                    val = out;
                },
                Err(e) => {
                    return Err(EnigmaError::Rotor(e));
                },
            }
        }
        assert(self@.rotors.skip(0) == self@.rotors);

        match &self.reflector {
            None => {},
            Some(reflector) => {
                match reflector.forward(val) {
                    Ok(out) => {
                        val = out;
                    },
                    Err(e) => {
                        return Err(EnigmaError::Reflector(e));
                    },
                }
            },
        }

        let ghost back = val;
        let mut k: usize = 0;
        while k < n
            invariant
                n == self.rotors.len(),
                n == self@.rotors.len(),
                k <= n,
                self.wf(),
                n > 0 ==> is_symbol(val),
                backward_all(self@.rotors, back) == backward_all(
                    self@.rotors.skip(k as int),
                    val,
                ),
            decreases n - k,
        {
            assert(self@.rotors.skip(k as int).drop_first() == self@.rotors.skip(k + 1));
            match self.rotors[k].backward(val) {
                Ok(out) => {
                    val = out;
                },
                Err(e) => {
                    return Err(EnigmaError::Rotor(e));
                },
            }
            k += 1;
        }
        Ok(val)
    }
}

} // verus!
