//! The single-pass parser of the pairs file.
//!
//! The file holds one array of objects, each with the four coordinates of a
//! pair. The parser is an automaton over the characters of the file: it
//! looks for the array, collects the text of each object, and reads the pair
//! from that text when the object closes.

use crate::fields::{
    lemma_parse_fields_wf,
    parse_buffer,
    parse_fields,
    PairModel,
    ParseError,
    PointPair,
};
use vstd::prelude::*;

verus! {

/// Where in the file the parser stands.
#[derive(Clone, Copy, Debug, PartialEq, Eq, Structural)]
pub enum ParseState {
    /// Before the array opens.
    Searching,
    /// In the array, before its first object.
    InArray,
    /// In an object.
    InObject,
    /// In the array, behind an object.
    BetweenObjects,
    /// Behind the array.
    Done,
}

/// Spaces and line feeds count nowhere in the file.
pub open spec fn is_ignored(c: char) -> bool {
    c == ' ' || c == '\n'
}

/// The automaton: the state, the text of the object that is open, the pairs
/// read so far, and the error that stopped it, if one did.
pub struct Machine {
    pub state: ParseState,
    pub buffer: Seq<char>,
    pub pairs: Seq<PairModel>,
    pub failure: Option<ParseError>,
}

impl Machine {
    /// The automaton before the first character.
    pub open spec fn start() -> Machine {
        Machine {
            state: ParseState::Searching,
            buffer: Seq::empty(),
            pairs: Seq::empty(),
            failure: None,
        }
    }

    /// The automaton is between objects of the array.
    pub open spec fn in_array(self) -> bool {
        self.state == ParseState::InArray || self.state == ParseState::BetweenObjects
    }

    /// The buffer holds text only while an object is open, and every pair
    /// read is well-formed.
    pub open spec fn wf(self) -> bool {
        &&& self.state != ParseState::InObject ==> self.buffer.len() == 0
        &&& all_wf(self.pairs)
    }

    /// The automaton after one character more.
    pub open spec fn step(self, c: char) -> Machine {
        if self.failure is Some || is_ignored(c) {
            self
        } else {
            match self.state {
                ParseState::Searching => if c == '[' {
                    Machine { state: ParseState::InArray, ..self }
                } else {
                    self
                },
                ParseState::InArray | ParseState::BetweenObjects => if c == ']' {
                    Machine { state: ParseState::Done, ..self }
                } else if c == '{' {
                    Machine { state: ParseState::InObject, ..self }
                } else {
                    self
                },
                ParseState::InObject => if c == '}' {
                    match parse_fields(self.buffer) {
                        Ok(pair) => Machine {
                            state: ParseState::BetweenObjects,
                            buffer: Seq::empty(),
                            pairs: self.pairs.push(pair),
                            failure: None,
                        },
                        Err(e) => Machine { buffer: Seq::empty(), failure: Some(e), ..self },
                    }
                } else {
                    Machine { buffer: self.buffer.push(c), ..self }
                },
                ParseState::Done => self,
            }
        }
    }

    /// The automaton after the characters of `text`, in order.
    pub open spec fn run(self, text: Seq<char>) -> Machine
        decreases text.len(),
    {
        if text.len() == 0 {
            self
        } else {
            self.run(text.drop_last()).step(text.last())
        }
    }

    /// What the parse comes to if the text ends here.
    pub open spec fn outcome(self) -> Result<Seq<PairModel>, ParseError> {
        match self.failure {
            Some(e) => Err(e),
            None => match self.state {
                ParseState::InObject => Err(ParseError::UnterminatedObject),
                ParseState::InArray | ParseState::BetweenObjects => Err(
                    ParseError::UnterminatedArray,
                ),
                ParseState::Searching | ParseState::Done => Ok(self.pairs),
            },
        }
    }
}

/// The pairs that a text holds, in the order of the text, or the first error
/// in it.
pub open spec fn parse_text(text: Seq<char>) -> Result<Seq<PairModel>, ParseError> {
    Machine::start().run(text).outcome()
}

/// What a vector of pairs holds.
pub open spec fn models(pairs: Seq<PointPair>) -> Seq<PairModel> {
    Seq::new(pairs.len(), |i: int| pairs[i]@)
}

/// Every pair is well-formed.
pub open spec fn all_wf(pairs: Seq<PairModel>) -> bool {
    forall|i: int| 0 <= i < pairs.len() ==> (#[trigger] pairs[i]).wf()
}

/// The lines one after another, as one text.
pub open spec fn joined(lines: Seq<String>) -> Seq<char>
    decreases lines.len(),
{
    if lines.len() == 0 {
        Seq::empty()
    } else {
        joined(lines.drop_last()) + lines.last()@
    }
}

/// Running over two texts in turn is running over both at once.
pub proof fn lemma_run_concat(m: Machine, a: Seq<char>, b: Seq<char>)
    ensures
        m.run(a + b) == m.run(a).run(b),
    decreases b.len(),
{
    if b.len() == 0 {
        assert(a + b =~= a);
    } else {
        assert((a + b).drop_last() =~= a + b.drop_last());
        lemma_run_concat(m, a, b.drop_last());
    }
}

/// A step keeps the automaton well-formed.
pub proof fn lemma_step_wf(m: Machine, c: char)
    requires
        m.wf(),
    ensures
        m.step(c).wf(),
{
    lemma_parse_fields_wf(m.buffer);
}

/// The automaton stays well-formed over any text.
pub proof fn lemma_run_wf(m: Machine, text: Seq<char>)
    requires
        m.wf(),
    ensures
        m.run(text).wf(),
    decreases text.len(),
{
    if text.len() > 0 {
        lemma_run_wf(m, text.drop_last());
        lemma_step_wf(m.run(text.drop_last()), text.last());
    }
}

/// Every pair of a text that parses is well-formed: its coordinates are
/// floating-point literals.
pub proof fn lemma_parse_text_wf(text: Seq<char>)
    ensures
        parse_text(text) matches Ok(pairs) ==> all_wf(pairs),
{
    lemma_run_wf(Machine::start(), text);
}

/// Running over one character is one step.
pub proof fn lemma_run_one(m: Machine, c: char)
    ensures
        m.run(seq![c]) == m.step(c),
{
    assert(seq![c].drop_last() =~= Seq::<char>::empty());
    assert(m.run(Seq::<char>::empty()) == m);
    assert(seq![c].last() == c);
}

/// The parser, fed character by character.
pub struct Parser {
    state: ParseState,
    buffer: Vec<char>,
    pairs: Vec<PointPair>,
    failure: Option<ParseError>,
}

impl View for Parser {
    type V = Machine;

    closed spec fn view(&self) -> Machine {
        Machine {
            state: self.state,
            buffer: self.buffer@,
            pairs: models(self.pairs@),
            failure: self.failure,
        }
    }
}

impl Parser {
    /// A parser that has seen nothing.
    pub fn new() -> (parser: Parser)
        ensures
            parser@ == Machine::start(),
            parser@.wf(),
    {
        let parser = Parser {
            state: ParseState::Searching,
            buffer: Vec::new(),
            pairs: Vec::new(),
            failure: None,
        };
        assert(models(parser.pairs@) =~= Seq::<PairModel>::empty());
        parser
    }

    /// Where the parser stands.
    pub fn state(&self) -> (state: ParseState)
        ensures
            state == self@.state,
    {
        self.state
    }

    /// Takes one character.
    pub fn feed(&mut self, c: char)
        ensures
            final(self)@ == old(self)@.step(c),
            old(self)@.wf() ==> final(self)@.wf(),
    {
        proof {
            if self@.wf() {
                lemma_step_wf(self@, c);
            }
        }
        if self.failure.is_some() || c == ' ' || c == '\n' {
            return ;
        }
        match self.state {
            ParseState::Searching => {
                if c == '[' {
                    self.state = ParseState::InArray;
                }
            },
            ParseState::InArray | ParseState::BetweenObjects => {
                if c == ']' {
                    self.state = ParseState::Done;
                } else if c == '{' {
                    self.state = ParseState::InObject;
                }
            },
            ParseState::InObject => {
                if c == '}' {
                    let mut buffer: Vec<char> = Vec::new();
                    core::mem::swap(&mut buffer, &mut self.buffer);
                    match parse_buffer(buffer) {
                        Ok(pair) => {
                            assert(models(self.pairs@.push(pair)) =~= models(self.pairs@).push(
                                pair@,
                            ));
                            self.pairs.push(pair);
                            self.state = ParseState::BetweenObjects;
                        },
                        Err(e) => {
                            self.failure = Some(e);
                        },
                    }
                } else {
                    self.buffer.push(c);
                }
            },
            ParseState::Done => {},
        }
    }

    /// Takes the characters of `line`, in order.
    pub fn feed_line(&mut self, line: &str)
        ensures
            final(self)@ == old(self)@.run(line@),
            old(self)@.wf() ==> final(self)@.wf(),
    {
        proof {
            if self@.wf() {
                lemma_run_wf(self@, line@);
            }
        }
        broadcast use vstd::string::axiom_spec_iter;

        let ghost before = self@;
        for c in iter: line.chars()
            invariant
                iter.seq() == line@,
                self@ == before.run(line@.take(iter.index())),
        {
            proof {
                let n = iter.index();
                assert(line@.take(n + 1).drop_last() =~= line@.take(n));
            }
            self.feed(c);
        }
        assert(line@.take(line@.len() as int) =~= line@);
    }

    /// Ends the parse: the pairs read, in the order of the text, if the text
    /// may end here and nothing in it was wrong.
    pub fn finish(self) -> (result: Result<Vec<PointPair>, ParseError>)
        ensures
            result matches Ok(pairs) ==> self@.outcome() == Ok::<Seq<PairModel>, ParseError>(
                models(pairs@),
            ),
            result matches Err(e) ==> self@.outcome() == Err::<Seq<PairModel>, ParseError>(e),
            self@.wf() ==> (result matches Ok(pairs) ==> all_wf(models(pairs@))),
    {
        match self.failure {
            Some(e) => Err(e),
            None => match self.state {
                ParseState::InObject => Err(ParseError::UnterminatedObject),
                ParseState::InArray | ParseState::BetweenObjects => Err(
                    ParseError::UnterminatedArray,
                ),
                ParseState::Searching | ParseState::Done => Ok(self.pairs),
            },
        }
    }
}

/// Parses a pairs file, given as its lines. Where one line ends and the next
/// begins does not count: the lines are read as one text.
pub fn parse(lines: &Vec<String>) -> (result: Result<Vec<PointPair>, ParseError>)
    ensures
        result matches Ok(pairs) ==> parse_text(joined(lines@)) == Ok::<
            Seq<PairModel>,
            ParseError,
        >(models(pairs@)),
        result matches Err(e) ==> parse_text(joined(lines@)) == Err::<Seq<PairModel>, ParseError>(
            e,
        ),
        result matches Ok(pairs) ==> all_wf(models(pairs@)),
{
    let mut parser = Parser::new();
    let mut i: usize = 0;
    assert(lines@.take(0) =~= Seq::<String>::empty());
    proof {
        lemma_parse_text_wf(joined(lines@));
    }
    while i < lines.len()
        invariant
            i <= lines@.len(),
            parser@ == Machine::start().run(joined(lines@.take(i as int))),
        decreases lines@.len() - i,
    {
        proof {
            assert(lines@.take(i + 1).drop_last() =~= lines@.take(i as int));
            lemma_run_concat(Machine::start(), joined(lines@.take(i as int)), lines@[i as int]@);
        }
        parser.feed_line(lines[i].as_str());
        i += 1;
    }
    assert(lines@.take(i as int) =~= lines@);
    parser.finish()
}

} // verus!
