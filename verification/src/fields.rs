//! One object of the pairs file: its text between the braces, cut into fields,
//! becomes a pair of points.
//!
//! A pair holds each coordinate as the text of its literal. Turning that text
//! into a binary floating-point number is left to the caller.

use crate::literal::{float_literal, is_float_literal, lemma_zero_literal};
use crate::split::{
    copy_from,
    lemma_non_empty_len,
    non_empty,
    split,
    split_non_empty,
    split_on,
    texts,
};
use vstd::prelude::*;

verus! {

/// Why a text is no pairs file.
#[derive(Clone, Copy, Debug, PartialEq, Eq)]
pub enum ParseError {
    /// A field of an object does not hold a key and a value.
    MalformedField,
    /// The value of a field is no floating-point literal.
    InvalidNumber,
    /// The text ends inside an object.
    UnterminatedObject,
    /// The text ends inside the array.
    UnterminatedArray,
}

/// The four coordinates of a pair.
#[derive(Clone, Copy, Debug, PartialEq, Eq)]
pub enum Field {
    /// The longitude of the first point, under the key `x0`.
    X0,
    /// The latitude of the first point, under the key `y0`.
    Y0,
    /// The longitude of the second point, under the key `x1`.
    X1,
    /// The latitude of the second point, under the key `y1`.
    Y1,
}

/// Two points, `(x0, y0)` and `(x1, y1)`, in degrees; each coordinate is the
/// text of a floating-point literal.
#[derive(Clone, Debug, PartialEq, Eq)]
pub struct PointPair {
    pub x0: Vec<char>,
    pub x1: Vec<char>,
    pub y0: Vec<char>,
    pub y1: Vec<char>,
}

/// What a `PointPair` holds.
pub struct PairModel {
    pub x0: Seq<char>,
    pub x1: Seq<char>,
    pub y0: Seq<char>,
    pub y1: Seq<char>,
}

impl View for PointPair {
    type V = PairModel;

    open spec fn view(&self) -> PairModel {
        PairModel { x0: self.x0@, x1: self.x1@, y0: self.y0@, y1: self.y1@ }
    }
}

impl PairModel {
    /// The pair an object starts from: every coordinate zero.
    pub open spec fn zero() -> PairModel {
        PairModel { x0: seq!['0'], x1: seq!['0'], y0: seq!['0'], y1: seq!['0'] }
    }

    /// Every coordinate is a floating-point literal.
    pub open spec fn wf(self) -> bool {
        &&& float_literal(self.x0)
        &&& float_literal(self.x1)
        &&& float_literal(self.y0)
        &&& float_literal(self.y1)
    }

    /// The pair with one coordinate replaced.
    pub open spec fn with(self, field: Field, value: Seq<char>) -> PairModel {
        match field {
            Field::X0 => PairModel { x0: value, ..self },
            Field::Y0 => PairModel { y0: value, ..self },
            Field::X1 => PairModel { x1: value, ..self },
            Field::Y1 => PairModel { y1: value, ..self },
        }
    }
}

/// The coordinate that a key names, if it names one.
pub open spec fn field_named(key: Seq<char>) -> Option<Field> {
    if key == seq!['x', '0'] {
        Some(Field::X0)
    } else if key == seq!['y', '0'] {
        Some(Field::Y0)
    } else if key == seq!['x', '1'] {
        Some(Field::X1)
    } else if key == seq!['y', '1'] {
        Some(Field::Y1)
    } else {
        None
    }
}

/// The character takes one byte in UTF-8.
pub open spec fn is_one_byte(c: char) -> bool {
    c <= '\x7f'
}

/// The key and the value of one field. The parts of the field between its
/// quotes, the empty ones dropped, begin with the key and then the value
/// behind a separator of one byte; what follows them is not looked at.
pub open spec fn field_of(chunk: Seq<char>) -> Result<(Seq<char>, Seq<char>), ParseError> {
    let parts = non_empty(split(chunk, '"'));
    if parts.len() < 2 || !is_one_byte(parts[1][0]) {
        Err(ParseError::MalformedField)
    } else if !float_literal(parts[1].skip(1)) {
        Err(ParseError::InvalidNumber)
    } else {
        Ok((parts[0], parts[1].skip(1)))
    }
}

/// The pair after the fields `chunks`, taken in order from `pair`: a field
/// with a known key replaces that coordinate, one with another key changes
/// nothing, and the first field that is no field ends it.
pub open spec fn fold_fields(chunks: Seq<Seq<char>>, pair: PairModel) -> Result<
    PairModel,
    ParseError,
>
    decreases chunks.len(),
{
    if chunks.len() == 0 {
        Ok(pair)
    } else {
        match field_of(chunks[0]) {
            Err(e) => Err(e),
            Ok((key, value)) => fold_fields(
                chunks.drop_first(),
                match field_named(key) {
                    Some(field) => pair.with(field, value),
                    None => pair,
                },
            ),
        }
    }
}

/// The pair that the text of one object stands for.
pub open spec fn parse_fields(buffer: Seq<char>) -> Result<PairModel, ParseError> {
    fold_fields(split(buffer, ','), PairModel::zero())
}

/// Fields keep a pair well-formed.
pub proof fn lemma_fold_fields_wf(chunks: Seq<Seq<char>>, pair: PairModel)
    requires
        pair.wf(),
    ensures
        fold_fields(chunks, pair) matches Ok(p) ==> p.wf(),
    decreases chunks.len(),
{
    if chunks.len() > 0 {
        match field_of(chunks[0]) {
            Err(_) => {},
            Ok((key, value)) => {
                let next = match field_named(key) {
                    Some(field) => pair.with(field, value),
                    None => pair,
                };
                lemma_fold_fields_wf(chunks.drop_first(), next);
            },
        }
    }
}

/// An object that is read gives a well-formed pair.
pub proof fn lemma_parse_fields_wf(buffer: Seq<char>)
    ensures
        parse_fields(buffer) matches Ok(p) ==> p.wf(),
{
    lemma_zero_literal();
    lemma_fold_fields_wf(split(buffer, ','), PairModel::zero());
}

impl PointPair {
    /// The pair with every coordinate zero.
    pub fn zero() -> (pair: PointPair)
        ensures
            pair@ == PairModel::zero(),
    {
        let pair = PointPair { x0: vec!['0'], x1: vec!['0'], y0: vec!['0'], y1: vec!['0'] };
        assert(pair.x0@ =~= seq!['0']);
        assert(pair.x1@ =~= seq!['0']);
        assert(pair.y0@ =~= seq!['0']);
        assert(pair.y1@ =~= seq!['0']);
        pair
    }

    /// Replaces one coordinate.
    pub fn set(&mut self, field: Field, value: Vec<char>)
        ensures
            final(self)@ == old(self)@.with(field, value@),
    {
        match field {
            Field::X0 => self.x0 = value,
            Field::Y0 => self.y0 = value,
            Field::X1 => self.x1 = value,
            Field::Y1 => self.y1 = value,
        }
    }
}

/// The coordinate that `key` names, if it names one.
pub fn field_by_name(key: &[char]) -> (field: Option<Field>)
    ensures
        field == field_named(key@),
{
    if key.len() != 2 {
        return None;
    }
    let a = key[0];
    let b = key[1];
    assert(key@ =~= seq![a, b]);
    if a == 'x' && b == '0' {
        Some(Field::X0)
    } else if a == 'y' && b == '0' {
        assert(seq!['x', '0'][0] != a);
        Some(Field::Y0)
    } else if a == 'x' && b == '1' {
        assert(seq!['x', '0'][1] != b);
        assert(seq!['y', '0'][0] != a);
        Some(Field::X1)
    } else if a == 'y' && b == '1' {
        assert(seq!['x', '0'][0] != a);
        assert(seq!['y', '0'][1] != b);
        assert(seq!['x', '1'][0] != a);
        Some(Field::Y1)
    } else {
        assert(seq!['x', '0'][0] != a || seq!['x', '0'][1] != b);
        assert(seq!['y', '0'][0] != a || seq!['y', '0'][1] != b);
        assert(seq!['x', '1'][0] != a || seq!['x', '1'][1] != b);
        assert(seq!['y', '1'][0] != a || seq!['y', '1'][1] != b);
        None
    }
}

/// Reads the text of one object, the braces left out. Returns the pair it
/// stands for, or the error of its first field that is no field.
pub fn parse_buffer(buffer: Vec<char>) -> (result: Result<PointPair, ParseError>)
    ensures
        result matches Ok(pair) ==> parse_fields(buffer@) == Ok::<PairModel, ParseError>(pair@)
            && pair@.wf(),
        result matches Err(e) ==> parse_fields(buffer@) == Err::<PairModel, ParseError>(e),
{
    let chunks = split_on(buffer.as_slice(), ',');
    let mut pair = PointPair::zero();
    let mut i: usize = 0;
    proof {
        lemma_parse_fields_wf(buffer@);
        assert(texts(chunks@).skip(0) =~= texts(chunks@));
    }
    while i < chunks.len()
        invariant
            i <= chunks@.len(),
            texts(chunks@) == split(buffer@, ','),
            parse_fields(buffer@) == fold_fields(texts(chunks@).skip(i as int), pair@),
        decreases chunks@.len() - i,
    {
        proof {
            let rest = texts(chunks@).skip(i as int);
            assert(rest[0] == chunks@[i as int]@);
            assert(rest.drop_first() =~= texts(chunks@).skip(i + 1));
        }
        let parts = split_non_empty(chunks[i].as_slice(), '"');
        if parts.len() < 2 {
            return Err(ParseError::MalformedField);
        }
        assert(texts(parts@)[0] == parts@[0]@);
        assert(texts(parts@)[1] == parts@[1]@);
        proof {
            lemma_non_empty_len(split(chunks@[i as int]@, '"'), 1);
        }
        if parts[1][0] > '\x7f' {
            return Err(ParseError::MalformedField);
        }
        let value = copy_from(parts[1].as_slice(), 1);
        if !is_float_literal(value.as_slice()) {
            return Err(ParseError::InvalidNumber);
        }
        match field_by_name(parts[0].as_slice()) {
            Some(field) => pair.set(field, value),
            None => {},
        }
        i += 1;
    }
    Ok(pair)
}

} // verus!
