//! Writing a pairs file, and the proof that the parser reads back what was
//! written.

use crate::document::{
    array_text,
    document,
    is_gap,
    lemma_parse_document,
    lemma_stripped_clean,
    lemma_stripped_concat,
    object_text,
    read_objects,
    stripped,
    well_shaped,
};
use crate::fields::{
    field_named,
    field_of,
    fold_fields,
    is_one_byte,
    parse_fields,
    Field,
    PairModel,
    ParseError,
    PointPair,
};
use crate::literal::{float_literal, is_literal_char, lemma_literal_chars};
use crate::parser::{all_wf, is_ignored, models, parse_text};
use crate::split::{
    free_of,
    lemma_non_empty_concat,
    lemma_non_empty_one,
    lemma_split_first,
    lemma_split_whole,
    non_empty,
    split,
};
use vstd::prelude::*;

verus! {

/// The key of a coordinate.
pub open spec fn key_of(field: Field) -> Seq<char> {
    match field {
        Field::X0 => seq!['x', '0'],
        Field::Y0 => seq!['y', '0'],
        Field::X1 => seq!['x', '1'],
        Field::Y1 => seq!['y', '1'],
    }
}

/// A field: the key between quotes, a colon, the value.
pub open spec fn field_text(field: Field, value: Seq<char>) -> Seq<char> {
    seq!['"'] + key_of(field) + seq!['"', ':'] + value
}

/// The body of the object of a pair: its four fields, with a comma and a
/// space between them.
pub open spec fn body_text(pair: PairModel) -> Seq<char> {
    field_text(Field::X0, pair.x0) + seq![',', ' '] + field_text(Field::Y0, pair.y0) + seq![
        ',',
        ' ',
    ] + field_text(Field::X1, pair.x1) + seq![',', ' '] + field_text(Field::Y1, pair.y1)
}

/// What stands behind each object: a comma and a line feed.
pub open spec fn object_end() -> Seq<char> {
    seq![',', '\n']
}

/// The objects of the pairs, each with a comma and a line feed behind it.
pub open spec fn pairs_text(pairs: Seq<PairModel>) -> Seq<char>
    decreases pairs.len(),
{
    if pairs.len() == 0 {
        Seq::empty()
    } else {
        pairs_text(pairs.drop_last()) + object_text(body_text(pairs.last())) + object_end()
    }
}

/// What the file begins with, up to the bracket that opens the array.
pub open spec fn label() -> Seq<char> {
    seq!['{', '"', 'p', 'a', 'i', 'r', 's', '"', ':', ' ']
}

/// The file of the pairs.
pub open spec fn file_text(pairs: Seq<PairModel>) -> Seq<char> {
    label() + seq!['['] + pairs_text(pairs) + seq![']', '}']
}

/// Neither a comma, a quote, a brace, a bracket nor a blank.
spec fn is_plain(c: char) -> bool {
    c != ',' && c != '"' && c != '}' && c != '{' && c != ']' && !is_ignored(c)
}

/// No character of a literal is a comma, a quote, a brace, a bracket or a
/// blank.
proof fn lemma_value_plain(value: Seq<char>)
    requires
        float_literal(value),
    ensures
        forall|i: int| 0 <= i < value.len() ==> is_plain(#[trigger] value[i]),
{
    lemma_literal_chars(value);
    assert forall|i: int| 0 <= i < value.len() implies is_plain(#[trigger] value[i]) by {
        assert(is_literal_char(value[i]));
    }
}

/// A field with a literal for its value: no character of it is a comma, a
/// brace, a bracket or a blank, and it is read back as its key and value.
proof fn lemma_field_reads_back(field: Field, value: Seq<char>)
    requires
        float_literal(value),
    ensures
        field_of(field_text(field, value)) == Ok::<(Seq<char>, Seq<char>), ParseError>(
            (key_of(field), value),
        ),
        field_named(key_of(field)) == Some(field),
        forall|i: int|
            0 <= i < field_text(field, value).len() ==> {
                let c = #[trigger] field_text(field, value)[i];
                c != ',' && c != '}' && c != '{' && c != ']' && !is_ignored(c)
            },
{
    let key = key_of(field);
    let text = field_text(field, value);
    let tail = seq![':'] + value;
    lemma_value_plain(value);
    assert(key.len() == 2);
    assert(key[0] == 'x' || key[0] == 'y');
    assert(key[1] == '0' || key[1] == '1');
    assert(field_named(key) == Some(field)) by {
        assert(seq!['x', '0'][0] == 'x' && seq!['x', '0'][1] == '0');
        assert(seq!['y', '0'][0] == 'y' && seq!['y', '0'][1] == '0');
        assert(seq!['x', '1'][0] == 'x' && seq!['x', '1'][1] == '1');
        assert(seq!['y', '1'][0] == 'y' && seq!['y', '1'][1] == '1');
    }
    assert forall|i: int| 0 <= i < text.len() implies {
        let c = #[trigger] text[i];
        c != ',' && c != '}' && c != '{' && c != ']' && !is_ignored(c)
    } by {
        if i >= 5 {
            assert(text[i] == value[i - 5]);
        }
    }
    // The pieces between the quotes: nothing, the key, the colon and the value.
    assert(text =~= Seq::<char>::empty() + seq!['"'] + (key + seq!['"'] + tail));
    assert(free_of(Seq::<char>::empty(), '"'));
    lemma_split_first(Seq::<char>::empty(), '"', key + seq!['"'] + tail);
    assert(free_of(key, '"'));
    lemma_split_first(key, '"', tail);
    assert(free_of(tail, '"')) by {
        assert forall|i: int| 0 <= i < tail.len() implies #[trigger] tail[i] != '"' by {
            if i >= 1 {
                assert(tail[i] == value[i - 1]);
            }
        }
    }
    lemma_split_whole(tail, '"');
    let pieces = split(text, '"');
    assert(pieces == seq![Seq::<char>::empty()] + (seq![key] + seq![tail]));
    lemma_non_empty_concat(seq![Seq::<char>::empty()], seq![key] + seq![tail]);
    lemma_non_empty_concat(seq![key], seq![tail]);
    lemma_non_empty_one(Seq::<char>::empty());
    lemma_non_empty_one(key);
    lemma_non_empty_one(tail);
    let parts = non_empty(pieces);
    assert(parts =~= seq![key, tail]);
    assert(parts[1][0] == ':');
    assert(is_one_byte(':'));
    assert(tail.skip(1) =~= value);
}

/// A list of fields that begins with a field of a literal: that field sets
/// its coordinate.
proof fn lemma_fold_first(field: Field, value: Seq<char>, rest: Seq<Seq<char>>, pair: PairModel)
    requires
        float_literal(value),
    ensures
        fold_fields(seq![field_text(field, value)] + rest, pair) == fold_fields(
            rest,
            pair.with(field, value),
        ),
{
    lemma_field_reads_back(field, value);
    let chunks = seq![field_text(field, value)] + rest;
    assert(chunks[0] == field_text(field, value));
    assert(chunks.drop_first() =~= rest);
}

/// The body of the object of a well-formed pair holds no closing brace, and
/// is read back as that pair.
pub proof fn lemma_body_reads_back(pair: PairModel)
    requires
        pair.wf(),
    ensures
        free_of(body_text(pair), '}'),
        parse_fields(stripped(body_text(pair))) == Ok::<PairModel, ParseError>(pair),
{
    let f0 = field_text(Field::X0, pair.x0);
    let f1 = field_text(Field::Y0, pair.y0);
    let f2 = field_text(Field::X1, pair.x1);
    let f3 = field_text(Field::Y1, pair.y1);
    let comma = seq![','];
    let blank = seq![' '];
    lemma_field_reads_back(Field::X0, pair.x0);
    lemma_field_reads_back(Field::Y0, pair.y0);
    lemma_field_reads_back(Field::X1, pair.x1);
    lemma_field_reads_back(Field::Y1, pair.y1);
    let body = body_text(pair);
    assert(body =~= f0 + comma + blank + f1 + comma + blank + f2 + comma + blank + f3);
    assert forall|i: int| 0 <= i < body.len() implies #[trigger] body[i] != '}' by {
        let a = f0.len() + 2;
        let b = a + f1.len() + 2;
        let c = b + f2.len() + 2;
        if i < f0.len() {
            assert(body[i] == f0[i]);
        } else if i < a {
        } else if i < a + f1.len() {
            assert(body[i] == f1[i - a]);
        } else if i < b {
        } else if i < b + f2.len() {
            assert(body[i] == f2[i - b]);
        } else if i < c {
        } else {
            assert(body[i] == f3[i - c]);
        }
    }
    // Without its blanks the body is the four fields with commas between.
    lemma_stripped_clean(f0);
    lemma_stripped_clean(f1);
    lemma_stripped_clean(f2);
    lemma_stripped_clean(f3);
    lemma_stripped_clean(comma);
    assert(stripped(blank) =~= Seq::<char>::empty()) by {
        assert(blank.drop_last() =~= Seq::<char>::empty());
        assert(stripped(Seq::<char>::empty()) =~= Seq::<char>::empty());
    }
    let s1 = f0 + comma;
    let s2 = s1 + blank;
    let s3 = s2 + f1;
    let s4 = s3 + comma;
    let s5 = s4 + blank;
    let s6 = s5 + f2;
    let s7 = s6 + comma;
    let s8 = s7 + blank;
    lemma_stripped_concat(f0, comma);
    lemma_stripped_concat(s1, blank);
    lemma_stripped_concat(s2, f1);
    lemma_stripped_concat(s3, comma);
    lemma_stripped_concat(s4, blank);
    lemma_stripped_concat(s5, f2);
    lemma_stripped_concat(s6, comma);
    lemma_stripped_concat(s7, blank);
    lemma_stripped_concat(s8, f3);
    let rest2 = f2 + comma + f3;
    let rest1 = f1 + comma + rest2;
    let compact = f0 + comma + rest1;
    assert(stripped(body) =~= compact);
    // Cut at the commas it is the four fields.
    assert(free_of(f0, ','));
    assert(free_of(f1, ','));
    assert(free_of(f2, ','));
    assert(free_of(f3, ','));
    lemma_split_first(f0, ',', rest1);
    lemma_split_first(f1, ',', rest2);
    lemma_split_first(f2, ',', f3);
    lemma_split_whole(f3, ',');
    let chunks = split(compact, ',');
    let none = Seq::<Seq<char>>::empty();
    assert(chunks =~= seq![f0] + (seq![f1] + (seq![f2] + (seq![f3] + none))));
    let first = PairModel::zero().with(Field::X0, pair.x0);
    let second = first.with(Field::Y0, pair.y0);
    let third = second.with(Field::X1, pair.x1);
    let fourth = third.with(Field::Y1, pair.y1);
    lemma_fold_first(Field::X0, pair.x0, seq![f1] + (seq![f2] + (seq![f3] + none)), PairModel::zero());
    lemma_fold_first(Field::Y0, pair.y0, seq![f2] + (seq![f3] + none), first);
    lemma_fold_first(Field::X1, pair.x1, seq![f3] + none, second);
    lemma_fold_first(Field::Y1, pair.y1, none, third);
    assert(fourth == pair);
}

/// The bodies of the objects of the pairs.
pub open spec fn bodies_of(pairs: Seq<PairModel>) -> Seq<Seq<char>> {
    Seq::new(pairs.len(), |i: int| body_text(pairs[i]))
}

/// The gaps round `n` objects as they are written: nothing before the first,
/// a comma and a line feed behind each.
pub open spec fn gaps_of(n: nat) -> Seq<Seq<char>> {
    Seq::new(
        n + 1,
        |i: int|
            if i == 0 {
                Seq::empty()
            } else {
                object_end()
            },
    )
}

/// The objects as they are written are the inside of an array.
proof fn lemma_pairs_text_is_array(pairs: Seq<PairModel>)
    ensures
        pairs_text(pairs) == array_text(gaps_of(pairs.len()), bodies_of(pairs)),
    decreases pairs.len(),
{
    let gaps = gaps_of(pairs.len());
    let bodies = bodies_of(pairs);
    if pairs.len() > 0 {
        let front = pairs.drop_last();
        lemma_pairs_text_is_array(front);
        assert(gaps.drop_last() =~= gaps_of(front.len()));
        assert(bodies.drop_last() =~= bodies_of(front));
        assert(bodies.last() == body_text(pairs.last()));
        assert(gaps.last() == object_end());
    } else {
        assert(gaps[0] =~= Seq::<char>::empty());
    }
}

/// The bodies of well-formed pairs are read back as those pairs.
proof fn lemma_bodies_read_back(pairs: Seq<PairModel>)
    requires
        all_wf(pairs),
    ensures
        read_objects(bodies_of(pairs)) == Ok::<Seq<PairModel>, ParseError>(pairs),
    decreases pairs.len(),
{
    let bodies = bodies_of(pairs);
    if pairs.len() > 0 {
        let front = pairs.drop_last();
        assert(all_wf(front)) by {
            assert forall|i: int| 0 <= i < front.len() implies (#[trigger] front[i]).wf() by {
                assert(front[i] == pairs[i]);
            }
        }
        lemma_bodies_read_back(front);
        assert(bodies.drop_last() =~= bodies_of(front));
        assert(bodies.last() == body_text(pairs.last()));
        assert(pairs.last() == pairs[pairs.len() - 1]);
        lemma_body_reads_back(pairs.last());
        assert(front.push(pairs.last()) =~= pairs);
    } else {
        assert(pairs =~= Seq::<PairModel>::empty());
    }
}

/// Writing and reading back: the file of well-formed pairs parses to those
/// pairs, in their order.
pub proof fn lemma_round_trip(pairs: Seq<PairModel>)
    requires
        all_wf(pairs),
    ensures
        parse_text(file_text(pairs)) == Ok::<Seq<PairModel>, ParseError>(pairs),
{
    let gaps = gaps_of(pairs.len());
    let bodies = bodies_of(pairs);
    lemma_pairs_text_is_array(pairs);
    lemma_bodies_read_back(pairs);
    assert(free_of(label(), '['));
    assert forall|i: int| 0 <= i < gaps.len() implies is_gap(#[trigger] gaps[i]) by {
        assert(object_end()[0] == ',' && object_end()[1] == '\n');
    }
    assert forall|i: int| 0 <= i < bodies.len() implies free_of(#[trigger] bodies[i], '}') by {
        lemma_body_reads_back(pairs[i]);
    }
    assert(well_shaped(label(), gaps, bodies));
    lemma_parse_document(label(), gaps, bodies, seq!['}']);
    assert(file_text(pairs) =~= document(label(), gaps, bodies, seq!['}']));
}

/// Adds `text` to the end of `out`.
fn append_text(out: &mut Vec<char>, text: &[char])
    ensures
        final(out)@ == old(out)@ + text@,
{
    let mut i: usize = 0;
    assert(out@ =~= old(out)@ + text@.take(0));
    while i < text.len()
        invariant
            i <= text@.len(),
            out@ == old(out)@ + text@.take(i as int),
        decreases text@.len() - i,
    {
        out.push(text[i]);
        assert(out@ =~= old(out)@ + text@.take(i + 1));
        i += 1;
    }
    assert(text@.take(i as int) =~= text@);
}

/// Adds one field to the end of `out`.
fn write_field(out: &mut Vec<char>, field: Field, value: &Vec<char>)
    ensures
        final(out)@ == old(out)@ + field_text(field, value@),
{
    out.push('"');
    match field {
        Field::X0 => {
            out.push('x');
            out.push('0');
        },
        Field::Y0 => {
            out.push('y');
            out.push('0');
        },
        Field::X1 => {
            out.push('x');
            out.push('1');
        },
        Field::Y1 => {
            out.push('y');
            out.push('1');
        },
    }
    out.push('"');
    out.push(':');
    let ghost head = out@;
    assert(head =~= old(out)@ + (seq!['"'] + key_of(field) + seq!['"', ':']));
    append_text(out, value.as_slice());
    assert(out@ =~= old(out)@ + field_text(field, value@));
}

/// Adds the object of one pair, with the comma and the line feed behind it,
/// to the end of `out`.
pub fn write_pair(out: &mut Vec<char>, pair: &PointPair)
    ensures
        final(out)@ == old(out)@ + object_text(body_text(pair@)) + object_end(),
{
    out.push('{');
    write_field(out, Field::X0, &pair.x0);
    out.push(',');
    out.push(' ');
    write_field(out, Field::Y0, &pair.y0);
    out.push(',');
    out.push(' ');
    write_field(out, Field::X1, &pair.x1);
    out.push(',');
    out.push(' ');
    write_field(out, Field::Y1, &pair.y1);
    out.push('}');
    out.push(',');
    out.push('\n');
    assert(out@ =~= old(out)@ + object_text(body_text(pair@)) + object_end());
}

/// The text of the file that holds `pairs`, in their order.
pub fn render_pairs(pairs: &Vec<PointPair>) -> (text: Vec<char>)
    ensures
        text@ == file_text(models(pairs@)),
{
    let mut text: Vec<char> = vec!['{', '"', 'p', 'a', 'i', 'r', 's', '"', ':', ' ', '['];
    assert(text@ =~= label() + seq!['[']);
    let mut i: usize = 0;
    assert(models(pairs@).take(0) =~= Seq::<PairModel>::empty());
    assert(text@ =~= label() + seq!['['] + pairs_text(models(pairs@).take(0)));
    while i < pairs.len()
        invariant
            i <= pairs@.len(),
            text@ == label() + seq!['['] + pairs_text(models(pairs@).take(i as int)),
        decreases pairs@.len() - i,
    {
        proof {
            let all = models(pairs@);
            assert(all.take(i + 1).drop_last() =~= all.take(i as int));
            assert(all.take(i + 1).last() == pairs@[i as int]@);
        }
        let ghost before = text@;
        write_pair(&mut text, &pairs[i]);
        assert(text@ =~= label() + seq!['['] + pairs_text(models(pairs@).take(i + 1)));
        i += 1;
    }
    assert(models(pairs@).take(i as int) =~= models(pairs@));
    text.push(']');
    text.push('}');
    assert(text@ =~= file_text(models(pairs@)));
    text
}

} // verus!
