//! The shape of a pairs file, and what the parser makes of a text of that
//! shape: blanks count nowhere, nothing counts before the array opens or
//! behind its end, and the objects of the array give one pair each, in
//! order.

use crate::fields::{parse_fields, PairModel, ParseError};
use crate::parser::{
    is_ignored,
    joined,
    lemma_run_concat,
    lemma_run_one,
    parse_text,
    Machine,
    ParseState,
};
use crate::split::free_of;
use vstd::prelude::*;

verus! {

/// The text without its spaces and line feeds.
pub open spec fn stripped(text: Seq<char>) -> Seq<char>
    decreases text.len(),
{
    if text.len() == 0 {
        Seq::empty()
    } else if is_ignored(text.last()) {
        stripped(text.drop_last())
    } else {
        stripped(text.drop_last()).push(text.last())
    }
}

/// An object: its body between braces.
pub open spec fn object_text(body: Seq<char>) -> Seq<char> {
    seq!['{'] + body + seq!['}']
}

/// What may stand between the objects of the array: anything but an opening
/// brace and the closing bracket.
pub open spec fn is_gap(text: Seq<char>) -> bool {
    free_of(text, '{') && free_of(text, ']')
}

/// The inside of the array: the objects with the bodies `bodies`, in order,
/// with `gaps[i]` before the object `i` and the last gap behind the last
/// object.
pub open spec fn array_text(gaps: Seq<Seq<char>>, bodies: Seq<Seq<char>>) -> Seq<char>
    recommends
        gaps.len() == bodies.len() + 1,
    decreases bodies.len(),
{
    if bodies.len() == 0 {
        gaps[0]
    } else {
        array_text(gaps.drop_last(), bodies.drop_last()) + object_text(bodies.last()) + gaps.last()
    }
}

/// A whole file: the array between brackets, with any text before it that
/// opens no array, and any text behind it.
pub open spec fn document(
    prefix: Seq<char>,
    gaps: Seq<Seq<char>>,
    bodies: Seq<Seq<char>>,
    suffix: Seq<char>,
) -> Seq<char> {
    prefix + seq!['['] + array_text(gaps, bodies) + seq![']'] + suffix
}

/// The parts are those of a file: a gap before each object and one behind the
/// last, no closing brace inside a body, no opening bracket in the prefix.
pub open spec fn well_shaped(
    prefix: Seq<char>,
    gaps: Seq<Seq<char>>,
    bodies: Seq<Seq<char>>,
) -> bool {
    &&& free_of(prefix, '[')
    &&& gaps.len() == bodies.len() + 1
    &&& forall|i: int| 0 <= i < gaps.len() ==> is_gap(#[trigger] gaps[i])
    &&& forall|i: int| 0 <= i < bodies.len() ==> free_of(#[trigger] bodies[i], '}')
}

/// The pairs of the objects with the bodies `bodies`, in order, or the error
/// of the first body that stands for no pair.
pub open spec fn read_objects(bodies: Seq<Seq<char>>) -> Result<Seq<PairModel>, ParseError>
    decreases bodies.len(),
{
    if bodies.len() == 0 {
        Ok(Seq::empty())
    } else {
        match read_objects(bodies.drop_last()) {
            Err(e) => Err(e),
            Ok(pairs) => match parse_fields(stripped(bodies.last())) {
                Ok(pair) => Ok(pairs.push(pair)),
                Err(e) => Err(e),
            },
        }
    }
}

/// The automaton runs over a text as over the text without its blanks.
pub proof fn lemma_run_stripped(m: Machine, text: Seq<char>)
    ensures
        m.run(text) == m.run(stripped(text)),
    decreases text.len(),
{
    if text.len() > 0 {
        lemma_run_stripped(m, text.drop_last());
        if !is_ignored(text.last()) {
            assert(stripped(text).drop_last() =~= stripped(text.drop_last()));
        }
    }
}

/// Blanks do not count: two texts that are the same without their spaces and
/// line feeds parse to the same result.
pub proof fn lemma_blanks_do_not_count(a: Seq<char>, b: Seq<char>)
    requires
        stripped(a) == stripped(b),
    ensures
        parse_text(a) == parse_text(b),
{
    lemma_run_stripped(Machine::start(), a);
    lemma_run_stripped(Machine::start(), b);
}

/// The text without blanks of two texts, one behind the other.
pub proof fn lemma_stripped_concat(a: Seq<char>, b: Seq<char>)
    ensures
        stripped(a + b) == stripped(a) + stripped(b),
    decreases b.len(),
{
    if b.len() == 0 {
        assert(a + b =~= a);
        assert(stripped(a) + stripped(b) =~= stripped(a));
    } else {
        assert((a + b).drop_last() =~= a + b.drop_last());
        lemma_stripped_concat(a, b.drop_last());
        assert((a + b).last() == b.last());
        if !is_ignored(b.last()) {
            assert((stripped(a) + stripped(b.drop_last())).push(b.last()) =~= stripped(a)
                + stripped(b.drop_last()).push(b.last()));
        }
    }
}

/// A text without blanks is left as it is.
pub proof fn lemma_stripped_clean(s: Seq<char>)
    requires
        forall|i: int| 0 <= i < s.len() ==> !is_ignored(#[trigger] s[i]),
    ensures
        stripped(s) == s,
    decreases s.len(),
{
    if s.len() > 0 {
        assert forall|i: int| 0 <= i < s.drop_last().len() implies !is_ignored(
            #[trigger] s.drop_last()[i],
        ) by {
            assert(s.drop_last()[i] == s[i]);
        }
        lemma_stripped_clean(s.drop_last());
        assert(s.last() == s[s.len() - 1]);
        assert(s.drop_last().push(s.last()) =~= s);
    } else {
        assert(stripped(s) =~= s);
    }
}

/// The lines, each with a line feed behind it, as one text.
pub open spec fn with_line_feeds(lines: Seq<String>) -> Seq<char>
    decreases lines.len(),
{
    if lines.len() == 0 {
        Seq::empty()
    } else {
        with_line_feeds(lines.drop_last()) + lines.last()@ + seq!['\n']
    }
}

/// Where the lines are cut does not count: lines given without their line
/// feeds parse as the text they were cut from.
pub proof fn lemma_line_feeds_do_not_count(lines: Seq<String>)
    ensures
        stripped(joined(lines)) == stripped(with_line_feeds(lines)),
        parse_text(joined(lines)) == parse_text(with_line_feeds(lines)),
    decreases lines.len(),
{
    if lines.len() > 0 {
        let front = lines.drop_last();
        lemma_line_feeds_do_not_count(front);
        lemma_stripped_concat(joined(front), lines.last()@);
        lemma_stripped_concat(with_line_feeds(front), lines.last()@);
        lemma_stripped_concat(with_line_feeds(front) + lines.last()@, seq!['\n']);
        assert(stripped(seq!['\n']) =~= Seq::<char>::empty()) by {
            assert(seq!['\n'].drop_last() =~= Seq::<char>::empty());
            assert(stripped(Seq::<char>::empty()) =~= Seq::<char>::empty());
        }
        assert(stripped(with_line_feeds(lines)) =~= stripped(joined(lines)));
    }
    lemma_blanks_do_not_count(joined(lines), with_line_feeds(lines));
}

/// Before the array opens, whatever opens none leaves the automaton where it
/// started.
pub proof fn lemma_run_prefix(prefix: Seq<char>)
    requires
        free_of(prefix, '['),
    ensures
        Machine::start().run(prefix) == Machine::start(),
    decreases prefix.len(),
{
    if prefix.len() > 0 {
        assert(free_of(prefix.drop_last(), '[')) by {
            assert forall|i: int| 0 <= i < prefix.drop_last().len() implies 
                #[trigger] prefix.drop_last()[i] != '[' by {
                assert(prefix.drop_last()[i] == prefix[i]);
            }
        }
        lemma_run_prefix(prefix.drop_last());
        assert(prefix.last() == prefix[prefix.len() - 1]);
    }
}

/// Text before the array does not count: a text parses as it does behind any
/// prefix that holds no opening bracket.
pub proof fn lemma_prefix_does_not_count(prefix: Seq<char>, text: Seq<char>)
    requires
        free_of(prefix, '['),
    ensures
        parse_text(prefix + text) == parse_text(text),
{
    lemma_run_prefix(prefix);
    lemma_run_concat(Machine::start(), prefix, text);
}

/// An automaton that has stopped, at the end of the array or on an error,
/// takes no notice of what follows.
pub proof fn lemma_run_stopped(m: Machine, text: Seq<char>)
    requires
        m.state == ParseState::Done || m.failure is Some,
    ensures
        m.run(text) == m,
    decreases text.len(),
{
    if text.len() > 0 {
        lemma_run_stopped(m, text.drop_last());
    }
}

/// Text behind the array does not count: once a text has closed its array,
/// it parses the same with anything behind it, brackets and braces too.
pub proof fn lemma_suffix_does_not_count(text: Seq<char>, suffix: Seq<char>)
    requires
        Machine::start().run(text).state == ParseState::Done,
    ensures
        parse_text(text + suffix) == parse_text(text),
{
    lemma_run_concat(Machine::start(), text, suffix);
    lemma_run_stopped(Machine::start().run(text), suffix);
}

/// Between objects, a gap changes nothing.
pub proof fn lemma_run_gap(m: Machine, gap: Seq<char>)
    requires
        m.in_array(),
        is_gap(gap),
    ensures
        m.run(gap) == m,
    decreases gap.len(),
{
    if gap.len() > 0 {
        let front = gap.drop_last();
        assert(is_gap(front)) by {
            assert forall|i: int| 0 <= i < front.len() implies #[trigger] front[i] != '{' by {
                assert(front[i] == gap[i]);
            }
            assert forall|i: int| 0 <= i < front.len() implies #[trigger] front[i] != ']' by {
                assert(front[i] == gap[i]);
            }
        }
        lemma_run_gap(m, front);
        assert(gap.last() == gap[gap.len() - 1]);
    }
}

/// Inside an object, the body without its blanks is added to the buffer.
pub proof fn lemma_run_body(m: Machine, body: Seq<char>)
    requires
        m.state == ParseState::InObject,
        m.failure is None,
        free_of(body, '}'),
    ensures
        m.run(body) == (Machine { buffer: m.buffer + stripped(body), ..m }),
    decreases body.len(),
{
    if body.len() == 0 {
        assert(m.buffer + stripped(body) =~= m.buffer);
    } else {
        let front = body.drop_last();
        assert(free_of(front, '}')) by {
            assert forall|i: int| 0 <= i < front.len() implies #[trigger] front[i] != '}' by {
                assert(front[i] == body[i]);
            }
        }
        lemma_run_body(m, front);
        assert(body.last() == body[body.len() - 1]);
        if is_ignored(body.last()) {
        } else {
            assert((m.buffer + stripped(front)).push(body.last()) =~= m.buffer + stripped(body));
        }
    }
}

/// The automaton after one object, from between objects.
pub open spec fn after_object(m: Machine, body: Seq<char>) -> Machine {
    match parse_fields(stripped(body)) {
        Ok(pair) => Machine {
            state: ParseState::BetweenObjects,
            buffer: Seq::empty(),
            pairs: m.pairs.push(pair),
            failure: None,
        },
        Err(e) => Machine {
            state: ParseState::InObject,
            buffer: Seq::empty(),
            pairs: m.pairs,
            failure: Some(e),
        },
    }
}

/// Between objects, an object adds its pair, or stops the automaton with its
/// error.
pub proof fn lemma_run_object(m: Machine, body: Seq<char>)
    requires
        m.in_array(),
        m.failure is None,
        m.buffer.len() == 0,
        free_of(body, '}'),
    ensures
        m.run(object_text(body)) == after_object(m, body),
{
    let opened = Machine { state: ParseState::InObject, ..m };
    lemma_run_one(m, '{');
    lemma_run_concat(m, seq!['{'], body);
    lemma_run_body(opened, body);
    let filled = Machine { buffer: m.buffer + stripped(body), ..opened };
    assert(m.buffer + stripped(body) =~= stripped(body));
    lemma_run_concat(m, seq!['{'] + body, seq!['}']);
    lemma_run_one(filled, '}');
}

/// The automaton after the inside of an array, from the opening bracket.
pub open spec fn after_objects(bodies: Seq<Seq<char>>) -> Machine {
    match read_objects(bodies) {
        Ok(pairs) => Machine {
            state: if bodies.len() == 0 {
                ParseState::InArray
            } else {
                ParseState::BetweenObjects
            },
            buffer: Seq::empty(),
            pairs,
            failure: None,
        },
        Err(e) => Machine {
            state: ParseState::InObject,
            buffer: Seq::empty(),
            pairs: pairs_before_error(bodies),
            failure: Some(e),
        },
    }
}

/// The pairs of the objects before the first that stands for none.
pub open spec fn pairs_before_error(bodies: Seq<Seq<char>>) -> Seq<PairModel>
    decreases bodies.len(),
{
    if bodies.len() == 0 {
        Seq::empty()
    } else {
        match read_objects(bodies.drop_last()) {
            Ok(pairs) => pairs,
            Err(_) => pairs_before_error(bodies.drop_last()),
        }
    }
}

/// The automaton runs through the inside of an array object by object.
pub proof fn lemma_run_array(gaps: Seq<Seq<char>>, bodies: Seq<Seq<char>>)
    requires
        well_shaped(Seq::empty(), gaps, bodies),
    ensures
        (Machine { state: ParseState::InArray, ..Machine::start() }).run(array_text(gaps, bodies))
            == after_objects(bodies),
    decreases bodies.len(),
{
    let opened = Machine { state: ParseState::InArray, ..Machine::start() };
    if bodies.len() == 0 {
        assert(is_gap(gaps[0]));
        lemma_run_gap(opened, gaps[0]);
    } else {
        let front_gaps = gaps.drop_last();
        let front = bodies.drop_last();
        assert(well_shaped(Seq::empty(), front_gaps, front)) by {
            assert forall|i: int| 0 <= i < front_gaps.len() implies is_gap(
                #[trigger] front_gaps[i],
            ) by {
                assert(front_gaps[i] == gaps[i]);
            }
            assert forall|i: int| 0 <= i < front.len() implies free_of(#[trigger] front[i], '}') by {
                assert(front[i] == bodies[i]);
            }
        }
        lemma_run_array(front_gaps, front);
        let before = array_text(front_gaps, front);
        let object = object_text(bodies.last());
        lemma_run_concat(opened, before + object, gaps.last());
        lemma_run_concat(opened, before, object);
        let m = after_objects(front);
        assert(bodies.last() == bodies[bodies.len() - 1]);
        assert(gaps.last() == gaps[gaps.len() - 1]);
        assert(is_gap(gaps.last()));
        if m.failure is Some {
            lemma_run_stopped(m, object);
            lemma_run_stopped(m, gaps.last());
        } else {
            lemma_run_object(m, bodies.last());
            let n = after_object(m, bodies.last());
            if n.failure is Some {
                lemma_run_stopped(n, gaps.last());
            } else {
                lemma_run_gap(n, gaps.last());
            }
        }
    }
}

/// Objects that are all read give one pair each, in their order.
pub proof fn lemma_read_objects_in_order(bodies: Seq<Seq<char>>)
    ensures
        read_objects(bodies) matches Ok(pairs) ==> {
            &&& pairs.len() == bodies.len()
            &&& forall|i: int|
                0 <= i < bodies.len() ==> parse_fields(stripped(#[trigger] bodies[i])) == Ok::<
                    PairModel,
                    ParseError,
                >(pairs[i])
        },
        read_objects(bodies) is Ok <==> forall|i: int|
            0 <= i < bodies.len() ==> parse_fields(stripped(#[trigger] bodies[i])) is Ok,
    decreases bodies.len(),
{
    if bodies.len() > 0 {
        let front = bodies.drop_last();
        lemma_read_objects_in_order(front);
        assert(bodies.last() == bodies[bodies.len() - 1]);
        if read_objects(bodies) is Ok {
            let pairs = read_objects(bodies)->Ok_0;
            assert forall|i: int| 0 <= i < bodies.len() implies parse_fields(
                stripped(#[trigger] bodies[i]),
            ) == Ok::<PairModel, ParseError>(pairs[i]) by {
                if i < front.len() {
                    assert(front[i] == bodies[i]);
                }
            }
        } else if read_objects(front) is Ok {
        } else {
            let i = choose|i: int|
                0 <= i < front.len() && !(parse_fields(stripped(#[trigger] front[i])) is Ok);
            assert(front[i] == bodies[i]);
        }
        if forall|i: int|
            0 <= i < bodies.len() ==> parse_fields(stripped(#[trigger] bodies[i])) is Ok {
            assert forall|i: int| 0 <= i < front.len() implies parse_fields(
                stripped(#[trigger] front[i]),
            ) is Ok by {
                assert(front[i] == bodies[i]);
            }
        }
    }
}

/// A file of N objects parses to N pairs in the order of the file, or to the
/// error of its first object that stands for no pair; the text before the
/// array and the text behind it do not count.
pub proof fn lemma_parse_document(
    prefix: Seq<char>,
    gaps: Seq<Seq<char>>,
    bodies: Seq<Seq<char>>,
    suffix: Seq<char>,
)
    requires
        well_shaped(prefix, gaps, bodies),
    ensures
        parse_text(document(prefix, gaps, bodies, suffix)) == read_objects(bodies),
        read_objects(bodies) matches Ok(pairs) ==> {
            &&& pairs.len() == bodies.len()
            &&& forall|i: int|
                0 <= i < bodies.len() ==> parse_fields(stripped(#[trigger] bodies[i])) == Ok::<
                    PairModel,
                    ParseError,
                >(pairs[i])
        },
{
    let inside = array_text(gaps, bodies);
    let start = Machine::start();
    let opened = Machine { state: ParseState::InArray, ..start };
    lemma_read_objects_in_order(bodies);
    lemma_run_prefix(prefix);
    lemma_run_one(start, '[');
    lemma_run_concat(start, prefix, seq!['[']);
    lemma_run_concat(start, prefix + seq!['['], inside);
    assert(well_shaped(Seq::empty(), gaps, bodies));
    lemma_run_array(gaps, bodies);
    let m = after_objects(bodies);
    lemma_run_concat(start, prefix + seq!['['] + inside, seq![']']);
    lemma_run_one(m, ']');
    lemma_run_concat(start, prefix + seq!['['] + inside + seq![']'], suffix);
    lemma_run_stopped(m.step(']'), suffix);
}

} // verus!
