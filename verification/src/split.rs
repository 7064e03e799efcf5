//! Cutting a text at every occurrence of a separator.

use vstd::prelude::*;

verus! {

/// The index of the first `sep` in `s`, or the length of `s` where it holds
/// none.
pub open spec fn first_index(s: Seq<char>, sep: char) -> nat
    decreases s.len(),
{
    if s.len() == 0 || s[0] == sep {
        0
    } else {
        1 + first_index(s.drop_first(), sep)
    }
}

/// The pieces of `s` between the occurrences of `sep`, in order. There is one
/// piece more than there are separators; a piece may be empty.
pub open spec fn split(s: Seq<char>, sep: char) -> Seq<Seq<char>>
    decreases s.len(),
{
    let i = first_index(s, sep) as int;
    if i < s.len() {
        seq![s.take(i)] + split(s.skip(i + 1), sep)
    } else {
        seq![s]
    }
}

/// The pieces that are not empty, in order.
pub open spec fn non_empty(pieces: Seq<Seq<char>>) -> Seq<Seq<char>>
    decreases pieces.len(),
{
    if pieces.len() == 0 {
        Seq::empty()
    } else if pieces.last().len() > 0 {
        non_empty(pieces.drop_last()).push(pieces.last())
    } else {
        non_empty(pieces.drop_last())
    }
}

/// `s` holds no `sep`.
pub open spec fn free_of(s: Seq<char>, sep: char) -> bool {
    forall|i: int| 0 <= i < s.len() ==> #[trigger] s[i] != sep
}

/// What a vector of texts holds.
pub open spec fn texts(v: Seq<Vec<char>>) -> Seq<Seq<char>> {
    Seq::new(v.len(), |i: int| v[i]@)
}

/// Where the first separator is: behind `k` characters that are none.
pub proof fn lemma_first_index(s: Seq<char>, sep: char, k: int)
    requires
        0 <= k <= s.len(),
        free_of(s.take(k), sep),
        k < s.len() ==> s[k] == sep,
    ensures
        first_index(s, sep) == k,
    decreases k,
{
    if k > 0 {
        assert(s.take(k)[0] == s[0]);
        let t = s.drop_first();
        assert forall|i: int| 0 <= i < k - 1 implies #[trigger] t.take(k - 1)[i] != sep by {
            assert(t.take(k - 1)[i] == s.take(k)[i + 1]);
        }
        lemma_first_index(t, sep, k - 1);
    }
}

/// A text without the separator is one piece.
pub proof fn lemma_split_whole(s: Seq<char>, sep: char)
    requires
        free_of(s, sep),
    ensures
        split(s, sep) == seq![s],
{
    assert(s.take(s.len() as int) =~= s);
    lemma_first_index(s, sep, s.len() as int);
}

/// A text with a separator behind a piece without one: that piece comes first,
/// and the pieces of what follows the separator come after it.
pub proof fn lemma_split_first(head: Seq<char>, sep: char, rest: Seq<char>)
    requires
        free_of(head, sep),
    ensures
        split(head + seq![sep] + rest, sep) == seq![head] + split(rest, sep),
{
    let s = head + seq![sep] + rest;
    let k = head.len() as int;
    assert(s.take(k) =~= head);
    assert(s[k] == sep);
    lemma_first_index(s, sep, k);
    assert(s.skip(k + 1) =~= rest);
}

/// The pieces one after another, with `sep` between each two.
pub open spec fn join(pieces: Seq<Seq<char>>, sep: char) -> Seq<char>
    decreases pieces.len(),
{
    if pieces.len() == 0 {
        Seq::empty()
    } else if pieces.len() == 1 {
        pieces[0]
    } else {
        pieces[0] + seq![sep] + join(pieces.drop_first(), sep)
    }
}

/// No piece holds `sep`.
pub open spec fn all_free_of(pieces: Seq<Seq<char>>, sep: char) -> bool {
    forall|i: int| 0 <= i < pieces.len() ==> free_of(#[trigger] pieces[i], sep)
}

/// The first separator stands behind characters that are none.
pub proof fn lemma_first_index_found(s: Seq<char>, sep: char)
    ensures
        first_index(s, sep) <= s.len(),
        free_of(s.take(first_index(s, sep) as int), sep),
        first_index(s, sep) < s.len() ==> s[first_index(s, sep) as int] == sep,
    decreases s.len(),
{
    if s.len() > 0 && s[0] != sep {
        let t = s.drop_first();
        lemma_first_index_found(t, sep);
        let k = first_index(t, sep) as int;
        assert forall|i: int| 0 <= i < k + 1 implies #[trigger] s.take(k + 1)[i] != sep by {
            if i > 0 {
                assert(s.take(k + 1)[i] == t.take(k)[i - 1]);
            }
        }
        if k < t.len() {
            assert(s[k + 1] == t[k]);
        }
    }
}

/// Cutting a text gives at least one piece, no piece holds the separator, and
/// the pieces joined again are the text.
pub proof fn lemma_join_of_split(s: Seq<char>, sep: char)
    ensures
        split(s, sep).len() >= 1,
        all_free_of(split(s, sep), sep),
        join(split(s, sep), sep) == s,
    decreases s.len(),
{
    lemma_first_index_found(s, sep);
    let i = first_index(s, sep) as int;
    if i < s.len() {
        let rest = s.skip(i + 1);
        lemma_join_of_split(rest, sep);
        let pieces = split(s, sep);
        assert(pieces.drop_first() =~= split(rest, sep));
        assert(pieces[0] == s.take(i));
        assert(s.take(i) + seq![sep] + rest =~= s);
        assert forall|k: int| 0 <= k < pieces.len() implies free_of(#[trigger] pieces[k], sep) by {
            if k > 0 {
                assert(pieces[k] == split(rest, sep)[k - 1]);
            }
        }
    } else {
        assert(s.take(i) =~= s);
    }
}

/// Pieces without the separator, joined and cut again, are the same pieces:
/// there is one way only to cut a text into such pieces.
pub proof fn lemma_split_of_join(pieces: Seq<Seq<char>>, sep: char)
    requires
        pieces.len() >= 1,
        all_free_of(pieces, sep),
    ensures
        split(join(pieces, sep), sep) == pieces,
    decreases pieces.len(),
{
    if pieces.len() == 1 {
        lemma_split_whole(pieces[0], sep);
        assert(seq![pieces[0]] =~= pieces);
    } else {
        let rest = pieces.drop_first();
        assert(all_free_of(rest, sep)) by {
            assert forall|i: int| 0 <= i < rest.len() implies free_of(#[trigger] rest[i], sep) by {
                assert(rest[i] == pieces[i + 1]);
            }
        }
        lemma_split_of_join(rest, sep);
        lemma_split_first(pieces[0], sep, join(rest, sep));
        assert(seq![pieces[0]] + rest =~= pieces);
    }
}

/// Dropping the empty pieces of two lists, one list after the other.
pub proof fn lemma_non_empty_concat(a: Seq<Seq<char>>, b: Seq<Seq<char>>)
    ensures
        non_empty(a + b) == non_empty(a) + non_empty(b),
    decreases b.len(),
{
    if b.len() == 0 {
        assert(a + b =~= a);
        assert(non_empty(a) + non_empty(b) =~= non_empty(a));
    } else {
        lemma_non_empty_concat(a, b.drop_last());
        assert((a + b).drop_last() =~= a + b.drop_last());
        assert((a + b).last() == b.last());
        if b.last().len() > 0 {
            assert((non_empty(a) + non_empty(b.drop_last())).push(b.last()) =~= non_empty(a)
                + non_empty(b.drop_last()).push(b.last()));
        }
    }
}

/// Dropping the empty pieces of a list of one.
pub proof fn lemma_non_empty_one(piece: Seq<char>)
    ensures
        non_empty(seq![piece]) == if piece.len() > 0 {
            seq![piece]
        } else {
            Seq::<Seq<char>>::empty()
        },
{
    assert(seq![piece].drop_last() =~= Seq::<Seq<char>>::empty());
    assert(non_empty(Seq::<Seq<char>>::empty()) =~= Seq::<Seq<char>>::empty());
    assert(Seq::<Seq<char>>::empty().push(piece) =~= seq![piece]);
}

/// No piece is empty once the empty pieces are dropped.
pub proof fn lemma_non_empty_len(pieces: Seq<Seq<char>>, i: int)
    requires
        0 <= i < non_empty(pieces).len(),
    ensures
        non_empty(pieces)[i].len() > 0,
    decreases pieces.len(),
{
    if pieces.len() > 0 {
        let rest = non_empty(pieces.drop_last());
        if i < rest.len() {
            lemma_non_empty_len(pieces.drop_last(), i);
        }
    }
}

/// A copy of `text` from the index `from` on.
pub fn copy_from(text: &[char], from: usize) -> (copy: Vec<char>)
    requires
        from <= text@.len(),
    ensures
        copy@ == text@.skip(from as int),
{
    let mut copy: Vec<char> = Vec::new();
    let mut i: usize = from;
    while i < text.len()
        invariant
            from <= i <= text@.len(),
            copy@ == text@.subrange(from as int, i as int),
        decreases text@.len() - i,
    {
        copy.push(text[i]);
        assert(copy@ =~= text@.subrange(from as int, i + 1));
        i += 1;
    }
    assert(copy@ =~= text@.skip(from as int));
    copy
}

/// Cuts `text` at every `sep`.
pub fn split_on(text: &[char], sep: char) -> (pieces: Vec<Vec<char>>)
    ensures
        texts(pieces@) == split(text@, sep),
{
    let mut pieces: Vec<Vec<char>> = Vec::new();
    let mut piece: Vec<char> = Vec::new();
    let mut start: usize = 0;
    let mut i: usize = 0;
    assert(text@.skip(0) =~= text@);
    assert(texts(pieces@) + split(text@, sep) =~= split(text@, sep));
    while i < text.len()
        invariant
            start <= i <= text@.len(),
            piece@ == text@.subrange(start as int, i as int),
            free_of(piece@, sep),
            split(text@, sep) == texts(pieces@) + split(text@.skip(start as int), sep),
        decreases text@.len() - i,
    {
        let c = text[i];
        if c == sep {
            proof {
                let tail = text@.skip(start as int);
                assert(tail.take(i - start) =~= piece@);
                lemma_first_index(tail, sep, i - start);
                assert(tail.skip(i - start + 1) =~= text@.skip(i + 1));
                assert(texts(pieces@.push(piece)) =~= texts(pieces@) + seq![piece@]);
                assert(texts(pieces@) + (seq![piece@] + split(text@.skip(i + 1), sep)) =~= texts(
                    pieces@,
                ) + seq![piece@] + split(text@.skip(i + 1), sep));
            }
            pieces.push(piece);
            piece = Vec::new();
            start = i + 1;
            assert(piece@ =~= text@.subrange(start as int, i + 1));
        } else {
            piece.push(c);
            assert(piece@ =~= text@.subrange(start as int, i + 1));
        }
        i += 1;
    }
    proof {
        assert(text@.skip(start as int) =~= piece@);
        lemma_split_whole(piece@, sep);
        assert(texts(pieces@.push(piece)) =~= texts(pieces@) + seq![piece@]);
    }
    pieces.push(piece);
    pieces
}

/// Cuts `text` at every `sep` and keeps the pieces that are not empty.
pub fn split_non_empty(text: &[char], sep: char) -> (kept: Vec<Vec<char>>)
    ensures
        texts(kept@) == non_empty(split(text@, sep)),
{
    let pieces = split_on(text, sep);
    let mut kept: Vec<Vec<char>> = Vec::new();
    let mut i: usize = 0;
    assert(texts(pieces@).take(0) =~= Seq::<Seq<char>>::empty());
    assert(texts(kept@) =~= Seq::<Seq<char>>::empty());
    while i < pieces.len()
        invariant
            i <= pieces@.len(),
            texts(kept@) == non_empty(texts(pieces@).take(i as int)),
        decreases pieces@.len() - i,
    {
        proof {
            let all = texts(pieces@);
            assert(all.take(i + 1).drop_last() =~= all.take(i as int));
            assert(all.take(i + 1).last() == pieces@[i as int]@);
        }
        if pieces[i].len() > 0 {
            let piece = copy_from(pieces[i].as_slice(), 0);
            assert(piece@ =~= pieces@[i as int]@);
            assert(texts(kept@.push(piece)) =~= texts(kept@).push(piece@));
            kept.push(piece);
        }
        i += 1;
    }
    assert(texts(pieces@).take(i as int) =~= texts(pieces@));
    kept
}

} // verus!
