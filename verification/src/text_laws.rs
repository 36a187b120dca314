//! What holds of texts that are split, joined and written as numbers.

use vstd::prelude::*;

use crate::text::{
    decimal, digit, digits, is_white_space, joined, last_segment, lemma_trimmed_end_is_prefix,
    lemma_trimmed_start_is_suffix, lines_trimmed, split, texts, trimmed, trimmed_end,
    trimmed_start,
};

verus! {

/// A text without the character `sep`.
pub open spec fn free_of(s: Seq<char>, sep: char) -> bool {
    forall|i: int| 0 <= i < s.len() ==> #[trigger] s[i] != sep
}

proof fn lemma_split_has_pieces(s: Seq<char>, sep: char)
    ensures
        split(s, sep).len() > 0,
    decreases s.len(),
{
    if s.len() > 0 {
        lemma_split_has_pieces(s.drop_last(), sep);
    }
}

/// A text without the separator goes to the last piece.
proof fn lemma_split_append(s: Seq<char>, t: Seq<char>, sep: char)
    requires
        free_of(t, sep),
    ensures
        split(s + t, sep) == split(s, sep).drop_last().push(split(s, sep).last() + t),
    decreases t.len(),
{
    let pieces = split(s, sep);
    lemma_split_has_pieces(s, sep);
    if t.len() == 0 {
        assert(s + t =~= s);
        assert(pieces.last() + t =~= pieces.last());
        assert(pieces =~= pieces.drop_last().push(pieces.last() + t));
    } else {
        let shorter = t.drop_last();
        lemma_split_append(s, shorter, sep);
        assert((s + t).drop_last() =~= s + shorter);
        let before = split(s + shorter, sep);
        assert(before.drop_last() =~= pieces.drop_last());
        assert(before.last() == pieces.last() + shorter);
        assert((pieces.last() + shorter).push(t.last()) =~= pieces.last() + t);
    }
}

/// Texts joined by a separator that none of them holds are got back by splitting.
pub proof fn law_split_undoes_join(parts: Seq<Seq<char>>, sep: char)
    requires
        parts.len() > 0,
        forall|i: int| 0 <= i < parts.len() ==> free_of(#[trigger] parts[i], sep),
    ensures
        split(joined(parts, seq![sep]), sep) == parts,
    decreases parts.len(),
{
    let start = parts.drop_last();
    let last = parts.last();
    if parts.len() == 1 {
        assert(joined(start, seq![sep]) =~= Seq::empty());
        let empty = Seq::<char>::empty();
        assert(joined(parts, seq![sep]) =~= empty + last);
        lemma_split_append(empty, last, sep);
        assert(split(empty, sep) =~= seq![empty]);
        assert(empty + last =~= last);
        assert(split(joined(parts, seq![sep]), sep) =~= parts);
    } else {
        assert forall|i: int| 0 <= i < start.len() implies free_of(#[trigger] start[i], sep) by {
            assert(start[i] == parts[i]);
        }
        law_split_undoes_join(start, sep);
        let head = joined(start, seq![sep]) + seq![sep];
        assert(joined(parts, seq![sep]) =~= head + last);
        lemma_split_append(head, last, sep);
        assert(head.drop_last() =~= joined(start, seq![sep]));
        assert(split(head, sep) =~= start.push(Seq::empty()));
        assert(Seq::<char>::empty() + last =~= last);
        assert(split(joined(parts, seq![sep]), sep) =~= parts);
    }
}

/// What follows the last dot of `s`, a dot and `t` is `t`, where `t` holds no dot.
pub proof fn law_last_segment(s: Seq<char>, t: Seq<char>)
    requires
        free_of(t, '.'),
    ensures
        last_segment(s.push('.') + t) == t,
{
    let head = s.push('.');
    lemma_split_append(head, t, '.');
    lemma_split_has_pieces(s, '.');
    assert(head.drop_last() =~= s);
    assert(split(head, '.').last() =~= Seq::empty());
    assert(Seq::<char>::empty() + t =~= t);
}

/// Decimal digits are written with the characters from `0` to `9`.
pub proof fn law_digits_are_digits(n: nat)
    ensures
        digits(n).len() > 0,
        forall|i: int| 0 <= i < digits(n).len() ==> '0' <= #[trigger] digits(n)[i] <= '9',
    decreases n,
{
    if n >= 10 {
        law_digits_are_digits(n / 10);
    }
}

/// Two numbers with the same decimal digits are the same.
pub proof fn law_digits_are_unique(m: nat, n: nat)
    requires
        digits(m) == digits(n),
    ensures
        m == n,
    decreases m,
{
    law_digits_are_digits(m / 10);
    law_digits_are_digits(n / 10);
    if m >= 10 {
        assert(digits(m).drop_last() =~= digits(m / 10));
        assert(digits(m).last() == digit(m % 10));
    } else {
        assert(digits(m).last() == digit(m));
    }
    if n >= 10 {
        assert(digits(n).drop_last() =~= digits(n / 10));
        assert(digits(n).last() == digit(n % 10));
    } else {
        assert(digits(n).last() == digit(n));
    }
    if m >= 10 && n >= 10 {
        law_digits_are_unique(m / 10, n / 10);
    }
}

/// Joining puts one separator between the texts of two lists, leaves a single text as it is, and
/// makes an empty text of no texts.
pub proof fn law_joined(a: Seq<Seq<char>>, b: Seq<Seq<char>>, x: Seq<char>, sep: Seq<char>)
    ensures
        joined(Seq::empty(), sep) == Seq::<char>::empty(),
        joined(seq![x], sep) == x,
        a.len() > 0 && b.len() > 0 ==> joined(a + b, sep) == joined(a, sep) + sep + joined(b, sep),
    decreases b.len(),
{
    let one = seq![x];
    assert(one.drop_last() =~= Seq::empty());
    assert(joined(one.drop_last(), sep) =~= Seq::empty());
    assert(joined(one, sep) =~= x);
    if a.len() > 0 && b.len() > 0 {
        let start = b.drop_last();
        assert((a + b).drop_last() =~= a + start);
        if b.len() == 1 {
            assert(a + start =~= a);
            assert(start =~= Seq::empty());
            assert(joined(b, sep) =~= b.last());
            assert(joined(a + b, sep) =~= joined(a, sep) + sep + joined(b, sep));
        } else {
            law_joined(a, start, x, sep);
            assert(joined(a + b, sep) =~= joined(a, sep) + sep + joined(b, sep));
        }
    }
}

/// The pieces of a text hold no separator, and joined by it they are the text.
pub proof fn law_split(s: Seq<char>, sep: char)
    ensures
        split(s, sep).len() > 0,
        forall|i: int, k: int|
            0 <= i < split(s, sep).len() && 0 <= k < split(s, sep)[i].len() ==> #[trigger] split(
                s,
                sep,
            )[i][k] != sep,
        joined(split(s, sep), seq![sep]) == s,
    decreases s.len(),
{
    let pieces = split(s, sep);
    let none = Seq::<char>::empty();
    if s.len() == 0 {
        law_joined(pieces, pieces, none, seq![sep]);
        assert(pieces =~= seq![none]);
        assert(s =~= none);
    } else {
        let before = split(s.drop_last(), sep);
        law_split(s.drop_last(), sep);
        let start = before.drop_last();
        if s.last() == sep {
            assert forall|i: int, k: int|
                0 <= i < pieces.len() && 0 <= k < pieces[i].len() implies #[trigger] pieces[i][k]
                != sep by {
                assert(pieces[i] == before[i]);
            }
            assert(pieces.drop_last() =~= before);
            assert(joined(pieces, seq![sep]) =~= s);
        } else {
            let piece = before.last().push(s.last());
            assert forall|i: int, k: int|
                0 <= i < pieces.len() && 0 <= k < pieces[i].len() implies #[trigger] pieces[i][k]
                != sep by {
                if i < start.len() {
                    assert(pieces[i] == before[i]);
                } else if k < piece.len() - 1 {
                    assert(before[i][k] != sep);
                }
            }
            assert(pieces.drop_last() =~= start);
            assert(joined(pieces, seq![sep]) =~= joined(before, seq![sep]).push(s.last()));
            assert(joined(pieces, seq![sep]) =~= s);
        }
    }
}

/// What follows the last dot is the end of the text, holds no dot, and is all of the text or
/// follows a dot.
pub proof fn law_last_segment_is_the_end(s: Seq<char>)
    ensures
        ({
            let t = last_segment(s);
            let from = s.len() - t.len();
            &&& 0 <= from
            &&& s.skip(from) == t
            &&& forall|k: int| 0 <= k < t.len() ==> #[trigger] t[k] != '.'
            &&& from > 0 ==> s[from - 1] == '.'
        }),
    decreases s.len(),
{
    lemma_split_has_pieces(s, '.');
    let t = last_segment(s);
    if s.len() > 0 {
        let shorter = s.drop_last();
        law_last_segment_is_the_end(shorter);
        lemma_split_has_pieces(shorter, '.');
        let before = last_segment(shorter);
        if s.last() == '.' {
            assert(t =~= Seq::empty());
            assert(s.skip(s.len() as int) =~= t);
        } else {
            assert(t =~= before.push(s.last()));
            let from = s.len() - t.len();
            assert(s.skip(from) =~= shorter.skip(from).push(s.last()));
            if from > 0 {
                assert(shorter[from - 1] == '.');
            }
        }
    } else {
        assert(t =~= Seq::empty());
        assert(s.skip(0) =~= t);
    }
}

/// White space is tab, line feed, vertical tab, form feed, carriage return and space, and beyond
/// ASCII the next-line character, the no-break and Ogham spaces, the spaces of general
/// punctuation, the line and paragraph separators, and the ideographic space.
pub proof fn law_white_space(c: char)
    ensures
        is_white_space(c) <==> {
            let code = c as int;
            ||| 0x09 <= code <= 0x0d
            ||| code == 0x20
            ||| code == 0x85
            ||| code == 0xa0
            ||| code == 0x1680
            ||| 0x2000 <= code <= 0x200a
            ||| 0x2028 <= code <= 0x2029
            ||| code == 0x202f
            ||| code == 0x205f
            ||| code == 0x3000
        },
{
}

/// Trimming removes all white space around a text that itself neither starts nor ends with any.
pub proof fn law_trimmed(lead: Seq<char>, body: Seq<char>, trail: Seq<char>)
    requires
        forall|i: int| 0 <= i < lead.len() ==> is_white_space(#[trigger] lead[i]),
        forall|i: int| 0 <= i < trail.len() ==> is_white_space(#[trigger] trail[i]),
        body.len() > 0 ==> !is_white_space(body.first()) && !is_white_space(body.last()),
    ensures
        trimmed(lead + body + trail) == body,
{
    let s = lead + body + trail;
    if body.len() == 0 {
        assert forall|i: int| 0 <= i < s.len() implies is_white_space(#[trigger] s[i]) by {
            if i < lead.len() {
                assert(s[i] == lead[i]);
            } else {
                assert(s[i] == trail[i - lead.len()]);
            }
        }
        lemma_trimmed_start_is_suffix(s, s.len() as int);
        assert(s.skip(s.len() as int) =~= Seq::empty());
        assert(trimmed(s) =~= body);
    } else {
        let from = lead.len() as int;
        let rest = body + trail;
        assert forall|i: int| 0 <= i < from implies is_white_space(#[trigger] s[i]) by {
            assert(s[i] == lead[i]);
        }
        assert(s[from] == body.first());
        lemma_trimmed_start_is_suffix(s, from);
        assert(s.skip(from) =~= rest);
        let to = body.len() as int;
        assert forall|i: int| to <= i < rest.len() implies is_white_space(#[trigger] rest[i]) by {
            assert(rest[i] == trail[i - to]);
        }
        assert(rest[to - 1] == body.last());
        lemma_trimmed_end_is_prefix(rest, to);
        assert(rest.take(to) =~= body);
    }
}

proof fn lemma_trimmed_start_free(s: Seq<char>, sep: char)
    requires
        free_of(s, sep),
    ensures
        free_of(trimmed_start(s), sep),
    decreases s.len(),
{
    if s.len() > 0 && is_white_space(s.first()) {
        lemma_trimmed_start_free(s.drop_first(), sep);
    }
}

proof fn lemma_trimmed_end_free(s: Seq<char>, sep: char)
    requires
        free_of(s, sep),
    ensures
        free_of(trimmed_end(s), sep),
    decreases s.len(),
{
    if s.len() > 0 && is_white_space(s.last()) {
        lemma_trimmed_end_free(s.drop_last(), sep);
    }
}

/// Trimming the lines of a text keeps every line, and trims each of them.
pub proof fn law_lines_trimmed(s: Seq<char>)
    ensures
        split(lines_trimmed(s), '\n').len() == split(s, '\n').len(),
        forall|i: int|
            0 <= i < split(s, '\n').len() ==> #[trigger] split(lines_trimmed(s), '\n')[i] == trimmed(
                split(s, '\n')[i],
            ),
{
    let lines = split(s, '\n');
    let kept = lines.map_values(|line: Seq<char>| trimmed(line));
    law_split(s, '\n');
    assert forall|i: int| 0 <= i < kept.len() implies free_of(#[trigger] kept[i], '\n') by {
        assert forall|k: int| 0 <= k < lines[i].len() implies #[trigger] lines[i][k] != '\n' by {
            assert(split(s, '\n')[i][k] != '\n');
        }
        lemma_trimmed_start_free(lines[i], '\n');
        lemma_trimmed_end_free(trimmed_start(lines[i]), '\n');
    }
    law_split_undoes_join(kept, '\n');
}

/// The last decimal digit of a number is its remainder by ten, and the digits before it, where
/// there are any, are those of its tenth.
pub proof fn law_digits(n: nat)
    ensures
        digits(n).len() > 0,
        digits(n).last() as int == 48 + n % 10,
        n < 10 ==> digits(n).len() == 1,
        n >= 10 ==> digits(n).drop_last() == digits(n / 10),
{
    law_digits_are_digits(n);
    if n >= 10 {
        assert(digits(n).drop_last() =~= digits(n / 10));
    }
}

/// A negative number is written as a minus sign and its amount, any other number by its digits.
pub proof fn law_decimal(n: int)
    ensures
        n >= 0 ==> decimal(n) == digits(n as nat),
        n < 0 ==> decimal(n) == seq!['-'] + decimal(-n),
{
}

/// The texts of strings are theirs, one by one.
pub proof fn law_texts(parts: Seq<String>)
    ensures
        texts(parts).len() == parts.len(),
        forall|i: int| 0 <= i < parts.len() ==> #[trigger] texts(parts)[i] == parts[i]@,
{
}

} // verus!
