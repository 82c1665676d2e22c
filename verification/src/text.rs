//! Text as a sequence of characters: conversion, comparison, splitting and trimming.
use vstd::prelude::*;

verus! {

/// `String::push` appends one character to the text.
pub assume_specification[ std::string::String::push ](text: &mut std::string::String, c: char)
    ensures
        final(text)@ == old(text)@.push(c),
;

/// The characters of each string of a list.
pub open spec fn texts(list: Seq<String>) -> Seq<Seq<char>> {
    list.map_values(|text: String| text@)
}

/// The characters with Unicode's `White_Space` property.
pub open spec fn is_white_space(c: char) -> bool {
    let code = c as u32;
    ||| 0x9 <= code <= 0xd
    ||| code == 0x20
    ||| code == 0x85
    ||| code == 0xa0
    ||| code == 0x1680
    ||| 0x2000 <= code <= 0x200a
    ||| code == 0x2028
    ||| code == 0x2029
    ||| code == 0x202f
    ||| code == 0x205f
    ||| code == 0x3000
}

/// The text without its leading and trailing white space.
pub open spec fn trimmed(text: Seq<char>) -> Seq<char>
    decreases text.len(),
{
    if text.len() == 0 {
        text
    } else if is_white_space(text.first()) {
        trimmed(text.drop_first())
    } else if is_white_space(text.last()) {
        trimmed(text.drop_last())
    } else {
        text
    }
}

/// The pieces of the text between the occurrences of `separator`: one more than there are
/// separators, so at least one.
pub open spec fn split_on(text: Seq<char>, separator: char) -> Seq<Seq<char>>
    decreases text.len(),
{
    if text.len() == 0 {
        seq![Seq::<char>::empty()]
    } else {
        let before = split_on(text.drop_last(), separator);
        if text.last() == separator {
            before.push(Seq::<char>::empty())
        } else {
            before.update(before.len() - 1, before.last().push(text.last()))
        }
    }
}

/// The pieces joined again, with `separator` between neighbours.
pub open spec fn joined_with(pieces: Seq<Seq<char>>, separator: Seq<char>) -> Seq<char>
    decreases pieces.len(),
{
    if pieces.len() == 0 {
        Seq::empty()
    } else if pieces.len() == 1 {
        pieces[0]
    } else {
        joined_with(pieces.drop_last(), separator) + separator + pieces.last()
    }
}

/// The words of a text: its pieces between spaces, trimmed, without the empty ones.
pub open spec fn words(text: Seq<char>) -> Seq<Seq<char>> {
    split_on(text, ' ').map_values(|piece: Seq<char>| trimmed(piece)).filter(
        |word: Seq<char>| word.len() > 0,
    )
}

/// Whether the text ends in `suffix`.
pub open spec fn ends_with(text: Seq<char>, suffix: Seq<char>) -> bool {
    suffix.len() <= text.len() && text.skip(text.len() - suffix.len()) == suffix
}

/// The characters of a text.
pub fn to_chars(text: &str) -> (chars: Vec<char>)
    ensures
        chars@ == text@,
{
    let mut chars: Vec<char> = Vec::new();
    for c in it: text.chars()
        invariant
            it.seq() == text@,
            chars@ == text@.take(it.index()),
    {
        chars.push(c);
    }
    chars
}

/// The text made of `chars[from..to]`.
pub fn text_of(chars: &Vec<char>, from: usize, to: usize) -> (text: String)
    requires
        from <= to <= chars@.len(),
    ensures
        text@ == chars@.subrange(from as int, to as int),
{
    let mut text = String::new();
    let mut i: usize = from;
    while i < to
        invariant
            from <= i <= to <= chars@.len(),
            text@ == chars@.subrange(from as int, i as int),
        decreases to - i,
    {
        text.push(chars[i]);
        i += 1;
        assert(chars@.subrange(from as int, i as int).drop_last() == chars@.subrange(
            from as int,
            i - 1,
        ));
    }
    text
}

/// Whether two texts are the same.
pub fn same_text(a: &str, b: &str) -> (same: bool)
    ensures
        same == (a@ == b@),
{
    a.to_string() == b.to_string()
}

/// Whether `c` has Unicode's `White_Space` property.
pub fn has_white_space_property(c: char) -> (res: bool)
    ensures
        res == is_white_space(c),
{
    let code: u32 = c as u32;
    (0x9 <= code && code <= 0xd) || code == 0x20 || code == 0x85 || code == 0xa0 || code == 0x1680
        || (0x2000 <= code && code <= 0x200a) || code == 0x2028 || code == 0x2029 || code == 0x202f
        || code == 0x205f || code == 0x3000
}

/// Whether `c` occurs in the text.
pub fn contains_char(text: &str, c: char) -> (found: bool)
    ensures
        found == text@.contains(c),
{
    let chars = to_chars(text);
    let mut i: usize = 0;
    while i < chars.len()
        invariant
            chars@ == text@,
            i <= chars@.len(),
            forall|j: int| 0 <= j < i ==> chars@[j] != c,
        decreases chars@.len() - i,
    {
        if chars[i] == c {
            return true;
        }
        i += 1;
    }
    false
}

/// Whether the text ends in `suffix`.
pub fn has_suffix(text: &str, suffix: &str) -> (res: bool)
    ensures
        res == ends_with(text@, suffix@),
{
    let chars = to_chars(text);
    let tail = to_chars(suffix);
    if tail.len() > chars.len() {
        return false;
    }
    let start: usize = chars.len() - tail.len();
    let mut i: usize = 0;
    while i < tail.len()
        invariant
            chars@ == text@,
            tail@ == suffix@,
            i <= tail.len() <= chars.len(),
            start == chars@.len() - tail@.len(),
            forall|j: int| 0 <= j < i ==> chars@[start + j] == tail@[j],
        decreases tail@.len() - i,
    {
        if chars[start + i] != tail[i] {
            proof {
                assert(text@.skip(start as int)[i as int] != suffix@[i as int]);
            }
            return false;
        }
        i += 1;
    }
    proof {
        assert(text@.skip(start as int) =~= suffix@);
    }
    true
}

/// The pieces of `text` between the occurrences of `separator`.
pub fn split_text(text: &str, separator: char) -> (pieces: Vec<String>)
    ensures
        texts(pieces@) == split_on(text@, separator),
{
    let chars = to_chars(text);
    let mut done: Vec<String> = Vec::new();
    let mut piece = String::new();
    let mut i: usize = 0;
    proof {
        assert(text@.take(0).len() == 0);
        assert(texts(done@).push(piece@) =~= split_on(text@.take(0), separator));
    }
    while i < chars.len()
        invariant
            chars@ == text@,
            i <= chars@.len(),
            texts(done@).push(piece@) == split_on(text@.take(i as int), separator),
        decreases chars@.len() - i,
    {
        let c: char = chars[i];
        let ghost before = texts(done@).push(piece@);
        proof {
            assert(text@.take(i + 1).drop_last() =~= text@.take(i as int));
            assert(text@.take(i + 1).last() == c);
        }
        if c == separator {
            done.push(piece);
            piece = String::new();
            proof {
                assert(texts(done@).push(piece@) =~= before.push(Seq::<char>::empty()));
            }
        } else {
            piece.push(c);
            proof {
                assert(texts(done@).push(piece@) =~= before.update(
                    before.len() - 1,
                    before.last().push(c),
                ));
            }
        }
        i += 1;
    }
    let ghost whole = texts(done@).push(piece@);
    done.push(piece);
    proof {
        assert(text@.take(i as int) =~= text@);
        assert(texts(done@) =~= whole);
    }
    done
}

/// Leading white space does not count towards the trimmed text.
proof fn lemma_trimmed_front(text: Seq<char>, from: int, to: int)
    requires
        0 <= from < to <= text.len(),
        is_white_space(text[from]),
    ensures
        trimmed(text.subrange(from, to)) == trimmed(text.subrange(from + 1, to)),
{
    let rest = text.subrange(from, to);
    assert(rest.first() == text[from]);
    assert(rest.drop_first() =~= text.subrange(from + 1, to));
}

/// Trailing white space behind a text that starts without any does not count either.
proof fn lemma_trimmed_back(text: Seq<char>, from: int, to: int)
    requires
        0 <= from < to <= text.len(),
        !is_white_space(text[from]),
        is_white_space(text[to - 1]),
    ensures
        trimmed(text.subrange(from, to)) == trimmed(text.subrange(from, to - 1)),
{
    let rest = text.subrange(from, to);
    assert(rest.first() == text[from]);
    assert(rest.last() == text[to - 1]);
    assert(rest.drop_last() =~= text.subrange(from, to - 1));
}

/// A text without white space at either end is its own trimmed text.
proof fn lemma_trimmed_done(text: Seq<char>, from: int, to: int)
    requires
        0 <= from <= to <= text.len(),
        from < to ==> !is_white_space(text[from]) && !is_white_space(text[to - 1]),
    ensures
        trimmed(text.subrange(from, to)) == text.subrange(from, to),
{
}

/// The text without its leading and trailing white space.
pub fn trim_text(text: &str) -> (res: String)
    ensures
        res@ == trimmed(text@),
{
    let chars = to_chars(text);
    let mut from: usize = 0;
    let mut to: usize = chars.len();
    let ghost goal = trimmed(chars@);
    proof {
        assert(chars@.subrange(0, to as int) =~= chars@);
    }
    while from < to && has_white_space_property(chars[from])
        invariant
            from <= to == chars@.len(),
            trimmed(chars@.subrange(from as int, to as int)) == goal,
        decreases to - from,
    {
        proof {
            lemma_trimmed_front(chars@, from as int, to as int);
        }
        from += 1;
    }
    while from < to && has_white_space_property(chars[to - 1])
        invariant
            from <= to <= chars@.len(),
            from < to ==> !is_white_space(chars@[from as int]),
            trimmed(chars@.subrange(from as int, to as int)) == goal,
        decreases to - from,
    {
        proof {
            lemma_trimmed_back(chars@, from as int, to as int);
        }
        to -= 1;
    }
    proof {
        lemma_trimmed_done(chars@, from as int, to as int);
    }
    text_of(&chars, from, to)
}

/// The words of a text.
pub fn split_words(text: &str) -> (res: Vec<String>)
    ensures
        texts(res@) == words(text@),
{
    let pieces = split_text(text, ' ');
    let mut res: Vec<String> = Vec::new();
    let mut i: usize = 0;
    let ghost all = split_on(text@, ' ').map_values(|piece: Seq<char>| trimmed(piece));
    let ghost keep = |word: Seq<char>| word.len() > 0;
    proof {
        reveal(Seq::filter);
        assert(texts(res@) =~= all.take(0).filter(keep));
    }
    while i < pieces.len()
        invariant
            texts(pieces@) == split_on(text@, ' '),
            all == split_on(text@, ' ').map_values(|piece: Seq<char>| trimmed(piece)),
            keep == (|word: Seq<char>| word.len() > 0),
            i <= pieces@.len(),
            texts(res@) == all.take(i as int).filter(keep),
        decreases pieces@.len() - i,
    {
        let ghost before = texts(res@);
        let word = trim_text(pieces[i].as_str());
        proof {
            assert(texts(pieces@)[i as int] == pieces@[i as int]@);
            assert(word@ == all[i as int]);
            assert(all.take(i + 1).drop_last() =~= all.take(i as int));
            reveal(Seq::filter);
        }
        if !word.as_str().is_empty() {
            res.push(word);
            proof {
                assert(texts(res@) =~= before.push(all[i as int]));
            }
        }
        i += 1;
    }
    proof {
        assert(all.take(i as int) =~= all);
    }
    res
}

proof fn lemma_split_not_empty(text: Seq<char>, separator: char)
    ensures
        split_on(text, separator).len() > 0,
    decreases text.len(),
{
    if text.len() > 0 {
        lemma_split_not_empty(text.drop_last(), separator);
    }
}

/// A text longer by one character at the end of the last piece joins to a text longer by it.
proof fn lemma_join_longer(pieces: Seq<Seq<char>>, separator: Seq<char>, c: char)
    requires
        pieces.len() > 0,
    ensures
        joined_with(pieces.update(pieces.len() - 1, pieces.last().push(c)), separator)
            == joined_with(pieces, separator).push(c),
{
    let longer = pieces.update(pieces.len() - 1, pieces.last().push(c));
    if pieces.len() > 1 {
        assert(longer.drop_last() =~= pieces.drop_last());
        assert(joined_with(longer, separator) =~= joined_with(pieces, separator).push(c));
    }
}

/// Splitting loses nothing: there is always a piece, no piece holds the separator, and the pieces
/// with the separator between them are the text again.
pub proof fn law_split_pieces_join_to_the_text(text: Seq<char>, separator: char)
    ensures
        split_on(text, separator).len() > 0,
        forall|i: int|
            0 <= i < split_on(text, separator).len() ==> !(#[trigger] split_on(
                text,
                separator,
            )[i]).contains(separator),
        joined_with(split_on(text, separator), seq![separator]) == text,
    decreases text.len(),
{
    let pieces = split_on(text, separator);
    if text.len() == 0 {
        assert(pieces[0] =~= text);
    } else {
        let before = split_on(text.drop_last(), separator);
        law_split_pieces_join_to_the_text(text.drop_last(), separator);
        lemma_split_not_empty(text.drop_last(), separator);
        if text.last() == separator {
            assert(pieces.drop_last() =~= before);
            assert(joined_with(pieces, seq![separator]) =~= text);
        } else {
            lemma_join_longer(before, seq![separator], text.last());
            assert(joined_with(pieces, seq![separator]) =~= text);
            let last = before.last().push(text.last());
            assert(!last.contains(separator)) by {
                if last.contains(separator) {
                    let k = choose|k: int| 0 <= k < last.len() && last[k] == separator;
                    assert(before[before.len() - 1][k] == separator);
                }
            }
            assert forall|i: int| 0 <= i < pieces.len() implies !(#[trigger] pieces[i]).contains(
                separator,
            ) by {
                if i < before.len() - 1 {
                    assert(pieces[i] == before[i]);
                }
            }
        }
    }
}

/// A trimmed text is part of the text, and begins and ends without white space.
pub proof fn law_trimmed_has_bare_ends(text: Seq<char>)
    ensures
        trimmed(text).len() > 0 ==> !is_white_space(trimmed(text).first()) && !is_white_space(
            trimmed(text).last(),
        ),
        forall|c: char| trimmed(text).contains(c) ==> #[trigger] text.contains(c),
    decreases text.len(),
{
    if text.len() == 0 {
    } else if is_white_space(text.first()) {
        law_trimmed_has_bare_ends(text.drop_first());
        assert forall|c: char| trimmed(text).contains(c) implies #[trigger] text.contains(c) by {
            assert(text.drop_first().contains(c));
            let k = choose|k: int| 0 <= k < text.drop_first().len() && text.drop_first()[k] == c;
            assert(text[k + 1] == c);
        }
    } else if is_white_space(text.last()) {
        law_trimmed_has_bare_ends(text.drop_last());
        assert forall|c: char| trimmed(text).contains(c) implies #[trigger] text.contains(c) by {
            assert(text.drop_last().contains(c));
            let k = choose|k: int| 0 <= k < text.drop_last().len() && text.drop_last()[k] == c;
            assert(text[k] == c);
        }
    }
}

/// What a filter keeps was there before.
proof fn lemma_filter_from<A>(all: Seq<A>, keep: spec_fn(A) -> bool)
    ensures
        forall|i: int|
            0 <= i < all.filter(keep).len() ==> keep(#[trigger] all.filter(keep)[i])
                && all.contains(all.filter(keep)[i]),
    decreases all.len(),
{
    reveal(Seq::filter);
    if all.len() > 0 {
        lemma_filter_from(all.drop_last(), keep);
        let less = all.drop_last().filter(keep);
        assert forall|i: int| 0 <= i < all.filter(keep).len() implies keep(
            #[trigger] all.filter(keep)[i],
        ) && all.contains(all.filter(keep)[i]) by {
            if i < less.len() {
                assert(all.filter(keep)[i] == less[i]);
                let k = choose|k: int|
                    0 <= k < all.drop_last().len() && all.drop_last()[k] == less[i];
                assert(all[k] == less[i]);
            } else {
                assert(all[all.len() - 1] == all.filter(keep)[i]);
            }
        }
    }
}

/// A word is never empty, holds no space, and begins and ends without white space.
pub proof fn law_words_are_bare(text: Seq<char>)
    ensures
        forall|i: int|
            0 <= i < words(text).len() ==> {
                let word = #[trigger] words(text)[i];
                &&& word.len() > 0
                &&& !word.contains(' ')
                &&& !is_white_space(word.first())
                &&& !is_white_space(word.last())
            },
{
    let pieces = split_on(text, ' ');
    let all = pieces.map_values(|piece: Seq<char>| trimmed(piece));
    let keep = |word: Seq<char>| word.len() > 0;
    lemma_filter_from(all, keep);
    law_split_pieces_join_to_the_text(text, ' ');
    assert forall|i: int| 0 <= i < words(text).len() implies {
        let word = #[trigger] words(text)[i];
        &&& word.len() > 0
        &&& !word.contains(' ')
        &&& !is_white_space(word.first())
        &&& !is_white_space(word.last())
    } by {
        let word = words(text)[i];
        assert(all.contains(word));
        let k = choose|k: int| 0 <= k < all.len() && all[k] == word;
        law_trimmed_has_bare_ends(pieces[k]);
        assert(word == trimmed(pieces[k]));
        if word.contains(' ') {
            assert(pieces[k].contains(' '));
        }
    }
}

/// A text without the separator is one piece.
pub proof fn lemma_split_whole(text: Seq<char>, separator: char)
    requires
        !text.contains(separator),
    ensures
        split_on(text, separator) == seq![text],
    decreases text.len(),
{
    if text.len() == 0 {
        assert(text =~= Seq::<char>::empty());
        assert(split_on(text, separator) =~= seq![text]);
    } else {
        let before = text.drop_last();
        assert(!before.contains(separator)) by {
            if before.contains(separator) {
                let k = choose|k: int| 0 <= k < before.len() && before[k] == separator;
                assert(text[k] == separator);
            }
        }
        lemma_split_whole(before, separator);
        assert(text.contains(text.last()));
        assert(before.push(text.last()) =~= text);
        assert(split_on(text, separator) =~= seq![text]);
    }
}

/// A text without white space is one word, unless it is empty: then it has none.
pub proof fn law_text_without_white_space_is_one_word(text: Seq<char>)
    requires
        forall|i: int| 0 <= i < text.len() ==> !is_white_space(#[trigger] text[i]),
    ensures
        words(text) == if text.len() == 0 {
            Seq::<Seq<char>>::empty()
        } else {
            seq![text]
        },
{
    let all = split_on(text, ' ').map_values(|piece: Seq<char>| trimmed(piece));
    let keep = |word: Seq<char>| word.len() > 0;
    assert(!text.contains(' ')) by {
        if text.contains(' ') {
            let k = choose|k: int| 0 <= k < text.len() && text[k] == ' ';
            assert(is_white_space(text[k]));
        }
    }
    lemma_split_whole(text, ' ');
    assert(all =~= seq![text]);
    reveal(Seq::filter);
    assert(all.drop_last() =~= Seq::<Seq<char>>::empty());
    assert(all.drop_last().filter(keep) =~= Seq::<Seq<char>>::empty());
    assert(words(text) =~= if text.len() == 0 {
        Seq::<Seq<char>>::empty()
    } else {
        seq![text]
    });
}

/// Of two texts with a separator between them the pieces are those of the first, then those of the
/// second.
pub proof fn law_split_of_joined(first: Seq<char>, second: Seq<char>, separator: char)
    ensures
        split_on(first.push(separator) + second, separator) == split_on(first, separator) + split_on(
            second,
            separator,
        ),
    decreases second.len(),
{
    let whole = first.push(separator) + second;
    let pieces = split_on(first, separator);
    if second.len() == 0 {
        assert(whole =~= first.push(separator));
        assert(whole.drop_last() =~= first);
        assert(split_on(whole, separator) =~= pieces + split_on(second, separator));
    } else {
        let before = second.drop_last();
        law_split_of_joined(first, before, separator);
        law_split_pieces_join_to_the_text(before, separator);
        assert(whole.drop_last() =~= first.push(separator) + before);
        assert(whole.last() == second.last());
        assert(split_on(whole, separator) =~= pieces + split_on(second, separator));
    }
}

/// A text without the separator is one piece, and so is no text at all.
pub proof fn law_text_without_separator_is_one_piece(text: Seq<char>, separator: char)
    requires
        !text.contains(separator),
    ensures
        split_on(text, separator) == seq![text],
{
    lemma_split_whole(text, separator);
}

/// The characters that count as white space, one by one.
pub proof fn law_white_space_characters(c: char)
    ensures
        is_white_space(c) <==> (c == '\t' || c == '\n' || c == '\u{b}' || c == '\u{c}' || c == '\r'
            || c == ' ' || c == '\u{85}' || c == '\u{a0}' || c == '\u{1680}' || c == '\u{2000}' || c
            == '\u{2001}' || c == '\u{2002}' || c == '\u{2003}' || c == '\u{2004}' || c == '\u{2005}'
            || c == '\u{2006}' || c == '\u{2007}' || c == '\u{2008}' || c == '\u{2009}' || c
            == '\u{200a}' || c == '\u{2028}' || c == '\u{2029}' || c == '\u{202f}' || c == '\u{205f}'
            || c == '\u{3000}'),
{
}

/// A list of strings has as many texts as strings, each the characters of its string.
pub proof fn law_texts_in_their_places(list: Seq<String>)
    ensures
        texts(list).len() == list.len(),
        forall|i: int| 0 <= i < list.len() ==> #[trigger] texts(list)[i] == list[i]@,
{
}

/// Trimming takes away the white space around a text and nothing else: what stands between the two
/// stays as it is.
pub proof fn law_trimming_keeps_the_middle(lead: Seq<char>, middle: Seq<char>, trail: Seq<char>)
    requires
        forall|i: int| 0 <= i < lead.len() ==> is_white_space(#[trigger] lead[i]),
        forall|i: int| 0 <= i < trail.len() ==> is_white_space(#[trigger] trail[i]),
        middle.len() > 0 ==> !is_white_space(middle[0]) && !is_white_space(
            middle[middle.len() - 1],
        ),
    ensures
        trimmed(lead + middle + trail) == middle,
    decreases lead.len() + trail.len(),
{
    let text = lead + middle + trail;
    if lead.len() > 0 {
        assert(text.first() == lead[0]);
        assert(text.drop_first() =~= lead.drop_first() + middle + trail);
        assert forall|i: int| 0 <= i < lead.drop_first().len() implies is_white_space(
            #[trigger] lead.drop_first()[i],
        ) by {
            assert(lead.drop_first()[i] == lead[i + 1]);
        }
        law_trimming_keeps_the_middle(lead.drop_first(), middle, trail);
    } else if trail.len() > 0 {
        if middle.len() == 0 {
            assert(text =~= trail);
            assert(text.first() == trail[0]);
            assert(text.drop_first() =~= lead + middle + trail.drop_first());
            assert forall|i: int| 0 <= i < trail.drop_first().len() implies is_white_space(
                #[trigger] trail.drop_first()[i],
            ) by {
                assert(trail.drop_first()[i] == trail[i + 1]);
            }
            law_trimming_keeps_the_middle(lead, middle, trail.drop_first());
        } else {
            assert(text.first() == middle[0]);
            assert(text.last() == trail[trail.len() - 1]);
            assert(text.drop_last() =~= lead + middle + trail.drop_last());
            law_trimming_keeps_the_middle(lead, middle, trail.drop_last());
        }
    } else {
        assert(text =~= middle);
    }
}

/// Joining puts the separator between neighbours and nothing else: no piece joins to nothing, one
/// piece to itself, and two lists of pieces to what each joins to, with the separator between.
pub proof fn law_joining_in_parts(
    first: Seq<Seq<char>>,
    second: Seq<Seq<char>>,
    piece: Seq<char>,
    separator: Seq<char>,
)
    ensures
        joined_with(Seq::empty(), separator) == Seq::<char>::empty(),
        joined_with(seq![piece], separator) == piece,
        first.len() > 0 && second.len() > 0 ==> joined_with(first + second, separator)
            == joined_with(first, separator) + separator + joined_with(second, separator),
    decreases second.len(),
{
    if first.len() > 0 && second.len() > 0 {
        let all = first + second;
        let less = second.drop_last();
        assert(all.last() == second.last());
        assert(all.drop_last() =~= first + less);
        if second.len() == 1 {
            assert(first + less =~= first);
        } else {
            law_joining_in_parts(first, less, piece, separator);
            assert(joined_with(all, separator) =~= joined_with(first, separator) + separator
                + joined_with(second, separator));
        }
    }
}

/// Splitting into words loses none: those of two texts with a space between them are those of the
/// first, then those of the second.
pub proof fn law_words_of_both_sides(first: Seq<char>, second: Seq<char>)
    ensures
        words(first.push(' ') + second) == words(first) + words(second),
{
    let cut = |piece: Seq<char>| trimmed(piece);
    let keep = |word: Seq<char>| word.len() > 0;
    law_split_of_joined(first, second, ' ');
    let a = split_on(first, ' ');
    let b = split_on(second, ' ');
    assert((a + b).map_values(cut) =~= a.map_values(cut) + b.map_values(cut));
    Seq::filter_distributes_over_add(a.map_values(cut), b.map_values(cut), keep);
}

/// What stands between two spaces is one word, whole, without the white space around it; white space
/// alone is none.
pub proof fn law_piece_is_one_word(lead: Seq<char>, word: Seq<char>, trail: Seq<char>)
    requires
        !(lead + word + trail).contains(' '),
        forall|i: int| 0 <= i < lead.len() ==> is_white_space(#[trigger] lead[i]),
        forall|i: int| 0 <= i < trail.len() ==> is_white_space(#[trigger] trail[i]),
        word.len() > 0 ==> !is_white_space(word[0]) && !is_white_space(word[word.len() - 1]),
    ensures
        words(lead + word + trail) == if word.len() == 0 {
            Seq::<Seq<char>>::empty()
        } else {
            seq![word]
        },
{
    let text = lead + word + trail;
    let all = split_on(text, ' ').map_values(|piece: Seq<char>| trimmed(piece));
    let keep = |word: Seq<char>| word.len() > 0;
    lemma_split_whole(text, ' ');
    law_trimming_keeps_the_middle(lead, word, trail);
    assert(all =~= seq![word]);
    reveal(Seq::filter);
    assert(all.drop_last() =~= Seq::<Seq<char>>::empty());
    assert(all.drop_last().filter(keep) =~= Seq::<Seq<char>>::empty());
    assert(all.filter(keep) =~= if word.len() == 0 {
        Seq::<Seq<char>>::empty()
    } else {
        seq![word]
    });
}

/// A text ends in another exactly when it is something followed by the other.
pub proof fn law_end_of_a_text(text: Seq<char>, front: Seq<char>, suffix: Seq<char>)
    ensures
        ends_with(front + suffix, suffix),
        ends_with(text, suffix) ==> suffix.len() <= text.len() && text == text.take(
            text.len() - suffix.len(),
        ) + suffix,
{
    assert((front + suffix).skip(front.len() as int) =~= suffix);
    if ends_with(text, suffix) {
        let n = text.len() - suffix.len();
        assert(text =~= text.take(n) + text.skip(n));
    }
}

} // verus!
