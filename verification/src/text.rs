//! Character sequences: whitespace, trimming and splitting.
//!
//! Every operation is stated over `Seq<char>`, the view of a string, and
//! implemented on `&str` and `String`.

use vstd::prelude::*;

verus! {

/// `String::push` appends one character to the end of the string and leaves
/// the characters before it as they were.
pub assume_specification[ String::push ](s: &mut String, ch: char)
    ensures
        final(s)@ == old(s)@.push(ch),
;

/// Whether `c` is a whitespace character: one of the code points that carry
/// the Unicode property `White_Space`.
pub open spec fn is_whitespace(c: char) -> bool {
    let n = c as u32;
    ||| 0x09 <= n <= 0x0D
    ||| n == 0x20
    ||| n == 0x85
    ||| n == 0xA0
    ||| n == 0x1680
    ||| 0x2000 <= n <= 0x200A
    ||| n == 0x2028
    ||| n == 0x2029
    ||| n == 0x202F
    ||| n == 0x205F
    ||| n == 0x3000
}

/// Whether `s` holds nothing but whitespace.
pub open spec fn is_blank(s: Seq<char>) -> bool {
    forall|i: int| 0 <= i < s.len() ==> is_whitespace(#[trigger] s[i])
}

/// Whether every character of `s` satisfies `p`.
pub open spec fn every(s: Seq<char>, p: spec_fn(char) -> bool) -> bool {
    forall|i: int| 0 <= i < s.len() ==> p(#[trigger] s[i])
}

/// `s` with its leading whitespace removed.
pub open spec fn without_leading_whitespace(s: Seq<char>) -> Seq<char>
    decreases s.len(),
{
    if s.len() > 0 && is_whitespace(s.first()) {
        without_leading_whitespace(s.drop_first())
    } else {
        s
    }
}

/// `s` with its trailing whitespace removed.
pub open spec fn without_trailing_whitespace(s: Seq<char>) -> Seq<char>
    decreases s.len(),
{
    if s.len() > 0 && is_whitespace(s.last()) {
        without_trailing_whitespace(s.drop_last())
    } else {
        s
    }
}

/// `s` with leading and trailing whitespace removed.
pub open spec fn trimmed(s: Seq<char>) -> Seq<char> {
    without_trailing_whitespace(without_leading_whitespace(s))
}

/// The pieces of `s` between occurrences of `sep`, in order. There is always
/// one piece more than there are separators, so the empty sequence has one
/// empty piece.
pub open spec fn pieces(s: Seq<char>, sep: char) -> Seq<Seq<char>>
    decreases s.len(),
{
    if s.len() == 0 {
        seq![Seq::empty()]
    } else {
        let before = pieces(s.drop_last(), sep);
        if s.last() == sep {
            before.push(Seq::empty())
        } else {
            before.drop_last().push(before.last().push(s.last()))
        }
    }
}

/// The words of `s`: its maximal runs of characters that are not whitespace,
/// in order.
pub open spec fn words(s: Seq<char>) -> Seq<Seq<char>>
    decreases s.len(),
{
    if s.len() == 0 {
        Seq::empty()
    } else {
        let before = words(s.drop_last());
        if is_whitespace(s.last()) {
            before
        } else if s.len() >= 2 && !is_whitespace(s[s.len() - 2]) {
            before.drop_last().push(before.last().push(s.last()))
        } else {
            before.push(seq![s.last()])
        }
    }
}

/// `parts` written one after the other with `sep` between each two.
pub open spec fn joined(parts: Seq<Seq<char>>, sep: Seq<char>) -> Seq<char>
    decreases parts.len(),
{
    if parts.len() == 0 {
        Seq::empty()
    } else if parts.len() == 1 {
        parts[0]
    } else {
        joined(parts.drop_last(), sep) + sep + parts.last()
    }
}

/// Leading whitespace ends at the first character that is not whitespace.
pub proof fn lemma_leading_whitespace(s: Seq<char>, n: int)
    requires
        0 <= n <= s.len(),
        forall|i: int| 0 <= i < n ==> is_whitespace(#[trigger] s[i]),
        n < s.len() ==> !is_whitespace(s[n]),
    ensures
        without_leading_whitespace(s) == s.skip(n),
    decreases n,
{
    if n == 0 {
        assert(s.skip(0) =~= s);
    } else {
        let rest = s.drop_first();
        assert forall|i: int| 0 <= i < n - 1 implies is_whitespace(#[trigger] rest[i]) by {
            assert(rest[i] == s[i + 1]);
        }
        lemma_leading_whitespace(rest, n - 1);
        assert(rest.skip(n - 1) =~= s.skip(n));
    }
}

/// Trailing whitespace begins after the last character that is not
/// whitespace.
pub proof fn lemma_trailing_whitespace(s: Seq<char>, n: int)
    requires
        0 <= n <= s.len(),
        forall|i: int| n <= i < s.len() ==> is_whitespace(#[trigger] s[i]),
        n > 0 ==> !is_whitespace(s[n - 1]),
    ensures
        without_trailing_whitespace(s) == s.take(n),
    decreases s.len() - n,
{
    if n == s.len() {
        assert(s.take(n) =~= s);
    } else {
        let rest = s.drop_last();
        lemma_trailing_whitespace(rest, n);
        assert(rest.take(n) =~= s.take(n));
    }
}

/// Whitespace around a text that begins and ends with other characters is
/// all that trimming removes.
pub proof fn lemma_trimmed_between_whitespace(lead: Seq<char>, s: Seq<char>, trail: Seq<char>)
    requires
        is_blank(lead),
        is_blank(trail),
        s.len() > 0,
        !is_whitespace(s.first()),
        !is_whitespace(s.last()),
    ensures
        trimmed(lead + s + trail) == s,
{
    let whole = lead + s + trail;
    let rest = s + trail;
    assert(whole[lead.len() as int] == s.first());
    assert forall|i: int| 0 <= i < lead.len() implies is_whitespace(#[trigger] whole[i]) by {
        assert(whole[i] == lead[i]);
    }
    lemma_leading_whitespace(whole, lead.len() as int);
    assert(whole.skip(lead.len() as int) =~= rest);
    assert forall|i: int| s.len() <= i < rest.len() implies is_whitespace(#[trigger] rest[i]) by {
        assert(rest[i] == trail[i - s.len()]);
    }
    assert(rest[s.len() - 1] == s.last());
    lemma_trailing_whitespace(rest, s.len() as int);
    assert(rest.take(s.len() as int) =~= s);
}

/// Nothing is left of a text of whitespace when it is trimmed.
pub proof fn lemma_trimmed_whitespace(s: Seq<char>)
    requires
        is_blank(s),
    ensures
        trimmed(s) == Seq::<char>::empty(),
{
    lemma_leading_whitespace(s, s.len() as int);
    assert(s.skip(s.len() as int) =~= Seq::<char>::empty());
}

/// A text without the separator is one piece.
pub proof fn lemma_pieces_of_one(s: Seq<char>, sep: char)
    requires
        !s.contains(sep),
    ensures
        pieces(s, sep) == seq![s],
    decreases s.len(),
{
    if s.len() == 0 {
        assert(s =~= Seq::empty());
    } else {
        let shorter = s.drop_last();
        assert forall|i: int| 0 <= i < shorter.len() implies shorter[i] != sep by {
            assert(shorter[i] == s[i]);
        }
        assert(s.last() == s[s.len() - 1]);
        lemma_pieces_of_one(shorter, sep);
        assert(shorter.push(s.last()) =~= s);
        assert(seq![shorter].drop_last().push(seq![shorter].last().push(s.last())) =~= seq![s]);
    }
}

/// A separator and a text without separators add one piece.
pub proof fn lemma_pieces_of_one_more(s: Seq<char>, sep: char, piece: Seq<char>)
    requires
        !piece.contains(sep),
    ensures
        pieces(s + seq![sep] + piece, sep) == pieces(s, sep).push(piece),
    decreases piece.len(),
{
    let whole = s + seq![sep] + piece;
    if piece.len() == 0 {
        assert(whole.drop_last() =~= s);
        assert(piece =~= Seq::empty());
    } else {
        let shorter = piece.drop_last();
        assert forall|i: int| 0 <= i < shorter.len() implies shorter[i] != sep by {
            assert(shorter[i] == piece[i]);
        }
        assert(piece.last() == piece[piece.len() - 1]);
        lemma_pieces_of_one_more(s, sep, shorter);
        assert(whole.drop_last() =~= s + seq![sep] + shorter);
        let before = pieces(s, sep).push(shorter);
        assert(shorter.push(piece.last()) =~= piece);
        assert(before.drop_last().push(before.last().push(piece.last())) =~= pieces(s, sep).push(
            piece,
        ));
    }
}

/// Whitespace at the end of a text adds no word.
pub proof fn lemma_words_before_whitespace(s: Seq<char>, space: Seq<char>)
    requires
        is_blank(space),
    ensures
        words(s + space) == words(s),
    decreases space.len(),
{
    if space.len() == 0 {
        assert(s + space =~= s);
    } else {
        let shorter = space.drop_last();
        assert forall|i: int| 0 <= i < shorter.len() implies is_whitespace(#[trigger] shorter[i]) by {
            assert(shorter[i] == space[i]);
        }
        lemma_words_before_whitespace(s, shorter);
        assert((s + space).drop_last() =~= s + shorter);
        assert((s + space).last() == space[space.len() - 1]);
    }
}

/// A run of other characters after whitespace, or at the beginning, is one
/// more word.
pub proof fn lemma_words_of_one_more(s: Seq<char>, word: Seq<char>)
    requires
        s.len() == 0 || is_whitespace(s.last()),
        word.len() > 0,
        forall|i: int| 0 <= i < word.len() ==> !is_whitespace(#[trigger] word[i]),
    ensures
        words(s + word) == words(s).push(word),
    decreases word.len(),
{
    let whole = s + word;
    let shorter = word.drop_last();
    assert(whole.drop_last() =~= s + shorter);
    assert(whole.last() == word[word.len() - 1]);
    if word.len() == 1 {
        assert(s + shorter =~= s);
        assert(seq![word.last()] =~= word);
    } else {
        assert forall|i: int| 0 <= i < shorter.len() implies !is_whitespace(
            #[trigger] shorter[i],
        ) by {
            assert(shorter[i] == word[i]);
        }
        lemma_words_of_one_more(s, shorter);
        assert(whole[whole.len() - 2] == word[word.len() - 2]);
        let before = words(s).push(shorter);
        assert(shorter.push(word.last()) =~= word);
        assert(before.drop_last().push(before.last().push(word.last())) =~= words(s).push(word));
    }
}

/// Removing leading whitespace brings in no character.
pub proof fn lemma_without_leading_whitespace_keeps(s: Seq<char>, p: spec_fn(char) -> bool)
    requires
        every(s, p),
    ensures
        every(without_leading_whitespace(s), p),
    decreases s.len(),
{
    if s.len() > 0 && is_whitespace(s.first()) {
        let rest = s.drop_first();
        assert forall|i: int| 0 <= i < rest.len() implies p(#[trigger] rest[i]) by {
            assert(rest[i] == s[i + 1]);
        }
        lemma_without_leading_whitespace_keeps(rest, p);
    }
}

/// Removing trailing whitespace brings in no character.
pub proof fn lemma_without_trailing_whitespace_keeps(s: Seq<char>, p: spec_fn(char) -> bool)
    requires
        every(s, p),
    ensures
        every(without_trailing_whitespace(s), p),
    decreases s.len(),
{
    if s.len() > 0 && is_whitespace(s.last()) {
        let rest = s.drop_last();
        assert forall|i: int| 0 <= i < rest.len() implies p(#[trigger] rest[i]) by {
            assert(rest[i] == s[i]);
        }
        lemma_without_trailing_whitespace_keeps(rest, p);
    }
}

/// Trimming brings in no character: what holds of every character of a
/// text holds of every character of the trimmed text.
pub proof fn lemma_trimmed_keeps(s: Seq<char>, p: spec_fn(char) -> bool)
    requires
        every(s, p),
    ensures
        every(trimmed(s), p),
{
    lemma_without_leading_whitespace_keeps(s, p);
    lemma_without_trailing_whitespace_keeps(without_leading_whitespace(s), p);
}

/// Cutting a text into pieces brings in no character, and gives at least
/// one piece.
pub proof fn lemma_pieces_keep(s: Seq<char>, sep: char, p: spec_fn(char) -> bool)
    requires
        every(s, p),
    ensures
        pieces(s, sep).len() > 0,
        forall|i: int| 0 <= i < pieces(s, sep).len() ==> every(#[trigger] pieces(s, sep)[i], p),
    decreases s.len(),
{
    if s.len() > 0 {
        let rest = s.drop_last();
        assert forall|i: int| 0 <= i < rest.len() implies p(#[trigger] rest[i]) by {
            assert(rest[i] == s[i]);
        }
        lemma_pieces_keep(rest, sep, p);
        assert(p(s[s.len() - 1]));
    }
}

/// Cutting a text into words brings in no character, and gives at least one
/// word where the text ends with a character that is not whitespace.
pub proof fn lemma_words_keep(s: Seq<char>, p: spec_fn(char) -> bool)
    requires
        every(s, p),
    ensures
        s.len() > 0 && !is_whitespace(s.last()) ==> words(s).len() > 0,
        forall|i: int| 0 <= i < words(s).len() ==> every(#[trigger] words(s)[i], p),
    decreases s.len(),
{
    if s.len() > 0 {
        let rest = s.drop_last();
        assert forall|i: int| 0 <= i < rest.len() implies p(#[trigger] rest[i]) by {
            assert(rest[i] == s[i]);
        }
        lemma_words_keep(rest, p);
        assert(p(s[s.len() - 1]));
        if s.len() >= 2 {
            assert(rest.last() == s[s.len() - 2]);
        }
    }
}

/// Whether `c` is a whitespace character.
pub fn char_is_whitespace(c: char) -> (b: bool)
    ensures
        b == is_whitespace(c),
{
    let n: u32 = c as u32;
    (0x09 <= n && n <= 0x0D) || n == 0x20 || n == 0x85 || n == 0xA0 || n == 0x1680 || (0x2000 <= n
        && n <= 0x200A) || n == 0x2028 || n == 0x2029 || n == 0x202F || n == 0x205F || n == 0x3000
}

/// The characters of a string slice, in order.
fn chars_of(s: &str) -> (chars: Vec<char>)
    ensures
        chars@ == s@,
{
    let mut chars: Vec<char> = Vec::new();
    for c in it: s.chars()
        invariant
            it.seq() == s@,
            chars@ == s@.take(it.index()),
    {
        chars.push(c);
    }
    chars
}

/// The string made of the characters of `chars` from index `from` up to,
/// not including, index `to`.
fn string_of(chars: &Vec<char>, from: usize, to: usize) -> (s: String)
    requires
        from <= to <= chars.len(),
    ensures
        s@ == chars@.subrange(from as int, to as int),
{
    let mut s = String::new();
    let mut i: usize = from;
    while i < to
        invariant
            from <= i <= to <= chars.len(),
            s@ == chars@.subrange(from as int, i as int),
        decreases to - i,
    {
        s.push(chars[i]);
        i += 1;
    }
    s
}

/// A copy of `s` without its leading and trailing whitespace.
pub fn trim(s: &str) -> (t: String)
    ensures
        t@ == trimmed(s@),
{
    let chars = chars_of(s);
    let mut start: usize = 0;
    while start < chars.len() && char_is_whitespace(chars[start])
        invariant
            start <= chars.len(),
            forall|i: int| 0 <= i < start ==> is_whitespace(#[trigger] chars@[i]),
        decreases chars.len() - start,
    {
        start += 1;
    }
    let mut end: usize = chars.len();
    while end > start && char_is_whitespace(chars[end - 1])
        invariant
            start <= end <= chars.len(),
            forall|i: int| end <= i < chars.len() ==> is_whitespace(#[trigger] chars@[i]),
        decreases end - start,
    {
        end -= 1;
    }
    proof {
        let rest = chars@.skip(start as int);
        lemma_leading_whitespace(chars@, start as int);
        assert forall|i: int| end - start <= i < rest.len() implies is_whitespace(
            #[trigger] rest[i],
        ) by {
            assert(rest[i] == chars@[i + start]);
        }
        lemma_trailing_whitespace(rest, end - start);
        assert(rest.take(end - start) =~= chars@.subrange(start as int, end as int));
    }
    string_of(&chars, start, end)
}

/// The pieces of `s` between occurrences of `sep`.
pub fn split(s: &str, sep: char) -> (parts: Vec<String>)
    ensures
        parts.deep_view() == pieces(s@, sep),
{
    let mut parts: Vec<String> = Vec::new();
    let mut current = String::new();
    for c in it: s.chars()
        invariant
            it.seq() == s@,
            pieces(s@.take(it.index()), sep) == parts.deep_view().push(current@),
    {
        let ghost done = parts.deep_view();
        let ghost piece = current@;
        assert(s@.take(it.index() + 1).drop_last() =~= s@.take(it.index()));
        if c == sep {
            parts.push(current);
            current = String::new();
            assert(parts.deep_view() =~= done.push(piece));
        } else {
            current.push(c);
            assert(done.push(piece).drop_last() =~= done);
        }
    }
    let ghost done = parts.deep_view();
    let ghost piece = current@;
    parts.push(current);
    assert(s@.take(s@.len() as int) =~= s@);
    assert(parts.deep_view() =~= done.push(piece));
    parts
}

/// The words of `s`: its maximal runs of characters that are not whitespace.
pub fn split_whitespace(s: &str) -> (found: Vec<String>)
    ensures
        found.deep_view() == words(s@),
{
    let mut found: Vec<String> = Vec::new();
    let mut word = String::new();
    let mut in_word = false;
    for c in it: s.chars()
        invariant
            it.seq() == s@,
            in_word <==> it.index() > 0 && !is_whitespace(s@[it.index() - 1]),
            !in_word ==> word@.len() == 0,
            words(s@.take(it.index())) == if in_word {
                found.deep_view().push(word@)
            } else {
                found.deep_view()
            },
    {
        let ghost done = found.deep_view();
        let ghost run = word@;
        let ghost seen = s@.take(it.index() + 1);
        assert(seen.drop_last() =~= s@.take(it.index()));
        assert(seen.last() == c);
        assert(it.index() > 0 ==> seen[seen.len() - 2] == s@[it.index() - 1]);
        if char_is_whitespace(c) {
            assert(words(seen) == words(seen.drop_last()));
            if in_word {
                found.push(word);
                word = String::new();
                in_word = false;
                assert(found.deep_view() =~= done.push(run));
            }
        } else {
            word.push(c);
            if in_word {
                assert(done.push(run).drop_last() =~= done);
                assert(words(seen) == done.push(run.push(c)));
            } else {
                assert(run.push(c) =~= seq![c]);
                assert(words(seen) == done.push(seq![c]));
            }
            in_word = true;
        }
    }
    assert(s@.take(s@.len() as int) =~= s@);
    if in_word {
        let ghost done = found.deep_view();
        let ghost run = word@;
        found.push(word);
        assert(found.deep_view() =~= done.push(run));
    }
    found
}

} // verus!
