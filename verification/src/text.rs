//! Text as sequences of characters: white space, words, joining, trimming, decimal numbers.

use vstd::prelude::*;

verus! {

/// An optional text as its characters.
pub open spec fn text_view(text: Option<String>) -> Option<Seq<char>> {
    match text {
        Some(t) => Some(t@),
        None => None,
    }
}

/// The characters with the Unicode property `White_Space`.
pub open spec fn white_space(c: char) -> bool {
    let u = c as u32;
    ||| 0x9 <= u <= 0xd
    ||| u == 0x20
    ||| u == 0x85
    ||| u == 0xa0
    ||| u == 0x1680
    ||| 0x2000 <= u <= 0x200a
    ||| u == 0x2028
    ||| u == 0x2029
    ||| u == 0x202f
    ||| u == 0x205f
    ||| u == 0x3000
}

/// Whether `c` has the Unicode property `White_Space`.
pub fn is_white_space(c: char) -> (res: bool)
    ensures
        res == white_space(c),
{
    let u: u32 = c as u32;
    (0x9 <= u && u <= 0xd) || u == 0x20 || u == 0x85 || u == 0xa0 || u == 0x1680 || (0x2000 <= u
        && u <= 0x200a) || u == 0x2028 || u == 0x2029 || u == 0x202f || u == 0x205f || u == 0x3000
}

/// Nothing but white space.
pub open spec fn blank(s: Seq<char>) -> bool {
    forall|i: int| 0 <= i < s.len() ==> white_space(#[trigger] s[i])
}

/// `s` without the white space at its two ends.
pub open spec fn trimmed(s: Seq<char>) -> Seq<char>
    decreases s.len(),
{
    if s.len() == 0 {
        s
    } else if white_space(s.first()) {
        trimmed(s.drop_first())
    } else if white_space(s.last()) {
        trimmed(s.drop_last())
    } else {
        s
    }
}

/// Whether a word of `s` is still open at its end: whether its last character belongs to one.
pub open spec fn ends_in_word(s: Seq<char>) -> bool {
    s.len() > 0 && !white_space(s.last())
}

/// The words of `s`, in order: its longest stretches without white space.
///
/// A character that is not white space lengthens the word before it, or begins a new one
/// where white space or nothing is before it.
pub open spec fn words(s: Seq<char>) -> Seq<Seq<char>>
    decreases s.len(),
{
    if s.len() == 0 {
        Seq::empty()
    } else {
        let before = words(s.drop_last());
        if white_space(s.last()) {
            before
        } else if ends_in_word(s.drop_last()) {
            before.drop_last().push(before.last().push(s.last()))
        } else {
            before.push(seq![s.last()])
        }
    }
}

/// The parts one after the other, with `separator` between neighbours.
pub open spec fn joined(parts: Seq<Seq<char>>, separator: Seq<char>) -> Seq<char>
    decreases parts.len(),
{
    if parts.len() == 0 {
        Seq::empty()
    } else if parts.len() == 1 {
        parts[0]
    } else {
        joined(parts.drop_last(), separator) + separator + parts.last()
    }
}

/// The number of characters in `s` that precede its last word, where one is open.
pub open spec fn word_start(s: Seq<char>) -> int
    decreases s.len(),
{
    if ends_in_word(s) {
        word_start(s.drop_last())
    } else {
        s.len() as int
    }
}

proof fn lemma_word_start(s: Seq<char>)
    ensures
        0 <= word_start(s) <= s.len(),
        ends_in_word(s) ==> {
            &&& word_start(s) < s.len()
            &&& words(s).len() > 0
            &&& words(s).last() == s.skip(word_start(s))
            &&& words(s).drop_last() == words(s.take(word_start(s)))
        },
    decreases s.len(),
{
    if ends_in_word(s) {
        let before = s.drop_last();
        lemma_word_start(before);
        let start = word_start(s);
        assert(s.take(start) == before.take(start));
        if ends_in_word(before) {
            assert(s.skip(start) == before.skip(start).push(s.last()));
        } else {
            assert(s.skip(start) == seq![s.last()]);
            assert(before.take(start) == before);
        }
    }
}

/// The words of `s`: its longest stretches without white space, in order.
pub fn split_words(s: &str) -> (res: Vec<String>)
    ensures
        res.deep_view() == words(s@),
{
    let len: usize = s.unicode_len();
    let mut res: Vec<String> = Vec::new();
    let mut start: usize = 0;
    let mut at: usize = 0;
    for c in it: s.chars()
        invariant
            it.seq() == s@,
            len == s@.len(),
            at == it.index() <= len,
            start == word_start(s@.take(at as int)) <= at,
            res.deep_view() == words(s@.take(start as int)),
    {
        let ghost seen = s@.take(at as int);
        proof {
            assert(s@.take(at + 1) == seen.push(c));
            assert(seen.push(c).drop_last() == seen);
            lemma_word_start(seen);
            lemma_word_start(seen.push(c));
        }
        if is_white_space(c) {
            if start < at {
                assert(ends_in_word(seen));
                assert(seen.take(start as int) == s@.take(start as int));
                assert(seen.skip(start as int) == s@.subrange(start as int, at as int));
                let ghost found = res.deep_view();
                res.push(s.substring_char(start, at).to_owned());
                assert(res.deep_view() == found.push(s@.subrange(start as int, at as int)));
                assert(words(seen) == words(seen).drop_last().push(words(seen).last()));
            }
            start = at + 1;
        }
        at = at + 1;
    }
    assert(s@.take(at as int) == s@);
    proof {
        lemma_word_start(s@);
    }
    if start < at {
        let ghost found = res.deep_view();
        res.push(s.substring_char(start, at).to_owned());
        assert(res.deep_view() == found.push(s@.skip(start as int)));
        assert(words(s@) == words(s@).drop_last().push(words(s@).last()));
    }
    res
}

/// The parts one after the other, with `separator` between neighbours.
pub fn join(parts: &Vec<String>, separator: &str) -> (res: String)
    ensures
        res@ == joined(parts.deep_view(), separator@),
{
    let mut res: String = String::new();
    let ghost all = parts.deep_view();
    for i in 0..parts.len()
        invariant
            all == parts.deep_view(),
            res@ == joined(all.take(i as int), separator@),
    {
        assert(all.take(i + 1).drop_last() == all.take(i as int));
        if i > 0 {
            res.append(separator);
        }
        res.append(parts[i].as_str());
        assert(all[i as int] == parts[i as int]@);
        if i == 0 {
            assert(res@ == all[0]);
        }
    }
    assert(all.take(all.len() as int) == all);
    res
}

/// Whether `s` is empty or nothing but white space.
pub fn is_blank(s: &str) -> (res: bool)
    ensures
        res == blank(s@),
{
    for c in it: s.chars()
        invariant
            it.seq() == s@,
            forall|i: int| 0 <= i < it.index() ==> white_space(#[trigger] s@[i]),
    {
        if !is_white_space(c) {
            assert(s@[it.index() as int] == c);
            return false;
        }
    }
    true
}

/// The characters of `s`.
pub(crate) fn chars_of(s: &str) -> (res: Vec<char>)
    ensures
        res@ == s@,
{
    let mut res: Vec<char> = Vec::new();
    for c in it: s.chars()
        invariant
            it.seq() == s@,
            res@ == s@.take(it.index() as int),
    {
        res.push(c);
        assert(res@ == s@.take(it.index() + 1));
    }
    assert(s@.take(s@.len() as int) == s@);
    res
}

/// Whether two texts are the same.
pub fn same_text(a: &str, b: &str) -> (res: bool)
    ensures
        res == (a@ == b@),
{
    a.to_owned() == b.to_owned()
}

/// Trimming removes white space and nothing else: a blank text leaves nothing, and any other
/// leaves what lies between its first and its last character that is not white space.
proof fn lemma_trimmed(s: Seq<char>, from: int, to: int)
    requires
        0 <= from <= to <= s.len(),
        blank(s.take(from)),
        blank(s.skip(to)),
        from < to ==> !white_space(s[from]) && !white_space(s[to - 1]),
    ensures
        trimmed(s) == s.subrange(from, to),
    decreases s.len(),
{
    if s.len() == 0 {
    } else if from > 0 {
        let rest = s.drop_first();
        assert(s.take(from)[0] == s.first());
        assert forall|i: int| 0 <= i < from - 1 implies white_space(
            #[trigger] rest.take(from - 1)[i],
        ) by {
            assert(s.take(from)[i + 1] == rest.take(from - 1)[i]);
        }
        assert(rest.skip(to - 1) == s.skip(to));
        lemma_trimmed(rest, from - 1, to - 1);
        assert(rest.subrange(from - 1, to - 1) == s.subrange(from, to));
    } else if to == 0 {
        let rest = s.drop_first();
        assert(s.skip(to)[0] == s.first());
        assert forall|i: int| 0 <= i < rest.len() implies white_space(#[trigger] rest.skip(0)[i]) by {
            assert(s.skip(0)[i + 1] == rest.skip(0)[i]);
        }
        assert(rest.take(0).len() == 0);
        lemma_trimmed(rest, 0, 0);
        assert(rest.subrange(0, 0) == s.subrange(0, 0));
    } else if to < s.len() {
        let rest = s.drop_last();
        assert(s.skip(to)[s.len() - 1 - to] == s.last());
        assert forall|i: int| 0 <= i < rest.len() - to implies white_space(
            #[trigger] rest.skip(to)[i],
        ) by {
            assert(s.skip(to)[i] == rest.skip(to)[i]);
        }
        assert(rest.take(0).len() == 0);
        lemma_trimmed(rest, 0, to);
        assert(rest.subrange(0, to) == s.subrange(0, to));
    } else {
        assert(s.subrange(from, to) == s);
    }
}

/// Trimming leaves nothing of a blank text, and something of any other.
pub proof fn lemma_trimmed_is_empty(s: Seq<char>)
    ensures
        trimmed(s).len() == 0 <==> blank(s),
    decreases s.len(),
{
    if s.len() == 0 {
    } else if white_space(s.first()) {
        let rest = s.drop_first();
        lemma_trimmed_is_empty(rest);
        if blank(rest) {
            assert forall|i: int| 0 <= i < s.len() implies white_space(#[trigger] s[i]) by {
                if i > 0 {
                    assert(white_space(rest[i - 1]));
                }
            }
        } else if blank(s) {
            assert forall|i: int| 0 <= i < rest.len() implies white_space(#[trigger] rest[i]) by {
                assert(white_space(s[i + 1]));
            }
        }
    } else {
        assert(!white_space(s[0]));
        if white_space(s.last()) {
            let rest = s.drop_last();
            assert(!white_space(rest[0]));
            lemma_trimmed_is_empty(rest);
        }
    }
}

/// Trimming a second time changes nothing.
pub proof fn lemma_trimmed_twice(s: Seq<char>)
    ensures
        trimmed(trimmed(s)) == trimmed(s),
    decreases s.len(),
{
    if s.len() == 0 {
    } else if white_space(s.first()) {
        lemma_trimmed_twice(s.drop_first());
    } else if white_space(s.last()) {
        lemma_trimmed_twice(s.drop_last());
    }
}

/// `s` without the white space at its two ends.
pub fn trim(s: &str) -> (res: String)
    ensures
        res@ == trimmed(s@),
{
    let len: usize = s.unicode_len();
    let mut from: usize = 0;
    let mut to: usize = 0;
    let mut at: usize = 0;
    for c in it: s.chars()
        invariant
            it.seq() == s@,
            len == s@.len(),
            at == it.index() <= len,
            from <= to <= at,
            blank(s@.take(from as int)),
            forall|i: int| to <= i < at ==> white_space(#[trigger] s@[i]),
            from < to ==> !white_space(s@[from as int]) && !white_space(s@[to - 1]),
            from == to ==> from == 0,
    {
        if !is_white_space(c) {
            if from == to {
                assert forall|i: int| 0 <= i < at implies white_space(
                    #[trigger] s@.take(at as int)[i],
                ) by {
                    assert(white_space(s@[i]));
                }
                from = at;
            }
            to = at + 1;
        }
        at = at + 1;
    }
    proof {
        assert forall|i: int| 0 <= i < len - to implies white_space(
            #[trigger] s@.skip(to as int)[i],
        ) by {
            assert(white_space(s@[to + i]));
        }
        lemma_trimmed(s@, from as int, to as int);
    }
    s.substring_char(from, to).to_owned()
}

/// The decimal digit for `d`.
pub open spec fn digit(d: nat) -> char {
    (0x30 + d) as char
}

/// `n` in decimal, without leading zeros.
pub open spec fn decimal(n: nat) -> Seq<char>
    decreases n,
{
    if n < 10 {
        seq![digit(n)]
    } else {
        decimal(n / 10).push(digit(n % 10))
    }
}

/// No two numbers are written alike.
pub proof fn law_decimal_tells_numbers_apart(m: nat, n: nat)
    requires
        decimal(m) == decimal(n),
    ensures
        m == n,
    decreases m,
{
    let last = decimal(m).last();
    assert(last == digit(m % 10) && last == digit(n % 10));
    lemma_decimal_length(m);
    lemma_decimal_length(n);
    if m >= 10 && n >= 10 {
        assert(decimal(m).drop_last() == decimal(m / 10));
        assert(decimal(n).drop_last() == decimal(n / 10));
        law_decimal_tells_numbers_apart(m / 10, n / 10);
    }
}

proof fn lemma_decimal_length(n: nat)
    ensures
        decimal(n).len() >= 1,
        n >= 10 ==> decimal(n).len() >= 2,
    decreases n,
{
    if n >= 10 {
        lemma_decimal_length(n / 10);
    }
}

/// The decimal digit for `d`, as a text of one character.
fn digit_text(d: usize) -> (res: &'static str)
    requires
        d < 10,
    ensures
        res@ == seq![digit(d as nat)],
{
    proof {
        reveal_strlit("0");
        reveal_strlit("1");
        reveal_strlit("2");
        reveal_strlit("3");
        reveal_strlit("4");
        reveal_strlit("5");
        reveal_strlit("6");
        reveal_strlit("7");
        reveal_strlit("8");
        reveal_strlit("9");
    }
    match d {
        0 => "0",
        1 => "1",
        2 => "2",
        3 => "3",
        4 => "4",
        5 => "5",
        6 => "6",
        7 => "7",
        8 => "8",
        _ => "9",
    }
}

/// `n` in decimal.
pub fn decimal_text(n: usize) -> (res: String)
    ensures
        res@ == decimal(n as nat),
    decreases n,
{
    if n < 10 {
        digit_text(n).to_owned()
    } else {
        let mut res: String = decimal_text(n / 10);
        res.append(digit_text(n % 10));
        res
    }
}

/// `s`, filled up with blanks on the right to `width` characters where it is shorter.
pub open spec fn left_aligned(s: Seq<char>, width: nat) -> Seq<char> {
    s + Seq::new(
        if s.len() < width {
            (width - s.len()) as nat
        } else {
            0
        },
        |i: int| ' ',
    )
}

/// `s`, filled up with blanks on the right to `width` characters where it is shorter.
pub fn align_left(s: &str, width: usize) -> (res: String)
    ensures
        res@ == left_aligned(s@, width as nat),
{
    let mut res: String = s.to_owned();
    let mut len: usize = s.unicode_len();
    proof {
        reveal_strlit(" ");
    }
    while len < width
        invariant
            s@.len() <= len,
            len <= width || len == s@.len(),
            res@ == s@ + Seq::new((len - s@.len()) as nat, |i: int| ' '),
            " "@ == seq![' '],
        decreases width - len,
    {
        res.append(" ");
        len = len + 1;
        assert(res@ == s@ + Seq::new((len - s@.len()) as nat, |i: int| ' '));
    }
    res
}

/// `s`, filled up with zeros on the left to `width` characters where it is shorter.
pub open spec fn zero_filled(s: Seq<char>, width: nat) -> Seq<char> {
    Seq::new(
        if s.len() < width {
            (width - s.len()) as nat
        } else {
            0
        },
        |i: int| '0',
    ) + s
}

/// `n` in decimal, filled up with zeros on the left to `width` digits where it has fewer.
pub fn decimal_filled(n: usize, width: usize) -> (res: String)
    ensures
        res@ == zero_filled(decimal(n as nat), width as nat),
{
    let digits: String = decimal_text(n);
    let mut len: usize = digits.as_str().unicode_len();
    let mut res: String = String::new();
    proof {
        reveal_strlit("0");
    }
    while len < width
        invariant
            digits@.len() <= len,
            len <= width || len == digits@.len(),
            res@ == Seq::new((len - digits@.len()) as nat, |i: int| '0'),
            "0"@ == seq!['0'],
        decreases width - len,
    {
        res.append("0");
        len = len + 1;
        assert(res@ == Seq::new((len - digits@.len()) as nat, |i: int| '0'));
    }
    res.append(digits.as_str());
    res
}

/// ASCII characters only.
pub open spec fn ascii(s: Seq<char>) -> bool {
    forall|i: int| 0 <= i < s.len() ==> (#[trigger] s[i] as u32) < 0x80
}

/// `c` with an ASCII capital letter made small.
pub open spec fn ascii_small(c: char) -> char {
    if 'A' <= c <= 'Z' {
        (c as u32 + 0x20) as char
    } else {
        c
    }
}

/// `s` with the ASCII capital letters made small.
pub open spec fn ascii_lowercase(s: Seq<char>) -> Seq<char> {
    s.map_values(|c: char| ascii_small(c))
}

/// `c` with an ASCII small letter made capital.
pub open spec fn ascii_capital(c: char) -> char {
    if 'a' <= c <= 'z' {
        (c as u32 - 0x20) as char
    } else {
        c
    }
}

/// `s` with the ASCII small letters made capital.
pub open spec fn ascii_uppercase(s: Seq<char>) -> Seq<char> {
    s.map_values(|c: char| ascii_capital(c))
}

/// What `str::to_lowercase` makes of a text.
pub uninterp spec fn unicode_lowercase(s: Seq<char>) -> Seq<char>;

/// `s` in lower case: the ASCII letters one by one where there is nothing else, and Unicode's
/// lower case, with its rules that look at neighbours, where there is.
pub open spec fn lowercased(s: Seq<char>) -> Seq<char> {
    if ascii(s) {
        ascii_lowercase(s)
    } else {
        unicode_lowercase(s)
    }
}

/// Calls `str::to_lowercase`.
///
/// Claimed of it: on a text of ASCII characters it makes the letters `A` to `Z` small and leaves
/// the others as they are; on any other text the result is a function of the text, which has
/// the name `unicode_lowercase` here and of which nothing else is said.
#[verifier::external_body]
pub(crate) fn lowercase(s: &str) -> (res: String)
    ensures
        ascii(s@) ==> res@ == ascii_lowercase(s@),
        !ascii(s@) ==> res@ == unicode_lowercase(s@),
{
    s.to_lowercase()
}

/// Words joined by single blanks.
pub open spec fn collapsed(s: Seq<char>) -> Seq<char> {
    joined(words(s), seq![' '])
}

/// A word: not empty, and without white space.
pub open spec fn is_word(w: Seq<char>) -> bool {
    &&& w.len() > 0
    &&& forall|i: int| 0 <= i < w.len() ==> !white_space(#[trigger] w[i])
}

/// The words of a text are words, and hold between them the characters of the text that are
/// not white space, in their order.
pub proof fn law_words_hold_the_text(s: Seq<char>)
    ensures
        forall|k: int| 0 <= k < words(s).len() ==> is_word(#[trigger] words(s)[k]),
        joined(words(s), Seq::empty()) == s.filter(|c: char| !white_space(c)),
    decreases s.len(),
{
    reveal(Seq::filter);
    let none = Seq::<char>::empty();
    if s.len() > 0 {
        let before = s.drop_last();
        law_words_hold_the_text(before);
        lemma_word_start(before);
        let ws = words(before);
        if !white_space(s.last()) {
            let kept = words(s);
            if ends_in_word(before) {
                assert(kept.drop_last() == ws.drop_last());
                assert(kept.last() == ws.last().push(s.last()));
                assert forall|k: int| 0 <= k < kept.len() implies is_word(#[trigger] kept[k]) by {
                    assert(is_word(ws[k]));
                    if k < ws.len() - 1 {
                        assert(kept[k] == ws[k]);
                    }
                }
            } else {
                assert(kept.drop_last() == ws);
                assert forall|k: int| 0 <= k < kept.len() implies is_word(#[trigger] kept[k]) by {
                    if k < ws.len() {
                        assert(is_word(ws[k]));
                    }
                }
            }
            assert(joined(kept, none) == joined(ws, none).push(s.last()));
        }
    }
}

/// The words of two texts put together are those of the one followed by those of the other,
/// unless the seam runs through a word.
proof fn lemma_words_of_sum(a: Seq<char>, b: Seq<char>)
    requires
        !ends_in_word(a) || b.len() == 0 || white_space(b.first()),
    ensures
        words(a + b) == words(a) + words(b),
    decreases b.len(),
{
    if b.len() == 0 {
        assert(a + b == a);
    } else {
        let rest = b.drop_last();
        lemma_words_of_sum(a, rest);
        lemma_word_start(rest);
        assert((a + b).drop_last() == a + rest);
        if rest.len() == 0 {
            assert(a + rest == a);
        } else {
            assert((a + rest).last() == rest.last());
        }
    }
}

proof fn lemma_blank_has_no_words(s: Seq<char>)
    requires
        blank(s),
    ensures
        words(s).len() == 0,
    decreases s.len(),
{
    if s.len() > 0 {
        assert(white_space(s[s.len() - 1]));
        assert forall|i: int| 0 <= i < s.len() - 1 implies white_space(
            #[trigger] s.drop_last()[i],
        ) by {
            assert(white_space(s[i]));
        }
        lemma_blank_has_no_words(s.drop_last());
    }
}

/// White space before and after a text adds no words to it and takes none away.
pub proof fn law_words_ignore_padding(left: Seq<char>, s: Seq<char>, right: Seq<char>)
    requires
        blank(left),
        blank(right),
    ensures
        words(left + s + right) == words(s),
{
    lemma_blank_has_no_words(left);
    lemma_blank_has_no_words(right);
    if left.len() > 0 {
        assert(white_space(left[left.len() - 1]));
    }
    if right.len() > 0 {
        assert(white_space(right[0]));
    }
    lemma_words_of_sum(left, s);
    lemma_words_of_sum(left + s, right);
}

/// Trimming a text keeps its words.
pub proof fn law_trimming_keeps_words(s: Seq<char>)
    ensures
        words(trimmed(s)) == words(s),
    decreases s.len(),
{
    let none = Seq::<char>::empty();
    if s.len() == 0 {
    } else if white_space(s.first()) {
        let rest = s.drop_first();
        law_trimming_keeps_words(rest);
        law_words_ignore_padding(seq![s.first()], rest, none);
        assert(seq![s.first()] + rest + none == s);
    } else if white_space(s.last()) {
        let rest = s.drop_last();
        law_trimming_keeps_words(rest);
        law_words_ignore_padding(none, rest, seq![s.last()]);
        assert(none + rest + seq![s.last()] == s);
    }
}

/// Any white space separates words as well as any other, and as much of it as any other amount.
pub proof fn law_words_ignore_width_of_gaps(a: Seq<char>, gap: Seq<char>, b: Seq<char>)
    requires
        blank(gap),
        gap.len() > 0,
    ensures
        words(a + gap + b) == words(a) + words(b),
{
    lemma_blank_has_no_words(gap);
    assert(white_space(gap[0]));
    assert(white_space(gap[gap.len() - 1]));
    lemma_words_of_sum(a, gap);
    assert((a + gap).last() == gap.last());
    lemma_words_of_sum(a + gap, b);
}

proof fn lemma_words_of_word(w: Seq<char>)
    requires
        is_word(w),
    ensures
        words(w) == seq![w],
    decreases w.len(),
{
    let rest = w.drop_last();
    assert(!white_space(w[w.len() - 1]));
    if rest.len() == 0 {
        assert(words(rest).len() == 0);
        assert(words(w) == seq![seq![w.last()]]);
        assert(w == seq![w.last()]);
    } else {
        assert forall|i: int| 0 <= i < rest.len() implies !white_space(#[trigger] rest[i]) by {
            assert(rest[i] == w[i]);
        }
        lemma_words_of_word(rest);
        assert(!white_space(rest[rest.len() - 1]));
        assert(words(w) == seq![rest.push(w.last())]);
        assert(w == rest.push(w.last()));
    }
}

proof fn lemma_words_of_joined(ws: Seq<Seq<char>>)
    requires
        forall|k: int| 0 <= k < ws.len() ==> is_word(#[trigger] ws[k]),
    ensures
        words(joined(ws, seq![' '])) == ws,
    decreases ws.len(),
{
    if ws.len() == 0 {
    } else if ws.len() == 1 {
        assert(is_word(ws[0]));
        lemma_words_of_word(ws[0]);
        assert(ws == seq![ws[0]]);
    } else {
        let rest = ws.drop_last();
        assert forall|k: int| 0 <= k < rest.len() implies is_word(#[trigger] rest[k]) by {
            assert(rest[k] == ws[k]);
        }
        lemma_words_of_joined(rest);
        assert(is_word(ws[ws.len() - 1]));
        lemma_words_of_word(ws.last());
        law_words_ignore_width_of_gaps(joined(rest, seq![' ']), seq![' '], ws.last());
        assert(rest + seq![ws.last()] == ws);
    }
}

/// Collapsing white space keeps the words of a text, so doing it again changes nothing.
pub proof fn law_collapsing_keeps_words(s: Seq<char>)
    ensures
        words(collapsed(s)) == words(s),
        collapsed(collapsed(s)) == collapsed(s),
{
    law_words_hold_the_text(s);
    lemma_words_of_joined(words(s));
}

proof fn lemma_text_has_words(s: Seq<char>)
    requires
        !blank(s),
    ensures
        words(s).len() > 0,
    decreases s.len(),
{
    lemma_word_start(s);
    if !ends_in_word(s) {
        let rest = s.drop_last();
        if blank(rest) {
            assert forall|i: int| 0 <= i < s.len() implies white_space(#[trigger] s[i]) by {
                if i < rest.len() {
                    assert(white_space(rest[i]));
                }
            }
        }
        lemma_text_has_words(rest);
    }
}

proof fn lemma_joined_of_sum(a: Seq<Seq<char>>, b: Seq<Seq<char>>, separator: Seq<char>)
    requires
        a.len() > 0,
        b.len() > 0,
    ensures
        joined(a + b, separator) == joined(a, separator) + separator + joined(b, separator),
    decreases b.len(),
{
    let rest = b.drop_last();
    assert((a + b).drop_last() == a + rest);
    if rest.len() == 0 {
        assert(a + rest == a);
    } else {
        lemma_joined_of_sum(a, rest, separator);
        assert(joined(a, separator) + separator + joined(rest, separator) + separator + b.last()
            == joined(a, separator) + separator + (joined(rest, separator) + separator
            + b.last()));
    }
}

/// Collapsing leaves nothing of a blank text, and something of any other.
pub proof fn law_collapsing_empties_blank_texts(s: Seq<char>)
    ensures
        collapsed(s).len() == 0 <==> blank(s),
{
    if blank(s) {
        lemma_blank_has_no_words(s);
    } else {
        lemma_text_has_words(s);
        law_words_hold_the_text(s);
        let ws = words(s);
        assert(is_word(ws[ws.len() - 1]));
    }
}

/// Two texts with white space between them collapse to what each of them collapses to, with one
/// blank between.
pub proof fn law_collapsing_makes_a_gap_one_blank(a: Seq<char>, gap: Seq<char>, b: Seq<char>)
    requires
        !blank(a),
        !blank(b),
        blank(gap),
        gap.len() > 0,
    ensures
        collapsed(a + gap + b) == collapsed(a) + seq![' '] + collapsed(b),
{
    law_words_ignore_width_of_gaps(a, gap, b);
    lemma_text_has_words(a);
    lemma_text_has_words(b);
    lemma_joined_of_sum(words(a), words(b), seq![' ']);
}

proof fn lemma_words_of_ascii_lowercase(s: Seq<char>)
    ensures
        words(ascii_lowercase(s)) == words(s).map_values(|w: Seq<char>| ascii_lowercase(w)),
    decreases s.len(),
{
    let small = ascii_lowercase(s);
    if s.len() > 0 {
        let before = s.drop_last();
        lemma_words_of_ascii_lowercase(before);
        lemma_word_start(before);
        assert(small.drop_last() == ascii_lowercase(before));
        assert(small.last() == ascii_small(s.last()));
        assert(white_space(small.last()) == white_space(s.last()));
        if before.len() > 0 {
            assert(ascii_lowercase(before).last() == ascii_small(before.last()));
        }
        assert(ends_in_word(ascii_lowercase(before)) == ends_in_word(before));
        if !white_space(s.last()) && ends_in_word(before) {
            let w = words(before).last();
            assert(ascii_lowercase(w.push(s.last())) == ascii_lowercase(w).push(small.last()));
        } else if !white_space(s.last()) {
            assert(ascii_lowercase(seq![s.last()]) == seq![small.last()]);
        }
    }
    assert(words(small) =~= words(s).map_values(|w: Seq<char>| ascii_lowercase(w)));
}

proof fn lemma_joined_ascii_lowercase(ws: Seq<Seq<char>>)
    ensures
        joined(ws.map_values(|w: Seq<char>| ascii_lowercase(w)), seq![' ']) == ascii_lowercase(
            joined(ws, seq![' ']),
        ),
    decreases ws.len(),
{
    let small = ws.map_values(|w: Seq<char>| ascii_lowercase(w));
    if ws.len() > 1 {
        let rest = ws.drop_last();
        lemma_joined_ascii_lowercase(rest);
        assert(small.drop_last() == rest.map_values(|w: Seq<char>| ascii_lowercase(w)));
        assert(small.last() == ascii_lowercase(ws.last()));
        assert(ascii_lowercase(joined(ws, seq![' '])) == ascii_lowercase(joined(rest, seq![' ']))
            + seq![' '] + ascii_lowercase(ws.last()));
    } else if ws.len() == 0 {
        assert(joined(small, seq![' ']) == ascii_lowercase(joined(ws, seq![' '])));
    }
}

/// Making ASCII letters small and collapsing white space can be done in either order.
pub proof fn law_collapsing_keeps_case(s: Seq<char>)
    ensures
        collapsed(ascii_lowercase(s)) == ascii_lowercase(collapsed(s)),
{
    lemma_words_of_ascii_lowercase(s);
    lemma_joined_ascii_lowercase(words(s));
}

/// Capital or small, an ASCII letter has the same small letter; and no letter is ASCII or not
/// because it is capital.
pub proof fn law_ascii_case_is_lost_in_lowercase(s: Seq<char>)
    ensures
        ascii_lowercase(ascii_uppercase(s)) == ascii_lowercase(s),
        ascii_lowercase(ascii_lowercase(s)) == ascii_lowercase(s),
        ascii(ascii_lowercase(s)) <==> ascii(s),
{
    let small = ascii_lowercase(s);
    assert(ascii_lowercase(ascii_uppercase(s)) == small);
    assert(ascii_lowercase(small) == small);
    assert forall|i: int| 0 <= i < s.len() implies ((#[trigger] small[i]) as u32) < 0x80 <==> (
    s[i] as u32) < 0x80 by {}
    if ascii(small) {
        assert forall|i: int| 0 <= i < s.len() implies (#[trigger] s[i] as u32) < 0x80 by {
            assert((small[i] as u32) < 0x80);
        }
    }
    if ascii(s) {
        assert forall|i: int| 0 <= i < small.len() implies (#[trigger] small[i] as u32) < 0x80 by {
            assert((s[i] as u32) < 0x80);
        }
    }
}

proof fn lemma_words_of_ascii(s: Seq<char>)
    requires
        ascii(s),
    ensures
        forall|k: int| 0 <= k < words(s).len() ==> ascii(#[trigger] words(s)[k]),
    decreases s.len(),
{
    if s.len() > 0 {
        let before = s.drop_last();
        assert(ascii(before));
        assert((s[s.len() - 1] as u32) < 0x80);
        lemma_words_of_ascii(before);
        lemma_word_start(before);
        assert forall|k: int| 0 <= k < words(s).len() implies ascii(#[trigger] words(s)[k]) by {
            if k < words(before).len() {
                assert(ascii(words(before)[k]));
            }
        }
    }
}

proof fn lemma_joined_ascii(ws: Seq<Seq<char>>)
    requires
        forall|k: int| 0 <= k < ws.len() ==> ascii(#[trigger] ws[k]),
    ensures
        ascii(joined(ws, seq![' '])),
    decreases ws.len(),
{
    if ws.len() == 1 {
        assert(ascii(ws[0]));
    } else if ws.len() > 1 {
        let rest = ws.drop_last();
        assert forall|k: int| 0 <= k < rest.len() implies ascii(#[trigger] rest[k]) by {
            assert(rest[k] == ws[k]);
        }
        lemma_joined_ascii(rest);
        assert(ascii(ws[ws.len() - 1]));
    }
}

/// A text of ASCII characters stays one when its white space is collapsed.
pub proof fn law_collapsing_keeps_ascii(s: Seq<char>)
    requires
        ascii(s),
    ensures
        ascii(collapsed(s)),
{
    lemma_words_of_ascii(s);
    lemma_joined_ascii(words(s));
}

/// The white space characters are these and no others.
pub proof fn law_white_space_characters(c: char)
    ensures
        white_space(c) <==> seq![
            0x9u32,
            0xa,
            0xb,
            0xc,
            0xd,
            0x20,
            0x85,
            0xa0,
            0x1680,
            0x2000,
            0x2001,
            0x2002,
            0x2003,
            0x2004,
            0x2005,
            0x2006,
            0x2007,
            0x2008,
            0x2009,
            0x200a,
            0x2028,
            0x2029,
            0x202f,
            0x205f,
            0x3000,
        ].contains(c as u32),
{
    let u = c as u32;
    let low = seq![0x9u32, 0xa, 0xb, 0xc, 0xd, 0x20, 0x85, 0xa0, 0x1680];
    let mid = seq![
        0x2000u32,
        0x2001,
        0x2002,
        0x2003,
        0x2004,
        0x2005,
        0x2006,
        0x2007,
        0x2008,
        0x2009,
        0x200a,
    ];
    let all = low + mid + seq![0x2028u32, 0x2029, 0x202f, 0x205f, 0x3000];
    assert(all == seq![
        0x9u32,
        0xa,
        0xb,
        0xc,
        0xd,
        0x20,
        0x85,
        0xa0,
        0x1680,
        0x2000,
        0x2001,
        0x2002,
        0x2003,
        0x2004,
        0x2005,
        0x2006,
        0x2007,
        0x2008,
        0x2009,
        0x200a,
        0x2028,
        0x2029,
        0x202f,
        0x205f,
        0x3000,
    ]);
    if 0x9 <= u <= 0xd {
        assert(all[u - 0x9] == u);
    } else if u == 0x20 {
        assert(all[5] == u);
    } else if u == 0x85 {
        assert(all[6] == u);
    } else if u == 0xa0 {
        assert(all[7] == u);
    } else if u == 0x1680 {
        assert(all[8] == u);
    } else if 0x2000 <= u <= 0x200a {
        assert(all[9 + (u - 0x2000)] == u);
    } else if u == 0x2028 {
        assert(all[20] == u);
    } else if u == 0x2029 {
        assert(all[21] == u);
    } else if u == 0x202f {
        assert(all[22] == u);
    } else if u == 0x205f {
        assert(all[23] == u);
    } else if u == 0x3000 {
        assert(all[24] == u);
    }
}

/// A text is blank where, and only where, each of its characters is white space, where it has no
/// words, and where trimming leaves nothing of it.
pub proof fn law_blank_texts_have_no_words(s: Seq<char>)
    ensures
        blank(s) <==> (forall|i: int| 0 <= i < s.len() ==> white_space(#[trigger] s[i])),
        blank(s) <==> words(s).len() == 0,
        blank(s) <==> trimmed(s).len() == 0,
{
    lemma_trimmed_is_empty(s);
    if blank(s) {
        lemma_blank_has_no_words(s);
    } else {
        lemma_text_has_words(s);
    }
}

proof fn lemma_white_space_before(s: Seq<char>) -> (n: int)
    ensures
        0 <= n <= s.len(),
        forall|i: int| 0 <= i < n ==> white_space(#[trigger] s[i]),
        n < s.len() ==> !white_space(s[n]),
    decreases s.len(),
{
    if s.len() == 0 {
        0
    } else {
        let rest = s.drop_last();
        let n = lemma_white_space_before(rest);
        assert(forall|i: int| 0 <= i < rest.len() ==> rest[i] == #[trigger] s[i]);
        if n == rest.len() && white_space(s.last()) {
            n + 1
        } else {
            n
        }
    }
}

proof fn lemma_white_space_behind(s: Seq<char>) -> (n: int)
    ensures
        0 <= n <= s.len(),
        forall|i: int| n <= i < s.len() ==> white_space(#[trigger] s[i]),
        n > 0 ==> !white_space(s[n - 1]),
    decreases s.len(),
{
    if s.len() == 0 || !white_space(s.last()) {
        s.len() as int
    } else {
        let rest = s.drop_last();
        let n = lemma_white_space_behind(rest);
        assert(forall|i: int| 0 <= i < rest.len() ==> rest[i] == #[trigger] s[i]);
        n
    }
}

/// Where what trimming leaves of a text begins and ends in it.
proof fn lemma_trimmed_ends(s: Seq<char>) -> (ends: (int, int))
    ensures
        0 <= ends.0 <= ends.1 <= s.len(),
        trimmed(s) == s.subrange(ends.0, ends.1),
        forall|i: int| 0 <= i < ends.0 ==> white_space(#[trigger] s[i]),
        forall|i: int| ends.1 <= i < s.len() ==> white_space(#[trigger] s[i]),
{
    let from = lemma_white_space_before(s);
    let to = lemma_white_space_behind(s);
    if from == s.len() {
        lemma_trimmed(s, from, from);
        (from, from)
    } else {
        assert(from < to);
        lemma_trimmed(s, from, to);
        (from, to)
    }
}

proof fn lemma_trimmed_has_no_white_ends(s: Seq<char>)
    ensures
        trimmed(s).len() > 0 ==> !white_space(trimmed(s).first()) && !white_space(
            trimmed(s).last(),
        ),
    decreases s.len(),
{
    if s.len() == 0 {
    } else if white_space(s.first()) {
        lemma_trimmed_has_no_white_ends(s.drop_first());
    } else if white_space(s.last()) {
        lemma_trimmed_has_no_white_ends(s.drop_last());
    }
}

/// Trimming takes white space off the two ends and nothing else: what is left is a stretch of the
/// text, around which there is only white space, and which neither begins nor ends with it.
pub proof fn law_trimming_takes_white_space_off_the_ends(s: Seq<char>)
    ensures
        exists|from: int, to: int|
            {
                &&& 0 <= from <= to <= s.len()
                &&& trimmed(s) == #[trigger] s.subrange(from, to)
                &&& forall|i: int| 0 <= i < from ==> white_space(#[trigger] s[i])
                &&& forall|i: int| to <= i < s.len() ==> white_space(#[trigger] s[i])
            },
        trimmed(s).len() > 0 ==> !white_space(trimmed(s).first()) && !white_space(
            trimmed(s).last(),
        ),
{
    let ends = lemma_trimmed_ends(s);
    lemma_trimmed_has_no_white_ends(s);
    assert(trimmed(s) == s.subrange(ends.0, ends.1));
}

/// A text that is not empty and holds no white space is one word, itself.
pub proof fn law_a_word_is_its_only_word(w: Seq<char>)
    requires
        w.len() > 0,
        forall|i: int| 0 <= i < w.len() ==> !white_space(#[trigger] w[i]),
    ensures
        words(w) == seq![w],
{
    lemma_words_of_word(w);
}

/// Every word of a text is not empty and holds no white space.
pub proof fn law_words_hold_no_white_space(s: Seq<char>, k: int, i: int)
    requires
        0 <= k < words(s).len(),
    ensures
        words(s)[k].len() > 0,
        0 <= i < words(s)[k].len() ==> !white_space(words(s)[k][i]),
{
    law_words_hold_the_text(s);
    assert(is_word(words(s)[k]));
}

/// Joining puts the separator between neighbours and nowhere else: nothing makes nothing, one
/// part is left as it is, and two lists are joined with one separator between them.
pub proof fn law_joining_puts_one_separator_between(
    a: Seq<Seq<char>>,
    part: Seq<char>,
    b: Seq<Seq<char>>,
    separator: Seq<char>,
)
    ensures
        joined(Seq::empty(), separator) == Seq::<char>::empty(),
        joined(seq![part], separator) == part,
        a.len() > 0 && b.len() > 0 ==> joined(a + b, separator) == joined(a, separator) + separator
            + joined(b, separator),
{
    if a.len() > 0 && b.len() > 0 {
        lemma_joined_of_sum(a, b, separator);
    }
}

/// White space is collapsed by joining the words with single blanks.
pub proof fn law_collapsing_joins_the_words(s: Seq<char>)
    ensures
        collapsed(s) == joined(words(s), seq![' ']),
{
}

/// The number that a text of decimal digits stands for.
pub open spec fn number(digits: Seq<char>) -> int
    decreases digits.len(),
{
    if digits.len() == 0 {
        0
    } else {
        10 * number(digits.drop_last()) + (digits.last() as u32 - '0' as u32)
    }
}

/// A number in decimal is made of digits, stands for the number, and has no leading zero but in
/// the number 0 itself.
pub proof fn law_decimal_stands_for_the_number(n: nat)
    ensures
        decimal(n).len() > 0,
        forall|i: int| 0 <= i < decimal(n).len() ==> '0' <= #[trigger] decimal(n)[i] <= '9',
        number(decimal(n)) == n,
        n > 0 ==> decimal(n).first() != '0',
    decreases n,
{
    if n < 10 {
        assert(decimal(n).drop_last().len() == 0);
        assert(number(decimal(n).drop_last()) == 0);
    } else {
        law_decimal_stands_for_the_number(n / 10);
        assert(decimal(n).drop_last() == decimal(n / 10));
        assert(decimal(n).first() == decimal(n / 10).first());
        assert forall|i: int| 0 <= i < decimal(n).len() implies '0' <= #[trigger] decimal(n)[i]
            <= '9' by {
            if i < decimal(n / 10).len() {
                assert(decimal(n)[i] == decimal(n / 10)[i]);
            }
        }
    }
}

/// A text that is filled up with blanks begins with the text, goes on with blanks alone, and has
/// the width, or the length of the text where that is more.
pub proof fn law_aligning_adds_blanks_behind(s: Seq<char>, width: nat)
    ensures
        left_aligned(s, width).len() == if s.len() < width {
            width
        } else {
            s.len()
        },
        left_aligned(s, width).take(s.len() as int) == s,
        forall|i: int|
            s.len() <= i < left_aligned(s, width).len() ==> #[trigger] left_aligned(s, width)[i]
                == ' ',
{
    assert(left_aligned(s, width).take(s.len() as int) == s);
}

proof fn lemma_number_of_zeros_before(zeros: Seq<char>, digits: Seq<char>)
    requires
        forall|i: int| 0 <= i < zeros.len() ==> #[trigger] zeros[i] == '0',
    ensures
        number(zeros + digits) == number(digits),
    decreases zeros.len() + digits.len(),
{
    if digits.len() > 0 {
        assert((zeros + digits).drop_last() == zeros + digits.drop_last());
        lemma_number_of_zeros_before(zeros, digits.drop_last());
    } else if zeros.len() > 0 {
        assert((zeros + digits).drop_last() == zeros.drop_last() + digits);
        lemma_number_of_zeros_before(zeros.drop_last(), digits);
    }
}

/// A number that is filled up with zeros ends with the number in decimal, has the width, or the
/// length of the number where that is more, and stands for the number.
pub proof fn law_filling_adds_zeros_in_front(n: nat, width: nat)
    ensures
        zero_filled(decimal(n), width).len() == if decimal(n).len() < width {
            width
        } else {
            decimal(n).len()
        },
        zero_filled(decimal(n), width).skip(
            zero_filled(decimal(n), width).len() - decimal(n).len(),
        ) == decimal(n),
        number(zero_filled(decimal(n), width)) == n,
{
    let digits = decimal(n);
    let filled = zero_filled(digits, width);
    let zeros = filled.take(filled.len() - digits.len());
    assert(filled == zeros + digits);
    assert(filled.skip(filled.len() - digits.len()) == digits);
    lemma_number_of_zeros_before(zeros, digits);
    law_decimal_stands_for_the_number(n);
}

/// A text is of ASCII characters where each of its characters is; its lower case has each letter
/// from `A` to `Z` made small and each other character as it is, and its upper case the reverse.
pub proof fn law_ascii_lowercase_goes_letter_by_letter(s: Seq<char>)
    ensures
        ascii(s) <==> (forall|i: int| 0 <= i < s.len() ==> (#[trigger] s[i] as u32) < 128),
        ascii_lowercase(s).len() == s.len(),
        ascii_uppercase(s).len() == s.len(),
        forall|i: int|
            0 <= i < s.len() ==> (#[trigger] ascii_lowercase(s)[i]) as u32 == (if 65 <= s[i] as u32
                <= 90 {
                s[i] as u32 + 32
            } else {
                s[i] as int
            }),
        forall|i: int|
            0 <= i < s.len() ==> (#[trigger] ascii_uppercase(s)[i]) as u32 == (if 97 <= s[i] as u32
                <= 122 {
                s[i] as u32 - 32
            } else {
                s[i] as int
            }),
{
}

/// The lower case of a text of ASCII characters goes letter by letter, and that of any other text
/// is Unicode's.
pub proof fn law_lower_case_is_unicode_beyond_ascii(s: Seq<char>)
    ensures
        (forall|i: int| 0 <= i < s.len() ==> (#[trigger] s[i] as u32) < 128) ==> lowercased(s)
            == ascii_lowercase(s),
        (exists|i: int| 0 <= i < s.len() && (#[trigger] s[i] as u32) >= 128) ==> lowercased(s)
            == unicode_lowercase(s),
{
}

/// An optional text has characters where, and only where, there is a text.
pub proof fn law_optional_text_is_seen_as_it_is(text: String)
    ensures
        text_view(Some(text)) == Some(text@),
        text_view(None) is None,
{
}

/// A number below the power of ten with `width` digits has at most `width` digits, and one that is
/// not has more.
pub proof fn lemma_decimal_width(n: nat, width: nat)
    requires
        1 <= width <= 4,
    ensures
        decimal(n).len() <= width <==> n < if width == 1 {
            10int
        } else if width == 2 {
            100
        } else if width == 3 {
            1000
        } else {
            10000
        },
    decreases width,
{
    lemma_decimal_length(n);
    if n >= 10 && width > 1 {
        lemma_decimal_width(n / 10, (width - 1) as nat);
        assert(decimal(n).len() == decimal(n / 10).len() + 1);
    }
}

} // verus!
