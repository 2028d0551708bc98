//! Text handling on sequences of characters.
//!
//! Strings are modelled by the sequence of characters they hold. Every function here
//! is stated over that model.
use vstd::prelude::*;

verus! {

/// `String::push` appends one character to the end of the string.
pub assume_specification[ String::push ](text: &mut String, c: char)
    ensures
        final(text)@ == old(text)@.push(c),
;

/// The contents of a list of strings.
pub open spec fn contents(list: Seq<String>) -> Seq<Seq<char>> {
    list.map_values(|text: String| text@)
}

/// The character for the decimal digit `d`.
pub open spec fn digit_char(d: nat) -> char {
    (48 + d) as char
}

/// The decimal notation of `n`, without leading zeros.
pub open spec fn digits(n: nat) -> Seq<char>
    decreases n,
{
    if n < 10 {
        seq![digit_char(n)]
    } else {
        digits(n / 10).push(digit_char(n % 10))
    }
}

/// The decimal notation of `n`, with a minus sign in front of a negative number.
pub open spec fn signed_digits(n: int) -> Seq<char> {
    if n < 0 {
        seq!['-'] + digits((-n) as nat)
    } else {
        digits(n as nat)
    }
}

/// `c` with the letters `A` to `Z` made lower case; every other character is kept.
pub open spec fn lower_char(c: char) -> char {
    if 'A' <= c && c <= 'Z' {
        (c as u32 + 32) as char
    } else {
        c
    }
}

/// `text` with the letters `A` to `Z` made lower case.
pub open spec fn lower(text: Seq<char>) -> Seq<char> {
    text.map_values(|c: char| lower_char(c))
}

/// `needle` stands in `hay` at position `at`.
pub open spec fn occurs_at(hay: Seq<char>, needle: Seq<char>, at: int) -> bool {
    &&& 0 <= at
    &&& at + needle.len() <= hay.len()
    &&& hay.subrange(at, at + needle.len()) == needle
}

/// `needle` stands somewhere in `hay`.
pub open spec fn occurs_in(hay: Seq<char>, needle: Seq<char>) -> bool {
    exists|at: int| occurs_at(hay, needle, at)
}

/// The first position from `from` on at which `needle` stands in `hay`.
pub open spec fn first_at(hay: Seq<char>, needle: Seq<char>, from: int) -> Option<int>
    decreases hay.len() + 1 - from,
{
    if from + needle.len() > hay.len() {
        None
    } else if occurs_at(hay, needle, from) {
        Some(from)
    } else {
        first_at(hay, needle, from + 1)
    }
}

/// The last position of `c` in `text` before position `end`.
pub open spec fn last_before(text: Seq<char>, c: char, end: int) -> Option<int>
    decreases end,
{
    if end <= 0 {
        None
    } else if text[end - 1] == c {
        Some(end - 1)
    } else {
        last_before(text, c, end - 1)
    }
}

/// `line` without the carriage return that it may end in.
pub open spec fn without_return(line: Seq<char>) -> Seq<char> {
    if line.len() > 0 && line.last() == '\r' {
        line.drop_last()
    } else {
        line
    }
}

/// The lines of `text`. A line ends in a newline, with or without a carriage return before
/// it; the ending is optional for the last line.
pub open spec fn lines(text: Seq<char>) -> Seq<Seq<char>>
    decreases text.len(),
{
    if text.len() == 0 {
        seq![]
    } else {
        match first_at(text, seq!['\n'], 0) {
            Some(n) => if 0 <= n < text.len() {
                seq![without_return(text.take(n))] + lines(text.skip(n + 1))
            } else {
                seq![text]
            },
            None => seq![text],
        }
    }
}

/// The characters with the Unicode property `White_Space`.
pub open spec fn is_space(c: char) -> bool {
    ||| '\u{9}' <= c && c <= '\u{d}'
    ||| c == ' '
    ||| c == '\u{85}'
    ||| c == '\u{a0}'
    ||| c == '\u{1680}'
    ||| '\u{2000}' <= c && c <= '\u{200a}'
    ||| c == '\u{2028}'
    ||| c == '\u{2029}'
    ||| c == '\u{202f}'
    ||| c == '\u{205f}'
    ||| c == '\u{3000}'
}

/// How many characters at the start of `text` are no white space.
pub open spec fn word_len(text: Seq<char>) -> nat
    decreases text.len(),
{
    if text.len() == 0 || is_space(text[0]) {
        0
    } else {
        1 + word_len(text.drop_first())
    }
}

/// The words of `text`: its longest runs without white space, in order.
pub open spec fn words(text: Seq<char>) -> Seq<Seq<char>>
    decreases text.len(),
{
    if text.len() == 0 {
        seq![]
    } else if is_space(text[0]) {
        words(text.drop_first())
    } else {
        let n = word_len(text);
        if 1 <= n <= text.len() {
            seq![text.take(n as int)] + words(text.skip(n as int))
        } else {
            seq![]
        }
    }
}

/// The characters of `text`.
pub fn chars_of(text: &str) -> (chars: Vec<char>)
    ensures
        chars@ == text@,
{
    let mut chars: Vec<char> = Vec::new();
    for c in it: text.chars()
        invariant
            chars@ == text@.take(it.index()),
            it.seq() == text@,
    {
        chars.push(c);
        proof {
            assert(text@.take(it.index() + 1) =~= text@.take(it.index()).push(text@[it.index()]));
        }
    }
    assert(text@.take(text@.len() as int) =~= text@);
    chars
}

/// The string that holds `chars`.
pub fn string_of(chars: &[char]) -> (text: String)
    ensures
        text@ == chars@,
{
    let mut text = String::new();
    let mut i: usize = 0;
    while i < chars.len()
        invariant
            i <= chars.len(),
            text@ == chars@.take(i as int),
        decreases chars.len() - i,
    {
        text.push(chars[i]);
        assert(chars@.take(i + 1) =~= chars@.take(i as int).push(chars@[i as int]));
        i += 1;
    }
    assert(chars@.take(chars@.len() as int) =~= chars@);
    text
}

/// The decimal notation of `n`.
pub fn decimal(n: u64) -> (text: String)
    ensures
        text@ == digits(n as nat),
    decreases n,
{
    let digit: char = (48u8 + (n % 10) as u8) as char;
    let mut text = if n < 10 {
        String::new()
    } else {
        decimal(n / 10)
    };
    text.push(digit);
    assert(n < 10 ==> text@ =~= seq![digit_char(n as nat)]);
    text
}

/// The decimal notation of `n`, with its sign.
pub fn signed_decimal(n: i32) -> (text: String)
    ensures
        text@ == signed_digits(n as int),
{
    if n < 0 {
        let mut text = String::new();
        text.push('-');
        let magnitude: u64 = (-(n as i64)) as u64;
        text.append(decimal(magnitude).as_str());
        assert(text@ =~= signed_digits(n as int));
        text
    } else {
        decimal(n as u64)
    }
}

/// `a` and `b` hold the same characters.
pub fn same(a: &str, b: &str) -> (equal: bool)
    ensures
        equal == (a@ == b@),
{
    let left = chars_of(a);
    let right = chars_of(b);
    if left.len() != right.len() {
        return false;
    }
    let mut i: usize = 0;
    while i < left.len()
        invariant
            i <= left.len(),
            left.len() == right.len(),
            left@ == a@,
            right@ == b@,
            a@.take(i as int) =~= b@.take(i as int),
        decreases left.len() - i,
    {
        if left[i] != right[i] {
            assert(a@[i as int] != b@[i as int]);
            return false;
        }
        assert(a@.take(i + 1) =~= b@.take(i + 1)) by {
            assert(a@.take(i + 1) =~= a@.take(i as int).push(a@[i as int]));
            assert(b@.take(i + 1) =~= b@.take(i as int).push(b@[i as int]));
        }
        i += 1;
    }
    assert(a@.take(a@.len() as int) =~= a@);
    assert(b@.take(b@.len() as int) =~= b@);
    true
}

/// Makes an ASCII capital letter lower case.
pub fn lower_case(c: char) -> (lowered: char)
    ensures
        lowered == lower_char(c),
{
    if 'A' <= c && c <= 'Z' {
        (c as u8 + 32) as char
    } else {
        c
    }
}

/// The characters of `text` with the ASCII capital letters made lower case.
pub fn lower_chars(text: &str) -> (chars: Vec<char>)
    ensures
        chars@ == lower(text@),
{
    let source = chars_of(text);
    let mut chars: Vec<char> = Vec::new();
    let mut i: usize = 0;
    while i < source.len()
        invariant
            i <= source.len(),
            source@ == text@,
            chars@ == lower(text@).take(i as int),
        decreases source.len() - i,
    {
        chars.push(lower_case(source[i]));
        assert(lower(text@).take(i + 1) =~= lower(text@).take(i as int).push(
            lower_char(text@[i as int]),
        ));
        i += 1;
    }
    assert(lower(text@).take(source@.len() as int) =~= lower(text@));
    chars
}

/// `a` and `b` are the same text but for the case of ASCII letters.
pub fn same_ignoring_case(a: &str, b: &str) -> (equal: bool)
    ensures
        equal == (lower(a@) == lower(b@)),
{
    let left = string_of(lower_chars(a).as_slice());
    let right = string_of(lower_chars(b).as_slice());
    same(left.as_str(), right.as_str())
}

/// `needle` stands in `hay` at position `at`.
pub fn stands_at(hay: &[char], needle: &[char], at: usize) -> (found: bool)
    ensures
        found == occurs_at(hay@, needle@, at as int),
{
    if at > hay.len() || needle.len() > hay.len() - at {
        return false;
    }
    let mut i: usize = 0;
    while i < needle.len()
        invariant
            i <= needle.len(),
            at + needle.len() <= hay.len(),
            forall|j: int| 0 <= j < i ==> hay@[at + j] == needle@[j],
        decreases needle.len() - i,
    {
        if hay[at + i] != needle[i] {
            assert(hay@.subrange(at as int, at + needle@.len())[i as int] != needle@[i as int]);
            return false;
        }
        i += 1;
    }
    assert(hay@.subrange(at as int, at + needle@.len()) =~= needle@);
    true
}

/// What the first position of `needle` from `from` on says of the positions.
pub proof fn lemma_first_at(hay: Seq<char>, needle: Seq<char>, from: int)
    requires
        0 <= from,
    ensures
        match first_at(hay, needle, from) {
            Some(at) => from <= at && occurs_at(hay, needle, at) && forall|j: int|
                from <= j < at ==> !occurs_at(hay, needle, j),
            None => forall|j: int| from <= j ==> !occurs_at(hay, needle, j),
        },
    decreases hay.len() + 1 - from,
{
    if from + needle.len() <= hay.len() && !occurs_at(hay, needle, from) {
        lemma_first_at(hay, needle, from + 1);
    }
}

/// The first position at which `needle` stands in `hay`.
pub fn find(hay: &[char], needle: &[char]) -> (at: Option<usize>)
    ensures
        at is Some == first_at(hay@, needle@, 0) is Some,
        at is Some ==> at->0 == first_at(hay@, needle@, 0)->0,
        at is Some ==> at->0 + needle@.len() <= hay@.len(),
        at is Some == occurs_in(hay@, needle@),
{
    proof {
        lemma_first_at(hay@, needle@, 0);
    }
    let mut at: usize = 0;
    while at < hay.len() && needle.len() <= hay.len() - at
        invariant
            at <= hay.len(),
            first_at(hay@, needle@, 0) == first_at(hay@, needle@, at as int),
            first_at(hay@, needle@, 0) is Some == occurs_in(hay@, needle@),
        decreases hay.len() - at,
    {
        if stands_at(hay, needle, at) {
            return Some(at);
        }
        at += 1;
    }
    if at == hay.len() && needle.len() == 0 {
        assert(hay@.subrange(at as int, at as int) =~= needle@);
        Some(at)
    } else {
        None
    }
}

/// The last position of `c` in `text` before position `end`.
pub fn rfind(text: &[char], c: char, end: usize) -> (at: Option<usize>)
    requires
        end <= text.len(),
    ensures
        at is Some == last_before(text@, c, end as int) is Some,
        at is Some ==> at->0 == last_before(text@, c, end as int)->0 && at->0 < end,
{
    let mut i: usize = end;
    while i > 0
        invariant
            i <= end <= text.len(),
            last_before(text@, c, end as int) == last_before(text@, c, i as int),
        decreases i,
    {
        i -= 1;
        if text[i] == c {
            return Some(i);
        }
    }
    None
}

/// `c` is white space.
pub fn space(c: char) -> (found: bool)
    ensures
        found == is_space(c),
{
    ('\u{9}' <= c && c <= '\u{d}') || c == ' ' || c == '\u{85}' || c == '\u{a0}' || c
        == '\u{1680}' || ('\u{2000}' <= c && c <= '\u{200a}') || c == '\u{2028}' || c
        == '\u{2029}' || c == '\u{202f}' || c == '\u{205f}' || c == '\u{3000}'
}

/// `a` comes before `b` in the order of characters.
pub open spec fn text_before(a: Seq<char>, b: Seq<char>) -> bool
    decreases a.len(),
{
    if b.len() == 0 {
        false
    } else if a.len() == 0 {
        true
    } else if a[0] == b[0] {
        text_before(a.drop_first(), b.drop_first())
    } else {
        a[0] < b[0]
    }
}

/// No text comes before itself.
pub proof fn lemma_not_before_itself(a: Seq<char>)
    ensures
        !text_before(a, a),
    decreases a.len(),
{
    if a.len() > 0 {
        lemma_not_before_itself(a.drop_first());
    }
}

/// The order of texts is transitive.
pub proof fn lemma_before_transitive(a: Seq<char>, b: Seq<char>, c: Seq<char>)
    requires
        text_before(a, b),
        text_before(b, c),
    ensures
        text_before(a, c),
    decreases a.len(),
{
    if a.len() > 0 && b.len() > 0 && c.len() > 0 && a[0] == b[0] && b[0] == c[0] {
        lemma_before_transitive(a.drop_first(), b.drop_first(), c.drop_first());
    }
}

/// Of two different texts one comes before the other.
pub proof fn lemma_before_total(a: Seq<char>, b: Seq<char>)
    ensures
        text_before(a, b) || text_before(b, a) || a == b,
    decreases a.len(),
{
    if a.len() > 0 && b.len() > 0 && a[0] == b[0] {
        lemma_before_total(a.drop_first(), b.drop_first());
        if a.drop_first() == b.drop_first() {
            assert(a =~= seq![a[0]] + a.drop_first());
            assert(b =~= seq![b[0]] + b.drop_first());
        }
    } else if a.len() == 0 && b.len() == 0 {
        assert(a =~= b);
    }
}

/// `a` comes before `b` in the order of characters.
pub fn is_before(a: &str, b: &str) -> (before: bool)
    ensures
        before == text_before(a@, b@),
{
    let left = chars_of(a);
    let right = chars_of(b);
    let mut i: usize = 0;
    assert(a@.skip(0) =~= a@);
    assert(b@.skip(0) =~= b@);
    while i < left.len() && i < right.len()
        invariant
            i <= left.len(),
            i <= right.len(),
            left@ == a@,
            right@ == b@,
            text_before(a@, b@) == text_before(a@.skip(i as int), b@.skip(i as int)),
        decreases left.len() - i,
    {
        if left[i] != right[i] {
            return left[i] < right[i];
        }
        assert(a@.skip(i as int).drop_first() =~= a@.skip(i + 1));
        assert(b@.skip(i as int).drop_first() =~= b@.skip(i + 1));
        i += 1;
    }
    i < right.len()
}

/// The decimal notation of a number reads back as that number, is made of digits alone, and has
/// no zero in front.
pub proof fn law_decimal_reads_back(n: nat)
    ensures
        crate::versions::number(digits(n)) == n,
        digits(n).len() >= 1,
        forall|i: int| 0 <= i < digits(n).len() ==> 48 <= #[trigger] digits(n)[i] as int <= 57,
        digits(n)[0] == '0' ==> n == 0 && digits(n).len() == 1,
    decreases n,
{
    if n < 10 {
        assert(digits(n).drop_last() =~= seq![]);
        assert(crate::versions::number(digits(n).drop_last()) == 0);
    } else {
        law_decimal_reads_back(n / 10);
        assert(digits(n).drop_last() =~= digits(n / 10));
        assert(digits(n)[0] == digits(n / 10)[0]);
        assert forall|i: int| 0 <= i < digits(n).len() implies 48 <= #[trigger] digits(n)[i] as int
            <= 57 by {
            if i < digits(n / 10).len() {
                assert(digits(n)[i] == digits(n / 10)[i]);
            }
        }
    }
}

/// A negative number is written as a minus sign and the number without it, any other as it is.
pub proof fn law_sign_stands_in_front(n: nat)
    ensures
        signed_digits(n as int) == digits(n),
        n > 0 ==> signed_digits(-n) == seq!['-'] + digits(n),
{
}

/// Lower case changes the letters `A` to `Z` alone, each into the letter 32 places on, and
/// changes nothing any more when it is applied again.
pub proof fn law_lower_changes_capitals_alone(text: Seq<char>)
    ensures
        lower(text).len() == text.len(),
        forall|i: int|
            0 <= i < text.len() ==> #[trigger] lower(text)[i] as int == text[i] as int + if 65
                <= text[i] as int <= 90 {
                32int
            } else {
                0int
            },
        lower(lower(text)) == lower(text),
{
    assert(lower(lower(text)) =~= lower(text));
}

/// Lower case works on each part of a text by itself.
pub proof fn law_lower_of_parts(a: Seq<char>, b: Seq<char>)
    ensures
        lower(a + b) == lower(a) + lower(b),
{
    assert(lower(a + b) =~= lower(a) + lower(b));
}

/// A text stands in every text that it is a part of, whatever stands around it, and in no other.
pub proof fn law_occurs_where_it_is_a_part(
    before: Seq<char>,
    needle: Seq<char>,
    after: Seq<char>,
    hay: Seq<char>,
)
    ensures
        occurs_in(before + needle + after, needle),
        occurs_at(before + needle + after, needle, before.len() as int),
        occurs_in(hay, needle) ==> exists|at: int|
            0 <= at && at + needle.len() <= hay.len() && #[trigger] hay.take(at) + needle
                + hay.skip(at + needle.len()) == hay,
{
    let whole = before + needle + after;
    assert(whole.subrange(before.len() as int, (before.len() + needle.len()) as int) =~= needle);
    assert(occurs_at(whole, needle, before.len() as int));
    if occurs_in(hay, needle) {
        let at = choose|at: int| occurs_at(hay, needle, at);
        assert forall|i: int| 0 <= i < needle.len() implies hay[at + i] == #[trigger] needle[i] by {
            assert(hay.subrange(at, at + needle.len())[i] == needle[i]);
        }
        assert(hay.take(at) + needle + hay.skip(at + needle.len()) =~= hay);
    }
}

/// The first position of a part is at or before the one that is known; the part stands there, and
/// nowhere before.
pub proof fn law_first_position(before: Seq<char>, needle: Seq<char>, after: Seq<char>)
    ensures
        ({
            let hay = before + needle + after;
            let first = first_at(hay, needle, 0);
            &&& first is Some
            &&& 0 <= first->0 <= before.len()
            &&& hay.subrange(first->0, first->0 + needle.len()) == needle
            &&& forall|j: int|
                0 <= j < first->0 ==> #[trigger] hay.subrange(j, j + needle.len()) != needle
        }),
{
    let hay = before + needle + after;
    lemma_first_at(hay, needle, 0);
    law_occurs_where_it_is_a_part(before, needle, after, hay);
    let first = first_at(hay, needle, 0);
    assert(occurs_at(hay, needle, before.len() as int));
    assert forall|j: int| 0 <= j < first->0 implies #[trigger] hay.subrange(j, j + needle.len())
        != needle by {
        assert(!occurs_at(hay, needle, j));
    }
}

/// The last position of a character before `end` holds it, and no position from there to `end`
/// does; where there is none, no position before `end` does.
pub proof fn law_last_position(text: Seq<char>, c: char, end: int)
    requires
        0 <= end <= text.len(),
    ensures
        match last_before(text, c, end) {
            Some(at) => 0 <= at < end && text[at] == c && forall|j: int|
                at < j < end ==> text[j] != c,
            None => forall|j: int| 0 <= j < end ==> text[j] != c,
        },
    decreases end,
{
    if end > 0 && text[end - 1] != c {
        law_last_position(text, c, end - 1);
    }
}

/// A carriage return at the end is taken off, once; any other text is kept.
pub proof fn law_return_is_taken_off(line: Seq<char>)
    ensures
        without_return(line.push('\r')) == line,
        line.len() == 0 || line.last() != '\r' ==> without_return(line) == line,
{
    assert(line.push('\r').drop_last() =~= line);
}

/// The text up to a newline is one line, without the carriage return at its end; what stands
/// behind the newline gives the other lines. A text without a newline is one line as it is.
pub proof fn law_lines_end_in_newlines(line: Seq<char>, rest: Seq<char>)
    requires
        forall|i: int| 0 <= i < line.len() ==> line[i] != '\n',
    ensures
        lines(line + seq!['\n'] + rest) == seq![without_return(line)] + lines(rest),
        line.len() > 0 ==> lines(line) == seq![line],
        lines(seq![]) == Seq::<Seq<char>>::empty(),
{
    let newline = seq!['\n'];
    let text = line + newline + rest;
    lemma_first_at(text, newline, 0);
    law_first_position(line, newline, rest);
    let n = first_at(text, newline, 0)->0;
    assert(text.subrange(n, n + 1)[0] == '\n');
    assert(n == line.len());
    assert(text.take(n) =~= line);
    assert(text.skip(n + 1) =~= rest);
    lemma_first_at(line, newline, 0);
    if first_at(line, newline, 0) is Some {
        let at = first_at(line, newline, 0)->0;
        assert(line.subrange(at, at + 1)[0] == '\n');
    }
}

/// White space by its code points.
pub proof fn law_white_space(c: char)
    ensures
        is_space(c) == {
            let code = c as int;
            ||| 9 <= code <= 13
            ||| code == 32
            ||| code == 133
            ||| code == 160
            ||| code == 5760
            ||| 8192 <= code <= 8202
            ||| code == 8232
            ||| code == 8233
            ||| code == 8239
            ||| code == 8287
            ||| code == 12288
        },
{
}

/// A word ends where white space comes, or the text.
proof fn lemma_word_len(text: Seq<char>)
    ensures
        word_len(text) <= text.len(),
        forall|i: int| 0 <= i < word_len(text) ==> !is_space(text[i]),
        word_len(text) < text.len() ==> is_space(text[word_len(text) as int]),
    decreases text.len(),
{
    if text.len() > 0 && !is_space(text[0]) {
        let rest = text.drop_first();
        lemma_word_len(rest);
        assert forall|i: int| 0 <= i < word_len(text) implies !is_space(text[i]) by {
            if i > 0 {
                assert(text[i] == rest[i - 1]);
            }
        }
    }
}

/// White space parts the words of a text, and a text without it that is not empty is one word.
pub proof fn law_white_space_parts_words(a: Seq<char>, c: char, b: Seq<char>)
    requires
        is_space(c),
    ensures
        words(a + seq![c] + b) == words(a) + words(b),
        words(seq![]) == Seq::<Seq<char>>::empty(),
    decreases a.len(),
{
    let text = a + seq![c] + b;
    if a.len() == 0 {
        assert(text.drop_first() =~= b);
        assert(words(a) + words(b) =~= words(b));
    } else if is_space(a[0]) {
        law_white_space_parts_words(a.drop_first(), c, b);
        assert(text.drop_first() =~= a.drop_first() + seq![c] + b);
    } else {
        let n = word_len(a) as int;
        lemma_word_len(a);
        lemma_word_len(text);
        assert(word_len(text) == n) by {
            let m = word_len(text) as int;
            if m < n {
                assert(text[m] == a[m]);
            } else if m > n {
                assert(text[n] == if n < a.len() {
                    a[n]
                } else {
                    c
                });
            }
        }
        law_white_space_parts_words(a.skip(n), c, b);
        assert(text.skip(n) =~= a.skip(n) + seq![c] + b);
        assert(text.take(n) =~= a.take(n));
        assert(words(text) =~= words(a) + words(b));
    }
}

/// A text without white space that is not empty is one word.
pub proof fn law_a_word_is_itself(word: Seq<char>)
    requires
        word.len() > 0,
        forall|i: int| 0 <= i < word.len() ==> !is_space(word[i]),
    ensures
        words(word) == seq![word],
{
    lemma_word_len(word);
    let n = word_len(word) as int;
    assert(n == word.len());
    assert(word.take(n) =~= word);
    assert(word.skip(n) =~= seq![]);
    assert(words(word.skip(n)) =~= seq![]);
    assert(words(word) =~= seq![word]);
}

/// The first different character decides which text comes first, and a text comes before every
/// longer one that starts with it.
pub proof fn law_first_difference_decides(
    start: Seq<char>,
    x: char,
    a: Seq<char>,
    y: char,
    b: Seq<char>,
)
    ensures
        x != y ==> text_before(start + seq![x] + a, start + seq![y] + b) == (x < y),
        text_before(start, start + seq![x] + a),
        !text_before(start + seq![x] + a, start),
    decreases start.len(),
{
    let p = start + seq![x] + a;
    let q = start + seq![y] + b;
    if start.len() > 0 {
        let rest = start.drop_first();
        law_first_difference_decides(rest, x, a, y, b);
        assert(p.drop_first() =~= rest + seq![x] + a);
        assert(q.drop_first() =~= rest + seq![y] + b);
    }
}

}
