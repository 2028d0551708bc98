//! Names of versions, such as `v12.4`, and their order.
use vstd::prelude::*;

use crate::text::{chars_of, find, is_before};

verus! {

/// `c` is a decimal digit.
pub open spec fn is_digit(c: char) -> bool {
    '0' <= c && c <= '9'
}

/// `text` is a number in decimal notation.
pub open spec fn is_number(text: Seq<char>) -> bool {
    text.len() > 0 && forall|i: int| 0 <= i < text.len() ==> is_digit(#[trigger] text[i])
}

/// The number that the digits stand for.
pub open spec fn number(digits: Seq<char>) -> int
    decreases digits.len(),
{
    if digits.len() == 0 {
        0
    } else {
        10 * number(digits.drop_last()) + (digits.last() as int - 48)
    }
}

/// The parts of `text` between the dots.
pub open spec fn parts(text: Seq<char>) -> Seq<Seq<char>>
    decreases text.len(),
{
    match crate::text::first_at(text, seq!['.'], 0) {
        Some(n) => if 0 <= n < text.len() {
            seq![text.take(n)] + parts(text.skip(n + 1))
        } else {
            seq![text]
        },
        None => seq![text],
    }
}

/// Every part is a number.
pub open spec fn all_numbers(parts: Seq<Seq<char>>) -> bool {
    forall|i: int| 0 <= i < parts.len() ==> is_number(#[trigger] parts[i])
}

/// The numbers of a version: those between the dots after the letter `v`. Other names are no
/// version.
pub open spec fn version(name: Seq<char>) -> Option<Seq<int>> {
    if name.len() > 0 && name[0] == 'v' && all_numbers(parts(name.drop_first())) {
        Some(parts(name.drop_first()).map_values(|part: Seq<char>| number(part)))
    } else {
        None
    }
}

/// The numbers `a` come before `b`: the first difference decides, and a start of `b` comes
/// before it.
pub open spec fn numbers_before(a: Seq<int>, b: Seq<int>) -> bool
    decreases a.len(),
{
    if b.len() == 0 {
        false
    } else if a.len() == 0 {
        true
    } else if a[0] == b[0] {
        numbers_before(a.drop_first(), b.drop_first())
    } else {
        a[0] < b[0]
    }
}

/// The version `a` is older than `b`. What is no version is older than every version.
pub open spec fn older(a: Option<Seq<int>>, b: Option<Seq<int>>) -> bool {
    match b {
        None => false,
        Some(b) => match a {
            None => true,
            Some(a) => numbers_before(a, b),
        },
    }
}

/// The name `a` comes before `b` by its version. Names of the same version, and names that are
/// no version, are in the order of their characters.
pub open spec fn name_before(a: Seq<char>, b: Seq<char>) -> bool {
    ||| older(version(a), version(b))
    ||| version(a) == version(b) && crate::text::text_before(a, b)
}

/// No list of numbers comes before itself.
proof fn lemma_numbers_not_before_itself(a: Seq<int>)
    ensures
        !numbers_before(a, a),
    decreases a.len(),
{
    if a.len() > 0 {
        lemma_numbers_not_before_itself(a.drop_first());
    }
}

/// The order of lists of numbers is transitive.
proof fn lemma_numbers_transitive(a: Seq<int>, b: Seq<int>, c: Seq<int>)
    requires
        numbers_before(a, b),
        numbers_before(b, c),
    ensures
        numbers_before(a, c),
    decreases a.len(),
{
    if a.len() > 0 && b.len() > 0 && c.len() > 0 && a[0] == b[0] && b[0] == c[0] {
        lemma_numbers_transitive(a.drop_first(), b.drop_first(), c.drop_first());
    }
}

/// Of two different lists of numbers one comes before the other.
proof fn lemma_numbers_total(a: Seq<int>, b: Seq<int>)
    ensures
        numbers_before(a, b) || numbers_before(b, a) || a == b,
    decreases a.len(),
{
    if a.len() > 0 && b.len() > 0 && a[0] == b[0] {
        lemma_numbers_total(a.drop_first(), b.drop_first());
        if a.drop_first() == b.drop_first() {
            assert(a =~= seq![a[0]] + a.drop_first());
            assert(b =~= seq![b[0]] + b.drop_first());
        }
    } else if a.len() == 0 && b.len() == 0 {
        assert(a =~= b);
    }
}

/// No name comes before itself.
pub proof fn lemma_name_not_before_itself(a: Seq<char>)
    ensures
        !name_before(a, a),
{
    crate::text::lemma_not_before_itself(a);
    if let Some(numbers) = version(a) {
        lemma_numbers_not_before_itself(numbers);
    }
}

/// The order of names is transitive.
pub proof fn lemma_name_transitive(a: Seq<char>, b: Seq<char>, c: Seq<char>)
    requires
        name_before(a, b),
        name_before(b, c),
    ensures
        name_before(a, c),
{
    if older(version(a), version(b)) {
        if older(version(b), version(c)) && version(a) is Some {
            lemma_numbers_transitive(version(a)->0, version(b)->0, version(c)->0);
        }
    } else if !older(version(b), version(c)) {
        crate::text::lemma_before_transitive(a, b, c);
    }
}

/// Of two different names one comes before the other.
pub proof fn lemma_name_total(a: Seq<char>, b: Seq<char>)
    ensures
        name_before(a, b) || name_before(b, a) || a == b,
{
    crate::text::lemma_before_total(a, b);
    if version(a) is Some && version(b) is Some {
        lemma_numbers_total(version(a)->0, version(b)->0);
    }
}

/// How one thing stands to another in an order.
#[derive(Debug, Clone, Copy, PartialEq, Eq, Structural)]
enum Relation {
    Before,
    Same,
    After,
}

/// One more digit makes a number ten times as large and that digit.
proof fn lemma_number_grows(digits: Seq<char>, n: int)
    requires
        0 <= n < digits.len(),
    ensures
        number(digits.take(n + 1)) == 10 * number(digits.take(n)) + (digits[n] as int - 48),
{
    assert(digits.take(n + 1).drop_last() =~= digits.take(n));
}

/// The digit at place `at` of `width` places, with zeros in front of the number.
fn digit_at(digits: &[char], at: usize, width: usize) -> (digit: u32)
    requires
        is_number(digits@),
        at < width,
        digits@.len() <= width,
    ensures
        0 <= digit <= 9,
        at < width - digits@.len() ==> digit == 0,
        at >= width - digits@.len() ==> digit == digits@[at - (width - digits@.len())] as int - 48,
{
    let zeros: usize = width - digits.len();
    if at < zeros {
        0
    } else {
        assert(is_digit(digits@[at - zeros]));
        digits[at - zeros] as u32 - 48
    }
}

/// The value of the first `at` of `width` places.
spec fn leading(digits: Seq<char>, at: int, width: int) -> int {
    if at <= width - digits.len() {
        0
    } else {
        number(digits.take(at - (width - digits.len())))
    }
}

/// One more place makes the value ten times as large and the digit there.
proof fn lemma_leading_grows(digits: Seq<char>, at: int, width: int)
    requires
        0 <= at < width,
        digits.len() <= width,
    ensures
        leading(digits, at + 1, width) == 10 * leading(digits, at, width) + if at < width
            - digits.len() {
            0
        } else {
            digits[at - (width - digits.len())] as int - 48
        },
{
    let zeros = width - digits.len();
    if at >= zeros {
        lemma_number_grows(digits, at - zeros);
        if at == zeros {
            assert(digits.take(0) =~= seq![]);
        }
    }
}

/// How the number `a` stands to `b`.
fn number_relation(a: &[char], b: &[char]) -> (relation: Relation)
    requires
        is_number(a@),
        is_number(b@),
    ensures
        relation == (if number(a@) < number(b@) {
            Relation::Before
        } else if number(a@) == number(b@) {
            Relation::Same
        } else {
            Relation::After
        }),
{
    let width: usize = if a.len() < b.len() {
        b.len()
    } else {
        a.len()
    };
    let mut relation = Relation::Same;
    let mut at: usize = 0;
    while at < width
        invariant
            at <= width,
            is_number(a@),
            is_number(b@),
            a@.len() <= width,
            b@.len() <= width,
            relation == (if leading(a@, at as int, width as int) < leading(
                b@,
                at as int,
                width as int,
            ) {
                Relation::Before
            } else if leading(a@, at as int, width as int) == leading(
                b@,
                at as int,
                width as int,
            ) {
                Relation::Same
            } else {
                Relation::After
            }),
        decreases width - at,
    {
        let left = digit_at(a, at, width);
        let right = digit_at(b, at, width);
        proof {
            lemma_leading_grows(a@, at as int, width as int);
            lemma_leading_grows(b@, at as int, width as int);
        }
        if relation == Relation::Same {
            if left < right {
                relation = Relation::Before;
            } else if left > right {
                relation = Relation::After;
            }
        }
        at += 1;
    }
    assert(a@.take(a@.len() as int) =~= a@);
    assert(b@.take(b@.len() as int) =~= b@);
    relation
}

/// `text` is a number in decimal notation.
fn spells_number(text: &[char]) -> (spelt: bool)
    ensures
        spelt == is_number(text@),
{
    if text.len() == 0 {
        return false;
    }
    let mut i: usize = 0;
    while i < text.len()
        invariant
            i <= text.len(),
            forall|j: int| 0 <= j < i ==> is_digit(#[trigger] text@[j]),
        decreases text.len() - i,
    {
        if !('0' <= text[i] && text[i] <= '9') {
            assert(!is_digit(text@[i as int]));
            return false;
        }
        i += 1;
    }
    true
}

/// The contents of a list of character lists.
spec fn contents(list: Seq<Vec<char>>) -> Seq<Seq<char>> {
    list.map_values(|part: Vec<char>| part@)
}

/// The parts of `text` between the dots.
fn split_parts(text: &[char]) -> (found: Vec<Vec<char>>)
    ensures
        contents(found@) == parts(text@),
{
    let dot: [char; 1] = ['.'];
    let mut found: Vec<Vec<char>> = Vec::new();
    let mut start: usize = 0;
    assert(text@.skip(0) =~= text@);
    assert(contents(found@) + parts(text@.skip(0)) =~= parts(text@));
    loop
        invariant
            start <= text@.len(),
            dot@ == seq!['.'],
            contents(found@) + parts(text@.skip(start as int)) == parts(text@),
        decreases text@.len() - start,
    {
        let rest = vstd::slice::slice_subrange(text, start, text.len());
        assert(rest@ =~= text@.skip(start as int));
        let ghost before = found@;
        match find(rest, dot.as_slice()) {
            Some(n) => {
                let part = vstd::slice::slice_subrange(rest, 0, n);
                assert(part@ =~= rest@.take(n as int));
                found.push(vstd::slice::slice_to_vec(part));
                assert(rest@.skip(n + 1) =~= text@.skip(start + n + 1));
                assert(contents(found@) =~= contents(before).push(part@));
                assert(contents(found@) + parts(text@.skip(start + n + 1)) =~= contents(before)
                    + parts(rest@));
                start = start + n + 1;
            },
            None => {
                found.push(vstd::slice::slice_to_vec(rest));
                assert(contents(found@) =~= contents(before) + parts(rest@));
                return found;
            },
        }
    }
}

/// `held` are the digits of the numbers of the version `expected`.
spec fn spells(held: Option<Vec<Vec<char>>>, expected: Option<Seq<int>>) -> bool {
    match expected {
        Some(numbers) => held is Some && held->0@.len() == numbers.len() && forall|i: int|
            0 <= i < numbers.len() ==> is_number((#[trigger] held->0@[i])@) && number(
                held->0@[i]@,
            ) == numbers[i],
        None => held is None,
    }
}

/// The digits of the numbers of a version; nothing for a name that is no version.
fn version_digits(name: &str) -> (digits: Option<Vec<Vec<char>>>)
    ensures
        spells(digits, version(name@)),
{
    let chars = chars_of(name);
    if chars.len() == 0 || chars[0] != 'v' {
        return None;
    }
    let rest = vstd::slice::slice_subrange(chars.as_slice(), 1, chars.len());
    assert(rest@ =~= name@.drop_first());
    let found = split_parts(rest);
    let mut i: usize = 0;
    while i < found.len()
        invariant
            i <= found.len(),
            contents(found@) == parts(name@.drop_first()),
            forall|j: int| 0 <= j < i ==> is_number((#[trigger] found@[j])@),
        decreases found.len() - i,
    {
        if !spells_number(found[i].as_slice()) {
            assert(!is_number(contents(found@)[i as int]));
            return None;
        }
        i += 1;
    }
    assert forall|j: int| 0 <= j < contents(found@).len() implies is_number(
        #[trigger] contents(found@)[j],
    ) by {
        assert(is_number(found@[j]@));
    }
    assert forall|j: int| 0 <= j < found@.len() implies number((#[trigger] found@[j])@)
        == version(name@)->0[j] by {
        assert(contents(found@)[j] == found@[j]@);
    }
    Some(found)
}

/// How the version `a` stands to `b`.
fn version_relation(a: &str, b: &str) -> (relation: Relation)
    ensures
        relation == (if older(version(a@), version(b@)) {
            Relation::Before
        } else if version(a@) == version(b@) {
            Relation::Same
        } else {
            Relation::After
        }),
{
    let left = match version_digits(a) {
        Some(left) => left,
        None => {
            return match version_digits(b) {
                Some(_) => Relation::Before,
                None => Relation::Same,
            };
        },
    };
    let right = match version_digits(b) {
        Some(right) => right,
        None => return Relation::After,
    };
    let ghost x = version(a@)->0;
    let ghost y = version(b@)->0;
    assert(x.skip(0) =~= x);
    assert(y.skip(0) =~= y);
    assert(x.take(0) =~= y.take(0));
    let mut i: usize = 0;
    while i < left.len() && i < right.len()
        invariant
            i <= left.len(),
            i <= right.len(),
            version(a@) == Some(x),
            version(b@) == Some(y),
            spells(Some(left), Some(x)),
            spells(Some(right), Some(y)),
            numbers_before(x, y) == numbers_before(x.skip(i as int), y.skip(i as int)),
            x.take(i as int) == y.take(i as int),
        decreases left.len() - i,
    {
        assert(number(left@[i as int]@) == x[i as int]);
        assert(number(right@[i as int]@) == y[i as int]);
        assert(x.skip(i as int)[0] == x[i as int]);
        assert(y.skip(i as int)[0] == y[i as int]);
        match number_relation(left[i].as_slice(), right[i].as_slice()) {
            Relation::Before => return Relation::Before,
            Relation::After => {
                assert(x[i as int] != y[i as int]);
                return Relation::After;
            },
            Relation::Same => {},
        }
        assert(x.skip(i as int).drop_first() =~= x.skip(i + 1));
        assert(y.skip(i as int).drop_first() =~= y.skip(i + 1));
        assert(x.take(i + 1) =~= x.take(i as int).push(x[i as int]));
        assert(y.take(i + 1) =~= y.take(i as int).push(y[i as int]));
        i += 1;
    }
    if i < right.len() {
        Relation::Before
    } else if i < left.len() {
        Relation::After
    } else {
        assert(x.take(i as int) =~= x);
        assert(y.take(i as int) =~= y);
        Relation::Same
    }
}

/// The name `a` comes before `b` by its version.
pub fn is_name_before(a: &str, b: &str) -> (before: bool)
    ensures
        before == name_before(a@, b@),
{
    match version_relation(a, b) {
        Relation::Before => true,
        Relation::Same => {
            proof {
                if version(a@) is Some {
                    lemma_numbers_not_before_itself(version(a@)->0);
                }
            }
            is_before(a, b)
        },
        Relation::After => false,
    }
}

/// A number is made of the digits `0` to `9`, at least one of them, and each digit behind it makes
/// it ten times as large and that digit more.
pub proof fn law_digits_make_a_number(digits: Seq<char>, c: char)
    ensures
        is_digit(c) == (48 <= c as int <= 57),
        !is_number(seq![]),
        is_number(seq![c]) == (48 <= c as int <= 57),
        digits.len() > 0 ==> is_number(digits.push(c)) == (is_number(digits) && 48 <= c as int
            <= 57),
        number(seq![]) == 0,
        number(digits.push(c)) == 10 * number(digits) + (c as int - 48),
{
    let more = digits.push(c);
    assert(more.drop_last() =~= digits);
    assert(more[more.len() - 1] == c);
    assert(seq![c][0] == c);
    if is_number(more) {
        assert forall|i: int| 0 <= i < digits.len() implies is_digit(#[trigger] digits[i]) by {
            assert(is_digit(more[i]));
        }
    }
}

/// A text without a dot is one part; a dot ends the first part and starts the others.
pub proof fn law_dots_part_a_text(part: Seq<char>, rest: Seq<char>)
    requires
        forall|i: int| 0 <= i < part.len() ==> part[i] != '.',
    ensures
        parts(part) == seq![part],
        parts(part + seq!['.'] + rest) == seq![part] + parts(rest),
{
    let dot = seq!['.'];
    let text = part + dot + rest;
    crate::text::law_first_position(part, dot, rest);
    let n = crate::text::first_at(text, dot, 0)->0;
    assert(text.subrange(n, n + 1)[0] == '.');
    assert(n == part.len());
    assert(text.take(n) =~= part);
    assert(text.skip(n + 1) =~= rest);
    crate::text::lemma_first_at(part, dot, 0);
    if crate::text::first_at(part, dot, 0) is Some {
        let at = crate::text::first_at(part, dot, 0)->0;
        assert(part.subrange(at, at + 1)[0] == '.');
    }
}

/// A dot at the end of a text and what follows it, without another dot, are one part more.
proof fn lemma_last_part(text: Seq<char>, part: Seq<char>)
    requires
        forall|i: int| 0 <= i < part.len() ==> part[i] != '.',
    ensures
        parts(text + seq!['.'] + part) == parts(text) + seq![part],
    decreases text.len(),
{
    let dot = seq!['.'];
    crate::text::lemma_first_at(text, dot, 0);
    match crate::text::first_at(text, dot, 0) {
        Some(n) => {
            let first = text.take(n);
            let rest = text.skip(n + 1);
            assert(text.subrange(n, n + 1)[0] == '.');
            assert forall|i: int| 0 <= i < first.len() implies first[i] != '.' by {
                assert(!crate::text::occurs_at(text, dot, i));
                if first[i] == '.' {
                    assert(text.subrange(i, i + 1) =~= dot);
                }
            }
            lemma_last_part(rest, part);
            assert(text + dot + part =~= first + dot + (rest + dot + part));
            law_dots_part_a_text(first, rest + dot + part);
            assert(text =~= first + dot + rest);
            law_dots_part_a_text(first, rest);
            assert(seq![first] + (parts(rest) + seq![part]) =~= seq![first] + parts(rest) + seq![
                part,
            ]);
        },
        None => {
            assert forall|i: int| 0 <= i < text.len() implies text[i] != '.' by {
                assert(!crate::text::occurs_at(text, dot, i));
                if text[i] == '.' {
                    assert(text.subrange(i, i + 1) =~= dot);
                }
            }
            law_dots_part_a_text(text, part);
            law_dots_part_a_text(part, seq![]);
            assert(seq![text] + seq![part] =~= parts(text) + seq![part]);
        },
    }
}

/// The decimal notation of a number is a number, and has no dot in it.
proof fn lemma_decimal_is_a_number(n: nat)
    ensures
        is_number(crate::text::digits(n)),
        number(crate::text::digits(n)) == n,
        forall|i: int|
            0 <= i < crate::text::digits(n).len() ==> crate::text::digits(n)[i] != '.',
{
    let text = crate::text::digits(n);
    crate::text::law_decimal_reads_back(n);
    assert forall|i: int| 0 <= i < text.len() implies is_digit(#[trigger] text[i]) && text[i]
        != '.' by {
        assert(48 <= text[i] as int <= 57);
    }
}

/// A version is written as the letter `v` and a number; a dot and another number behind a version
/// make a version with that number more.
pub proof fn law_versions_are_numbers_between_dots(name: Seq<char>, n: nat)
    ensures
        version(seq!['v'] + crate::text::digits(n)) == Some(seq![n as int]),
        version(name) is Some ==> version(name + seq!['.'] + crate::text::digits(n)) == Some(
            version(name)->0.push(n as int),
        ),
        version(name) is None && name.len() > 0 ==> version(
            name + seq!['.'] + crate::text::digits(n),
        ) is None,
{
    let text = crate::text::digits(n);
    lemma_decimal_is_a_number(n);
    let single = seq!['v'] + text;
    assert(single.drop_first() =~= text);
    law_dots_part_a_text(text, seq![]);
    assert(parts(text)[0] == text);
    assert(version(single)->0 =~= seq![n as int]);
    if name.len() > 0 {
        let longer = name + seq!['.'] + text;
        let rest = name.drop_first();
        assert(longer[0] == name[0]);
        assert(longer.drop_first() =~= rest + seq!['.'] + text);
        lemma_last_part(rest, text);
        let before = parts(rest);
        let after = before + seq![text];
        assert forall|i: int| 0 <= i < before.len() implies after[i] == before[i] by {}
        assert(after[before.len() as int] == text);
        if all_numbers(before) {
            assert(all_numbers(after));
            if name[0] == 'v' {
                assert(version(longer)->0 =~= version(name)->0.push(n as int));
            }
        } else {
            let i = choose|i: int| 0 <= i < before.len() && !is_number(#[trigger] before[i]);
            assert(!is_number(after[i]));
        }
    }
}

/// A name that does not start with the letter `v`, or has a part that is no number, is no version.
pub proof fn law_other_names_are_no_version(name: Seq<char>, i: int)
    ensures
        name.len() == 0 || name[0] != 'v' ==> version(name) is None,
        name.len() > 0 && 0 <= i < parts(name.drop_first()).len() && !is_number(
            parts(name.drop_first())[i],
        ) ==> version(name) is None,
{
}

/// The first number that differs decides which list comes first, and a start of a list comes
/// before it.
pub proof fn law_first_number_that_differs_decides(
    start: Seq<int>,
    x: int,
    a: Seq<int>,
    y: int,
    b: Seq<int>,
)
    ensures
        x != y ==> numbers_before(start + seq![x] + a, start + seq![y] + b) == (x < y),
        numbers_before(start, start + seq![x] + a),
        !numbers_before(start + seq![x] + a, start),
        !numbers_before(start, start),
    decreases start.len(),
{
    let p = start + seq![x] + a;
    let q = start + seq![y] + b;
    if start.len() > 0 {
        let rest = start.drop_first();
        law_first_number_that_differs_decides(rest, x, a, y, b);
        assert(p.drop_first() =~= rest + seq![x] + a);
        assert(q.drop_first() =~= rest + seq![y] + b);
    }
}

/// Names of versions are in the order of their numbers, whatever the number of their digits; every
/// other name comes before them.
pub proof fn law_versions_are_in_the_order_of_their_numbers(
    a: nat,
    b: nat,
    c: nat,
    d: nat,
    other: Seq<char>,
)
    ensures
        ({
            let dot = seq!['.'];
            let first = seq!['v'] + crate::text::digits(a) + dot + crate::text::digits(b);
            let second = seq!['v'] + crate::text::digits(c) + dot + crate::text::digits(d);
            &&& name_before(first, second) == (a < c || a == c && b < d)
            &&& name_before(seq!['v'] + crate::text::digits(a), second) == (a <= c)
            &&& version(other) is None ==> name_before(other, first) && !name_before(first, other)
        }),
{
    let dot = seq!['.'];
    let short = seq!['v'] + crate::text::digits(a);
    let first = short + dot + crate::text::digits(b);
    let second = seq!['v'] + crate::text::digits(c) + dot + crate::text::digits(d);
    law_versions_are_numbers_between_dots(short, b);
    law_versions_are_numbers_between_dots(short, a);
    law_versions_are_numbers_between_dots(seq!['v'] + crate::text::digits(c), d);
    law_versions_are_numbers_between_dots(seq!['v'] + crate::text::digits(c), c);
    let x = seq![a as int].push(b as int);
    let y = seq![c as int].push(d as int);
    assert(x =~= seq![a as int, b as int] && y =~= seq![c as int, d as int]);
    reveal_with_fuel(numbers_before, 4);
    assert(x.drop_first() =~= seq![b as int]);
    assert(y.drop_first() =~= seq![d as int]);
    assert(seq![b as int].drop_first() =~= seq![]);
    assert(seq![d as int].drop_first() =~= seq![]);
    assert(seq![a as int].drop_first() =~= seq![]);
    if a == c && b == d {
        crate::text::lemma_not_before_itself(first);
    } else {
        assert(x[0] != y[0] || x[1] != y[1]);
    }
}

/// Names of the same version, and names that are no version, are in the order of their characters.
pub proof fn law_equal_versions_go_by_their_characters(a: Seq<char>, b: Seq<char>)
    requires
        version(a) == version(b),
    ensures
        name_before(a, b) == crate::text::text_before(a, b),
{
    if version(a) is Some {
        lemma_numbers_not_before_itself(version(a)->0);
    }
}

}
