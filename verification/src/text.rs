//! Text predicates and conversions that the rest of the library is stated over.
use vstd::prelude::*;
use vstd::string::*;

verus! {

/// `String::push` appends one character to the end of the text.
pub assume_specification[ String::push ](string: &mut String, ch: char)
    ensures
        final(string)@ == old(string)@.push(ch),
;

/// A character with the Unicode property `White_Space`.
#[verifier::opaque]
pub open spec fn is_white(c: char) -> bool {
    ||| 0x9 <= c as u32 <= 0xd
    ||| c as u32 == 0x20
    ||| c as u32 == 0x85
    ||| c as u32 == 0xa0
    ||| c as u32 == 0x1680
    ||| 0x2000 <= c as u32 <= 0x200a
    ||| c as u32 == 0x2028
    ||| c as u32 == 0x2029
    ||| c as u32 == 0x202f
    ||| c as u32 == 0x205f
    ||| c as u32 == 0x3000
}

/// The text without its leading and trailing white space.
pub open spec fn trimmed(text: Seq<char>) -> Seq<char>
    decreases text.len(),
{
    if text.len() == 0 {
        text
    } else if is_white(text.first()) {
        trimmed(text.drop_first())
    } else if is_white(text.last()) {
        trimmed(text.drop_last())
    } else {
        text
    }
}

/// An ASCII capital as its small letter; any other character as it is.
pub open spec fn lower_char(c: char) -> char {
    if 'A' <= c <= 'Z' {
        (c as u32 + 32) as char
    } else {
        c
    }
}

/// The text with its ASCII capitals replaced by small letters.
pub open spec fn lowered(text: Seq<char>) -> Seq<char> {
    Seq::new(text.len(), |i: int| lower_char(text[i]))
}

/// `needle` stands in `text` at position `at`.
pub open spec fn occurs_at(text: Seq<char>, needle: Seq<char>, at: int) -> bool {
    &&& 0 <= at
    &&& at + needle.len() <= text.len()
    &&& text.subrange(at, at + needle.len()) == needle
}

/// `needle` stands somewhere in `text`.
pub open spec fn occurs(text: Seq<char>, needle: Seq<char>) -> bool {
    exists|at: int| occurs_at(text, needle, at)
}

/// `text` begins with `prefix`.
pub open spec fn has_prefix(text: Seq<char>, prefix: Seq<char>) -> bool {
    occurs_at(text, prefix, 0)
}

/// `text` ends with `suffix`.
pub open spec fn has_suffix(text: Seq<char>, suffix: Seq<char>) -> bool {
    occurs_at(text, suffix, text.len() - suffix.len())
}

/// `left` comes before `right` in code point order.
pub open spec fn text_before(left: Seq<char>, right: Seq<char>) -> bool
    decreases left.len(),
{
    if right.len() == 0 {
        false
    } else if left.len() == 0 {
        true
    } else if left[0] != right[0] {
        left[0] < right[0]
    } else {
        text_before(left.drop_first(), right.drop_first())
    }
}

/// No text comes before itself.
pub proof fn text_order_is_irreflexive(a: Seq<char>)
    ensures
        !text_before(a, a),
    decreases a.len(),
{
    if a.len() > 0 {
        text_order_is_irreflexive(a.drop_first());
    }
}

/// Of two different texts exactly one comes before the other.
pub proof fn text_order_is_total(a: Seq<char>, b: Seq<char>)
    ensures
        !(text_before(a, b) && text_before(b, a)),
        a == b || text_before(a, b) || text_before(b, a),
    decreases a.len() + b.len(),
{
    if a.len() > 0 {
        if b.len() > 0 && a[0] == b[0] {
            text_order_is_total(a.drop_first(), b.drop_first());
            if a.drop_first() == b.drop_first() {
                assert(a == seq![a[0]] + a.drop_first());
                assert(b == seq![b[0]] + b.drop_first());
            }
        }
    } else if b.len() == 0 {
        assert(a =~= b);
    }
}

/// The order in code points is transitive.
pub proof fn text_order_is_transitive(a: Seq<char>, b: Seq<char>, c: Seq<char>)
    requires
        text_before(a, b),
        text_before(b, c),
    ensures
        text_before(a, c),
    decreases a.len(),
{
    if a.len() > 0 && a[0] == b[0] && b[0] == c[0] {
        text_order_is_transitive(a.drop_first(), b.drop_first(), c.drop_first());
    }
}

/// The decimal digit that stands for `d`.
pub open spec fn digit_char(d: nat) -> char {
    (48 + d) as char
}

/// The decimal notation of a number, without leading zeros.
pub open spec fn decimal(n: nat) -> Seq<char>
    decreases n,
{
    if n < 10 {
        seq![digit_char(n)]
    } else {
        decimal(n / 10).push(digit_char(n % 10))
    }
}

/// The small hexadecimal digit that stands for `d`.
pub open spec fn hex_char(d: nat) -> char {
    if d < 10 {
        (48 + d) as char
    } else {
        (87 + d) as char
    }
}

/// The last `width` hexadecimal digits of a number.
pub open spec fn hex(n: nat, width: nat) -> Seq<char>
    decreases width,
{
    if width == 0 {
        Seq::empty()
    } else {
        hex(n / 16, (width - 1) as nat).push(hex_char(n % 16))
    }
}

/// A decimal digit.
pub open spec fn is_digit(c: char) -> bool {
    '0' <= c <= '9'
}

/// The number that a run of decimal digits stands for.
pub open spec fn digits_value(digits: Seq<char>) -> nat
    decreases digits.len(),
{
    if digits.len() == 0 {
        0
    } else {
        digits_value(digits.drop_last()) * 10 + (digits.last() as u32 - 48) as nat
    }
}

/// Every character is a decimal digit.
pub open spec fn all_digits(text: Seq<char>) -> bool {
    forall|i: int| 0 <= i < text.len() ==> is_digit(#[trigger] text[i])
}

/// A text without the plus sign that it may begin with.
pub open spec fn without_plus(text: Seq<char>) -> Seq<char> {
    if text.len() > 0 && text[0] == '+' {
        text.drop_first()
    } else {
        text
    }
}

/// The number that a text denotes: an optional plus sign and at least one decimal digit, with
/// a value of at most `max`.
pub open spec fn number_of_text(text: Seq<char>, max: nat) -> Option<nat> {
    let digits = without_plus(text);
    if digits.len() > 0 && all_digits(digits) && digits_value(digits) <= max {
        Some(digits_value(digits))
    } else {
        None
    }
}

/// How many characters at the start of the text are not white space.
pub open spec fn word_len(text: Seq<char>) -> nat
    decreases text.len(),
{
    if text.len() == 0 || is_white(text[0]) {
        0
    } else {
        1 + word_len(text.drop_first())
    }
}

/// A word is no longer than the text that it begins.
pub proof fn word_len_bound(text: Seq<char>)
    ensures
        word_len(text) <= text.len(),
    decreases text.len(),
{
    if text.len() > 0 && !is_white(text[0]) {
        word_len_bound(text.drop_first());
    }
}

/// The words of a text: its longest runs of characters that are not white space.
pub open spec fn words(text: Seq<char>) -> Seq<Seq<char>>
    decreases text.len(),
{
    if text.len() == 0 {
        Seq::empty()
    } else if is_white(text[0]) {
        words(text.drop_first())
    } else {
        proof {
            word_len_bound(text);
        }
        seq![text.take(word_len(text) as int)] + words(text.skip(word_len(text) as int))
    }
}

/// The texts one after the other, with `separator` between them.
pub open spec fn joined(texts: Seq<Seq<char>>, separator: Seq<char>) -> Seq<char>
    decreases texts.len(),
{
    if texts.len() == 0 {
        Seq::empty()
    } else if texts.len() == 1 {
        texts[0]
    } else {
        joined(texts.drop_last(), separator) + separator + texts.last()
    }
}

/// The views of a list of strings.
pub open spec fn views(texts: Seq<String>) -> Seq<Seq<char>> {
    Seq::new(texts.len(), |i: int| texts[i]@)
}

/// The view of an optional string.
pub open spec fn opt_view(text: Option<String>) -> Option<Seq<char>> {
    match text {
        Some(text) => Some(text@),
        None => None,
    }
}

/// The view of an optional string slice.
pub open spec fn opt_str_view(text: Option<&str>) -> Option<Seq<char>> {
    match text {
        Some(text) => Some(text@),
        None => None,
    }
}

/// The characters of a text, in order.
pub fn chars_of(text: &str) -> (chars: Vec<char>)
    ensures
        chars@ == text@,
{
    let mut chars: Vec<char> = Vec::new();
    for c in it: text.chars()
        invariant
            it.seq() == text@,
            chars@ == text@.take(it.index() as int),
    {
        chars.push(c);
    }
    chars
}

/// Whether two texts are the same.
pub fn same_text(left: &str, right: &str) -> (same: bool)
    ensures
        same == (left@ == right@),
{
    left.to_owned() == right.to_owned()
}

/// Whether an optional text is present and the same as `right`.
pub fn is_text(left: Option<&str>, right: &str) -> (same: bool)
    ensures
        same == (opt_str_view(left) == Some(right@)),
{
    match left {
        Some(left) => same_text(left, right),
        None => false,
    }
}

/// Whether two optional texts are both absent or the same.
pub fn same_optional_text(left: &Option<String>, right: &Option<String>) -> (same: bool)
    ensures
        same == (opt_view(*left) == opt_view(*right)),
{
    match (left, right) {
        (Some(left), Some(right)) => same_text(left.as_str(), right.as_str()),
        (None, None) => true,
        _ => false,
    }
}

/// A copy of an optional text.
pub fn copy_optional_text(text: &Option<String>) -> (copy: Option<String>)
    ensures
        opt_view(copy) == opt_view(*text),
{
    match text {
        Some(text) => Some(text.clone()),
        None => None,
    }
}

/// An optional text as a string of its own.
pub fn own_optional_text(text: Option<&str>) -> (copy: Option<String>)
    ensures
        opt_view(copy) == opt_str_view(text),
{
    match text {
        Some(text) => Some(text.to_owned()),
        None => None,
    }
}

/// Whether a character is white space.
pub fn white(c: char) -> (answer: bool)
    ensures
        answer == is_white(c),
{
    reveal(is_white);
    let code: u32 = c as u32;
    (code >= 0x9 && code <= 0xd) || code == 0x20 || code == 0x85 || code == 0xa0 || code == 0x1680
        || (code >= 0x2000 && code <= 0x200a) || code == 0x2028 || code == 0x2029 || code == 0x202f
        || code == 0x205f || code == 0x3000
}

/// The text without its leading and trailing white space.
pub fn trim(text: &str) -> (core: &str)
    ensures
        core@ == trimmed(text@),
{
    let chars = chars_of(text);
    let mut start: usize = 0;
    let mut end: usize = chars.len();
    assert(text@.subrange(0, end as int) =~= text@);
    while start < end && white(chars[start])
        invariant
            start <= end == chars@.len(),
            chars@ == text@,
            trimmed(text@.subrange(start as int, end as int)) == trimmed(text@),
        decreases end - start,
    {
        assert(text@.subrange(start as int, end as int).drop_first() =~= text@.subrange(
            start + 1,
            end as int,
        ));
        start += 1;
    }
    while start < end && white(chars[end - 1])
        invariant
            start <= end <= chars@.len(),
            chars@ == text@,
            start < end ==> !is_white(text@[start as int]),
            trimmed(text@.subrange(start as int, end as int)) == trimmed(text@),
        decreases end - start,
    {
        assert(text@.subrange(start as int, end as int).drop_last() =~= text@.subrange(
            start as int,
            end - 1,
        ));
        end -= 1;
    }
    text.substring_char(start, end)
}

/// An ASCII capital as a small letter; any other character as it is.
pub fn lower_of(c: char) -> (small: char)
    ensures
        small == lower_char(c),
{
    if c >= 'A' && c <= 'Z' {
        (c as u8 + 32) as char
    } else {
        c
    }
}

/// The text with its ASCII capitals replaced by small letters.
pub fn lower(text: &str) -> (small: String)
    ensures
        small@ == lowered(text@),
{
    let mut small = String::new();
    for c in it: text.chars()
        invariant
            it.seq() == text@,
            small@ == lowered(text@).take(it.index() as int),
    {
        small.push(lower_of(c));
        assert(small@ =~= lowered(text@).take(it.index() + 1));
    }
    assert(lowered(text@).take(text@.len() as int) =~= lowered(text@));
    small
}

/// Whether two texts differ at most in the case of ASCII letters.
pub fn same_ignoring_case(left: &str, right: &str) -> (same: bool)
    ensures
        same == (lowered(left@) == lowered(right@)),
{
    lower(left) == lower(right)
}

/// Whether `needle` stands in `text` at position `at`.
fn stands_at(text: &Vec<char>, needle: &Vec<char>, at: usize) -> (found: bool)
    requires
        at + needle.len() <= text.len(),
    ensures
        found == occurs_at(text@, needle@, at as int),
{
    let mut i: usize = 0;
    while i < needle.len()
        invariant
            i <= needle.len(),
            at + needle.len() <= text.len(),
            forall|j: int| 0 <= j < i ==> text@[at + j] == needle@[j],
        decreases needle@.len() - i,
    {
        if text[at + i] != needle[i] {
            assert(text@.subrange(at as int, at + needle@.len())[i as int] != needle@[i as int]);
            return false;
        }
        i += 1;
    }
    assert(text@.subrange(at as int, at + needle@.len()) =~= needle@);
    true
}

/// Whether `needle` stands somewhere in `text`.
pub fn contains_text(text: &str, needle: &str) -> (found: bool)
    ensures
        found == occurs(text@, needle@),
{
    let text_chars = chars_of(text);
    let needle_chars = chars_of(needle);
    if needle_chars.len() > text_chars.len() {
        return false;
    }
    let last: usize = text_chars.len() - needle_chars.len();
    let mut at: usize = 0;
    while at <= last
        invariant
            at <= last + 1,
            last + needle_chars@.len() == text_chars@.len(),
            text_chars@ == text@,
            needle_chars@ == needle@,
            forall|j: int| 0 <= j < at ==> !occurs_at(text@, needle@, j),
        decreases last + 1 - at,
    {
        if stands_at(&text_chars, &needle_chars, at) {
            return true;
        }
        if at == last {
            assert forall|j: int| !occurs_at(text@, needle@, j) by {}
            return false;
        }
        at += 1;
    }
    false
}

/// Whether `text` begins with `prefix`.
pub fn starts_with_text(text: &str, prefix: &str) -> (found: bool)
    ensures
        found == has_prefix(text@, prefix@),
{
    let text_chars = chars_of(text);
    let prefix_chars = chars_of(prefix);
    prefix_chars.len() <= text_chars.len() && stands_at(&text_chars, &prefix_chars, 0)
}

/// Whether `text` ends with `suffix`.
pub fn ends_with_text(text: &str, suffix: &str) -> (found: bool)
    ensures
        found == has_suffix(text@, suffix@),
{
    let text_chars = chars_of(text);
    let suffix_chars = chars_of(suffix);
    suffix_chars.len() <= text_chars.len() && stands_at(
        &text_chars,
        &suffix_chars,
        text_chars.len() - suffix_chars.len(),
    )
}

/// Whether `left` comes before `right` in code point order.
pub fn is_before(left: &str, right: &str) -> (before: bool)
    ensures
        before == text_before(left@, right@),
{
    let a = chars_of(left);
    let b = chars_of(right);
    let mut i: usize = 0;
    assert(left@.skip(0) =~= left@ && right@.skip(0) =~= right@);
    while i < a.len() && i < b.len() && a[i] == b[i]
        invariant
            i <= a@.len(),
            i <= b@.len(),
            a@ == left@,
            b@ == right@,
            text_before(left@, right@) == text_before(left@.skip(i as int), right@.skip(i as int)),
        decreases a@.len() - i,
    {
        assert(left@.skip(i as int).drop_first() =~= left@.skip(i + 1));
        assert(right@.skip(i as int).drop_first() =~= right@.skip(i + 1));
        i += 1;
    }
    if i == b.len() {
        false
    } else if i == a.len() {
        true
    } else {
        a[i] < b[i]
    }
}

/// Appends the decimal notation of a number.
pub fn push_decimal(text: &mut String, n: u64)
    ensures
        final(text)@ == old(text)@ + decimal(n as nat),
    decreases n,
{
    if n >= 10 {
        push_decimal(text, n / 10);
    }
    text.push((48u8 + (n % 10) as u8) as char);
    assert(text@ =~= old(text)@ + decimal(n as nat));
}

/// The decimal notation of a number.
pub fn decimal_text(n: u64) -> (text: String)
    ensures
        text@ == decimal(n as nat),
{
    let mut text = String::new();
    push_decimal(&mut text, n);
    assert(text@ =~= decimal(n as nat));
    text
}

/// Appends the last `width` hexadecimal digits of a number.
pub fn push_hex(text: &mut String, n: u64, width: u32)
    ensures
        final(text)@ == old(text)@ + hex(n as nat, width as nat),
    decreases width,
{
    if width > 0 {
        push_hex(text, n / 16, width - 1);
        let digit: u8 = (n % 16) as u8;
        if digit < 10 {
            text.push((48u8 + digit) as char);
        } else {
            text.push((87u8 + digit) as char);
        }
    }
    assert(text@ =~= old(text)@ + hex(n as nat, width as nat));
}

/// A longer run of digits stands for a number that is at least as large.
proof fn digits_value_grows(digits: Seq<char>, n: int)
    requires
        0 <= n <= digits.len(),
        all_digits(digits),
    ensures
        digits_value(digits.take(n)) <= digits_value(digits),
    decreases digits.len(),
{
    if n < digits.len() {
        digits_value_grows(digits.drop_last(), n);
        assert(digits.drop_last().take(n) =~= digits.take(n));
    } else {
        assert(digits.take(n) =~= digits);
    }
}

/// The number that a text denotes, if it is a decimal number of at most `max`.
pub fn parse_number(text: &str, max: u64) -> (number: Option<u64>)
    ensures
        match number {
            Some(n) => number_of_text(text@, max as nat) == Some(n as nat),
            None => number_of_text(text@, max as nat) is None,
        },
{
    let chars = chars_of(text);
    let start: usize = if chars.len() > 0 && chars[0] == '+' {
        1
    } else {
        0
    };
    let ghost digits = without_plus(text@);
    assert(digits =~= text@.skip(start as int));
    if start == chars.len() {
        return None;
    }
    let mut value: u64 = 0;
    let mut i: usize = start;
    while i < chars.len()
        invariant
            start <= i <= chars@.len(),
            chars@ == text@,
            digits == without_plus(text@),
            digits == text@.skip(start as int),
            start < chars@.len(),
            forall|j: int| 0 <= j < i - start ==> is_digit(#[trigger] digits[j]),
            value == digits_value(digits.take(i - start)),
            value <= max,
        decreases chars@.len() - i,
    {
        let c = chars[i];
        assert(c == digits[i - start]);
        if c < '0' || c > '9' {
            assert(!is_digit(digits[i - start]));
            return None;
        }
        let digit: u64 = (c as u32 - 48) as u64;
        assert(digits.take(i - start + 1).drop_last() =~= digits.take(i - start));
        if value > max / 10 || digit > max - value * 10 {
            proof {
                if number_of_text(text@, max as nat) is Some {
                    digits_value_grows(digits, i - start + 1);
                }
            }
            return None;
        }
        value = value * 10 + digit;
        i += 1;
    }
    assert(digits.take(digits.len() as int) =~= digits);
    Some(value)
}

/// The words of a text.
pub fn split_words(text: &str) -> (list: Vec<String>)
    ensures
        views(list@) == words(text@),
{
    let chars = chars_of(text);
    let mut list: Vec<String> = Vec::new();
    let mut i: usize = 0;
    assert(text@.skip(0) =~= text@);
    assert(views(list@) + words(text@) =~= words(text@));
    while i < chars.len()
        invariant
            i <= chars@.len(),
            chars@ == text@,
            views(list@) + words(text@.skip(i as int)) == words(text@),
        decreases chars@.len() - i,
    {
        let ghost rest = text@.skip(i as int);
        if white(chars[i]) {
            assert(rest.drop_first() =~= text@.skip(i + 1));
            i += 1;
        } else {
            let mut word = String::new();
            let mut j: usize = i;
            assert(text@.skip(i as int).skip(0) =~= rest);
            while j < chars.len() && !white(chars[j])
                invariant
                    i <= j <= chars@.len(),
                    chars@ == text@,
                    rest == text@.skip(i as int),
                    word@ == rest.take(j - i),
                    word_len(rest) == (j - i) + word_len(rest.skip(j - i)),
                decreases chars@.len() - j,
            {
                assert(rest.skip(j - i)[0] == chars@[j as int]);
                assert(rest.skip(j - i).drop_first() =~= rest.skip(j - i + 1));
                assert(rest.take(j - i).push(chars@[j as int]) =~= rest.take(j - i + 1));
                word.push(chars[j]);
                j += 1;
            }
            if j < chars.len() {
                assert(rest.skip(j - i)[0] == chars@[j as int]);
            }
            assert(word_len(rest) == j - i);
            assert(rest[0] == chars@[i as int]);
            assert(j > i) by {
                if j == i {
                    assert(rest.skip(0) =~= rest);
                    assert(word_len(rest) == 1 + word_len(rest.drop_first()));
                }
            }
            let ghost before = list@;
            list.push(word);
            assert(rest.skip(j - i) =~= text@.skip(j as int));
            assert(views(list@) =~= views(before).push(word@));
            assert(views(list@) + words(text@.skip(j as int)) =~= views(before) + words(rest));
            i = j;
        }
    }
    assert(views(list@) + words(text@.skip(i as int)) =~= views(list@));
    list
}

/// The texts one after the other, with `separator` between them.
pub fn join(texts: &Vec<String>, separator: &str) -> (text: String)
    ensures
        text@ == joined(views(texts@), separator@),
{
    let mut text = String::new();
    let mut i: usize = 0;
    let ghost all = views(texts@);
    assert(text@ =~= joined(all.take(0), separator@));
    while i < texts.len()
        invariant
            i <= texts@.len(),
            all == views(texts@),
            text@ == joined(all.take(i as int), separator@),
        decreases texts@.len() - i,
    {
        assert(all.take(i + 1).drop_last() =~= all.take(i as int));
        let ghost before = text@;
        if i > 0 {
            text.append(separator);
        }
        text.append(texts[i].as_str());
        assert(text@ =~= joined(all.take(i + 1), separator@)) by {
            if i == 0 {
                assert(before =~= Seq::<char>::empty());
            }
        }
        i += 1;
    }
    assert(all.take(i as int) =~= all);
    text
}

/// The digits of a number in decimal notation.
pub proof fn decimal_is_made_of_digits(n: nat)
    ensures
        decimal(n).len() > 0,
        all_digits(decimal(n)),
        digits_value(decimal(n)) == n,
    decreases n,
{
    if n < 10 {
        let one = seq![digit_char(n)];
        assert(one.drop_last() =~= Seq::<char>::empty());
        assert(digits_value(one.drop_last()) == 0);
        assert(one.last() as u32 == 48 + n);
        assert(digits_value(one) == digits_value(one.drop_last()) * 10 + n);
    } else {
        decimal_is_made_of_digits(n / 10);
        let shorter = decimal(n / 10);
        let all = decimal(n);
        assert(all.drop_last() =~= shorter);
        assert(is_digit(digit_char(n % 10)));
        assert(all.last() as u32 == 48 + n % 10);
        assert forall|i: int| 0 <= i < all.len() implies is_digit(#[trigger] all[i]) by {
            if i < shorter.len() {
                assert(all[i] == shorter[i]);
            }
        }
    }
}

/// A number that is written in decimal notation is read back as it was.
pub proof fn decimal_is_read_back(n: nat, max: nat)
    requires
        n <= max,
    ensures
        number_of_text(decimal(n), max) == Some(n),
{
    decimal_is_made_of_digits(n);
    assert(is_digit(decimal(n)[0]));
    assert(without_plus(decimal(n)) == decimal(n));
}

/// Whether a text is one word: it has characters, and none of them is white.
pub open spec fn is_word(text: Seq<char>) -> bool {
    text.len() > 0 && forall|i: int| 0 <= i < text.len() ==> !is_white(#[trigger] text[i])
}

/// The first word of a text that begins with a word and white space is that word.
proof fn first_word_ends_at_white(word: Seq<char>, rest: Seq<char>)
    requires
        forall|i: int| 0 <= i < word.len() ==> !is_white(#[trigger] word[i]),
        rest.len() == 0 || is_white(rest[0]),
    ensures
        word_len(word + rest) == word.len(),
    decreases word.len(),
{
    let whole = word + rest;
    if word.len() == 0 {
        assert(whole =~= rest);
    } else {
        assert(whole[0] == word[0]);
        assert(whole.drop_first() =~= word.drop_first() + rest);
        assert forall|i: int| 0 <= i < word.drop_first().len() implies !is_white(
            #[trigger] word.drop_first()[i],
        ) by {
            assert(word.drop_first()[i] == word[i + 1]);
        }
        first_word_ends_at_white(word.drop_first(), rest);
    }
}

/// Two words with a space between them are the words of the text that they make.
pub proof fn two_words_are_read_back(first: Seq<char>, second: Seq<char>)
    requires
        is_word(first),
        is_word(second),
    ensures
        words(first + " "@ + second) == seq![first, second],
{
    reveal_strlit(" ");
    reveal(is_white);
    let blank = " "@;
    let tail = blank + second;
    let whole = first + blank + second;
    assert(whole =~= first + tail);
    assert(tail[0] == ' ');
    first_word_ends_at_white(first, tail);
    assert(whole[0] == first[0]);
    assert(whole.take(first.len() as int) =~= first);
    assert(whole.skip(first.len() as int) =~= tail);
    assert(tail.drop_first() =~= second);
    first_word_ends_at_white(second, Seq::empty());
    assert(second + Seq::<char>::empty() =~= second);
    assert(second.take(second.len() as int) =~= second);
    assert(words(second.skip(second.len() as int)) =~= Seq::<Seq<char>>::empty());
    assert(words(second) =~= seq![second]);
    assert(words(tail) == words(second));
    assert(seq![first] + seq![second] =~= seq![first, second]);
}

/// A number in decimal notation is one word.
pub proof fn decimal_is_a_word(n: nat)
    ensures
        is_word(decimal(n)),
{
    reveal(is_white);
    decimal_is_made_of_digits(n);
    assert forall|i: int| 0 <= i < decimal(n).len() implies !is_white(
        #[trigger] decimal(n)[i],
    ) by {
        assert(is_digit(decimal(n)[i]));
    }
}

/// Trimming takes away white space at both ends and nothing else: what is left is a part of the text,
/// begins and ends with something that is not white, and all that was taken away is white.
pub proof fn trimming_takes_away_white_ends(text: Seq<char>) -> (ends: (int, int))
    ensures
        0 <= ends.0 <= ends.1 <= text.len(),
        trimmed(text) == text.subrange(ends.0, ends.1),
        forall|i: int| 0 <= i < ends.0 ==> is_white(#[trigger] text[i]),
        forall|i: int| ends.1 <= i < text.len() ==> is_white(#[trigger] text[i]),
        trimmed(text).len() > 0 ==> !is_white(trimmed(text)[0]) && !is_white(trimmed(text).last()),
    decreases text.len(),
{
    if text.len() == 0 {
        assert(trimmed(text) =~= text.subrange(0, 0));
        (0, 0)
    } else if is_white(text.first()) {
        let rest = text.drop_first();
        let (a, b) = trimming_takes_away_white_ends(rest);
        assert(trimmed(text) =~= text.subrange(a + 1, b + 1));
        assert forall|i: int| 0 <= i < a + 1 implies is_white(#[trigger] text[i]) by {
            if i > 0 {
                assert(rest[i - 1] == text[i]);
            }
        }
        assert forall|i: int| b + 1 <= i < text.len() implies is_white(#[trigger] text[i]) by {
            assert(rest[i - 1] == text[i]);
        }
        (a + 1, b + 1)
    } else if is_white(text.last()) {
        let rest = text.drop_last();
        let (a, b) = trimming_takes_away_white_ends(rest);
        assert(trimmed(text) =~= text.subrange(a, b));
        assert forall|i: int| 0 <= i < a implies is_white(#[trigger] text[i]) by {
            assert(rest[i] == text[i]);
        }
        assert forall|i: int| b <= i < text.len() implies is_white(#[trigger] text[i]) by {
            if i < rest.len() {
                assert(rest[i] == text[i]);
            }
        }
        (a, b)
    } else {
        assert(trimmed(text) =~= text.subrange(0, text.len() as int));
        (0, text.len() as int)
    }
}

/// Of two texts that begin alike, the one with the smaller character where they part comes first; a
/// text comes before every longer one that begins with it.
pub proof fn texts_are_ordered_by_their_characters(
    start: Seq<char>,
    left: Seq<char>,
    right: Seq<char>,
)
    ensures
        left.len() > 0 && right.len() > 0 && left[0] < right[0] ==> text_before(
            start + left,
            start + right,
        ),
        right.len() > 0 ==> text_before(start, start + right),
    decreases start.len(),
{
    if start.len() == 0 {
        assert(start + left =~= left);
        assert(start + right =~= right);
    } else {
        let rest = start.drop_first();
        texts_are_ordered_by_their_characters(rest, left, right);
        assert((start + left).drop_first() =~= rest + left);
        assert((start + right).drop_first() =~= rest + right);
    }
}

/// A text stands in another exactly where the other is made of something before it, the text itself
/// and something behind it.
pub proof fn a_text_stands_between_two_others(before: Seq<char>, needle: Seq<char>, behind: Seq<char>)
    ensures
        occurs(before + needle + behind, needle),
        has_prefix(needle + behind, needle),
        has_suffix(before + needle, needle),
{
    let whole = before + needle + behind;
    let at = before.len() as int;
    assert(whole.subrange(at, at + needle.len()) =~= needle);
    assert(occurs_at(whole, needle, at));
    assert((needle + behind).subrange(0, needle.len() as int) =~= needle);
    assert((before + needle).subrange(at, at + needle.len()) =~= needle);
}

/// A text that stands in another is a part of it.
pub proof fn what_stands_in_a_text_is_a_part_of_it(text: Seq<char>, needle: Seq<char>) -> (at: int)
    requires
        occurs(text, needle),
    ensures
        0 <= at <= at + needle.len() <= text.len(),
        text == text.take(at) + needle + text.skip(at + needle.len()),
{
    let at = choose|at: int| occurs_at(text, needle, at);
    assert(text =~= text.take(at) + needle + text.skip(at + needle.len()));
    at
}

/// Small letters replace ASCII capitals, one for one, and change nothing else.
pub proof fn only_ascii_capitals_become_small(text: Seq<char>, i: int)
    requires
        0 <= i < text.len(),
    ensures
        lowered(text).len() == text.len(),
        'A' <= text[i] <= 'Z' ==> lowered(text)[i] as u32 == text[i] as u32 + 32,
        !('A' <= text[i] <= 'Z') ==> lowered(text)[i] == text[i],
{
}

/// Only digits make a number, and a plus sign in front of them changes nothing.
pub proof fn a_number_is_made_of_digits(text: Seq<char>, max: nat, i: int)
    ensures
        0 < i < text.len() && !is_digit(text[i]) ==> number_of_text(text, max) is None,
        text.len() == 0 ==> number_of_text(text, max) is None,
        text.len() > 0 && is_digit(text[0]) ==> number_of_text(seq!['+'] + text, max)
            == number_of_text(text, max),
        number_of_text(text, max) matches Some(number) ==> number <= max,
{
    let digits = without_plus(text);
    if 0 < i < text.len() && !is_digit(text[i]) {
        if text[0] == '+' {
            assert(digits[i - 1] == text[i]);
        } else {
            assert(digits[i] == text[i]);
        }
    }
    let signed = seq!['+'] + text;
    assert(signed.drop_first() =~= text);
}

/// Texts are joined in their order, with the separator between each two of them and nowhere else.
pub proof fn texts_are_joined_in_their_order(
    first: Seq<Seq<char>>,
    second: Seq<Seq<char>>,
    separator: Seq<char>,
)
    requires
        first.len() > 0,
        second.len() > 0,
    ensures
        joined(first + second, separator) == joined(first, separator) + separator + joined(
            second,
            separator,
        ),
        joined(first.take(1), separator) == first[0],
    decreases second.len(),
{
    let all = first + second;
    assert(all.drop_last() =~= first + second.drop_last());
    assert(all.last() == second.last());
    if second.len() == 1 {
        assert(first + second.drop_last() =~= first);
        assert(joined(second, separator) == second[0]);
    } else {
        texts_are_joined_in_their_order(first, second.drop_last(), separator);
        assert(joined(all, separator) =~= joined(first, separator) + separator + joined(
            second,
            separator,
        ));
    }
}

/// The number that small hexadecimal digits stand for.
pub open spec fn hex_value(digits: Seq<char>) -> int
    decreases digits.len(),
{
    if digits.len() == 0 {
        0
    } else {
        let c = digits.last() as int;
        hex_value(digits.drop_last()) * 16 + if c >= 97 {
            c - 87
        } else {
            c - 48
        }
    }
}

/// Sixteen, as often as a number has digits.
pub open spec fn sixteens(width: nat) -> int
    decreases width,
{
    if width == 0 {
        1
    } else {
        16 * sixteens((width - 1) as nat)
    }
}

/// A number that fits is read back from its hexadecimal digits, of which there are as many as were
/// asked for.
pub proof fn hexadecimal_is_read_back(n: nat, width: nat)
    requires
        n < sixteens(width),
    ensures
        hex(n, width).len() == width,
        hex_value(hex(n, width)) == n,
    decreases width,
{
    if width > 0 {
        let less = (width - 1) as nat;
        assert(n / 16 < sixteens(less));
        hexadecimal_is_read_back(n / 16, less);
        assert(hex(n, width).drop_last() =~= hex(n / 16, less));
        assert(hex(n, width).last() == hex_char(n % 16));
    }
}

} // verus!
