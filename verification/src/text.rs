//! Small helpers on text.

use vstd::prelude::*;

verus! {

/// The text behind an optional string.
pub open spec fn text_of(text: Option<String>) -> Option<Seq<char>> {
    match text {
        Some(text) => Some(text@),
        None => None,
    }
}

/// The texts behind a sequence of strings.
pub open spec fn texts_of(texts: Seq<String>) -> Seq<Seq<char>> {
    texts.map_values(|text: String| text@)
}

/// The characters of `text`, in order.
pub fn to_chars(text: &str) -> (chars: Vec<char>)
    ensures
        chars@ == text@,
{
    let mut chars: Vec<char> = Vec::new();
    for c in it: text.chars()
        invariant
            chars@ == text@.take(it.index() as int),
            it.seq() == text@,
    {
        chars.push(c);
    }
    chars
}

/// `String::from_iter` of the standard library on the characters of
/// `chars`: the string that holds exactly these characters, in order.
#[verifier::external_body]
pub(crate) fn string_from_chars(chars: &Vec<char>) -> (text: String)
    ensures
        text@ == chars@,
{
    String::from_iter(chars.iter())
}

/// Whether a character is white space in the sense of Unicode: the
/// characters that `char::is_whitespace` of the standard library accepts.
pub open spec fn is_whitespace(c: char) -> bool {
    let code = c as u32;
    ||| 0x09 <= code <= 0x0d
    ||| code == 0x20
    ||| code == 0x85
    ||| code == 0xa0
    ||| code == 0x1680
    ||| 0x2000 <= code <= 0x200a
    ||| code == 0x2028
    ||| code == 0x2029
    ||| code == 0x202f
    ||| code == 0x205f
    ||| code == 0x3000
}

/// `text` without the white space at its start.
pub open spec fn trimmed_start(text: Seq<char>) -> Seq<char>
    decreases text.len(),
{
    if text.len() > 0 && is_whitespace(text[0]) {
        trimmed_start(text.skip(1))
    } else {
        text
    }
}

/// `text` without the white space at its end.
pub open spec fn trimmed_end(text: Seq<char>) -> Seq<char>
    decreases text.len(),
{
    if text.len() > 0 && is_whitespace(text.last()) {
        trimmed_end(text.drop_last())
    } else {
        text
    }
}

/// `text` without the white space at its start and at its end.
pub open spec fn trimmed(text: Seq<char>) -> Seq<char> {
    trimmed_end(trimmed_start(text))
}

/// Whether a character is one of `0` to `9`.
pub open spec fn is_digit(c: char) -> bool {
    48 <= c as u32 <= 57
}

/// The number that a sequence of decimal digits writes.
pub open spec fn decimal_value(digits: Seq<char>) -> nat
    decreases digits.len(),
{
    if digits.len() == 0 {
        0
    } else {
        decimal_value(digits.drop_last()) * 10 + (digits.last() as u32 - 48) as nat
    }
}

/// Whether `text` holds nothing but decimal digits.
pub open spec fn all_digits(text: Seq<char>) -> bool {
    forall|i: int| 0 <= i < text.len() ==> is_digit(#[trigger] text[i])
}

/// `text` without a `+` at its start.
pub open spec fn unsigned(text: Seq<char>) -> Seq<char> {
    if text.len() > 0 && text[0] == '+' {
        text.skip(1)
    } else {
        text
    }
}

/// The number that `text` writes in decimal, as `str::parse::<u32>` of the
/// standard library reads it: one or more digits, after at most one `+`,
/// with a value that fits; anything else is no number.
pub open spec fn parsed_u32(text: Seq<char>) -> Option<u32> {
    let digits = unsigned(text);
    if digits.len() > 0 && all_digits(digits) && decimal_value(digits) <= u32::MAX {
        Some(decimal_value(digits) as u32)
    } else {
        None
    }
}

/// The decimal digits of `n`, without leading zeros.
pub open spec fn decimal(n: nat) -> Seq<char>
    decreases n,
{
    if n < 10 {
        seq![((n + 48) as u8) as char]
    } else {
        decimal(n / 10).push((((n % 10) + 48) as u8) as char)
    }
}

/// The place of the first line feed in `text`, or its length where it has
/// none.
pub open spec fn line_end(text: Seq<char>) -> int
    decreases text.len(),
{
    if text.len() == 0 || text[0] == '\n' {
        0
    } else {
        1 + line_end(text.skip(1))
    }
}

/// A line without the carriage return that stood before its line feed.
pub open spec fn without_cr(line: Seq<char>) -> Seq<char> {
    if line.len() > 0 && line.last() == '\r' {
        line.drop_last()
    } else {
        line
    }
}

/// The lines of `text`, as `str::lines` of the standard library gives them:
/// a line ends at a line feed, which is not part of it, nor is a carriage
/// return directly before the line feed; what follows the last line feed is
/// a line too, unless it is empty.
pub open spec fn lines(text: Seq<char>) -> Seq<Seq<char>>
    decreases text.len(),
    via lines_terminates
{
    if text.len() == 0 {
        Seq::empty()
    } else if line_end(text) == text.len() {
        seq![text]
    } else {
        seq![without_cr(text.take(line_end(text)))] + lines(text.skip(line_end(text) + 1))
    }
}

#[via_fn]
proof fn lines_terminates(text: Seq<char>) {
    lemma_line_end_bounds(text);
}

/// The views of a vector of character vectors.
pub open spec fn rows_of(rows: Vec<Vec<char>>) -> Seq<Seq<char>> {
    rows@.map_values(|row: Vec<char>| row@)
}

proof fn lemma_line_end_bounds(text: Seq<char>)
    ensures
        0 <= line_end(text) <= text.len(),
        line_end(text) < text.len() ==> text[line_end(text)] == '\n',
        forall|i: int| 0 <= i < line_end(text) ==> #[trigger] text[i] != '\n',
    decreases text.len(),
{
    if text.len() > 0 && text[0] != '\n' {
        lemma_line_end_bounds(text.skip(1));
        assert forall|i: int| 0 <= i < line_end(text) implies #[trigger] text[i] != '\n' by {
            if i > 0 {
                assert(text[i] == text.skip(1)[i - 1]);
            }
        }
    }
}

proof fn lemma_line_end_is(text: Seq<char>, at: int)
    requires
        0 <= at <= text.len(),
        forall|i: int| 0 <= i < at ==> #[trigger] text[i] != '\n',
        at < text.len() ==> text[at] == '\n',
    ensures
        line_end(text) == at,
{
    lemma_line_end_bounds(text);
    let end = line_end(text);
    if end < at {
        assert(text[end] != '\n');
    } else if end > at {
        assert(text[at] != '\n');
    }
}

fn is_whitespace_char(c: char) -> (white: bool)
    ensures
        white == is_whitespace(c),
{
    let code: u32 = c as u32;
    (0x09 <= code && code <= 0x0d) || code == 0x20 || code == 0x85 || code == 0xa0 || code
        == 0x1680 || (0x2000 <= code && code <= 0x200a) || code == 0x2028 || code == 0x2029
        || code == 0x202f || code == 0x205f || code == 0x3000
}

proof fn lemma_trimmed_start_is(text: Seq<char>, from: int)
    requires
        0 <= from <= text.len(),
        forall|i: int| 0 <= i < from ==> is_whitespace(#[trigger] text[i]),
        from < text.len() ==> !is_whitespace(text[from]),
    ensures
        trimmed_start(text) == text.skip(from),
    decreases from,
{
    if from == 0 {
        assert(text.skip(0) =~= text);
    } else {
        assert(is_whitespace(text[0]));
        let rest = text.skip(1);
        assert forall|i: int| 0 <= i < from - 1 implies is_whitespace(#[trigger] rest[i]) by {
            assert(rest[i] == text[i + 1]);
        }
        lemma_trimmed_start_is(rest, from - 1);
        assert(rest.skip(from - 1) =~= text.skip(from));
    }
}

proof fn lemma_trimmed_end_is(text: Seq<char>, to: int)
    requires
        0 <= to <= text.len(),
        forall|i: int| to <= i < text.len() ==> is_whitespace(#[trigger] text[i]),
        to > 0 ==> !is_whitespace(text[to - 1]),
    ensures
        trimmed_end(text) == text.take(to),
    decreases text.len() - to,
{
    if to == text.len() {
        assert(text.take(to) =~= text);
    } else {
        assert(is_whitespace(text[text.len() - 1]));
        let rest = text.drop_last();
        lemma_trimmed_end_is(rest, to);
        assert(rest.take(to) =~= text.take(to));
    }
}

/// `text` without the white space at its start and at its end.
pub fn trim(text: &Vec<char>) -> (kept: Vec<char>)
    ensures
        kept@ == trimmed(text@),
{
    let mut from: usize = 0;
    while from < text.len() && is_whitespace_char(text[from])
        invariant
            from <= text.len(),
            forall|i: int| 0 <= i < from ==> is_whitespace(#[trigger] text@[i]),
        decreases text.len() - from,
    {
        from = from + 1;
    }
    let mut to: usize = text.len();
    while to > from && is_whitespace_char(text[to - 1])
        invariant
            from <= to <= text.len(),
            forall|i: int| to <= i < text.len() ==> is_whitespace(#[trigger] text@[i]),
        decreases to,
    {
        to = to - 1;
    }
    let mut kept: Vec<char> = Vec::new();
    let mut i: usize = from;
    while i < to
        invariant
            from <= i <= to <= text.len(),
            kept@ == text@.subrange(from as int, i as int),
        decreases to - i,
    {
        kept.push(text[i]);
        assert(text@.subrange(from as int, i as int + 1) =~= text@.subrange(
            from as int,
            i as int,
        ).push(text@[i as int]));
        i = i + 1;
    }
    proof {
        lemma_trimmed_start_is(text@, from as int);
        let rest = text@.skip(from as int);
        assert forall|k: int| to - from <= k < rest.len() implies is_whitespace(
            #[trigger] rest[k],
        ) by {
            assert(rest[k] == text@[k + from]);
        }
        if to > from {
            assert(rest[to - from - 1] == text@[to - 1]);
        }
        lemma_trimmed_end_is(rest, to - from);
        assert(rest.take(to - from) =~= text@.subrange(from as int, to as int));
    }
    kept
}

proof fn lemma_decimal_value_grows(digits: Seq<char>, shorter: int)
    requires
        0 <= shorter <= digits.len(),
        all_digits(digits),
    ensures
        decimal_value(digits.take(shorter)) <= decimal_value(digits),
    decreases digits.len() - shorter,
{
    if shorter == digits.len() {
        assert(digits.take(shorter) =~= digits);
    } else {
        assert(is_digit(digits.last()));
        assert(digits.drop_last().take(shorter) =~= digits.take(shorter));
        lemma_decimal_value_grows(digits.drop_last(), shorter);
    }
}

/// The number that `text` writes in decimal, if it writes one that fits.
pub fn parse_u32(text: &Vec<char>) -> (parsed: Option<u32>)
    ensures
        parsed == parsed_u32(text@),
{
    let start: usize = if text.len() > 0 && text[0] == '+' {
        1
    } else {
        0
    };
    let ghost digits = text@.skip(start as int);
    if start == text.len() {
        return None;
    }
    assert(text@.skip(0) =~= text@);
    let mut value: u32 = 0;
    let mut i: usize = start;
    while i < text.len()
        invariant
            start <= i <= text.len(),
            start < text.len(),
            digits == text@.skip(start as int),
            digits == unsigned(text@),
            all_digits(digits.take(i - start)),
            value == decimal_value(digits.take(i - start)),
        decreases text.len() - i,
    {
        let code: u32 = text[i] as u32;
        assert(digits[i - start] == text@[i as int]);
        if code < 48 || code > 57 {
            assert(!is_digit(digits[i - start]));
            return None;
        }
        let digit: u32 = code - 48;
        proof {
            let longer = digits.take(i - start + 1);
            assert(longer.drop_last() =~= digits.take(i - start));
            assert(longer.last() == text@[i as int]);
            assert forall|k: int| 0 <= k < longer.len() implies is_digit(#[trigger] longer[k]) by {
                if k < i - start {
                    assert(longer[k] == digits.take(i - start)[k]);
                }
            }
        }
        if value > 429496729 || (value == 429496729 && digit > 5) {
            proof {
                let longer = digits.take(i - start + 1);
                assert(decimal_value(longer) == value * 10 + digit);
                assert(decimal_value(longer) > u32::MAX);
                if all_digits(digits) {
                    lemma_decimal_value_grows(digits, i - start + 1);
                }
            }
            return None;
        }
        value = value * 10 + digit;
        i = i + 1;
    }
    assert(digits.take(i - start) =~= digits);
    Some(value)
}

fn push_decimal(n: u128, out: &mut Vec<char>)
    ensures
        final(out)@ == old(out)@ + decimal(n as nat),
    decreases n,
{
    if n >= 10 {
        push_decimal(n / 10, out);
    }
    let digit: u8 = (n % 10) as u8 + 48;
    out.push(digit as char);
    proof {
        if n >= 10 {
            assert(out@ =~= old(out)@ + decimal((n / 10) as nat).push(
                ((((n % 10) as nat) + 48) as u8) as char,
            ));
        } else {
            assert(out@ =~= old(out)@ + seq![(((n as nat) + 48) as u8) as char]);
        }
    }
}

proof fn lemma_decimal_digits(n: nat)
    ensures
        decimal(n).len() > 0,
        all_digits(decimal(n)),
        decimal_value(decimal(n)) == n,
    decreases n,
{
    let digit = |d: nat| ((d + 48) as u8) as char;
    if n < 10 {
        let text = decimal(n);
        assert(text.drop_last() =~= Seq::<char>::empty());
        assert(decimal_value(text) == decimal_value(text.drop_last()) * 10 + (text.last() as u32
            - 48) as nat);
    } else {
        lemma_decimal_digits(n / 10);
        let text = decimal(n);
        let front = decimal(n / 10);
        assert(text.drop_last() =~= front);
        assert(text.last() == digit(n % 10));
        assert forall|i: int| 0 <= i < text.len() implies is_digit(#[trigger] text[i]) by {
            if i < front.len() {
                assert(text[i] == front[i]);
            }
        }
        assert(decimal_value(text) == decimal_value(front) * 10 + (text.last() as u32 - 48) as nat);
    }
}

/// A number written in decimal reads back as itself.
pub proof fn law_decimal_reads_back(n: u32)
    ensures
        parsed_u32(decimal(n as nat)) == Some(n),
{
    lemma_decimal_digits(n as nat);
    let text = decimal(n as nat);
    assert(is_digit(text[0]));
    assert(unsigned(text) == text);
}

/// `n` written in decimal.
pub fn decimal_string(n: u32) -> (text: String)
    ensures
        text@ == decimal(n as nat),
{
    wide_decimal_string(n as u128)
}

/// `n` written in decimal.
pub fn wide_decimal_string(n: u128) -> (text: String)
    ensures
        text@ == decimal(n as nat),
{
    let mut digits: Vec<char> = Vec::new();
    push_decimal(n, &mut digits);
    assert(digits@ =~= decimal(n as nat));
    string_from_chars(&digits)
}

/// Whether two texts hold the same characters.
pub fn same_text(left: &Vec<char>, right: &Vec<char>) -> (same: bool)
    ensures
        same == (left@ == right@),
{
    if left.len() != right.len() {
        return false;
    }
    let mut i: usize = 0;
    while i < left.len()
        invariant
            i <= left.len(),
            left.len() == right.len(),
            left@.take(i as int) == right@.take(i as int),
        decreases left.len() - i,
    {
        if left[i] != right[i] {
            return false;
        }
        assert(left@.take(i as int + 1) =~= left@.take(i as int).push(left@[i as int]));
        assert(right@.take(i as int + 1) =~= right@.take(i as int).push(right@[i as int]));
        i = i + 1;
    }
    assert(left@.take(i as int) =~= left@);
    assert(right@.take(i as int) =~= right@);
    true
}

/// The end of `text`, from the character after its last white space on.
pub open spec fn word_suffix(text: Seq<char>) -> Seq<char>
    decreases text.len(),
{
    if text.len() == 0 || is_whitespace(text.last()) {
        Seq::empty()
    } else {
        word_suffix(text.drop_last()).push(text.last())
    }
}

/// The last of the words that white space divides `text` into, as
/// `str::split_whitespace` of the standard library gives them.
pub open spec fn last_word(text: Seq<char>) -> Option<Seq<char>> {
    if trimmed_end(text).len() == 0 {
        None
    } else {
        Some(word_suffix(trimmed_end(text)))
    }
}

proof fn lemma_word_suffix_is(text: Seq<char>, from: int)
    requires
        0 <= from <= text.len(),
        forall|i: int| from <= i < text.len() ==> !is_whitespace(#[trigger] text[i]),
        from > 0 ==> is_whitespace(text[from - 1]),
    ensures
        word_suffix(text) == text.skip(from),
    decreases text.len() - from,
{
    if from == text.len() {
        assert(text.skip(from) =~= Seq::<char>::empty());
    } else {
        assert(!is_whitespace(text[text.len() - 1]));
        lemma_word_suffix_is(text.drop_last(), from);
        assert(text.drop_last().skip(from).push(text.last()) =~= text.skip(from));
    }
}

/// The last word of `text`, if it has any.
pub fn find_last_word(text: &Vec<char>) -> (found: Option<Vec<char>>)
    ensures
        match found {
            Some(word) => last_word(text@) == Some(word@),
            None => last_word(text@) is None,
        },
{
    let mut to: usize = text.len();
    while to > 0 && is_whitespace_char(text[to - 1])
        invariant
            to <= text.len(),
            forall|i: int| to <= i < text.len() ==> is_whitespace(#[trigger] text@[i]),
        decreases to,
    {
        to = to - 1;
    }
    proof {
        lemma_trimmed_end_is(text@, to as int);
    }
    if to == 0 {
        return None;
    }
    let mut from: usize = to;
    while from > 0 && !is_whitespace_char(text[from - 1])
        invariant
            from <= to <= text.len(),
            forall|i: int| from <= i < to ==> !is_whitespace(#[trigger] text@[i]),
        decreases from,
    {
        from = from - 1;
    }
    let mut word: Vec<char> = Vec::new();
    let mut i: usize = from;
    while i < to
        invariant
            from <= i <= to <= text.len(),
            word@ == text@.subrange(from as int, i as int),
        decreases to - i,
    {
        word.push(text[i]);
        assert(text@.subrange(from as int, i as int + 1) =~= text@.subrange(
            from as int,
            i as int,
        ).push(text@[i as int]));
        i = i + 1;
    }
    proof {
        let kept = text@.take(to as int);
        assert forall|k: int| from <= k < kept.len() implies !is_whitespace(#[trigger] kept[k]) by {
            assert(kept[k] == text@[k]);
        }
        lemma_word_suffix_is(kept, from as int);
        assert(kept.skip(from as int) =~= text@.subrange(from as int, to as int));
    }
    Some(word)
}

/// Whether `needle` occurs in `text` at `at`.
pub open spec fn occurs_at(text: Seq<char>, needle: Seq<char>, at: int) -> bool {
    0 <= at && at + needle.len() <= text.len() && text.subrange(at, at + needle.len()) == needle
}

/// Whether `needle` occurs somewhere in `text`.
pub open spec fn occurs_in(text: Seq<char>, needle: Seq<char>) -> bool {
    exists|at: int| occurs_at(text, needle, at)
}

/// Whether `needle` occurs somewhere in `text`.
pub fn contains_text(text: &Vec<char>, needle: &Vec<char>) -> (found: bool)
    ensures
        found == occurs_in(text@, needle@),
{
    if needle.len() > text.len() {
        return false;
    }
    let last: usize = text.len() - needle.len();
    let mut at: usize = 0;
    while at <= last
        invariant
            at <= last + 1,
            last == text.len() - needle.len(),
            needle.len() <= text.len(),
            forall|k: int| 0 <= k < at ==> !occurs_at(text@, needle@, k),
        decreases last + 1 - at,
    {
        let mut i: usize = 0;
        while i < needle.len() && text[at + i] == needle[i]
            invariant
                i <= needle.len(),
                at <= last,
                last == text.len() - needle.len(),
                needle.len() <= text.len(),
                forall|k: int| 0 <= k < i ==> text@[at + k] == needle@[k],
            decreases needle.len() - i,
        {
            i = i + 1;
        }
        if i == needle.len() {
            assert(text@.subrange(at as int, at + needle.len()) =~= needle@);
            assert(occurs_at(text@, needle@, at as int));
            return true;
        }
        assert(!occurs_at(text@, needle@, at as int)) by {
            if occurs_at(text@, needle@, at as int) {
                assert(text@.subrange(at as int, at + needle.len())[i as int] == needle@[i as int]);
            }
        }
        at = at + 1;
    }
    false
}

/// The lines of `text`.
pub fn split_lines(text: &Vec<char>) -> (rows: Vec<Vec<char>>)
    ensures
        rows_of(rows) == lines(text@),
{
    let mut rows: Vec<Vec<char>> = Vec::new();
    let mut start: usize = 0;
    let mut line: Vec<char> = Vec::new();
    let mut i: usize = 0;
    assert(text@.skip(0) =~= text@);
    assert(rows_of(rows) =~= Seq::<Seq<char>>::empty());
    while i < text.len()
        invariant
            start <= i <= text.len(),
            lines(text@) == rows_of(rows) + lines(text@.skip(start as int)),
            line@ == text@.subrange(start as int, i as int),
            forall|k: int| start <= k < i ==> #[trigger] text@[k] != '\n',
        decreases text.len() - i,
    {
        let c = text[i];
        let ghost rest = text@.skip(start as int);
        if c == '\n' {
            proof {
                assert forall|k: int| 0 <= k < i - start implies #[trigger] rest[k] != '\n' by {
                    assert(rest[k] == text@[k + start]);
                }
                assert(rest[i - start] == text@[i as int]);
                lemma_line_end_is(rest, i - start);
                assert(rest.take(i - start) =~= line@);
                assert(rest.skip(i - start + 1) =~= text@.skip(i as int + 1));
            }
            let ghost whole = line@;
            if line.len() > 0 && line[line.len() - 1] == '\r' {
                line.pop();
            }
            assert(line@ == without_cr(whole));
            let ghost before = rows_of(rows);
            rows.push(line);
            assert(rows_of(rows) =~= before.push(without_cr(whole)));
            let ghost later = lines(text@.skip(i as int + 1));
            assert(before.push(without_cr(whole)) + later =~= before + (seq![without_cr(whole)]
                + later));
            line = Vec::new();
            start = i + 1;
            assert(text@.subrange(start as int, start as int) =~= Seq::<char>::empty());
        } else {
            line.push(c);
            assert(text@.subrange(start as int, i as int + 1) =~= text@.subrange(
                start as int,
                i as int,
            ).push(c));
        }
        i = i + 1;
    }
    let ghost rest = text@.skip(start as int);
    if start < text.len() {
        proof {
            assert forall|k: int| 0 <= k < rest.len() implies #[trigger] rest[k] != '\n' by {
                assert(rest[k] == text@[k + start]);
            }
            lemma_line_end_is(rest, rest.len() as int);
            assert(line@ =~= rest);
        }
        let ghost before = rows_of(rows);
        rows.push(line);
        assert(rows_of(rows) =~= before + seq![rest]);
    } else {
        assert(rows_of(rows) + Seq::<Seq<char>>::empty() =~= rows_of(rows));
    }
    rows
}

} // verus!
