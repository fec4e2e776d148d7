//! Text pieces used in log lines: decimal numbers and the names of codes.
use vstd::prelude::*;
use crate::types::{ErrorCode, JoinRejectReason};

verus! {

/// The character of a decimal digit.
pub open spec fn digit_char(d: nat) -> char {
    if d == 0 { '0' }
    else if d == 1 { '1' }
    else if d == 2 { '2' }
    else if d == 3 { '3' }
    else if d == 4 { '4' }
    else if d == 5 { '5' }
    else if d == 6 { '6' }
    else if d == 7 { '7' }
    else if d == 8 { '8' }
    else { '9' }
}

/// Decimal notation of a natural number, without leading zeros.
pub open spec fn decimal(n: nat) -> Seq<char>
    decreases n,
{
    if n < 10 {
        seq![digit_char(n)]
    } else {
        decimal(n / 10) + seq![digit_char(n % 10)]
    }
}

/// The text of a decimal digit.
fn digit_text(d: u64) -> (s: &'static str)
    requires
        d < 10,
    ensures
        s@ == seq![digit_char(d as nat)],
{
    proof {
        reveal_strlit("0");
        reveal_strlit("1");
        reveal_strlit("2");
        reveal_strlit("3");
        reveal_strlit("4");
        reveal_strlit("5");
        reveal_strlit("6");
        reveal_strlit("7");
        reveal_strlit("8");
        reveal_strlit("9");
    }
    if d == 0 { "0" }
    else if d == 1 { "1" }
    else if d == 2 { "2" }
    else if d == 3 { "3" }
    else if d == 4 { "4" }
    else if d == 5 { "5" }
    else if d == 6 { "6" }
    else if d == 7 { "7" }
    else if d == 8 { "8" }
    else { "9" }
}

/// The decimal notation of a number.
pub fn decimal_string_u64(n: u64) -> (s: String)
    ensures
        s@ == decimal(n as nat),
    decreases n,
{
    if n < 10 {
        String::from_str(digit_text(n))
    } else {
        let head = decimal_string_u64(n / 10);
        head.concat(digit_text(n % 10))
    }
}

/// The decimal notation of a number.
pub fn decimal_string(n: u32) -> (s: String)
    ensures
        s@ == decimal(n as nat),
{
    decimal_string_u64(n as u64)
}

/// Whether every character of a text is a decimal digit.
pub open spec fn all_digits(s: Seq<char>) -> bool {
    forall|i: int| 0 <= i < s.len() ==> '0' <= #[trigger] s[i] <= '9'
}

/// The value of a run of decimal digits.
pub open spec fn digits_value(s: Seq<char>) -> nat
    decreases s.len(),
{
    if s.len() == 0 {
        0
    } else {
        digits_value(s.drop_last()) * 10 + ((s.last() as u32 - '0' as u32) as nat)
    }
}

/// The number that `u16::from_str` reads from a text, if it reads one: an
/// optional `+`, then at least one decimal digit, of value at most 65535.
pub open spec fn u16_text_value(s: Seq<char>) -> Option<u16> {
    let digits = if s.len() > 0 && s[0] == '+' { s.drop_first() } else { s };
    if digits.len() > 0 && all_digits(digits) && digits_value(digits) <= 65535 {
        Some(digits_value(digits) as u16)
    } else {
        None
    }
}

/// Appending digits never lowers the value of a run of digits.
proof fn lemma_digits_value_grows(s: Seq<char>, n: int)
    requires
        0 <= n <= s.len(),
        all_digits(s),
    ensures
        digits_value(s.take(n)) <= digits_value(s),
    decreases s.len() - n,
{
    if n < s.len() {
        lemma_digits_value_grows(s, n + 1);
        assert(s.take(n + 1).drop_last() =~= s.take(n));
    } else {
        assert(s.take(n) =~= s);
    }
}

/// The port number typed in a text field, or `fallback` where the text is
/// not a number that `u16::from_str` reads.
pub fn port_or_default(text: &str, fallback: u16) -> (p: u16)
    ensures
        p == match u16_text_value(text@) {
            Some(v) => v,
            None => fallback,
        },
{
    let n = text.unicode_len();
    let start: usize = if n > 0 && text.get_char(0) == '+' { 1 } else { 0 };
    let ghost digits = if text@.len() > 0 && text@[0] == '+' { text@.drop_first() } else { text@ };
    assert(digits =~= text@.subrange(start as int, n as int));
    if start == n {
        assert(u16_text_value(text@) is None);
        return fallback;
    }
    let mut value: u32 = 0;
    let mut i: usize = start;
    while i < n
        invariant
            start <= i <= n,
            n == text@.len(),
            digits =~= text@.subrange(start as int, n as int),
            digits == (if text@.len() > 0 && text@[0] == '+' { text@.drop_first() } else { text@ }),
            all_digits(digits.take(i - start)),
            value == digits_value(digits.take(i - start)),
            value <= 65535,
        decreases n - i,
    {
        let c = text.get_char(i);
        assert(digits[i - start] == c);
        if !('0' <= c && c <= '9') {
            assert(!all_digits(digits));
            return fallback;
        }
        let d: u32 = (c as u32) - ('0' as u32);
        proof {
            assert(digits.take(i + 1 - start).drop_last() =~= digits.take(i - start));
            assert(digits.take(i + 1 - start).last() == c);
        }
        value = value * 10 + d;
        assert(value == digits_value(digits.take(i + 1 - start)));
        if value > 65535 {
            proof {
                if all_digits(digits) {
                    lemma_digits_value_grows(digits, i + 1 - start);
                }
                assert(u16_text_value(text@) is None);
            }
            return fallback;
        }
        i = i + 1;
    }
    assert(digits.take(n - start) =~= digits);
    value as u16
}

/// Name of a join rejection reason, as its `Debug` form prints it.
pub open spec fn join_reject_reason_text(r: JoinRejectReason) -> Seq<char> {
    match r {
        JoinRejectReason::GameAlreadyStarted => "GameAlreadyStarted"@,
        JoinRejectReason::GameFull => "GameFull"@,
        JoinRejectReason::InvalidName => "InvalidName"@,
        JoinRejectReason::UnsupportedProtocolVersion => "UnsupportedProtocolVersion"@,
    }
}

pub fn join_reject_reason_name(r: JoinRejectReason) -> (s: &'static str)
    ensures
        s@ == join_reject_reason_text(r),
{
    match r {
        JoinRejectReason::GameAlreadyStarted => "GameAlreadyStarted",
        JoinRejectReason::GameFull => "GameFull",
        JoinRejectReason::InvalidName => "InvalidName",
        JoinRejectReason::UnsupportedProtocolVersion => "UnsupportedProtocolVersion",
    }
}

/// Name of an error code, as its `Debug` form prints it.
pub open spec fn error_code_text(c: ErrorCode) -> Seq<char> {
    match c {
        ErrorCode::InvalidMessage => "InvalidMessage"@,
        ErrorCode::InvalidEncoding => "InvalidEncoding"@,
        ErrorCode::InvalidInput => "InvalidInput"@,
        ErrorCode::UnknownPlayer => "UnknownPlayer"@,
        ErrorCode::GameNotStarted => "GameNotStarted"@,
        ErrorCode::GameAlreadyStarted => "GameAlreadyStarted"@,
        ErrorCode::GameFinished => "GameFinished"@,
        ErrorCode::UnsupportedProtocolVersion => "UnsupportedProtocolVersion"@,
    }
}

pub fn error_code_name(c: ErrorCode) -> (s: &'static str)
    ensures
        s@ == error_code_text(c),
{
    match c {
        ErrorCode::InvalidMessage => "InvalidMessage",
        ErrorCode::InvalidEncoding => "InvalidEncoding",
        ErrorCode::InvalidInput => "InvalidInput",
        ErrorCode::UnknownPlayer => "UnknownPlayer",
        ErrorCode::GameNotStarted => "GameNotStarted",
        ErrorCode::GameAlreadyStarted => "GameAlreadyStarted",
        ErrorCode::GameFinished => "GameFinished",
        ErrorCode::UnsupportedProtocolVersion => "UnsupportedProtocolVersion",
    }
}

/// The text views of a list of strings.
pub open spec fn texts(v: Seq<String>) -> Seq<Seq<char>> {
    v.map_values(|s: String| s@)
}

/// Appends a line to a list of log lines.
pub fn push_line(logs: &mut Vec<String>, line: String)
    ensures
        texts(final(logs)@) == texts(old(logs)@).push(line@),
{
    logs.push(line);
    assert(texts(logs@) =~= texts(old(logs)@).push(line@));
}

// ---------------------------------------------------------------------------
// Wrapping text into lines
// ---------------------------------------------------------------------------

/// Whether a character has the Unicode property White_Space.
pub open spec fn white_space(c: char) -> bool {
    let n = c as u32;
    ||| 0x09 <= n <= 0x0d
    ||| n == 0x20 || n == 0x85 || n == 0xa0 || n == 0x1680
    ||| 0x2000 <= n <= 0x200a
    ||| n == 0x2028 || n == 0x2029 || n == 0x202f || n == 0x205f || n == 0x3000
}

/// The words of a text: the maximal runs of characters that are not white
/// space, in order. A character that is not white space starts a word
/// unless the character before it also is not white space, in which case
/// it extends that word.
pub open spec fn words_of(text: Seq<char>) -> Seq<Seq<char>>
    decreases text.len(),
{
    if text.len() == 0 {
        Seq::empty()
    } else {
        let before = words_of(text.drop_last());
        let c = text.last();
        if white_space(c) {
            before
        } else if text.len() >= 2 && !white_space(text[text.len() - 2]) {
            before.drop_last().push(before.last().push(c))
        } else {
            before.push(seq![c])
        }
    }
}

/// Calls `str::split_whitespace`, which splits at White_Space characters
/// and leaves out empty pieces, and copies each word into a `String`.
#[verifier::external_body]
fn split_words(text: &str) -> (words: Vec<String>)
    ensures
        texts(words@) == words_of(text@),
{
    let mut words = Vec::new();
    for w in text.split_whitespace() {
        words.push(w.to_string());
    }
    words
}

/// Length of a text in UTF-8 bytes.
pub open spec fn byte_len(s: Seq<char>) -> nat {
    vstd::utf8::encode_utf8(s).len()
}

/// The finished lines and the line being filled after placing `words` one
/// after another: a word goes on the current line, followed by a space,
/// unless the line's bytes and the word's together pass `width`, in which
/// case the current line is finished first.
pub open spec fn wrap_state(words: Seq<Seq<char>>, width: nat) -> (Seq<Seq<char>>, Seq<char>)
    decreases words.len(),
{
    if words.len() == 0 {
        (Seq::empty(), Seq::empty())
    } else {
        let (lines, current) = wrap_state(words.drop_last(), width);
        let w = words.last();
        if byte_len(current) + byte_len(w) > width {
            (lines.push(current), w + " "@)
        } else {
            (lines, current + w + " "@)
        }
    }
}

/// The lines of the wrapped words: the finished ones and the last one if
/// it holds anything.
pub open spec fn wrapped(words: Seq<Seq<char>>, width: nat) -> Seq<Seq<char>> {
    let (lines, current) = wrap_state(words, width);
    if current.len() > 0 { lines.push(current) } else { lines }
}

/// Wraps words into lines of about `width` bytes (see [`wrap_state`]).
pub fn wrap_words(words: &Vec<String>, width: usize) -> (lines: Vec<String>)
    ensures
        texts(lines@) == wrapped(texts(words@), width as nat),
{
    let mut lines: Vec<String> = Vec::new();
    let mut current = String::new();
    let mut k: usize = 0;
    proof {
        assert(texts(words@).take(0) =~= Seq::<Seq<char>>::empty());
        assert(texts(lines@) =~= Seq::<Seq<char>>::empty());
    }
    while k < words.len()
        invariant
            k <= words@.len(),
            (texts(lines@), current@) == wrap_state(texts(words@).take(k as int), width as nat),
        decreases words@.len() - k,
    {
        proof {
            assert(texts(words@).take(k + 1).drop_last() =~= texts(words@).take(k as int));
            assert(texts(words@).take(k + 1).last() == words@[k as int]@);
        }
        let w = words[k].as_str();
        let cur_len = current.as_str().as_bytes().len();
        let w_len = w.as_bytes().len();
        let over = match cur_len.checked_add(w_len) {
            Some(total) => total > width,
            None => true,
        };
        if over {
            push_line(&mut lines, current);
            current = String::from_str(w).concat(" ");
        } else {
            current.append(w);
            current.append(" ");
        }
        k = k + 1;
    }
    proof {
        assert(texts(words@).take(words@.len() as int) =~= texts(words@));
    }
    if current.as_str().unicode_len() > 0 {
        push_line(&mut lines, current);
    }
    lines
}

/// The lines in which an error message is shown: its words, wrapped at 42
/// bytes.
pub fn error_lines(text: &str) -> (lines: Vec<String>)
    ensures
        texts(lines@) == wrapped(words_of(text@), 42),
{
    let words = split_words(text);
    wrap_words(&words, 42)
}

} // verus!
