//! Verified helpers on text: comparing strings, writing and reading
//! decimal numbers, and cutting a block of text into trimmed lines.

use vstd::prelude::*;
use vstd::string::StringSliceAdditionalSpecFns;
use vstd::utf8::encode_utf8_decode_utf8;

verus! {

/// Whether two strings hold the same characters.
///
/// The comparison runs over the UTF-8 bytes; since decoding undoes encoding,
/// equal bytes mean equal characters and the other way round.
pub fn str_eq(a: &str, b: &str) -> (same: bool)
    ensures
        same == (a@ == b@),
{
    let x = a.as_bytes();
    let y = b.as_bytes();
    proof {
        encode_utf8_decode_utf8(a@);
        encode_utf8_decode_utf8(b@);
    }
    if x.len() != y.len() {
        return false;
    }
    let mut i: usize = 0;
    while i < x.len()
        invariant
            i <= x.len(),
            x.len() == y.len(),
            x@ == a.spec_bytes(),
            y@ == b.spec_bytes(),
            forall|j: int| 0 <= j < i ==> x@[j] == y@[j],
        decreases x.len() - i,
    {
        if x[i] != y[i] {
            return false;
        }
        i += 1;
    }
    assert(x@ =~= y@);
    true
}

/// The characters of a string, one by one.
pub fn chars_of(s: &str) -> (chars: Vec<char>)
    ensures
        chars@ == s@,
{
    let mut chars: Vec<char> = Vec::new();
    for c in it: s.chars()
        invariant
            it.seq() == s@,
            chars@ == it.seq().take(it.index() as int),
    {
        chars.push(c);
        assert(it.seq().take(it.index() + 1) =~= it.seq().take(it.index() as int).push(c));
    }
    assert(chars@ =~= s@);
    chars
}

/// One string made of two.
pub fn join(head: &str, tail: &str) -> (whole: String)
    ensures
        whole@ == head@ + tail@,
{
    String::from_str(head).concat(tail)
}

/// The character that writes the digit `d`.
pub open spec fn digit_char(d: int) -> char
    recommends
        0 <= d < 10,
{
    ((48 + d) as u8) as char
}

/// A number as it is written in base ten, without sign or leading zeros.
pub open spec fn decimal_digits(n: nat) -> Seq<char>
    decreases n,
{
    if n < 10 {
        seq![digit_char(n as int)]
    } else {
        decimal_digits(n / 10).push(digit_char((n % 10) as int))
    }
}

fn digit_str(d: u64) -> (s: &'static str)
    requires
        d < 10,
    ensures
        s@ == seq![digit_char(d as int)],
{
    proof {
        reveal_strlit("0");
        reveal_strlit("1");
        reveal_strlit("2");
        reveal_strlit("3");
        reveal_strlit("4");
        reveal_strlit("5");
        reveal_strlit("6");
        reveal_strlit("7");
        reveal_strlit("8");
        reveal_strlit("9");
    }
    let s = if d == 0 {
        "0"
    } else if d == 1 {
        "1"
    } else if d == 2 {
        "2"
    } else if d == 3 {
        "3"
    } else if d == 4 {
        "4"
    } else if d == 5 {
        "5"
    } else if d == 6 {
        "6"
    } else if d == 7 {
        "7"
    } else if d == 8 {
        "8"
    } else {
        "9"
    };
    assert(s@ =~= seq![digit_char(d as int)]);
    s
}

/// Writes a number in base ten.
pub fn decimal_string(n: u64) -> (s: String)
    ensures
        s@ == decimal_digits(n as nat),
    decreases n,
{
    if n < 10 {
        String::from_str(digit_str(n))
    } else {
        let head = decimal_string(n / 10);
        let s = head.concat(digit_str(n % 10));
        assert(s@ =~= decimal_digits((n / 10) as nat).push(digit_char((n % 10) as int)));
        s
    }
}

pub open spec fn is_digit(c: char) -> bool {
    '0' <= c <= '9'
}

pub open spec fn digit_value(c: char) -> nat {
    if is_digit(c) {
        (c as int - 48) as nat
    } else {
        0
    }
}

pub open spec fn all_digits(s: Seq<char>) -> bool {
    forall|i: int| 0 <= i < s.len() ==> is_digit(#[trigger] s[i])
}

/// The number that a run of digits writes, read in base ten.
pub open spec fn digits_value(s: Seq<char>) -> nat
    decreases s.len(),
{
    if s.len() == 0 {
        0
    } else {
        digits_value(s.drop_last()) * 10 + digit_value(s.last())
    }
}

/// What a header value reads as: an optional `+`, then at least one digit
/// and nothing but digits, the number not above the largest `u64`.
pub open spec fn decimal_value(s: Seq<char>) -> Option<u64> {
    let body = if s.len() > 0 && s[0] == '+' {
        s.skip(1)
    } else {
        s
    };
    if body.len() > 0 && all_digits(body) && digits_value(body) <= u64::MAX {
        Some(digits_value(body) as u64)
    } else {
        None
    }
}

proof fn lemma_digits_value_prefix(s: Seq<char>, k: int)
    requires
        0 <= k <= s.len(),
    ensures
        digits_value(s.take(k)) <= digits_value(s),
    decreases s.len() - k,
{
    if k == s.len() {
        assert(s.take(k) =~= s);
    } else {
        assert(s.drop_last().take(k) =~= s.take(k));
        lemma_digits_value_prefix(s.drop_last(), k);
    }
}

/// Reads a number written in base ten, as `decimal_value` says.
pub fn parse_decimal(s: &str) -> (value: Option<u64>)
    ensures
        value == decimal_value(s@),
{
    let chars = chars_of(s);
    let n: usize = chars.len();
    let start: usize = if n > 0 && chars[0] == '+' {
        1
    } else {
        0
    };
    let ghost body = chars@.skip(start as int);
    assert(chars@.skip(0) =~= chars@);
    if start == n {
        return None;
    }
    let mut acc: u64 = 0;
    let mut i: usize = start;
    assert(body.take(0) =~= Seq::<char>::empty());
    while i < n
        invariant
            start <= i <= n,
            n == chars.len(),
            chars@ == s@,
            start == if n > 0 && chars[0] == '+' { 1usize } else { 0usize },
            body == chars@.skip(start as int),
            start == 0 ==> body == chars@,
            all_digits(body.take(i - start)),
            acc == digits_value(body.take(i - start)),
        decreases n - i,
    {
        let c = chars[i];
        if !(c >= '0' && c <= '9') {
            assert(!is_digit(body[i - start]));
            return None;
        }
        let d: u64 = (c as u32 - '0' as u32) as u64;
        proof {
            let next = body.take(i - start + 1);
            assert(next.drop_last() =~= body.take(i - start));
            assert(next.last() == c);
            assert(digits_value(next) == acc * 10 + d);
            lemma_digits_value_prefix(body, i - start + 1);
        }
        if acc > (u64::MAX - d) / 10 {
            assert(digits_value(body) > u64::MAX);
            return None;
        }
        acc = acc * 10 + d;
        i += 1;
    }
    assert(body.take(n - start) =~= body);
    Some(acc)
}

/// Whether a character is white space, as Unicode's `White_Space`
/// property has it.
pub uninterp spec fn is_white_space(c: char) -> bool;

/// `char::is_whitespace` of the standard library. Its documentation gives
/// the result as the character's `White_Space` property and lists no
/// characters, so the property is named here, not spelled out.
pub assume_specification[ char::is_whitespace ](c: char) -> (white: bool)
    ensures
        white == is_white_space(c),
;

/// Where the first line of a text ends: at its first line feed, or at the
/// end of the text if it holds none.
pub open spec fn line_end(s: Seq<char>) -> int
    decreases s.len(),
{
    if s.len() == 0 || s[0] == '\n' {
        0
    } else {
        1 + line_end(s.drop_first())
    }
}

/// A text without the white space it starts with.
pub open spec fn trim_start(s: Seq<char>) -> Seq<char>
    decreases s.len(),
{
    if s.len() > 0 && is_white_space(s[0]) {
        trim_start(s.drop_first())
    } else {
        s
    }
}

/// A text without the white space it ends with.
pub open spec fn trim_end(s: Seq<char>) -> Seq<char>
    decreases s.len(),
{
    if s.len() > 0 && is_white_space(s.last()) {
        trim_end(s.drop_last())
    } else {
        s
    }
}

/// A text without the white space around it.
pub open spec fn trimmed(s: Seq<char>) -> Seq<char> {
    trim_end(trim_start(s))
}

/// The lines of a text, each without the white space around it, those
/// left empty dropped. Lines are parted by line feeds; a carriage return
/// before a line feed is white space and goes with the trimming.
pub open spec fn trimmed_lines(text: Seq<char>) -> Seq<Seq<char>>
    decreases text.len(),
{
    if text.len() == 0 {
        Seq::empty()
    } else {
        let end = line_end(text);
        let line = trimmed(text.take(end));
        let rest = if 0 <= end < text.len() {
            text.skip(end + 1)
        } else {
            Seq::empty()
        };
        if line.len() > 0 {
            seq![line] + trimmed_lines(rest)
        } else {
            trimmed_lines(rest)
        }
    }
}

proof fn lemma_line_end_at(s: Seq<char>, e: int)
    requires
        0 <= e <= s.len(),
        forall|k: int| 0 <= k < e ==> s[k] != '\n',
        e == s.len() || s[e] == '\n',
    ensures
        line_end(s) == e,
    decreases e,
{
    if e > 0 {
        lemma_line_end_at(s.drop_first(), e - 1);
    }
}

proof fn lemma_trim_start_at(s: Seq<char>, k: int)
    requires
        0 <= k <= s.len(),
        forall|j: int| 0 <= j < k ==> is_white_space(s[j]),
        k == s.len() || !is_white_space(s[k]),
    ensures
        trim_start(s) == s.skip(k),
    decreases k,
{
    if k > 0 {
        lemma_trim_start_at(s.drop_first(), k - 1);
        assert(s.drop_first().skip(k - 1) =~= s.skip(k));
    } else {
        assert(s.skip(0) =~= s);
    }
}

proof fn lemma_trim_end_at(s: Seq<char>, k: int)
    requires
        0 <= k <= s.len(),
        forall|j: int| k <= j < s.len() ==> is_white_space(s[j]),
        k == 0 || !is_white_space(s[k - 1]),
    ensures
        trim_end(s) == s.take(k),
    decreases s.len() - k,
{
    if k < s.len() {
        lemma_trim_end_at(s.drop_last(), k);
        assert(s.drop_last().take(k) =~= s.take(k));
    } else {
        assert(s.take(k) =~= s);
    }
}

proof fn lemma_trim_start_shape(s: Seq<char>)
    ensures
        trim_start(s).len() <= s.len(),
        trim_start(s).len() > 0 ==> !is_white_space(trim_start(s)[0]),
        forall|i: int|
            0 <= i < trim_start(s).len() ==> s.contains(#[trigger] trim_start(s)[i]),
    decreases s.len(),
{
    if s.len() > 0 && is_white_space(s[0]) {
        let rest = s.drop_first();
        lemma_trim_start_shape(rest);
        assert forall|i: int| 0 <= i < trim_start(s).len() implies s.contains(
            #[trigger] trim_start(s)[i],
        ) by {
            let k = choose|k: int| 0 <= k < rest.len() && rest[k] == trim_start(rest)[i];
            assert(s[k + 1] == rest[k]);
        }
    } else {
        assert forall|i: int| 0 <= i < s.len() implies s.contains(#[trigger] s[i]) by {
            assert(s[i] == s[i]);
        }
    }
}

proof fn lemma_trim_end_shape(s: Seq<char>)
    ensures
        trim_end(s).len() <= s.len(),
        trim_end(s).len() > 0 ==> !is_white_space(trim_end(s).last()) && trim_end(s)[0] == s[0],
        forall|i: int| 0 <= i < trim_end(s).len() ==> s.contains(#[trigger] trim_end(s)[i]),
    decreases s.len(),
{
    if s.len() > 0 && is_white_space(s.last()) {
        let rest = s.drop_last();
        lemma_trim_end_shape(rest);
        assert forall|i: int| 0 <= i < trim_end(s).len() implies s.contains(
            #[trigger] trim_end(s)[i],
        ) by {
            let k = choose|k: int| 0 <= k < rest.len() && rest[k] == trim_end(rest)[i];
            assert(s[k] == rest[k]);
        }
    } else {
        assert forall|i: int| 0 <= i < s.len() implies s.contains(#[trigger] s[i]) by {
            assert(s[i] == s[i]);
        }
    }
}

proof fn lemma_line_has_no_line_feed(s: Seq<char>)
    ensures
        0 <= line_end(s) <= s.len(),
        forall|k: int| 0 <= k < line_end(s) ==> s[k] != '\n',
    decreases s.len(),
{
    if s.len() == 0 || s[0] == '\n' {
    } else {
        let rest = s.drop_first();
        lemma_line_has_no_line_feed(rest);
        assert forall|k: int| 0 <= k < line_end(s) implies s[k] != '\n' by {
            if k > 0 {
                assert(s[k] == rest[k - 1]);
            }
        }
    }
}

/// Every line that `trimmed_lines` gives is fit to be a tracking number:
/// it is not empty, it neither starts nor ends with white space, and it
/// holds no line feed.
pub proof fn lemma_trimmed_lines_are_trimmed(text: Seq<char>, i: int)
    requires
        0 <= i < trimmed_lines(text).len(),
    ensures
        trimmed_lines(text)[i].len() > 0,
        !is_white_space(trimmed_lines(text)[i][0]),
        !is_white_space(trimmed_lines(text)[i].last()),
        !trimmed_lines(text)[i].contains('\n'),
    decreases text.len(),
{
    let end = line_end(text);
    let first = text.take(end);
    let line = trimmed(first);
    lemma_line_has_no_line_feed(text);
    let rest = if 0 <= end < text.len() {
        text.skip(end + 1)
    } else {
        Seq::empty()
    };
    if line.len() > 0 && i == 0 {
        lemma_trim_start_shape(first);
        lemma_trim_end_shape(trim_start(first));
        if line.contains('\n') {
            let k = choose|k: int| 0 <= k < first.len() && first[k] == '\n';
            assert(text[k] == '\n');
        }
    } else if line.len() > 0 {
        lemma_trimmed_lines_are_trimmed(rest, i - 1);
    } else {
        lemma_trimmed_lines_are_trimmed(rest, i);
    }
}

/// The view of a list of strings: the character sequence of each.
pub open spec fn strings_view(v: Seq<String>) -> Seq<Seq<char>> {
    v.map_values(|s: String| s@)
}

/// Cuts a text into its trimmed, non-empty lines.
pub fn split_lines(input: &str) -> (lines: Vec<String>)
    ensures
        strings_view(lines@) == trimmed_lines(input@),
{
    let chars = chars_of(input);
    let n: usize = chars.len();
    let mut lines: Vec<String> = Vec::new();
    let mut pos: usize = 0;
    assert(chars@.skip(0) =~= chars@);
    assert(strings_view(lines@) =~= Seq::<Seq<char>>::empty());
    while pos < n
        invariant
            pos <= n,
            n == chars.len(),
            chars@ == input@,
            strings_view(lines@) + trimmed_lines(chars@.skip(pos as int)) == trimmed_lines(
                chars@,
            ),
        decreases n - pos,
    {
        let ghost s = chars@.skip(pos as int);
        let mut end: usize = pos;
        while end < n && chars[end] != '\n'
            invariant
                pos <= end <= n,
                n == chars.len(),
                forall|k: int| pos <= k < end ==> chars@[k] != '\n',
            decreases n - end,
        {
            end += 1;
        }
        let mut a: usize = pos;
        while a < end && chars[a].is_whitespace()
            invariant
                pos <= a <= end <= n,
                n == chars.len(),
                forall|k: int| pos <= k < a ==> is_white_space(chars@[k]),
            decreases end - a,
        {
            a += 1;
        }
        let mut b: usize = end;
        while b > a && chars[b - 1].is_whitespace()
            invariant
                a <= b <= end <= n,
                n == chars.len(),
                forall|k: int| b <= k < end ==> is_white_space(chars@[k]),
            decreases b,
        {
            b -= 1;
        }
        proof {
            lemma_line_end_at(s, end - pos);
            let first = s.take(end - pos);
            lemma_trim_start_at(first, a - pos);
            let inner = first.skip(a - pos);
            lemma_trim_end_at(inner, b - a);
            assert(inner.take(b - a) =~= chars@.subrange(a as int, b as int));
            assert(trimmed(first) == chars@.subrange(a as int, b as int));
        }
        let ghost before = strings_view(lines@);
        if a < b {
            let line = String::from_str(input.substring_char(a, b));
            lines.push(line);
            assert(strings_view(lines@) =~= before + seq![chars@.subrange(a as int, b as int)]);
        }
        let next: usize = if end < n {
            end + 1
        } else {
            end
        };
        proof {
            let rest = if end - pos < s.len() {
                s.skip(end - pos + 1)
            } else {
                Seq::empty()
            };
            assert(rest =~= chars@.skip(next as int));
            let line = chars@.subrange(a as int, b as int);
            if line.len() > 0 {
                assert(before + (seq![line] + trimmed_lines(rest)) =~= (before + seq![line])
                    + trimmed_lines(rest));
            }
        }
        pos = next;
    }
    assert(chars@.skip(n as int) =~= Seq::<char>::empty());
    assert(strings_view(lines@) + Seq::<Seq<char>>::empty() =~= strings_view(lines@));
    lines
}

} // verus!
