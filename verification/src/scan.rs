use vstd::prelude::*;
use vstd::string::StrSliceExecFns;

verus! {

broadcast use vstd::string::group_string_axioms;

/// The Unicode `White_Space` property.
pub open spec fn is_whitespace(c: char) -> bool {
    ||| '\t' <= c <= '\r'
    ||| c == ' '
    ||| c == '\u{85}'
    ||| c == '\u{a0}'
    ||| c == '\u{1680}'
    ||| '\u{2000}' <= c <= '\u{200a}'
    ||| c == '\u{2028}'
    ||| c == '\u{2029}'
    ||| c == '\u{202f}'
    ||| c == '\u{205f}'
    ||| c == '\u{3000}'
}

pub fn char_is_whitespace(c: char) -> (whitespace: bool)
    ensures
        whitespace == is_whitespace(c),
{
    ('\t' <= c && c <= '\r') || c == ' ' || c == '\u{85}' || c == '\u{a0}' || c == '\u{1680}' || (
    '\u{2000}' <= c && c <= '\u{200a}') || c == '\u{2028}' || c == '\u{2029}' || c == '\u{202f}'
        || c == '\u{205f}' || c == '\u{3000}'
}

pub open spec fn is_digit(c: char) -> bool {
    '0' <= c <= '9'
}

/// The contents of a sequence of character vectors.
pub open spec fn char_seqs(items: Seq<Vec<char>>) -> Seq<Seq<char>> {
    items.map_values(|item: Vec<char>| item@)
}

/// A left-to-right scan for whitespace-separated tokens: the finished tokens, and the
/// token still being read.
pub open spec fn token_scan(s: Seq<char>) -> (Seq<Seq<char>>, Seq<char>)
    decreases s.len(),
{
    if s.len() == 0 {
        (Seq::empty(), Seq::empty())
    } else {
        let before = token_scan(s.drop_last());
        let c = s.last();
        if is_whitespace(c) {
            if before.1.len() > 0 {
                (before.0.push(before.1), Seq::empty())
            } else {
                (before.0, Seq::empty())
            }
        } else {
            (before.0, before.1.push(c))
        }
    }
}

/// The maximal runs of non-whitespace characters, in order.
pub open spec fn split_whitespace(s: Seq<char>) -> Seq<Seq<char>> {
    let scanned = token_scan(s);
    if scanned.1.len() > 0 {
        scanned.0.push(scanned.1)
    } else {
        scanned.0
    }
}

proof fn lemma_char_seqs_push(items: Seq<Vec<char>>, item: Vec<char>)
    ensures
        char_seqs(items.push(item)) == char_seqs(items).push(item@),
{
    assert(char_seqs(items.push(item)) =~= char_seqs(items).push(item@));
}

/// The whitespace-separated tokens of `s`.
pub fn split_whitespace_chars(s: &[char]) -> (tokens: Vec<Vec<char>>)
    ensures
        char_seqs(tokens@) == split_whitespace(s@),
{
    let mut done: Vec<Vec<char>> = Vec::new();
    let mut current: Vec<char> = Vec::new();
    let mut i: usize = 0;
    while i < s.len()
        invariant
            i <= s@.len(),
            char_seqs(done@) == token_scan(s@.take(i as int)).0,
            current@ == token_scan(s@.take(i as int)).1,
        decreases s@.len() - i,
    {
        let c = s[i];
        proof {
            assert(s@.take(i as int + 1).drop_last() == s@.take(i as int));
        }
        if char_is_whitespace(c) {
            if current.len() > 0 {
                proof {
                    lemma_char_seqs_push(done@, current);
                }
                done.push(current);
                current = Vec::new();
            }
        } else {
            current.push(c);
        }
        i = i + 1;
    }
    proof {
        assert(s@.take(s@.len() as int) == s@);
    }
    if current.len() > 0 {
        proof {
            lemma_char_seqs_push(done@, current);
        }
        done.push(current);
    }
    done
}

/// A line without the carriage return that ended it, if any.
pub open spec fn strip_cr(line: Seq<char>) -> Seq<char> {
    if line.len() > 0 && line.last() == '\r' {
        line.drop_last()
    } else {
        line
    }
}

/// A left-to-right scan for lines: the finished lines, and the line still being read.
pub open spec fn line_scan(s: Seq<char>) -> (Seq<Seq<char>>, Seq<char>)
    decreases s.len(),
{
    if s.len() == 0 {
        (Seq::empty(), Seq::empty())
    } else {
        let before = line_scan(s.drop_last());
        let c = s.last();
        if c == '\n' {
            (before.0.push(strip_cr(before.1)), Seq::empty())
        } else {
            (before.0, before.1.push(c))
        }
    }
}

/// The lines of `s`: split at `\n` or `\r\n`, which are dropped; a final line ending is
/// optional and an unterminated last line keeps any `\r`.
pub open spec fn text_lines(s: Seq<char>) -> Seq<Seq<char>> {
    let scanned = line_scan(s);
    if scanned.1.len() > 0 {
        scanned.0.push(scanned.1)
    } else {
        scanned.0
    }
}

/// The lines of `text`, as characters.
pub fn split_lines(text: &str) -> (lines: Vec<Vec<char>>)
    ensures
        char_seqs(lines@) == text_lines(text@),
{
    let mut done: Vec<Vec<char>> = Vec::new();
    let mut current: Vec<char> = Vec::new();
    for c in it: text.chars()
        invariant
            it.seq() == text@,
            char_seqs(done@) == line_scan(text@.take(it.index() as int)).0,
            current@ == line_scan(text@.take(it.index() as int)).1,
    {
        proof {
            assert(text@.take(it.index() as int + 1).drop_last() == text@.take(it.index() as int));
        }
        if c == '\n' {
            let len = current.len();
            if len > 0 && current[len - 1] == '\r' {
                current.pop();
            }
            proof {
                lemma_char_seqs_push(done@, current);
            }
            done.push(current);
            current = Vec::new();
        } else {
            current.push(c);
        }
    }
    proof {
        assert(text@.take(text@.len() as int) == text@);
    }
    if current.len() > 0 {
        proof {
            lemma_char_seqs_push(done@, current);
        }
        done.push(current);
    }
    done
}

pub open spec fn digit_value(c: char) -> nat {
    (c as int - '0' as int) as nat
}

/// The number written by a string of decimal digits.
pub open spec fn digits_value(s: Seq<char>) -> nat
    decreases s.len(),
{
    if s.len() == 0 {
        0
    } else {
        digits_value(s.drop_last()) * 10 + digit_value(s.last())
    }
}

pub open spec fn all_digits(s: Seq<char>) -> bool {
    forall|i: int| 0 <= i < s.len() ==> is_digit(#[trigger] s[i])
}

/// The digits of an unsigned number: the text after one optional `+`.
pub open spec fn unsigned_digits(s: Seq<char>) -> Seq<char> {
    if s.len() > 0 && s[0] == '+' {
        s.subrange(1, s.len() as int)
    } else {
        s
    }
}

/// Unsigned integer syntax: an optional `+` and then one or more decimal digits, whose value
/// is at most `max`.
pub open spec fn parse_unsigned(s: Seq<char>, max: nat) -> Option<nat> {
    let body = unsigned_digits(s);
    if body.len() > 0 && all_digits(body) && digits_value(body) <= max {
        Some(digits_value(body))
    } else {
        None
    }
}

proof fn lemma_digits_value_prefix(s: Seq<char>, k: int)
    requires
        0 <= k <= s.len(),
    ensures
        digits_value(s) >= digits_value(s.take(k)),
    decreases s.len(),
{
    if k < s.len() {
        lemma_digits_value_prefix(s.drop_last(), k);
        assert(s.drop_last().take(k) == s.take(k));
    } else {
        assert(s.take(k) == s);
    }
}

/// Reads an unsigned decimal number, as `u64`'s `FromStr` does.
pub fn parse_u64(s: &[char]) -> (value: Option<u64>)
    ensures
        value is None <==> parse_unsigned(s@, u64::MAX as nat) is None,
        value matches Some(v) ==> parse_unsigned(s@, u64::MAX as nat) == Some(v as nat),
{
    let len = s.len();
    let start: usize = if len > 0 && s[0] == '+' {
        1
    } else {
        0
    };
    let ghost body = unsigned_digits(s@);
    proof {
        assert(body == s@.subrange(start as int, len as int));
    }
    if start == len {
        return None;
    }
    let mut value: u64 = 0;
    let mut i: usize = start;
    while i < len
        invariant
            start <= i <= len,
            len == s@.len(),
            body == s@.subrange(start as int, len as int),
            body == unsigned_digits(s@),
            value == digits_value(body.take(i - start)),
            all_digits(body.take(i - start)),
        decreases len - i,
    {
        let c = s[i];
        proof {
            assert(body[i - start] == c);
        }
        if !('0' <= c && c <= '9') {
            proof {
                assert(!is_digit(body[i - start]));
            }
            return None;
        }
        let digit = (c as u32 - '0' as u32) as u64;
        proof {
            assert(body.take(i - start + 1).drop_last() == body.take(i - start));
            assert(body.take(i - start + 1).last() == c);
            assert(digits_value(body.take(i - start + 1)) == value * 10 + digit);
            assert forall|j: int| 0 <= j < i - start + 1 implies is_digit(
                #[trigger] body.take(i - start + 1)[j],
            ) by {
                if j < i - start {
                    assert(body.take(i - start + 1)[j] == body.take(i - start)[j]);
                }
            }
        }
        let scaled = match value.checked_mul(10) {
            Some(scaled) => scaled,
            None => {
                proof {
                    lemma_digits_value_prefix(body, i - start + 1);
                    assert(value * 10 > u64::MAX);
                    assert(digits_value(body) > u64::MAX);
                }
                return None;
            },
        };
        value = match scaled.checked_add(digit) {
            Some(next) => next,
            None => {
                proof {
                    lemma_digits_value_prefix(body, i - start + 1);
                    assert(scaled + digit > u64::MAX);
                    assert(digits_value(body) > u64::MAX);
                }
                return None;
            },
        };
        i = i + 1;
    }
    proof {
        assert(body.take(len - start) == body);
    }
    Some(value)
}

/// Reads an unsigned decimal number, as `usize`'s `FromStr` does.
pub fn parse_usize(s: &[char]) -> (value: Option<usize>)
    ensures
        value is None <==> parse_unsigned(s@, usize::MAX as nat) is None,
        value matches Some(v) ==> parse_unsigned(s@, usize::MAX as nat) == Some(v as nat),
{
    match parse_u64(s) {
        Some(wide) => {
            if wide <= usize::MAX as u64 {
                Some(wide as usize)
            } else {
                None
            }
        },
        None => None,
    }
}

/// Whether `s` begins with `prefix`.
pub open spec fn has_prefix(s: Seq<char>, prefix: Seq<char>) -> bool {
    prefix.len() <= s.len() && s.take(prefix.len() as int) == prefix
}

pub fn starts_with_chars(s: &[char], prefix: &str) -> (starts: bool)
    ensures
        starts == has_prefix(s@, prefix@),
{
    let mut i: usize = 0;
    let mut matched = true;
    let prefix_len = prefix.unicode_len();
    if prefix_len > s.len() {
        return false;
    }
    proof {
        assert(s@.take(0) =~= prefix@.take(0));
    }
    while i < prefix_len
        invariant
            prefix_len == prefix@.len(),
            prefix_len <= s@.len(),
            i <= prefix_len,
            matched == (s@.take(i as int) == prefix@.take(i as int)),
        decreases prefix_len - i,
    {
        let c = prefix.get_char(i);
        proof {
            assert(s@.take(i as int + 1) == s@.take(i as int).push(s@[i as int]));
            assert(prefix@.take(i as int + 1) == prefix@.take(i as int).push(prefix@[i as int]));
            if s@.take(i as int + 1) == prefix@.take(i as int + 1) {
                assert(s@.take(i as int + 1)[i as int] == prefix@.take(i as int + 1)[i as int]);
                assert(s@.take(i as int) =~= s@.take(i as int + 1).drop_last());
                assert(prefix@.take(i as int) =~= prefix@.take(i as int + 1).drop_last());
            }
        }
        matched = matched && s[i] == c;
        i = i + 1;
    }
    proof {
        assert(prefix@.take(prefix_len as int) == prefix@);
    }
    matched
}

/// Whether `s` is exactly the text `word`.
pub fn chars_equal_str(s: &[char], word: &str) -> (equal: bool)
    ensures
        equal == (s@ == word@),
{
    if s.len() != word.unicode_len() {
        return false;
    }
    let starts = starts_with_chars(s, word);
    proof {
        assert(s@.take(s@.len() as int) == s@);
    }
    starts
}

/// A `String` with the given characters.
pub fn string_from_chars(s: &[char]) -> (text: String)
    ensures
        text@ == s@,
{
    let mut text = String::new();
    let mut i: usize = 0;
    while i < s.len()
        invariant
            i <= s@.len(),
            text@ == s@.take(i as int),
        decreases s@.len() - i,
    {
        crate::text::push_char(&mut text, s[i]);
        proof {
            assert(s@.take(i as int + 1) == s@.take(i as int).push(s@[i as int]));
        }
        i = i + 1;
    }
    proof {
        assert(s@.take(s@.len() as int) == s@);
    }
    text
}


/// `i` is the position of the first `c` in `s`.
pub open spec fn is_first_index(s: Seq<char>, c: char, i: int) -> bool {
    &&& 0 <= i < s.len()
    &&& s[i] == c
    &&& forall|j: int| 0 <= j < i ==> s[j] != c
}

/// `i` is the position of the last `c` in `s`.
pub open spec fn is_last_index(s: Seq<char>, c: char, i: int) -> bool {
    &&& 0 <= i < s.len()
    &&& s[i] == c
    &&& forall|j: int| i < j < s.len() ==> s[j] != c
}

/// The text before and after the first `c`, if `s` holds one.
pub open spec fn split_once(s: Seq<char>, c: char) -> Option<(Seq<char>, Seq<char>)> {
    if exists|i: int| is_first_index(s, c, i) {
        let i = choose|i: int| is_first_index(s, c, i);
        Some((s.take(i), s.subrange(i + 1, s.len() as int)))
    } else {
        None
    }
}

/// The text before and after the last `c`, if `s` holds one.
pub open spec fn rsplit_once(s: Seq<char>, c: char) -> Option<(Seq<char>, Seq<char>)> {
    if exists|i: int| is_last_index(s, c, i) {
        let i = choose|i: int| is_last_index(s, c, i);
        Some((s.take(i), s.subrange(i + 1, s.len() as int)))
    } else {
        None
    }
}

/// The position of the first `c` in `s`.
pub fn find_first(s: &[char], c: char) -> (index: Option<usize>)
    ensures
        index is None <==> !exists|i: int| is_first_index(s@, c, i),
        index matches Some(i) ==> is_first_index(s@, c, i as int) && split_once(s@, c) == Some(
            (s@.take(i as int), s@.subrange(i + 1, s@.len() as int)),
        ),
{
    let mut i: usize = 0;
    while i < s.len()
        invariant
            i <= s@.len(),
            forall|j: int| 0 <= j < i ==> s@[j] != c,
        decreases s@.len() - i,
    {
        if s[i] == c {
            proof {
                assert(is_first_index(s@, c, i as int));
                let k = choose|k: int| is_first_index(s@, c, k);
                assert(k == i) by {
                    if k < i {
                        assert(s@[k] != c);
                    } else if k > i {
                        assert(s@[i as int] != c);
                    }
                }
            }
            return Some(i);
        }
        i = i + 1;
    }
    proof {
        assert forall|k: int| !is_first_index(s@, c, k) by {
            if 0 <= k < s@.len() {
                assert(s@[k] != c);
            }
        }
    }
    None
}

/// The position of the last `c` in `s`.
pub fn find_last(s: &[char], c: char) -> (index: Option<usize>)
    ensures
        index is None <==> !exists|i: int| is_last_index(s@, c, i),
        index matches Some(i) ==> is_last_index(s@, c, i as int) && rsplit_once(s@, c) == Some(
            (s@.take(i as int), s@.subrange(i + 1, s@.len() as int)),
        ),
{
    let mut i: usize = s.len();
    while i > 0
        invariant
            i <= s@.len(),
            forall|j: int| i <= j < s@.len() ==> s@[j] != c,
        decreases i,
    {
        if s[i - 1] == c {
            proof {
                assert(is_last_index(s@, c, i - 1));
                let k = choose|k: int| is_last_index(s@, c, k);
                assert(k == i - 1) by {
                    if k < i - 1 {
                        assert(s@[i - 1] != c);
                    } else if k > i - 1 {
                        assert(s@[k] != c);
                    }
                }
            }
            return Some(i - 1);
        }
        i = i - 1;
    }
    proof {
        assert forall|k: int| !is_last_index(s@, c, k) by {
            if 0 <= k < s@.len() {
                assert(s@[k] != c);
            }
        }
    }
    None
}

/// `s` without its leading whitespace.
pub open spec fn trim_start(s: Seq<char>) -> Seq<char>
    decreases s.len(),
{
    if s.len() > 0 && is_whitespace(s[0]) {
        trim_start(s.subrange(1, s.len() as int))
    } else {
        s
    }
}

/// `s` without its trailing whitespace.
pub open spec fn trim_end(s: Seq<char>) -> Seq<char>
    decreases s.len(),
{
    if s.len() > 0 && is_whitespace(s.last()) {
        trim_end(s.drop_last())
    } else {
        s
    }
}

/// `s` without leading and trailing whitespace.
pub open spec fn trim(s: Seq<char>) -> Seq<char> {
    trim_end(trim_start(s))
}

/// The bounds of the trimmed text within `s`.
pub fn trim_bounds(s: &[char]) -> (bounds: (usize, usize))
    ensures
        bounds.0 <= bounds.1 <= s@.len(),
        s@.subrange(bounds.0 as int, bounds.1 as int) == trim(s@),
{
    let len = s.len();
    let mut start: usize = 0;
    proof {
        assert(s@.subrange(0, len as int) == s@);
    }
    while start < len && char_is_whitespace(s[start])
        invariant
            start <= len == s@.len(),
            trim_start(s@) == trim_start(s@.subrange(start as int, len as int)),
        decreases len - start,
    {
        proof {
            let rest = s@.subrange(start as int, len as int);
            assert(rest.subrange(1, rest.len() as int) == s@.subrange(start + 1, len as int));
        }
        start = start + 1;
    }
    proof {
        assert(s@.subrange(0, len as int) == s@);
    }
    let ghost front = s@.subrange(start as int, len as int);
    let mut end: usize = len;
    while end > start && char_is_whitespace(s[end - 1])
        invariant
            start <= end <= len == s@.len(),
            front == s@.subrange(start as int, len as int),
            trim_end(front) == trim_end(s@.subrange(start as int, end as int)),
        decreases end - start,
    {
        proof {
            let part = s@.subrange(start as int, end as int);
            assert(part.drop_last() == s@.subrange(start as int, end - 1));
        }
        end = end - 1;
    }
    (start, end)
}

/// The first token of `s`, if it has one.
pub open spec fn first_token(s: Seq<char>) -> Option<Seq<char>> {
    if split_whitespace(s).len() > 0 {
        Some(split_whitespace(s)[0])
    } else {
        None
    }
}

/// Whether `s` ends in an ASCII digit.
pub open spec fn ends_in_digit(s: Seq<char>) -> bool {
    s.len() > 0 && is_digit(s.last())
}

} // verus!
