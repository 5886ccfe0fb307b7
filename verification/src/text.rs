//! Character-level helpers shared by the name and path rules.
use vstd::prelude::*;
use vstd::string::*;

verus! {

/// What `str::to_lowercase` returns for a text: the full Unicode lowercase mapping.
pub uninterp spec fn lowercase(text: Seq<char>) -> Seq<char>;

/// The text without its leading whitespace.
pub open spec fn trimmed_start(text: Seq<char>) -> Seq<char>
    decreases text.len(),
{
    if text.len() > 0 && is_white_space(text[0]) {
        trimmed_start(text.drop_first())
    } else {
        text
    }
}

/// The text without its trailing whitespace.
pub open spec fn trimmed_end(text: Seq<char>) -> Seq<char>
    decreases text.len(),
{
    if text.len() > 0 && is_white_space(text.last()) {
        trimmed_end(text.drop_last())
    } else {
        text
    }
}

/// What `str::trim` returns: the text without leading and trailing whitespace.
pub open spec fn trimmed(text: Seq<char>) -> Seq<char> {
    trimmed_end(trimmed_start(text))
}

/// Calls `str::to_lowercase`; the result is named `lowercase` of the text.
#[verifier::external_body]
pub(crate) fn to_lowercase(text: &str) -> (lower: String)
    ensures
        lower@ == lowercase(text@),
{
    text.to_lowercase()
}

proof fn lemma_trimmed_start_skips(text: Seq<char>, i: int)
    requires
        0 <= i <= text.len(),
        forall|j: int| 0 <= j < i ==> is_white_space(#[trigger] text[j]),
        i == text.len() || !is_white_space(text[i]),
    ensures
        trimmed_start(text) == text.skip(i),
    decreases i,
{
    if i == 0 {
        assert(text.skip(0) =~= text);
    } else {
        let rest = text.drop_first();
        assert forall|j: int| 0 <= j < i - 1 implies is_white_space(#[trigger] rest[j]) by {
            assert(rest[j] == text[j + 1]);
        }
        if i < text.len() {
            assert(rest[i - 1] == text[i]);
        }
        lemma_trimmed_start_skips(rest, i - 1);
        assert(rest.skip(i - 1) =~= text.skip(i));
    }
}

proof fn lemma_trimmed_end_takes(text: Seq<char>, e: int)
    requires
        0 <= e <= text.len(),
        forall|j: int| e <= j < text.len() ==> is_white_space(#[trigger] text[j]),
        e == 0 || !is_white_space(text[e - 1]),
    ensures
        trimmed_end(text) == text.take(e),
    decreases text.len() - e,
{
    if e == text.len() {
        assert(text.take(e) =~= text);
    } else {
        let rest = text.drop_last();
        assert(is_white_space(text[text.len() - 1]));
        assert forall|j: int| e <= j < rest.len() implies is_white_space(#[trigger] rest[j]) by {
            assert(rest[j] == text[j]);
        }
        if e > 0 {
            assert(rest[e - 1] == text[e - 1]);
        }
        lemma_trimmed_end_takes(rest, e);
        assert(rest.take(e) =~= text.take(e));
    }
}

/// What `str::trim` returns: the text without leading and trailing characters that have the
/// Unicode `White_Space` property.
pub(crate) fn trim(text: &str) -> (inner: String)
    ensures
        inner@ == trimmed(text@),
{
    let chars = chars_of(text);
    let n = chars.len();
    let mut start: usize = 0;
    while start < n && char_is_whitespace(chars[start])
        invariant
            n == chars@.len(),
            start <= n,
            forall|j: int| 0 <= j < start ==> is_white_space(#[trigger] chars@[j]),
        decreases n - start,
    {
        start = start + 1;
    }
    let mut end: usize = n;
    while end > start && char_is_whitespace(chars[end - 1])
        invariant
            n == chars@.len(),
            start <= end <= n,
            forall|j: int| end <= j < n ==> is_white_space(#[trigger] chars@[j]),
        decreases end,
    {
        end = end - 1;
    }
    proof {
        lemma_trimmed_start_skips(chars@, start as int);
        let rest = chars@.skip(start as int);
        assert forall|j: int| end - start <= j < rest.len() implies is_white_space(#[trigger] rest[j]) by {
            assert(rest[j] == chars@[j + start]);
        }
        if end > start {
            assert(rest[end - start - 1] == chars@[end - 1]);
        }
        lemma_trimmed_end_takes(rest, end - start);
    }
    let mut inner = String::new();
    let mut k: usize = start;
    while k < end
        invariant
            start <= k <= end <= n,
            n == chars@.len(),
            inner@ == chars@.subrange(start as int, k as int),
        decreases end - k,
    {
        push_char(&mut inner, chars[k]);
        assert(inner@ =~= chars@.subrange(start as int, k + 1));
        k = k + 1;
    }
    assert(chars@.skip(start as int).take(end - start) =~= chars@.subrange(start as int, end as int));
    inner
}

/// Calls `String::push`, which appends one character.
#[verifier::external_body]
pub(crate) fn push_char(text: &mut String, c: char)
    ensures
        final(text)@ == old(text)@.push(c),
{
    text.push(c)
}

/// What `char::is_whitespace` answers: whether the character has the Unicode `White_Space`
/// property.
pub(crate) fn char_is_whitespace(c: char) -> (ws: bool)
    ensures
        ws == is_white_space(c),
{
    let code = c as u32;
    (0x09 <= code && code <= 0x0D) || code == 0x20 || code == 0x85 || code == 0xA0 || code == 0x1680
        || (0x2000 <= code && code <= 0x200A) || code == 0x2028 || code == 0x2029 || code == 0x202F
        || code == 0x205F || code == 0x3000
}

/// The characters with the Unicode `White_Space` property: tab to carriage return, space,
/// next line, no-break space, Ogham space mark, the spaces U+2000 to U+200A, the line and
/// paragraph separators, narrow no-break space, medium mathematical space and ideographic
/// space.
pub open spec fn is_white_space(c: char) -> bool {
    let code = c as u32;
    ||| 0x09 <= code <= 0x0D
    ||| code == 0x20
    ||| code == 0x85
    ||| code == 0xA0
    ||| code == 0x1680
    ||| 0x2000 <= code <= 0x200A
    ||| code == 0x2028
    ||| code == 0x2029
    ||| code == 0x202F
    ||| code == 0x205F
    ||| code == 0x3000
}

pub open spec fn is_ascii_upper(c: char) -> bool {
    'A' <= c && c <= 'Z'
}

pub open spec fn is_ascii_digit(c: char) -> bool {
    '0' <= c && c <= '9'
}

pub open spec fn is_ascii_alpha(c: char) -> bool {
    ('a' <= c && c <= 'z') || is_ascii_upper(c)
}

pub open spec fn is_ascii_alnum(c: char) -> bool {
    is_ascii_alpha(c) || is_ascii_digit(c)
}

/// The ASCII lowercase of a character: only `A`..=`Z` change.
pub open spec fn ascii_lower(c: char) -> char {
    if is_ascii_upper(c) {
        ((c as u32) + 32) as char
    } else {
        c
    }
}

pub open spec fn ascii_lower_seq(s: Seq<char>) -> Seq<char> {
    s.map_values(|c: char| ascii_lower(c))
}

pub fn char_ascii_lower(c: char) -> (lower: char)
    ensures
        lower == ascii_lower(c),
{
    if 'A' <= c && c <= 'Z' {
        let code: u32 = (c as u32) + 32;
        assert(0x61 <= code <= 0x7a);
        char_from_ascii_code(code)
    } else {
        c
    }
}

fn char_from_ascii_code(code: u32) -> (c: char)
    requires
        code < 0x80,
    ensures
        c == code as char,
{
    let byte: u8 = code as u8;
    byte as char
}

pub open spec fn has_prefix(s: Seq<char>, prefix: Seq<char>) -> bool {
    prefix.len() <= s.len() && s.take(prefix.len() as int) == prefix
}

pub open spec fn has_suffix(s: Seq<char>, suffix: Seq<char>) -> bool {
    suffix.len() <= s.len() && s.skip(s.len() - suffix.len()) == suffix
}

/// Whether `needle` occurs in `s` as a contiguous run.
pub open spec fn has_infix(s: Seq<char>, needle: Seq<char>) -> bool {
    exists|i: int| 0 <= i && i + needle.len() <= s.len() && #[trigger] s.subrange(i, i + needle.len()) == needle
}

/// The characters of a text, one per element.
pub fn chars_of(text: &str) -> (chars: Vec<char>)
    ensures
        chars@ == text@,
{
    let n = text.unicode_len();
    let mut chars: Vec<char> = Vec::new();
    let mut i: usize = 0;
    while i < n
        invariant
            n == text@.len(),
            i <= n,
            chars@ == text@.take(i as int),
        decreases n - i,
    {
        chars.push(text.get_char(i));
        i = i + 1;
        assert(chars@ =~= text@.take(i as int));
    }
    assert(chars@ =~= text@);
    chars
}

/// A text made of the given characters.
pub fn string_of(chars: &[char]) -> (text: String)
    ensures
        text@ == chars@,
{
    let mut text = String::new();
    let mut i: usize = 0;
    while i < chars.len()
        invariant
            i <= chars@.len(),
            text@ == chars@.take(i as int),
        decreases chars@.len() - i,
    {
        push_char(&mut text, chars[i]);
        i = i + 1;
        assert(text@ =~= chars@.take(i as int));
    }
    assert(chars@.take(chars@.len() as int) =~= chars@);
    text
}

/// A text copied from a string slice.
pub fn owned(text: &str) -> (copy: String)
    ensures
        copy@ == text@,
{
    text.to_owned()
}

pub fn seq_starts_with(s: &[char], prefix: &[char]) -> (b: bool)
    ensures
        b == has_prefix(s@, prefix@),
{
    if prefix.len() > s.len() {
        return false;
    }
    let mut i: usize = 0;
    while i < prefix.len()
        invariant
            prefix@.len() <= s@.len(),
            i <= prefix@.len(),
            forall|j: int| 0 <= j < i ==> s@[j] == prefix@[j],
        decreases prefix@.len() - i,
    {
        if s[i] != prefix[i] {
            assert(s@.take(prefix@.len() as int)[i as int] != prefix@[i as int]);
            return false;
        }
        i = i + 1;
    }
    assert(s@.take(prefix@.len() as int) =~= prefix@);
    true
}

pub fn seq_ends_with(s: &[char], suffix: &[char]) -> (b: bool)
    ensures
        b == has_suffix(s@, suffix@),
{
    if suffix.len() > s.len() {
        return false;
    }
    let offset = s.len() - suffix.len();
    let mut i: usize = 0;
    while i < suffix.len()
        invariant
            suffix@.len() <= s@.len(),
            offset == s@.len() - suffix@.len(),
            s.len() == s@.len(),
            i <= suffix@.len(),
            forall|j: int| 0 <= j < i ==> s@[offset + j] == suffix@[j],
        decreases suffix@.len() - i,
    {
        if s[offset + i] != suffix[i] {
            assert(s@.skip(offset as int)[i as int] != suffix@[i as int]);
            return false;
        }
        i = i + 1;
    }
    assert(s@.skip(offset as int) =~= suffix@);
    true
}

/// Whether `needle` occurs in `s`.
pub fn seq_contains(s: &[char], needle: &[char]) -> (b: bool)
    ensures
        b == has_infix(s@, needle@),
{
    if needle.len() > s.len() {
        assert(!has_infix(s@, needle@));
        return false;
    }
    let last = s.len() - needle.len();
    let mut start: usize = 0;
    loop
        invariant
            needle@.len() <= s@.len(),
            s.len() == s@.len(),
            last == s@.len() - needle@.len(),
            start <= last,
            forall|i: int| 0 <= i < start ==> #[trigger] s@.subrange(i, i + needle@.len()) != needle@,
        decreases last - start,
    {
        let mut j: usize = 0;
        let mut same = true;
        while j < needle.len()
            invariant
                needle@.len() <= s@.len(),
                s.len() == s@.len(),
                start <= last,
                last == s@.len() - needle@.len(),
                j <= needle@.len(),
                same == (forall|k: int| 0 <= k < j ==> s@[start + k] == needle@[k]),
            decreases needle@.len() - j,
        {
            if s[start + j] != needle[j] {
                same = false;
            }
            j = j + 1;
        }
        if same {
            assert(s@.subrange(start as int, start + needle@.len()) =~= needle@);
            return true;
        }
        assert(s@.subrange(start as int, start + needle@.len()) != needle@) by {
            let k = choose|k: int| 0 <= k < needle@.len() && s@[start + k] != needle@[k];
            assert(s@.subrange(start as int, start + needle@.len())[k] == s@[start + k]);
        }
        if start == last {
            return false;
        }
        start = start + 1;
    }
}

/// Whether the character occurs in `s`.
pub fn seq_has_char(s: &[char], c: char) -> (b: bool)
    ensures
        b == s@.contains(c),
{
    let mut i: usize = 0;
    while i < s.len()
        invariant
            i <= s@.len(),
            forall|j: int| 0 <= j < i ==> s@[j] != c,
        decreases s@.len() - i,
    {
        if s[i] == c {
            return true;
        }
        i = i + 1;
    }
    false
}

/// Two texts hold the same characters.
pub fn same_text(a: &str, b: &str) -> (same: bool)
    ensures
        same == (a@ == b@),
{
    let x = chars_of(a);
    let y = chars_of(b);
    if x.len() != y.len() {
        return false;
    }
    let mut i: usize = 0;
    while i < x.len()
        invariant
            x@ == a@,
            y@ == b@,
            x@.len() == y@.len(),
            i <= x@.len(),
            forall|j: int| 0 <= j < i ==> x@[j] == y@[j],
        decreases x@.len() - i,
    {
        if x[i] != y[i] {
            return false;
        }
        i = i + 1;
    }
    assert(x@ =~= y@);
    true
}

/// The ASCII lowercase of every character.
pub fn ascii_lowercase(s: &[char]) -> (lower: Vec<char>)
    ensures
        lower@ == ascii_lower_seq(s@),
{
    let mut lower: Vec<char> = Vec::new();
    let mut i: usize = 0;
    while i < s.len()
        invariant
            i <= s@.len(),
            lower@ == ascii_lower_seq(s@.take(i as int)),
        decreases s@.len() - i,
    {
        lower.push(char_ascii_lower(s[i]));
        i = i + 1;
        assert(ascii_lower_seq(s@.take(i as int)) =~= ascii_lower_seq(s@.take(i - 1)).push(ascii_lower(s@[i - 1])));
    }
    assert(s@.take(s@.len() as int) =~= s@);
    lower
}

} // verus!

verus! {

/// The decimal digits of a number, most significant first, without leading zeros.
pub open spec fn decimal(n: nat) -> Seq<char>
    decreases n,
{
    if n < 10 {
        seq![digit_char(n)]
    } else {
        decimal(n / 10).push(digit_char(n % 10))
    }
}

pub open spec fn digit_char(d: nat) -> char {
    ((d + 48) as u8) as char
}

fn push_decimal(text: &mut String, n: u64)
    ensures
        final(text)@ == old(text)@ + decimal(n as nat),
    decreases n,
{
    if n >= 10 {
        push_decimal(text, n / 10);
    }
    let d: u64 = n % 10;
    let code: u8 = (d as u8) + 48;
    push_char(text, code as char);
    proof {
        if n >= 10 {
            assert(old(text)@ + decimal(n as nat) =~= old(text)@ + decimal((n / 10) as nat) + seq![
                digit_char((n % 10) as nat),
            ]);
        } else {
            assert(old(text)@ + decimal(n as nat) =~= old(text)@ + seq![digit_char(n as nat)]);
        }
    }
}

/// The decimal text of a number, as `to_string` writes it.
pub fn decimal_text(n: u64) -> (text: String)
    ensures
        text@ == decimal(n as nat),
{
    let mut text = String::new();
    push_decimal(&mut text, n);
    assert(Seq::<char>::empty() + decimal(n as nat) =~= decimal(n as nat));
    text
}

} // verus!
