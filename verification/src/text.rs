//! Text as sequences of characters: searching, trimming, case folding and
//! the byte lengths that diagnostics report.

use vstd::prelude::*;
use vstd::string::StringExecFns;
use vstd::utf8::encode_utf8;

verus! {

/// Whether a character beyond ASCII has the Unicode `White_Space` property,
/// as `char::is_whitespace` reports it.
pub uninterp spec fn is_wide_white_space(c: char) -> bool;

/// Whether a character has the Unicode `White_Space` property. In ASCII
/// these are the space and the five characters from tab to carriage return.
pub open spec fn is_white_space(c: char) -> bool {
    if c <= '\x7f' {
        c == ' ' || '\t' <= c <= '\r'
    } else {
        is_wide_white_space(c)
    }
}

/// `char::is_whitespace` of std: the result is the `White_Space` property of
/// the character. Of the characters of ASCII the contract says which have
/// it; of the others it says no more than the name [`is_wide_white_space`].
pub assume_specification[ char::is_whitespace ](c: char) -> (b: bool)
    ensures
        c <= '\x7f' ==> b == (c == ' ' || '\t' <= c <= '\r'),
        c > '\x7f' ==> b == is_wide_white_space(c),
;

/// `String::push` of std appends one character to the end of the string.
pub assume_specification[ String::push ](s: &mut String, c: char)
    ensures
        final(s)@ == old(s)@.push(c),
;

/// The index of the first `c` in `s` at or after `from`.
pub open spec fn find(s: Seq<char>, c: char, from: int) -> Option<int>
    decreases s.len() - from,
{
    if from < 0 || from >= s.len() {
        None
    } else if s[from] == c {
        Some(from)
    } else {
        find(s, c, from + 1)
    }
}

/// `find` returns the least matching index, and `None` only when there is none.
pub proof fn lemma_find(s: Seq<char>, c: char, from: int)
    requires
        0 <= from,
    ensures
        match find(s, c, from) {
            Some(i) => from <= i < s.len() && s[i] == c && forall|j: int|
                from <= j < i ==> s[j] != c,
            None => forall|j: int| from <= j < s.len() ==> s[j] != c,
        },
    decreases s.len() - from,
{
    if from < s.len() && s[from] != c {
        lemma_find(s, c, from + 1);
    }
}

/// An index that holds `c` and has no `c` between `from` and itself is the one
/// that `find` returns.
pub proof fn lemma_find_is(s: Seq<char>, c: char, from: int, i: int)
    requires
        0 <= from <= i < s.len(),
        s[i] == c,
        forall|j: int| from <= j < i ==> s[j] != c,
    ensures
        find(s, c, from) == Some(i),
    decreases i - from,
{
    if from < i {
        lemma_find_is(s, c, from + 1, i);
    }
}

/// The first index at or after `from` that holds no white space, or the length.
pub open spec fn skip_white_space(s: Seq<char>, from: int) -> int
    decreases s.len() - from,
{
    if 0 <= from < s.len() && is_white_space(s[from]) {
        skip_white_space(s, from + 1)
    } else {
        from
    }
}

/// The end of `s[low..high]` once its trailing white space is cut off.
pub open spec fn drop_white_space(s: Seq<char>, low: int, high: int) -> int
    decreases high - low,
{
    if low < high <= s.len() && is_white_space(s[high - 1]) {
        drop_white_space(s, low, high - 1)
    } else {
        high
    }
}

/// `s` without its leading and trailing white space.
pub open spec fn trim(s: Seq<char>) -> Seq<char> {
    let low = skip_white_space(s, 0);
    s.subrange(low, drop_white_space(s, low, s.len() as int))
}

/// A text that neither starts nor ends with white space is its own trimmed
/// text.
pub proof fn lemma_trim_plain(s: Seq<char>)
    requires
        s.len() > 0 ==> !is_white_space(s[0]) && !is_white_space(s.last()),
    ensures
        trim(s) == s,
{
    assert(s.subrange(0, s.len() as int) =~= s);
}

/// A letter `A` to `Z` as its lower-case letter, any other character as it is.
pub open spec fn lower(c: char) -> char {
    if 'A' <= c <= 'Z' {
        ((c as u8) + 32) as char
    } else {
        c
    }
}

/// `s` with each ASCII upper-case letter folded to lower case.
pub open spec fn ascii_lower(s: Seq<char>) -> Seq<char> {
    Seq::new(s.len(), |i: int| lower(s[i]))
}

/// The number of bytes of `s` in UTF-8.
pub open spec fn utf8_len(s: Seq<char>) -> nat {
    encode_utf8(s).len()
}

/// An optional text, as mathematics.
pub open spec fn text_view(text: Option<String>) -> Option<Seq<char>> {
    match text {
        Some(t) => Some(t@),
        None => None,
    }
}

/// Strings as mathematics.
pub open spec fn texts(strings: Seq<String>) -> Seq<Seq<char>> {
    Seq::new(strings.len(), |i: int| strings[i]@)
}

/// Space, tab, line feed, form feed and carriage return: the white space of
/// ASCII.
pub open spec fn is_blank(c: char) -> bool {
    c == ' ' || c == '\t' || c == '\n' || c == '\x0C' || c == '\r'
}

/// The words of `s`: its longest stretches without ASCII white space, first
/// to last.
pub open spec fn words(s: Seq<char>) -> Seq<Seq<char>>
    decreases s.len(),
{
    if s.len() == 0 {
        Seq::empty()
    } else if is_blank(s.last()) {
        words(s.drop_last())
    } else if s.len() > 1 && !is_blank(s[s.len() - 2]) {
        words(s.drop_last()).drop_last().push(words(s.drop_last()).last().push(s.last()))
    } else {
        words(s.drop_last()).push(seq![s.last()])
    }
}

/// The digit `0` to `9` that stands for `d`.
pub open spec fn digit(d: nat) -> char {
    ((48 + d) as u8) as char
}

/// `n` in decimal.
pub open spec fn decimal(n: nat) -> Seq<char>
    decreases n,
{
    if n < 10 {
        seq![digit(n)]
    } else {
        decimal(n / 10).push(digit(n % 10))
    }
}

/// The characters of a string slice.
pub fn chars_of(s: &str) -> (chars: Vec<char>)
    ensures
        chars@ == s@,
{
    let mut chars: Vec<char> = Vec::new();
    for c in it: s.chars()
        invariant
            chars@ == it.seq().take(it.index()),
            it.seq() == s@,
    {
        chars.push(c);
    }
    chars
}

/// The string made of `chars[from..to]`.
pub fn text_of(chars: &Vec<char>, from: usize, to: usize) -> (s: String)
    requires
        from <= to <= chars.len(),
    ensures
        s@ == chars@.subrange(from as int, to as int),
{
    let mut s = String::new();
    let mut i: usize = from;
    while i < to
        invariant
            from <= i <= to <= chars.len(),
            s@ == chars@.subrange(from as int, i as int),
        decreases to - i,
    {
        s.push(chars[i]);
        i += 1;
    }
    s
}

/// The string made of `chars[from..to]` folded to lower case.
pub fn lower_text_of(chars: &Vec<char>, from: usize, to: usize) -> (s: String)
    requires
        from <= to <= chars.len(),
    ensures
        s@ == ascii_lower(chars@.subrange(from as int, to as int)),
{
    let mut s = String::new();
    let mut i: usize = from;
    while i < to
        invariant
            from <= i <= to <= chars.len(),
            s@ == ascii_lower(chars@.subrange(from as int, i as int)),
        decreases to - i,
    {
        let c = chars[i];
        let folded = if 'A' <= c && c <= 'Z' {
            ((c as u8) + 32) as char
        } else {
            c
        };
        s.push(folded);
        i += 1;
    }
    s
}

/// The number of bytes that `chars[from..to]` takes in UTF-8.
pub fn byte_len_of(chars: &Vec<char>, from: usize, to: usize) -> (n: usize)
    requires
        from <= to <= chars.len(),
    ensures
        n == utf8_len(chars@.subrange(from as int, to as int)),
{
    let s = text_of(chars, from, to);
    s.as_str().as_bytes().len()
}

/// The first index of `c` in `chars` at or after `from`.
pub fn find_char(chars: &Vec<char>, c: char, from: usize) -> (found: Option<usize>)
    ensures
        match found {
            Some(i) => find(chars@, c, from as int) == Some(i as int) && from <= i < chars.len(),
            None => find(chars@, c, from as int) is None,
        },
{
    let mut i: usize = from;
    while i < chars.len()
        invariant
            from <= i,
            find(chars@, c, from as int) == find(chars@, c, i as int),
        decreases chars.len() - i,
    {
        if chars[i] == c {
            return Some(i);
        }
        i += 1;
    }
    None
}

/// The characters of `s` without leading and trailing white space.
pub fn trimmed_chars_of(s: &str) -> (chars: Vec<char>)
    ensures
        chars@ == trim(s@),
{
    let all = chars_of(s);
    let mut low: usize = 0;
    while low < all.len() && all[low].is_whitespace()
        invariant
            low <= all.len(),
            skip_white_space(all@, 0) == skip_white_space(all@, low as int),
        decreases all.len() - low,
    {
        low += 1;
    }
    let mut high: usize = all.len();
    while low < high && all[high - 1].is_whitespace()
        invariant
            low <= high <= all.len(),
            drop_white_space(all@, low as int, all.len() as int) == drop_white_space(
                all@,
                low as int,
                high as int,
            ),
        decreases high - low,
    {
        high -= 1;
    }
    let mut chars: Vec<char> = Vec::new();
    let mut i: usize = low;
    while i < high
        invariant
            low <= i <= high <= all.len(),
            chars@ == all@.subrange(low as int, i as int),
        decreases high - i,
    {
        chars.push(all[i]);
        i += 1;
    }
    chars
}

/// `n` in decimal.
pub fn decimal_text(n: u16) -> (s: String)
    ensures
        s@ == decimal(n as nat),
    decreases n,
{
    if n < 10 {
        let mut s = String::new();
        s.push((48 + n as u8) as char);
        s
    } else {
        let mut s = decimal_text(n / 10);
        s.push((48 + (n % 10) as u8) as char);
        s
    }
}

/// Whether `prefix` is a prefix of `text`.
pub fn has_prefix(text: &Vec<char>, prefix: &Vec<char>) -> (b: bool)
    ensures
        b == prefix@.is_prefix_of(text@),
{
    if prefix.len() > text.len() {
        return false;
    }
    let mut i: usize = 0;
    while i < prefix.len()
        invariant
            i <= prefix.len() <= text.len(),
            forall|j: int| 0 <= j < i ==> prefix@[j] == text@[j],
        decreases prefix.len() - i,
    {
        if prefix[i] != text[i] {
            return false;
        }
        i += 1;
    }
    true
}

/// The words of `text`: what lies between its ASCII white space.
pub fn split_words(text: &str) -> (found: Vec<String>)
    ensures
        texts(found@) == words(text@),
{
    let chars = chars_of(text);
    let ghost s = chars@;
    let mut found: Vec<String> = Vec::new();
    let mut start: Option<usize> = None;
    let mut i: usize = 0;
    while i < chars.len()
        invariant
            i <= chars.len(),
            s == chars@,
            match start {
                Some(a) => a < i && !is_blank(s[i - 1]) && words(s.take(i as int)) == texts(
                    found@,
                ).push(s.subrange(a as int, i as int)),
                None => (i > 0 ==> is_blank(s[i - 1])) && words(s.take(i as int)) == texts(found@),
            },
        decreases chars.len() - i,
    {
        let c = chars[i];
        let ghost front = s.take(i as int);
        let ghost longer = s.take(i + 1);
        proof {
            assert(longer.drop_last() =~= front);
        }
        if c == ' ' || c == '\t' || c == '\n' || c == '\x0C' || c == '\r' {
            if let Some(a) = start {
                found.push(text_of(&chars, a, i));
                start = None;
            }
        } else {
            match start {
                Some(a) => {
                    assert(s.subrange(a as int, i as int).push(c) =~= s.subrange(
                        a as int,
                        i + 1,
                    ));
                },
                None => {
                    assert(seq![c] =~= s.subrange(i as int, i + 1));
                    start = Some(i);
                },
            }
        }
        i += 1;
    }
    assert(s.take(i as int) =~= s);
    if let Some(a) = start {
        found.push(text_of(&chars, a, i));
    }
    found
}

/// `a` followed by `b`.
pub fn joined(a: &str, b: &str) -> (s: String)
    ensures
        s@ == a@ + b@,
{
    let mut s = String::from_str(a);
    s.append(b);
    s
}

} // verus!
