//! Text as sequences of characters, and the operations on it that the rest of
//! the crate is stated over.
//!
//! Positions and lengths count characters, never bytes.

use vstd::prelude::*;

verus! {

/// What a string holds, as the contracts see it.
pub type Text = Seq<char>;

/// What a list of strings holds.
pub open spec fn texts(list: Seq<String>) -> Seq<Text> {
    list.map_values(|s: String| s@)
}

/// One more string is one more text.
pub broadcast proof fn lemma_texts_push(list: Seq<String>, s: String)
    ensures
        #[trigger] texts(list.push(s)) == texts(list).push(s@),
{
    assert(texts(list.push(s)) =~= texts(list).push(s@));
}

/// What a string holds, where there is one.
pub open spec fn text_option(value: Option<String>) -> Option<Text> {
    match value {
        Some(s) => Some(s@),
        None => None,
    }
}

/// What a list of pairs of strings holds.
pub open spec fn text_pairs(list: Seq<(String, String)>) -> Seq<(Text, Text)> {
    list.map_values(|p: (String, String)| (p.0@, p.1@))
}

// ---- characters ----

/// The Unicode `White_Space` property.
pub open spec fn is_white_space(c: char) -> bool {
    let n = c as u32;
    ||| 0x9 <= n <= 0xd
    ||| n == 0x20
    ||| n == 0x85
    ||| n == 0xa0
    ||| n == 0x1680
    ||| 0x2000 <= n <= 0x200a
    ||| n == 0x2028
    ||| n == 0x2029
    ||| n == 0x202f
    ||| n == 0x205f
    ||| n == 0x3000
}

pub open spec fn is_digit(c: char) -> bool {
    '0' <= c <= '9'
}

pub open spec fn is_lower(c: char) -> bool {
    'a' <= c <= 'z'
}

pub open spec fn is_upper(c: char) -> bool {
    'A' <= c <= 'Z'
}

pub open spec fn is_alphanumeric(c: char) -> bool {
    is_digit(c) || is_lower(c) || is_upper(c)
}

pub open spec fn is_hex_digit(c: char) -> bool {
    is_digit(c) || 'a' <= c <= 'f' || 'A' <= c <= 'F'
}

pub open spec fn is_ascii_char(c: char) -> bool {
    (c as u32) < 128
}

/// `A` to `Z` become `a` to `z`; every other character stays.
pub open spec fn ascii_lower(c: char) -> char {
    if is_upper(c) {
        (c as u32 + 32) as char
    } else {
        c
    }
}

/// `a` to `z` become `A` to `Z`; every other character stays.
pub open spec fn ascii_upper(c: char) -> char {
    if is_lower(c) {
        (c as u32 - 32) as char
    } else {
        c
    }
}

/// Every character through [`ascii_lower`].
pub open spec fn ascii_lowered(s: Text) -> Text {
    s.map_values(|c: char| ascii_lower(c))
}

/// Every character through [`ascii_upper`].
pub open spec fn ascii_uppered(s: Text) -> Text {
    s.map_values(|c: char| ascii_upper(c))
}

pub open spec fn all_ascii(s: Text) -> bool {
    forall|i: int| 0 <= i < s.len() ==> is_ascii_char(#[trigger] s[i])
}

pub fn white_space(c: char) -> (r: bool)
    ensures
        r == is_white_space(c),
{
    let n: u32 = c as u32;
    (0x9 <= n && n <= 0xd) || n == 0x20 || n == 0x85 || n == 0xa0 || n == 0x1680 || (0x2000 <= n
        && n <= 0x200a) || n == 0x2028 || n == 0x2029 || n == 0x202f || n == 0x205f || n == 0x3000
}

pub fn digit(c: char) -> (r: bool)
    ensures
        r == is_digit(c),
{
    '0' <= c && c <= '9'
}

pub fn alphanumeric(c: char) -> (r: bool)
    ensures
        r == is_alphanumeric(c),
{
    ('0' <= c && c <= '9') || ('a' <= c && c <= 'z') || ('A' <= c && c <= 'Z')
}

pub fn hex_digit(c: char) -> (r: bool)
    ensures
        r == is_hex_digit(c),
{
    ('0' <= c && c <= '9') || ('a' <= c && c <= 'f') || ('A' <= c && c <= 'F')
}

/// One ASCII letter to lower case.
pub fn lower_char(c: char) -> (r: char)
    ensures
        r == ascii_lower(c),
{
    if 'A' <= c && c <= 'Z' {
        ((c as u8) + 32) as char
    } else {
        c
    }
}

/// One ASCII letter to upper case.
pub fn upper_char(c: char) -> (r: char)
    ensures
        r == ascii_upper(c),
{
    if 'a' <= c && c <= 'z' {
        ((c as u8) - 32) as char
    } else {
        c
    }
}

// ---- strings as sequences ----

/// `String::push`: appends one character to the end of the string.
pub assume_specification[ String::push ](s: &mut String, c: char)
    ensures
        final(s)@ == old(s)@.push(c),
;

/// The characters of a string, by position.
pub fn chars_of(s: &str) -> (r: Vec<char>)
    ensures
        r@ == s@,
{
    let mut out: Vec<char> = Vec::new();
    for c in it: s.chars()
        invariant
            it.seq() == s@,
            out@ == s@.take(it.index()),
    {
        out.push(c);
    }
    out
}

/// Whether two strings hold the same characters.
pub fn same(a: &str, b: &str) -> (r: bool)
    ensures
        r == (a@ == b@),
{
    a.to_string() == b.to_string()
}

/// Every ASCII letter to lower case.
pub fn ascii_lowercase(s: &str) -> (r: String)
    ensures
        r@ == ascii_lowered(s@),
{
    let chars = chars_of(s);
    let mut out: String = String::new();
    let mut i: usize = 0;
    while i < chars.len()
        invariant
            chars@ == s@,
            i <= chars@.len(),
            out@ == ascii_lowered(s@.take(i as int)),
        decreases chars@.len() - i,
    {
        assert(s@.take(i + 1) == s@.take(i as int).push(s@[i as int]));
        out.push(lower_char(chars[i]));
        assert(out@ =~= ascii_lowered(s@.take(i + 1)));
        i += 1;
    }
    assert(s@.take(s@.len() as int) == s@);
    out
}

/// Every ASCII letter to upper case.
pub fn ascii_uppercase(s: &str) -> (r: String)
    ensures
        r@ == ascii_uppered(s@),
{
    let chars = chars_of(s);
    let mut out: String = String::new();
    let mut i: usize = 0;
    while i < chars.len()
        invariant
            chars@ == s@,
            i <= chars@.len(),
            out@ == ascii_uppered(s@.take(i as int)),
        decreases chars@.len() - i,
    {
        assert(s@.take(i + 1) == s@.take(i as int).push(s@[i as int]));
        out.push(upper_char(chars[i]));
        assert(out@ =~= ascii_uppered(s@.take(i + 1)));
        i += 1;
    }
    assert(s@.take(s@.len() as int) == s@);
    out
}

/// The first `n` characters, or all of them where there are fewer.
pub open spec fn head(s: Text, n: nat) -> Text {
    if s.len() <= n {
        s
    } else {
        s.take(n as int)
    }
}

/// The first `n` characters, or all of them where there are fewer.
pub fn first_chars(s: &str, n: usize) -> (r: &str)
    ensures
        r@ == head(s@, n as nat),
{
    let len: usize = s.unicode_len();
    if len <= n {
        s
    } else {
        s.substring_char(0, n)
    }
}

// ---- trimming ----

/// The characters that a trim removes.
#[derive(Copy, Clone, Debug, PartialEq, Eq)]
pub enum Class {
    White,
    Slash,
    Quote,
}

pub open spec fn in_class(class: Class, c: char) -> bool {
    match class {
        Class::White => is_white_space(c),
        Class::Slash => c == '/',
        Class::Quote => c == '"' || c == '\'',
    }
}

impl Class {
    pub fn holds(self, c: char) -> (r: bool)
        ensures
            r == in_class(self, c),
    {
        match self {
            Class::White => white_space(c),
            Class::Slash => c == '/',
            Class::Quote => c == '"' || c == '\'',
        }
    }
}

/// `s` without the characters of the class that it begins with.
pub open spec fn drop_front(s: Text, class: Class) -> Text
    decreases s.len(),
{
    if s.len() > 0 && in_class(class, s[0]) {
        drop_front(s.drop_first(), class)
    } else {
        s
    }
}

/// `s` without the characters of the class that it ends with.
pub open spec fn drop_back(s: Text, class: Class) -> Text
    decreases s.len(),
{
    if s.len() > 0 && in_class(class, s.last()) {
        drop_back(s.drop_last(), class)
    } else {
        s
    }
}

/// `s` without the characters of the class at either end.
pub open spec fn stripped(s: Text, class: Class) -> Text {
    drop_back(drop_front(s, class), class)
}

/// `s` without white space at either end.
pub open spec fn trimmed(s: Text) -> Text {
    stripped(s, Class::White)
}

/// Dropping characters at the ends leaves a run of the text.
pub proof fn lemma_drop_front(s: Text, class: Class)
    ensures
        drop_front(s, class).len() <= s.len(),
        drop_front(s, class) == s.skip(s.len() - drop_front(s, class).len()),
        drop_front(s, class).len() > 0 ==> !in_class(class, drop_front(s, class)[0]),
    decreases s.len(),
{
    if s.len() > 0 && in_class(class, s[0]) {
        let rest = s.drop_first();
        lemma_drop_front(rest, class);
        let n = rest.len() - drop_front(rest, class).len();
        assert(rest.skip(n) =~= s.skip(n + 1));
    } else {
        assert(s.skip(0) =~= s);
    }
}

/// Dropping characters at the end leaves a front of the text.
pub proof fn lemma_drop_back(s: Text, class: Class)
    ensures
        drop_back(s, class).len() <= s.len(),
        drop_back(s, class) == s.take(drop_back(s, class).len() as int),
        drop_back(s, class).len() > 0 ==> !in_class(class, drop_back(s, class).last()),
    decreases s.len(),
{
    if s.len() > 0 && in_class(class, s.last()) {
        let rest = s.drop_last();
        lemma_drop_back(rest, class);
        let n = drop_back(rest, class).len() as int;
        assert(rest.take(n) =~= s.take(n));
    } else {
        assert(s.take(s.len() as int) =~= s);
    }
}

/// A trimmed text is a run of the text, and holds only characters of it.
pub proof fn lemma_trimmed_within(s: Text)
    ensures
        trimmed(s).len() <= s.len(),
        exists|a: int, b: int| 0 <= a <= b <= s.len() && trimmed(s) == #[trigger] s.subrange(a, b),
        all_ascii(s) ==> all_ascii(trimmed(s)),
{
    let front = drop_front(s, Class::White);
    lemma_drop_front(s, Class::White);
    lemma_drop_back(front, Class::White);
    let a = s.len() - front.len();
    let b = a + trimmed(s).len();
    assert(trimmed(s) =~= s.subrange(a, b));
}

/// A trimmed text neither begins nor ends with white space.
pub proof fn lemma_trimmed_ends(s: Text)
    ensures
        trimmed(s).len() > 0 ==> !is_white_space(trimmed(s)[0]) && !is_white_space(
            trimmed(s).last(),
        ),
{
    let front = drop_front(s, Class::White);
    lemma_drop_front(s, Class::White);
    lemma_drop_back(front, Class::White);
}

/// A text that neither begins nor ends with white space stays as it is.
pub proof fn lemma_trim_nothing(s: Text)
    requires
        s.len() > 0 ==> !is_white_space(s[0]) && !is_white_space(s.last()),
    ensures
        trimmed(s) == s,
{
}

/// Trimming twice is trimming once.
pub proof fn lemma_trim_again(s: Text)
    ensures
        trimmed(trimmed(s)) == trimmed(s),
{
    lemma_trimmed_ends(s);
    lemma_trim_nothing(trimmed(s));
}

/// A text that begins with more than white space is not all white space.
pub proof fn lemma_trimmed_nonempty(s: Text)
    ensures
        s.len() > 0 && !is_white_space(s[0]) ==> trimmed(s).len() > 0,
    decreases s.len(),
{
    if s.len() > 0 && !is_white_space(s[0]) && is_white_space(s.last()) {
        assert(s.drop_last()[0] == s[0]);
        lemma_trimmed_nonempty(s.drop_last());
        assert(drop_front(s, Class::White) == s);
        assert(drop_front(s.drop_last(), Class::White) == s.drop_last());
    }
}

/// White space at the end does not matter to a trimmed text.
pub proof fn lemma_trim_end_space(s: Text, c: char)
    requires
        is_white_space(c),
    ensures
        trimmed(s.push(c)) == trimmed(s),
    decreases s.len(),
{
    let t = s.push(c);
    if s.len() == 0 {
        assert(t.drop_first() =~= s);
        assert(drop_front(t.drop_first(), Class::White) == s);
    } else if is_white_space(s[0]) {
        assert(t.drop_first() =~= s.drop_first().push(c));
        lemma_trim_end_space(s.drop_first(), c);
    } else {
        assert(t.drop_last() =~= s);
        assert(drop_back(t, Class::White) == drop_back(s, Class::White));
    }
}

pub fn trim_start(s: &str, class: Class) -> (r: &str)
    ensures
        r@ == drop_front(s@, class),
{
    let chars = chars_of(s);
    let n: usize = chars.len();
    let mut i: usize = 0;
    assert(s@.subrange(0, n as int) == s@);
    while i < n && class.holds(chars[i])
        invariant
            chars@ == s@,
            n == s@.len(),
            i <= n,
            drop_front(s@, class) == drop_front(s@.subrange(i as int, n as int), class),
        decreases n - i,
    {
        assert(s@.subrange(i as int, n as int).drop_first() == s@.subrange(i + 1, n as int));
        i += 1;
    }
    s.substring_char(i, n)
}

pub fn trim_end(s: &str, class: Class) -> (r: &str)
    ensures
        r@ == drop_back(s@, class),
{
    let chars = chars_of(s);
    let mut n: usize = chars.len();
    assert(s@.take(n as int) == s@);
    while n > 0 && class.holds(chars[n - 1])
        invariant
            chars@ == s@,
            n <= s@.len(),
            drop_back(s@, class) == drop_back(s@.take(n as int), class),
        decreases n,
    {
        assert(s@.take(n as int).drop_last() == s@.take(n - 1));
        n -= 1;
    }
    assert(s@.take(n as int) == s@.subrange(0, n as int));
    s.substring_char(0, n)
}

pub fn strip(s: &str, class: Class) -> (r: &str)
    ensures
        r@ == stripped(s@, class),
{
    trim_end(trim_start(s, class), class)
}

/// Without white space at either end.
pub fn trim(s: &str) -> (r: &str)
    ensures
        r@ == trimmed(s@),
{
    strip(s, Class::White)
}

// ---- searching ----

pub open spec fn occurs_at(s: Text, needle: Text, i: int) -> bool {
    &&& 0 <= i
    &&& i + needle.len() <= s.len()
    &&& s.subrange(i, i + needle.len()) == needle
}

pub open spec fn starts(s: Text, prefix: Text) -> bool {
    occurs_at(s, prefix, 0)
}

/// Whether `needle` occurs anywhere in `s`.
pub open spec fn occurs(s: Text, needle: Text) -> bool {
    exists|i: int| occurs_at(s, needle, i)
}

/// The first position from `from` on at which `needle` occurs.
pub open spec fn first_from(s: Text, needle: Text, from: int) -> Option<int>
    decreases s.len() + 1 - from,
{
    if from < 0 || from + needle.len() > s.len() {
        None
    } else if occurs_at(s, needle, from) {
        Some(from)
    } else {
        first_from(s, needle, from + 1)
    }
}

/// The first position at which `needle` occurs in `s`.
pub open spec fn first_of(s: Text, needle: Text) -> Option<int> {
    first_from(s, needle, 0)
}

/// [`first_from`] finds an occurrence where there is one, and the first of them.
pub proof fn lemma_first_from(s: Text, needle: Text, from: int)
    requires
        0 <= from,
    ensures
        match first_from(s, needle, from) {
            Some(i) => from <= i && occurs_at(s, needle, i) && forall|j: int|
                from <= j < i ==> !occurs_at(s, needle, j),
            None => forall|j: int| from <= j ==> !occurs_at(s, needle, j),
        },
    decreases s.len() + 1 - from,
{
    if from + needle.len() <= s.len() && !occurs_at(s, needle, from) {
        lemma_first_from(s, needle, from + 1);
    }
}

/// Whether `needle` stands at position `at` of `chars`.
pub fn stands_at(chars: &Vec<char>, needle: &Vec<char>, at: usize) -> (r: bool)
    requires
        at <= chars@.len(),
    ensures
        r == occurs_at(chars@, needle@, at as int),
{
    let n: usize = chars.len();
    if needle.len() > n - at {
        return false;
    }
    let mut i: usize = 0;
    while i < needle.len()
        invariant
            i <= needle@.len(),
            n == chars@.len(),
            at + needle@.len() <= n,
            forall|j: int| 0 <= j < i ==> chars@[at + j] == needle@[j],
        decreases needle@.len() - i,
    {
        if chars[at + i] != needle[i] {
            assert(chars@.subrange(at as int, at + needle@.len())[i as int] != needle@[i as int]);
            return false;
        }
        i += 1;
    }
    assert(chars@.subrange(at as int, at + needle@.len()) =~= needle@);
    true
}

/// The first position of `needle` in `s`.
pub fn find(s: &str, needle: &str) -> (r: Option<usize>)
    ensures
        match r {
            Some(i) => first_of(s@, needle@) == Some(i as int) && i + needle@.len() <= s@.len(),
            None => first_of(s@, needle@) is None,
        },
{
    let chars = chars_of(s);
    let wanted = chars_of(needle);
    let mut i: usize = 0;
    while wanted.len() <= chars.len() - i
        invariant
            chars@ == s@,
            wanted@ == needle@,
            i <= chars@.len(),
            first_of(s@, needle@) == first_from(s@, needle@, i as int),
        decreases chars@.len() - i,
    {
        if stands_at(&chars, &wanted, i) {
            return Some(i);
        }
        if i == chars.len() {
            assert(s@.subrange(i as int, i as int) =~= needle@);
            return None;
        }
        i += 1;
    }
    None
}

/// Whether `needle` occurs in `s`.
pub fn contains(s: &str, needle: &str) -> (r: bool)
    ensures
        r == occurs(s@, needle@),
{
    proof {
        lemma_first_from(s@, needle@, 0);
    }
    match find(s, needle) {
        Some(_) => true,
        None => false,
    }
}

/// What follows `prefix` in `s`, where `s` begins with it.
pub fn strip_prefix<'a>(s: &'a str, prefix: &str) -> (r: Option<&'a str>)
    ensures
        match r {
            Some(rest) => starts(s@, prefix@) && rest@ == s@.skip(prefix@.len() as int),
            None => !starts(s@, prefix@),
        },
{
    let chars = chars_of(s);
    let wanted = chars_of(prefix);
    if stands_at(&chars, &wanted, 0) {
        let rest = s.substring_char(wanted.len(), chars.len());
        assert(rest@ == s@.skip(prefix@.len() as int));
        Some(rest)
    } else {
        None
    }
}

/// The position of the first `c` in `s`, or the length of `s`.
pub open spec fn position(s: Text, c: char) -> nat
    decreases s.len(),
{
    if s.len() == 0 || s[0] == c {
        0
    } else {
        1 + position(s.drop_first(), c)
    }
}

/// What [`position`] is: no `c` stands before it, and one stands there unless
/// `s` holds none.
pub proof fn lemma_position(s: Text, c: char)
    ensures
        position(s, c) <= s.len(),
        forall|j: int| 0 <= j < position(s, c) ==> s[j] != c,
        position(s, c) < s.len() ==> s[position(s, c) as int] == c,
    decreases s.len(),
{
    if s.len() > 0 && s[0] != c {
        lemma_position(s.drop_first(), c);
        assert forall|j: int| 0 <= j < position(s, c) implies s[j] != c by {
            if j > 0 {
                assert(s.drop_first()[j - 1] == s[j]);
            }
        }
    }
}

/// The position of the first `c`, or the number of characters.
pub fn find_char(chars: &Vec<char>, c: char) -> (r: usize)
    ensures
        r == position(chars@, c),
        r <= chars@.len(),
{
    let mut i: usize = 0;
    assert(chars@.skip(0) == chars@);
    while i < chars.len() && chars[i] != c
        invariant
            i <= chars@.len(),
            position(chars@, c) == i + position(chars@.skip(i as int), c),
        decreases chars@.len() - i,
    {
        assert(chars@.skip(i as int).drop_first() == chars@.skip(i + 1));
        i += 1;
    }
    i
}

// ---- splitting and joining ----

/// The pieces of `s` between the separators `c`. There is always one more
/// piece than there are separators.
pub open spec fn split(s: Text, c: char) -> Seq<Text>
    decreases s.len(),
{
    if s.len() == 0 {
        seq![Seq::empty()]
    } else {
        let pieces = split(s.drop_last(), c);
        if s.last() == c {
            pieces.push(Seq::empty())
        } else {
            pieces.update(pieces.len() - 1, pieces.last().push(s.last()))
        }
    }
}

/// The pieces between the separators `c`.
pub fn split_text(s: &str, c: char) -> (r: Vec<String>)
    ensures
        texts(r@) == split(s@, c),
        r@.len() > 0,
{
    let chars = chars_of(s);
    let mut pieces: Vec<String> = Vec::new();
    let mut piece: String = String::new();
    let mut i: usize = 0;
    assert(texts(pieces@).push(piece@) =~= split(s@.take(0), c));
    while i < chars.len()
        invariant
            chars@ == s@,
            i <= chars@.len(),
            texts(pieces@).push(piece@) == split(s@.take(i as int), c),
        decreases chars@.len() - i,
    {
        let ghost before = texts(pieces@);
        let ghost last = piece@;
        assert(s@.take(i + 1).drop_last() == s@.take(i as int));
        if chars[i] == c {
            pieces.push(piece);
            piece = String::new();
            assert(texts(pieces@) =~= before.push(last));
            assert(texts(pieces@).push(piece@) =~= split(s@.take(i + 1), c));
        } else {
            piece.push(chars[i]);
            assert(texts(pieces@).push(piece@) =~= split(s@.take(i + 1), c));
        }
        i += 1;
    }
    assert(s@.take(s@.len() as int) == s@);
    let ghost before = texts(pieces@);
    let ghost last = piece@;
    pieces.push(piece);
    assert(texts(pieces@) =~= before.push(last));
    pieces
}

/// One line without the carriage return of its line ending.
pub open spec fn without_return(line: Text) -> Text {
    if line.len() > 0 && line.last() == '\r' {
        line.drop_last()
    } else {
        line
    }
}

/// The lines of `s`. A line ends in `\n` or `\r\n`, the ending of the last
/// line is optional, and it is no part of the line.
pub open spec fn lines(s: Text) -> Seq<Text> {
    let pieces = split(s, '\n');
    let ended = pieces.drop_last().map_values(|line: Text| without_return(line));
    if pieces.last().len() == 0 {
        ended
    } else {
        ended.push(pieces.last())
    }
}

/// Two texts with a separator between them have the pieces of the one and then
/// those of the other.
pub proof fn lemma_split_joined(a: Text, b: Text, c: char)
    ensures
        split(a.push(c) + b, c) == split(a, c) + split(b, c),
        split(b, c).len() > 0,
    decreases b.len(),
{
    let whole = a.push(c) + b;
    if b.len() == 0 {
        assert(whole =~= a.push(c));
        assert(a.push(c).drop_last() =~= a);
        assert(split(whole, c) =~= split(a, c) + split(b, c));
    } else {
        lemma_split_joined(a, b.drop_last(), c);
        assert(whole.drop_last() =~= a.push(c) + b.drop_last());
        assert(whole.last() == b.last());
        assert(split(whole, c) =~= split(a, c) + split(b, c));
    }
}

/// Two texts with a line break between them have the lines of the one and then
/// those of the other. The last line of the first, which is there though it be
/// empty, loses a carriage return.
pub proof fn lemma_lines_joined(a: Text, b: Text)
    ensures
        split(a, '\n').len() > 0,
        lines(a.push('\n') + b) == split(a, '\n').map_values(|line: Text| without_return(line))
            + lines(b),
{
    let p = split(a, '\n');
    let q = split(b, '\n');
    let pieces = split(a.push('\n') + b, '\n');
    lemma_split_joined(a, b, '\n');
    lemma_split_joined(b, a, '\n');
    assert(pieces == p + q);
    assert(pieces.last() == q.last());
    let f = |line: Text| without_return(line);
    assert(pieces.drop_last().map_values(f) =~= p.map_values(f) + q.drop_last().map_values(f));
    assert(lines(a.push('\n') + b) =~= p.map_values(f) + lines(b));
}

pub fn lines_of(s: &str) -> (r: Vec<String>)
    ensures
        texts(r@) == lines(s@),
{
    let pieces = split_text(s, '\n');
    let last: usize = pieces.len() - 1;
    let ghost parts = split(s@, '\n');
    assert(parts[last as int] == pieces@[last as int]@);
    let ghost ended = parts.drop_last().map_values(|line: Text| without_return(line));
    let mut out: Vec<String> = Vec::new();
    let mut i: usize = 0;
    while i < last
        invariant
            last == pieces@.len() - 1,
            i <= last,
            parts == texts(pieces@),
            ended == parts.drop_last().map_values(|line: Text| without_return(line)),
            texts(out@) == ended.take(i as int),
        decreases last - i,
    {
        let chars = chars_of(pieces[i].as_str());
        let n: usize = chars.len();
        assert(pieces@[i as int]@ == parts[i as int]);
        let line: String = if n > 0 && chars[n - 1] == '\r' {
            assert(parts[i as int].drop_last() == parts[i as int].subrange(0, n - 1));
            pieces[i].as_str().substring_char(0, n - 1).to_string()
        } else {
            pieces[i].clone()
        };
        assert(line@ == ended[i as int]);
        let ghost before = texts(out@);
        out.push(line);
        assert(texts(out@) =~= before.push(line@));
        assert(ended.take(i + 1) =~= ended.take(i as int).push(ended[i as int]));
        i += 1;
    }
    assert(ended.take(ended.len() as int) == ended);
    if !pieces[last].as_str().is_empty() {
        out.push(pieces[last].clone());
        assert(texts(out@) =~= ended.push(parts.last()));
    }
    out
}

/// The pieces with `separator` between each two of them.
pub open spec fn joined(pieces: Seq<Text>, separator: Text) -> Text
    decreases pieces.len(),
{
    if pieces.len() == 0 {
        Seq::empty()
    } else if pieces.len() == 1 {
        pieces[0]
    } else {
        joined(pieces.drop_last(), separator) + separator + pieces.last()
    }
}

pub fn join(pieces: &Vec<String>, separator: &str) -> (r: String)
    ensures
        r@ == joined(texts(pieces@), separator@),
{
    let ghost parts = texts(pieces@);
    let mut out: String = String::new();
    let mut i: usize = 0;
    while i < pieces.len()
        invariant
            i <= pieces@.len(),
            parts == texts(pieces@),
            out@ == joined(parts.take(i as int), separator@),
        decreases pieces@.len() - i,
    {
        assert(parts.take(i + 1).drop_last() == parts.take(i as int));
        assert(parts.take(i + 1).last() == pieces@[i as int]@);
        if i > 0 {
            out.append(separator);
        } else {
            assert(parts.take(1)[0] == pieces@[0]@);
        }
        out.append(pieces[i].as_str());
        assert(out@ =~= joined(parts.take(i + 1), separator@));
        i += 1;
    }
    assert(parts.take(parts.len() as int) == parts);
    out
}

// ---- numbers ----

pub open spec fn digit_char(n: nat) -> char {
    (48 + n) as char
}

/// `n` in decimal, without leading zeros.
pub open spec fn decimal(n: nat) -> Text
    decreases n,
{
    if n < 10 {
        seq![digit_char(n)]
    } else {
        decimal(n / 10).push(digit_char(n % 10))
    }
}

/// `n` in decimal, with a minus sign where it is negative.
pub open spec fn signed_decimal(n: int) -> Text {
    if n < 0 {
        "-"@ + decimal((-n) as nat)
    } else {
        decimal(n as nat)
    }
}

pub fn decimal_text(n: u64) -> (r: String)
    ensures
        r@ == decimal(n as nat),
    decreases n,
{
    let mut out: String = if n < 10 {
        String::new()
    } else {
        decimal_text(n / 10)
    };
    out.push((48u8 + (n % 10) as u8) as char);
    assert(out@ =~= decimal(n as nat));
    out
}

pub fn signed_text(n: i64) -> (r: String)
    ensures
        r@ == signed_decimal(n as int),
{
    if n < 0 {
        let magnitude: u64 = (0i128 - n as i128) as u64;
        "-".to_string().concat(decimal_text(magnitude).as_str())
    } else {
        decimal_text(n as u64)
    }
}

// ---- columns ----

/// `n` spaces.
pub open spec fn spaces(n: nat) -> Text {
    Seq::new(n, |i: int| ' ')
}

/// `s` with spaces after it up to a width of `w`; longer text stays whole.
pub open spec fn padded(s: Text, w: nat) -> Text {
    if s.len() < w {
        s + spaces((w - s.len()) as nat)
    } else {
        s
    }
}

/// The length of the longest text, or nothing where there is none.
pub open spec fn widest(items: Seq<Text>) -> nat
    decreases items.len(),
{
    if items.len() == 0 {
        0
    } else if items.last().len() > widest(items.drop_last()) {
        items.last().len()
    } else {
        widest(items.drop_last())
    }
}

// ---- letter case beyond ASCII ----

/// What `char::to_lowercase` yields for a character.
pub uninterp spec fn lowercase_char(c: char) -> Seq<char>;

/// What `str::to_lowercase` yields for a text.
pub uninterp spec fn lowercase(s: Seq<char>) -> Seq<char>;

/// What `str::to_uppercase` yields for a text.
pub uninterp spec fn uppercase(s: Seq<char>) -> Seq<char>;

/// `char::to_lowercase`: the lower case of a character, which may be several
/// characters and depends on the character alone. An ASCII character becomes
/// its ASCII lower case.
#[verifier::external_body]
pub(crate) fn to_lowercase_char(c: char) -> (r: Vec<char>)
    ensures
        r@ == lowercase_char(c),
        is_ascii_char(c) ==> r@ == seq![ascii_lower(c)],
{
    c.to_lowercase().collect()
}

/// `str::to_lowercase`: the lower case of a text, which depends on the text
/// alone. ASCII text becomes its ASCII lower case.
#[verifier::external_body]
pub(crate) fn to_lowercase(s: &str) -> (r: String)
    ensures
        r@ == lowercase(s@),
        all_ascii(s@) ==> r@ == ascii_lowered(s@),
{
    s.to_lowercase()
}

/// `str::to_uppercase`: the upper case of a text, which depends on the text
/// alone. ASCII text becomes its ASCII upper case.
#[verifier::external_body]
pub(crate) fn to_uppercase(s: &str) -> (r: String)
    ensures
        r@ == uppercase(s@),
        all_ascii(s@) ==> r@ == ascii_uppered(s@),
{
    s.to_uppercase()
}

// ---- bytes ----

/// How many bytes a character takes in UTF-8.
pub open spec fn byte_len_char(c: char) -> nat {
    let n = c as u32;
    if n < 0x80 {
        1
    } else if n < 0x800 {
        2
    } else if n < 0x10000 {
        3
    } else {
        4
    }
}

/// How many bytes a text takes in UTF-8.
pub open spec fn byte_len(s: Text) -> nat
    decreases s.len(),
{
    if s.len() == 0 {
        0
    } else {
        byte_len_char(s[0]) + byte_len(s.drop_first())
    }
}

/// Whether a text takes more than `limit` bytes.
pub fn longer_than(s: &str, limit: u32) -> (r: bool)
    ensures
        r == (byte_len(s@) > limit),
{
    let chars = chars_of(s);
    let mut total: u64 = 0;
    let mut i: usize = 0;
    assert(s@.skip(0) == s@);
    while i < chars.len()
        invariant
            chars@ == s@,
            i <= chars@.len(),
            total <= limit,
            byte_len(s@) == total + byte_len(s@.skip(i as int)),
        decreases chars@.len() - i,
    {
        let n: u32 = chars[i] as u32;
        let bytes: u64 = if n < 0x80 {
            1
        } else if n < 0x800 {
            2
        } else if n < 0x10000 {
            3
        } else {
            4
        };
        assert(s@.skip(i as int).drop_first() == s@.skip(i + 1));
        total += bytes;
        i += 1;
        if total > limit as u64 {
            return true;
        }
    }
    false
}

// ---- laws ----

/// What is joined holds each of its pieces.
pub proof fn joining_keeps_each_piece(pieces: Seq<Text>, separator: Text, i: int)
    requires
        0 <= i < pieces.len(),
    ensures
        occurs(joined(pieces, separator), pieces[i]),
    decreases pieces.len(),
{
    let whole = joined(pieces, separator);
    let piece = pieces[i];
    if pieces.len() == 1 {
        assert(whole.subrange(0, piece.len() as int) =~= piece);
        assert(occurs_at(whole, piece, 0));
    } else {
        let front = joined(pieces.drop_last(), separator);
        if i == pieces.len() - 1 {
            let at = (front.len() + separator.len()) as int;
            assert(whole.subrange(at, at + piece.len()) =~= piece);
            assert(occurs_at(whole, piece, at));
        } else {
            joining_keeps_each_piece(pieces.drop_last(), separator, i);
            assert(pieces.drop_last()[i] == piece);
            let at = choose|at: int| occurs_at(front, piece, at);
            assert(whole.subrange(at, at + piece.len()) =~= front.subrange(at, at + piece.len()));
            assert(occurs_at(whole, piece, at));
        }
    }
}

/// Splitting takes a text apart at every separator and at nothing else: joined
/// again, the pieces are the text, and none of them holds a separator.
pub proof fn splitting_takes_apart_at_each_separator(s: Text, c: char, i: int)
    ensures
        split(s, c).len() > 0,
        joined(split(s, c), seq![c]) == s,
        0 <= i < split(s, c).len() ==> !split(s, c)[i].contains(c),
    decreases s.len(),
{
    let pieces = split(s, c);
    if s.len() == 0 {
        assert(joined(pieces, seq![c]) =~= s);
    } else {
        let front = split(s.drop_last(), c);
        splitting_takes_apart_at_each_separator(s.drop_last(), c, i);
        if s.last() == c {
            assert(pieces.drop_last() =~= front);
            assert(joined(pieces, seq![c]) =~= s);
        } else {
            splitting_takes_apart_at_each_separator(s.drop_last(), c, front.len() - 1);
            assert(pieces.drop_last() =~= front.drop_last());
            assert(joined(pieces, seq![c]) =~= joined(front, seq![c]).push(s.last()));
            assert(s.drop_last().push(s.last()) =~= s);
            if 0 <= i < pieces.len() && pieces[i].contains(c) {
                let k = pieces[i].index_of(c);
                if i < front.len() - 1 {
                    assert(front[i][k] == c);
                } else if k < front.last().len() {
                    assert(front.last()[k] == c);
                }
            }
        }
    }
}

/// What is left of a text without the characters of a class at its ends begins
/// and ends with no such character, and what was dropped is such characters alone.
pub proof fn only_the_class_is_dropped(s: Text, class: Class)
    ensures
        exists|a: int, b: int|
            0 <= a <= b <= s.len() && stripped(s, class) == #[trigger] s.subrange(a, b) && (forall|
                i: int,
            |
                0 <= i < a || b <= i < s.len() ==> in_class(class, #[trigger] s[i])) && (a < b
                ==> !in_class(class, s[a]) && !in_class(class, s[b - 1])),
{
    let front = drop_front(s, class);
    lemma_dropped_front(s, class);
    lemma_dropped_back(front, class);
    lemma_drop_front(s, class);
    lemma_drop_back(front, class);
    let a = s.len() - front.len();
    let b = a + stripped(s, class).len();
    assert(stripped(s, class) =~= s.subrange(a, b));
    assert forall|i: int| 0 <= i < a || b <= i < s.len() implies in_class(
        class,
        #[trigger] s[i],
    ) by {
        if b <= i {
            assert(front[i - a] == s[i]);
        }
    }
    if a < b {
        assert(stripped(s, class)[0] == s[a]);
        assert(front[0] == s[a]);
    }
}

proof fn lemma_dropped_front(s: Text, class: Class)
    ensures
        drop_front(s, class).len() <= s.len(),
        forall|i: int|
            0 <= i < s.len() - drop_front(s, class).len() ==> in_class(class, #[trigger] s[i]),
    decreases s.len(),
{
    lemma_drop_front(s, class);
    if s.len() > 0 && in_class(class, s[0]) {
        let rest = s.drop_first();
        lemma_dropped_front(rest, class);
        assert forall|i: int| 0 <= i < s.len() - drop_front(s, class).len() implies in_class(
            class,
            #[trigger] s[i],
        ) by {
            if i > 0 {
                assert(rest[i - 1] == s[i]);
            }
        }
    }
}

proof fn lemma_dropped_back(s: Text, class: Class)
    ensures
        drop_back(s, class).len() <= s.len(),
        forall|i: int|
            drop_back(s, class).len() <= i < s.len() ==> in_class(class, #[trigger] s[i]),
    decreases s.len(),
{
    lemma_drop_back(s, class);
    if s.len() > 0 && in_class(class, s.last()) {
        let rest = s.drop_last();
        lemma_dropped_back(rest, class);
        assert forall|i: int| drop_back(s, class).len() <= i < s.len() implies in_class(
            class,
            #[trigger] s[i],
        ) by {
            if i < rest.len() {
                assert(rest[i] == s[i]);
            }
        }
    }
}

/// A text without a separator is one piece.
pub proof fn lemma_one_piece(s: Text, c: char)
    requires
        !s.contains(c),
    ensures
        split(s, c) == seq![s],
    decreases s.len(),
{
    if s.len() > 0 {
        let front = s.drop_last();
        assert forall|i: int| 0 <= i < front.len() implies front[i] != c by {
            assert(s.contains(s[i]));
        }
        lemma_one_piece(front, c);
        assert(s.contains(s[s.len() - 1]));
        assert(front.push(s.last()) =~= s);
        assert(split(s, c) =~= seq![s]);
    } else {
        assert(s =~= Seq::<char>::empty());
        assert(split(s, c) =~= seq![s]);
    }
}

/// A text that stands between two others is there.
pub proof fn lemma_between(a: Text, part: Text, b: Text)
    ensures
        occurs(a + part + b, part),
{
    let at = a.len() as int;
    assert((a + part + b).subrange(at, at + part.len()) =~= part);
    assert(occurs_at(a + part + b, part, at));
}

/// What occurs in a part of a text occurs in the text.
pub proof fn lemma_occurs_within(a: Text, part: Text, b: Text, needle: Text)
    requires
        occurs(part, needle),
    ensures
        occurs(a + part + b, needle),
{
    let whole = a + part + b;
    let k = choose|k: int| occurs_at(part, needle, k);
    let at = a.len() + k;
    assert(whole.subrange(at, at + needle.len()) =~= part.subrange(k, k + needle.len()));
    assert(occurs_at(whole, needle, at));
}

/// Digits and letters are those of ASCII, and changing case moves a letter to its
/// counterpart and leaves everything else alone.
pub proof fn letters_and_digits_are_those_of_ascii(c: char)
    ensures
        is_digit(c) <==> 48 <= c as u32 <= 57,
        is_lower(c) <==> 97 <= c as u32 <= 122,
        is_upper(c) <==> 65 <= c as u32 <= 90,
        is_hex_digit(c) <==> 48 <= c as u32 <= 57 || 97 <= c as u32 <= 102 || 65 <= c as u32 <= 70,
        is_alphanumeric(c) <==> 48 <= c as u32 <= 57 || 97 <= c as u32 <= 122 || 65 <= c as u32
            <= 90,
        65 <= c as u32 <= 90 ==> ascii_lower(c) as u32 == c as u32 + 32,
        97 <= c as u32 <= 122 ==> ascii_upper(c) as u32 == c as u32 - 32,
        !(65 <= c as u32 <= 90) ==> ascii_lower(c) == c,
        !(97 <= c as u32 <= 122) ==> ascii_upper(c) == c,
{
}

/// What a row of digits stands for.
pub open spec fn numeral_value(s: Text) -> nat
    decreases s.len(),
{
    if s.len() == 0 {
        0
    } else {
        numeral_value(s.drop_last()) * 10 + (s.last() as u32 - 48) as nat
    }
}

/// A number in decimal is a row of digits that stands for it, with no nought in
/// front of a longer one; a minus sign marks one below nought.
pub proof fn a_decimal_stands_for_its_number(n: nat, k: int)
    ensures
        decimal(n).len() > 0,
        forall|i: int| 0 <= i < decimal(n).len() ==> is_digit(#[trigger] decimal(n)[i]),
        numeral_value(decimal(n)) == n,
        n > 0 ==> decimal(n)[0] != '0',
        k >= 0 ==> signed_decimal(k) == decimal(k as nat),
        k < 0 ==> signed_decimal(k) == "-"@ + decimal((-k) as nat),
    decreases n,
{
    reveal_with_fuel(numeral_value, 2);
    if n < 10 {
        let d = digit_char(n);
        assert(d as u32 == 48 + n);
        assert(decimal(n).drop_last() =~= Seq::<char>::empty());
    } else {
        a_decimal_stands_for_its_number(n / 10, 0);
        let front = decimal(n / 10);
        let d = digit_char(n % 10);
        assert(d as u32 == 48 + n % 10);
        assert(decimal(n).drop_last() =~= front);
        assert(decimal(n)[0] == front[0]);
        assert forall|i: int| 0 <= i < decimal(n).len() implies is_digit(
            #[trigger] decimal(n)[i],
        ) by {
            if i < front.len() {
                assert(decimal(n)[i] == front[i]);
            }
        }
    }
}

/// A text takes a byte for each ASCII character, and up to four for another.
pub proof fn a_text_takes_a_byte_for_each_ascii_character(s: Text, c: char)
    ensures
        s.len() <= byte_len(s) <= 4 * s.len(),
        all_ascii(s) ==> byte_len(s) == s.len(),
        byte_len(s.push(c)) == byte_len(s) + (if (c as u32) < 128 {
            1nat
        } else if (c as u32) < 2048 {
            2
        } else if (c as u32) < 65536 {
            3
        } else {
            4
        }),
    decreases s.len(),
{
    if s.len() > 0 {
        let rest = s.drop_first();
        a_text_takes_a_byte_for_each_ascii_character(rest, c);
        assert(s.push(c).drop_first() =~= rest.push(c));
        if all_ascii(s) {
            assert(is_ascii_char(s[0]));
            assert forall|i: int| 0 <= i < rest.len() implies is_ascii_char(#[trigger] rest[i]) by {
                assert(rest[i] == s[i + 1]);
            }
        }
    } else {
        reveal_with_fuel(byte_len, 2);
        assert(s.push(c).drop_first() =~= Seq::<char>::empty());
    }
}

} // verus!
