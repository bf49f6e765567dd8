use vstd::prelude::*;
use vstd::string::StrSliceExecFns;

verus! {

pub open spec fn is_space(c: char) -> bool {
    c == ' ' || c == '\t' || c == '\n' || c == '\r'
}

pub open spec fn is_digit(c: char) -> bool {
    '0' <= c && c <= '9'
}

/// Whether a name may begin with `c`: a letter of the Latin alphabet or an
/// underscore.
pub open spec fn is_letter(c: char) -> bool {
    ('a' <= c && c <= 'z') || ('A' <= c && c <= 'Z') || c == '_'
}

/// Whether a name may go on with `c`.
pub open spec fn is_word_char(c: char) -> bool {
    is_letter(c) || is_digit(c)
}

/// The character at `i`, or the null character where `i` is past the end.
pub open spec fn peek(s: Seq<char>, i: int) -> char {
    if 0 <= i < s.len() {
        s[i]
    } else {
        '\0'
    }
}

/// The first position from `i` on that holds no white space.
pub open spec fn skip_spaces(s: Seq<char>, i: int) -> int
    decreases s.len() - i,
{
    if 0 <= i < s.len() && is_space(s[i]) {
        skip_spaces(s, i + 1)
    } else {
        i
    }
}

/// The first position from `i` on that holds no digit.
pub open spec fn digits_end(s: Seq<char>, i: int) -> int
    decreases s.len() - i,
{
    if 0 <= i < s.len() && is_digit(s[i]) {
        digits_end(s, i + 1)
    } else {
        i
    }
}

/// The first position from `i` on that holds no character of a name.
pub open spec fn word_end(s: Seq<char>, i: int) -> int
    decreases s.len() - i,
{
    if 0 <= i < s.len() && is_word_char(s[i]) {
        word_end(s, i + 1)
    } else {
        i
    }
}

/// The end of the decimal literal that starts at `i`: its digits, and where
/// a point and a digit follow them, the point and the digits after it.
pub open spec fn number_end(s: Seq<char>, i: int) -> int {
    let j = digits_end(s, i);
    if peek(s, j) == '.' && is_digit(peek(s, j + 1)) {
        digits_end(s, j + 1)
    } else {
        j
    }
}

/// Whether `w` is one of the words that the notation keeps for itself, which
/// no variable can be called.
pub open spec fn is_reserved(w: Seq<char>) -> bool {
    w == "sin"@ || w == "cos"@ || w == "log"@ || w == "if"@ || w == "otherwise"@
}

pub proof fn lemma_skip_spaces(s: Seq<char>, i: int)
    requires
        0 <= i <= s.len(),
    ensures
        i <= skip_spaces(s, i) <= s.len(),
        !is_space(peek(s, skip_spaces(s, i))),
        forall|j: int| i <= j < skip_spaces(s, i) ==> is_space(#[trigger] s[j]),
    decreases s.len() - i,
{
    if i < s.len() && is_space(s[i]) {
        lemma_skip_spaces(s, i + 1);
    }
}

pub proof fn lemma_digits_end(s: Seq<char>, i: int)
    requires
        0 <= i <= s.len(),
    ensures
        i <= digits_end(s, i) <= s.len(),
        !is_digit(peek(s, digits_end(s, i))),
        forall|j: int| i <= j < digits_end(s, i) ==> is_digit(#[trigger] s[j]),
        is_digit(peek(s, i)) ==> i < digits_end(s, i),
    decreases s.len() - i,
{
    if i < s.len() && is_digit(s[i]) {
        lemma_digits_end(s, i + 1);
    }
}

pub proof fn lemma_word_end(s: Seq<char>, i: int)
    requires
        0 <= i <= s.len(),
    ensures
        i <= word_end(s, i) <= s.len(),
        !is_word_char(peek(s, word_end(s, i))),
        forall|j: int| i <= j < word_end(s, i) ==> is_word_char(#[trigger] s[j]),
        is_word_char(peek(s, i)) ==> i < word_end(s, i),
    decreases s.len() - i,
{
    if i < s.len() && is_word_char(s[i]) {
        lemma_word_end(s, i + 1);
    }
}

pub proof fn lemma_number_end(s: Seq<char>, i: int)
    requires
        0 <= i <= s.len(),
    ensures
        i <= number_end(s, i) <= s.len(),
        is_digit(peek(s, i)) ==> i < number_end(s, i),
{
    lemma_digits_end(s, i);
    let j = digits_end(s, i);
    if j + 1 <= s.len() {
        lemma_digits_end(s, j + 1);
    }
}

/// The character at position `i` of a text of ASCII characters.
pub(crate) fn char_at(s: &str, i: usize) -> (c: char)
    requires
        s.is_ascii(),
        i < s@.len(),
    ensures
        c == s@[i as int],
{
    let b = s.get_ascii(i);
    assert(s@[i as int] as u32 <= 127) by {
        assert(vstd::utf8::is_ascii_chars(s@));
    }
    b as char
}

/// The character at `i`, or the null character where `i` is past the end.
pub(crate) fn peek_at(s: &str, len: usize, i: usize) -> (c: char)
    requires
        s.is_ascii(),
        len == s@.len(),
    ensures
        c == peek(s@, i as int),
{
    if i < len {
        char_at(s, i)
    } else {
        '\0'
    }
}

pub(crate) fn space(c: char) -> (out: bool)
    ensures
        out == is_space(c),
{
    c == ' ' || c == '\t' || c == '\n' || c == '\r'
}

pub(crate) fn digit(c: char) -> (out: bool)
    ensures
        out == is_digit(c),
{
    '0' <= c && c <= '9'
}

pub(crate) fn letter(c: char) -> (out: bool)
    ensures
        out == is_letter(c),
{
    ('a' <= c && c <= 'z') || ('A' <= c && c <= 'Z') || c == '_'
}

/// Moves on from `i` past any white space.
pub(crate) fn skip(s: &str, len: usize, i: usize) -> (out: usize)
    requires
        s.is_ascii(),
        len == s@.len(),
        i <= len,
    ensures
        out == skip_spaces(s@, i as int),
        i <= out <= len,
{
    let mut j = i;
    while j < len && space(char_at(s, j))
        invariant
            s.is_ascii(),
            len == s@.len(),
            i <= j <= len,
            skip_spaces(s@, i as int) == skip_spaces(s@, j as int),
        decreases len - j,
    {
        j += 1;
    }
    j
}

/// Moves on from `i` past any digits.
pub(crate) fn scan_digits(s: &str, len: usize, i: usize) -> (out: usize)
    requires
        s.is_ascii(),
        len == s@.len(),
        i <= len,
    ensures
        out == digits_end(s@, i as int),
        i <= out <= len,
{
    let mut j = i;
    while j < len && digit(char_at(s, j))
        invariant
            s.is_ascii(),
            len == s@.len(),
            i <= j <= len,
            digits_end(s@, i as int) == digits_end(s@, j as int),
        decreases len - j,
    {
        j += 1;
    }
    j
}

/// Moves on from `i` past any characters of a name.
pub(crate) fn scan_word(s: &str, len: usize, i: usize) -> (out: usize)
    requires
        s.is_ascii(),
        len == s@.len(),
        i <= len,
    ensures
        out == word_end(s@, i as int),
        i <= out <= len,
{
    let mut j = i;
    while j < len && (letter(char_at(s, j)) || digit(char_at(s, j)))
        invariant
            s.is_ascii(),
            len == s@.len(),
            i <= j <= len,
            word_end(s@, i as int) == word_end(s@, j as int),
        decreases len - j,
    {
        j += 1;
    }
    j
}

/// Moves on from `i` past a decimal literal.
pub(crate) fn scan_number(s: &str, len: usize, i: usize) -> (out: usize)
    requires
        s.is_ascii(),
        len == s@.len(),
        i <= len,
    ensures
        out == number_end(s@, i as int),
        i <= out <= len,
{
    let j = scan_digits(s, len, i);
    if j < len && char_at(s, j) == '.' && j + 1 < len && digit(char_at(s, j + 1)) {
        scan_digits(s, len, j + 1)
    } else {
        j
    }
}

/// Whether the characters from `from` to `to` spell `word`.
pub(crate) fn spells(s: &str, len: usize, from: usize, to: usize, word: &str) -> (out: bool)
    requires
        s.is_ascii(),
        word.is_ascii(),
        len == s@.len(),
        from <= to <= len,
    ensures
        out == (s@.subrange(from as int, to as int) == word@),
{
    let n = word.unicode_len();
    if to - from != n {
        return false;
    }
    let mut k: usize = 0;
    while k < n
        invariant
            s.is_ascii(),
            word.is_ascii(),
            len == s@.len(),
            from <= to <= len,
            n == word@.len(),
            to - from == n,
            k <= n,
            forall|j: int| 0 <= j < k ==> s@[from + j] == word@[j],
        decreases n - k,
    {
        if char_at(s, from + k) != char_at(word, k) {
            assert(s@.subrange(from as int, to as int)[k as int] != word@[k as int]);
            return false;
        }
        k += 1;
    }
    assert(s@.subrange(from as int, to as int) =~= word@);
    true
}

/// Whether the characters from `from` to `to` spell a reserved word.
pub(crate) fn reserved(s: &str, len: usize, from: usize, to: usize) -> (out: bool)
    requires
        s.is_ascii(),
        len == s@.len(),
        from <= to <= len,
    ensures
        out == is_reserved(s@.subrange(from as int, to as int)),
{
    proof {
        reveal_strlit("sin");
        reveal_strlit("cos");
        reveal_strlit("log");
        reveal_strlit("if");
        reveal_strlit("otherwise");
    }
    spells(s, len, from, to, "sin") || spells(s, len, from, to, "cos") || spells(
        s,
        len,
        from,
        to,
        "log",
    ) || spells(s, len, from, to, "if") || spells(s, len, from, to, "otherwise")
}

} // verus!
