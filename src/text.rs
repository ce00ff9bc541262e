//! Text helpers: decimal numbers, character vectors, field splitting.
use vstd::prelude::*;

verus! {

/// The characters of each string.
pub open spec fn strings(v: Seq<String>) -> Seq<Seq<char>> {
    v.map_values(|s: String| s@)
}

pub open spec fn is_digit(c: char) -> bool {
    '0' <= c <= '9'
}

pub open spec fn all_digits(s: Seq<char>) -> bool {
    forall|i: int| 0 <= i < s.len() ==> is_digit(#[trigger] s[i])
}

/// The value of a string of decimal digits.
pub open spec fn digits_value(s: Seq<char>) -> nat
    decreases s.len(),
{
    if s.len() == 0 {
        0
    } else {
        digits_value(s.drop_last()) * 10 + (s.last() as nat - '0' as nat) as nat
    }
}

/// The digits of a decimal number as `str::parse` reads an unsigned integer: an optional
/// leading '+', then at least one digit.
pub open spec fn unsigned_digits(s: Seq<char>) -> Option<Seq<char>> {
    let d = if s.len() > 0 && s[0] == '+' {
        s.drop_first()
    } else {
        s
    };
    if d.len() > 0 && all_digits(d) {
        Some(d)
    } else {
        None
    }
}

/// The number that `s` spells, if it spells one that is at most `max`.
pub open spec fn parse_unsigned(s: Seq<char>, max: nat) -> Option<nat> {
    match unsigned_digits(s) {
        Some(d) => if digits_value(d) <= max {
            Some(digits_value(d))
        } else {
            None
        },
        None => None,
    }
}

proof fn lemma_digits_value_prefix(s: Seq<char>, i: int)
    requires
        0 <= i <= s.len(),
        all_digits(s),
    ensures
        digits_value(s.subrange(0, i)) <= digits_value(s),
    decreases s.len() - i,
{
    if i < s.len() {
        lemma_digits_value_prefix(s, i + 1);
        let p = s.subrange(0, i + 1);
        assert(p.drop_last() == s.subrange(0, i));
        assert(is_digit(p.last()));
    } else {
        assert(s.subrange(0, i) == s);
    }
}

/// Reads an unsigned decimal number, as `str::parse` does for unsigned integer types
/// whose largest value is `max`.
pub fn parse_number(s: &Vec<char>, max: u64) -> (r: Option<u64>)
    ensures
        match r {
            Some(v) => parse_unsigned(s@, max as nat) == Some(v as nat),
            None => parse_unsigned(s@, max as nat) is None,
        },
{
    let mut start: usize = 0;
    if s.len() > 0 && s[0] == '+' {
        start = 1;
    }
    let ghost d = if s@.len() > 0 && s@[0] == '+' {
        s@.drop_first()
    } else {
        s@
    };
    assert(d == s@.subrange(start as int, s@.len() as int));
    assert(unsigned_digits(s@) == if d.len() > 0 && all_digits(d) { Some(d) } else { None::<Seq<char>> });
    if start >= s.len() {
        return None;
    }
    let mut v: u64 = 0;
    let mut i: usize = start;
    while i < s.len()
        invariant
            start <= i <= s@.len(),
            d == s@.subrange(start as int, s@.len() as int),
            unsigned_digits(s@) == if d.len() > 0 && all_digits(d) { Some(d) } else { None::<Seq<char>> },
            all_digits(s@.subrange(start as int, i as int)),
            v as nat == digits_value(s@.subrange(start as int, i as int)),
            v <= max,
        decreases s@.len() - i,
    {
        let c = s[i];
        assert(s@.subrange(start as int, i + 1).drop_last() == s@.subrange(start as int, i as int));
        if c < '0' || c > '9' {
            assert(d[i - start] == c);
            assert(!is_digit(d[i - start]));
            return None;
        }
        let digit = (c as u64) - ('0' as u64);
        if digit > max || v > (max - digit) / 10 {
            proof {
                assert(digits_value(s@.subrange(start as int, i + 1)) == v * 10 + digit);
                if digit <= max {
                    assert(v * 10 + digit > max) by (nonlinear_arith)
                        requires
                            v > (max - digit) / 10,
                            digit <= max,
                    ;
                }
                if all_digits(d) {
                    assert(d.subrange(0, i + 1 - start) == s@.subrange(start as int, i + 1));
                    lemma_digits_value_prefix(d, i + 1 - start);
                }
            }
            return None;
        }
        proof {
            assert(v * 10 + digit <= max) by (nonlinear_arith)
                requires
                    v <= (max - digit) / 10,
                    digit <= max,
            ;
        }
        v = v * 10 + digit;
        i += 1;
    }
    Some(v)
}

/// Whether a character has the Unicode Alphabetic property.
pub uninterp spec fn alphabetic(c: char) -> bool;

/// Relies on `char::is_alphabetic`: whether the character has the Unicode Alphabetic
/// property. Among ASCII characters, exactly the letters have it.
#[verifier::external_body]
pub(crate) fn is_alphabetic(c: char) -> (r: bool)
    ensures
        r == alphabetic(c),
        (c as u32) < 128 ==> r == (('a' <= c && c <= 'z') || ('A' <= c && c <= 'Z')),
{
    c.is_alphabetic()
}

/// The length of the longest prefix of alphabetic characters.
pub open spec fn alpha_prefix_len(s: Seq<char>) -> int
    decreases s.len(),
{
    if s.len() == 0 {
        0
    } else {
        let k = alpha_prefix_len(s.drop_last());
        if k < s.len() - 1 {
            k
        } else if alphabetic(s.last()) {
            s.len() as int
        } else {
            s.len() - 1
        }
    }
}

proof fn lemma_alpha_prefix_len(s: Seq<char>, i: int)
    requires
        0 <= i <= s.len(),
        forall|k: int| 0 <= k < i ==> alphabetic(#[trigger] s[k]),
        i == s.len() || !alphabetic(s[i]),
    ensures
        alpha_prefix_len(s) == i,
    decreases s.len(),
{
    if s.len() > 0 {
        if i < s.len() {
            lemma_alpha_prefix_len(s.drop_last(), i);
        } else {
            lemma_alpha_prefix_len(s.drop_last(), i - 1);
        }
    }
}

/// Splits a record's first field into its leading letters (the record type) and the
/// number after them (its id, zero when there is none).
pub fn split_type(s: &Vec<char>) -> (r: (Vec<char>, usize))
    ensures
        r.0@ == s@.subrange(0, alpha_prefix_len(s@)),
        r.1 as nat == id_value(s@.subrange(alpha_prefix_len(s@), s@.len() as int)),
{
    let mut i: usize = 0;
    while i < s.len() && is_alphabetic(s[i])
        invariant
            i <= s@.len(),
            forall|k: int| 0 <= k < i ==> alphabetic(#[trigger] s@[k]),
        decreases s@.len() - i,
    {
        i += 1;
    }
    proof {
        lemma_alpha_prefix_len(s@, i as int);
    }
    let mut head: Vec<char> = Vec::new();
    let mut k: usize = 0;
    while k < i
        invariant
            k <= i <= s@.len(),
            head@ == s@.subrange(0, k as int),
        decreases i - k,
    {
        head.push(s[k]);
        k += 1;
        assert(head@ =~= s@.subrange(0, k as int));
    }
    let mut tail: Vec<char> = Vec::new();
    let mut k: usize = i;
    while k < s.len()
        invariant
            i <= k <= s@.len(),
            tail@ == s@.subrange(i as int, k as int),
        decreases s@.len() - k,
    {
        tail.push(s[k]);
        k += 1;
        assert(tail@ =~= s@.subrange(i as int, k as int));
    }
    let id = match parse_number(&tail, usize::MAX as u64) {
        Some(v) => v as usize,
        None => 0,
    };
    (head, id)
}

/// A number as `str::parse::<usize>` reads it, or zero where it reads none.
pub open spec fn id_value(s: Seq<char>) -> nat {
    match parse_unsigned(s, usize::MAX as nat) {
        Some(v) => v,
        None => 0,
    }
}

/// Reads a number as `str::parse::<usize>` does, or zero where it reads none.
pub fn number_or_zero(s: &Vec<char>) -> (r: usize)
    ensures
        r as nat == id_value(s@),
{
    match parse_number(s, usize::MAX as u64) {
        Some(v) => v as usize,
        None => 0,
    }
}

/// The text that Windows-1252 decoding makes of these bytes.
pub uninterp spec fn windows_1252_text(b: Seq<u8>) -> Seq<char>;

/// Relies on `encoding_rs::Encoding::decode` on `WINDOWS_1252`: the bytes decoded as
/// Windows-1252, or as UTF-8 or UTF-16 where they start with that byte order mark;
/// malformed sequences become U+FFFD. No bytes give no text.
#[verifier::external_body]
pub(crate) fn decode_windows_1252(bytes: &[u8]) -> (r: String)
    ensures
        r@ == windows_1252_text(bytes@),
        bytes@.len() == 0 ==> r@.len() == 0,
{
    let (text, _encoding, _had_errors) = encoding_rs::WINDOWS_1252.decode(bytes);
    text.into_owned()
}

/// The characters of a string slice, in order.
pub fn chars_of(s: &str) -> (r: Vec<char>)
    ensures
        r@ == s@,
{
    broadcast use vstd::string::group_string_axioms;
    let mut r: Vec<char> = Vec::new();
    for c in it: s.chars()
        invariant
            r@ == it.seq().subrange(0, it.index() as int),
            it.seq() == s@,
    {
        r.push(c);
    }
    r
}

/// Relies on `String`'s `FromIterator<&char>`: a string of exactly these characters.
#[verifier::external_body]
pub(crate) fn string_of(c: &[char]) -> (r: String)
    ensures
        r@ == c@,
{
    c.iter().collect()
}

/// The characters `s[from..to]` as a string.
pub fn substring(s: &Vec<char>, from: usize, to: usize) -> (r: String)
    requires
        from <= to <= s@.len(),
    ensures
        r@ == s@.subrange(from as int, to as int),
{
    let mut v: Vec<char> = Vec::new();
    let mut i: usize = from;
    while i < to
        invariant
            from <= i <= to,
            to <= s@.len(),
            v@ == s@.subrange(from as int, i as int),
        decreases to - i,
    {
        v.push(s[i]);
        i += 1;
        assert(v@ =~= s@.subrange(from as int, i as int));
    }
    string_of(v.as_slice())
}

/// The position of the first `c` in `s`, if any.
pub open spec fn find_char(s: Seq<char>, c: char) -> Option<int>
    decreases s.len(),
{
    if s.len() == 0 {
        None
    } else {
        match find_char(s.drop_last(), c) {
            Some(i) => Some(i),
            None => if s.last() == c {
                Some(s.len() - 1)
            } else {
                None
            },
        }
    }
}

pub proof fn lemma_find_char(s: Seq<char>, c: char, i: int)
    requires
        0 <= i <= s.len(),
        forall|k: int| 0 <= k < i ==> s[k] != c,
    ensures
        i < s.len() && s[i] == c ==> find_char(s, c) == Some(i),
        i == s.len() ==> find_char(s, c) is None,
    decreases s.len(),
{
    if s.len() > 0 {
        if i < s.len() {
            lemma_find_char(s.drop_last(), c, i);
        } else {
            lemma_find_char(s.drop_last(), c, i - 1);
        }
    }
}

/// Finds the first `c` in `s`.
pub fn position_of_char(s: &Vec<char>, c: char) -> (r: Option<usize>)
    ensures
        match r {
            Some(i) => find_char(s@, c) == Some(i as int) && i < s@.len(),
            None => find_char(s@, c) is None,
        },
{
    let mut i: usize = 0;
    while i < s.len()
        invariant
            i <= s@.len(),
            forall|k: int| 0 <= k < i ==> s@[k] != c,
        decreases s@.len() - i,
    {
        if s[i] == c {
            proof {
                lemma_find_char(s@, c, i as int);
            }
            return Some(i);
        }
        i += 1;
    }
    proof {
        lemma_find_char(s@, c, i as int);
    }
    None
}

} // verus!
