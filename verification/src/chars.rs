//! The alphabet a tag is drawn from: an ordered list of ASCII letters and
//! digits, classified once at construction (does it hold a digit? a letter?).

use vstd::prelude::*;
use vstd::string::StrSliceExecFns;
use vstd::string::StringExecFns;

verus! {

/// True when `c` is an ASCII decimal digit.
pub open spec fn is_digit_char(c: char) -> bool {
    '0' <= c <= '9'
}

/// True when `c` is an ASCII letter.
pub open spec fn is_letter_char(c: char) -> bool {
    ('a' <= c <= 'z') || ('A' <= c <= 'Z')
}

/// True when `c` is an ASCII letter or digit.
pub open spec fn is_alnum_char(c: char) -> bool {
    is_digit_char(c) || is_letter_char(c)
}

/// True when some position of `s` holds an ASCII digit.
pub open spec fn seq_has_digit(s: Seq<char>) -> bool {
    exists|i: int| 0 <= i < s.len() && is_digit_char(s[i])
}

/// True when some position of `s` holds an ASCII letter.
pub open spec fn seq_has_letter(s: Seq<char>) -> bool {
    exists|i: int| 0 <= i < s.len() && is_letter_char(s[i])
}

/// True when every position of `s` holds an ASCII letter or digit.
pub open spec fn seq_all_alnum(s: Seq<char>) -> bool {
    forall|i: int| 0 <= i < s.len() ==> is_alnum_char(s[i])
}

/// Exec check for an ASCII digit, equal to `is_digit_char`.
pub fn check_digit(c: char) -> (r: bool)
    ensures
        r == is_digit_char(c),
{
    '0' <= c && c <= '9'
}

/// Exec check for an ASCII letter, equal to `is_letter_char`.
pub fn check_letter(c: char) -> (r: bool)
    ensures
        r == is_letter_char(c),
{
    ('a' <= c && c <= 'z') || ('A' <= c && c <= 'Z')
}

/// The distinct symbols of `s`, each at its first occurrence, in order.
pub open spec fn first_occurrences(s: Seq<char>) -> Seq<char>
    decreases s.len(),
{
    if s.len() == 0 {
        Seq::empty()
    } else {
        let front = first_occurrences(s.drop_last());
        if front.contains(s.last()) {
            front
        } else {
            front.push(s.last())
        }
    }
}

/// Whether `v` holds `c`.
fn contains_char(v: &Vec<char>, c: char) -> (r: bool)
    ensures
        r == v@.contains(c),
{
    let mut i: usize = 0;
    while i < v.len()
        invariant
            i <= v@.len(),
            forall|j: int| 0 <= j < i ==> v@[j] != c,
        decreases v@.len() - i,
    {
        if v[i] == c {
            return true;
        }
        i = i + 1;
    }
    false
}

proof fn lemma_class_push(s: Seq<char>, c: char)
    ensures
        seq_has_digit(s.push(c)) == (seq_has_digit(s) || is_digit_char(c)),
        seq_has_letter(s.push(c)) == (seq_has_letter(s) || is_letter_char(c)),
{
    if seq_has_digit(s) {
        let j = choose|j: int| 0 <= j < s.len() && is_digit_char(s[j]);
        assert(s.push(c)[j] == s[j]);
    }
    if seq_has_letter(s) {
        let j = choose|j: int| 0 <= j < s.len() && is_letter_char(s[j]);
        assert(s.push(c)[j] == s[j]);
    }
    assert(s.push(c)[s.len() as int] == c);
    if seq_has_digit(s.push(c)) && !is_digit_char(c) {
        let j = choose|j: int| 0 <= j < s.push(c).len() && is_digit_char(s.push(c)[j]);
        assert(j < s.len());
        assert(s[j] == s.push(c)[j]);
    }
    if seq_has_letter(s.push(c)) && !is_letter_char(c) {
        let j = choose|j: int| 0 <= j < s.push(c).len() && is_letter_char(s.push(c)[j]);
        assert(j < s.len());
        assert(s[j] == s.push(c)[j]);
    }
}

/// The validated alphabet for tag generation.
#[derive(Clone, Debug)]
pub struct Chars {
    /// The distinct symbols, in the order they were first given.
    pub value: Vec<char>,
    /// True when `value` holds at least one ASCII digit.
    pub has_digit: bool,
    /// True when `value` holds at least one ASCII letter.
    pub has_alphabetic: bool,
}

impl Chars {
    /// The construction invariant: non-empty, every symbol an ASCII letter or
    /// digit, no symbol twice, and the two classification flags exact.
    pub open spec fn wf(self) -> bool {
        &&& self.value@.len() > 0
        &&& seq_all_alnum(self.value@)
        &&& forall|i: int, j: int| 0 <= i < j < self.value@.len() ==> self.value@[i] != self.value@[j]
        &&& self.has_digit == seq_has_digit(self.value@)
        &&& self.has_alphabetic == seq_has_letter(self.value@)
    }
}

/// Validates an alphabet string: it must be non-empty and consist of ASCII
/// letters and digits only. On success the returned `Chars` carries the
/// distinct symbols in first-occurrence order (a repeated symbol is kept
/// once) together with exact digit/letter classification flags; otherwise
/// the fixed rejection message comes back.
pub fn parse_chars(proxy_str: &str) -> (r: Result<Chars, String>)
    ensures
        r is Ok <==> proxy_str@.len() > 0 && seq_all_alnum(proxy_str@),
        r matches Ok(c) ==> c.wf() && c.value@ == first_occurrences(proxy_str@),
        r matches Err(m) ==> m@ == "not all chars is ascii alphanumeric"@,
{
    let n = proxy_str.unicode_len();
    let mut value: Vec<char> = Vec::new();
    let mut has_digit = false;
    let mut has_alphabetic = false;
    let mut all_alnum = true;
    let mut i: usize = 0;
    while i < n
        invariant
            n == proxy_str@.len(),
            0 <= i <= n,
            value@ == first_occurrences(proxy_str@.subrange(0, i as int)),
            forall|p: int, q: int| 0 <= p < q < value@.len() ==> value@[p] != value@[q],
            has_digit == seq_has_digit(value@),
            has_alphabetic == seq_has_letter(value@),
            all_alnum == (forall|j: int| 0 <= j < i ==> is_alnum_char(proxy_str@[j])),
            all_alnum ==> seq_all_alnum(value@),
            i > 0 ==> value@.len() > 0,
        decreases n - i,
    {
        let c = proxy_str.get_char(i);
        proof {
            assert(proxy_str@.subrange(0, i + 1) =~= proxy_str@.subrange(0, i as int).push(
                proxy_str@[i as int],
            ));
            assert(proxy_str@.subrange(0, i + 1).drop_last() =~= proxy_str@.subrange(0, i as int));
            lemma_class_push(value@, c);
        }
        if !contains_char(&value, c) {
            value.push(c);
            if check_digit(c) {
                has_digit = true;
            }
            if check_letter(c) {
                has_alphabetic = true;
            }
        }
        if !(check_digit(c) || check_letter(c)) {
            all_alnum = false;
        }
        i = i + 1;
    }
    proof {
        assert(proxy_str@.subrange(0, n as int) =~= proxy_str@);
    }
    if !value.is_empty() && all_alnum {
        Ok(Chars { value, has_digit, has_alphabetic })
    } else {
        Err(String::from_str("not all chars is ascii alphanumeric"))
    }
}

/// The length/alphabet conflict the command layer must reject: a one-symbol
/// tag cannot hold both a digit and a letter when the alphabet requires both.
pub fn length_conflicts(chars: &Chars, length: usize) -> (r: bool)
    ensures
        r == (length == 1 && chars.has_digit && chars.has_alphabetic),
{
    length == 1 && chars.has_digit && chars.has_alphabetic
}

} // verus!
