//! Classification of one raw text cell.

use vstd::prelude::*;

verus! {

/// The mathematical model of a classified cell.
pub enum Category {
    Missing,
    Integer,
    Real,
    Categorical(Seq<char>),
}

pub open spec fn is_digit(c: char) -> bool {
    '0' <= c && c <= '9'
}

pub open spec fn is_sign(c: char) -> bool {
    c == '+' || c == '-'
}

pub open spec fn all_digits(s: Seq<char>) -> bool {
    forall|i: int| 0 <= i < s.len() ==> #[trigger] is_digit(s[i])
}

/// The text with one leading `+` or `-` removed, if there is one.
pub open spec fn unsigned_part(s: Seq<char>) -> Seq<char> {
    if s.len() > 0 && is_sign(s[0]) {
        s.drop_first()
    } else {
        s
    }
}

/// The value of a run of decimal digits.
pub open spec fn digits_value(s: Seq<char>) -> int
    decreases s.len(),
{
    if s.len() == 0 {
        0
    } else {
        digits_value(s.drop_last()) * 10 + (s.last() as u32 - '0' as u32)
    }
}

/// The value of a signed decimal integer text.
pub open spec fn int_value(s: Seq<char>) -> int {
    if s.len() > 0 && s[0] == '-' {
        -digits_value(unsigned_part(s))
    } else {
        digits_value(unsigned_part(s))
    }
}

/// Text that std's `i32` parser accepts: an optional sign, then one or more
/// decimal digits, whose value fits in `i32`.
pub open spec fn is_int_text(s: Seq<char>) -> bool {
    let u = unsigned_part(s);
    &&& u.len() > 0
    &&& all_digits(u)
    &&& i32::MIN <= int_value(s) <= i32::MAX
}

/// The number of decimal digits in a row from position `i` on.
pub open spec fn digits_from(s: Seq<char>, i: int) -> nat
    decreases s.len() - i,
{
    if 0 <= i < s.len() && is_digit(s[i]) {
        1 + digits_from(s, i + 1)
    } else {
        0
    }
}

/// `c` is the lower-case ASCII letter `l`, in either case.
pub open spec fn same_letter(c: char, l: char) -> bool {
    c == l || c as u32 + 32 == l as u32
}

/// The text from position `i` on is the lower-case word `w`, ignoring ASCII case.
pub open spec fn word_at(s: Seq<char>, i: int, w: Seq<char>) -> bool {
    &&& s.len() - i == w.len()
    &&& forall|k: int| 0 <= k < w.len() ==> same_letter(#[trigger] s[i + k], w[k])
}

/// From position `i` on, the text is empty or an exponent: `e` or `E`, an
/// optional sign, then one or more digits.
pub open spec fn exponent_or_end(s: Seq<char>, i: int) -> bool {
    i == s.len() || (i < s.len() && same_letter(s[i], 'e') && {
        let j = if i + 1 < s.len() && is_sign(s[i + 1]) {
            i + 2
        } else {
            i + 1
        };
        digits_from(s, j) > 0 && j + digits_from(s, j) == s.len()
    })
}

/// From position `i` on, the text is a decimal number: digits, optionally a
/// point and more digits, with at least one digit in all, then an optional
/// exponent.
pub open spec fn decimal_at(s: Seq<char>, i: int) -> bool {
    let a = digits_from(s, i);
    let j = i + a;
    if j < s.len() && s[j] == '.' {
        let b = digits_from(s, j + 1);
        a + b > 0 && exponent_or_end(s, j + 1 + b)
    } else {
        a > 0 && exponent_or_end(s, j)
    }
}

/// Text that std's `f32` parser accepts. Its documented grammar, applied to
/// the lower-cased text, is
/// `Sign? ('inf' | 'infinity' | 'nan' | Number)`, where
/// `Number ::= (Digit+ | Digit+ '.' Digit* | Digit* '.' Digit+) Exp?`,
/// `Exp ::= 'e' Sign? Digit+` and `Sign ::= [+-]`.
pub open spec fn is_real_text(s: Seq<char>) -> bool {
    let i = if s.len() > 0 && is_sign(s[0]) {
        1int
    } else {
        0int
    };
    ||| word_at(s, i, seq!['i', 'n', 'f'])
    ||| word_at(s, i, seq!['i', 'n', 'f', 'i', 'n', 'i', 't', 'y'])
    ||| word_at(s, i, seq!['n', 'a', 'n'])
    ||| decimal_at(s, i)
}

/// The category of one raw cell, in priority order: empty, integer, real,
/// and otherwise the text itself.
pub open spec fn classify(s: Seq<char>) -> Category {
    if s.len() == 0 {
        Category::Missing
    } else if is_int_text(s) {
        Category::Integer
    } else if is_real_text(s) {
        Category::Real
    } else {
        Category::Categorical(s)
    }
}

/// Relies on `str::parse::<i32>`: it succeeds exactly on an optional sign
/// followed by decimal digits whose value fits in `i32`, and yields that value.
#[verifier::external_body]
fn parse_i32(s: &str) -> (r: Option<i32>)
    ensures
        r.is_some() == is_int_text(s@),
        r.is_some() ==> r.unwrap() == int_value(s@),
{
    s.parse::<i32>().ok()
}

fn to_chars(s: &str) -> (r: Vec<char>)
    ensures
        r@ == s@,
{
    let n = s.unicode_len();
    let mut r: Vec<char> = Vec::new();
    let mut i: usize = 0;
    while i < n
        invariant
            n == s@.len(),
            i <= n,
            r@ == s@.take(i as int),
        decreases n - i,
    {
        r.push(s.get_char(i));
        i = i + 1;
        assert(r@ =~= s@.take(i as int));
    }
    assert(r@ =~= s@);
    r
}

fn is_digit_char(c: char) -> (r: bool)
    ensures
        r == is_digit(c),
{
    '0' <= c && c <= '9'
}

fn is_sign_char(c: char) -> (r: bool)
    ensures
        r == is_sign(c),
{
    c == '+' || c == '-'
}

fn count_digits(s: &Vec<char>, from: usize) -> (r: usize)
    requires
        from <= s@.len(),
    ensures
        r == digits_from(s@, from as int),
        from + r <= s@.len(),
{
    let mut i: usize = from;
    while i < s.len() && is_digit_char(s[i])
        invariant
            from <= i <= s@.len(),
            digits_from(s@, from as int) == (i - from) + digits_from(s@, i as int),
        decreases s@.len() - i,
    {
        i = i + 1;
    }
    i - from
}

fn same_letter_char(c: char, l: char) -> (r: bool)
    ensures
        r == same_letter(c, l),
{
    c == l || c as u32 + 32 == l as u32
}

fn matches_word(s: &Vec<char>, from: usize, w: &Vec<char>) -> (r: bool)
    requires
        from <= s@.len(),
    ensures
        r == word_at(s@, from as int, w@),
{
    if s.len() - from != w.len() {
        return false;
    }
    let mut k: usize = 0;
    while k < w.len()
        invariant
            from <= s@.len() <= usize::MAX,
            s@.len() - from == w@.len(),
            k <= w@.len(),
            forall|m: int| 0 <= m < k ==> same_letter(#[trigger] s@[from + m], w@[m]),
        decreases w@.len() - k,
    {
        if !same_letter_char(s[from + k], w[k]) {
            return false;
        }
        k = k + 1;
    }
    true
}

fn exponent_or_end_at(s: &Vec<char>, i: usize) -> (r: bool)
    requires
        i <= s@.len(),
    ensures
        r == exponent_or_end(s@, i as int),
{
    if i == s.len() {
        return true;
    }
    if !same_letter_char(s[i], 'e') {
        return false;
    }
    let j: usize = if i + 1 < s.len() && is_sign_char(s[i + 1]) {
        i + 2
    } else {
        i + 1
    };
    let d = count_digits(s, j);
    d > 0 && j + d == s.len()
}

fn decimal_from(s: &Vec<char>, i: usize) -> (r: bool)
    requires
        i <= s@.len(),
    ensures
        r == decimal_at(s@, i as int),
{
    let n = s.len();
    let a = count_digits(s, i);
    let j = i + a;
    if j < s.len() && s[j] == '.' {
        let b = count_digits(s, j + 1);
        a + b > 0 && exponent_or_end_at(s, j + 1 + b)
    } else {
        a > 0 && exponent_or_end_at(s, j)
    }
}

/// Whether std's `f32` parser accepts the text, decided on its documented
/// grammar.
pub fn parses_as_real(t: &str) -> (r: bool)
    ensures
        r == is_real_text(t@),
{
    let s = to_chars(t);
    let i: usize = if s.len() > 0 && is_sign_char(s[0]) {
        1
    } else {
        0
    };
    let inf = vec!['i', 'n', 'f'];
    let infinity = vec!['i', 'n', 'f', 'i', 'n', 'i', 't', 'y'];
    let nan = vec!['n', 'a', 'n'];
    assert(inf@ =~= seq!['i', 'n', 'f']);
    assert(infinity@ =~= seq!['i', 'n', 'f', 'i', 'n', 'i', 't', 'y']);
    assert(nan@ =~= seq!['n', 'a', 'n']);
    matches_word(&s, i, &inf) || matches_word(&s, i, &infinity) || matches_word(&s, i, &nan)
        || decimal_from(&s, i)
}

/// The kind of one cell, as classified from its raw text.
#[derive(Debug)]
pub enum FieldKind {
    Integer,
    Real,
    Factor(String),
    Empty,
}

impl View for FieldKind {
    type V = Category;

    open spec fn view(&self) -> Category {
        match self {
            FieldKind::Integer => Category::Integer,
            FieldKind::Real => Category::Real,
            FieldKind::Factor(t) => Category::Categorical(t@),
            FieldKind::Empty => Category::Missing,
        }
    }
}

impl Clone for FieldKind {
    fn clone(&self) -> (r: Self)
        ensures
            r@ == self@,
    {
        match self {
            FieldKind::Integer => FieldKind::Integer,
            FieldKind::Real => FieldKind::Real,
            FieldKind::Factor(t) => FieldKind::Factor(t.clone()),
            FieldKind::Empty => FieldKind::Empty,
        }
    }
}

impl FieldKind {
    /// Classifies one raw cell. Every text has exactly one category: the
    /// empty text is missing, then integer text wins over real text, and any
    /// other text is kept verbatim as a categorical level.
    pub fn parse(f: &str) -> (r: Self)
        ensures
            r@ == classify(f@),
    {
        if f.is_empty() {
            FieldKind::Empty
        } else if parse_i32(f).is_some() {
            FieldKind::Integer
        } else if parses_as_real(f) {
            FieldKind::Real
        } else {
            FieldKind::Factor(String::from_str(f))
        }
    }
}

} // verus!
