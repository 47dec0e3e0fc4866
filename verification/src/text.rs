//! Text primitives: trimming, splitting, comparing, decimal numbers.
//!
//! A string is seen through its sequence of characters. Each function here
//! has a spec function of (nearly) the same name that says what it computes.
use vstd::prelude::*;
use vstd::string::*;

verus! {

broadcast use group_string_axioms;

/// `String::push` of std: appends one character at the end.
pub assume_specification[ String::push ](s: &mut String, ch: char)
    ensures
        final(s)@ == old(s)@.push(ch),
;

/// What `str::to_uppercase` of std makes of a text (full Unicode mapping).
pub uninterp spec fn uppercase_of(s: Seq<char>) -> Seq<char>;

/// An ASCII character.
pub open spec fn is_ascii_char(c: char) -> bool {
    c as int <= 0x7f
}

/// The ASCII uppercase of a character: `a..z` become `A..Z`, others stay.
pub open spec fn ascii_upper(c: char) -> char {
    if 'a' <= c <= 'z' {
        ((c as u32 - 32) as u32) as char
    } else {
        c
    }
}

/// The ASCII lowercase of a character: `A..Z` become `a..z`, others stay.
pub open spec fn ascii_lower(c: char) -> char {
    if 'A' <= c <= 'Z' {
        ((c as u32 + 32) as u32) as char
    } else {
        c
    }
}

/// `str::to_uppercase` of std. The result is a function of the text alone;
/// on a text of ASCII characters each letter is mapped by itself.
#[verifier::external_body]
pub(crate) fn uppercase(s: &str) -> (r: String)
    ensures
        r@ == uppercase_of(s@),
        (forall|i: int| 0 <= i < s@.len() ==> is_ascii_char(#[trigger] s@[i])) ==> r@ == s@.map_values(
            |c: char| ascii_upper(c),
        ),
{
    s.to_uppercase()
}

/// The views of a sequence of string slices.
pub open spec fn views(v: Seq<&str>) -> Seq<Seq<char>> {
    v.map_values(|s: &str| s@)
}

/// The view of an optional string slice.
pub open spec fn opt_view(o: Option<&str>) -> Option<Seq<char>> {
    match o {
        Some(s) => Some(s@),
        None => None,
    }
}

/// The characters of a string.
pub fn chars_of(s: &str) -> (r: Vec<char>)
    ensures
        r@ == s@,
{
    let mut out: Vec<char> = Vec::new();
    for c in it: s.chars()
        invariant
            it.seq() == s@,
            out@ == s@.take(it.index()),
    {
        proof {
            assert(s@.take(it.index() + 1) =~= s@.take(it.index()).push(s@[it.index()]));
        }
        out.push(c);
    }
    assert(out@ =~= s@);
    out
}

/// Whether two strings hold the same characters.
pub fn same(a: &str, b: &str) -> (r: bool)
    ensures
        r == (a@ == b@),
{
    let x: Vec<char> = chars_of(a);
    let y: Vec<char> = chars_of(b);
    if x.len() != y.len() {
        return false;
    }
    let mut i: usize = 0;
    while i < x.len()
        invariant
            i <= x.len(),
            x@ == a@,
            y@ == b@,
            x.len() == y.len(),
            forall|j: int| 0 <= j < i ==> x@[j] == y@[j],
        decreases x.len() - i,
    {
        if x[i] != y[i] {
            return false;
        }
        i = i + 1;
    }
    assert(x@ =~= y@);
    true
}

/// A character with the Unicode property White_Space.
pub open spec fn is_space(c: char) -> bool {
    let u: int = c as int;
    ||| 0x09 <= u <= 0x0d
    ||| u == 0x20
    ||| u == 0x85
    ||| u == 0xa0
    ||| u == 0x1680
    ||| 0x2000 <= u <= 0x200a
    ||| u == 0x2028
    ||| u == 0x2029
    ||| u == 0x202f
    ||| u == 0x205f
    ||| u == 0x3000
}

/// Whether a character is white space.
pub fn is_whitespace(c: char) -> (r: bool)
    ensures
        r == is_space(c),
{
    let u: u32 = c as u32;
    (0x09 <= u && u <= 0x0d) || u == 0x20 || u == 0x85 || u == 0xa0 || u == 0x1680 || (0x2000 <= u
        && u <= 0x200a) || u == 0x2028 || u == 0x2029 || u == 0x202f || u == 0x205f || u == 0x3000
}

/// The text without the white space at its start.
pub open spec fn trimmed_start(s: Seq<char>) -> Seq<char>
    decreases s.len(),
{
    if s.len() > 0 && is_space(s[0]) {
        trimmed_start(s.drop_first())
    } else {
        s
    }
}

/// The text without the white space at its end.
pub open spec fn trimmed_end(s: Seq<char>) -> Seq<char>
    decreases s.len(),
{
    if s.len() > 0 && is_space(s.last()) {
        trimmed_end(s.drop_last())
    } else {
        s
    }
}

/// The text without the white space at either end.
pub open spec fn trimmed(s: Seq<char>) -> Seq<char> {
    trimmed_end(trimmed_start(s))
}

/// The text without the white space at either end.
pub fn trim<'a>(s: &'a str) -> (r: &'a str)
    ensures
        r@ == trimmed(s@),
{
    let chars: Vec<char> = chars_of(s);
    let n: usize = chars.len();
    let mut from: usize = 0;
    assert(s@.subrange(0, n as int) =~= s@);
    while from < n && is_whitespace(chars[from])
        invariant
            from <= n,
            n == chars.len(),
            chars@ == s@,
            trimmed_start(s@) == trimmed_start(s@.subrange(from as int, n as int)),
        decreases n - from,
    {
        proof {
            let cur: Seq<char> = s@.subrange(from as int, n as int);
            assert(cur.drop_first() =~= s@.subrange(from as int + 1, n as int));
        }
        from = from + 1;
    }
    let ghost start: Seq<char> = s@.subrange(from as int, n as int);
    assert(trimmed_start(s@) == start);
    let mut to: usize = n;
    while from < to && is_whitespace(chars[to - 1])
        invariant
            from <= to <= n,
            n == chars.len(),
            chars@ == s@,
            start == s@.subrange(from as int, n as int),
            trimmed_end(start) == trimmed_end(s@.subrange(from as int, to as int)),
        decreases to - from,
    {
        proof {
            let cur: Seq<char> = s@.subrange(from as int, to as int);
            assert(cur.drop_last() =~= s@.subrange(from as int, to as int - 1));
        }
        to = to - 1;
    }
    s.substring_char(from, to)
}

/// The pieces between the occurrences of `sep`; one more piece than there are
/// occurrences.
pub open spec fn pieces(s: Seq<char>, sep: char) -> Seq<Seq<char>>
    decreases s.len(),
{
    if s.len() == 0 {
        seq![Seq::<char>::empty()]
    } else {
        let before: Seq<Seq<char>> = pieces(s.drop_last(), sep);
        if s.last() == sep {
            before.push(Seq::<char>::empty())
        } else {
            before.drop_last().push(before.last().push(s.last()))
        }
    }
}

/// There is always a last piece, and it is the text behind the last separator.
proof fn lemma_pieces_step(s: Seq<char>, sep: char, n: int)
    requires
        0 <= n < s.len(),
    ensures
        pieces(s.take(n), sep).len() >= 1,
        pieces(s.take(n + 1), sep) == (if s[n] == sep {
            pieces(s.take(n), sep).push(Seq::<char>::empty())
        } else {
            pieces(s.take(n), sep).drop_last().push(pieces(s.take(n), sep).last().push(s[n]))
        }),
{
    lemma_pieces_len(s.take(n), sep);
    assert(s.take(n + 1).drop_last() =~= s.take(n));
}

/// The pieces of two texts with a separator between them are those of the one
/// and then those of the other.
pub proof fn law_pieces_join(a: Seq<char>, b: Seq<char>, sep: char)
    ensures
        pieces(a.push(sep) + b, sep) == pieces(a, sep) + pieces(b, sep),
    decreases b.len(),
{
    let s: Seq<char> = a.push(sep) + b;
    if b.len() == 0 {
        assert(s.drop_last() =~= a);
        assert(pieces(s, sep) =~= pieces(a, sep) + pieces(b, sep));
    } else {
        law_pieces_join(a, b.drop_last(), sep);
        lemma_pieces_len(b.drop_last(), sep);
        assert(s.drop_last() =~= a.push(sep) + b.drop_last());
        assert(s.last() == b.last());
        assert(pieces(s, sep) =~= pieces(a, sep) + pieces(b, sep));
    }
}

/// There is at least one piece.
pub proof fn lemma_pieces_len(s: Seq<char>, sep: char)
    ensures
        pieces(s, sep).len() >= 1,
    decreases s.len(),
{
    if s.len() > 0 {
        lemma_pieces_len(s.drop_last(), sep);
    }
}

/// The pieces of a text between the occurrences of a separator.
pub fn split<'a>(s: &'a str, sep: char) -> (r: Vec<&'a str>)
    ensures
        views(r@) == pieces(s@, sep),
        r@.len() >= 1,
{
    let chars: Vec<char> = chars_of(s);
    let n: usize = chars.len();
    let mut out: Vec<&'a str> = Vec::new();
    let mut from: usize = 0;
    let mut i: usize = 0;
    assert(pieces(s@.take(0), sep) =~= seq![Seq::<char>::empty()]);
    assert(s@.subrange(0, 0) =~= Seq::<char>::empty());
    while i < n
        invariant
            from <= i <= n,
            n == chars.len(),
            chars@ == s@,
            views(out@).push(s@.subrange(from as int, i as int)) == pieces(s@.take(i as int), sep),
        decreases n - i,
    {
        proof {
            lemma_pieces_step(s@, sep, i as int);
        }
        let ghost done: Seq<Seq<char>> = pieces(s@.take(i as int), sep);
        assert(done.last() == s@.subrange(from as int, i as int));
        assert(done.drop_last() =~= views(out@));
        if chars[i] == sep {
            let piece: &'a str = s.substring_char(from, i);
            let ghost old_out: Seq<&str> = out@;
            out.push(piece);
            from = i + 1;
            proof {
                assert(views(out@) =~= views(old_out).push(piece@));
                assert(s@.subrange(i as int + 1, i as int + 1) =~= Seq::<char>::empty());
            }
        } else {
            assert(s@.subrange(from as int, i as int + 1) =~= s@.subrange(
                from as int,
                i as int,
            ).push(s@[i as int]));
        }
        i = i + 1;
    }
    let piece: &'a str = s.substring_char(from, n);
    let ghost old_out: Seq<&str> = out@;
    out.push(piece);
    proof {
        assert(views(out@) =~= views(old_out).push(piece@));
        assert(s@.take(n as int) =~= s@);
    }
    out
}

/// Whether a text holds a character.
pub fn contains_char(s: &str, c: char) -> (r: bool)
    ensures
        r == s@.contains(c),
{
    let chars: Vec<char> = chars_of(s);
    let mut i: usize = 0;
    while i < chars.len()
        invariant
            i <= chars.len(),
            chars@ == s@,
            forall|j: int| 0 <= j < i ==> s@[j] != c,
        decreases chars.len() - i,
    {
        if chars[i] == c {
            return true;
        }
        i = i + 1;
    }
    false
}

/// `needle` occurs in `s` at position `at`.
pub open spec fn occurs_at(s: Seq<char>, needle: Seq<char>, at: int) -> bool {
    0 <= at && at + needle.len() <= s.len() && s.subrange(at, at + needle.len()) == needle
}

/// `needle` occurs somewhere in `s`.
pub open spec fn contains_text(s: Seq<char>, needle: Seq<char>) -> bool {
    exists|at: int| occurs_at(s, needle, at)
}

/// `s` begins with `prefix`.
pub open spec fn has_prefix(s: Seq<char>, prefix: Seq<char>) -> bool {
    occurs_at(s, prefix, 0)
}

/// `s` ends with `suffix`.
pub open spec fn has_suffix(s: Seq<char>, suffix: Seq<char>) -> bool {
    occurs_at(s, suffix, s.len() - suffix.len())
}

fn matches_at(s: &Vec<char>, needle: &Vec<char>, at: usize) -> (r: bool)
    ensures
        r == occurs_at(s@, needle@, at as int),
{
    let n: usize = s.len();
    let m: usize = needle.len();
    if at > n || m > n - at {
        return false;
    }
    let mut i: usize = 0;
    while i < m
        invariant
            n == s.len(),
            m == needle.len(),
            i <= m,
            at + m <= n,
            forall|j: int| 0 <= j < i ==> s@[at + j] == needle@[j],
        decreases m - i,
    {
        if s[at + i] != needle[i] {
            assert(s@.subrange(at as int, at + m)[i as int] != needle@[i as int]);
            return false;
        }
        i = i + 1;
    }
    assert(s@.subrange(at as int, at + m) =~= needle@);
    true
}

/// Whether a text holds another.
pub fn contains(s: &str, needle: &str) -> (r: bool)
    ensures
        r == contains_text(s@, needle@),
{
    let chars: Vec<char> = chars_of(s);
    let wanted: Vec<char> = chars_of(needle);
    let mut at: usize = 0;
    while at < chars.len()
        invariant
            at <= chars.len(),
            chars@ == s@,
            wanted@ == needle@,
            forall|j: int| 0 <= j < at ==> !occurs_at(s@, needle@, j),
        decreases chars.len() - at,
    {
        if matches_at(&chars, &wanted, at) {
            return true;
        }
        at = at + 1;
    }
    matches_at(&chars, &wanted, at)
}

/// Whether a text begins with another.
pub fn starts_with(s: &str, prefix: &str) -> (r: bool)
    ensures
        r == has_prefix(s@, prefix@),
{
    let chars: Vec<char> = chars_of(s);
    let wanted: Vec<char> = chars_of(prefix);
    matches_at(&chars, &wanted, 0)
}

/// Whether a text ends with another.
pub fn ends_with(s: &str, suffix: &str) -> (r: bool)
    ensures
        r == has_suffix(s@, suffix@),
{
    let chars: Vec<char> = chars_of(s);
    let wanted: Vec<char> = chars_of(suffix);
    if wanted.len() > chars.len() {
        return false;
    }
    matches_at(&chars, &wanted, chars.len() - wanted.len())
}

/// Equal up to the case of ASCII letters.
pub open spec fn same_ignoring_case(a: Seq<char>, b: Seq<char>) -> bool {
    a.len() == b.len() && forall|i: int|
        0 <= i < a.len() ==> ascii_lower(#[trigger] a[i]) == ascii_lower(b[i])
}

/// The ASCII lowercase of a character.
pub fn to_ascii_lower(c: char) -> (r: char)
    ensures
        r == ascii_lower(c),
{
    if 'A' <= c && c <= 'Z' {
        ((c as u8) + 32) as char
    } else {
        c
    }
}

/// Whether two texts are equal up to the case of ASCII letters.
pub fn eq_ignore_case(a: &str, b: &str) -> (r: bool)
    ensures
        r == same_ignoring_case(a@, b@),
{
    let x: Vec<char> = chars_of(a);
    let y: Vec<char> = chars_of(b);
    if x.len() != y.len() {
        return false;
    }
    let mut i: usize = 0;
    while i < x.len()
        invariant
            i <= x.len(),
            x@ == a@,
            y@ == b@,
            x.len() == y.len(),
            forall|j: int| 0 <= j < i ==> ascii_lower(#[trigger] x@[j]) == ascii_lower(y@[j]),
        decreases x.len() - i,
    {
        if to_ascii_lower(x[i]) != to_ascii_lower(y[i]) {
            return false;
        }
        i = i + 1;
    }
    true
}

/// Every occurrence of `from` replaced by `to`.
pub open spec fn replaced(s: Seq<char>, from: char, to: char) -> Seq<char> {
    s.map_values(
        |c: char|
            if c == from {
                to
            } else {
                c
            },
    )
}

/// Every occurrence of one character replaced by another.
pub fn replace_char(s: &str, from: char, to: char) -> (r: String)
    ensures
        r@ == replaced(s@, from, to),
{
    let chars: Vec<char> = chars_of(s);
    let mut out: String = String::new();
    let mut i: usize = 0;
    while i < chars.len()
        invariant
            i <= chars.len(),
            chars@ == s@,
            out@ == replaced(s@.take(i as int), from, to),
        decreases chars.len() - i,
    {
        let c: char = if chars[i] == from {
            to
        } else {
            chars[i]
        };
        proof {
            assert(replaced(s@.take(i as int + 1), from, to) =~= replaced(
                s@.take(i as int),
                from,
                to,
            ).push(c));
        }
        out.push(c);
        i = i + 1;
    }
    assert(s@.take(i as int) =~= s@);
    out
}

/// Why a text is no number of the wanted type.
#[derive(Clone, Copy, Debug, PartialEq, Eq, Structural)]
pub enum IntError {
    Empty,
    InvalidDigit,
    PosOverflow,
    NegOverflow,
}

impl IntError {
    /// The error in words, as it stands in messages.
    pub open spec fn words(self) -> Seq<char> {
        match self {
            IntError::Empty => "cannot parse integer from empty string"@,
            IntError::InvalidDigit => "invalid digit found in string"@,
            IntError::PosOverflow => "number too large to fit in target type"@,
            IntError::NegOverflow => "number too small to fit in target type"@,
        }
    }

    /// The error in words.
    pub fn text(&self) -> (r: &'static str)
        ensures
            r@ == self.words(),
    {
        match self {
            IntError::Empty => "cannot parse integer from empty string",
            IntError::InvalidDigit => "invalid digit found in string",
            IntError::PosOverflow => "number too large to fit in target type",
            IntError::NegOverflow => "number too small to fit in target type",
        }
    }
}

/// A decimal digit.
pub open spec fn is_digit(c: char) -> bool {
    '0' <= c <= '9'
}

/// The value of a decimal digit.
pub open spec fn digit_value(c: char) -> nat {
    (c as int - '0' as int) as nat
}

/// Every character is a decimal digit.
pub open spec fn all_digits(s: Seq<char>) -> bool {
    forall|i: int| 0 <= i < s.len() ==> is_digit(#[trigger] s[i])
}

/// The number that a row of decimal digits writes.
pub open spec fn decimal_value(s: Seq<char>) -> nat
    decreases s.len(),
{
    if s.len() == 0 {
        0
    } else {
        decimal_value(s.drop_last()) * 10 + digit_value(s.last())
    }
}

/// Reads a row of digits from the left, up to `max`. The first character at
/// which the reading fails decides the error.
pub open spec fn read_digits(s: Seq<char>, max: nat) -> Result<nat, IntError>
    decreases s.len(),
{
    if s.len() == 0 {
        Ok(0)
    } else {
        match read_digits(s.drop_last(), max) {
            Err(e) => Err(e),
            Ok(v) => if !is_digit(s.last()) {
                Err(IntError::InvalidDigit)
            } else if v * 10 + digit_value(s.last()) > max {
                Err(IntError::PosOverflow)
            } else {
                Ok(v * 10 + digit_value(s.last()))
            },
        }
    }
}

/// A lone sign.
pub open spec fn is_lone_sign(s: Seq<char>) -> bool {
    s.len() == 1 && (s[0] == '+' || s[0] == '-')
}

/// The text behind a leading plus sign.
pub open spec fn without_plus(s: Seq<char>) -> Seq<char> {
    if s.len() > 0 && s[0] == '+' {
        s.drop_first()
    } else {
        s
    }
}

/// An unsigned number of at most `max`: decimal digits, a plus sign before
/// them is allowed.
pub open spec fn parsed(s: Seq<char>, max: nat) -> Result<nat, IntError> {
    if s.len() == 0 {
        Err(IntError::Empty)
    } else if is_lone_sign(s) {
        Err(IntError::InvalidDigit)
    } else {
        read_digits(without_plus(s), max)
    }
}

/// A signed number of 32 bits.
pub open spec fn parsed_i32(s: Seq<char>) -> Result<int, IntError> {
    if s.len() == 0 {
        Err(IntError::Empty)
    } else if is_lone_sign(s) {
        Err(IntError::InvalidDigit)
    } else if s[0] == '-' {
        match read_digits(s.drop_first(), 0x8000_0000) {
            Ok(v) => Ok(-(v as int)),
            Err(IntError::PosOverflow) => Err(IntError::NegOverflow),
            Err(e) => Err(e),
        }
    } else {
        match read_digits(without_plus(s), 0x7fff_ffff) {
            Ok(v) => Ok(v as int),
            Err(e) => Err(e),
        }
    }
}

/// Reading a row of digits succeeds exactly on digits whose value is in
/// range, and gives that value.
pub proof fn lemma_read_digits(s: Seq<char>, max: nat)
    ensures
        read_digits(s, max) is Ok <==> all_digits(s) && decimal_value(s) <= max,
        read_digits(s, max) matches Ok(v) ==> v == decimal_value(s),
    decreases s.len(),
{
    if s.len() > 0 {
        lemma_read_digits(s.drop_last(), max);
        if all_digits(s) {
            assert(all_digits(s.drop_last()));
            assert(is_digit(s[s.len() - 1]));
        }
        if all_digits(s.drop_last()) && is_digit(s.last()) {
            assert forall|i: int| 0 <= i < s.len() implies is_digit(#[trigger] s[i]) by {
                if i < s.len() - 1 {
                    assert(s[i] == s.drop_last()[i]);
                }
            }
        }
    }
}

/// A text is an unsigned number exactly when it is a non-empty row of digits,
/// with or without a plus sign before it, whose value is in range; the number
/// is that value.
pub proof fn law_parsed(s: Seq<char>, max: nat)
    ensures
        parsed(s, max) is Ok <==> {
            let digits: Seq<char> = without_plus(s);
            digits.len() > 0 && all_digits(digits) && decimal_value(digits) <= max
        },
        parsed(s, max) matches Ok(v) ==> v == decimal_value(without_plus(s)) && v <= max,
{
    lemma_read_digits(without_plus(s), max);
    if s.len() == 1 && s[0] == '-' {
        assert(without_plus(s)[0] == '-');
        assert(!is_digit(without_plus(s)[0]));
    }
}

fn read_from(chars: &Vec<char>, from: usize, max: u64) -> (r: Result<u64, IntError>)
    requires
        from <= chars.len(),
    ensures
        match (r, read_digits(chars@.skip(from as int), max as nat)) {
            (Ok(v), Ok(w)) => v == w && v <= max,
            (Err(e), Err(f)) => e == f,
            _ => false,
        },
{
    let ghost digits: Seq<char> = chars@.skip(from as int);
    let mut v: u64 = 0;
    let mut i: usize = from;
    while i < chars.len()
        invariant
            from <= i <= chars.len(),
            digits == chars@.skip(from as int),
            v <= max,
            read_digits(digits.take(i - from), max as nat) == Ok::<nat, IntError>(v as nat),
        decreases chars.len() - i,
    {
        let c: char = chars[i];
        proof {
            assert(digits.take(i + 1 - from).drop_last() =~= digits.take(i - from));
            assert(digits.take(i + 1 - from).last() == c);
        }
        if !('0' <= c && c <= '9') {
            proof {
                lemma_error_stays(digits, i + 1 - from, max as nat);
            }
            return Err(IntError::InvalidDigit);
        }
        let d: u64 = (c as u64) - 48;
        let next: Option<u64> = match v.checked_mul(10) {
            Some(m) => m.checked_add(d),
            None => None,
        };
        match next {
            Some(w) if w <= max => {
                v = w;
            },
            _ => {
                proof {
                    lemma_error_stays(digits, i + 1 - from, max as nat);
                }
                return Err(IntError::PosOverflow);
            },
        }
        i = i + 1;
    }
    assert(digits.take(i - from) =~= digits);
    Ok(v)
}

/// Once a prefix fails to be read, so does the whole, with the same error.
proof fn lemma_error_stays(s: Seq<char>, n: int, max: nat)
    requires
        0 <= n <= s.len(),
        read_digits(s.take(n), max) is Err,
    ensures
        read_digits(s, max) == read_digits(s.take(n), max),
    decreases s.len() - n,
{
    if n == s.len() {
        assert(s.take(n) =~= s);
    } else {
        assert(s.take(n + 1).drop_last() =~= s.take(n));
        lemma_error_stays(s, n + 1, max);
    }
}

/// Reads an unsigned number of at most `max`.
pub fn parse_up_to(s: &str, max: u64) -> (r: Result<u64, IntError>)
    ensures
        match (r, parsed(s@, max as nat)) {
            (Ok(v), Ok(w)) => v == w && v <= max,
            (Err(e), Err(f)) => e == f,
            _ => false,
        },
{
    let chars: Vec<char> = chars_of(s);
    if chars.len() == 0 {
        return Err(IntError::Empty);
    }
    if chars.len() == 1 && (chars[0] == '+' || chars[0] == '-') {
        return Err(IntError::InvalidDigit);
    }
    if chars[0] == '+' {
        assert(chars@.skip(1) =~= s@.drop_first());
        read_from(&chars, 1, max)
    } else {
        assert(chars@.skip(0) =~= s@);
        read_from(&chars, 0, max)
    }
}

/// Reads a `usize`.
pub fn parse_usize(s: &str) -> (r: Result<usize, IntError>)
    ensures
        match (r, parsed(s@, usize::MAX as nat)) {
            (Ok(v), Ok(w)) => v == w,
            (Err(e), Err(f)) => e == f,
            _ => false,
        },
{
    match parse_up_to(s, usize::MAX as u64) {
        Ok(v) => Ok(v as usize),
        Err(e) => Err(e),
    }
}

/// Reads a `u32`.
pub fn parse_u32(s: &str) -> (r: Result<u32, IntError>)
    ensures
        match (r, parsed(s@, u32::MAX as nat)) {
            (Ok(v), Ok(w)) => v == w,
            (Err(e), Err(f)) => e == f,
            _ => false,
        },
{
    match parse_up_to(s, u32::MAX as u64) {
        Ok(v) => Ok(v as u32),
        Err(e) => Err(e),
    }
}

/// Reads a `u16`.
pub fn parse_u16(s: &str) -> (r: Result<u16, IntError>)
    ensures
        match (r, parsed(s@, u16::MAX as nat)) {
            (Ok(v), Ok(w)) => v == w,
            (Err(e), Err(f)) => e == f,
            _ => false,
        },
{
    match parse_up_to(s, u16::MAX as u64) {
        Ok(v) => Ok(v as u16),
        Err(e) => Err(e),
    }
}

/// Reads an `i32`.
pub fn parse_i32(s: &str) -> (r: Result<i32, IntError>)
    ensures
        match (r, parsed_i32(s@)) {
            (Ok(v), Ok(w)) => v == w,
            (Err(e), Err(f)) => e == f,
            _ => false,
        },
{
    let chars: Vec<char> = chars_of(s);
    if chars.len() == 0 {
        return Err(IntError::Empty);
    }
    if chars.len() == 1 && (chars[0] == '+' || chars[0] == '-') {
        return Err(IntError::InvalidDigit);
    }
    if chars[0] == '-' {
        assert(chars@.skip(1) =~= s@.drop_first());
        match read_from(&chars, 1, 0x8000_0000) {
            Ok(v) => Ok((-(v as i64)) as i32),
            Err(IntError::PosOverflow) => Err(IntError::NegOverflow),
            Err(e) => Err(e),
        }
    } else if chars[0] == '+' {
        assert(chars@.skip(1) =~= s@.drop_first());
        match read_from(&chars, 1, 0x7fff_ffff) {
            Ok(v) => Ok(v as i32),
            Err(e) => Err(e),
        }
    } else {
        assert(chars@.skip(0) =~= s@);
        match read_from(&chars, 0, 0x7fff_ffff) {
            Ok(v) => Ok(v as i32),
            Err(e) => Err(e),
        }
    }
}

/// A number in decimal digits, without leading zeros.
pub open spec fn decimal(n: nat) -> Seq<char>
    decreases n,
{
    if n < 10 {
        seq![digit_char(n)]
    } else {
        decimal(n / 10).push(digit_char(n % 10))
    }
}

/// The digit of a value below sixteen.
pub open spec fn digit_char(d: nat) -> char {
    if d < 10 {
        ((48 + d) as u8) as char
    } else {
        ((87 + d) as u8) as char
    }
}

/// A number in lowercase hexadecimal digits, without leading zeros.
pub open spec fn hexadecimal(n: nat) -> Seq<char>
    decreases n,
{
    if n < 16 {
        seq![digit_char(n)]
    } else {
        hexadecimal(n / 16).push(digit_char(n % 16))
    }
}

fn char_of_digit(d: u8) -> (r: char)
    requires
        d < 16,
    ensures
        r == digit_char(d as nat),
{
    if d < 10 {
        (48 + d) as char
    } else {
        (87 + d) as char
    }
}

/// Appends a number in decimal digits.
pub fn push_decimal(out: &mut String, n: u64)
    ensures
        final(out)@ == old(out)@ + decimal(n as nat),
    decreases n,
{
    if n < 10 {
        out.push(char_of_digit(n as u8));
    } else {
        push_decimal(out, n / 10);
        out.push(char_of_digit((n % 10) as u8));
    }
    assert(out@ =~= old(out)@ + decimal(n as nat));
}

/// Appends a number in hexadecimal digits.
pub fn push_hexadecimal(out: &mut String, n: u128)
    ensures
        final(out)@ == old(out)@ + hexadecimal(n as nat),
    decreases n,
{
    if n < 16 {
        out.push(char_of_digit(n as u8));
    } else {
        push_hexadecimal(out, n / 16);
        out.push(char_of_digit((n % 16) as u8));
    }
    assert(out@ =~= old(out)@ + hexadecimal(n as nat));
}

/// Reading back a number that was written gives the number.
pub proof fn law_decimal_round_trip(n: nat, max: nat)
    requires
        n <= max,
    ensures
        parsed(decimal(n), max) == Ok::<nat, IntError>(n),
{
    lemma_decimal(n);
    law_parsed(decimal(n), max);
    assert(is_digit(decimal(n)[0]));
}

proof fn lemma_decimal(n: nat)
    ensures
        decimal(n).len() > 0,
        all_digits(decimal(n)),
        decimal_value(decimal(n)) == n,
    decreases n,
{
    if n < 10 {
        assert(decimal(n).drop_last() =~= Seq::<char>::empty());
        assert(decimal_value(Seq::<char>::empty()) == 0);
    } else {
        lemma_decimal(n / 10);
        assert(decimal(n).drop_last() =~= decimal(n / 10));
        assert forall|i: int| 0 <= i < decimal(n).len() implies is_digit(
            #[trigger] decimal(n)[i],
        ) by {
            if i < decimal(n).len() - 1 {
                assert(decimal(n)[i] == decimal(n / 10)[i]);
            }
        }
    }
}

/// White space is what Unicode calls so: of the ASCII characters the blank and
/// those from tab to carriage return, and a few others.
pub proof fn law_white_space(c: char)
    ensures
        c as int <= 0x7f ==> (is_space(c) <==> c == ' ' || '\t' <= c <= '\r'),
        c as int > 0x7f ==> (is_space(c) <==> c == '\u{85}' || c == '\u{a0}' || c == '\u{1680}'
            || '\u{2000}' <= c <= '\u{200a}' || c == '\u{2028}' || c == '\u{2029}' || c
            == '\u{202f}' || c == '\u{205f}' || c == '\u{3000}'),
{
}

proof fn lemma_trimmed_start(s: Seq<char>) -> (a: int)
    ensures
        0 <= a <= s.len(),
        trimmed_start(s) == s.skip(a),
        forall|k: int| 0 <= k < a ==> is_space(#[trigger] s[k]),
        a < s.len() ==> !is_space(s[a]),
    decreases s.len(),
{
    if s.len() > 0 && is_space(s[0]) {
        let rest: Seq<char> = s.drop_first();
        let a: int = lemma_trimmed_start(rest);
        assert(s.skip(a + 1) =~= rest.skip(a));
        assert forall|k: int| 0 <= k < a + 1 implies is_space(#[trigger] s[k]) by {
            if k > 0 {
                assert(s[k] == rest[k - 1]);
            }
        }
        a + 1
    } else {
        assert(s.skip(0) =~= s);
        0
    }
}

proof fn lemma_trimmed_end(s: Seq<char>) -> (b: int)
    ensures
        0 <= b <= s.len(),
        trimmed_end(s) == s.take(b),
        forall|k: int| b <= k < s.len() ==> is_space(#[trigger] s[k]),
        b > 0 ==> !is_space(s[b - 1]),
    decreases s.len(),
{
    if s.len() > 0 && is_space(s.last()) {
        let rest: Seq<char> = s.drop_last();
        let b: int = lemma_trimmed_end(rest);
        assert(s.take(b) =~= rest.take(b));
        assert forall|k: int| b <= k < s.len() implies is_space(#[trigger] s[k]) by {
            if k < rest.len() {
                assert(s[k] == rest[k]);
            }
        }
        b
    } else {
        assert(s.take(s.len() as int) =~= s);
        s.len() as int
    }
}

/// Trimming takes away the white space at either end and nothing else: what is
/// left is one stretch of the text, outside of it there is nothing but white
/// space, and it neither begins nor ends with any.
pub proof fn law_trimming_takes_white_space_only(s: Seq<char>) -> (r: (int, int))
    ensures
        0 <= r.0 <= r.1 <= s.len(),
        trimmed(s) == s.subrange(r.0, r.1),
        forall|k: int| 0 <= k < s.len() && (k < r.0 || r.1 <= k) ==> is_space(#[trigger] s[k]),
        r.0 < r.1 ==> !is_space(s[r.0]) && !is_space(s[r.1 - 1]),
{
    let a: int = lemma_trimmed_start(s);
    let rest: Seq<char> = s.skip(a);
    let b: int = lemma_trimmed_end(rest);
    assert(rest.take(b) =~= s.subrange(a, a + b));
    assert forall|k: int| 0 <= k < s.len() && (k < a || a + b <= k) implies is_space(
        #[trigger] s[k],
    ) by {
        if k >= a {
            assert(s[k] == rest[k - a]);
        }
    }
    if b > 0 {
        assert(rest[b - 1] == s[a + b - 1]);
    }
    (a, a + b)
}

/// A text that neither begins nor ends with white space stays as it is.
pub proof fn law_trimmed_text_stays(s: Seq<char>)
    requires
        s.len() > 0 ==> !is_space(s[0]) && !is_space(s.last()),
    ensures
        trimmed(s) == s,
{
}

/// A text without the separator is one piece: itself.
pub proof fn law_text_without_separator_is_one_piece(s: Seq<char>, sep: char)
    requires
        !s.contains(sep),
    ensures
        pieces(s, sep) == seq![s],
    decreases s.len(),
{
    if s.len() == 0 {
        assert(s =~= Seq::<char>::empty());
    } else {
        let rest: Seq<char> = s.drop_last();
        assert(!rest.contains(sep)) by {
            assert forall|k: int| 0 <= k < rest.len() implies rest[k] != sep by {
                assert(s.contains(s[k]));
            }
        }
        law_text_without_separator_is_one_piece(rest, sep);
        assert(s.contains(s[s.len() - 1]));
        assert(rest.push(s.last()) =~= s);
        assert(pieces(s, sep) =~= seq![s]);
    }
}

/// No piece holds the separator.
pub proof fn law_pieces_hold_no_separator(s: Seq<char>, sep: char)
    ensures
        forall|i: int|
            0 <= i < pieces(s, sep).len() ==> !(#[trigger] pieces(s, sep)[i]).contains(sep),
    decreases s.len(),
{
    lemma_pieces_len(s, sep);
    if s.len() > 0 {
        let before: Seq<Seq<char>> = pieces(s.drop_last(), sep);
        law_pieces_hold_no_separator(s.drop_last(), sep);
        lemma_pieces_len(s.drop_last(), sep);
        assert forall|i: int| 0 <= i < pieces(s, sep).len() implies !(#[trigger] pieces(
            s,
            sep,
        )[i]).contains(sep) by {
            if i < before.len() - 1 {
                assert(pieces(s, sep)[i] == before[i]);
            } else if s.last() != sep {
                let p: Seq<char> = before.last();
                assert(!before[before.len() - 1].contains(sep));
                assert forall|k: int| 0 <= k < p.push(s.last()).len() implies p.push(s.last())[k]
                    != sep by {
                    if k < p.len() {
                        assert(p.contains(p[k]));
                    }
                }
            } else if i == before.len() - 1 {
                assert(pieces(s, sep)[i] == before[i]);
            }
        }
    }
}

/// Reading a number goes digit by digit: a digit behind a number makes it ten
/// times as large and adds its own value, unless that is more than `max`;
/// anything else behind it is no digit. What could not be read cannot be read
/// with more behind it. A plus sign before the digits changes nothing.
pub proof fn law_number_is_read_digit_by_digit(s: Seq<char>, c: char, max: nat)
    ensures
        s.len() == 0 ==> parsed(s, max) == Err::<nat, IntError>(IntError::Empty),
        s.len() == 0 ==> parsed(seq![c], max) == (if !('0' <= c <= '9') {
            Err::<nat, IntError>(IntError::InvalidDigit)
        } else if c as int - 48 > max {
            Err(IntError::PosOverflow)
        } else {
            Ok((c as int - 48) as nat)
        }),
        parsed(s, max) matches Ok(v) ==> parsed(s.push(c), max) == (if !('0' <= c <= '9') {
            Err::<nat, IntError>(IntError::InvalidDigit)
        } else if 10 * v + (c as int - 48) > max {
            Err(IntError::PosOverflow)
        } else {
            Ok((10 * v + (c as int - 48)) as nat)
        }),
        s.len() > 1 || (s.len() == 1 && s[0] != '+') ==> (parsed(s, max) matches Err(e)
            ==> parsed(s.push(c), max) == Err::<nat, IntError>(
            if s.len() == 1 && s[0] == '-' {
                IntError::InvalidDigit
            } else {
                e
            },
        )),
        s.len() > 0 && s[0] != '+' && s[0] != '-' ==> parsed(seq!['+'] + s, max) == parsed(s, max),
{
    reveal_with_fuel(read_digits, 3);
    assert(s.push(c).drop_last() =~= s);
    assert(seq![c].drop_last() =~= Seq::<char>::empty());
    if s.len() == 0 {
        assert(without_plus(seq![c]) =~= seq![c] || c == '+');
    } else {
        if s[0] == '+' {
            assert(s.push(c).drop_first() =~= s.drop_first().push(c));
            assert(s.drop_first().push(c).drop_last() =~= s.drop_first());
        } else {
            assert((seq!['+'] + s).drop_first() =~= s);
        }
        if s.len() == 1 {
            assert(s.drop_last() =~= Seq::<char>::empty());
            if s[0] == '+' {
                assert(s.drop_first() =~= Seq::<char>::empty());
            }
        }
    }
}

/// The signed numbers: with a minus sign the negative of what is behind it, down
/// to the least number of 32 bits; else the number itself, up to the largest.
pub proof fn law_signed_numbers(s: Seq<char>)
    ensures
        s.len() == 0 || s[0] != '-' ==> parsed_i32(s) == (match parsed(s, i32::MAX as nat) {
            Ok(v) => Ok::<int, IntError>(v as int),
            Err(e) => Err(e),
        }),
        s.len() > 0 && s[0] != '+' && s[0] != '-' ==> parsed_i32(seq!['-'] + s) == (match parsed(
            s,
            -i32::MIN as nat,
        ) {
            Ok(v) => Ok::<int, IntError>(-(v as int)),
            Err(IntError::PosOverflow) => Err(IntError::NegOverflow),
            Err(e) => Err(e),
        }),
        s.len() == 1 && s[0] == '-' ==> parsed_i32(s) == Err::<int, IntError>(
            IntError::InvalidDigit,
        ),
{
    assert((seq!['-'] + s).drop_first() =~= s);
}

/// A written number is digits alone, and the first is no zero unless it is the
/// only one.
pub proof fn law_written_number_is_plain(n: nat)
    ensures
        decimal(n).len() > 0,
        forall|i: int| 0 <= i < decimal(n).len() ==> '0' <= #[trigger] decimal(n)[i] <= '9',
        decimal(n)[0] == '0' ==> n == 0 && decimal(n).len() == 1,
    decreases n,
{
    if n >= 10 {
        law_written_number_is_plain(n / 10);
        assert forall|i: int| 0 <= i < decimal(n).len() implies '0' <= #[trigger] decimal(n)[i]
            <= '9' by {
            if i < decimal(n).len() - 1 {
                assert(decimal(n)[i] == decimal(n / 10)[i]);
            }
        }
        assert(decimal(n)[0] == decimal(n / 10)[0]);
    }
}

/// Different numbers are written differently.
pub proof fn law_written_numbers_differ(m: nat, n: nat)
    requires
        decimal(m) == decimal(n),
    ensures
        m == n,
{
    lemma_decimal(m);
    lemma_decimal(n);
}

/// The last hexadecimal digit is that of the remainder by sixteen, and those
/// before it are the digits of the rest.
pub proof fn law_hexadecimal_digits(n: nat)
    ensures
        hexadecimal(n).last() as int == if n % 16 < 10 {
            48 + n % 16
        } else {
            87 + n % 16
        },
        n < 16 ==> hexadecimal(n).len() == 1,
        n >= 16 ==> hexadecimal(n).drop_last() == hexadecimal(n / 16),
{
    if n >= 16 {
        assert(hexadecimal(n).drop_last() =~= hexadecimal(n / 16));
    }
}

/// Two texts are the same but for the case of ASCII letters exactly when they
/// are as long and, place by place, hold the same character, or a letter from A
/// to Z and the same letter from a to z.
pub proof fn law_letter_case(a: Seq<char>, b: Seq<char>)
    ensures
        same_ignoring_case(a, b) <==> a.len() == b.len() && forall|i: int|
            0 <= i < a.len() ==> #[trigger] a[i] == b[i] || ('A' <= a[i] <= 'Z' && b[i] as int
                == a[i] as int + 32) || ('A' <= b[i] <= 'Z' && a[i] as int == b[i] as int + 32),
{
    if same_ignoring_case(a, b) {
        assert forall|i: int| 0 <= i < a.len() implies #[trigger] a[i] == b[i] || ('A' <= a[i]
            <= 'Z' && b[i] as int == a[i] as int + 32) || ('A' <= b[i] <= 'Z' && a[i] as int
            == b[i] as int + 32) by {
            assert(ascii_lower(a[i]) == ascii_lower(b[i]));
        }
    }
}

/// Upper case moves the letters from a to z, each to its own, and no other
/// character.
pub proof fn law_upper_case(c: char)
    ensures
        'a' <= c <= 'z' ==> ascii_upper(c) as int == c as int - 32,
        !('a' <= c <= 'z') ==> ascii_upper(c) == c,
{
}

/// A text holds another exactly when it is that text with something, or nothing,
/// before and behind it; it begins or ends with it where nothing is before or
/// behind.
pub proof fn law_holding_a_text(before: Seq<char>, needle: Seq<char>, behind: Seq<char>)
    ensures
        contains_text(before + needle + behind, needle),
        has_prefix(needle + behind, needle),
        has_suffix(before + needle, needle),
{
    let s: Seq<char> = before + needle + behind;
    assert(s.subrange(before.len() as int, (before.len() + needle.len()) as int) =~= needle);
    assert(occurs_at(s, needle, before.len() as int));
    assert((needle + behind).subrange(0, needle.len() as int) =~= needle);
    assert((before + needle).subrange(before.len() as int, (before.len() + needle.len()) as int)
        =~= needle);
}

/// A text that holds another can be taken apart at it.
pub proof fn law_held_text_is_there(s: Seq<char>, needle: Seq<char>) -> (at: int)
    requires
        contains_text(s, needle),
    ensures
        0 <= at <= s.len() - needle.len(),
        s == s.take(at) + needle + s.skip(at + needle.len()),
{
    let at: int = choose|at: int| occurs_at(s, needle, at);
    assert forall|k: int| at <= k < at + needle.len() implies s[k] == needle[k - at] by {
        assert(s.subrange(at, at + needle.len())[k - at] == s[k]);
    }
    assert(s =~= s.take(at) + needle + s.skip(at + needle.len()));
    at
}

/// A text begins or ends with another only where its first or last characters
/// are that text.
pub proof fn law_prefix_and_suffix(s: Seq<char>, t: Seq<char>)
    ensures
        has_prefix(s, t) ==> t.len() <= s.len() && s.take(t.len() as int) == t,
        has_suffix(s, t) ==> t.len() <= s.len() && s.skip(s.len() - t.len()) == t,
{
    if has_prefix(s, t) {
        assert(s.take(t.len() as int) =~= s.subrange(0, t.len() as int));
    }
    if has_suffix(s, t) {
        assert(s.skip(s.len() - t.len()) =~= s.subrange(s.len() - t.len(), s.len() as int));
    }
}

/// Replacing a character changes it wherever it stands, and nothing else.
pub proof fn law_replacing(s: Seq<char>, from: char, to: char, i: int)
    requires
        0 <= i < s.len(),
    ensures
        replaced(s, from, to).len() == s.len(),
        s[i] == from ==> replaced(s, from, to)[i] == to,
        s[i] != from ==> replaced(s, from, to)[i] == s[i],
{
}

/// The view of an optional text is that of the text, and there is one exactly
/// where there is a text; the views of some texts are theirs, one by one.
pub proof fn law_views(o: Option<&str>, v: Seq<&str>, i: int)
    ensures
        o is None <==> opt_view(o) is None,
        o matches Some(s) ==> opt_view(o) == Some(s@),
        views(v).len() == v.len(),
        0 <= i < v.len() ==> views(v)[i] == v[i]@,
{
}

/// What is said of a text that is no number.
pub proof fn law_words_of_bad_numbers()
    ensures
        IntError::Empty.words() == "cannot parse integer from empty string"@,
        IntError::InvalidDigit.words() == "invalid digit found in string"@,
        IntError::PosOverflow.words() == "number too large to fit in target type"@,
        IntError::NegOverflow.words() == "number too small to fit in target type"@,
{
}

} // verus!
