//! Character-level text operations: scanning, splitting, trimming and
//! decimal numbers, each specified over `Seq<char>`.

use vstd::prelude::*;

verus! {

// White space and scanning

/// White space in the sense of Unicode's `White_Space` property.
pub open spec fn is_space(c: char) -> bool {
    let u = c as u32;
    ||| 0x09 <= u <= 0x0d
    ||| u == 0x20
    ||| u == 0x85
    ||| u == 0xa0
    ||| u == 0x1680
    ||| 0x2000 <= u <= 0x200a
    ||| u == 0x2028
    ||| u == 0x2029
    ||| u == 0x202f
    ||| u == 0x205f
    ||| u == 0x3000
}

/// Tells whether `c` is white space.
pub fn space(c: char) -> (b: bool)
    ensures
        b == is_space(c),
{
    let u: u32 = c as u32;
    (0x09 <= u && u <= 0x0d) || u == 0x20 || u == 0x85 || u == 0xa0 || u == 0x1680 || (0x2000 <= u
        && u <= 0x200a) || u == 0x2028 || u == 0x2029 || u == 0x202f || u == 0x205f || u == 0x3000
}

/// True when every character of `s` is white space.
pub open spec fn is_blank(s: Seq<char>) -> bool {
    forall|i: int| 0 <= i < s.len() ==> is_space(#[trigger] s[i])
}

/// Tells whether every character of `s[from..to]` is white space.
pub fn blank(s: &Vec<char>, from: usize, to: usize) -> (b: bool)
    requires
        from <= to <= s.len(),
    ensures
        b == is_blank(s@.subrange(from as int, to as int)),
{
    let ghost text = s@.subrange(from as int, to as int);
    let mut i: usize = from;
    while i < to
        invariant
            from <= i <= to <= s.len(),
            text == s@.subrange(from as int, to as int),
            forall|j: int| 0 <= j < i - from ==> is_space(#[trigger] text[j]),
        decreases to - i,
    {
        if !space(s[i]) {
            assert(!is_space(text[i - from]));
            return false;
        }
        i += 1;
    }
    true
}

/// The index of the first `c` in `s` at or after `from`, or `s.len()` if there is none.
pub open spec fn find(s: Seq<char>, c: char, from: int) -> int
    decreases s.len() - from,
{
    if from >= s.len() {
        s.len() as int
    } else if s[from] == c {
        from
    } else {
        find(s, c, from + 1)
    }
}

/// The index of the first `c` in `s` at or after `from`, or `s.len()`.
pub fn find_char(s: &Vec<char>, c: char, from: usize) -> (i: usize)
    requires
        from <= s.len(),
    ensures
        i == find(s@, c, from as int),
        from <= i <= s.len(),
{
    let mut i: usize = from;
    while i < s.len() && s[i] != c
        invariant
            from <= i <= s.len(),
            find(s@, c, from as int) == find(s@, c, i as int),
        decreases s.len() - i,
    {
        i += 1;
    }
    i
}

/// Where `c` does not occur from `from` on, `find` gives the length.
pub proof fn lemma_find_absent(s: Seq<char>, c: char, from: int)
    requires
        0 <= from <= s.len(),
        forall|i: int| from <= i < s.len() ==> s[i] != c,
    ensures
        find(s, c, from) == s.len(),
    decreases s.len() - from,
{
    if from < s.len() {
        lemma_find_absent(s, c, from + 1);
    }
}

/// The index of the first character at or after `from` that is not white
/// space, or `s.len()` if there is none.
pub open spec fn skip_spaces(s: Seq<char>, from: int) -> int
    decreases s.len() - from,
{
    if from >= s.len() {
        s.len() as int
    } else if !is_space(s[from]) {
        from
    } else {
        skip_spaces(s, from + 1)
    }
}

/// The index of the first character at or after `from` that is not white space.
pub fn after_spaces(s: &Vec<char>, from: usize) -> (i: usize)
    requires
        from <= s.len(),
    ensures
        i == skip_spaces(s@, from as int),
        from <= i <= s.len(),
{
    let mut i: usize = from;
    while i < s.len() && space(s[i])
        invariant
            from <= i <= s.len(),
            skip_spaces(s@, from as int) == skip_spaces(s@, i as int),
        decreases s.len() - i,
    {
        i += 1;
    }
    i
}

/// The index of the first white space at or after `from`, or `s.len()` if
/// there is none.
pub open spec fn skip_word(s: Seq<char>, from: int) -> int
    decreases s.len() - from,
{
    if from >= s.len() {
        s.len() as int
    } else if is_space(s[from]) {
        from
    } else {
        skip_word(s, from + 1)
    }
}

/// The index of the first white space at or after `from`.
pub fn after_word(s: &Vec<char>, from: usize) -> (i: usize)
    requires
        from <= s.len(),
    ensures
        i == skip_word(s@, from as int),
        from <= i <= s.len(),
{
    let mut i: usize = from;
    while i < s.len() && !space(s[i])
        invariant
            from <= i <= s.len(),
            skip_word(s@, from as int) == skip_word(s@, i as int),
        decreases s.len() - i,
    {
        i += 1;
    }
    i
}

// Pieces and words

/// True when `bounds` cuts `s` into exactly the pieces `parts`.
pub open spec fn cuts(s: Seq<char>, bounds: Seq<(usize, usize)>, parts: Seq<Seq<char>>) -> bool {
    &&& bounds.len() == parts.len()
    &&& forall|k: int|
        0 <= k < bounds.len() ==> {
            &&& (#[trigger] bounds[k]).0 <= bounds[k].1 <= s.len()
            &&& s.subrange(bounds[k].0 as int, bounds[k].1 as int) == parts[k]
        }
}

/// The pieces of `s` from `from` on that lie between occurrences of `sep`.
/// A text without `sep` is one piece; `n` separators give `n + 1` pieces,
/// empty ones included.
pub open spec fn split_from(s: Seq<char>, sep: char, from: int) -> Seq<Seq<char>>
    decreases s.len() - from,
{
    let end = find(s, sep, from);
    if from <= end < s.len() {
        seq![s.subrange(from, end)] + split_from(s, sep, end + 1)
    } else {
        seq![s.subrange(from, s.len() as int)]
    }
}

/// The pieces of `s` between occurrences of `sep`.
pub open spec fn split(s: Seq<char>, sep: char) -> Seq<Seq<char>> {
    split_from(s, sep, 0)
}

/// Where the pieces of `split(s, sep)` begin and end.
pub fn split_bounds(s: &Vec<char>, sep: char) -> (bounds: Vec<(usize, usize)>)
    ensures
        cuts(s@, bounds@, split(s@, sep)),
        bounds.len() >= 1,
{
    let mut bounds: Vec<(usize, usize)> = Vec::new();
    let mut start: usize = 0;
    let ghost mut done: Seq<Seq<char>> = Seq::empty();
    loop
        invariant_except_break
            split(s@, sep) == done + split_from(s@, sep, start as int),
        invariant
            start <= s.len(),
            cuts(s@, bounds@, done),
        ensures
            cuts(s@, bounds@, split(s@, sep)),
            bounds.len() >= 1,
        decreases s.len() - start,
    {
        let end = find_char(s, sep, start);
        bounds.push((start, end));
        proof {
            done = done.push(s@.subrange(start as int, end as int));
        }
        if end < s.len() {
            assert(split(s@, sep) == done + split_from(s@, sep, end + 1)) by {
                assert(seq![s@.subrange(start as int, end as int)] + split_from(
                    s@,
                    sep,
                    end + 1,
                ) == split_from(s@, sep, start as int));
            }
            start = end + 1;
        } else {
            break ;
        }
    }
    bounds
}

/// The maximal runs of characters other than white space in `s` from `from` on.
pub open spec fn words_from(s: Seq<char>, from: int) -> Seq<Seq<char>>
    decreases s.len() - from,
{
    let start = skip_spaces(s, from);
    let end = skip_word(s, start);
    if from <= start < end <= s.len() {
        seq![s.subrange(start, end)] + words_from(s, end)
    } else {
        Seq::empty()
    }
}

/// The words of `s`: its maximal runs of characters other than white space.
pub open spec fn words(s: Seq<char>) -> Seq<Seq<char>> {
    words_from(s, 0)
}

/// Where the words of `s` begin and end.
pub fn word_bounds(s: &Vec<char>) -> (bounds: Vec<(usize, usize)>)
    ensures
        cuts(s@, bounds@, words(s@)),
{
    let mut bounds: Vec<(usize, usize)> = Vec::new();
    let mut from: usize = 0;
    let ghost mut done: Seq<Seq<char>> = Seq::empty();
    loop
        invariant
            from <= s.len(),
            cuts(s@, bounds@, done),
            words(s@) == done + words_from(s@, from as int),
        ensures
            cuts(s@, bounds@, words(s@)),
        decreases s.len() - from,
    {
        let start = after_spaces(s, from);
        let end = after_word(s, start);
        if start < end {
            bounds.push((start, end));
            proof {
                done = done.push(s@.subrange(start as int, end as int));
                assert(seq![s@.subrange(start as int, end as int)] + words_from(s@, end as int)
                    == words_from(s@, from as int));
            }
            from = end;
        } else {
            break ;
        }
    }
    bounds
}

// Trimming

/// `s` without its leading white space.
pub open spec fn trim_start(s: Seq<char>) -> Seq<char> {
    s.subrange(skip_spaces(s, 0), s.len() as int)
}

/// The length of `s` without its trailing white space.
pub open spec fn trimmed_len(s: Seq<char>) -> int
    decreases s.len(),
{
    if s.len() > 0 && is_space(s.last()) {
        trimmed_len(s.drop_last())
    } else {
        s.len() as int
    }
}

/// `s` without its leading and trailing white space.
pub open spec fn trim(s: Seq<char>) -> Seq<char> {
    let t = trim_start(s);
    t.subrange(0, trimmed_len(t))
}

/// Where `s[from..to]` without its leading and trailing white space begins
/// and ends.
pub fn trim_bounds(s: &Vec<char>, from: usize, to: usize) -> (b: (usize, usize))
    requires
        from <= to <= s.len(),
    ensures
        from <= b.0 <= b.1 <= to,
        s@.subrange(b.0 as int, b.1 as int) == trim(s@.subrange(from as int, to as int)),
{
    let ghost text = s@.subrange(from as int, to as int);
    let mut a: usize = from;
    while a < to && space(s[a])
        invariant
            from <= a <= to <= s.len(),
            text == s@.subrange(from as int, to as int),
            skip_spaces(text, 0) == skip_spaces(text, a - from),
        decreases to - a,
    {
        a += 1;
    }
    let ghost t = trim_start(text);
    assert(t.take(to - a) == t);
    let mut b: usize = to;
    while b > a && space(s[b - 1])
        invariant
            a <= b <= to <= s.len(),
            t == s@.subrange(a as int, to as int),
            trimmed_len(t) == trimmed_len(t.take(b - a)),
        decreases b,
    {
        assert(t.take(b - a).drop_last() == t.take(b - 1 - a));
        b -= 1;
    }
    (a, b)
}

// Case

/// The code of `c` with the upper-case ASCII letters mapped to lower case.
pub open spec fn fold_case(c: char) -> u32 {
    if 'A' <= c <= 'Z' {
        (c as u32 + 32) as u32
    } else {
        c as u32
    }
}

/// The code of `c` with the upper-case ASCII letters mapped to lower case.
pub fn folded(c: char) -> (u: u32)
    ensures
        u == fold_case(c),
{
    if 'A' <= c && c <= 'Z' {
        c as u32 + 32
    } else {
        c as u32
    }
}

/// True when `a` and `b` are equal up to the case of ASCII letters.
pub open spec fn same_ignoring_case(a: Seq<char>, b: Seq<char>) -> bool {
    &&& a.len() == b.len()
    &&& forall|i: int| 0 <= i < a.len() ==> fold_case(#[trigger] a[i]) == fold_case(b[i])
}

/// Tells whether `s[from..to]` equals `pattern` up to the case of ASCII letters.
pub fn matches_ignoring_case(s: &Vec<char>, from: usize, to: usize, pattern: &Vec<char>) -> (b:
    bool)
    requires
        from <= to <= s.len(),
    ensures
        b == same_ignoring_case(s@.subrange(from as int, to as int), pattern@),
{
    let ghost text = s@.subrange(from as int, to as int);
    if to - from != pattern.len() {
        return false;
    }
    let mut i: usize = 0;
    while i < pattern.len()
        invariant
            from <= to <= s.len(),
            to - from == pattern.len(),
            i <= pattern.len(),
            text == s@.subrange(from as int, to as int),
            forall|j: int| 0 <= j < i ==> fold_case(#[trigger] text[j]) == fold_case(pattern@[j]),
        decreases pattern.len() - i,
    {
        if folded(s[from + i]) != folded(pattern[i]) {
            assert(fold_case(text[i as int]) != fold_case(pattern@[i as int]));
            return false;
        }
        i += 1;
    }
    true
}

/// `c` with the lower-case ASCII letters mapped to upper case.
pub open spec fn upper_char(c: char) -> char {
    if 'a' <= c <= 'z' {
        ((c as u32 - 32) as u8) as char
    } else {
        c
    }
}

/// `c` with the lower-case ASCII letters mapped to upper case.
pub fn upper(c: char) -> (u: char)
    ensures
        u == upper_char(c),
{
    if 'a' <= c && c <= 'z' {
        ((c as u32 - 32) as u8) as char
    } else {
        c
    }
}

/// `s` with its lower-case ASCII letters mapped to upper case.
pub open spec fn to_upper(s: Seq<char>) -> Seq<char> {
    Seq::new(s.len(), |i: int| upper_char(s[i]))
}

/// The text `chars[from..to]` with its ASCII letters in upper case.
pub fn upper_text(chars: &Vec<char>, from: usize, to: usize) -> (s: String)
    requires
        from <= to <= chars.len(),
    ensures
        s@ == to_upper(chars@.subrange(from as int, to as int)),
{
    let mut s = String::new();
    let mut i: usize = from;
    while i < to
        invariant
            from <= i <= to <= chars.len(),
            s@ == to_upper(chars@.subrange(from as int, i as int)),
        decreases to - i,
    {
        push_char(&mut s, upper(chars[i]));
        assert(to_upper(chars@.subrange(from as int, i as int)).push(upper_char(chars@[i as int]))
            =~= to_upper(chars@.subrange(from as int, i + 1)));
        i += 1;
    }
    s
}

// Decimal numbers

/// The decimal digit for `d`, for `d` below ten.
pub open spec fn digit_char(d: nat) -> char {
    if d == 0 {
        '0'
    } else if d == 1 {
        '1'
    } else if d == 2 {
        '2'
    } else if d == 3 {
        '3'
    } else if d == 4 {
        '4'
    } else if d == 5 {
        '5'
    } else if d == 6 {
        '6'
    } else if d == 7 {
        '7'
    } else if d == 8 {
        '8'
    } else {
        '9'
    }
}

/// The decimal digit for `d`.
pub fn digit(d: u64) -> (c: char)
    requires
        d < 10,
    ensures
        c == digit_char(d as nat),
{
    if d == 0 {
        '0'
    } else if d == 1 {
        '1'
    } else if d == 2 {
        '2'
    } else if d == 3 {
        '3'
    } else if d == 4 {
        '4'
    } else if d == 5 {
        '5'
    } else if d == 6 {
        '6'
    } else if d == 7 {
        '7'
    } else if d == 8 {
        '8'
    } else {
        '9'
    }
}

/// `n` written in decimal, without sign or leading zeros.
pub open spec fn decimal(n: nat) -> Seq<char>
    decreases n,
{
    if n < 10 {
        seq![digit_char(n)]
    } else {
        decimal(n / 10).push(digit_char(n % 10))
    }
}

/// `n` written in decimal.
pub fn decimal_text(n: u64) -> (s: String)
    ensures
        s@ == decimal(n as nat),
{
    let mut low: Vec<char> = Vec::new();
    let mut m: u64 = n;
    while m >= 10
        invariant
            decimal(n as nat) == decimal(m as nat) + Seq::new(
                low@.len(),
                |i: int| low@[low@.len() - 1 - i],
            ),
        decreases m,
    {
        let ghost before = low@;
        low.push(digit(m % 10));
        proof {
            let after = low@;
            assert(decimal((m / 10) as nat).push(digit_char((m % 10) as nat)) + Seq::new(
                before.len(),
                |i: int| before[before.len() - 1 - i],
            ) =~= decimal((m / 10) as nat) + Seq::new(
                after.len(),
                |i: int| after[after.len() - 1 - i],
            ));
        }
        m = m / 10;
    }
    let mut s = String::new();
    push_char(&mut s, digit(m));
    let mut k: usize = low.len();
    while k > 0
        invariant
            k <= low.len(),
            s@ == decimal(m as nat) + Seq::new(
                (low@.len() - k) as nat,
                |i: int| low@[low@.len() - 1 - i],
            ),
        decreases k,
    {
        k -= 1;
        push_char(&mut s, low[k]);
    }
    s
}

/// True for the ten decimal digits.
pub open spec fn is_digit(c: char) -> bool {
    '0' <= c <= '9'
}

/// The value of a decimal digit.
pub open spec fn digit_value(c: char) -> nat {
    (c as u32 - '0' as u32) as nat
}

/// True when `s` consists of decimal digits only.
pub open spec fn all_digits(s: Seq<char>) -> bool {
    forall|i: int| 0 <= i < s.len() ==> is_digit(#[trigger] s[i])
}

/// The number that the digits of `s` write in decimal; zero for the empty text.
pub open spec fn digits_value(s: Seq<char>) -> nat
    decreases s.len(),
{
    if s.len() == 0 {
        0
    } else {
        digits_value(s.drop_last()) * 10 + digit_value(s.last())
    }
}

/// The digits of an unsigned decimal numeral: `s` without one leading `+`.
pub open spec fn numeral_digits(s: Seq<char>) -> Seq<char> {
    if s.len() > 0 && s[0] == '+' {
        s.subrange(1, s.len() as int)
    } else {
        s
    }
}

/// The number that `s` writes: an optional `+` and then one or more decimal
/// digits, nothing else. `None` for any other text.
pub open spec fn unsigned_value(s: Seq<char>) -> Option<nat> {
    let d = numeral_digits(s);
    if d.len() > 0 && all_digits(d) {
        Some(digits_value(d))
    } else {
        None
    }
}

/// The number that `s[from..to]` writes, where it is an unsigned decimal
/// numeral whose value fits the machine word.
pub fn parse_unsigned(s: &Vec<char>, from: usize, to: usize) -> (r: Option<usize>)
    requires
        from <= to <= s.len(),
    ensures
        r == match unsigned_value(s@.subrange(from as int, to as int)) {
            Some(v) => if v <= usize::MAX {
                Some(v as usize)
            } else {
                None
            },
            None => None,
        },
{
    let ghost text = s@.subrange(from as int, to as int);
    let start: usize = if from < to && s[from] == '+' {
        from + 1
    } else {
        from
    };
    let ghost d = numeral_digits(text);
    if start == to {
        return None;
    }
    let mut value: usize = 0;
    let mut i: usize = start;
    while i < to
        invariant
            from <= start <= i <= to <= s.len(),
            start < to,
            d == s@.subrange(start as int, to as int),
            d == numeral_digits(s@.subrange(from as int, to as int)),
            all_digits(d.take(i - start)),
            value == digits_value(d.take(i - start)),
        decreases to - i,
    {
        let c = s[i];
        if !('0' <= c && c <= '9') {
            assert(!is_digit(d[i - start]));
            return None;
        }
        let v: usize = (c as u32 - '0' as u32) as usize;
        proof {
            assert(d.take(i + 1 - start).drop_last() == d.take(i - start));
            assert forall|j: int| 0 <= j < d.take(i + 1 - start).len() implies is_digit(
                #[trigger] d.take(i + 1 - start)[j],
            ) by {}
        }
        let next = match value.checked_mul(10) {
            Some(tens) => tens.checked_add(v),
            None => None,
        };
        match next {
            Some(n) => {
                value = n;
            },
            None => {
                proof {
                    if all_digits(d) {
                        lemma_digits_value_grows(d, i + 1 - start);
                    }
                }
                return None;
            },
        }
        i += 1;
    }
    assert(d.take(i - start) == d);
    Some(value)
}

/// A prefix of a numeral never writes a larger number than the numeral.
pub proof fn lemma_digits_value_grows(s: Seq<char>, k: int)
    requires
        0 <= k <= s.len(),
    ensures
        digits_value(s.take(k)) <= digits_value(s),
    decreases s.len() - k,
{
    if k == s.len() {
        assert(s.take(k) == s);
    } else {
        lemma_digits_value_grows(s, k + 1);
        assert(s.take(k + 1).drop_last() == s.take(k));
    }
}

/// A number written in decimal reads back as itself.
pub proof fn lemma_decimal_reads_back(n: nat)
    ensures
        unsigned_value(decimal(n)) == Some(n),
        all_digits(decimal(n)),
        decimal(n).len() >= 1,
        digits_value(decimal(n)) == n,
    decreases n,
{
    let digits = decimal(n);
    if n >= 10 {
        lemma_decimal_reads_back(n / 10);
        let shorter = decimal(n / 10);
        assert(digits.drop_last() == shorter);
        assert forall|i: int| 0 <= i < digits.len() implies is_digit(#[trigger] digits[i]) by {}
    } else {
        assert(digits_value(digits.drop_last()) == 0);
    }
}

// Texts and their characters

/// The characters of `s`, in order.
pub fn chars_of(s: &str) -> (v: Vec<char>)
    ensures
        v@ == s@,
{
    let mut v: Vec<char> = Vec::new();
    for c in it: s.chars()
        invariant
            v@ == it.seq().take(it.index() as int),
            it.seq() == s@,
    {
        v.push(c);
    }
    v
}

/// `String::push`: appends one character to the end of the text.
#[verifier::external_body]
fn push_char(s: &mut String, c: char)
    ensures
        final(s)@ == old(s)@.push(c),
{
    s.push(c);
}

/// The text made of the characters `chars[from..to]`.
pub fn text_of(chars: &Vec<char>, from: usize, to: usize) -> (s: String)
    requires
        from <= to <= chars.len(),
    ensures
        s@ == chars@.subrange(from as int, to as int),
{
    let mut s = String::new();
    let mut i: usize = from;
    while i < to
        invariant
            from <= i <= to <= chars.len(),
            s@ == chars@.subrange(from as int, i as int),
        decreases to - i,
    {
        push_char(&mut s, chars[i]);
        i += 1;
    }
    s
}

/// `String::from_utf8`: the text that `bytes` encode in UTF-8, and `None`
/// exactly where they are not well-formed UTF-8.
#[verifier::external_body]
pub(crate) fn text_from_utf8(bytes: Vec<u8>) -> (r: Option<String>)
    ensures
        r is Some <==> vstd::utf8::valid_utf8(bytes@),
        r matches Some(s) ==> s@ == vstd::utf8::decode_utf8(bytes@),
{
    String::from_utf8(bytes).ok()
}

/// The characters `a[from..to]` on their own.
pub fn piece(a: &Vec<char>, from: usize, to: usize) -> (r: Vec<char>)
    requires
        from <= to <= a.len(),
    ensures
        r@ == a@.subrange(from as int, to as int),
{
    let mut r: Vec<char> = Vec::new();
    let mut i: usize = from;
    while i < to
        invariant
            from <= i <= to <= a.len(),
            r@ == a@.subrange(from as int, i as int),
        decreases to - i,
    {
        r.push(a[i]);
        i += 1;
    }
    r
}

/// Tells whether `a[from..to]` is the text `b`.
pub fn same_text(a: &Vec<char>, from: usize, to: usize, b: &Vec<char>) -> (r: bool)
    requires
        from <= to <= a.len(),
    ensures
        r == (a@.subrange(from as int, to as int) == b@),
{
    let ghost part = a@.subrange(from as int, to as int);
    if to - from != b.len() {
        return false;
    }
    let mut i: usize = 0;
    while i < b.len()
        invariant
            from <= to <= a.len(),
            to - from == b.len(),
            i <= b.len(),
            part == a@.subrange(from as int, to as int),
            forall|j: int| 0 <= j < i ==> part[j] == b@[j],
        decreases b.len() - i,
    {
        if a[from + i] != b[i] {
            return false;
        }
        i += 1;
    }
    assert(part =~= b@);
    true
}

/// Tells whether two texts are the same.
pub fn text_eq(a: &str, b: &str) -> (r: bool)
    ensures
        r == (a@ == b@),
{
    let left = chars_of(a);
    let right = chars_of(b);
    let r = same_text(&left, 0, left.len(), &right);
    assert(left@.subrange(0, left@.len() as int) == left@);
    r
}

} // verus!
