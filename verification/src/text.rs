//! String operations over the characters of a string.

use vstd::prelude::*;
use vstd::string::*;

verus! {

/// The character sequences of a sequence of strings.
pub open spec fn texts(strings: Seq<String>) -> Seq<Seq<char>> {
    strings.map_values(|s: String| s@)
}

/// The characters of `s`, in order.
pub fn chars_of(s: &str) -> (r: Vec<char>)
    ensures
        r@ == s@,
{
    let mut r: Vec<char> = Vec::new();
    for c in it: s.chars()
        invariant
            it.seq() == s@,
            r@ == s@.take(it.index()),
    {
        r.push(c);
        assert(s@.take(it.index() + 1) == s@.take(it.index()).push(s@[it.index()]));
    }
    assert(s@.take(s@.len() as int) == s@);
    r
}

/// Whether two strings hold the same characters.
pub fn same_text(a: &str, b: &str) -> (r: bool)
    ensures
        r == (a@ == b@),
{
    a.to_owned() == b.to_owned()
}

/// `a` followed by `b`.
pub fn joined(a: &str, b: &str) -> (r: String)
    ensures
        r@ == a@ + b@,
{
    let mut r: String = a.to_owned();
    r.append(b);
    r
}

/// `c` with an ASCII capital letter replaced by its small letter.
pub open spec fn ascii_lower(c: char) -> char {
    if 'A' <= c && c <= 'Z' {
        ((c as u8) + 32) as char
    } else {
        c
    }
}

/// `c` with an ASCII small letter replaced by its capital letter.
pub open spec fn ascii_upper(c: char) -> char {
    if 'a' <= c && c <= 'z' {
        ((c as u8) - 32) as char
    } else {
        c
    }
}

/// `s` with its ASCII capital letters replaced by small letters.
pub open spec fn ascii_lowercase(s: Seq<char>) -> Seq<char> {
    s.map_values(|c: char| ascii_lower(c))
}

/// `s` with its ASCII small letters replaced by capital letters.
pub open spec fn ascii_uppercase(s: Seq<char>) -> Seq<char> {
    s.map_values(|c: char| ascii_upper(c))
}

/// Whether every character of `s` is an ASCII character.
pub open spec fn ascii_only(s: Seq<char>) -> bool {
    forall|i: int| 0 <= i < s.len() ==> (#[trigger] s[i]) as u32 <= 127
}

/// What `str::to_lowercase` makes of a text.
pub uninterp spec fn lowercase(s: Seq<char>) -> Seq<char>;

/// What `str::to_uppercase` makes of a text.
pub uninterp spec fn uppercase(s: Seq<char>) -> Seq<char>;

/// Calls `str::to_lowercase`, which replaces each character by its lower case equivalent as
/// Unicode defines it. Claimed: the result depends on the text alone; on a text of ASCII characters
/// it differs from the text in the capital letters only, which become small; and it is the same for
/// texts that differ in the case of ASCII letters only.
#[verifier::external_body]
pub(crate) fn to_lowercase(s: &str) -> (r: String)
    ensures
        r@ == lowercase(s@),
        ascii_only(s@) ==> r@ == ascii_lowercase(s@),
        forall|t: Seq<char>|
            #![trigger lowercase(t)]
            ascii_lowercase(t) == ascii_lowercase(s@) ==> lowercase(t) == r@,
{
    s.to_lowercase()
}

/// Calls `str::to_uppercase`, which replaces each character by its upper case equivalent as
/// Unicode defines it. Claimed: the result depends on the text alone, and on a text of ASCII
/// characters it differs from the text in the small letters only, which become capitals.
#[verifier::external_body]
pub(crate) fn to_uppercase(s: &str) -> (r: String)
    ensures
        r@ == uppercase(s@),
        ascii_only(s@) ==> r@ == ascii_uppercase(s@),
{
    s.to_uppercase()
}

fn lower_char(c: char) -> (r: char)
    ensures
        r == ascii_lower(c),
{
    if 'A' <= c && c <= 'Z' {
        let code: u8 = c as u8 + 32;
        code as char
    } else {
        c
    }
}

/// Whether two strings agree when the case of ASCII letters is ignored.
pub fn eq_ignore_ascii_case(a: &str, b: &str) -> (r: bool)
    ensures
        r == (ascii_lowercase(a@) == ascii_lowercase(b@)),
{
    let x: Vec<char> = chars_of(a);
    let y: Vec<char> = chars_of(b);
    if x.len() != y.len() {
        assert(ascii_lowercase(a@).len() != ascii_lowercase(b@).len());
        return false;
    }
    let mut i: usize = 0;
    while i < x.len()
        invariant
            i <= x.len(),
            x.len() == y.len(),
            x@ == a@,
            y@ == b@,
            forall|j: int| 0 <= j < i ==> ascii_lower(x@[j]) == ascii_lower(y@[j]),
        decreases x.len() - i,
    {
        if lower_char(x[i]) != lower_char(y[i]) {
            assert(ascii_lowercase(a@)[i as int] != ascii_lowercase(b@)[i as int]);
            return false;
        }
        i = i + 1;
    }
    assert(ascii_lowercase(a@) =~= ascii_lowercase(b@));
    true
}

/// Whether `c` has the Unicode property White_Space.
pub open spec fn whitespace(c: char) -> bool {
    let n = c as u32;
    ||| 0x9 <= n <= 0xd
    ||| n == 0x20
    ||| n == 0x85
    ||| n == 0xa0
    ||| n == 0x1680
    ||| 0x2000 <= n <= 0x200a
    ||| n == 0x2028
    ||| n == 0x2029
    ||| n == 0x202f
    ||| n == 0x205f
    ||| n == 0x3000
}

/// Whether `c` has the Unicode property White_Space.
pub fn is_whitespace(c: char) -> (r: bool)
    ensures
        r == whitespace(c),
{
    let n: u32 = c as u32;
    (0x9 <= n && n <= 0xd) || n == 0x20 || n == 0x85 || n == 0xa0 || n == 0x1680 || (0x2000 <= n
        && n <= 0x200a) || n == 0x2028 || n == 0x2029 || n == 0x202f || n == 0x205f || n == 0x3000
}

/// `s` from its first character that is no white space.
pub open spec fn trimmed_start(s: Seq<char>) -> Seq<char>
    decreases s.len(),
{
    if s.len() > 0 && whitespace(s.first()) {
        trimmed_start(s.drop_first())
    } else {
        s
    }
}

/// `s` up to its last character that is no white space.
pub open spec fn trimmed_end(s: Seq<char>) -> Seq<char>
    decreases s.len(),
{
    if s.len() > 0 && whitespace(s.last()) {
        trimmed_end(s.drop_last())
    } else {
        s
    }
}

/// `s` without the white space at its two ends.
pub open spec fn trimmed(s: Seq<char>) -> Seq<char> {
    trimmed_end(trimmed_start(s))
}

/// `s` without the white space at its two ends.
pub fn trim(s: &str) -> (r: String)
    ensures
        r@ == trimmed(s@),
{
    let x: Vec<char> = chars_of(s);
    let mut from: usize = 0;
    assert(s@.skip(0) == s@);
    while from < x.len() && is_whitespace(x[from])
        invariant
            from <= x.len(),
            x@ == s@,
            trimmed_start(s@.skip(from as int)) == trimmed_start(s@),
        decreases x.len() - from,
    {
        assert(s@.skip(from as int).drop_first() == s@.skip(from + 1));
        from = from + 1;
    }
    let mut to: usize = x.len();
    assert(s@.subrange(from as int, to as int) == s@.skip(from as int));
    while from < to && is_whitespace(x[to - 1])
        invariant
            from <= to <= x.len(),
            x@ == s@,
            trimmed_end(s@.subrange(from as int, to as int)) == trimmed(s@),
        decreases to - from,
    {
        assert(s@.subrange(from as int, to as int).drop_last() == s@.subrange(
            from as int,
            to - 1,
        ));
        to = to - 1;
    }
    s.substring_char(from, to).to_owned()
}

/// `s` without the occurrences of `c` at its end.
pub open spec fn without_trailing(s: Seq<char>, c: char) -> Seq<char>
    decreases s.len(),
{
    if s.len() > 0 && s.last() == c {
        without_trailing(s.drop_last(), c)
    } else {
        s
    }
}

/// `s` without the occurrences of `c` at its end.
pub fn trim_end_matches(s: &str, c: char) -> (r: String)
    ensures
        r@ == without_trailing(s@, c),
{
    let x: Vec<char> = chars_of(s);
    let mut to: usize = x.len();
    assert(s@.take(to as int) == s@);
    while 0 < to && x[to - 1] == c
        invariant
            to <= x.len(),
            x@ == s@,
            without_trailing(s@.take(to as int), c) == without_trailing(s@, c),
        decreases to,
    {
        assert(s@.take(to as int).drop_last() == s@.take(to - 1));
        to = to - 1;
    }
    assert(s@.subrange(0, to as int) == s@.take(to as int));
    s.substring_char(0, to).to_owned()
}

/// The pieces of `s` between the occurrences of `c`: each `c` ends a piece and starts the next.
pub open spec fn pieces(s: Seq<char>, c: char) -> Seq<Seq<char>>
    decreases s.len(),
{
    if s.len() == 0 {
        seq![Seq::<char>::empty()]
    } else {
        let before = pieces(s.drop_last(), c);
        if s.last() == c {
            before.push(Seq::<char>::empty())
        } else {
            before.drop_last().push(before.last().push(s.last()))
        }
    }
}

/// There is always a piece.
pub proof fn lemma_pieces_nonempty(s: Seq<char>, c: char)
    ensures
        pieces(s, c).len() > 0,
    decreases s.len(),
{
    if s.len() > 0 {
        lemma_pieces_nonempty(s.drop_last(), c);
    }
}

/// Splits `s` at the occurrences of `c`.
pub fn split(s: &str, c: char) -> (r: Vec<String>)
    ensures
        texts(r@) == pieces(s@, c),
{
    let x: Vec<char> = chars_of(s);
    let mut r: Vec<String> = Vec::new();
    let mut from: usize = 0;
    let mut i: usize = 0;
    assert(s@.take(0).len() == 0);
    assert(s@.subrange(0, 0) =~= Seq::<char>::empty());
    assert(texts(r@).push(s@.subrange(0, 0)) =~= seq![Seq::<char>::empty()]);
    while i < x.len()
        invariant
            from <= i <= x.len(),
            x@ == s@,
            pieces(s@.take(i as int), c) == texts(r@).push(s@.subrange(from as int, i as int)),
        decreases x.len() - i,
    {
        let ghost done = texts(r@);
        assert(s@.take(i + 1).drop_last() == s@.take(i as int));
        assert(s@.take(i + 1).last() == s@[i as int]);
        if x[i] == c {
            r.push(s.substring_char(from, i).to_owned());
            from = i + 1;
            assert(s@.subrange(from as int, i + 1) =~= Seq::<char>::empty());
            assert(texts(r@) =~= pieces(s@.take(i as int), c));
        } else {
            assert(s@.subrange(from as int, i + 1) =~= s@.subrange(from as int, i as int).push(
                s@[i as int],
            ));
            assert(done.push(s@.subrange(from as int, i as int)).drop_last() =~= done);
        }
        i = i + 1;
    }
    assert(s@.take(x.len() as int) == s@);
    r.push(s.substring_char(from, x.len()).to_owned());
    assert(texts(r@) =~= pieces(s@, c));
    r
}

/// `s` from the position `from` on.
pub fn suffix_from(s: &str, from: usize) -> (r: String)
    requires
        from <= s@.len(),
    ensures
        r@ == s@.skip(from as int),
{
    let n: usize = s.unicode_len();
    assert(s@.subrange(from as int, n as int) == s@.skip(from as int));
    s.substring_char(from, n).to_owned()
}

/// Whether `s` starts with `prefix`.
pub fn starts_with(s: &str, prefix: &str) -> (r: bool)
    ensures
        r == prefix@.is_prefix_of(s@),
{
    let n: usize = prefix.unicode_len();
    if n > s.unicode_len() {
        return false;
    }
    assert(s@.subrange(0, n as int) == s@.take(n as int));
    let r: bool = same_text(s.substring_char(0, n), prefix);
    assert(r ==> prefix@.is_prefix_of(s@));
    assert(prefix@.is_prefix_of(s@) ==> prefix@ =~= s@.take(n as int));
    r
}

/// The position of the first `c` in `s`, or its length where it has none.
pub open spec fn first_position(s: Seq<char>, c: char) -> int
    decreases s.len(),
{
    if s.len() == 0 || s.first() == c {
        0
    } else {
        1 + first_position(s.drop_first(), c)
    }
}

/// The first position of `c` is the only one with `c` on it and none before.
pub proof fn lemma_first_position(s: Seq<char>, c: char)
    ensures
        0 <= first_position(s, c) <= s.len(),
        first_position(s, c) < s.len() ==> s[first_position(s, c)] == c,
        forall|j: int| 0 <= j < first_position(s, c) ==> s[j] != c,
        first_position(s, c) == s.len() <==> !s.contains(c),
    decreases s.len(),
{
    if s.len() > 0 && s.first() != c {
        let t = s.drop_first();
        lemma_first_position(t, c);
        assert forall|j: int| 0 <= j < first_position(s, c) implies s[j] != c by {
            if j > 0 {
                assert(s[j] == t[j - 1]);
            }
        }
        if s.contains(c) {
            let k = choose|k: int| 0 <= k < s.len() && s[k] == c;
            assert(t[k - 1] == c);
            assert(t.contains(c));
        }
        if t.contains(c) {
            let k = choose|k: int| 0 <= k < t.len() && t[k] == c;
            assert(s[k + 1] == c);
        }
    } else if s.len() > 0 {
        assert(s[0] == c);
    }
}

/// The parts of `s` before and after its first `c`, where it has one.
pub open spec fn halves(s: Seq<char>, c: char) -> Option<(Seq<char>, Seq<char>)> {
    if s.contains(c) {
        let i = first_position(s, c);
        Some((s.take(i), s.skip(i + 1)))
    } else {
        None
    }
}

/// Splits `s` at its first `c`; nothing where it has none.
pub fn split_once(s: &str, c: char) -> (r: Option<(String, String)>)
    ensures
        match r {
            Some(p) => halves(s@, c) == Some((p.0@, p.1@)),
            None => halves(s@, c) is None,
        },
{
    let x: Vec<char> = chars_of(s);
    let mut i: usize = 0;
    proof {
        lemma_first_position(s@, c);
    }
    while i < x.len()
        invariant
            i <= x.len(),
            x@ == s@,
            i <= first_position(s@, c) <= s@.len(),
            first_position(s@, c) < s@.len() ==> s@[first_position(s@, c)] == c,
            forall|j: int| 0 <= j < first_position(s@, c) ==> s@[j] != c,
            first_position(s@, c) == s@.len() <==> !s@.contains(c),
        decreases x.len() - i,
    {
        if x[i] == c {
            assert(i == first_position(s@, c));
            assert(s@.subrange(0, i as int) == s@.take(i as int));
            return Some((s.substring_char(0, i).to_owned(), suffix_from(s, i + 1)));
        }
        i = i + 1;
    }
    None
}

/// Whether `c` is a decimal digit.
pub open spec fn digit(c: char) -> bool {
    '0' <= c && c <= '9'
}

/// Whether `s` holds decimal digits only.
pub open spec fn all_digits(s: Seq<char>) -> bool {
    forall|i: int| 0 <= i < s.len() ==> digit(#[trigger] s[i])
}

/// The number that the decimal digits `s` denote.
pub open spec fn digits_value(s: Seq<char>) -> nat
    decreases s.len(),
{
    if s.len() == 0 {
        0
    } else {
        digits_value(s.drop_last()) * 10 + (s.last() as u32 - '0' as u32) as nat
    }
}

/// The number that `s` denotes: decimal digits, at least one, behind an optional `+`, or an
/// optional `-` where numbers below zero are admitted. Nothing where `s` is no such text or the
/// number lies outside of `low..=high`.
pub open spec fn integer(s: Seq<char>, low: int, high: int) -> Option<int> {
    let minus = low < 0 && s.len() > 0 && s[0] == '-';
    let plus = s.len() > 0 && s[0] == '+';
    let digits = if minus || plus {
        s.skip(1)
    } else {
        s
    };
    let value = if minus {
        -digits_value(digits)
    } else {
        digits_value(digits) as int
    };
    if digits.len() > 0 && all_digits(digits) && low <= value <= high {
        Some(value)
    } else {
        None
    }
}

/// Reads an integer between `low` and `high`; nothing where `s` denotes none.
pub fn parse_integer(s: &str, low: i128, high: i128) -> (r: Option<i128>)
    requires
        -0x1_0000_0000_0000_0000 <= low <= high <= 0x1_0000_0000_0000_0000,
    ensures
        match r {
            Some(n) => integer(s@, low as int, high as int) == Some(n as int),
            None => integer(s@, low as int, high as int) is None,
        },
{
    let x: Vec<char> = chars_of(s);
    let minus: bool = low < 0 && x.len() > 0 && x[0] == '-';
    let plus: bool = x.len() > 0 && x[0] == '+';
    let from: usize = if minus || plus {
        1
    } else {
        0
    };
    let ghost digits = s@.skip(from as int);
    assert(s@.skip(0) == s@);
    if from == x.len() {
        return None;
    }
    let mut value: i128 = 0;
    let mut large: bool = false;
    let mut i: usize = from;
    assert(digits.take(0).len() == 0);
    while i < x.len()
        invariant
            x@ == s@,
            digits == s@.skip(from as int),
            minus == (low < 0 && s@.len() > 0 && s@[0] == '-'),
            plus == (s@.len() > 0 && s@[0] == '+'),
            from == (if minus || plus {
                1int
            } else {
                0
            }),
            from <= i <= x.len(),
            all_digits(digits.take(i - from)),
            0 <= value <= 0x1_0000_0000_0000_0000,
            !large ==> value == digits_value(digits.take(i - from)),
            large ==> digits_value(digits.take(i - from)) > 0x1_0000_0000_0000_0000,
        decreases x.len() - i,
    {
        let c: char = x[i];
        let ghost now = digits.take(i - from + 1);
        assert(now.drop_last() == digits.take(i - from));
        assert(now.last() == c);
        assert(now[i - from] == c);
        if !('0' <= c && c <= '9') {
            assert(digits[i - from] == c);
            assert(!all_digits(digits));
            assert(s@.skip(0) == s@);
            return None;
        }
        let d: i128 = (c as u32 - 48) as i128;
        if !large {
            if value * 10 + d > 0x1_0000_0000_0000_0000 {
                large = true;
            } else {
                value = value * 10 + d;
            }
        }
        assert forall|j: int| 0 <= j < now.len() implies digit(#[trigger] now[j]) by {
            if j < i - from {
                assert(now[j] == digits.take(i - from)[j]);
            }
        }
        i = i + 1;
    }
    assert(digits.take(digits.len() as int) == digits);
    if large {
        return None;
    }
    let n: i128 = if minus {
        -value
    } else {
        value
    };
    if low <= n && n <= high {
        Some(n)
    } else {
        None
    }
}

/// The decimal digit of the number `n` below ten.
pub open spec fn digit_char(n: nat) -> char {
    "0123456789"@[n as int]
}

/// The decimal digits of `n`.
pub open spec fn decimal_digits(n: nat) -> Seq<char>
    decreases n,
{
    if n < 10 {
        seq![digit_char(n)]
    } else {
        decimal_digits(n / 10).push(digit_char(n % 10))
    }
}

/// The decimal notation of `n`.
pub open spec fn decimal(n: int) -> Seq<char> {
    if n < 0 {
        seq!['-'] + decimal_digits((-n) as nat)
    } else {
        decimal_digits(n as nat)
    }
}

fn digits_text(n: u128) -> (r: String)
    ensures
        r@ == decimal_digits(n as nat),
    decreases n,
{
    let table: &str = "0123456789";
    proof {
        reveal_strlit("0123456789");
    }
    let k: usize = (n % 10) as usize;
    let last: &str = table.substring_char(k, k + 1);
    assert(last@ =~= seq![digit_char((n % 10) as nat)]);
    if n < 10 {
        last.to_owned()
    } else {
        let mut r: String = digits_text(n / 10);
        let ghost before = r@;
        r.append(last);
        assert(r@ =~= before.push(digit_char((n % 10) as nat)));
        r
    }
}

/// The decimal notation of `n`.
pub fn decimal_text(n: i128) -> (r: String)
    requires
        n > i128::MIN,
    ensures
        r@ == decimal(n as int),
{
    if n < 0 {
        let digits: String = digits_text((-n) as u128);
        proof {
            reveal_strlit("-");
        }
        assert("-"@ =~= seq!['-']);
        joined("-", digits.as_str())
    } else {
        digits_text(n as u128)
    }
}

/// The digit of the number `n` below sixteen in base sixteen.
pub open spec fn hex_char(n: nat) -> char {
    "0123456789abcdef"@[n as int]
}

/// The last `width` digits of `n` in base sixteen, with leading zeros.
pub open spec fn hex_digits(n: nat, width: nat) -> Seq<char>
    decreases width,
{
    if width == 0 {
        Seq::<char>::empty()
    } else {
        hex_digits(n / 16, (width - 1) as nat).push(hex_char(n % 16))
    }
}

/// The last `width` digits of `n` in base sixteen, with leading zeros.
pub fn hex_text(n: u128, width: u32) -> (r: String)
    ensures
        r@ == hex_digits(n as nat, width as nat),
    decreases width,
{
    if width == 0 {
        return String::new();
    }
    let table: &str = "0123456789abcdef";
    proof {
        reveal_strlit("0123456789abcdef");
    }
    let k: usize = (n % 16) as usize;
    let last: &str = table.substring_char(k, k + 1);
    assert(last@ =~= seq![hex_char((n % 16) as nat)]);
    let mut r: String = hex_text(n / 16, width - 1);
    let ghost before = r@;
    r.append(last);
    assert(r@ =~= before.push(hex_char((n % 16) as nat)));
    r
}

/// Lower case keeps the length of a text and every character that is no ASCII capital letter, and
/// puts for each of those the small letter at the same place in the alphabet. Upper case is its
/// counterpart: what either was applied to last does not count for the other.
pub proof fn law_ascii_case(s: Seq<char>)
    ensures
        ascii_lowercase(s).len() == s.len(),
        ascii_uppercase(s).len() == s.len(),
        forall|i: int|
            0 <= i < s.len() ==> {
                let lower = #[trigger] ascii_lowercase(s)[i] as u32;
                if 'A' as u32 <= s[i] as u32 <= 'Z' as u32 {
                    lower - 'a' as u32 == s[i] as u32 - 'A' as u32
                } else {
                    lower == s[i] as u32
                }
            },
        forall|i: int|
            0 <= i < s.len() ==> {
                let upper = #[trigger] ascii_uppercase(s)[i] as u32;
                if 'a' as u32 <= s[i] as u32 <= 'z' as u32 {
                    upper - 'A' as u32 == s[i] as u32 - 'a' as u32
                } else {
                    upper == s[i] as u32
                }
            },
        ascii_lowercase(ascii_uppercase(s)) == ascii_lowercase(s),
        ascii_uppercase(ascii_lowercase(s)) == ascii_uppercase(s),
{
    assert(ascii_lowercase(ascii_uppercase(s)) =~= ascii_lowercase(s));
    assert(ascii_uppercase(ascii_lowercase(s)) =~= ascii_uppercase(s));
}

/// Of the ASCII characters the space and those from the tabulator to the carriage return are white
/// space, and no others.
pub proof fn law_ascii_whitespace(c: char)
    requires
        c as u32 <= 127,
    ensures
        whitespace(c) <==> c == ' ' || '\t' as u32 <= c as u32 <= '\r' as u32,
{
}

/// A trimmed text is what is left of the text when white space is cut off at both ends, and begins
/// and ends with something else, if it is not empty.
pub proof fn law_trimmed_text(s: Seq<char>)
    ensures
        exists|from: int, to: int|
            0 <= from <= to <= s.len() && trimmed(s) == #[trigger] s.subrange(from, to) && (forall|
                i: int,
            |
                0 <= i < from || to <= i < s.len() ==> whitespace(#[trigger] s[i])),
        trimmed(s).len() > 0 ==> !whitespace(trimmed(s)[0]) && !whitespace(
            trimmed(s)[trimmed(s).len() - 1],
        ),
{
    lemma_trimmed_start(s);
    let from = s.len() - trimmed_start(s).len();
    let rest = s.skip(from);
    lemma_trimmed_end(rest);
    let to = from + trimmed_end(rest).len();
    assert(trimmed(s) =~= s.subrange(from, to));
    assert forall|i: int| 0 <= i < from || to <= i < s.len() implies whitespace(
        #[trigger] s[i],
    ) by {
        if i >= to {
            assert(rest[i - from] == s[i]);
        }
    }
    if trimmed(s).len() > 0 {
        assert(trimmed(s)[0] == rest[0]);
    }
}

proof fn lemma_trimmed_start(s: Seq<char>)
    ensures
        trimmed_start(s).len() <= s.len(),
        trimmed_start(s) == s.skip(s.len() - trimmed_start(s).len()),
        trimmed_start(s).len() > 0 ==> !whitespace(trimmed_start(s)[0]),
        forall|i: int|
            0 <= i < s.len() - trimmed_start(s).len() ==> whitespace(#[trigger] s[i]),
    decreases s.len(),
{
    if s.len() > 0 && whitespace(s.first()) {
        let t = s.drop_first();
        lemma_trimmed_start(t);
        let n = s.len() - trimmed_start(s).len();
        assert(t.skip(n - 1) =~= s.skip(n));
        assert forall|i: int| 0 <= i < n implies whitespace(#[trigger] s[i]) by {
            if i > 0 {
                assert(t[i - 1] == s[i]);
            }
        }
    } else {
        assert(s.skip(0) =~= s);
    }
}

proof fn lemma_trimmed_end(s: Seq<char>)
    ensures
        trimmed_end(s).len() <= s.len(),
        trimmed_end(s) == s.take(trimmed_end(s).len() as int),
        trimmed_end(s).len() > 0 ==> !whitespace(trimmed_end(s)[trimmed_end(s).len() - 1]),
        forall|i: int| trimmed_end(s).len() <= i < s.len() ==> whitespace(#[trigger] s[i]),
    decreases s.len(),
{
    if s.len() > 0 && whitespace(s.last()) {
        let t = s.drop_last();
        lemma_trimmed_end(t);
        let n = trimmed_end(s).len() as int;
        assert(t.take(n) =~= s.take(n));
        assert forall|i: int| n <= i < s.len() implies whitespace(#[trigger] s[i]) by {
            if i < t.len() {
                assert(t[i] == s[i]);
            }
        }
    } else {
        assert(s.take(s.len() as int) =~= s);
    }
}

/// A text without a trailing character is the text up to where only that character follows, and
/// ends with another one, if it is not empty.
pub proof fn law_without_trailing(s: Seq<char>, c: char)
    ensures
        ({
            let r = without_trailing(s, c);
            &&& r.len() <= s.len()
            &&& r == s.take(r.len() as int)
            &&& forall|i: int| r.len() <= i < s.len() ==> #[trigger] s[i] == c
            &&& r.len() > 0 ==> r[r.len() - 1] != c
        }),
    decreases s.len(),
{
    if s.len() > 0 && s.last() == c {
        let t = s.drop_last();
        law_without_trailing(t, c);
        let n = without_trailing(s, c).len() as int;
        assert(t.take(n) =~= s.take(n));
        assert forall|i: int| n <= i < s.len() implies #[trigger] s[i] == c by {
            if i < t.len() {
                assert(t[i] == s[i]);
            }
        }
    } else {
        assert(s.take(s.len() as int) =~= s);
    }
}

/// A text without the separator is one piece; a separator between two texts puts the pieces of the
/// one before those of the other.
pub proof fn law_pieces(a: Seq<char>, b: Seq<char>, c: char)
    ensures
        !a.contains(c) ==> pieces(a, c) == seq![a],
        pieces(a + seq![c] + b, c) == pieces(a, c) + pieces(b, c),
{
    lemma_one_piece(a, c);
    lemma_pieces_concat(a, b, c);
}

proof fn lemma_one_piece(a: Seq<char>, c: char)
    ensures
        !a.contains(c) ==> pieces(a, c) == seq![a],
    decreases a.len(),
{
    if !a.contains(c) {
        if a.len() > 0 {
            let front = a.drop_last();
            assert(!front.contains(c)) by {
                if front.contains(c) {
                    let i = choose|i: int| 0 <= i < front.len() && front[i] == c;
                    assert(a[i] == c);
                }
            }
            lemma_one_piece(front, c);
            assert(a[a.len() - 1] == a.last());
            assert(a.last() != c);
            assert(front.push(a.last()) =~= a);
            assert(pieces(a, c) =~= seq![a]);
        } else {
            assert(a =~= Seq::<char>::empty());
        }
    }
}

proof fn lemma_pieces_concat(a: Seq<char>, b: Seq<char>, c: char)
    ensures
        pieces(a + seq![c] + b, c) == pieces(a, c) + pieces(b, c),
    decreases b.len(),
{
    let whole = a + seq![c] + b;
    if b.len() == 0 {
        assert(whole.drop_last() =~= a);
        assert(whole.last() == c);
        assert(pieces(whole, c) =~= pieces(a, c) + pieces(b, c));
    } else {
        let front = b.drop_last();
        lemma_pieces_concat(a, front, c);
        lemma_pieces_nonempty(front, c);
        assert(whole.drop_last() =~= a + seq![c] + front);
        assert(whole.last() == b.last());
        let before = pieces(whole.drop_last(), c);
        assert(before.last() == pieces(front, c).last());
        assert(pieces(whole, c) =~= pieces(a, c) + pieces(b, c));
    }
}

/// The halves of a text, with the separator between them, are the text, and the first has no
/// separator in it; a text without a separator has no halves.
pub proof fn law_halves(s: Seq<char>, c: char)
    ensures
        halves(s, c) is Some <==> s.contains(c),
        halves(s, c) is Some ==> {
            let (first, second) = halves(s, c)->0;
            &&& s == first + seq![c] + second
            &&& !first.contains(c)
        },
{
    lemma_first_position(s, c);
    if s.contains(c) {
        let i = first_position(s, c);
        let (first, second) = halves(s, c)->0;
        assert(s =~= first + seq![c] + second);
        if first.contains(c) {
            let k = choose|k: int| 0 <= k < first.len() && first[k] == c;
            assert(s[k] == c);
        }
    }
}

/// The decimal notation of a number is read back as that number wherever it is admitted.
pub proof fn law_decimal_notation_is_read_back(n: int, low: int, high: int)
    requires
        low <= n <= high,
    ensures
        integer(decimal(n), low, high) == Some(n),
{
    if n < 0 {
        lemma_decimal_digits((-n) as nat);
        assert(decimal(n).skip(1) =~= decimal_digits((-n) as nat));
    } else {
        lemma_decimal_digits(n as nat);
        assert(digit(decimal_digits(n as nat)[0]));
    }
}

proof fn lemma_decimal_digits(n: nat)
    ensures
        decimal_digits(n).len() > 0,
        all_digits(decimal_digits(n)),
        digits_value(decimal_digits(n)) == n,
    decreases n,
{
    reveal_strlit("0123456789");
    let d = digit_char(n % 10);
    assert(digit(d) && d as u32 - '0' as u32 == n % 10);
    if n < 10 {
        let one = seq![digit_char(n)];
        assert(one.drop_last() =~= Seq::<char>::empty());
        assert(digits_value(one.drop_last()) == 0);
    } else {
        lemma_decimal_digits(n / 10);
        let all = decimal_digits(n);
        assert(all.drop_last() =~= decimal_digits(n / 10));
        assert(all.last() == d);
    }
}

/// What is read as a number lies within the bounds, has a digit and nothing but digits behind its
/// sign, and has no minus sign where no number below zero is admitted.
pub proof fn law_numbers_are_digits(s: Seq<char>, low: int, high: int)
    ensures
        integer(s, low, high) is Some ==> {
            &&& low <= integer(s, low, high)->0 <= high
            &&& s.len() > 0
            &&& forall|i: int| 0 < i < s.len() ==> '0' <= #[trigger] s[i] && s[i] <= '9'
            &&& s.len() == 1 ==> '0' <= s[0] && s[0] <= '9'
            &&& ('0' <= s[0] && s[0] <= '9') || s[0] == '+' || (s[0] == '-' && low < 0)
        },
{
    if integer(s, low, high) is Some {
        let digits = s.skip(1);
        assert forall|i: int| 0 < i < s.len() implies '0' <= #[trigger] s[i] && s[i] <= '9' by {
            assert(digits[i - 1] == s[i]);
            assert(digit(s[i]));
        }
        if s.len() > 0 && s[0] != '+' && !(s[0] == '-' && low < 0) {
            assert(digit(s[0]));
        }
    }
}

/// One more digit behind a number is ten times the number and the digit.
pub proof fn law_digits_count_by_tens(s: Seq<char>, d: char, low: int, high: int)
    requires
        s.len() > 0,
        '0' <= d && d <= '9',
        forall|i: int| 0 <= i < s.len() ==> '0' <= #[trigger] s[i] && s[i] <= '9',
        low <= 0,
        integer(s.push(d), low, high) is Some,
    ensures
        integer(s, low, high) is Some,
        integer(s.push(d), low, high)->0 == integer(s, low, high)->0 * 10 + (d as u32
            - '0' as u32),
{
    assert(s.push(d).drop_last() =~= s);
    assert(digit(s[0]));
    assert(s.push(d)[0] == s[0]);
}

/// Different numbers that have room in the width have different digits in base sixteen, of which
/// there are as many as the width says.
pub proof fn law_hex_digits_tell_numbers_apart(n: nat, m: nat, width: nat)
    requires
        n < vstd::arithmetic::power::pow(16, width),
        m < vstd::arithmetic::power::pow(16, width),
    ensures
        hex_digits(n, width).len() == width,
        hex_digits(n, width) == hex_digits(m, width) ==> n == m,
    decreases width,
{
    vstd::arithmetic::power::lemma_pow0(16);
    if width > 0 {
        let w = (width - 1) as nat;
        vstd::arithmetic::power::lemma_pow1(16);
        vstd::arithmetic::power::lemma_pow_adds(16, 1, w);
        law_hex_digits_tell_numbers_apart(n / 16, m / 16, w);
        if hex_digits(n, width) == hex_digits(m, width) {
            assert(hex_digits(n, width).drop_last() =~= hex_digits(n / 16, w));
            assert(hex_digits(m, width).drop_last() =~= hex_digits(m / 16, w));
            assert(hex_digits(n, width).last() == hex_digits(m, width).last());
            lemma_hex_char(n % 16);
            lemma_hex_char(m % 16);
        }
    }
}

proof fn lemma_hex_char(n: nat)
    requires
        n < 16,
    ensures
        n < 10 ==> hex_char(n) as u32 == '0' as u32 + n,
        n >= 10 ==> hex_char(n) as u32 == 'a' as u32 + (n - 10),
{
    reveal_strlit("0123456789abcdef");
}

/// A list of strings stands for the text of each, in order.
pub proof fn law_strings_stand_for_their_texts(strings: Seq<String>)
    ensures
        texts(strings).len() == strings.len(),
        forall|i: int| 0 <= i < strings.len() ==> #[trigger] texts(strings)[i] == strings[i]@,
{
}

} // verus!
