//! Text: numbers, comparison, UTF-16.

use vstd::prelude::*;

verus! {

/// `String::push` appends the given character to the end of the string.
pub assume_specification[ String::push ](s: &mut String, c: char)
    ensures
        final(s)@ == old(s)@.push(c),
;

/// The digit `d`, in upper case if it is a letter.
pub open spec fn digit(d: int) -> char {
    if d == 0 {
        '0'
    } else if d == 1 {
        '1'
    } else if d == 2 {
        '2'
    } else if d == 3 {
        '3'
    } else if d == 4 {
        '4'
    } else if d == 5 {
        '5'
    } else if d == 6 {
        '6'
    } else if d == 7 {
        '7'
    } else if d == 8 {
        '8'
    } else if d == 9 {
        '9'
    } else if d == 10 {
        'A'
    } else if d == 11 {
        'B'
    } else if d == 12 {
        'C'
    } else if d == 13 {
        'D'
    } else if d == 14 {
        'E'
    } else {
        'F'
    }
}

/// `n` in decimal, without leading zeros.
pub open spec fn decimal(n: nat) -> Seq<char>
    decreases n,
{
    if n < 10 {
        seq![digit(n as int)]
    } else {
        decimal(n / 10).push(digit((n % 10) as int))
    }
}

/// `n` as eight hexadecimal digits.
pub open spec fn hex8(n: u32) -> Seq<char> {
    seq![
        digit(n as int / 0x1000_0000),
        digit(n as int / 0x100_0000 % 16),
        digit(n as int / 0x10_0000 % 16),
        digit(n as int / 0x1_0000 % 16),
        digit(n as int / 0x1000 % 16),
        digit(n as int / 0x100 % 16),
        digit(n as int / 0x10 % 16),
        digit(n as int % 16),
    ]
}

/// Gives the digit `d`.
pub fn digit_char(d: u32) -> (c: char)
    requires
        d < 16,
    ensures
        c == digit(d as int),
{
    match d {
        0 => '0',
        1 => '1',
        2 => '2',
        3 => '3',
        4 => '4',
        5 => '5',
        6 => '6',
        7 => '7',
        8 => '8',
        9 => '9',
        10 => 'A',
        11 => 'B',
        12 => 'C',
        13 => 'D',
        14 => 'E',
        _ => 'F',
    }
}

/// Appends `n` in decimal.
pub fn push_decimal(s: &mut String, n: u64)
    ensures
        final(s)@ == old(s)@ + decimal(n as nat),
    decreases n,
{
    if n >= 10 {
        push_decimal(s, n / 10);
    }
    s.push(digit_char((n % 10) as u32));
    assert(s@ =~= old(s)@ + decimal(n as nat));
}

/// Appends `n` as eight hexadecimal digits.
pub fn push_hex8(s: &mut String, n: u32)
    ensures
        final(s)@ == old(s)@ + hex8(n),
{
    s.push(digit_char(n / 0x1000_0000));
    s.push(digit_char(n / 0x100_0000 % 16));
    s.push(digit_char(n / 0x10_0000 % 16));
    s.push(digit_char(n / 0x1_0000 % 16));
    s.push(digit_char(n / 0x1000 % 16));
    s.push(digit_char(n / 0x100 % 16));
    s.push(digit_char(n / 0x10 % 16));
    s.push(digit_char(n % 16));
    assert(s@ =~= old(s)@ + hex8(n));
}

/// Whether two texts are the same.
pub fn same(a: &str, b: &str) -> (yes: bool)
    ensures
        yes == (a@ == b@),
{
    a.to_owned() == b.to_owned()
}

/// The characters of a text.
pub fn chars_of(s: &str) -> (v: Vec<char>)
    ensures
        v@ == s@,
{
    let mut v: Vec<char> = Vec::new();
    for c in it: s.chars()
        invariant
            v@ == it.seq().take(it.index()),
            it.seq() == s@,
    {
        v.push(c);
        assert(it.seq().take(it.index() + 1) =~= it.seq().take(it.index()).push(c));
    }
    assert(s@.take(s@.len() as int) =~= s@);
    v
}

/// The value of a decimal digit.
pub open spec fn digit_value(c: char) -> Option<nat> {
    if '0' <= c <= '9' {
        Some((c as int - '0' as int) as nat)
    } else {
        None
    }
}

/// The number that a run of decimal digits stands for; the empty run stands for 0.
pub open spec fn digits_value(s: Seq<char>) -> Option<nat>
    decreases s.len(),
{
    if s.len() == 0 {
        Some(0)
    } else {
        match (digits_value(s.drop_last()), digit_value(s.last())) {
            (Some(high), Some(low)) => Some(high * 10 + low),
            _ => None,
        }
    }
}

/// The number that a text stands for: decimal digits, at least one, and perhaps a
/// plus sign before them.
pub open spec fn number(s: Seq<char>) -> Option<nat> {
    let digits = if s.len() > 0 && s[0] == '+' {
        s.skip(1)
    } else {
        s
    };
    if digits.len() == 0 {
        None
    } else {
        digits_value(digits)
    }
}

proof fn lemma_digits_grow(s: Seq<char>, n: int)
    requires
        0 <= n <= s.len(),
    ensures
        digits_value(s.take(n)) is None ==> digits_value(s) is None,
        digits_value(s) matches Some(v) ==> digits_value(s.take(n)) matches Some(w) && w <= v,
    decreases s.len(),
{
    if n == s.len() {
        assert(s.take(n) =~= s);
        if n > 0 {
            lemma_digits_grow(s.drop_last(), 0);
            assert(s.drop_last().take(0) =~= Seq::<char>::empty());
        }
    } else {
        assert(s.drop_last().take(n) =~= s.take(n));
        lemma_digits_grow(s.drop_last(), n);
    }
}

/// Parses a number that is at most `most`.
pub fn parse_number(s: &str, most: u64) -> (r: Option<u64>)
    ensures
        match number(s@) {
            Some(v) => if v <= most {
                r == Some(v as u64)
            } else {
                r is None
            },
            None => r is None,
        },
{
    let v: Vec<char> = chars_of(s);
    let start: usize = if v.len() > 0 && v[0] == '+' {
        1
    } else {
        0
    };
    if start == v.len() {
        return None;
    }
    let ghost digits = v@.skip(start as int);
    assert(v@.skip(0) =~= v@);
    let mut value: u64 = 0;
    let mut i: usize = start;
    assert(digits.take(0) =~= Seq::<char>::empty());
    while i < v.len()
        invariant
            start <= i <= v@.len(),
            digits == v@.skip(start as int),
            digits_value(digits.take(i - start)) == Some(value as nat),
            value <= most,
            number(s@) == digits_value(digits),
        decreases v.len() - i,
    {
        let c: char = v[i];
        proof {
            assert(digits.take(i - start + 1).drop_last() =~= digits.take(i - start));
            assert(digits.take(i - start + 1).last() == c);
            lemma_digits_grow(digits, i - start + 1);
        }
        if !('0' <= c && c <= '9') {
            return None;
        }
        let d: u64 = (c as u64) - ('0' as u64);
        if value > most / 10 {
            return None;
        }
        let tens: u64 = value * 10;
        if d > most - tens {
            return None;
        }
        value = tens + d;
        i = i + 1;
    }
    assert(digits.take(digits.len() as int) =~= digits);
    Some(value)
}

/// The UTF-16 code units of a character.
pub open spec fn utf16_of(c: char) -> Seq<u16> {
    let n = c as int;
    if n < 0x1_0000 {
        seq![n as u16]
    } else {
        seq![
            (0xD800 + (n - 0x1_0000) / 0x400) as u16,
            (0xDC00 + (n - 0x1_0000) % 0x400) as u16,
        ]
    }
}

/// The UTF-16 code units of a text.
pub open spec fn utf16(s: Seq<char>) -> Seq<u16>
    decreases s.len(),
{
    if s.len() == 0 {
        Seq::empty()
    } else {
        utf16(s.drop_last()) + utf16_of(s.last())
    }
}

/// Appends the UTF-16 code units of a character.
fn push_utf16(w: &mut Vec<u16>, c: char)
    ensures
        final(w)@ == old(w)@ + utf16_of(c),
{
    let n: u32 = c as u32;
    if n < 0x1_0000 {
        w.push(n as u16);
    } else {
        w.push((0xD800 + (n - 0x1_0000) / 0x400) as u16);
        w.push((0xDC00 + (n - 0x1_0000) % 0x400) as u16);
    }
    assert(w@ =~= old(w)@ + utf16_of(c));
}

/// NUL-terminated UTF-16 of a text.
pub fn wide(s: &str) -> (w: Vec<u16>)
    ensures
        w@ == utf16(s@).push(0),
{
    let v: Vec<char> = chars_of(s);
    let mut w: Vec<u16> = Vec::new();
    let mut i: usize = 0;
    assert(v@.take(0) =~= Seq::<char>::empty());
    while i < v.len()
        invariant
            i <= v@.len(),
            w@ == utf16(v@.take(i as int)),
        decreases v.len() - i,
    {
        proof {
            assert(v@.take(i + 1).drop_last() =~= v@.take(i as int));
            assert(v@.take(i + 1).last() == v@[i as int]);
        }
        push_utf16(&mut w, v[i]);
        i = i + 1;
    }
    assert(v@.take(v@.len() as int) =~= v@);
    w.push(0);
    w
}

/// Whether `needle` occurs in `hay`.
pub open spec fn occurs(needle: Seq<char>, hay: Seq<char>) -> bool {
    exists|i: int|
        0 <= i <= hay.len() - needle.len() && #[trigger] hay.subrange(i, i + needle.len())
            == needle
}

/// Whether `needle` occurs in `hay` from its character `at` on.
fn occurs_at(needle: &Vec<char>, hay: &Vec<char>, at: usize) -> (yes: bool)
    requires
        at + needle@.len() <= hay@.len(),
    ensures
        yes == (hay@.subrange(at as int, at + needle@.len()) == needle@),
{
    let total: usize = hay.len();
    let mut k: usize = 0;
    while k < needle.len()
        invariant
            k <= needle@.len(),
            at + needle@.len() <= hay@.len() == total,
            forall|j: int| 0 <= j < k ==> hay@[at + j] == #[trigger] needle@[j],
        decreases needle.len() - k,
    {
        if hay[at + k] != needle[k] {
            assert(hay@.subrange(at as int, at + needle@.len())[k as int] != needle@[k as int]);
            return false;
        }
        k = k + 1;
    }
    assert(hay@.subrange(at as int, at + needle@.len()) =~= needle@);
    true
}

/// Whether `hay` contains `needle`.
pub fn contains(hay: &str, needle: &str) -> (yes: bool)
    ensures
        yes == occurs(needle@, hay@),
{
    let h: Vec<char> = chars_of(hay);
    let n: Vec<char> = chars_of(needle);
    if n.len() > h.len() {
        return false;
    }
    let last: usize = h.len() - n.len();
    let mut i: usize = 0;
    while i <= last
        invariant
            0 <= i <= last + 1,
            last == h@.len() - n@.len(),
            h@ == hay@,
            n@ == needle@,
            forall|j: int| 0 <= j < i ==> #[trigger] h@.subrange(j, j + n@.len()) != n@,
        decreases last + 1 - i,
    {
        if occurs_at(&n, &h, i) {
            return true;
        }
        if i == last {
            return false;
        }
        i = i + 1;
    }
    false
}

/// A digit is the character that is so many places behind `0` or, from ten on, behind
/// `A`.
pub proof fn digits_follow_one_another(d: int)
    ensures
        0 <= d < 10 ==> digit(d) as int == '0' as int + d,
        10 <= d < 16 ==> digit(d) as int == 'A' as int + (d - 10),
{
}

/// A number written in decimal has digits only, none of them a leading zero unless it is
/// the number 0, and stands for that number.
pub proof fn decimal_reads_back(n: nat)
    ensures
        decimal(n).len() > 0,
        forall|i: int| 0 <= i < decimal(n).len() ==> '0' <= #[trigger] decimal(n)[i] <= '9',
        decimal(n)[0] == '0' ==> n == 0,
        n < 10 ==> decimal(n) == seq![digit(n as int)],
        digits_value(decimal(n)) == Some(n),
        number(decimal(n)) == Some(n),
    decreases n,
{
    let s = decimal(n);
    if n < 10 {
        digits_follow_one_another(n as int);
        assert(s.drop_last() =~= Seq::<char>::empty());
        assert(digits_value(s.drop_last()) == Some(0nat));
        assert(s.last() == digit(n as int));
        assert(digit_value(s.last()) == Some(n));
    } else {
        decimal_reads_back(n / 10);
        digits_follow_one_another((n % 10) as int);
        let front = decimal(n / 10);
        assert(s.drop_last() =~= front);
        assert(s[0] == front[0]);
        assert(digit_value(s.last()) == Some(n % 10));
        assert forall|i: int| 0 <= i < s.len() implies '0' <= #[trigger] s[i] <= '9' by {
            if i < front.len() {
                assert(s[i] == front[i]);
            }
        }
    }
}

/// Which texts are numbers, and which: one digit is its value, a further digit makes what
/// stands before it count ten times, a plus sign before a number without one changes
/// nothing, and no other text is a number.
pub proof fn numbers_grow_by_their_digits(s: Seq<char>, c: char)
    ensures
        number(Seq::empty()) is None,
        '0' <= c <= '9' ==> number(seq![c]) == Some((c as int - '0' as int) as nat),
        !('0' <= c <= '9') ==> number(s.push(c)) is None,
        '0' <= c <= '9' ==> (number(s) matches Some(v) ==> number(s.push(c)) == Some(
            (10 * v + (c as int - '0' as int)) as nat,
        )),
        s.len() > 0 && s[0] != '+' ==> number(seq!['+'] + s) == number(s),
        number(seq!['+']) is None,
        number(s) is Some <==> {
            let signed = s.len() > 0 && s[0] == '+';
            &&& s.len() > (if signed {
                1int
            } else {
                0
            })
            &&& forall|i: int|
                (if signed {
                    1int
                } else {
                    0
                }) <= i < s.len() ==> '0' <= #[trigger] s[i] <= '9'
        },
{
    let signed = s.len() > 0 && s[0] == '+';
    let digits = if signed {
        s.skip(1)
    } else {
        s
    };
    lemma_digits_only(digits);
    if signed {
        assert forall|i: int| 0 <= i < digits.len() implies digits[i] == #[trigger] s[i + 1] by {}
        if number(s) is Some {
            assert forall|i: int| 1 <= i < s.len() implies '0' <= #[trigger] s[i] <= '9' by {
                assert(s[i] == digits[i - 1]);
            }
        }
    }
    assert(seq!['+'].skip(1) =~= Seq::<char>::empty());
    assert(seq![c].drop_last() =~= Seq::<char>::empty());
    assert(digits_value(seq![c].drop_last()) == Some(0nat));
    assert(seq![c].last() == c);
    let more = s.push(c);
    if s.len() > 0 {
        assert(more[0] == s[0]);
        if signed {
            assert(more.skip(1) =~= digits.push(c));
        }
        assert(digits.push(c).drop_last() =~= digits);
        assert((seq!['+'] + s).skip(1) =~= s);
        assert((seq!['+'] + s)[0] == '+');
    } else {
        assert(more =~= seq![c]);
        if c == '+' {
            assert(more.skip(1) =~= Seq::<char>::empty());
        }
    }
}

proof fn lemma_digits_only(s: Seq<char>)
    ensures
        digits_value(s) is Some <==> forall|i: int|
            0 <= i < s.len() ==> '0' <= #[trigger] s[i] <= '9',
    decreases s.len(),
{
    if s.len() > 0 {
        let front = s.drop_last();
        lemma_digits_only(front);
        assert(s.last() == s[s.len() - 1]);
        assert forall|i: int| 0 <= i < front.len() implies front[i] == #[trigger] s[i] by {}
        if digits_value(front) is Some && digit_value(s.last()) is Some {
            assert forall|i: int| 0 <= i < s.len() implies '0' <= #[trigger] s[i] <= '9' by {
                if i < front.len() {
                    assert(s[i] == front[i]);
                }
            }
        }
    }
}

/// The value of a hexadecimal digit.
pub open spec fn hex_value(c: char) -> int {
    if '0' <= c <= '9' {
        c as int - '0' as int
    } else {
        10 + (c as int - 'A' as int)
    }
}

/// Eight hexadecimal digits stand for the number that was written.
pub proof fn hex_reads_back(n: u32)
    ensures
        hex8(n).len() == 8,
        forall|i: int|
            0 <= i < 8 ==> '0' <= #[trigger] hex8(n)[i] <= '9' || 'A' <= hex8(n)[i] <= 'F',
        n == hex_value(hex8(n)[0]) * 0x1000_0000 + hex_value(hex8(n)[1]) * 0x100_0000 + hex_value(
            hex8(n)[2],
        ) * 0x10_0000 + hex_value(hex8(n)[3]) * 0x1_0000 + hex_value(hex8(n)[4]) * 0x1000
            + hex_value(hex8(n)[5]) * 0x100 + hex_value(hex8(n)[6]) * 0x10 + hex_value(hex8(n)[7]),
{
    let k = n as int;
    lemma_hex_digit(k / 0x1000_0000);
    lemma_hex_digit(k / 0x100_0000 % 16);
    lemma_hex_digit(k / 0x10_0000 % 16);
    lemma_hex_digit(k / 0x1_0000 % 16);
    lemma_hex_digit(k / 0x1000 % 16);
    lemma_hex_digit(k / 0x100 % 16);
    lemma_hex_digit(k / 0x10 % 16);
    lemma_hex_digit(k % 16);
    lemma_hex_places(k);
    let h = hex8(n);
    assert(h[0] == digit(k / 0x1000_0000));
    assert(h[1] == digit(k / 0x100_0000 % 16));
    assert(h[2] == digit(k / 0x10_0000 % 16));
    assert(h[3] == digit(k / 0x1_0000 % 16));
    assert(h[4] == digit(k / 0x1000 % 16));
    assert(h[5] == digit(k / 0x100 % 16));
    assert(h[6] == digit(k / 0x10 % 16));
    assert(h[7] == digit(k % 16));
}

proof fn lemma_hex_digit(d: int)
    requires
        0 <= d < 16,
    ensures
        hex_value(digit(d)) == d,
        '0' <= digit(d) <= '9' || 'A' <= digit(d) <= 'F',
{
    digits_follow_one_another(d);
}

proof fn lemma_hex_places(k: int)
    requires
        0 <= k < 0x1_0000_0000,
    ensures
        k == (k / 0x1000_0000) * 0x1000_0000 + (k / 0x100_0000 % 16) * 0x100_0000 + (k / 0x10_0000
            % 16) * 0x10_0000 + (k / 0x1_0000 % 16) * 0x1_0000 + (k / 0x1000 % 16) * 0x1000 + (k
            / 0x100 % 16) * 0x100 + (k / 0x10 % 16) * 0x10 + k % 16,
{
    let k1 = k / 0x10;
    let k2 = k1 / 16;
    let k3 = k2 / 16;
    let k4 = k3 / 16;
    let k5 = k4 / 16;
    let k6 = k5 / 16;
    let k7 = k6 / 16;
    assert(k / 0x100 == k2);
    assert(k / 0x1000 == k3);
    assert(k / 0x1_0000 == k4);
    assert(k / 0x10_0000 == k5);
    assert(k / 0x100_0000 == k6);
    assert(k / 0x1000_0000 == k7);
    assert(k == 16 * k1 + k % 16);
    assert(k1 == 16 * k2 + k1 % 16);
    assert(k2 == 16 * k3 + k2 % 16);
    assert(k3 == 16 * k4 + k3 % 16);
    assert(k4 == 16 * k5 + k4 % 16);
    assert(k5 == 16 * k6 + k5 % 16);
    assert(k6 == 16 * k7 + k6 % 16);
}

/// A text is encoded character by character. One of the basic plane is a unit of its own
/// value, any other one is a high and a low surrogate that together give it back.
pub proof fn utf16_encodes_every_character(a: Seq<char>, b: Seq<char>, c: char)
    ensures
        utf16(Seq::empty()) == Seq::<u16>::empty(),
        utf16(a + b) == utf16(a) + utf16(b),
        utf16(seq![c]) == utf16_of(c),
        (c as int) < 0x1_0000 ==> utf16_of(c).len() == 1 && utf16_of(c)[0] == c as int,
        (c as int) >= 0x1_0000 ==> {
            let u = utf16_of(c);
            &&& u.len() == 2
            &&& 0xD800 <= u[0] < 0xDC00
            &&& 0xDC00 <= u[1] < 0xE000
            &&& c as int == 0x1_0000 + (u[0] - 0xD800) * 0x400 + (u[1] - 0xDC00)
        },
    decreases b.len(),
{
    if b.len() == 0 {
        assert(a + b =~= a);
        assert(utf16(a) + utf16(b) =~= utf16(a));
    } else {
        utf16_encodes_every_character(a, b.drop_last(), c);
        assert((a + b).drop_last() =~= a + b.drop_last());
        assert((a + b).last() == b.last());
        assert(utf16(a + b) =~= utf16(a) + utf16(b));
    }
    assert(seq![c].drop_last() =~= Seq::<char>::empty());
    assert(utf16(seq![c].drop_last()) == Seq::<u16>::empty());
    assert(utf16(seq![c]) =~= utf16_of(c));
    assert(c as int <= 0x10_FFFF);
}

/// A text occurs in another exactly if that is the text with something before it and
/// something behind it, perhaps nothing.
pub proof fn occurrences_can_be_cut_out(needle: Seq<char>, hay: Seq<char>)
    ensures
        occurs(needle, hay) <==> exists|a: Seq<char>, b: Seq<char>| hay == #[trigger] (a + needle
            + b),
{
    if occurs(needle, hay) {
        let i = choose|i: int|
            0 <= i <= hay.len() - needle.len() && #[trigger] hay.subrange(i, i + needle.len())
                == needle;
        let a = hay.take(i);
        let b = hay.skip(i + needle.len());
        assert(hay =~= a + needle + b);
    }
    if exists|a: Seq<char>, b: Seq<char>| hay == #[trigger] (a + needle + b) {
        let (a, b) = choose|a: Seq<char>, b: Seq<char>| hay == #[trigger] (a + needle + b);
        let i = a.len() as int;
        assert(hay.subrange(i, i + needle.len()) =~= needle);
    }
}

} // verus!
