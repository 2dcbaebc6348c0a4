//! Text helpers: the few string operations the rest of the crate needs, over sequences of
//! characters.

use vstd::prelude::*;

verus! {

/// `String::push`: appends one character at the end of the string.
pub assume_specification[ String::push ](s: &mut String, ch: char)
    ensures
        final(s)@ == old(s)@.push(ch),
;

/// The characters of a string, in order.
pub fn chars_of(s: &str) -> (out: Vec<char>)
    ensures
        out@ == s@,
{
    let mut out: Vec<char> = Vec::new();
    for c in it: s.chars()
        invariant
            out@ == s@.take(it.index()),
            it.seq() == s@,
    {
        out.push(c);
    }
    out
}

/// The string that holds exactly these characters.
pub fn text_of(chars: &[char]) -> (out: String)
    ensures
        out@ == chars@,
{
    let mut out = String::new();
    let mut i: usize = 0;
    while i < chars.len()
        invariant
            i <= chars@.len(),
            out@ == chars@.take(i as int),
        decreases chars@.len() - i,
    {
        out.push(chars[i]);
        i += 1;
        assert(chars@.take(i as int) == chars@.take(i - 1).push(chars@[i - 1]));
    }
    assert(chars@.take(i as int) == chars@);
    out
}

/// Whether two character slices hold the same characters.
pub fn same_chars(a: &[char], b: &[char]) -> (r: bool)
    ensures
        r == (a@ == b@),
{
    if a.len() != b.len() {
        return false;
    }
    let mut i: usize = 0;
    while i < a.len()
        invariant
            i <= a@.len(),
            a@.len() == b@.len(),
            forall|j: int| 0 <= j < i ==> a@[j] == b@[j],
        decreases a@.len() - i,
    {
        if a[i] != b[i] {
            return false;
        }
        i += 1;
    }
    assert(a@ =~= b@);
    true
}

/// Whether two strings hold the same characters.
pub fn same(a: &str, b: &str) -> (r: bool)
    ensures
        r == (a@ == b@),
{
    same_chars(chars_of(a).as_slice(), chars_of(b).as_slice())
}

/// An ASCII capital becomes its small letter; every other character stays.
pub open spec fn lower(c: char) -> char {
    if 'A' <= c && c <= 'Z' {
        ((c as u32) + 32) as char
    } else {
        c
    }
}

/// Every character of `s` lowered.
pub open spec fn lowered(s: Seq<char>) -> Seq<char> {
    Seq::new(s.len(), |i: int| lower(s[i]))
}

/// Lowers every ASCII capital of a string.
pub fn ascii_lower(s: &str) -> (out: Vec<char>)
    ensures
        out@ == lowered(s@),
{
    let chars = chars_of(s);
    let mut out: Vec<char> = Vec::new();
    let mut i: usize = 0;
    while i < chars.len()
        invariant
            i <= chars@.len(),
            chars@ == s@,
            out@ == lowered(s@).take(i as int),
        decreases chars@.len() - i,
    {
        let c = chars[i];
        if 'A' <= c && c <= 'Z' {
            out.push(((c as u8) + 32) as char);
        } else {
            out.push(c);
        }
        i += 1;
        assert(lowered(s@).take(i as int) == lowered(s@).take(i - 1).push(lower(s@[i - 1])));
    }
    assert(lowered(s@).take(i as int) == lowered(s@));
    out
}

/// `needle` stands in `hay` from position `at` on.
pub open spec fn stands_at(hay: Seq<char>, needle: Seq<char>, at: int) -> bool {
    0 <= at && at + needle.len() <= hay.len() && hay.subrange(at, at + needle.len()) == needle
}

/// `needle` occurs somewhere in `hay`.
pub open spec fn occurs(hay: Seq<char>, needle: Seq<char>) -> bool {
    exists|at: int| stands_at(hay, needle, at)
}

/// Whether `needle` stands in `hay` from position `at` on.
pub fn matches_at(hay: &[char], needle: &[char], at: usize) -> (r: bool)
    requires
        at + needle@.len() <= hay@.len(),
    ensures
        r == stands_at(hay@, needle@, at as int),
{
    let len: usize = hay.len();
    let mut j: usize = 0;
    while j < needle.len()
        invariant
            len == hay@.len(),
            at + needle@.len() <= len,
            j <= needle@.len(),
            forall|k: int| 0 <= k < j ==> hay@[at + k] == needle@[k],
        decreases needle@.len() - j,
    {
        if hay[at + j] != needle[j] {
            assert(hay@.subrange(at as int, at + needle@.len())[j as int] == hay@[at + j]);
            return false;
        }
        j += 1;
    }
    assert(hay@.subrange(at as int, at + needle@.len()) =~= needle@);
    true
}

/// Whether `needle` occurs in `hay`.
pub fn contains(hay: &[char], needle: &[char]) -> (r: bool)
    ensures
        r == occurs(hay@, needle@),
{
    if needle.len() > hay.len() {
        assert(forall|at: int| !stands_at(hay@, needle@, at));
        return false;
    }
    let last: usize = hay.len() - needle.len();
    let mut at: usize = 0;
    while at < last
        invariant
            last == hay@.len() - needle@.len(),
            at <= last,
            forall|k: int| 0 <= k < at ==> !stands_at(hay@, needle@, k),
        decreases last - at,
    {
        if matches_at(hay, needle, at) {
            return true;
        }
        at += 1;
    }
    assert(forall|k: int| stands_at(hay@, needle@, k) ==> 0 <= k <= last);
    matches_at(hay, needle, last)
}

/// The characters with the Unicode property White_Space.
pub open spec fn is_space(c: char) -> bool {
    let u = c as u32;
    ||| 0x9 <= u <= 0xD
    ||| u == 0x20
    ||| u == 0x85
    ||| u == 0xA0
    ||| u == 0x1680
    ||| 0x2000 <= u <= 0x200A
    ||| u == 0x2028
    ||| u == 0x2029
    ||| u == 0x202F
    ||| u == 0x205F
    ||| u == 0x3000
}

/// Whether a character has the Unicode property White_Space.
pub fn white(c: char) -> (r: bool)
    ensures
        r == is_space(c),
{
    let u: u32 = c as u32;
    (0x9 <= u && u <= 0xD) || u == 0x20 || u == 0x85 || u == 0xA0 || u == 0x1680 || (0x2000 <= u
        && u <= 0x200A) || u == 0x2028 || u == 0x2029 || u == 0x202F || u == 0x205F || u == 0x3000
}

/// `s` without the white space at its start.
pub open spec fn trimmed_start(s: Seq<char>) -> Seq<char>
    decreases s.len(),
{
    if s.len() > 0 && is_space(s[0]) {
        trimmed_start(s.drop_first())
    } else {
        s
    }
}

/// `s` without the white space at its end.
pub open spec fn trimmed_end(s: Seq<char>) -> Seq<char>
    decreases s.len(),
{
    if s.len() > 0 && is_space(s.last()) {
        trimmed_end(s.drop_last())
    } else {
        s
    }
}

/// `s` without the white space at both ends.
pub open spec fn trimmed(s: Seq<char>) -> Seq<char> {
    trimmed_end(trimmed_start(s))
}

/// Removes the white space at both ends.
pub fn trim(s: &[char]) -> (out: Vec<char>)
    ensures
        out@ == trimmed(s@),
{
    let mut from: usize = 0;
    assert(s@.skip(0) == s@);
    while from < s.len() && white(s[from])
        invariant
            from <= s@.len(),
            trimmed_start(s@.skip(from as int)) == trimmed_start(s@),
        decreases s@.len() - from,
    {
        assert(s@.skip(from as int).drop_first() == s@.skip(from + 1));
        from += 1;
    }
    let mut to: usize = s.len();
    let ghost rest = s@.skip(from as int);
    assert(trimmed_start(s@) == rest);
    assert(s@.subrange(from as int, to as int) == rest);
    while from < to && white(s[to - 1])
        invariant
            from <= to <= s@.len(),
            trimmed_end(s@.subrange(from as int, to as int)) == trimmed_end(rest),
        decreases to - from,
    {
        assert(s@.subrange(from as int, to as int).drop_last() == s@.subrange(
            from as int,
            to - 1,
        ));
        to -= 1;
    }
    let mut out: Vec<char> = Vec::new();
    let mut i: usize = from;
    while i < to
        invariant
            from <= i <= to <= s@.len(),
            out@ == s@.subrange(from as int, i as int),
        decreases to - i,
    {
        out.push(s[i]);
        i += 1;
        assert(s@.subrange(from as int, i as int) == s@.subrange(from as int, i - 1).push(
            s@[i - 1],
        ));
    }
    out
}

/// The pieces of `s` between the separators; always at least one piece.
pub open spec fn split_on(s: Seq<char>, sep: char) -> Seq<Seq<char>>
    decreases s.len(),
{
    if s.len() == 0 {
        seq![Seq::<char>::empty()]
    } else {
        let front = split_on(s.drop_last(), sep);
        if s.last() == sep {
            front.push(Seq::<char>::empty())
        } else {
            front.update(front.len() - 1, front.last().push(s.last()))
        }
    }
}

/// A split has at least one piece.
pub proof fn lemma_split_nonempty(s: Seq<char>, sep: char)
    ensures
        split_on(s, sep).len() >= 1,
    decreases s.len(),
{
    if s.len() > 0 {
        lemma_split_nonempty(s.drop_last(), sep);
    }
}

/// A text without the separator is its own only piece.
pub proof fn lemma_split_one(s: Seq<char>, sep: char)
    requires
        !s.contains(sep),
    ensures
        split_on(s, sep) == seq![s],
    decreases s.len(),
{
    if s.len() > 0 {
        assert(s.last() != sep) by {
            assert(s.contains(s.last()));
        }
        assert forall|i: int| 0 <= i < s.drop_last().len() implies s.drop_last()[i] != sep by {
            assert(s.contains(s[i]));
        }
        lemma_split_one(s.drop_last(), sep);
        assert(s.drop_last().push(s.last()) == s);
    } else {
        assert(s == Seq::<char>::empty());
    }
    assert(split_on(s, sep) =~= seq![s]);
}

/// The pieces of two texts joined by the separator are those of the first, then those of the
/// second.
pub proof fn lemma_split_join(a: Seq<char>, b: Seq<char>, sep: char)
    ensures
        split_on(a.push(sep) + b, sep) == split_on(a, sep) + split_on(b, sep),
    decreases b.len(),
{
    let s = a.push(sep) + b;
    let left = split_on(a, sep);
    let right = split_on(b, sep);
    if b.len() == 0 {
        assert(s.drop_last() =~= a);
        assert(s.last() == sep);
        assert(split_on(s, sep) =~= left + right);
    } else {
        let c = b.drop_last();
        lemma_split_join(a, c, sep);
        lemma_split_nonempty(c, sep);
        assert(s.drop_last() =~= a.push(sep) + c);
        assert(s.last() == b.last());
        let front = left + split_on(c, sep);
        assert(front.last() == split_on(c, sep).last());
        assert(split_on(s, sep) =~= left + right);
    }
}

/// A text that neither starts nor ends with white space is trimmed already.
pub proof fn lemma_trimmed_same(s: Seq<char>)
    requires
        s.len() > 0 ==> !is_space(s[0]) && !is_space(s.last()),
    ensures
        trimmed(s) == s,
{
}

/// The characters of each vector.
pub open spec fn views(v: Seq<Vec<char>>) -> Seq<Seq<char>> {
    Seq::new(v.len(), |i: int| v[i]@)
}

/// Splits at every separator.
pub fn split(s: &[char], sep: char) -> (out: Vec<Vec<char>>)
    ensures
        views(out@) == split_on(s@, sep),
{
    let mut out: Vec<Vec<char>> = Vec::new();
    let mut piece: Vec<char> = Vec::new();
    let mut i: usize = 0;
    assert(views(out@).push(piece@) =~= split_on(s@.take(0), sep));
    while i < s.len()
        invariant
            i <= s@.len(),
            views(out@).push(piece@) == split_on(s@.take(i as int), sep),
        decreases s@.len() - i,
    {
        let ghost before = views(out@).push(piece@);
        let c = s[i];
        assert(s@.take(i + 1).drop_last() == s@.take(i as int));
        assert(s@.take(i + 1).last() == c);
        if c == sep {
            out.push(piece);
            piece = Vec::new();
            assert(views(out@).push(piece@) =~= before.push(Seq::<char>::empty()));
        } else {
            piece.push(c);
            assert(views(out@).push(piece@) =~= before.update(
                before.len() - 1,
                before.last().push(c),
            ));
        }
        i += 1;
    }
    assert(s@.take(i as int) == s@);
    let ghost before = views(out@).push(piece@);
    out.push(piece);
    assert(views(out@) =~= before);
    out
}

/// The character of a digit: 0 to 9, then A to F.
pub open spec fn digit_char(d: nat) -> char {
    if d < 10 {
        (48 + d) as char
    } else {
        (55 + d) as char
    }
}

/// The character of a digit below sixteen.
pub fn digit(d: u32) -> (c: char)
    requires
        d < 16,
    ensures
        c == digit_char(d as nat),
{
    if d < 10 {
        (48 + d as u8) as char
    } else {
        (55 + d as u8) as char
    }
}

/// A natural number written in decimal, without leading zeros.
pub open spec fn decimal(n: nat) -> Seq<char>
    decreases n,
{
    if n < 10 {
        seq![digit_char(n)]
    } else {
        decimal(n / 10).push(digit_char(n % 10))
    }
}

/// An integer written in decimal, with a minus sign where it is negative.
pub open spec fn signed_decimal(n: int) -> Seq<char> {
    if n < 0 {
        seq!['-'] + decimal((-n) as nat)
    } else {
        decimal(n as nat)
    }
}

/// Appends a number in decimal.
pub fn push_decimal(s: &mut String, n: u64)
    ensures
        final(s)@ == old(s)@ + decimal(n as nat),
    decreases n,
{
    if n >= 10 {
        push_decimal(s, n / 10);
    }
    s.push(digit((n % 10) as u32));
    assert(s@ =~= old(s)@ + decimal(n as nat));
}

/// Appends an integer in decimal.
pub fn push_signed(s: &mut String, n: i32)
    ensures
        final(s)@ == old(s)@ + signed_decimal(n as int),
{
    if n < 0 {
        s.push('-');
        push_decimal(s, (-(n as i64)) as u64);
        assert(s@ =~= old(s)@ + signed_decimal(n as int));
    } else {
        push_decimal(s, n as u64);
    }
}

/// `s` with spaces before it, up to `width` characters.
pub open spec fn padded(s: Seq<char>, width: nat) -> Seq<char> {
    if s.len() >= width {
        s
    } else {
        Seq::new((width - s.len()) as nat, |i: int| ' ') + s
    }
}

/// Appends an integer in decimal, right-aligned.
pub fn push_padded(s: &mut String, n: i32, width: usize)
    ensures
        final(s)@ == old(s)@ + padded(signed_decimal(n as int), width as nat),
{
    let mut number = String::new();
    push_signed(&mut number, n);
    let digits = chars_of(number.as_str());
    let ghost start = s@;
    let mut i: usize = digits.len();
    assert(s@ =~= start + Seq::new(0, |j: int| ' '));
    while i < width
        invariant
            digits@.len() <= i,
            i <= width || i == digits@.len(),
            s@ == start + Seq::new((i - digits@.len()) as nat, |j: int| ' '),
        decreases width - i,
    {
        s.push(' ');
        i += 1;
        assert(s@ =~= start + Seq::new((i - digits@.len()) as nat, |j: int| ' '));
    }
    s.append(number.as_str());
    assert(number@ =~= signed_decimal(n as int));
    assert(s@ =~= old(s)@ + padded(signed_decimal(n as int), width as nat));
}

/// The four hexadecimal digits of a 16-bit number, in capitals.
pub open spec fn hex4(n: u16) -> Seq<char> {
    seq![
        digit_char((n / 4096) as nat),
        digit_char((n / 256 % 16) as nat),
        digit_char((n / 16 % 16) as nat),
        digit_char((n % 16) as nat),
    ]
}

/// Appends the four hexadecimal digits of a 16-bit number.
pub fn push_hex4(s: &mut String, n: u16)
    ensures
        final(s)@ == old(s)@ + hex4(n),
{
    s.push(digit((n / 4096) as u32));
    s.push(digit((n / 256 % 16) as u32));
    s.push(digit((n / 16 % 16) as u32));
    s.push(digit((n % 16) as u32));
    assert(s@ =~= old(s)@ + hex4(n));
}

/// The two hexadecimal digits of a byte, in capitals.
pub open spec fn hex2(n: u8) -> Seq<char> {
    seq![digit_char((n / 16) as nat), digit_char((n % 16) as nat)]
}

/// Appends the two hexadecimal digits of a byte.
pub fn push_hex2(s: &mut String, n: u8)
    ensures
        final(s)@ == old(s)@ + hex2(n),
{
    s.push(digit((n / 16) as u32));
    s.push(digit((n % 16) as u32));
    assert(s@ =~= old(s)@ + hex2(n));
}

/// The value of a digit of either case, or `None` where the character is no digit below
/// sixteen.
pub open spec fn digit_value(c: char) -> Option<nat> {
    let u = c as nat;
    if 48 <= u <= 57 {
        Some((u - 48) as nat)
    } else if 65 <= u <= 70 {
        Some((u - 55) as nat)
    } else if 97 <= u <= 102 {
        Some((u - 87) as nat)
    } else {
        None
    }
}

/// The number that a row of digits stands for, or `None` where a character is no digit below
/// `radix`. No digits stand for zero.
pub open spec fn digits_value(s: Seq<char>, radix: nat) -> Option<nat>
    decreases s.len(),
{
    if s.len() == 0 {
        Some(0)
    } else {
        match (digits_value(s.drop_last(), radix), digit_value(s.last())) {
            (Some(v), Some(d)) => if d < radix {
                Some(v * radix + d)
            } else {
                None
            },
            _ => None,
        }
    }
}

/// The digits of a number: what follows one leading plus sign, if there is one.
pub open spec fn unsigned_part(s: Seq<char>) -> Seq<char> {
    if s.len() > 0 && s[0] == '+' {
        s.drop_first()
    } else {
        s
    }
}

/// The 16-bit number that `s` writes in `radix`: at least one digit, after at most one plus
/// sign, and no value above 65535.
pub open spec fn u16_value(s: Seq<char>, radix: nat) -> Option<u16> {
    let t = unsigned_part(s);
    if t.len() == 0 {
        None
    } else {
        match digits_value(t, radix) {
            Some(v) => if v <= u16::MAX {
                Some(v as u16)
            } else {
                None
            },
            None => None,
        }
    }
}

/// The value of a digit of either case.
pub fn read_digit(c: char) -> (r: Option<u32>)
    ensures
        r is Some == digit_value(c) is Some,
        r matches Some(d) ==> digit_value(c) == Some(d as nat) && d < 16,
{
    let u: u32 = c as u32;
    if 48 <= u && u <= 57 {
        Some(u - 48)
    } else if 65 <= u && u <= 70 {
        Some(u - 55)
    } else if 97 <= u && u <= 102 {
        Some(u - 87)
    } else {
        None
    }
}

/// A row of digits with a prefix that stands for no number stands for none; one whose prefix
/// is above a bound is above it.
proof fn lemma_digits_prefix(s: Seq<char>, n: int, radix: nat, bound: nat)
    requires
        0 <= n <= s.len(),
        radix >= 1,
        digits_value(s.take(n), radix) matches Some(v) ==> v > bound,
    ensures
        digits_value(s, radix) matches Some(v) ==> v > bound,
    decreases s.len() - n,
{
    if n == s.len() {
        assert(s.take(n) == s);
    } else {
        assert(s.take(n + 1).drop_last() == s.take(n));
        match (digits_value(s.take(n), radix), digit_value(s.take(n + 1).last())) {
            (Some(v), Some(d)) => {
                assert(v * radix + d >= v) by (nonlinear_arith)
                    requires
                        radix >= 1,
                        v >= 0,
                        d >= 0,
                ;
            },
            _ => {},
        }
        lemma_digits_prefix(s, n + 1, radix, bound);
    }
}

/// Reads a 16-bit number in base 2 to 16.
pub fn parse_u16(s: &[char], radix: u32) -> (r: Option<u16>)
    requires
        2 <= radix <= 16,
    ensures
        r == u16_value(s@, radix as nat),
{
    let from: usize = if s.len() > 0 && s[0] == '+' {
        1
    } else {
        0
    };
    let ghost t = unsigned_part(s@);
    assert(t == s@.skip(from as int));
    if from == s.len() {
        return None;
    }
    let mut acc: u32 = 0;
    let mut i: usize = from;
    while i < s.len()
        invariant
            from <= i <= s@.len(),
            2 <= radix <= 16,
            t == unsigned_part(s@),
            t == s@.skip(from as int),
            acc <= u16::MAX,
            digits_value(t.take(i - from), radix as nat) == Some(acc as nat),
        decreases s@.len() - i,
    {
        let ghost n = i - from;
        assert(t.take(n + 1).drop_last() == t.take(n));
        assert(t.take(n + 1).last() == s@[i as int]);
        match read_digit(s[i]) {
            None => {
                proof {
                    lemma_digits_prefix(t, n + 1, radix as nat, u16::MAX as nat);
                }
                return None;
            },
            Some(d) => {
                if d >= radix {
                    proof {
                        lemma_digits_prefix(t, n + 1, radix as nat, u16::MAX as nat);
                    }
                    return None;
                }
                assert(acc * radix <= 65535 * 16) by (nonlinear_arith)
                    requires
                        acc <= 65535,
                        radix <= 16,
                ;
                acc = acc * radix + d;
                if acc > 65535 {
                    proof {
                        lemma_digits_prefix(t, n + 1, radix as nat, u16::MAX as nat);
                    }
                    return None;
                }
            },
        }
        i += 1;
    }
    assert(t.take(i - from) == t);
    Some(acc as u16)
}

/// The texts one after the other, with `sep` between two of them.
pub open spec fn joined(list: Seq<Seq<char>>, sep: Seq<char>) -> Seq<char>
    decreases list.len(),
{
    if list.len() == 0 {
        Seq::empty()
    } else if list.len() == 1 {
        list[0]
    } else {
        joined(list.drop_last(), sep) + sep + list.last()
    }
}

/// The characters of each string.
pub open spec fn texts(list: Seq<String>) -> Seq<Seq<char>> {
    Seq::new(list.len(), |i: int| list[i]@)
}

/// Joins strings with a separator.
pub fn join(list: &Vec<String>, sep: &str) -> (out: String)
    ensures
        out@ == joined(texts(list@), sep@),
{
    let mut out = String::new();
    let ghost all = texts(list@);
    let mut i: usize = 0;
    assert(all.take(0) == Seq::<Seq<char>>::empty());
    while i < list.len()
        invariant
            i <= list@.len(),
            all == texts(list@),
            out@ == joined(all.take(i as int), sep@),
        decreases list@.len() - i,
    {
        let ghost before = all.take(i as int);
        let ghost after = all.take(i + 1);
        assert(after.drop_last() == before);
        assert(after.last() == list@[i as int]@);
        if i > 0 {
            out.append(sep);
        }
        out.append(list[i].as_str());
        i += 1;
        assert(out@ =~= joined(after, sep@));
    }
    assert(all.take(i as int) == all);
    out
}

/// A string with the same characters.
pub fn owned(s: &str) -> (out: String)
    ensures
        out@ == s@,
{
    s.to_owned()
}

/// A capital letter from A to Z becomes the letter 32 codes further on; every other character
/// stays, and so does the length.
pub proof fn law_lowered(s: Seq<char>, i: int)
    requires
        0 <= i < s.len(),
    ensures
        lowered(s).len() == s.len(),
        65 <= s[i] as u32 <= 90 ==> lowered(s)[i] as u32 == s[i] as u32 + 32,
        !(65 <= s[i] as u32 <= 90) ==> lowered(s)[i] == s[i],
{
}

/// What stands between two texts occurs in the whole.
pub proof fn law_occurs_between(a: Seq<char>, needle: Seq<char>, b: Seq<char>)
    ensures
        occurs(a + needle + b, needle),
{
    assert((a + needle + b).subrange(a.len() as int, (a.len() + needle.len()) as int) =~= needle);
    assert(stands_at(a + needle + b, needle, a.len() as int));
}

/// What occurs in a text stands somewhere in it, with something before it and something behind.
pub proof fn law_occurs_means(hay: Seq<char>, needle: Seq<char>)
    requires
        occurs(hay, needle),
    ensures
        exists|a: Seq<char>, b: Seq<char>| #![trigger a + needle + b] hay == a + needle + b,
{
    let at = choose|at: int| stands_at(hay, needle, at);
    let a = hay.take(at);
    let b = hay.skip(at + needle.len());
    assert(hay =~= a + hay.subrange(at, at + needle.len()) + b);
}

/// White space, by the codes of its characters.
pub proof fn law_white_space(c: char)
    ensures
        c == ' ' || c == '\t' || c == '\n' || c == '\r' ==> is_space(c),
        0x21 <= c as u32 <= 0x84 ==> !is_space(c),
        c as u32 <= 0x20 ==> is_space(c) == (c as u32 == 0x20 || 9 <= c as u32 <= 13),
        c as u32 == 0x85 || c as u32 == 0xA0 || c as u32 == 0x3000 ==> is_space(c),
        c as u32 == 0x1680 || 0x2000 <= c as u32 <= 0x200A ==> is_space(c),
        c as u32 == 0x2028 || c as u32 == 0x2029 ==> is_space(c),
        c as u32 == 0x202F || c as u32 == 0x205F ==> is_space(c),
        0x86 <= c as u32 <= 0x9F || 0xA1 <= c as u32 <= 0x167F ==> !is_space(c),
        0x1681 <= c as u32 <= 0x1FFF || 0x200B <= c as u32 <= 0x2027 ==> !is_space(c),
        0x202A <= c as u32 <= 0x202E || 0x2030 <= c as u32 <= 0x205E ==> !is_space(c),
        0x2060 <= c as u32 <= 0x2FFF || c as u32 > 0x3000 ==> !is_space(c),
{
}

/// Trimming takes white space away at both ends, all of it and nothing else.
pub proof fn law_trimmed(s: Seq<char>)
    ensures
        exists|a: Seq<char>, b: Seq<char>|
            #![trigger a + trimmed(s) + b]
            s == a + trimmed(s) + b && all_space(a) && all_space(b),
        trimmed(s).len() > 0 ==> !is_space(trimmed(s)[0]) && !is_space(trimmed(s).last()),
{
    lemma_trimmed_start(s);
    let t = trimmed_start(s);
    let a = choose|a: Seq<char>| s == #[trigger] (a + t) && all_space(a);
    lemma_trimmed_end(t);
    let b = choose|b: Seq<char>| t == #[trigger] (trimmed_end(t) + b) && all_space(b);
    assert(s =~= a + trimmed(s) + b);
    if trimmed(s).len() > 0 {
        assert(t[0] == trimmed(s)[0]);
    }
}

/// All characters are white space.
pub open spec fn all_space(s: Seq<char>) -> bool {
    forall|i: int| 0 <= i < s.len() ==> is_space(#[trigger] s[i])
}

proof fn lemma_trimmed_start(s: Seq<char>)
    ensures
        exists|a: Seq<char>| s == #[trigger] (a + trimmed_start(s)) && all_space(a),
        trimmed_start(s).len() > 0 ==> !is_space(trimmed_start(s)[0]),
    decreases s.len(),
{
    if s.len() > 0 && is_space(s[0]) {
        let r = s.drop_first();
        lemma_trimmed_start(r);
        let a = choose|a: Seq<char>| r == #[trigger] (a + trimmed_start(r)) && all_space(a);
        let c = seq![s[0]] + a;
        assert(trimmed_start(s) == trimmed_start(r));
        assert(s =~= seq![s[0]] + r);
        assert(s =~= c + trimmed_start(s));
        assert forall|i: int| 0 <= i < c.len() implies is_space(#[trigger] c[i]) by {
            if i > 0 {
                assert(c[i] == a[i - 1]);
            }
        }
    } else {
        let c = Seq::<char>::empty();
        assert(s =~= c + trimmed_start(s));
        assert(all_space(c));
    }
}

proof fn lemma_trimmed_end(s: Seq<char>)
    ensures
        exists|b: Seq<char>| s == #[trigger] (trimmed_end(s) + b) && all_space(b),
        trimmed_end(s).len() > 0 ==> !is_space(trimmed_end(s).last()),
    decreases s.len(),
{
    if s.len() > 0 && is_space(s.last()) {
        let r = s.drop_last();
        lemma_trimmed_end(r);
        let b = choose|b: Seq<char>| r == #[trigger] (trimmed_end(r) + b) && all_space(b);
        let c = b.push(s.last());
        assert(trimmed_end(s) == trimmed_end(r));
        assert(s =~= r.push(s.last()));
        assert(s =~= trimmed_end(s) + c);
        assert forall|i: int| 0 <= i < c.len() implies is_space(#[trigger] c[i]) by {
            if i < b.len() {
                assert(c[i] == b[i]);
            }
        }
    } else {
        let c = Seq::<char>::empty();
        assert(s =~= trimmed_end(s) + c);
        assert(all_space(c));
    }
}

/// Splitting cuts at every separator and nowhere else: the pieces hold none, and joined by it
/// they are the text again.
pub proof fn law_split(s: Seq<char>, sep: char)
    ensures
        split_on(s, sep).len() >= 1,
        joined(split_on(s, sep), seq![sep]) == s,
        forall|i: int| 0 <= i < split_on(s, sep).len() ==> !(#[trigger] split_on(s, sep)[i]).contains(sep),
    decreases s.len(),
{
    lemma_split_nonempty(s, sep);
    let parts = split_on(s, sep);
    if s.len() == 0 {
        law_joined_one(Seq::<char>::empty(), seq![sep]);
        assert(parts =~= seq![Seq::<char>::empty()]);
        assert(s =~= Seq::<char>::empty());
    } else {
        let r = s.drop_last();
        let front = split_on(r, sep);
        law_split(r, sep);
        lemma_split_nonempty(r, sep);
        if s.last() == sep {
            law_joined_next(front, Seq::<char>::empty(), seq![sep]);
            assert(r + seq![sep] + Seq::<char>::empty() =~= s);
            assert forall|i: int| 0 <= i < parts.len() implies !(#[trigger] parts[i]).contains(
                sep,
            ) by {
                if i < front.len() {
                    assert(parts[i] == front[i]);
                }
            }
        } else {
            let init = front.drop_last();
            let last = front.last();
            assert(front =~= init.push(last));
            assert(parts =~= init.push(last.push(s.last())));
            if init.len() > 0 {
                law_joined_next(init, last, seq![sep]);
                law_joined_next(init, last.push(s.last()), seq![sep]);
                assert(joined(parts, seq![sep]) =~= r.push(s.last()));
            } else {
                assert(front =~= seq![last]);
                assert(parts =~= seq![last.push(s.last())]);
                law_joined_one(last, seq![sep]);
                law_joined_one(last.push(s.last()), seq![sep]);
            }
            assert(r.push(s.last()) =~= s);
            assert forall|i: int| 0 <= i < parts.len() implies !(#[trigger] parts[i]).contains(
                sep,
            ) by {
                if i < init.len() {
                    assert(parts[i] == front[i]);
                } else {
                    assert(!front[front.len() - 1].contains(sep));
                    let p = parts[i];
                    if p.contains(sep) {
                        let j = choose|j: int| 0 <= j < p.len() && p[j] == sep;
                        assert(j < last.len() ==> last[j] == sep);
                    }
                }
            }
        }
    }
}

/// One text joined is itself, whatever the separator.
pub proof fn law_joined_one(a: Seq<char>, sep: Seq<char>)
    ensures
        joined(seq![a], sep) == a,
        joined(Seq::empty(), sep) == Seq::<char>::empty(),
{
    reveal_with_fuel(joined, 2);
    assert(seq![a].drop_last() =~= Seq::<Seq<char>>::empty());
    assert(joined(seq![a], sep) =~= a);
}

/// One more text comes behind the others, after a separator.
pub proof fn law_joined_next(list: Seq<Seq<char>>, a: Seq<char>, sep: Seq<char>)
    requires
        list.len() > 0,
    ensures
        joined(list.push(a), sep) == joined(list, sep) + sep + a,
{
    assert(list.push(a).drop_last() =~= list);
    assert(joined(list.push(a), sep) =~= joined(list, sep) + sep + a);
}

/// The characters of digits: 0 to 9 have the codes from 48 on, A to F those from 65 on.
pub proof fn law_digit_char(d: nat)
    requires
        d < 16,
    ensures
        d < 10 ==> digit_char(d) as u32 == 48 + d,
        d >= 10 ==> digit_char(d) as u32 == 65 + (d - 10),
        digit_value(digit_char(d)) == Some(d),
{
}

/// The value of a digit is read from its character, of either case; other characters have none.
pub proof fn law_digit_value(c: char)
    ensures
        digit_value(c) matches Some(d) ==> d < 16 && (c == digit_char(d) || (c as u32 == 97 + (d
            - 10) && d >= 10)),
        digit_value(c) is None ==> !(48 <= c as u32 <= 57) && !(65 <= c as u32 <= 70) && !(97
            <= c as u32 <= 102),
        97 <= c as u32 <= 102 ==> digit_value(c) == Some((c as u32 - 87) as nat),
{
}

/// A number in decimal reads back as that number, holds digits alone, and has no zero in front.
pub proof fn law_decimal_reads_back(n: nat)
    ensures
        digits_value(decimal(n), 10) == Some(n),
        decimal(n).len() >= 1,
        n > 0 ==> decimal(n)[0] != '0',
        n == 0 ==> decimal(n) == seq!['0'],
        forall|i: int| 0 <= i < decimal(n).len() ==> 48 <= #[trigger] decimal(n)[i] as u32 <= 57,
    decreases n,
{
    if n < 10 {
        reveal_with_fuel(digits_value, 2);
        law_digit_char(n);
        assert(decimal(n).drop_last() =~= Seq::<char>::empty());
        assert(decimal(n).last() == digit_char(n));
        assert(0 * 10 + n == n);
        assert(decimal(n)[0] as u32 == 48 + n);
        if n == 0 {
            assert(decimal(n) =~= seq!['0']);
        }
    } else {
        let q = decimal(n / 10);
        law_decimal_reads_back(n / 10);
        law_digit_char(n % 10);
        assert(decimal(n).drop_last() =~= q);
        assert(decimal(n).last() == digit_char(n % 10));
        assert(digits_value(q, 10) == Some(n / 10));
        assert((n / 10) * 10 + n % 10 == n);
        assert(decimal(n)[0] == q[0]);
        if n / 10 < 10 {
            assert(q[0] == digit_char(n / 10));
        }
        assert forall|i: int| 0 <= i < decimal(n).len() implies 48 <= #[trigger] decimal(
            n,
        )[i] as u32 <= 57 by {
            if i < q.len() {
                assert(decimal(n)[i] == q[i]);
            }
        }
    }
}

/// A row of digits has its value by place: each further digit counts once, those before it the
/// radix times as much.
pub proof fn law_place_value(s: Seq<char>, c: char, radix: nat)
    ensures
        digits_value(Seq::empty(), radix) == Some(0nat),
        digits_value(s.push(c), radix) == (match (digits_value(s, radix), digit_value(c)) {
            (Some(v), Some(d)) => if d < radix {
                Some(v * radix + d)
            } else {
                None
            },
            _ => None,
        }),
{
    assert(s.push(c).drop_last() =~= s);
}

/// A negative number has a minus sign and then the number without it.
pub proof fn law_signed_decimal(n: int)
    ensures
        n >= 0 ==> digits_value(signed_decimal(n), 10) == Some(n as nat),
        n < 0 ==> signed_decimal(n).len() > 0 && signed_decimal(n)[0] == '-' && digits_value(
            signed_decimal(n).drop_first(),
            10,
        ) == Some((-n) as nat),
{
    if n >= 0 {
        law_decimal_reads_back(n as nat);
    } else {
        law_decimal_reads_back((-n) as nat);
        assert(signed_decimal(n).drop_first() =~= decimal((-n) as nat));
    }
}

/// Padding puts blanks in front, up to the width and no further.
pub proof fn law_padded(s: Seq<char>, width: nat)
    ensures
        padded(s, width).len() == if s.len() < width {
            width
        } else {
            s.len()
        },
        padded(s, width).skip(padded(s, width).len() - s.len()) == s,
        forall|i: int|
            0 <= i < padded(s, width).len() - s.len() ==> #[trigger] padded(s, width)[i] == ' ',
{
    assert(padded(s, width).skip(padded(s, width).len() - s.len()) =~= s);
}

/// The hexadecimal digits of a 16-bit number are four and read back as that number.
pub proof fn law_hex4_reads_back(n: u16)
    ensures
        hex4(n).len() == 4,
        digits_value(hex4(n), 16) == Some(n as nat),
{
    let (a, b, c, d) = (
        (n / 4096) as nat,
        (n / 256 % 16) as nat,
        (n / 16 % 16) as nat,
        (n % 16) as nat,
    );
    let none = Seq::<char>::empty();
    let s1 = none.push(digit_char(a));
    let s2 = s1.push(digit_char(b));
    let s3 = s2.push(digit_char(c));
    let s4 = s3.push(digit_char(d));
    assert(hex4(n) =~= s4);
    lemma_one_more(none, 0, a);
    lemma_one_more(s1, a, b);
    lemma_one_more(s2, a * 16 + b, c);
    lemma_one_more(s3, (a * 16 + b) * 16 + c, d);
    assert(((a * 16 + b) * 16 + c) * 16 + d == n);
}

/// The hexadecimal digits of a byte are two and read back as that byte.
pub proof fn law_hex2_reads_back(n: u8)
    ensures
        hex2(n).len() == 2,
        digits_value(hex2(n), 16) == Some(n as nat),
{
    let (a, b) = ((n / 16) as nat, (n % 16) as nat);
    let none = Seq::<char>::empty();
    let s1 = none.push(digit_char(a));
    assert(hex2(n) =~= s1.push(digit_char(b)));
    lemma_one_more(none, 0, a);
    lemma_one_more(s1, a, b);
    assert(a * 16 + b == n);
}

proof fn lemma_one_more(s: Seq<char>, v: nat, d: nat)
    requires
        d < 16,
        s.len() == 0 ==> v == 0,
        s.len() > 0 ==> digits_value(s, 16) == Some(v),
    ensures
        digits_value(s.push(digit_char(d)), 16) == Some(v * 16 + d),
{
    law_digit_char(d);
    law_place_value(s, digit_char(d), 16);
    assert(s.len() == 0 ==> s =~= Seq::<char>::empty());
}

/// What a text writes as a 16-bit number: its digits' value, after at most one plus sign, where
/// there is a digit and the value is at most 65535.
pub proof fn law_u16_value(s: Seq<char>, radix: nat)
    ensures
        s.len() > 0 && s[0] != '+' ==> u16_value(seq!['+'] + s, radix) == u16_value(s, radix),
        u16_value(Seq::empty(), radix) is None,
        u16_value(seq!['+'], radix) is None,
        s.len() > 0 && s[0] == '+' ==> u16_value(seq!['+'] + s, radix) is None,
        s.len() > 0 && s[0] != '+' ==> (match digits_value(s, radix) {
            Some(v) => if v <= 65535 {
                u16_value(s, radix) == Some(v as u16)
            } else {
                u16_value(s, radix) is None
            },
            None => u16_value(s, radix) is None,
        }),
{
    assert((seq!['+'] + s).drop_first() =~= s);
    assert(seq!['+'].drop_first() =~= Seq::<char>::empty());
    if s.len() > 0 && s[0] == '+' {
        lemma_sign_is_no_digit(s, radix);
    }
}

proof fn lemma_sign_is_no_digit(s: Seq<char>, radix: nat)
    requires
        s.len() > 0,
        s[0] == '+',
    ensures
        digits_value(s, radix) is None,
    decreases s.len(),
{
    if s.len() > 1 {
        lemma_sign_is_no_digit(s.drop_last(), radix);
    }
}

/// A list of texts, character by character.
pub proof fn law_texts(list: Seq<String>, pieces: Seq<Vec<char>>, i: int)
    ensures
        texts(list).len() == list.len(),
        views(pieces).len() == pieces.len(),
        0 <= i < list.len() ==> texts(list)[i] == list[i]@,
        0 <= i < pieces.len() ==> views(pieces)[i] == pieces[i]@,
{
}

/// White space round a text that begins and ends without any is all that trimming takes away.
pub proof fn law_trim_undoes_blanks(a: Seq<char>, t: Seq<char>, b: Seq<char>)
    requires
        all_space(a),
        all_space(b),
        t.len() > 0,
        !is_space(t[0]),
        !is_space(t.last()),
    ensures
        trimmed(a + t + b) == t,
{
    assert(a + t + b =~= a + (t + b));
    lemma_start_blanks(a, t + b);
    assert((t + b)[0] == t[0]);
    lemma_end_blanks(t, b);
}

proof fn lemma_start_blanks(a: Seq<char>, t: Seq<char>)
    requires
        all_space(a),
    ensures
        trimmed_start(a + t) == trimmed_start(t),
    decreases a.len(),
{
    if a.len() == 0 {
        assert(a + t =~= t);
    } else {
        let r = a.drop_first();
        assert forall|i: int| 0 <= i < r.len() implies is_space(#[trigger] r[i]) by {
            assert(r[i] == a[i + 1]);
        }
        assert((a + t)[0] == a[0]);
        assert((a + t).drop_first() =~= r + t);
        lemma_start_blanks(r, t);
    }
}

proof fn lemma_end_blanks(t: Seq<char>, b: Seq<char>)
    requires
        all_space(b),
    ensures
        trimmed_end(t + b) == trimmed_end(t),
    decreases b.len(),
{
    if b.len() == 0 {
        assert(t + b =~= t);
    } else {
        let r = b.drop_last();
        assert forall|i: int| 0 <= i < r.len() implies is_space(#[trigger] r[i]) by {
            assert(r[i] == b[i]);
        }
        assert((t + b).last() == b[b.len() - 1]);
        assert((t + b).drop_last() =~= t + r);
        lemma_end_blanks(t, r);
    }
}

} // verus!
