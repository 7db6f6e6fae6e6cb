//! Characters, numbers and simple scanning over text.

use vstd::prelude::*;
use vstd::std_specs::iter::IteratorSpec;
use vstd::string::*;

verus! {

/// `String::push` of std appends one character.
pub assume_specification[ std::string::String::push ](s: &mut std::string::String, c: char)
    ensures
        final(s)@ == old(s)@.push(c),
;

/// The position of the first `x` in `s` at or after `i`, or the length of `s`.
pub open spec fn position_from<T>(s: Seq<T>, x: T, i: int) -> int
    decreases s.len() - i,
{
    if i < 0 || i >= s.len() {
        s.len() as int
    } else if s[i] == x {
        i
    } else {
        position_from(s, x, i + 1)
    }
}

/// The position of the first `x` in `s`, or the length of `s`.
pub open spec fn position<T>(s: Seq<T>, x: T) -> int {
    position_from(s, x, 0)
}

/// The pieces of `s` from `start` on, cut at every `c` at or after `i`.
pub open spec fn split_from(s: Seq<char>, c: char, start: int, i: int) -> Seq<Seq<char>>
    decreases s.len() - i,
{
    if i < 0 || i >= s.len() {
        seq![s.subrange(start, s.len() as int)]
    } else if s[i] == c {
        seq![s.subrange(start, i)] + split_from(s, c, i + 1, i + 1)
    } else {
        split_from(s, c, start, i + 1)
    }
}

/// The pieces between the occurrences of `c` in `s`.
pub open spec fn split(s: Seq<char>, c: char) -> Seq<Seq<char>> {
    split_from(s, c, 0, 0)
}

/// The value of `c` as a digit of the radix 16, or `None`.
pub open spec fn hex_digit(c: char) -> Option<nat> {
    if '0' <= c && c <= '9' {
        Some((c as int - '0' as int) as nat)
    } else if 'a' <= c && c <= 'f' {
        Some((c as int - 'a' as int + 10) as nat)
    } else if 'A' <= c && c <= 'F' {
        Some((c as int - 'A' as int + 10) as nat)
    } else {
        None
    }
}

/// Whether `c` is a digit of the radix.
pub open spec fn is_digit(c: char, radix: nat) -> bool {
    hex_digit(c) matches Some(d) && d < radix
}

/// Whether `s` is written in digits of the radix only.
pub open spec fn all_digits(s: Seq<char>, radix: nat) -> bool {
    forall|i: int| 0 <= i < s.len() ==> is_digit(#[trigger] s[i], radix)
}

/// The number that the digits of `s` write in the radix.
pub open spec fn digits_value(s: Seq<char>, radix: nat) -> nat
    decreases s.len(),
{
    if s.len() == 0 {
        0
    } else {
        digits_value(s.drop_last(), radix) * radix + hex_digit(s.last()).unwrap_or(0)
    }
}

/// The number that `s` writes in the radix, when it is at most `max`.
pub open spec fn number(s: Seq<char>, radix: nat, max: nat) -> Option<nat> {
    if s.len() > 0 && all_digits(s, radix) && digits_value(s, radix) <= max {
        Some(digits_value(s, radix))
    } else {
        None
    }
}

/// The digit character of `d`, in lower case.
pub open spec fn digit_char(d: nat) -> char {
    if d < 10 {
        ('0' as int + d) as char
    } else {
        ('a' as int + d - 10) as char
    }
}

/// `n` written in the radix without leading zeros.
pub open spec fn number_text(n: nat, radix: nat) -> Seq<char>
    decreases n,
{
    if radix < 2 || n < radix {
        seq![digit_char(n)]
    } else {
        proof {
            assert(n / radix < n) by (nonlinear_arith)
                requires
                    2 <= radix <= n,
            ;
        }
        number_text(n / radix, radix).push(digit_char(n % radix))
    }
}

/// `i` in decimal, with a minus sign when it is negative.
pub open spec fn int_text(i: int) -> Seq<char> {
    if i < 0 {
        seq!['-'] + number_text((-i) as nat, 10)
    } else {
        number_text(i as nat, 10)
    }
}

/// Upper case of an ASCII letter; any other character is kept.
pub open spec fn upper_char(c: char) -> char {
    if 'a' <= c && c <= 'z' {
        (c as int - 32) as char
    } else {
        c
    }
}

/// Lower case of an ASCII letter; any other character is kept.
pub open spec fn lower_char(c: char) -> char {
    if 'A' <= c && c <= 'Z' {
        (c as int + 32) as char
    } else {
        c
    }
}

/// `s` with its ASCII letters in upper case.
pub open spec fn ascii_upper(s: Seq<char>) -> Seq<char> {
    Seq::new(s.len(), |i: int| upper_char(s[i]))
}

/// `s` with its ASCII letters in lower case.
pub open spec fn ascii_lower(s: Seq<char>) -> Seq<char> {
    Seq::new(s.len(), |i: int| lower_char(s[i]))
}

/// Whether `c` has the White_Space property of Unicode.
pub open spec fn white_space(c: char) -> bool {
    let n = c as int;
    ||| 0x9 <= n <= 0xd
    ||| n == 0x20
    ||| n == 0x85
    ||| n == 0xa0
    ||| n == 0x1680
    ||| 0x2000 <= n <= 0x200a
    ||| n == 0x2028
    ||| n == 0x2029
    ||| n == 0x202f
    ||| n == 0x205f
    ||| n == 0x3000
}

/// Whether `s` starts with `prefix`.
pub open spec fn starts_with(s: Seq<char>, prefix: Seq<char>) -> bool {
    prefix.len() <= s.len() && s.subrange(0, prefix.len() as int) == prefix
}

/// Whether `a` stands before `b` in the order of their characters, both read
/// from position `i` on.
pub open spec fn text_before_from(a: Seq<char>, b: Seq<char>, i: int) -> bool
    decreases a.len() - i,
{
    if i < 0 || i >= a.len() {
        i < b.len()
    } else if i >= b.len() {
        false
    } else if a[i] != b[i] {
        a[i] < b[i]
    } else {
        text_before_from(a, b, i + 1)
    }
}

/// Whether `a` stands before `b` in the order of their characters.
pub open spec fn text_before(a: Seq<char>, b: Seq<char>) -> bool {
    text_before_from(a, b, 0)
}

/// Exactly one of two texts stands before the other, unless they are equal.
pub proof fn lemma_text_before_total(a: Seq<char>, b: Seq<char>, i: int)
    requires
        0 <= i <= a.len(),
        i <= b.len(),
        forall|k: int| 0 <= k < i ==> a[k] == b[k],
    ensures
        a == b ==> !text_before_from(a, b, i) && !text_before_from(b, a, i),
        a != b ==> text_before_from(a, b, i) != text_before_from(b, a, i),
    decreases a.len() - i,
{
    if i == a.len() {
        if i == b.len() {
            assert(a =~= b);
        }
    } else if i < b.len() && a[i] == b[i] {
        lemma_text_before_total(a, b, i + 1);
    } else if i < b.len() {
        assert(a != b);
    }
}

/// The order of texts is transitive.
pub proof fn lemma_text_before_transitive(a: Seq<char>, b: Seq<char>, c: Seq<char>, i: int)
    requires
        0 <= i,
        text_before_from(a, b, i),
        text_before_from(b, c, i),
    ensures
        text_before_from(a, c, i),
    decreases a.len() - i,
{
    if i < a.len() && i < b.len() && i < c.len() && a[i] == b[i] && b[i] == c[i] {
        lemma_text_before_transitive(a, b, c, i + 1);
    }
}

/// The characters of `s`.
pub fn to_chars(s: &str) -> (res: Vec<char>)
    ensures
        res@ == s@,
{
    let n: usize = s.unicode_len();
    let mut res: Vec<char> = Vec::new();
    let mut iter = s.chars();
    let mut i: usize = 0;
    while i < n
        invariant
            n == s@.len(),
            i <= n,
            iter.obeys_prophetic_iter_laws(),
            iter.remaining() == s@.subrange(i as int, n as int),
            res@ == s@.subrange(0, i as int),
        decreases n - i,
    {
        match iter.next() {
            Some(c) => {
                res.push(c);
            },
            None => {},
        }
        i = i + 1;
        assert(res@ =~= s@.subrange(0, i as int));
        assert(iter.remaining() =~= s@.subrange(i as int, n as int));
    }
    assert(res@ =~= s@);
    res
}

/// The text made of the characters.
pub fn from_chars(chars: &Vec<char>) -> (res: String)
    ensures
        res@ == chars@,
{
    let mut res = String::new();
    let mut i: usize = 0;
    while i < chars.len()
        invariant
            i <= chars.len(),
            res@ == chars@.subrange(0, i as int),
        decreases chars.len() - i,
    {
        res.push(chars[i]);
        i = i + 1;
        assert(res@ =~= chars@.subrange(0, i as int));
    }
    assert(res@ =~= chars@);
    res
}

/// Whether two texts are the same.
pub fn text_eq(a: &str, b: &str) -> (res: bool)
    ensures
        res == (a@ == b@),
{
    a.to_owned() == b.to_owned()
}

/// The characters from `start` up to but without `end`.
pub fn slice_chars(s: &Vec<char>, start: usize, end: usize) -> (res: Vec<char>)
    requires
        start <= end <= s.len(),
    ensures
        res@ == s@.subrange(start as int, end as int),
{
    let mut res: Vec<char> = Vec::new();
    let mut i: usize = start;
    while i < end
        invariant
            start <= i <= end <= s.len(),
            res@ == s@.subrange(start as int, i as int),
        decreases end - i,
    {
        res.push(s[i]);
        i = i + 1;
        assert(res@ =~= s@.subrange(start as int, i as int));
    }
    res
}

/// The position of the first `c`, or the length.
pub fn find_char(s: &Vec<char>, c: char) -> (res: usize)
    ensures
        res == position(s@, c),
        res <= s.len(),
        res < s.len() ==> s[res as int] == c,
{
    let mut i: usize = 0;
    while i < s.len()
        invariant
            i <= s.len(),
            position(s@, c) == position_from(s@, c, i as int),
        decreases s.len() - i,
    {
        if s[i] == c {
            return i;
        }
        i = i + 1;
    }
    i
}

/// The pieces between the occurrences of `c`.
pub fn split_chars(s: &Vec<char>, c: char) -> (res: Vec<Vec<char>>)
    ensures
        res.deep_view() == split(s@, c),
{
    broadcast use crate::value::lemma_deep_push;

    let mut res: Vec<Vec<char>> = Vec::new();
    let mut start: usize = 0;
    let mut i: usize = 0;
    assert(res.deep_view() + split_from(s@, c, 0, 0) =~= split(s@, c));
    while i < s.len()
        invariant
            start <= i <= s.len(),
            res.deep_view() + split_from(s@, c, start as int, i as int) == split(s@, c),
        decreases s.len() - i,
    {
        let ghost before = res.deep_view();
        let ghost rest = split_from(s@, c, start as int, i as int);
        if s[i] == c {
            let piece = slice_chars(s, start, i);
            assert(piece.deep_view() =~= piece@);
            res.push(piece);
            start = i + 1;
            assert(before + rest =~= res.deep_view() + split_from(s@, c, start as int, start as int));
        }
        i = i + 1;
    }
    let piece = slice_chars(s, start, i);
    assert(piece.deep_view() =~= piece@);
    res.push(piece);
    assert(res.deep_view() =~= split(s@, c));
    res
}

/// The value of a digit of the radix 16.
pub fn to_hex_digit(c: char) -> (res: Option<u32>)
    ensures
        match res {
            Some(d) => hex_digit(c) == Some(d as nat) && d < 16,
            None => hex_digit(c) is None,
        },
{
    if '0' <= c && c <= '9' {
        Some(c as u32 - 48)
    } else if 'a' <= c && c <= 'f' {
        Some(c as u32 - 87)
    } else if 'A' <= c && c <= 'F' {
        Some(c as u32 - 55)
    } else {
        None
    }
}

/// A longer run of digits writes no smaller number.
pub proof fn lemma_digits_value_grows(s: Seq<char>, radix: nat, i: int)
    requires
        0 <= i <= s.len(),
        radix >= 1,
    ensures
        digits_value(s.subrange(0, i), radix) <= digits_value(s, radix),
    decreases s.len(),
{
    if i == s.len() {
        assert(s.subrange(0, i) =~= s);
    } else {
        lemma_digits_value_grows(s.drop_last(), radix, i);
        assert(s.drop_last().subrange(0, i) =~= s.subrange(0, i));
        let v = digits_value(s.drop_last(), radix);
        assert(v <= v * radix) by (nonlinear_arith)
            requires
                radix >= 1,
        ;
    }
}

/// Reads a number of the radix that is at most `max`.
pub fn parse_number(s: &Vec<char>, radix: u32, max: u32) -> (res: Option<u32>)
    requires
        2 <= radix <= 16,
    ensures
        match res {
            Some(n) => number(s@, radix as nat, max as nat) == Some(n as nat),
            None => number(s@, radix as nat, max as nat) is None,
        },
{
    if s.len() == 0 {
        return None;
    }
    let mut value: u32 = 0;
    let mut i: usize = 0;
    assert(s@.subrange(0, 0) =~= Seq::<char>::empty());
    while i < s.len()
        invariant
            i <= s.len(),
            2 <= radix <= 16,
            value <= max,
            value == digits_value(s@.subrange(0, i as int), radix as nat),
            all_digits(s@.subrange(0, i as int), radix as nat),
        decreases s.len() - i,
    {
        let digit: u32 = match to_hex_digit(s[i]) {
            Some(d) => d,
            None => {
                return None;
            },
        };
        if digit >= radix {
            return None;
        }
        let ghost next = s@.subrange(0, i as int + 1);
        assert(next.drop_last() =~= s@.subrange(0, i as int));
        assert(next.last() == s[i as int]);
        proof {
            lemma_digits_value_grows(s@, radix as nat, i as int + 1);
        }
        assert(value as int * radix as int <= 0xffff_ffff * 16) by (nonlinear_arith)
            requires
                value <= 0xffff_ffff,
                2 <= radix <= 16,
        ;
        assert(value as int * radix as int >= 0) by (nonlinear_arith)
            requires
                value >= 0,
                2 <= radix <= 16,
        ;
        let wide: u64 = value as u64 * radix as u64 + digit as u64;
        if wide > max as u64 {
            return None;
        }
        value = wide as u32;
        assert(all_digits(next, radix as nat)) by {
            assert forall|j: int| 0 <= j < next.len() implies is_digit(
                #[trigger] next[j],
                radix as nat,
            ) by {
                if j < i {
                    assert(next[j] == s@.subrange(0, i as int)[j]);
                }
            }
        }
        i = i + 1;
    }
    assert(s@.subrange(0, i as int) =~= s@);
    Some(value)
}

/// The digit character of `d`.
pub fn to_digit_char(d: u32) -> (res: char)
    requires
        d < 16,
    ensures
        res == digit_char(d as nat),
{
    if d < 10 {
        (48 + d as u8) as char
    } else {
        (87 + d as u8) as char
    }
}

/// Appends `n`, written in the radix.
fn append_number(s: &mut String, n: u64, radix: u64)
    requires
        2 <= radix <= 16,
    ensures
        final(s)@ == old(s)@ + number_text(n as nat, radix as nat),
    decreases n,
{
    if n < radix {
        let c = to_digit_char(n as u32);
        s.push(c);
        assert(s@ =~= old(s)@ + seq![c]);
    } else {
        assert(n as int / radix as int <= n && (n as int / radix as int) < n) by (nonlinear_arith)
            requires
                2 <= radix,
                n >= radix,
        ;
        append_number(s, n / radix, radix);
        let d: u64 = n % radix;
        let ghost mid = s@;
        s.push(to_digit_char(d as u32));
        assert(s@ =~= old(s)@ + number_text((n / radix) as nat, radix as nat).push(
            digit_char(d as nat),
        ));
    }
}

/// `n` in decimal.
pub fn decimal(n: u64) -> (res: String)
    ensures
        res@ == number_text(n as nat, 10),
{
    let mut res = String::new();
    append_number(&mut res, n, 10);
    assert(res@ =~= number_text(n as nat, 10));
    res
}

/// `n` in lower case digits of the radix 16.
pub fn hexadecimal(n: u64) -> (res: String)
    ensures
        res@ == number_text(n as nat, 16),
{
    let mut res = String::new();
    append_number(&mut res, n, 16);
    assert(res@ =~= number_text(n as nat, 16));
    res
}

/// `n` in decimal, with a minus sign when it is negative.
pub fn signed_decimal(n: i64) -> (res: String)
    ensures
        res@ == int_text(n as int),
{
    if n >= 0 {
        return decimal(n as u64);
    }
    let magnitude: u64 = (-(n as i128)) as u64;
    let mut res = String::new();
    res.push('-');
    append_number(&mut res, magnitude, 10);
    assert(res@ =~= int_text(n as int));
    res
}

/// Upper case of an ASCII letter.
fn to_upper_char(c: char) -> (res: char)
    ensures
        res == upper_char(c),
{
    if 'a' <= c && c <= 'z' {
        (c as u8 - 32) as char
    } else {
        c
    }
}

/// Lower case of an ASCII letter.
fn to_lower_char(c: char) -> (res: char)
    ensures
        res == lower_char(c),
{
    if 'A' <= c && c <= 'Z' {
        (c as u8 + 32) as char
    } else {
        c
    }
}

/// The text with its ASCII letters in upper case.
pub fn to_ascii_upper(s: &str) -> (res: String)
    ensures
        res@ == ascii_upper(s@),
{
    let chars = to_chars(s);
    let mut res = String::new();
    let mut i: usize = 0;
    while i < chars.len()
        invariant
            i <= chars.len(),
            res@ == ascii_upper(chars@.subrange(0, i as int)),
        decreases chars.len() - i,
    {
        res.push(to_upper_char(chars[i]));
        i = i + 1;
        assert(res@ =~= ascii_upper(chars@.subrange(0, i as int)));
    }
    assert(chars@.subrange(0, i as int) =~= s@);
    res
}

/// Whether the characters are the same up to the case of ASCII letters.
pub fn eq_ignore_ascii_case(a: &Vec<char>, b: &Vec<char>) -> (res: bool)
    ensures
        res == (ascii_lower(a@) == ascii_lower(b@)),
{
    if a.len() != b.len() {
        assert(ascii_lower(a@).len() != ascii_lower(b@).len());
        return false;
    }
    let mut i: usize = 0;
    while i < a.len()
        invariant
            i <= a.len(),
            a.len() == b.len(),
            forall|j: int| 0 <= j < i ==> lower_char(#[trigger] a[j]) == lower_char(b[j]),
        decreases a.len() - i,
    {
        if to_lower_char(a[i]) != to_lower_char(b[i]) {
            assert(ascii_lower(a@)[i as int] != ascii_lower(b@)[i as int]);
            return false;
        }
        i = i + 1;
    }
    assert(ascii_lower(a@) =~= ascii_lower(b@));
    true
}

/// Whether `c` has the White_Space property of Unicode.
pub fn is_white_space(c: char) -> (res: bool)
    ensures
        res == white_space(c),
{
    let n: u32 = c as u32;
    (0x9 <= n && n <= 0xd) || n == 0x20 || n == 0x85 || n == 0xa0 || n == 0x1680 || (0x2000 <= n
        && n <= 0x200a) || n == 0x2028 || n == 0x2029 || n == 0x202f || n == 0x205f || n == 0x3000
}

/// Whether the characters start with `prefix`.
pub fn has_prefix(s: &Vec<char>, prefix: &Vec<char>) -> (res: bool)
    ensures
        res == starts_with(s@, prefix@),
{
    if prefix.len() > s.len() {
        return false;
    }
    let mut i: usize = 0;
    while i < prefix.len()
        invariant
            i <= prefix.len() <= s.len(),
            forall|j: int| 0 <= j < i ==> #[trigger] s[j] == prefix[j],
        decreases prefix.len() - i,
    {
        if s[i] != prefix[i] {
            assert(s@.subrange(0, prefix.len() as int)[i as int] != prefix[i as int]);
            return false;
        }
        i = i + 1;
    }
    assert(s@.subrange(0, prefix.len() as int) =~= prefix@);
    true
}

/// Whether `a` stands before `b` in the order of their characters.
pub fn is_text_before(a: &str, b: &str) -> (res: bool)
    ensures
        res == text_before(a@, b@),
{
    let x = to_chars(a);
    let y = to_chars(b);
    let mut i: usize = 0;
    while i < x.len()
        invariant
            i <= x.len(),
            text_before(a@, b@) == text_before_from(x@, y@, i as int),
        decreases x.len() - i,
    {
        if i >= y.len() {
            return false;
        }
        if x[i] != y[i] {
            return x[i] < y[i];
        }
        i = i + 1;
    }
    i < y.len()
}

/// The text of `s`, empty when it is undefined.
pub fn option_text(s: &Option<String>) -> (res: &str)
    ensures
        res@ == s.deep_view().unwrap_or(Seq::empty()),
{
    match s {
        Some(s) => s.as_str(),
        None => {
            proof {
                reveal_strlit("");
            }
            assert(""@ =~= Seq::<char>::empty());
            ""
        },
    }
}

/// The texts of `parts` from `i` on with `sep` between them.
pub open spec fn joined_from(parts: Seq<Seq<char>>, sep: Seq<char>, i: int) -> Seq<char>
    decreases parts.len() - i,
{
    if i < 0 || i >= parts.len() {
        Seq::empty()
    } else if i + 1 == parts.len() {
        parts[i]
    } else {
        parts[i] + sep + joined_from(parts, sep, i + 1)
    }
}

/// The texts of `parts` with `sep` between them.
pub open spec fn joined(parts: Seq<Seq<char>>, sep: Seq<char>) -> Seq<char> {
    joined_from(parts, sep, 0)
}

/// The texts with `sep` between them.
pub fn join(parts: &Vec<String>, sep: &str) -> (res: String)
    ensures
        res@ == joined(parts.deep_view(), sep@),
{
    let ghost views = parts.deep_view();
    let mut res = String::new();
    let mut i: usize = 0;
    assert(res@ + joined_from(views, sep@, 0) =~= joined(views, sep@));
    while i < parts.len()
        invariant
            i <= parts.len(),
            views == parts.deep_view(),
            res@ + joined_from(views, sep@, i as int) == joined(views, sep@),
        decreases parts.len() - i,
    {
        let ghost before = res@;
        assert(views[i as int] == parts[i as int]@);
        res.append(parts[i].as_str());
        if i + 1 < parts.len() {
            res.append(sep);
            assert(before + (views[i as int] + sep@ + joined_from(views, sep@, i + 1)) =~= res@
                + joined_from(views, sep@, i + 1));
        } else {
            assert(res@ + joined_from(views, sep@, i + 1) =~= before + views[i as int]);
        }
        i = i + 1;
    }
    assert(res@ + joined_from(views, sep@, i as int) =~= res@);
    res
}

/// A property as text, or nothing when it is undefined.
pub open spec fn prop(prefix: Seq<char>, value: Option<Seq<char>>) -> Seq<Seq<char>> {
    match value {
        Some(value) => seq![prefix + value],
        None => Seq::empty(),
    }
}

/// A defined number, written in the radix.
pub open spec fn option_number(n: Option<u32>, radix: nat) -> Option<Seq<char>> {
    match n {
        Some(n) => Some(number_text(n as nat, radix)),
        None => None,
    }
}

/// A defined number in decimal.
pub open spec fn option_int(n: Option<i64>) -> Option<Seq<char>> {
    match n {
        Some(n) => Some(int_text(n as int)),
        None => None,
    }
}

/// A defined number in decimal.
pub fn option_decimal(n: Option<u32>) -> (res: Option<String>)
    ensures
        res.deep_view() == option_number(n, 10),
{
    match n {
        Some(n) => Some(decimal(n as u64)),
        None => None,
    }
}

/// A defined number in hexadecimal.
pub fn option_hexadecimal(n: Option<u32>) -> (res: Option<String>)
    ensures
        res.deep_view() == option_number(n, 16),
{
    match n {
        Some(n) => Some(hexadecimal(n as u64)),
        None => None,
    }
}

/// A defined number in decimal.
pub fn option_signed_decimal(n: Option<i64>) -> (res: Option<String>)
    ensures
        res.deep_view() == option_int(n),
{
    match n {
        Some(n) => Some(signed_decimal(n)),
        None => None,
    }
}

/// Adds a property as text, unless it is undefined.
pub fn push_prop(props: &mut Vec<String>, prefix: &str, value: &Option<&str>)
    ensures
        final(props).deep_view() == old(props).deep_view() + prop(prefix@, value.deep_view()),
{
    let ghost before = *props;
    if let Some(value) = value {
        let text = String::from_str(prefix).concat(value);
        let ghost pushed = text;
        props.push(text);
        proof {
            crate::value::lemma_deep_push(before, *props, pushed);
        }
    }
    assert(props.deep_view() =~= before.deep_view() + prop(prefix@, value.deep_view()));
}

/// Adds a property as text, unless it is undefined.
pub fn push_text_prop(props: &mut Vec<String>, prefix: &str, value: &Option<String>)
    ensures
        final(props).deep_view() == old(props).deep_view() + prop(prefix@, value.deep_view()),
{
    match value {
        Some(value) => push_prop(props, prefix, &Some(value.as_str())),
        None => push_prop(props, prefix, &None),
    }
}

/// The position of the last `x` in `s` at or before `i`, or -1.
pub open spec fn last_position<T>(s: Seq<T>, x: T, i: int) -> int
    decreases i + 1,
{
    if i < 0 || i >= s.len() {
        -1
    } else if s[i] == x {
        i
    } else {
        last_position(s, x, i - 1)
    }
}

/// The position of the last `c`.
pub fn find_last_char(s: &Vec<char>, c: char) -> (res: Option<usize>)
    ensures
        match res {
            Some(k) => k == last_position(s@, c, s.len() - 1) && k < s.len(),
            None => last_position(s@, c, s.len() - 1) == -1,
        },
{
    let mut i: usize = s.len();
    while i > 0
        invariant
            i <= s.len(),
            last_position(s@, c, s.len() - 1) == last_position(s@, c, i - 1),
        decreases i,
    {
        if s[i - 1] == c {
            return Some(i - 1);
        }
        i = i - 1;
    }
    None
}

/// The words of `s` from `start` on that white space at or after `i` ends.
pub open spec fn words_from(s: Seq<char>, start: int, i: int) -> Seq<Seq<char>>
    decreases s.len() - i,
{
    if i < 0 || i >= s.len() {
        if start < s.len() {
            seq![s.subrange(start, s.len() as int)]
        } else {
            Seq::empty()
        }
    } else if !white_space(s[i]) {
        words_from(s, start, i + 1)
    } else if start < i {
        seq![s.subrange(start, i)] + words_from(s, i + 1, i + 1)
    } else {
        words_from(s, i + 1, i + 1)
    }
}

/// The words of `s`, separated by white space.
pub open spec fn words(s: Seq<char>) -> Seq<Seq<char>> {
    words_from(s, 0, 0)
}

/// The words, separated by white space.
pub fn split_words(s: &Vec<char>) -> (res: Vec<Vec<char>>)
    ensures
        res.deep_view() == words(s@),
{
    broadcast use crate::value::lemma_deep_push;

    let mut res: Vec<Vec<char>> = Vec::new();
    let mut start: usize = 0;
    let mut i: usize = 0;
    assert(res.deep_view() + words_from(s@, 0, 0) =~= words(s@));
    while i < s.len()
        invariant
            start <= i <= s.len(),
            res.deep_view() + words_from(s@, start as int, i as int) == words(s@),
        decreases s.len() - i,
    {
        let ghost before = res.deep_view();
        if is_white_space(s[i]) {
            if start < i {
                let word = slice_chars(s, start, i);
                assert(word.deep_view() =~= word@);
                res.push(word);
                assert(before + (seq![word@] + words_from(s@, i + 1, i + 1)) =~= res.deep_view()
                    + words_from(s@, i + 1, i + 1));
            }
            start = i + 1;
        }
        i = i + 1;
    }
    if start < i {
        let word = slice_chars(s, start, i);
        assert(word.deep_view() =~= word@);
        res.push(word);
    }
    assert(res.deep_view() =~= words(s@));
    res
}

/// A text as the `Debug` format of std quotes it.
pub uninterp spec fn quoted_text(s: Seq<char>) -> Seq<char>;

/// Formats a text with the `Debug` format of std, which quotes it. The result
/// is a function of the text alone.
#[verifier::external_body]
fn quote(s: &str) -> (res: String)
    ensures
        res@ == quoted_text(s@),
{
    format!("{s:?}")
}

/// An optional text, quoted.
pub open spec fn option_quoted(s: Option<Seq<char>>) -> Option<Seq<char>> {
    match s {
        Some(s) => Some(quoted_text(s)),
        None => None,
    }
}

/// Quotes an optional text.
pub fn quote_option(s: &Option<String>) -> (res: Option<String>)
    ensures
        res.deep_view() == option_quoted(s.deep_view()),
{
    match s {
        Some(s) => Some(quote(s.as_str())),
        None => None,
    }
}

/// How an optional value is shown in detail.
pub open spec fn option_shown(value: Option<Seq<char>>) -> Seq<char> {
    match value {
        Some(value) => "Some("@ + value + ")"@,
        None => "None"@,
    }
}

/// Shows an optional value in detail.
pub fn show_option(value: &Option<String>) -> (res: String)
    ensures
        res@ == option_shown(value.deep_view()),
{
    match value {
        Some(value) => String::from_str("Some(").concat(value.as_str()).concat(")"),
        None => String::from_str("None"),
    }
}

} // verus!
