//! What is written of an address is read back as the same address.

use vstd::prelude::*;
use vstd::string::*;

use crate::addr;
use crate::addr::{IpAddr, SocketAddr};
use crate::text;

verus! {

/// A digit character stands for its digit.
proof fn lemma_digit(d: nat)
    requires
        d < 16,
    ensures
        text::hex_digit(text::digit_char(d)) == Some(d),
        d > 0 ==> text::digit_char(d) != '0',
{
}

/// A digit is none of the characters that separate the parts of an address.
proof fn lemma_digit_char(c: char, radix: nat)
    requires
        text::is_digit(c, radix),
    ensures
        c != '.',
        c != ':',
        c != '/',
        c != '%',
        c != '[',
        c != ']',
{
}

/// A number is written in digits that stand for it, without leading zeros.
proof fn lemma_number_text(n: nat, radix: nat)
    requires
        2 <= radix <= 16,
    ensures
        text::number_text(n, radix).len() > 0,
        text::all_digits(text::number_text(n, radix), radix),
        text::digits_value(text::number_text(n, radix), radix) == n,
        n > 0 ==> text::number_text(n, radix)[0] != '0',
        n < radix ==> text::number_text(n, radix).len() == 1,
    decreases n,
{
    let t = text::number_text(n, radix);
    if n < radix {
        lemma_digit(n);
        assert(t.drop_last() =~= Seq::empty());
        assert(text::digits_value(t.drop_last(), radix) == 0);
        assert(text::digits_value(t, radix) == 0 * radix + n);
    } else {
        assert(n / radix < n && n / radix > 0 && n % radix < radix && n == n / radix * radix + n
            % radix) by (nonlinear_arith)
            requires
                2 <= radix <= n,
        ;
        let head = text::number_text(n / radix, radix);
        lemma_number_text(n / radix, radix);
        lemma_digit(n % radix);
        assert(t == head.push(text::digit_char(n % radix)));
        assert(t.drop_last() =~= head);
        assert(t[0] == head[0]);
        assert forall|i: int| 0 <= i < t.len() implies text::is_digit(#[trigger] t[i], radix) by {
            if i < head.len() {
                assert(text::is_digit(head[i], radix));
            }
        }
    }
}

/// A number that is written is read back.
proof fn lemma_number(n: nat, radix: nat, max: nat)
    requires
        2 <= radix <= 16,
        n <= max,
    ensures
        text::number(text::number_text(n, radix), radix, max) == Some(n),
{
    lemma_number_text(n, radix);
}

/// An octet has at most three digits.
proof fn lemma_octet(n: nat)
    requires
        n < 256,
    ensures
        addr::octet(text::number_text(n, 10)) == Some(n),
{
    lemma_number(n, 10, 255);
    lemma_number_text(n, 10);
    if n >= 10 {
        lemma_number_text(n / 10, 10);
        if n >= 100 {
            lemma_number_text(n / 10 / 10, 10);
            assert(text::number_text(n / 10 / 10, 10).len() == 1);
            assert(text::number_text(n / 10, 10).len() == 2);
        }
        assert(text::number_text(n, 10).len() <= 3);
    }
}

/// A group has at most four digits.
proof fn lemma_hextet(n: nat)
    requires
        n < 65536,
    ensures
        addr::hextet(text::number_text(n, 16)) == Some(n),
{
    lemma_number(n, 16, 65535);
    lemma_number_text(n, 16);
    if n >= 16 {
        lemma_number_text(n / 16, 16);
        if n >= 256 {
            lemma_number_text(n / 16 / 16, 16);
            if n >= 4096 {
                lemma_number_text(n / 16 / 16 / 16, 16);
                assert(text::number_text(n / 16 / 16 / 16, 16).len() == 1);
                assert(text::number_text(n / 16 / 16, 16).len() == 2);
            }
            assert(text::number_text(n / 16, 16).len() <= 3);
        }
        assert(text::number_text(n, 16).len() <= 4);
    }
}

/// What stands before a text does not change how the text is split.
proof fn lemma_split_shift(p: Seq<char>, b: Seq<char>, c: char, start: int, i: int)
    requires
        0 <= start <= i <= b.len(),
    ensures
        text::split_from(p + b, c, p.len() + start, p.len() + i) == text::split_from(
            b,
            c,
            start,
            i,
        ),
    decreases b.len() - i,
{
    let s = p + b;
    if i < b.len() {
        assert(s[p.len() + i] == b[i]);
        if b[i] == c {
            lemma_split_shift(p, b, c, i + 1, i + 1);
            assert(s.subrange(p.len() + start, p.len() + i) =~= b.subrange(start, i));
        } else {
            lemma_split_shift(p, b, c, start, i + 1);
        }
    } else {
        assert(s.subrange(p.len() + start, s.len() as int) =~= b.subrange(start, b.len() as int));
    }
}

/// Whether the character is not in the text.
pub open spec fn is_free_of(s: Seq<char>, c: char) -> bool {
    forall|i: int| 0 <= i < s.len() ==> s[i] != c
}

/// A text is split at the first separator.
proof fn lemma_split_first(a: Seq<char>, b: Seq<char>, c: char, i: int)
    requires
        is_free_of(a, c),
        0 <= i <= a.len(),
    ensures
        text::split_from(a + seq![c] + b, c, 0, i) == seq![a] + text::split(b, c),
    decreases a.len() - i,
{
    let s = a + seq![c] + b;
    if i < a.len() {
        assert(s[i] == a[i]);
        lemma_split_first(a, b, c, i + 1);
    } else {
        assert(s[i] == c);
        assert(s.subrange(0, i) =~= a);
        lemma_split_shift(a + seq![c], b, c, 0, 0);
    }
}

/// A text without a separator is one piece.
proof fn lemma_split_none(a: Seq<char>, c: char, i: int)
    requires
        is_free_of(a, c),
        0 <= i <= a.len(),
    ensures
        text::split_from(a, c, 0, i) == seq![a],
    decreases a.len() - i,
{
    if i < a.len() {
        lemma_split_none(a, c, i + 1);
    } else {
        assert(a.subrange(0, a.len() as int) =~= a);
    }
}

/// Written numbers are free of separators.
proof fn lemma_number_free(n: nat, radix: nat)
    requires
        2 <= radix <= 16,
    ensures
        is_free_of(text::number_text(n, radix), '.'),
        is_free_of(text::number_text(n, radix), ':'),
        is_free_of(text::number_text(n, radix), '/'),
        is_free_of(text::number_text(n, radix), '%'),
        is_free_of(text::number_text(n, radix), '['),
        is_free_of(text::number_text(n, radix), ']'),
{
    lemma_number_text(n, radix);
    let t = text::number_text(n, radix);
    assert forall|i: int| 0 <= i < t.len() implies t[i] != '.' && t[i] != ':' && t[i] != '/'
        && t[i] != '%' && t[i] != '[' && t[i] != ']' by {
        assert(text::is_digit(t[i], radix));
        lemma_digit_char(t[i], radix);
    }
}

/// A text that is written with four pieces is split into them.
proof fn lemma_split_four(a: Seq<char>, b: Seq<char>, c: Seq<char>, d: Seq<char>)
    requires
        is_free_of(a, '.'),
        is_free_of(b, '.'),
        is_free_of(c, '.'),
        is_free_of(d, '.'),
    ensures
        text::split(a + "."@ + b + "."@ + c + "."@ + d, '.') == seq![a, b, c, d],
{
    reveal_strlit(".");
    assert("."@ =~= seq!['.']);
    let cd = c + seq!['.'] + d;
    let bcd = b + seq!['.'] + cd;
    assert(a + "."@ + b + "."@ + c + "."@ + d =~= a + seq!['.'] + bcd);
    lemma_split_first(a, bcd, '.', 0);
    lemma_split_first(b, cd, '.', 0);
    lemma_split_first(c, d, '.', 0);
    lemma_split_none(d, '.', 0);
    assert(seq![a] + (seq![b] + (seq![c] + seq![d])) =~= seq![a, b, c, d]);
}

/// The octets of a number stand for it.
proof fn lemma_octets(n: nat)
    requires
        n <= u32::MAX,
    ensures
        n / 16777216 < 256,
        ((n / 16777216 * 256 + n / 65536 % 256) * 256 + n / 256 % 256) * 256 + n % 256 == n,
{
}

/// A written IPv4 address is free of a character that is neither a digit nor a
/// dot.
proof fn lemma_ipv4_free(n: nat, x: char)
    requires
        x == ':' || x == '/' || x == '%' || x == '[' || x == ']',
    ensures
        is_free_of(addr::ipv4_text(n), x),
        addr::ipv4_text(n).len() >= 7,
{
    let ta = text::number_text(n / 16777216, 10);
    let tb = text::number_text(n / 65536 % 256, 10);
    let tc = text::number_text(n / 256 % 256, 10);
    let td = text::number_text(n % 256, 10);
    lemma_number_free(n / 16777216, 10);
    lemma_number_free(n / 65536 % 256, 10);
    lemma_number_free(n / 256 % 256, 10);
    lemma_number_free(n % 256, 10);
    lemma_number_text(n / 16777216, 10);
    lemma_number_text(n / 65536 % 256, 10);
    lemma_number_text(n / 256 % 256, 10);
    lemma_number_text(n % 256, 10);
    reveal_strlit(".");
    lemma_free_concat(ta, "."@, x);
    lemma_free_concat(ta + "."@, tb, x);
    lemma_free_concat(ta + "."@ + tb, "."@, x);
    lemma_free_concat(ta + "."@ + tb + "."@, tc, x);
    lemma_free_concat(ta + "."@ + tb + "."@ + tc, "."@, x);
    lemma_free_concat(ta + "."@ + tb + "."@ + tc + "."@, td, x);
}

/// An IPv4 address that is written is read back.
proof fn lemma_ipv4(n: nat)
    requires
        n <= u32::MAX,
    ensures
        addr::ipv4(addr::ipv4_text(n)) == Some(n),
{
    let (a, b, c, d) = (n / 16777216, n / 65536 % 256, n / 256 % 256, n % 256);
    lemma_octets(n);
    lemma_number_free(a, 10);
    lemma_number_free(b, 10);
    lemma_number_free(c, 10);
    lemma_number_free(d, 10);
    lemma_octet(a);
    lemma_octet(b);
    lemma_octet(c);
    lemma_octet(d);
    let parts = seq![
        text::number_text(a, 10),
        text::number_text(b, 10),
        text::number_text(c, 10),
        text::number_text(d, 10),
    ];
    lemma_split_four(parts[0], parts[1], parts[2], parts[3]);
    assert(text::split(addr::ipv4_text(n), '.') == parts);
}

/// Every character but the separator is in one of the pieces.
proof fn lemma_split_contains(s: Seq<char>, c: char, start: int, i: int, p: int)
    requires
        0 <= start <= i <= s.len(),
        start <= p < s.len(),
        s[p] != c,
        forall|j: int| start <= j < i ==> s[j] != c,
    ensures
        exists|k: int|
            0 <= k < text::split_from(s, c, start, i).len() && (#[trigger] text::split_from(
                s,
                c,
                start,
                i,
            )[k]).contains(s[p]),
    decreases s.len() - i,
{
    let parts = text::split_from(s, c, start, i);
    if i < s.len() {
        if s[i] == c {
            let first = s.subrange(start, i);
            let rest = text::split_from(s, c, i + 1, i + 1);
            if p < i {
                assert(first[p - start] == s[p]);
                assert(parts[0] == first);
                assert(parts[0].contains(s[p]));
            } else {
                lemma_split_contains(s, c, i + 1, i + 1, p);
                let k = choose|k: int|
                    0 <= k < rest.len() && (#[trigger] rest[k]).contains(s[p]);
                assert(parts[k + 1] == rest[k]);
                assert(parts[k + 1].contains(s[p]));
            }
        } else {
            lemma_split_contains(s, c, start, i + 1, p);
        }
    } else {
        let last = s.subrange(start, s.len() as int);
        assert(last[p - start] == s[p]);
        assert(parts[0] == last);
        assert(parts[0].contains(s[p]));
    }
}

/// A text with a colon is no IPv4 address.
proof fn lemma_no_ipv4(s: Seq<char>)
    requires
        s.contains(':'),
    ensures
        addr::ipv4(s) is None,
{
    let p = s.index_of(':');
    lemma_split_contains(s, '.', 0, 0, p);
    let parts = text::split(s, '.');
    let k = choose|k: int| 0 <= k < parts.len() && (#[trigger] parts[k]).contains(':');
    if addr::ipv4(s) is Some {
        assert(text::all_digits(parts[k], 10));
        let j = parts[k].index_of(':');
        assert(text::is_digit(parts[k][j], 10));
        lemma_digit_char(parts[k][j], 10);
    }
}

/// The groups of parts after a first one are those of the parts.
proof fn lemma_hextets_shift(first: Seq<char>, parts: Seq<Seq<char>>, with_ipv4: bool, i: int)
    requires
        0 <= i <= parts.len(),
    ensures
        addr::hextets_from(seq![first] + parts, with_ipv4, i + 1) == addr::hextets_from(
            parts,
            with_ipv4,
            i,
        ),
    decreases parts.len() - i,
{
    let all = seq![first] + parts;
    if i < parts.len() {
        assert(all[i + 1] == parts[i]);
        lemma_hextets_shift(first, parts, with_ipv4, i + 1);
    }
}

/// Groups that are written are read back.
proof fn lemma_groups_text(groups: Seq<nat>, i: int, end: int, with_ipv4: bool)
    requires
        0 <= i < end <= groups.len(),
        forall|j: int| 0 <= j < groups.len() ==> groups[j] < 65536,
    ensures
        addr::groups_text(groups, i, end).len() > 0,
        addr::hextets_from(
            text::split(addr::groups_text(groups, i, end), ':'),
            with_ipv4,
            0,
        ) == Some(groups.subrange(i, end)),
    decreases end - i,
{
    let first = text::number_text(groups[i], 16);
    lemma_hextet(groups[i]);
    lemma_number_text(groups[i], 16);
    lemma_number_free(groups[i], 16);
    if i + 1 == end {
        lemma_split_none(first, ':', 0);
        let parts = seq![first];
        assert(addr::hextets_from(parts, with_ipv4, 1) == Some(Seq::<nat>::empty()));
        assert(seq![groups[i]] + Seq::<nat>::empty() =~= groups.subrange(i, end));
    } else {
        let rest = addr::groups_text(groups, i + 1, end);
        lemma_groups_text(groups, i + 1, end, with_ipv4);
        reveal_strlit(":");
        assert(":"@ =~= seq![':']);
        lemma_split_first(first, rest, ':', 0);
        let parts = text::split(rest, ':');
        lemma_hextets_shift(first, parts, with_ipv4, 0);
        let all = seq![first] + parts;
        assert(all[0] == first);
        assert(seq![groups[i]] + groups.subrange(i + 1, end) =~= groups.subrange(i, end));
    }
}

/// Whether every colon is followed by another character that is none.
pub open spec fn colons_apart(s: Seq<char>) -> bool {
    forall|i: int| 0 <= i < s.len() && #[trigger] s[i] == ':' ==> i + 1 < s.len() && s[i + 1] != ':'
}

/// Written groups have no colon at an end and no two beside each other.
proof fn lemma_colons_apart(groups: Seq<nat>, i: int, end: int)
    requires
        0 <= i <= end <= groups.len(),
    ensures
        colons_apart(addr::groups_text(groups, i, end)),
        i < end ==> addr::groups_text(groups, i, end).len() > 0 && addr::groups_text(
            groups,
            i,
            end,
        )[0] != ':',
        is_free_of(addr::groups_text(groups, i, end), '/'),
        is_free_of(addr::groups_text(groups, i, end), '%'),
        is_free_of(addr::groups_text(groups, i, end), '['),
        is_free_of(addr::groups_text(groups, i, end), ']'),
        i + 1 < end ==> addr::groups_text(groups, i, end).contains(':'),
    decreases end - i,
{
    if i < end {
        let first = text::number_text(groups[i], 16);
        lemma_number_text(groups[i], 16);
        lemma_number_free(groups[i], 16);
        if i + 1 < end {
            let rest = addr::groups_text(groups, i + 1, end);
            lemma_colons_apart(groups, i + 1, end);
            reveal_strlit(":");
            let s = addr::groups_text(groups, i, end);
            assert(s == first + ":"@ + rest);
            assert(s[first.len() as int] == ':');
            assert forall|j: int| 0 <= j < s.len() && #[trigger] s[j] == ':' implies j + 1
                < s.len() && s[j + 1] != ':' by {
                if j < first.len() {
                    assert(s[j] == first[j]);
                } else if j == first.len() {
                    assert(s[j + 1] == rest[0]);
                } else {
                    let k = j - first.len() - 1;
                    assert(s[j] == rest[k]);
                    assert(s[j + 1] == rest[k + 1]);
                }
            }
        }
    }
}

/// The first double colon is where two such texts meet.
proof fn lemma_double_colon(a: Seq<char>, b: Seq<char>, i: int)
    requires
        colons_apart(a),
        0 <= i <= a.len(),
    ensures
        addr::double_colon_from(a + "::"@ + b, i) == a.len(),
    decreases a.len() - i,
{
    reveal_strlit("::");
    let s = a + "::"@ + b;
    if i < a.len() {
        assert(s[i] == a[i]);
        if a[i] == ':' {
            assert(s[i + 1] == a[i + 1]);
        }
        lemma_double_colon(a, b, i + 1);
    } else {
        assert(s[i] == ':' && s[i + 1] == ':');
    }
}

/// A text whose colons stand apart has no double colon.
proof fn lemma_no_double_colon(a: Seq<char>, i: int)
    requires
        colons_apart(a),
        0 <= i,
    ensures
        addr::double_colon_from(a, i) >= a.len(),
    decreases a.len() - i,
{
    if i + 1 < a.len() {
        lemma_no_double_colon(a, i + 1);
    }
}

/// A run of zeros holds zeros.
proof fn lemma_zero_run(groups: Seq<nat>, i: int)
    requires
        0 <= i <= groups.len(),
    ensures
        i + addr::zero_run(groups, i) <= groups.len(),
        forall|j: int| i <= j < i + addr::zero_run(groups, i) ==> groups[j] == 0,
    decreases groups.len() - i,
{
    if i < groups.len() && groups[i] == 0 {
        lemma_zero_run(groups, i + 1);
    }
}

/// The longest run of zeros is one.
proof fn lemma_longest_run(groups: Seq<nat>, i: int, start: int, len: nat)
    requires
        0 <= i,
        0 <= start,
        start + len <= groups.len(),
        forall|j: int| start <= j < start + len ==> groups[j] == 0,
    ensures
        ({
            let (at, n) = addr::longest_zero_run(groups, i, start, len);
            &&& 0 <= at
            &&& at + n <= groups.len()
            &&& forall|j: int| at <= j < at + n ==> groups[j] == 0
        }),
    decreases groups.len() - i,
{
    if i < groups.len() {
        lemma_zero_run(groups, i);
        if addr::zero_run(groups, i) > len {
            lemma_longest_run(groups, i + 1, i, addr::zero_run(groups, i));
        } else {
            lemma_longest_run(groups, i + 1, start, len);
        }
    }
}

/// The value of groups with one more.
proof fn lemma_groups_push(groups: Seq<nat>, g: nat)
    ensures
        addr::groups_value(groups.push(g)) == addr::groups_value(groups) * 65536 + g,
{
    assert(groups.push(g).drop_last() =~= groups);
}

/// A quotient by `m` is made of the quotient by `m * 65536` and a group.
proof fn lemma_group(n: nat, m: nat)
    requires
        m > 0,
    ensures
        n / m == n / (m * 65536) * 65536 + n / m % 65536,
{
    vstd::arithmetic::div_mod::lemma_div_denominator(n as int, m as int, 65536);
    let q = n / m;
    assert(q == q / 65536 * 65536 + q % 65536);
}

/// The value of eight groups.
proof fn lemma_eight_groups(g: Seq<nat>)
    requires
        g.len() == 8,
    ensures
        addr::groups_value(g) == ((((((g[0] * 65536 + g[1]) * 65536 + g[2]) * 65536 + g[3]) * 65536
            + g[4]) * 65536 + g[5]) * 65536 + g[6]) * 65536 + g[7],
{
    let none = Seq::<nat>::empty();
    let s1 = none.push(g[0]);
    let s2 = s1.push(g[1]);
    let s3 = s2.push(g[2]);
    let s4 = s3.push(g[3]);
    let s5 = s4.push(g[4]);
    let s6 = s5.push(g[5]);
    let s7 = s6.push(g[6]);
    lemma_groups_push(none, g[0]);
    lemma_groups_push(s1, g[1]);
    lemma_groups_push(s2, g[2]);
    lemma_groups_push(s3, g[3]);
    lemma_groups_push(s4, g[4]);
    lemma_groups_push(s5, g[5]);
    lemma_groups_push(s6, g[6]);
    lemma_groups_push(s7, g[7]);
    assert(g =~= s7.push(g[7]));
}

/// The groups of a number stand for it.
proof fn lemma_groups_of(n: nat)
    requires
        n <= u128::MAX,
    ensures
        addr::groups_value(addr::groups_of(n)) == n,
{
    let g = addr::groups_of(n);
    lemma_eight_groups(g);
    lemma_group(n, 0x1_0000_0000_0000_0000_0000_0000);
    lemma_group(n, 0x1_0000_0000_0000_0000_0000);
    lemma_group(n, 0x1_0000_0000_0000_0000);
    lemma_group(n, 0x1_0000_0000_0000);
    lemma_group(n, 0x1_0000_0000);
    lemma_group(n, 0x1_0000);
    lemma_group(n, 1);
    assert(n / 0x1_0000_0000_0000_0000_0000_0000_0000 < 65536);
    assert(g[0] == n / 0x1_0000_0000_0000_0000_0000_0000_0000);
    let v1 = g[0] * 65536 + g[1];
    assert(v1 == n / 0x1_0000_0000_0000_0000_0000_0000);
    let v2 = v1 * 65536 + g[2];
    assert(v2 == n / 0x1_0000_0000_0000_0000_0000);
    let v3 = v2 * 65536 + g[3];
    assert(v3 == n / 0x1_0000_0000_0000_0000);
    let v4 = v3 * 65536 + g[4];
    assert(v4 == n / 0x1_0000_0000_0000);
    let v5 = v4 * 65536 + g[5];
    assert(v5 == n / 0x1_0000_0000);
    let v6 = v5 * 65536 + g[6];
    assert(v6 == n / 0x1_0000);
    assert(v6 * 65536 + g[7] == n);
}

/// What is written before a position is free of a character when both parts
/// are.
proof fn lemma_free_concat(a: Seq<char>, b: Seq<char>, c: char)
    requires
        is_free_of(a, c),
        is_free_of(b, c),
    ensures
        is_free_of(a + b, c),
{
    assert forall|i: int| 0 <= i < (a + b).len() implies (a + b)[i] != c by {
        if i >= a.len() {
            assert((a + b)[i] == b[i - a.len()]);
        }
    }
}

/// The text of an IPv6 address without an IPv4 address in it is read back.
proof fn lemma_ipv6_groups(n: nat)
    requires
        n <= u128::MAX,
        n / 0x1_0000_0000 != 0xffff,
    ensures
        addr::ipv6_groups(addr::ipv6_text(n)) == Some(addr::groups_of(n)),
        addr::ipv6_text(n).contains(':'),
        is_free_of(addr::ipv6_text(n), '/'),
        is_free_of(addr::ipv6_text(n), '%'),
        is_free_of(addr::ipv6_text(n), '['),
        is_free_of(addr::ipv6_text(n), ']'),
{
    let groups = addr::groups_of(n);
    let (start, len) = addr::longest_zero_run(groups, 0, 0, 0);
    let s = addr::ipv6_text(n);
    lemma_longest_run(groups, 0, 0, 0);
    if len > 1 {
        reveal_strlit("::");
        let head = addr::groups_text(groups, 0, start);
        let tail = addr::groups_text(groups, start + len, 8);
        assert(s == head + "::"@ + tail);
        lemma_colons_apart(groups, 0, start);
        lemma_colons_apart(groups, start + len, 8);
        lemma_double_colon(head, tail, 0);
        let k = head.len() as int;
        assert(s[k] == ':');
        assert(s.subrange(0, k) =~= head);
        assert(s.subrange(k + 2, s.len() as int) =~= tail);
        if start > 0 {
            lemma_groups_text(groups, 0, start, false);
        }
        if start + len < 8 {
            lemma_groups_text(groups, start + len, 8, true);
        }
        assert(groups.subrange(0, 0) =~= Seq::<nat>::empty());
        assert(groups.subrange(8, 8) =~= Seq::<nat>::empty());
        assert(addr::hextets(head, false) == Some(groups.subrange(0, start)));
        assert(addr::hextets(tail, true) == Some(groups.subrange(start + len, 8)));
        assert(groups.subrange(0, start) + addr::zero_groups(len as int) + groups.subrange(
            start + len,
            8,
        ) =~= groups);
        lemma_free_concat(head, "::"@, '/');
        lemma_free_concat(head + "::"@, tail, '/');
        lemma_free_concat(head, "::"@, '%');
        lemma_free_concat(head + "::"@, tail, '%');
        lemma_free_concat(head, "::"@, '[');
        lemma_free_concat(head + "::"@, tail, '[');
        lemma_free_concat(head, "::"@, ']');
        lemma_free_concat(head + "::"@, tail, ']');
    } else {
        lemma_colons_apart(groups, 0, 8);
        lemma_no_double_colon(s, 0);
        lemma_groups_text(groups, 0, 8, true);
        assert(groups.subrange(0, 8) =~= groups);
    }
}

/// The group before the IPv4 address of an IPv4-mapped one.
proof fn lemma_mapped_group()
    ensures
        addr::hextet(seq!['f', 'f', 'f', 'f']) == Some(65535nat),
{
    let group = seq!['f', 'f', 'f', 'f'];
    assert(group.drop_last() =~= seq!['f', 'f', 'f']);
    assert(seq!['f', 'f', 'f'].drop_last() =~= seq!['f', 'f']);
    assert(seq!['f', 'f'].drop_last() =~= seq!['f']);
    assert(seq!['f'].drop_last() =~= Seq::<char>::empty());
    assert(text::digits_value(Seq::<char>::empty(), 16) == 0);
    assert(text::digits_value(seq!['f'], 16) == 15);
    assert(text::digits_value(seq!['f', 'f'], 16) == 255);
    assert(text::digits_value(seq!['f', 'f', 'f'], 16) == 4095);
    assert(text::digits_value(group, 16) == 65535);
}

/// What follows the double colon of an IPv4-mapped address.
proof fn lemma_mapped_tail(m: nat)
    requires
        m <= u32::MAX,
    ensures
        addr::hextets(seq!['f', 'f', 'f', 'f'] + seq![':'] + addr::ipv4_text(m), true) == Some(
            seq![65535nat, m / 65536, m % 65536],
        ),
{
    let v4 = addr::ipv4_text(m);
    let group = seq!['f', 'f', 'f', 'f'];
    let tail = group + seq![':'] + v4;
    lemma_ipv4(m);
    lemma_ipv4_free(m, ':');
    lemma_mapped_group();
    lemma_split_first(group, v4, ':', 0);
    lemma_split_none(v4, ':', 0);
    let parts = seq![group] + seq![v4];
    assert(text::split(tail, ':') == parts);
    assert(parts[0] == group && parts[1] == v4);
    let low = seq![m / 65536, m % 65536];
    assert(addr::hextets_from(parts, true, 1) == Some(low));
    assert(seq![65535nat] + low =~= seq![65535nat, m / 65536, m % 65536]);
}

/// The text of an IPv4-mapped IPv6 address is read back.
proof fn lemma_ipv6_mapped(n: nat)
    requires
        n <= u128::MAX,
        n / 0x1_0000_0000 == 0xffff,
    ensures
        addr::ipv6(addr::ipv6_text(n)) == Some(n),
        addr::ipv6_text(n).contains(':'),
        is_free_of(addr::ipv6_text(n), '/'),
        is_free_of(addr::ipv6_text(n), '%'),
        is_free_of(addr::ipv6_text(n), '['),
        is_free_of(addr::ipv6_text(n), ']'),
{
    let m = n % 0x1_0000_0000;
    let v4 = addr::ipv4_text(m);
    let s = addr::ipv6_text(n);
    lemma_ipv4(m);
    lemma_ipv4_free(m, ':');
    lemma_ipv4_free(m, '/');
    lemma_ipv4_free(m, '%');
    lemma_ipv4_free(m, '[');
    lemma_ipv4_free(m, ']');
    reveal_strlit("::ffff:");
    reveal_strlit("::");
    let group = seq!['f', 'f', 'f', 'f'];
    let tail = group + seq![':'] + v4;
    assert(s =~= Seq::<char>::empty() + "::"@ + tail);
    assert(s[0] == ':');
    lemma_double_colon(Seq::empty(), tail, 0);
    assert(s.subrange(0, 0) =~= Seq::<char>::empty());
    assert(s.subrange(2, s.len() as int) =~= tail);
    lemma_mapped_tail(m);
    let groups = seq![65535nat, m / 65536, m % 65536];
    let all = Seq::<nat>::empty() + addr::zero_groups(5) + groups;
    assert(addr::ipv6_groups(s) == Some(all));
    lemma_eight_groups(all);
    assert(addr::groups_value(all) == (65535 * 65536 + m / 65536) * 65536 + m % 65536);
    assert(m == m / 65536 * 65536 + m % 65536);
    lemma_free_concat("::ffff:"@, v4, '/');
    lemma_free_concat("::ffff:"@, v4, '%');
    lemma_free_concat("::ffff:"@, v4, '[');
    lemma_free_concat("::ffff:"@, v4, ']');
}

/// The characters of a written address, and what an IPv6 address is read as.
proof fn lemma_ip_text(ip: IpAddr)
    ensures
        is_free_of(addr::ip_text(ip), '/'),
        is_free_of(addr::ip_text(ip), '%'),
        is_free_of(addr::ip_text(ip), '['),
        is_free_of(addr::ip_text(ip), ']'),
        ip is V4 ==> is_free_of(addr::ip_text(ip), ':') && addr::ipv4(addr::ip_text(ip)) == Some(
            ip->V4_0 as nat,
        ),
        ip is V6 ==> addr::ip_text(ip).contains(':') && addr::ipv6(addr::ip_text(ip)) == Some(
            ip->V6_0 as nat,
        ),
        addr::ip_text(ip).len() > 0,
{
    match ip {
        IpAddr::V4(n) => {
            lemma_ipv4(n as nat);
            lemma_ipv4_free(n as nat, ':');
            lemma_ipv4_free(n as nat, '/');
            lemma_ipv4_free(n as nat, '%');
            lemma_ipv4_free(n as nat, '[');
            lemma_ipv4_free(n as nat, ']');
        },
        IpAddr::V6(n) => {
            let m = n as nat;
            if m / 0x1_0000_0000 == 0xffff {
                lemma_ipv6_mapped(m);
            } else {
                lemma_ipv6_groups(m);
                lemma_groups_of(m);
            }
        },
    }
}

/// An IP address that is written is read back as the same address.
pub proof fn law_ip_round_trip(ip: IpAddr)
    ensures
        addr::ip_addr(addr::ip_text(ip)) == Some(ip),
{
    lemma_ip_text(ip);
    if ip is V6 {
        lemma_no_ipv4(addr::ip_text(ip));
    }
}

/// A character that a text is free of is found at the end of the text.
proof fn lemma_position(a: Seq<char>, b: Seq<char>, c: char, i: int)
    requires
        is_free_of(a, c),
        0 <= i <= a.len(),
        b.len() > 0,
        b[0] == c,
    ensures
        text::position_from(a + b, c, i) == a.len(),
    decreases a.len() - i,
{
    let s = a + b;
    if i < a.len() {
        assert(s[i] == a[i]);
        lemma_position(a, b, c, i + 1);
    } else {
        assert(s[i] == b[0]);
    }
}

/// The first address of a network is the first address of its own network.
proof fn lemma_network_base(ip: nat, len: nat, bits: nat)
    requires
        len <= bits,
    ensures
        addr::network_base(addr::network_base(ip, len, bits), len, bits) == addr::network_base(
            ip,
            len,
            bits,
        ),
        addr::network_base(ip, len, bits) <= ip,
{
    let m = addr::power_of_two((bits - len) as nat);
    lemma_power(((bits - len)) as nat);
    assert(ip % m <= ip && (ip - ip % m) % (m as int) == 0) by (nonlinear_arith)
        requires
            m > 0,
    ;
}

/// A power of two is not zero.
proof fn lemma_power(n: nat)
    ensures
        addr::power_of_two(n) > 0,
    decreases n,
{
    if n > 0 {
        lemma_power((n - 1) as nat);
    }
}

/// Writing a network in canonical form twice is the same as once.
pub proof fn law_canonical_network(s: Seq<char>)
    requires
        addr::canonical_network(s) is Some,
    ensures
        addr::canonical_network(addr::canonical_network(s)->0) == addr::canonical_network(s),
{
    let (ip, len) = addr::ip_network(s)->0;
    let bits: nat = if ip is V4 {
        32
    } else {
        128
    };
    let base = match ip {
        IpAddr::V4(n) => IpAddr::V4(addr::network_base(n as nat, len, 32) as u32),
        IpAddr::V6(n) => IpAddr::V6(addr::network_base(n as nat, len, 128) as u128),
    };
    let host = addr::ip_text(base);
    let digits = text::number_text(len, 10);
    let t = addr::canonical_network(s)->0;
    match ip {
        IpAddr::V4(n) => lemma_network_base(n as nat, len, 32),
        IpAddr::V6(n) => lemma_network_base(n as nat, len, 128),
    }
    lemma_ip_text(base);
    law_ip_round_trip(base);
    lemma_number(len, 10, bits);
    reveal_strlit("/");
    assert(t =~= host + ("/"@ + digits));
    lemma_position(host, "/"@ + digits, '/', 0);
    let k = host.len() as int;
    assert(t.subrange(0, k) =~= host);
    assert(t.subrange(k + 1, t.len() as int) =~= digits);
    assert(addr::ip_network(t) == Some((base, len)));
}

/// A socket address that is written is read back as the same address. Only an
/// IPv6 address has a scope.
pub proof fn law_socket_round_trip(address: SocketAddr)
    requires
        address.ip is V4 ==> address.scope_id == 0,
    ensures
        addr::socket_addr(addr::socket_text(address)) == Some(address),
{
    let host = addr::ip_text(address.ip);
    let port = text::number_text(address.port as nat, 10);
    let s = addr::socket_text(address);
    lemma_ip_text(address.ip);
    lemma_number(address.port as nat, 10, 65535);
    match address.ip {
        IpAddr::V4(_) => {
            reveal_strlit(":");
            assert(s =~= host + (":"@ + port));
            assert(s[0] == host[0]);
            lemma_position(host, ":"@ + port, ':', 0);
            let k = host.len() as int;
            assert(s.subrange(0, k) =~= host);
            assert(s.subrange(k + 1, s.len() as int) =~= port);
        },
        IpAddr::V6(_) => {
            reveal_strlit("[");
            reveal_strlit("%");
            reveal_strlit("]:");
            let scope = text::number_text(address.scope_id as nat, 10);
            lemma_number(address.scope_id as nat, 10, 0xffff_ffff);
            lemma_number_free(address.scope_id as nat, 10);
            let zone = if address.scope_id == 0 {
                Seq::empty()
            } else {
                "%"@ + scope
            };
            lemma_free_concat("%"@, scope, ']');
            let inner = host + zone;
            lemma_free_concat(host, zone, ']');
            lemma_free_concat("["@, inner, ']');
            assert(s =~= ("["@ + inner) + ("]:"@ + port));
            assert(s[0] == '[');
            lemma_position("["@ + inner, "]:"@ + port, ']', 0);
            let k = ("["@ + inner).len() as int;
            assert(s[k + 1] == ':');
            assert(s.subrange(1, k) =~= inner);
            assert(s.subrange(k + 2, s.len() as int) =~= port);
            if address.scope_id == 0 {
                assert(inner =~= host);
                lemma_no_position(host, '%', 0);
            } else {
                lemma_position(host, zone, '%', 0);
                let j = host.len() as int;
                assert(inner.subrange(0, j) =~= host);
                assert(inner.subrange(j + 1, inner.len() as int) =~= scope);
            }
        },
    }
}

/// A character that a text is free of is not found.
proof fn lemma_no_position(a: Seq<char>, c: char, i: int)
    requires
        is_free_of(a, c),
        0 <= i,
    ensures
        text::position_from(a, c, i) == a.len(),
    decreases a.len() - i,
{
    if i < a.len() {
        lemma_no_position(a, c, i + 1);
    }
}

/// A written IP address is no socket address: it has no port.
pub proof fn lemma_no_socket(ip: IpAddr)
    ensures
        addr::socket_addr(addr::ip_text(ip)) is None,
        text::position(addr::ip_text(ip), '%') == addr::ip_text(ip).len(),
        addr::ip_text(ip).len() > 0,
        addr::ip_text(ip)[0] != '[',
        addr::ip_text(ip)[0] != 'h',
{
    let s = addr::ip_text(ip);
    lemma_ip_text(ip);
    lemma_no_position(s, '%', 0);
    match ip {
        IpAddr::V4(n) => {
            lemma_no_position(s, ':', 0);
            let first = text::number_text(n as nat / 16777216, 10);
            lemma_number_text(n as nat / 16777216, 10);
            assert(s[0] == first[0]);
            assert(text::is_digit(first[0], 10));
        },
        IpAddr::V6(n) => {
            let m = n as nat;
            let k = text::position(s, ':');
            if m / 0x1_0000_0000 == 0xffff {
                reveal_strlit("::ffff:");
                assert(s[0] == ':');
                let head = s.subrange(0, 0);
                lemma_split_none(head, '.', 0);
            } else {
                let groups = addr::groups_of(m);
                let (start, len) = addr::longest_zero_run(groups, 0, 0, 0);
                lemma_longest_run(groups, 0, 0, 0);
                reveal_strlit("::");
                if len > 1 {
                    let head = addr::groups_text(groups, 0, start);
                    let tail = addr::groups_text(groups, start + len, 8);
                    lemma_groups_free(groups, 0, start);
                    lemma_groups_free(groups, start + len, 8);
                    lemma_free_concat(head, "::"@, '.');
                    lemma_free_concat(head + "::"@, tail, '.');
                    if start > 0 {
                        lemma_groups_first(groups, 0, start);
                        assert(s[0] == head[0]);
                    } else {
                        assert(head.len() == 0);
                        assert(s[0] == ':');
                    }
                } else {
                    lemma_groups_free(groups, 0, 8);
                    lemma_groups_first(groups, 0, 8);
                }
                lemma_position_within(s, ':', 0);
                let head = s.subrange(0, k);
                assert(is_free_of(head, '.'));
                lemma_split_none(head, '.', 0);
            }
        },
    }
}

/// A position is within the text or at its end.
proof fn lemma_position_within(s: Seq<char>, c: char, i: int)
    requires
        0 <= i <= s.len(),
    ensures
        i <= text::position_from(s, c, i) <= s.len(),
    decreases s.len() - i,
{
    if i < s.len() && s[i] != c {
        lemma_position_within(s, c, i + 1);
    }
}

/// Written groups are free of dots.
proof fn lemma_groups_free(groups: Seq<nat>, i: int, end: int)
    ensures
        is_free_of(addr::groups_text(groups, i, end), '.'),
    decreases end - i,
{
    if i < end {
        let first = text::number_text(groups[i], 16);
        lemma_number_free(groups[i], 16);
        if i + 1 < end {
            lemma_groups_free(groups, i + 1, end);
            reveal_strlit(":");
            lemma_free_concat(first, ":"@, '.');
            lemma_free_concat(first + ":"@, addr::groups_text(groups, i + 1, end), '.');
        }
    }
}

/// Written groups start with a digit.
proof fn lemma_groups_first(groups: Seq<nat>, i: int, end: int)
    requires
        i < end,
    ensures
        addr::groups_text(groups, i, end).len() > 0,
        text::is_digit(addr::groups_text(groups, i, end)[0], 16),
{
    let first = text::number_text(groups[i], 16);
    lemma_number_text(groups[i], 16);
    assert(text::is_digit(first[0], 16));
    assert(addr::groups_text(groups, i, end)[0] == first[0]);
}

/// A written socket address starts like one.
pub proof fn lemma_socket_start(address: SocketAddr)
    ensures
        addr::socket_text(address).len() > 0,
        addr::socket_text(address)[0] != 'h',
{
    lemma_no_socket(address.ip);
    reveal_strlit("[");
    match address.ip {
        IpAddr::V4(_) => {
            assert(addr::socket_text(address)[0] == addr::ip_text(address.ip)[0]);
        },
        IpAddr::V6(_) => {
            assert(addr::socket_text(address)[0] == '[');
        },
    }
}

/// A network in canonical form is not empty.
pub proof fn lemma_canonical_len(s: Seq<char>)
    ensures
        addr::canonical_network(s) is Some ==> addr::canonical_network(s)->0.len() > 0,
{
    reveal_strlit("/");
}

} // verus!
