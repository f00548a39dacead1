//! IPv6 literals: hexadecimal groups separated by colons, with at most one
//! `::` that stands for a run of zero groups, and optionally an IPv4 literal in
//! place of the last two groups.
//!
//! An address is held as the 128-bit number whose most significant group is
//! the first of the literal. [`ipv6_text`] is the one literal that is written
//! out for an address. [`ipv6_value`] reads a text from its front and gives the
//! address it is a literal of; the grammar module states which texts those
//! are and proves that the two agree.

use vstd::prelude::*;
use vstd::string::*;
use crate::ipv4::{ipv4_text, push_ipv4, read_ipv4, scan_ipv4};
use crate::ipv6_grammar::{is_ipv6_literal, lemma_literal_has_value, lemma_value_is_literal};
use crate::text::{
    chars_of, hex_digit_value, hex_value, hexadecimal, is_hex_digit, push_hexadecimal,
};

verus! {

/// The lowest `count` groups of `a`, the most significant first.
pub open spec fn unpack_groups(a: nat, count: nat) -> Seq<u16>
    decreases count,
{
    if count == 0 {
        Seq::empty()
    } else {
        unpack_groups(a / 0x1_0000, (count - 1) as nat).push((a % 0x1_0000) as u16)
    }
}

/// The eight groups of `a`, the most significant first.
pub open spec fn groups(a: u128) -> Seq<u16> {
    unpack_groups(a as nat, 8)
}

/// The number whose groups, the most significant first, are `gs`.
pub open spec fn pack_groups(gs: Seq<u16>) -> nat
    decreases gs.len(),
{
    if gs.len() == 0 {
        0
    } else {
        pack_groups(gs.drop_last()) * 0x1_0000 + gs.last() as nat
    }
}

/// `count` groups of zero.
pub open spec fn zero_groups(count: nat) -> Seq<u16> {
    Seq::new(count, |i: int| 0u16)
}

/// The number of values that `count` groups can take.
pub open spec fn group_span(count: nat) -> nat
    decreases count,
{
    if count == 0 {
        1
    } else {
        group_span((count - 1) as nat) * 0x1_0000
    }
}

/// The hexadecimal numerals of `gs`, separated by colons.
pub open spec fn colon_text(gs: Seq<u16>) -> Seq<char>
    decreases gs.len(),
{
    if gs.len() == 0 {
        Seq::empty()
    } else if gs.len() == 1 {
        hexadecimal(gs[0] as nat)
    } else {
        colon_text(gs.drop_last()) + seq![':'] + hexadecimal(gs.last() as nat)
    }
}

/// The length of the run of zero groups that starts at `i`.
pub open spec fn zero_run(gs: Seq<u16>, i: int) -> nat
    decreases gs.len() - i,
{
    if 0 <= i < gs.len() && gs[i] == 0 {
        1 + zero_run(gs, i + 1)
    } else {
        0
    }
}

/// Where the longest run of zero groups starts, among the runs that start
/// before `upto`: the first of them where several are longest.
pub open spec fn gap_start(gs: Seq<u16>, upto: nat) -> int
    decreases upto,
{
    if upto == 0 {
        0
    } else {
        let best = gap_start(gs, (upto - 1) as nat);
        if zero_run(gs, upto - 1) > zero_run(gs, best) {
            upto - 1
        } else {
            best
        }
    }
}

/// Whether `a` is an IPv4 address mapped into IPv6: five zero groups, then a
/// group of ones, then the IPv4 address.
pub open spec fn is_mapped(a: u128) -> bool {
    a / 0x1_0000_0000 == 0xffff
}

/// The literal of the address `a`. A mapped IPv4 address is written as
/// `::ffff:` and its IPv4 literal. In any other address the longest run of
/// two or more zero groups, the first of the longest, shrinks to `::`; the
/// groups are written in lower case without zeros in front.
pub open spec fn ipv6_text(a: u128) -> Seq<char> {
    if is_mapped(a) {
        seq![':', ':', 'f', 'f', 'f', 'f', ':'] + ipv4_text((a % 0x1_0000_0000) as u32)
    } else {
        let gs = groups(a);
        let start = gap_start(gs, 8);
        let len = zero_run(gs, start);
        if len > 1 {
            colon_text(gs.take(start)) + seq![':', ':'] + colon_text(gs.skip(start + len))
        } else {
            colon_text(gs)
        }
    }
}

/// How many of the first `limit` characters of `s` are hexadecimal digits in
/// an unbroken run from the front.
pub open spec fn leading_hex_digits(s: Seq<char>, limit: nat) -> nat
    decreases limit,
{
    if limit == 0 || s.len() == 0 || !is_hex_digit(s[0]) {
        0
    } else {
        1 + leading_hex_digits(s.drop_first(), (limit - 1) as nat)
    }
}

/// The group written at the front of `s`, with the number of characters it
/// takes: one to four hexadecimal digits in either case.
pub open spec fn read_group(s: Seq<char>) -> Option<(u16, nat)> {
    let n = leading_hex_digits(s, 4);
    if n == 0 {
        None
    } else {
        Some((hex_value(s.take(n as int)) as u16, n))
    }
}

/// The groups written at the front of `s`, at most `limit` of them, with a
/// colon between each two; the number of characters they take; and whether
/// the last two of them were written as an IPv4 literal. A colon counts only
/// where a group or an IPv4 literal follows it, and an IPv4 literal is looked
/// for wherever two groups are still wanted.
pub open spec fn read_groups(s: Seq<char>, limit: nat) -> (Seq<u16>, nat, bool)
    decreases limit,
{
    if limit == 0 {
        (Seq::empty(), 0, false)
    } else if limit >= 2 && read_ipv4(s) is Some {
        let (a, n) = read_ipv4(s)->0;
        (seq![(a / 0x1_0000) as u16, (a % 0x1_0000) as u16], n, true)
    } else {
        match read_group(s) {
            None => (Seq::empty(), 0, false),
            Some((g, n)) => {
                if s.len() > n && s[n as int] == ':' {
                    let (more, m, dotted) = read_groups(s.skip(n + 1 as int), (limit - 1) as nat);
                    if more.len() > 0 {
                        (seq![g] + more, n + 1 + m, dotted)
                    } else {
                        (seq![g], n, false)
                    }
                } else {
                    (seq![g], n, false)
                }
            },
        }
    }
}

/// The address that `s` is a literal of, if it is one: either eight groups, or
/// fewer with one `::` among them that stands for the zero groups left out,
/// at least one. An IPv4 literal may stand in place of the last two groups,
/// never in front of `::`.
pub open spec fn ipv6_value(s: Seq<char>) -> Option<u128> {
    let (head, n, dotted) = read_groups(s, 8);
    if head.len() == 8 {
        if n == s.len() {
            Some(pack_groups(head) as u128)
        } else {
            None
        }
    } else if dotted || !(s.len() >= n + 2 && s[n as int] == ':' && s[n + 1 as int] == ':') {
        None
    } else {
        let (tail, m, _) = read_groups(s.skip(n + 2 as int), (7 - head.len()) as nat);
        if n + 2 + m == s.len() {
            Some(
                pack_groups(head + zero_groups((8 - head.len() - tail.len()) as nat) + tail) as u128,
            )
        } else {
            None
        }
    }
}

/// What `leading_hex_digits` counts is a run of hexadecimal digits within
/// `s` and within the limit, with no such digit behind it where it ends
/// early.
pub proof fn lemma_leading_hex_digits_bound(s: Seq<char>, limit: nat)
    ensures
        leading_hex_digits(s, limit) <= limit,
        leading_hex_digits(s, limit) <= s.len(),
        forall|i: int| 0 <= i < leading_hex_digits(s, limit) ==> is_hex_digit(#[trigger] s[i]),
        leading_hex_digits(s, limit) < limit && leading_hex_digits(s, limit) < s.len()
            ==> !is_hex_digit(s[leading_hex_digits(s, limit) as int]),
    decreases limit,
{
    if limit == 0 || s.len() == 0 || !is_hex_digit(s[0]) {
    } else {
        let t = s.drop_first();
        lemma_leading_hex_digits_bound(t, (limit - 1) as nat);
        let n = leading_hex_digits(t, (limit - 1) as nat);
        assert forall|i: int| 0 <= i < n + 1 implies is_hex_digit(#[trigger] s[i]) by {
            if i > 0 {
                assert(s[i] == t[i - 1]);
            }
        }
        if n + 1 < limit && n + 1 < s.len() {
            assert(s[n + 1 as int] == t[n as int]);
        }
    }
}

/// A run of `n` hexadecimal digits at the front of `s`, with no such digit
/// behind it among the first `limit` characters, is what `leading_hex_digits`
/// counts.
pub proof fn lemma_leading_hex_digits_is(s: Seq<char>, limit: nat, n: nat)
    requires
        n <= limit,
        n <= s.len(),
        forall|i: int| 0 <= i < n ==> is_hex_digit(#[trigger] s[i]),
        n == limit || n == s.len() || !is_hex_digit(s[n as int]),
    ensures
        leading_hex_digits(s, limit) == n,
    decreases limit,
{
    if n == 0 {
    } else {
        let t = s.drop_first();
        assert forall|i: int| 0 <= i < n - 1 implies is_hex_digit(#[trigger] t[i]) by {
            assert(t[i] == s[i + 1]);
        }
        if n < limit && n < s.len() {
            assert(t[n - 1] == s[n as int]);
        }
        assert(is_hex_digit(s[0]));
        lemma_leading_hex_digits_is(t, (limit - 1) as nat, (n - 1) as nat);
    }
}

/// Groups pack into a number below the span of their count.
pub proof fn lemma_pack_groups_bound(gs: Seq<u16>)
    ensures
        pack_groups(gs) < group_span(gs.len()),
    decreases gs.len(),
{
    if gs.len() > 0 {
        lemma_pack_groups_bound(gs.drop_last());
    }
}

/// Eight groups span the 128-bit numbers.
pub proof fn lemma_group_span_of_eight()
    ensures
        group_span(8) == 0x1_0000_0000_0000_0000_0000_0000_0000_0000,
{
    reveal_with_fuel(group_span, 9);
}

/// What `read_groups` returns lies within its limit and within `s`.
pub proof fn lemma_read_groups_bound(s: Seq<char>, limit: nat)
    ensures
        read_groups(s, limit).0.len() <= limit,
        read_groups(s, limit).1 <= s.len(),
        read_groups(s, limit).0.len() == 0 ==> read_groups(s, limit).1 == 0 && !read_groups(
            s,
            limit,
        ).2,
    decreases limit,
{
    if limit == 0 {
    } else if limit >= 2 && read_ipv4(s) is Some {
        crate::ipv4::lemma_read_dotted_is_text(s, 4);
    } else {
        lemma_leading_hex_digits_bound(s, 4);
        match read_group(s) {
            None => {},
            Some((g, n)) => {
                if s.len() > n && s[n as int] == ':' {
                    lemma_read_groups_bound(s.skip(n + 1 as int), (limit - 1) as nat);
                }
            },
        }
    }
}

/// More groups span more numbers.
pub proof fn lemma_group_span_grows(few: nat, many: nat)
    requires
        few <= many,
    ensures
        0 < group_span(few) <= group_span(many),
    decreases many,
{
    if few < many {
        lemma_group_span_grows(few, (many - 1) as nat);
    } else if few > 0 {
        lemma_group_span_grows((few - 1) as nat, (few - 1) as nat);
    }
}

/// The hexadecimal numeral of a group has one to four digits, all of them
/// hexadecimal digits in lower case, and denotes the group.
pub proof fn lemma_hexadecimal_of_group(g: u16)
    ensures
        1 <= hexadecimal(g as nat).len() <= 4,
        forall|i: int|
            0 <= i < hexadecimal(g as nat).len() ==> is_hex_digit(
                #[trigger] hexadecimal(g as nat)[i],
            ),
        hex_value(hexadecimal(g as nat)) == g,
{
    reveal_with_fuel(hexadecimal, 4);
    reveal_with_fuel(hex_value, 5);
    let h = hexadecimal(g as nat);
    let v = g as nat;
    if v < 0x10 {
        assert(h.drop_last().len() == 0);
    } else if v < 0x100 {
        let h1 = h.drop_last();
        assert(h1 == hexadecimal(v / 16));
        assert(h1.drop_last().len() == 0);
    } else if v < 0x1000 {
        let h1 = h.drop_last();
        assert(h1 == hexadecimal(v / 16));
        let h2 = h1.drop_last();
        assert(h2 == hexadecimal(v / 256));
        assert(h2.drop_last().len() == 0);
    } else {
        let h1 = h.drop_last();
        assert(h1 == hexadecimal(v / 16));
        let h2 = h1.drop_last();
        assert(h2 == hexadecimal(v / 256));
        let h3 = h2.drop_last();
        assert(h3 == hexadecimal(v / 4096));
        assert(h3.drop_last().len() == 0);
    }
}

/// Nothing is read where a colon stands first.
pub proof fn lemma_no_group_at_colon(s: Seq<char>, limit: nat)
    requires
        s.len() == 0 || s[0] == ':',
    ensures
        read_groups(s, limit) == (Seq::<u16>::empty(), 0nat, false),
{
    assert(crate::ipv4::leading_digits(s, 3) == 0);
    assert(leading_hex_digits(s, 4) == 0);
}

/// The text of some groups starts with the numeral of the first; where there
/// are more, a colon and the text of the others follow.
pub proof fn lemma_colon_text_from_front(g: u16, gs: Seq<u16>)
    ensures
        colon_text(seq![g] + gs) == if gs.len() == 0 {
            hexadecimal(g as nat)
        } else {
            hexadecimal(g as nat) + seq![':'] + colon_text(gs)
        },
    decreases gs.len(),
{
    let all = seq![g] + gs;
    if gs.len() == 0 {
        assert(all.len() == 1);
        assert(all[0] == g);
    } else {
        let front = gs.drop_last();
        lemma_colon_text_from_front(g, front);
        assert(all.drop_last() == seq![g] + front);
        assert(all.last() == gs.last());
        if front.len() == 0 {
            assert(gs.len() == 1);
            assert(colon_text(gs) == hexadecimal(gs[0] as nat));
            assert(gs.last() == gs[0]);
        } else {
            assert(colon_text(all) == hexadecimal(g as nat) + seq![':'] + (colon_text(front)
                + seq![':'] + hexadecimal(gs.last() as nat)));
        }
    }
}

/// The groups of a number pack into that number.
pub proof fn lemma_pack_of_unpack(a: nat, count: nat)
    requires
        a < group_span(count),
    ensures
        unpack_groups(a, count).len() == count,
        pack_groups(unpack_groups(a, count)) == a,
    decreases count,
{
    if count > 0 {
        let front = unpack_groups(a / 0x1_0000, (count - 1) as nat);
        lemma_pack_of_unpack(a / 0x1_0000, (count - 1) as nat);
        assert(unpack_groups(a, count).drop_last() == front);
    }
}

/// The eight groups of an address pack into that address.
pub proof fn lemma_pack_of_groups(a: u128)
    ensures
        groups(a).len() == 8,
        pack_groups(groups(a)) == a,
{
    lemma_group_span_of_eight();
    lemma_pack_of_unpack(a as nat, 8);
}

/// A run of zero groups holds nothing but zeros, and ends within the groups.
pub proof fn lemma_zero_run(gs: Seq<u16>, i: int)
    requires
        0 <= i <= gs.len(),
    ensures
        i + zero_run(gs, i) <= gs.len(),
        forall|j: int| i <= j < i + zero_run(gs, i) ==> #[trigger] gs[j] == 0,
    decreases gs.len() - i,
{
    if i < gs.len() && gs[i] == 0 {
        lemma_zero_run(gs, i + 1);
    }
}

/// The widest gap starts at one of the groups, or at the front where there
/// are none.
pub proof fn lemma_gap_start_bound(gs: Seq<u16>, upto: nat)
    ensures
        0 <= gap_start(gs, upto),
        upto > 0 ==> gap_start(gs, upto) < upto,
        upto == 0 ==> gap_start(gs, upto) == 0,
    decreases upto,
{
    if upto > 0 {
        lemma_gap_start_bound(gs, (upto - 1) as nat);
    }
}

/// Five zero groups, the group of ones and the two halves of a 32-bit number
/// pack into the mapped address of that number.
pub proof fn lemma_pack_of_mapped(v: u32)
    ensures
        pack_groups(
            Seq::<u16>::empty() + zero_groups(5) + (seq![0xffffu16] + seq![
                (v / 0x1_0000) as u16,
                (v % 0x1_0000) as u16,
            ]),
        ) == 0xffff_0000_0000 + v,
{
    let all = Seq::<u16>::empty() + zero_groups(5) + (seq![0xffffu16] + seq![
        (v / 0x1_0000) as u16,
        (v % 0x1_0000) as u16,
    ]);
    assert(all == seq![
        0u16,
        0u16,
        0u16,
        0u16,
        0u16,
        0xffffu16,
        (v / 0x1_0000) as u16,
        (v % 0x1_0000) as u16,
    ]);
    reveal_with_fuel(pack_groups, 9);
    let a7 = all.drop_last();
    let a6 = a7.drop_last();
    let a5 = a6.drop_last();
    let a4 = a5.drop_last();
    let a3 = a4.drop_last();
    let a2 = a3.drop_last();
    let a1 = a2.drop_last();
    assert(a1.drop_last().len() == 0);
    assert(a1.last() == 0 && a2.last() == 0 && a3.last() == 0 && a4.last() == 0 && a5.last() == 0);
    assert(a6.last() == 0xffff);
    assert(a7.last() == (v / 0x1_0000) as u16);
    assert(all.last() == (v % 0x1_0000) as u16);
}

/// The number that `c` stands for as a hexadecimal digit, if it is one.
fn hex_digit_of(c: char) -> (digit: Option<u8>)
    ensures
        digit is Some == is_hex_digit(c),
        digit matches Some(d) ==> d == hex_digit_value(c) && d < 16,
{
    if c >= '0' && c <= '9' {
        Some((c as u32 - '0' as u32) as u8)
    } else if c >= 'a' && c <= 'f' {
        Some((c as u32 - 'a' as u32 + 10) as u8)
    } else if c >= 'A' && c <= 'F' {
        Some((c as u32 - 'A' as u32 + 10) as u8)
    } else {
        None
    }
}

/// Reads the group that starts at `pos`, in the part of `chars` that ends
/// before `hi`. Returns the group and the position behind it.
fn scan_group(chars: &Vec<char>, pos: usize, hi: usize) -> (found: Option<(u16, usize)>)
    requires
        pos <= hi <= chars@.len(),
    ensures
        match read_group(chars@.subrange(pos as int, hi as int)) {
            Some((g, n)) => found == Some((g, (pos + n) as usize)) && 1 <= n && pos + n <= hi,
            None => found is None,
        },
{
    let ghost s = chars@.subrange(pos as int, hi as int);
    let mut n: usize = 0;
    let mut v: u32 = 0;
    assert(s.take(0).len() == 0);
    while n < 4 && pos + n < hi
        invariant
            pos <= hi <= chars@.len(),
            s == chars@.subrange(pos as int, hi as int),
            n <= 4,
            pos + n <= hi,
            forall|i: int| 0 <= i < n ==> is_hex_digit(#[trigger] s[i]),
            v == hex_value(s.take(n as int)),
            v <= 0xffff,
            n <= 3 ==> v <= 0xfff,
            n <= 2 ==> v <= 0xff,
            n <= 1 ==> v <= 0xf,
            n == 0 ==> v == 0,
        ensures
            n <= 4,
            pos + n <= hi,
            forall|i: int| 0 <= i < n ==> is_hex_digit(#[trigger] s[i]),
            v == hex_value(s.take(n as int)),
            v <= 0xffff,
            n == 4 || pos + n == hi || !is_hex_digit(s[n as int]),
        decreases 4 - n,
    {
        let c = chars[pos + n];
        assert(c == s[n as int]);
        match hex_digit_of(c) {
            None => {
                break ;
            },
            Some(d) => {
                assert(s.take(n + 1).drop_last() == s.take(n as int));
                assert(s.take(n + 1).last() == c);
                v = v * 16 + d as u32;
                n += 1;
            },
        }
    }
    proof {
        lemma_leading_hex_digits_is(s, 4, n as nat);
    }
    if n == 0 {
        None
    } else {
        Some((v as u16, pos + n))
    }
}

/// Reads the groups that start at `pos`, at most `limit` of them, in the part
/// of `chars` that ends before `hi`, and appends them to `out`. Returns the
/// position behind the last of them and whether the last two were written as
/// an IPv4 literal.
fn scan_groups(
    chars: &Vec<char>,
    pos: usize,
    hi: usize,
    limit: usize,
    out: &mut Vec<u16>,
) -> (end: (usize, bool))
    requires
        pos <= hi <= chars@.len(),
    ensures
        ({
            let (gs, n, dotted) = read_groups(chars@.subrange(pos as int, hi as int), limit as nat);
            &&& final(out)@ == old(out)@ + gs
            &&& end.0 == pos + n
            &&& end.1 == dotted
            &&& pos + n <= hi
            &&& gs.len() <= limit
        }),
    decreases limit,
{
    let ghost s = chars@.subrange(pos as int, hi as int);
    proof {
        lemma_read_groups_bound(s, limit as nat);
    }
    if limit == 0 {
        assert(out@ + Seq::<u16>::empty() == out@);
        return (pos, false);
    }
    if limit >= 2 {
        if let Some((a, next)) = scan_ipv4(chars, pos, hi) {
            out.push((a / 0x1_0000) as u16);
            out.push((a % 0x1_0000) as u16);
            assert(out@ == old(out)@ + seq![(a / 0x1_0000) as u16, (a % 0x1_0000) as u16]);
            return (next, true);
        }
    }
    match scan_group(chars, pos, hi) {
        None => {
            assert(out@ + Seq::<u16>::empty() == out@);
            (pos, false)
        },
        Some((g, next)) => {
            out.push(g);
            let ghost n = (next - pos) as nat;
            if next < hi && chars[next] == ':' {
                assert(s[n as int] == chars@[next as int]);
                assert(s.skip(n + 1 as int) == chars@.subrange(next + 1, hi as int));
                let ghost before = out@;
                let told = out.len();
                let (end, dotted) = scan_groups(chars, next + 1, hi, limit - 1, out);
                let ghost more = read_groups(s.skip(n + 1 as int), (limit - 1) as nat).0;
                assert(out@ == old(out)@ + (seq![g] + more));
                if out.len() > told {
                    (end, dotted)
                } else {
                    assert(more.len() == 0);
                    assert(out@ == old(out)@ + seq![g]);
                    (next, false)
                }
            } else {
                proof {
                    if next < hi {
                        assert(s[n as int] == chars@[next as int]);
                    }
                    assert(out@ == old(out)@ + seq![g]);
                }
                (next, false)
            }
        },
    }
}

/// The number that eight groups, the most significant first, make up.
fn pack(gs: &Vec<u16>) -> (a: u128)
    requires
        gs@.len() == 8,
    ensures
        a == pack_groups(gs@),
{
    let mut a: u128 = 0;
    let mut i: usize = 0;
    assert(gs@.take(0).len() == 0);
    while i < 8
        invariant
            gs@.len() == 8,
            i <= 8,
            a == pack_groups(gs@.take(i as int)),
        decreases 8 - i,
    {
        proof {
            let front = gs@.take(i + 1);
            assert(front.drop_last() == gs@.take(i as int));
            assert(front.last() == gs@[i as int]);
            lemma_pack_groups_bound(front);
            lemma_pack_groups_bound(gs@.take(i as int));
            lemma_group_span_of_eight();
            lemma_group_span_grows(front.len(), 8);
        }
        a = a * 0x1_0000 + gs[i] as u128;
        i += 1;
    }
    assert(gs@.take(8) == gs@);
    a
}

/// Reads the part of `chars` from `lo` up to `hi` as a literal.
pub(crate) fn parse_ipv6_in(chars: &Vec<char>, lo: usize, hi: usize) -> (address: Option<u128>)
    requires
        lo <= hi <= chars@.len(),
    ensures
        address == ipv6_value(chars@.subrange(lo as int, hi as int)),
{
    let ghost s = chars@.subrange(lo as int, hi as int);
    let mut all: Vec<u16> = Vec::new();
    let (at, dotted) = scan_groups(chars, lo, hi, 8, &mut all);
    let ghost head = all@;
    let ghost n = (at - lo) as nat;
    assert(head == read_groups(s, 8).0) by {
        assert(Seq::<u16>::empty() + read_groups(s, 8).0 == read_groups(s, 8).0);
    }
    if all.len() == 8 {
        return if at == hi {
            Some(pack(&all))
        } else {
            None
        };
    }
    if dotted || !(hi - at >= 2 && chars[at] == ':' && chars[at + 1] == ':') {
        proof {
            if hi - at >= 2 {
                assert(s[n as int] == chars@[at as int]);
                assert(s[n + 1 as int] == chars@[at + 1]);
            }
        }
        return None;
    }
    proof {
        assert(s[n as int] == chars@[at as int]);
        assert(s[n + 1 as int] == chars@[at + 1]);
        assert(s.skip(n + 2 as int) == chars@.subrange(at + 2, hi as int));
    }
    let mut tail: Vec<u16> = Vec::new();
    let (end, _) = scan_groups(chars, at + 2, hi, 7 - all.len(), &mut tail);
    assert(tail@ == read_groups(s.skip(n + 2 as int), (7 - head.len()) as nat).0) by {
        let found = read_groups(s.skip(n + 2 as int), (7 - head.len()) as nat).0;
        assert(Seq::<u16>::empty() + found == found);
    }
    if end != hi {
        return None;
    }
    let gap = 8 - all.len() - tail.len();
    let mut i: usize = 0;
    while i < gap
        invariant
            i <= gap,
            gap == 8 - head.len() - tail@.len(),
            all@ == head + zero_groups(i as nat),
        decreases gap - i,
    {
        all.push(0);
        i += 1;
        assert(all@ == head + zero_groups(i as nat));
    }
    let mut j: usize = 0;
    assert(tail@.take(0).len() == 0);
    while j < tail.len()
        invariant
            j <= tail@.len(),
            gap == 8 - head.len() - tail@.len(),
            all@ == head + zero_groups(gap as nat) + tail@.take(j as int),
        decreases tail@.len() - j,
    {
        all.push(tail[j]);
        j += 1;
        assert(all@ == head + zero_groups(gap as nat) + tail@.take(j as int));
    }
    assert(tail@.take(tail@.len() as int) == tail@);
    Some(pack(&all))
}

/// Reads `text` as an IPv6 literal: groups of one to four hexadecimal digits
/// in either case, with a colon between each two; eight of them, or fewer
/// with one `::` in place of the zero groups left out; the last two perhaps
/// written as an IPv4 literal; and nothing before or behind.
pub fn parse_ipv6(text: &str) -> (address: Option<u128>)
    ensures
        address == ipv6_value(text@),
        address matches Some(a) ==> is_ipv6_literal(text@, a),
        address is None ==> forall|a: u128| !#[trigger] is_ipv6_literal(text@, a),
{
    let chars = chars_of(text);
    assert(chars@.subrange(0, chars@.len() as int) == text@);
    let address = parse_ipv6_in(&chars, 0, chars.len());
    proof {
        lemma_value_is_literal(text@);
        assert forall|a: u128| address is None implies !#[trigger] is_ipv6_literal(text@, a) by {
            if is_ipv6_literal(text@, a) {
                lemma_literal_has_value(text@, a);
            }
        }
    }
    address
}

/// The eight groups of `a`, the most significant first.
fn split(a: u128) -> (gs: Vec<u16>)
    ensures
        gs@ == groups(a),
        gs@.len() == 8,
{
    let mut back: Vec<u16> = Vec::new();
    let mut rest: u128 = a;
    let mut i: usize = 0;
    while i < 8
        invariant
            i <= 8,
            back@.len() == i,
            forall|count: nat| #[trigger]
                unpack_groups(a as nat, i as nat + count) == unpack_groups(rest as nat, count)
                    + back@.reverse(),
        decreases 8 - i,
    {
        let g = (rest % 0x1_0000) as u16;
        let ghost before = back@;
        let ghost prior = rest;
        back.push(g);
        rest = rest / 0x1_0000;
        i += 1;
        assert forall|count: nat| #[trigger]
            unpack_groups(a as nat, i as nat + count) == unpack_groups(rest as nat, count)
                + back@.reverse() by {
            assert(unpack_groups(a as nat, (i - 1) as nat + (count + 1)) == unpack_groups(
                prior as nat,
                count + 1,
            ) + before.reverse());
            assert(back@.reverse() == seq![g] + before.reverse());
            assert(unpack_groups(prior as nat, count + 1) == unpack_groups(rest as nat, count).push(
                g,
            ));
        }
    }
    let mut gs: Vec<u16> = Vec::new();
    let mut k: usize = 8;
    assert(unpack_groups(a as nat, 8nat + 0) == unpack_groups(rest as nat, 0) + back@.reverse());
    assert(groups(a) == back@.reverse());
    while k > 0
        invariant
            k <= 8,
            back@.len() == 8,
            gs@ == back@.reverse().take(8 - k),
        decreases k,
    {
        k -= 1;
        gs.push(back[k]);
        assert(gs@ == back@.reverse().take(8 - k));
    }
    assert(back@.reverse().take(8) == back@.reverse());
    gs
}

/// The length of the run of zero groups that starts at `i`.
fn zero_run_at(gs: &Vec<u16>, i: usize) -> (len: usize)
    requires
        i <= gs@.len(),
    ensures
        len == zero_run(gs@, i as int),
        i + len <= gs@.len(),
{
    let mut j: usize = i;
    while j < gs.len() && gs[j] == 0
        invariant
            i <= j <= gs@.len(),
            zero_run(gs@, i as int) == (j - i) + zero_run(gs@, j as int),
        decreases gs@.len() - j,
    {
        j += 1;
    }
    j - i
}

/// Appends the hexadecimal numerals of the groups from `from` up to `to`,
/// separated by colons, to `out`.
fn push_colon_text(out: &mut String, gs: &Vec<u16>, from: usize, to: usize)
    requires
        from <= to <= gs@.len(),
    ensures
        final(out)@ == old(out)@ + colon_text(gs@.subrange(from as int, to as int)),
{
    let mut i: usize = from;
    assert(gs@.subrange(from as int, from as int).len() == 0);
    assert(out@ + Seq::<char>::empty() == out@);
    while i < to
        invariant
            from <= i <= to <= gs@.len(),
            out@ == old(out)@ + colon_text(gs@.subrange(from as int, i as int)),
        decreases to - i,
    {
        let ghost before = gs@.subrange(from as int, i as int);
        let ghost after = gs@.subrange(from as int, i + 1);
        assert(after.drop_last() == before);
        assert(after.last() == gs@[i as int]);
        if i > from {
            proof {
                reveal_strlit(":");
                assert(":"@ == seq![':']);
            }
            out.append(":");
        }
        push_hexadecimal(out, gs[i]);
        i += 1;
        assert(out@ == old(out)@ + colon_text(after));
    }
}

/// Appends the literal of `a` to `out`.
pub(crate) fn push_ipv6(out: &mut String, a: u128)
    ensures
        final(out)@ == old(out)@ + ipv6_text(a),
{
    if a / 0x1_0000_0000 == 0xffff {
        proof {
            reveal_strlit("::ffff:");
            assert("::ffff:"@ == seq![':', ':', 'f', 'f', 'f', 'f', ':']);
        }
        out.append("::ffff:");
        push_ipv4(out, (a % 0x1_0000_0000) as u32);
        assert(out@ == old(out)@ + ipv6_text(a));
        return ;
    }
    let gs = split(a);
    let mut start: usize = 0;
    let mut len: usize = zero_run_at(&gs, 0);
    let mut i: usize = 0;
    while i < 8
        invariant
            i <= 8,
            gs@.len() == 8,
            start <= 8,
            start == gap_start(gs@, i as nat),
            len == zero_run(gs@, start as int),
            start + len <= 8,
        decreases 8 - i,
    {
        let run = zero_run_at(&gs, i);
        if run > len {
            start = i;
            len = run;
        }
        i += 1;
    }
    if len > 1 {
        proof {
            reveal_strlit("::");
            assert("::"@ == seq![':', ':']);
            assert(gs@.subrange(0, start as int) == gs@.take(start as int));
            assert(gs@.subrange(start + len, 8) == gs@.skip(start + len));
        }
        push_colon_text(out, &gs, 0, start);
        out.append("::");
        push_colon_text(out, &gs, start + len, 8);
    } else {
        assert(gs@.subrange(0, 8) == gs@);
        push_colon_text(out, &gs, 0, 8);
    }
    assert(out@ == old(out)@ + ipv6_text(a));
}

/// The literal of `a`.
pub fn ipv6_to_string(a: u128) -> (text: String)
    ensures
        text@ == ipv6_text(a),
{
    let mut text = String::new();
    push_ipv6(&mut text, a);
    assert(Seq::<char>::empty() + ipv6_text(a) == ipv6_text(a));
    text
}

} // verus!
