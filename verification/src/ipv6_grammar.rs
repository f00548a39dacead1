//! The grammar of IPv6 literals, and the proof that the reader accepts
//! exactly that grammar.
//!
//! A literal spells eight groups. Each group is written as a numeral of one to
//! four hexadecimal digits, in either case; a colon stands between each two; an
//! IPv4 literal may stand in place of the last two groups; and one run of one
//! or more zero groups may be left out, with `::` standing where it was.

use vstd::prelude::*;
use crate::ipv4::{
    ipv4_text, leading_digits, lemma_leading_digits_bound, lemma_octets_of_pack,
    lemma_pack_of_octets, lemma_read_dotted_is_text, lemma_read_dotted_of_text, octets, read_ipv4,
};
use crate::ipv6::{
    colon_text, gap_start, groups, ipv6_text, ipv6_value, is_mapped,
    leading_hex_digits, lemma_gap_start_bound, lemma_group_span_of_eight,
    lemma_hexadecimal_of_group, lemma_leading_hex_digits_bound, lemma_leading_hex_digits_is,
    lemma_no_group_at_colon, lemma_pack_groups_bound, lemma_pack_of_groups, lemma_pack_of_mapped,
    lemma_read_groups_bound, lemma_zero_run, pack_groups, read_group, read_groups, zero_groups,
    zero_run,
};
use crate::text::{hex_value, hexadecimal, is_digit, is_hex_digit};

verus! {

/// Whether `t` is a numeral of the group `g`: one to four hexadecimal digits,
/// in either case, that denote `g`.
pub open spec fn is_numeral_of(t: Seq<char>, g: u16) -> bool {
    &&& 1 <= t.len() <= 4
    &&& forall|i: int| 0 <= i < t.len() ==> is_hex_digit(#[trigger] t[i])
    &&& hex_value(t) == g
}

/// Whether `numerals` holds a numeral of each of `gs`, in their order.
pub open spec fn are_numerals_of(numerals: Seq<Seq<char>>, gs: Seq<u16>) -> bool {
    &&& numerals.len() == gs.len()
    &&& forall|i: int| 0 <= i < gs.len() ==> is_numeral_of(#[trigger] numerals[i], gs[i])
}

/// The texts of `parts`, one after another with a colon between each two.
pub open spec fn joined(parts: Seq<Seq<char>>) -> Seq<char>
    decreases parts.len(),
{
    if parts.len() == 0 {
        Seq::empty()
    } else if parts.len() == 1 {
        parts[0]
    } else {
        parts[0] + seq![':'] + joined(parts.drop_first())
    }
}

/// The two groups that hold a 32-bit number, the higher half first.
pub open spec fn halves(v: u32) -> Seq<u16> {
    seq![(v / 0x1_0000) as u16, (v % 0x1_0000) as u16]
}

/// Whether `t` spells `gs` group by group: a numeral of each, with a colon
/// between each two.
pub open spec fn spells_plainly(t: Seq<char>, gs: Seq<u16>) -> bool {
    exists|numerals: Seq<Seq<char>>| #[trigger] are_numerals_of(numerals, gs) && t == joined(numerals)
}

/// Whether `t` spells `gs` with an IPv4 literal in place of the last two
/// groups.
pub open spec fn spells_dotted(t: Seq<char>, gs: Seq<u16>) -> bool {
    &&& gs.len() >= 2
    &&& exists|numerals: Seq<Seq<char>>, v: u32|
        {
            &&& are_numerals_of(numerals, gs.take(gs.len() - 2))
            &&& gs.skip(gs.len() - 2) == halves(v)
            &&& t == #[trigger] joined(numerals.push(ipv4_text(v)))
        }
}

/// Whether `t` spells `gs` in one of the two ways.
pub open spec fn spells(t: Seq<char>, gs: Seq<u16>) -> bool {
    spells_plainly(t, gs) || spells_dotted(t, gs)
}

/// Whether `t` spells all eight groups of `a`.
pub open spec fn is_full_literal(t: Seq<char>, a: u128) -> bool {
    exists|gs: Seq<u16>| gs.len() == 8 && #[trigger] spells(t, gs) && pack_groups(gs) == a
}

/// Whether `t` spells the groups of `a` with `::` in place of a run of zero
/// groups: some groups spelled plainly, `::`, and the groups behind the run,
/// seven at most all in all.
pub open spec fn is_shrunk_literal(t: Seq<char>, a: u128) -> bool {
    exists|head: Seq<u16>, tail: Seq<u16>, front: Seq<char>, back: Seq<char>|
        {
            &&& head.len() + tail.len() <= 7
            &&& #[trigger] spells_plainly(front, head)
            &&& #[trigger] spells(back, tail)
            &&& t == front + seq![':', ':'] + back
            &&& pack_groups(head + zero_groups((8 - head.len() - tail.len()) as nat) + tail) == a
        }
}

/// Whether `t` is a literal of the address `a`.
pub open spec fn is_ipv6_literal(t: Seq<char>, a: u128) -> bool {
    is_full_literal(t, a) || is_shrunk_literal(t, a)
}

/// The parts that a spelling is joined from: the numerals, and the IPv4
/// literal behind them where there is one.
pub open spec fn parts_of(numerals: Seq<Seq<char>>, last: Option<u32>) -> Seq<Seq<char>> {
    match last {
        Some(v) => numerals.push(ipv4_text(v)),
        None => numerals,
    }
}

/// The groups that a spelling stands for: the groups of the numerals, and the
/// halves of the IPv4 address behind them where there is one.
pub open spec fn groups_of(plain: Seq<u16>, last: Option<u32>) -> Seq<u16> {
    match last {
        Some(v) => plain + halves(v),
        None => plain,
    }
}

/// A text that is joined from numerals, and from an IPv4 literal behind them
/// where there is one, spells the groups they stand for.
pub proof fn lemma_parts_spell(numerals: Seq<Seq<char>>, plain: Seq<u16>, last: Option<u32>)
    requires
        are_numerals_of(numerals, plain),
    ensures
        spells(joined(parts_of(numerals, last)), groups_of(plain, last)),
        last is None ==> spells_plainly(joined(parts_of(numerals, last)), groups_of(plain, last)),
{
    let gs = groups_of(plain, last);
    match last {
        None => {},
        Some(v) => {
            assert(gs.take(gs.len() - 2) == plain);
            assert(gs.skip(gs.len() - 2) == halves(v));
            assert(spells_dotted(joined(numerals.push(ipv4_text(v))), gs));
        },
    }
}

/// A text joined from a first part and more parts starts with the first; where
/// there are more, a colon and the others joined follow.
pub proof fn lemma_joined_from_front(first: Seq<char>, more: Seq<Seq<char>>)
    ensures
        joined(seq![first] + more) == if more.len() == 0 {
            first
        } else {
            first + seq![':'] + joined(more)
        },
{
    let all = seq![first] + more;
    assert(all[0] == first);
    assert(all.drop_first() == more);
}

/// A numeral with no hexadecimal digit behind it is read as its group.
pub proof fn lemma_read_group_of_numeral(t: Seq<char>, g: u16, rest: Seq<char>)
    requires
        is_numeral_of(t, g),
        rest.len() == 0 || !is_hex_digit(rest[0]),
    ensures
        read_group(t + rest) == Some((g, t.len())),
{
    let s = t + rest;
    let n = t.len();
    assert forall|i: int| 0 <= i < n implies is_hex_digit(#[trigger] s[i]) by {
        assert(s[i] == t[i]);
    }
    if rest.len() > 0 {
        assert(s[n as int] == rest[0]);
    }
    lemma_leading_hex_digits_is(s, 4, n);
    assert(s.take(n as int) == t);
}

/// No IPv4 literal stands where a numeral is followed by a colon or by
/// nothing.
pub proof fn lemma_no_ipv4_at_numeral(t: Seq<char>, rest: Seq<char>)
    requires
        forall|i: int| 0 <= i < t.len() ==> is_hex_digit(#[trigger] t[i]),
        rest.len() == 0 || rest[0] == ':',
    ensures
        read_ipv4(t + rest) is None,
{
    let s = t + rest;
    lemma_leading_digits_bound(s, 3);
    let n = leading_digits(s, 3);
    if n > t.len() {
        assert(s[t.len() as int] == rest[0]);
        assert(is_digit(s[t.len() as int]));
    }
    if n < s.len() {
        if n < t.len() {
            assert(s[n as int] == t[n as int]);
        } else {
            assert(s[n as int] == rest[0]);
        }
        assert(s[n as int] != '.');
    }
}

/// What `read_group` returns is a numeral at the front of `s`.
pub proof fn lemma_read_group_is_numeral(s: Seq<char>)
    ensures
        match read_group(s) {
            Some((g, n)) => n <= s.len() && is_numeral_of(s.take(n as int), g),
            None => true,
        },
{
    lemma_leading_hex_digits_bound(s, 4);
    let n = leading_hex_digits(s, 4);
    if n > 0 {
        let t = s.take(n as int);
        assert forall|i: int| 0 <= i < t.len() implies is_hex_digit(#[trigger] t[i]) by {
            assert(t[i] == s[i]);
        }
        lemma_hex_value_bound(t);
    }
}

/// A run of at most four hexadecimal digits denotes a number that fits a
/// group.
pub proof fn lemma_hex_value_bound(t: Seq<char>)
    requires
        t.len() <= 4,
        forall|i: int| 0 <= i < t.len() ==> is_hex_digit(#[trigger] t[i]),
    ensures
        0 <= hex_value(t) <= 0xffff,
        t.len() <= 3 ==> hex_value(t) <= 0xfff,
        t.len() <= 2 ==> hex_value(t) <= 0xff,
        t.len() <= 1 ==> hex_value(t) <= 0xf,
        t.len() == 0 ==> hex_value(t) == 0,
    decreases t.len(),
{
    if t.len() > 0 {
        let front = t.drop_last();
        assert forall|i: int| 0 <= i < front.len() implies is_hex_digit(#[trigger] front[i]) by {
            assert(front[i] == t[i]);
        }
        lemma_hex_value_bound(front);
        assert(is_hex_digit(t[t.len() - 1]));
    }
}

/// A spelling, followed by nothing or by `::`, is read back as the groups it
/// stands for.
pub proof fn lemma_read_groups_of_spelling(
    numerals: Seq<Seq<char>>,
    plain: Seq<u16>,
    last: Option<u32>,
    rest: Seq<char>,
    limit: nat,
)
    requires
        are_numerals_of(numerals, plain),
        1 <= groups_of(plain, last).len() <= limit,
        rest.len() == 0 || (rest.len() >= 2 && rest[0] == ':' && rest[1] == ':'),
    ensures
        read_groups(joined(parts_of(numerals, last)) + rest, limit) == (
            groups_of(plain, last),
            joined(parts_of(numerals, last)).len(),
            last is Some,
        ),
    decreases numerals.len(),
{
    let parts = parts_of(numerals, last);
    let t = joined(parts);
    let s = t + rest;
    let gs = groups_of(plain, last);
    if numerals.len() == 0 {
        let v = last->0;
        let lit = ipv4_text(v);
        assert(parts == seq![lit]);
        assert(t == lit);
        lemma_pack_of_octets(v);
        lemma_read_dotted_of_text(octets(v), rest);
        assert(read_ipv4(s) == Some((v, lit.len())));
        assert(gs == halves(v));
    } else {
        let x = numerals[0];
        let g = plain[0];
        let more_numerals = numerals.drop_first();
        let more_plain = plain.drop_first();
        let more_parts = parts_of(more_numerals, last);
        let more_gs = groups_of(more_plain, last);
        assert(is_numeral_of(x, g));
        assert(parts == seq![x] + more_parts);
        assert(gs == seq![g] + more_gs);
        lemma_joined_from_front(x, more_parts);
        if more_parts.len() == 0 {
            assert(s == x + rest);
            lemma_no_ipv4_at_numeral(x, rest);
            lemma_read_group_of_numeral(x, g, rest);
            if rest.len() > 0 {
                assert(s[x.len() as int] == rest[0]);
                let after = s.skip(x.len() + 1 as int);
                assert(after[0] == rest[1]);
                lemma_no_group_at_colon(after, (limit - 1) as nat);
            }
            assert(more_gs.len() == 0);
            assert(gs == seq![g]);
        } else {
            let behind = seq![':'] + (joined(more_parts) + rest);
            assert(s == x + behind);
            lemma_no_ipv4_at_numeral(x, behind);
            lemma_read_group_of_numeral(x, g, behind);
            assert(s[x.len() as int] == ':');
            assert(s.skip(x.len() + 1 as int) == joined(more_parts) + rest);
            assert(are_numerals_of(more_numerals, more_plain)) by {
                assert forall|i: int| 0 <= i < more_plain.len() implies is_numeral_of(
                    #[trigger] more_numerals[i],
                    more_plain[i],
                ) by {
                    assert(more_numerals[i] == numerals[i + 1]);
                    assert(more_plain[i] == plain[i + 1]);
                }
            }
            lemma_read_groups_of_spelling(more_numerals, more_plain, last, rest, (limit - 1) as nat);
        }
    }
}

/// What `read_groups` returns is spelled at the front of `s`: the proof hands
/// out the numerals, the groups they stand for, and the IPv4 address behind
/// them where there is one.
pub proof fn lemma_read_groups_is_spelling(s: Seq<char>, limit: nat) -> (w: (
    Seq<Seq<char>>,
    Seq<u16>,
    Option<u32>,
))
    ensures
        are_numerals_of(w.0, w.1),
        read_groups(s, limit).0 == groups_of(w.1, w.2),
        read_groups(s, limit).2 == (w.2 is Some),
        read_groups(s, limit).1 <= s.len(),
        s.take(read_groups(s, limit).1 as int) == joined(parts_of(w.0, w.2)),
    decreases limit,
{
    let none: (Seq<Seq<char>>, Seq<u16>, Option<u32>) = (Seq::empty(), Seq::empty(), None);
    lemma_read_groups_bound(s, limit);
    if limit == 0 {
        assert(s.take(0) == joined(Seq::<Seq<char>>::empty()));
        none
    } else if limit >= 2 && read_ipv4(s) is Some {
        let (a, n) = read_ipv4(s)->0;
        lemma_read_dotted_is_text(s, 4);
        let read = crate::ipv4::read_dotted(s, 4)->0;
        let os = read.0;
        lemma_octets_of_pack(os);
        assert(s.take(n as int) == ipv4_text(a));
        let w: (Seq<Seq<char>>, Seq<u16>, Option<u32>) = (Seq::empty(), Seq::empty(), Some(a));
        assert(parts_of(w.0, w.2) == seq![ipv4_text(a)]);
        assert(groups_of(w.1, w.2) == halves(a));
        w
    } else {
        lemma_read_group_is_numeral(s);
        match read_group(s) {
            None => {
                assert(s.take(0) == joined(Seq::<Seq<char>>::empty()));
                none
            },
            Some((g, k)) => {
                let x = s.take(k as int);
                let one: (Seq<Seq<char>>, Seq<u16>, Option<u32>) = (seq![x], seq![g], None);
                if s.len() > k && s[k as int] == ':' {
                    let after = s.skip(k + 1 as int);
                    let inner = lemma_read_groups_is_spelling(after, (limit - 1) as nat);
                    let (more, m, dotted) = read_groups(after, (limit - 1) as nat);
                    if more.len() > 0 {
                        let w = (seq![x] + inner.0, seq![g] + inner.1, inner.2);
                        assert(are_numerals_of(w.0, w.1)) by {
                            assert forall|i: int| 0 <= i < w.1.len() implies is_numeral_of(
                                #[trigger] w.0[i],
                                w.1[i],
                            ) by {
                                if i > 0 {
                                    assert(w.0[i] == inner.0[i - 1]);
                                    assert(w.1[i] == inner.1[i - 1]);
                                }
                            }
                        }
                        assert(seq![g] + more == groups_of(w.1, w.2));
                        let parts = parts_of(inner.0, inner.2);
                        assert(parts_of(w.0, w.2) == seq![x] + parts);
                        assert(parts.len() > 0);
                        lemma_joined_from_front(x, parts);
                        assert(s.take((k + 1 + m) as int) == x + seq![':'] + after.take(m as int));
                        w
                    } else {
                        one
                    }
                } else {
                    one
                }
            },
        }
    }
}

/// Whatever the reader accepts is a literal of the address it gives.
pub proof fn lemma_value_is_literal(s: Seq<char>)
    ensures
        ipv6_value(s) matches Some(a) ==> is_ipv6_literal(s, a),
{
    let (head, n, dotted) = read_groups(s, 8);
    let w = lemma_read_groups_is_spelling(s, 8);
    lemma_parts_spell(w.0, w.1, w.2);
    lemma_read_groups_bound(s, 8);
    lemma_group_span_of_eight();
    if head.len() == 8 {
        if n == s.len() {
            assert(s.take(n as int) == s);
            lemma_pack_groups_bound(head);
            assert(spells(s, head));
        }
    } else if !dotted && s.len() >= n + 2 && s[n as int] == ':' && s[n + 1 as int] == ':' {
        let limit = (7 - head.len()) as nat;
        let after = s.skip(n + 2 as int);
        let (tail, m, _) = read_groups(after, limit);
        let v = lemma_read_groups_is_spelling(after, limit);
        lemma_parts_spell(v.0, v.1, v.2);
        lemma_read_groups_bound(after, limit);
        if n + 2 + m == s.len() {
            let front = s.take(n as int);
            assert(after.take(m as int) == after);
            assert(spells_plainly(front, head));
            assert(spells(after, tail));
            assert(s == front + seq![':', ':'] + after);
            let all = head + zero_groups((8 - head.len() - tail.len()) as nat) + tail;
            assert(all.len() == 8);
            lemma_pack_groups_bound(all);
            assert(is_shrunk_literal(s, pack_groups(all) as u128));
        }
    }
}

/// The reader accepts every literal, and gives the address it is a literal
/// of.
pub proof fn lemma_literal_has_value(s: Seq<char>, a: u128)
    requires
        is_ipv6_literal(s, a),
    ensures
        ipv6_value(s) == Some(a),
{
    let nothing = Seq::<char>::empty();
    if is_full_literal(s, a) {
        let gs = choose|gs: Seq<u16>| gs.len() == 8 && #[trigger] spells(s, gs) && pack_groups(gs) == a;
        assert(s + nothing == s);
        lemma_read_spelled(s, gs, nothing, 8);
    } else {
        let (head, tail, front, back) = choose|
            head: Seq<u16>,
            tail: Seq<u16>,
            front: Seq<char>,
            back: Seq<char>,
        |
            {
                &&& head.len() + tail.len() <= 7
                &&& #[trigger] spells_plainly(front, head)
                &&& #[trigger] spells(back, tail)
                &&& s == front + seq![':', ':'] + back
                &&& pack_groups(head + zero_groups((8 - head.len() - tail.len()) as nat) + tail)
                    == a
            };
        let rest = seq![':', ':'] + back;
        assert(s == front + rest);
        lemma_read_spelled(front, head, rest, 8);
        let n = front.len();
        assert(read_groups(s, 8) == (head, n, false)) by {
            if head.len() == 0 {
                assert(s[0] == ':');
                lemma_no_group_at_colon(s, 8);
            }
        }
        assert(s[n as int] == rest[0]);
        assert(s[n + 1 as int] == rest[1]);
        assert(s.skip(n + 2 as int) == back);
        assert(back + nothing == back);
        let limit = (7 - head.len()) as nat;
        lemma_read_spelled(back, tail, nothing, limit);
        if tail.len() == 0 {
            lemma_no_group_at_colon(back, limit);
        }
    }
}

/// A text that spells some groups, followed by nothing or by `::`, is read
/// back as those groups; and a text that spells no group is empty.
pub proof fn lemma_read_spelled(t: Seq<char>, gs: Seq<u16>, rest: Seq<char>, limit: nat)
    requires
        spells(t, gs),
        gs.len() <= limit,
        rest.len() == 0 || (rest.len() >= 2 && rest[0] == ':' && rest[1] == ':'),
    ensures
        gs.len() == 0 ==> t.len() == 0,
        gs.len() >= 1 ==> read_groups(t + rest, limit).0 == gs && read_groups(t + rest, limit).1
            == t.len() && read_groups(t + rest, limit).2 == !spells_plainly(t, gs),
{
    if spells_plainly(t, gs) {
        let numerals = choose|numerals: Seq<Seq<char>>| #[trigger]
            are_numerals_of(numerals, gs) && t == joined(numerals);
        if gs.len() >= 1 {
            lemma_read_groups_of_spelling(numerals, gs, None, rest, limit);
        }
    } else {
        let (numerals, v) = choose|numerals: Seq<Seq<char>>, v: u32|
            {
                &&& are_numerals_of(numerals, gs.take(gs.len() - 2))
                &&& gs.skip(gs.len() - 2) == halves(v)
                &&& t == #[trigger] joined(numerals.push(ipv4_text(v)))
            };
        let plain = gs.take(gs.len() - 2);
        assert(plain + halves(v) == gs);
        lemma_read_groups_of_spelling(numerals, plain, Some(v), rest, limit);
    }
}

/// The numerals that are written for `gs`: lower case, no zeros in front.
pub open spec fn numerals_of(gs: Seq<u16>) -> Seq<Seq<char>> {
    Seq::new(gs.len(), |i: int| hexadecimal(gs[i] as nat))
}

/// The text that is written for some groups spells them.
pub proof fn lemma_colon_text_spells(gs: Seq<u16>)
    ensures
        are_numerals_of(numerals_of(gs), gs),
        colon_text(gs) == joined(numerals_of(gs)),
        spells_plainly(colon_text(gs), gs),
        spells(colon_text(gs), gs),
    decreases gs.len(),
{
    assert forall|i: int| 0 <= i < gs.len() implies is_numeral_of(
        #[trigger] numerals_of(gs)[i],
        gs[i],
    ) by {
        lemma_hexadecimal_of_group(gs[i]);
    }
    if gs.len() > 0 {
        let g = gs[0];
        let more = gs.drop_first();
        lemma_colon_text_spells(more);
        assert(seq![g] + more == gs);
        crate::ipv6::lemma_colon_text_from_front(g, more);
        assert(numerals_of(gs) == seq![hexadecimal(g as nat)] + numerals_of(more));
        lemma_joined_from_front(hexadecimal(g as nat), numerals_of(more));
    }
    assert(are_numerals_of(numerals_of(gs), gs) && colon_text(gs) == joined(numerals_of(gs)));
}

/// The text that is written for an address is a literal of that address.
pub proof fn lemma_text_is_literal(a: u128)
    ensures
        is_ipv6_literal(ipv6_text(a), a),
{
    let s = ipv6_text(a);
    let nothing = Seq::<char>::empty();
    if is_mapped(a) {
        let v = (a % 0x1_0000_0000) as u32;
        let ones = seq!['f', 'f', 'f', 'f'];
        assert(is_numeral_of(ones, 0xffff)) by {
            reveal_with_fuel(hex_value, 5);
            let o3 = ones.drop_last();
            let o2 = o3.drop_last();
            let o1 = o2.drop_last();
            assert(o1.drop_last().len() == 0);
            assert(o1.last() == 'f' && o2.last() == 'f' && o3.last() == 'f' && ones.last() == 'f');
        }
        let numerals = seq![ones];
        let plain = seq![0xffffu16];
        assert(are_numerals_of(numerals, plain));
        lemma_parts_spell(numerals, plain, Some(v));
        let back = joined(parts_of(numerals, Some(v)));
        let tail = groups_of(plain, Some(v));
        assert(back == ones + seq![':'] + ipv4_text(v)) by {
            assert(parts_of(numerals, Some(v)) == seq![ones] + seq![ipv4_text(v)]);
            lemma_joined_from_front(ones, seq![ipv4_text(v)]);
        }
        let none = Seq::<u16>::empty();
        assert(spells_plainly(nothing, none)) by {
            assert(are_numerals_of(Seq::<Seq<char>>::empty(), none));
        }
        assert(s == nothing + seq![':', ':'] + back);
        lemma_pack_of_mapped(v);
        assert(tail == seq![0xffffu16] + seq![(v / 0x1_0000) as u16, (v % 0x1_0000) as u16]);
        assert(spells(back, tail));
        assert(pack_groups(none + zero_groups((8 - none.len() - tail.len()) as nat) + tail) == a);
        assert(is_shrunk_literal(s, a));
    } else {
        let gs = groups(a);
        lemma_pack_of_groups(a);
        let start = gap_start(gs, 8);
        lemma_gap_start_bound(gs, 8);
        let len = zero_run(gs, start);
        lemma_zero_run(gs, start);
        if len > 1 {
            let head = gs.take(start);
            let tail = gs.skip(start + len);
            lemma_colon_text_spells(head);
            lemma_colon_text_spells(tail);
            assert(head + zero_groups((8 - head.len() - tail.len()) as nat) + tail == gs);
            assert(spells_plainly(colon_text(head), head));
            assert(spells(colon_text(tail), tail));
            assert(is_shrunk_literal(s, a));
        } else {
            lemma_colon_text_spells(gs);
            assert(is_full_literal(s, a));
        }
    }
}

/// Reading the literal that is written for an address gives that address
/// back: no address is lost or changed on its way through its text.
pub proof fn lemma_ipv6_value_of_text(a: u128)
    ensures
        ipv6_value(ipv6_text(a)) == Some(a),
{
    lemma_text_is_literal(a);
    lemma_literal_has_value(ipv6_text(a), a);
}

/// A text is a literal of one address at most.
pub proof fn lemma_literal_of_one_address(s: Seq<char>, a: u128, b: u128)
    requires
        is_ipv6_literal(s, a),
        is_ipv6_literal(s, b),
    ensures
        a == b,
{
    lemma_literal_has_value(s, a);
    lemma_literal_has_value(s, b);
}

/// No two addresses are written alike.
pub proof fn lemma_ipv6_text_is_injective(a: u128, b: u128)
    requires
        ipv6_text(a) == ipv6_text(b),
    ensures
        a == b,
{
    lemma_ipv6_value_of_text(a);
    lemma_ipv6_value_of_text(b);
}

} // verus!
