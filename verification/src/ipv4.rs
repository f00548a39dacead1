//! IPv4 literals: four decimal octets separated by dots.
//!
//! An address is held as the 32-bit number whose most significant octet is the
//! first of the literal. Every address has exactly one literal, [`ipv4_text`],
//! and [`parse_ipv4`] accepts that literal and nothing else.

use vstd::prelude::*;
use vstd::string::*;
use crate::text::{chars_of, decimal, decimal_value, digit_value, is_digit, push_decimal};

verus! {

/// The four octets of `a`, the most significant first.
pub open spec fn octets(a: u32) -> Seq<nat> {
    seq![
        (a / 0x100_0000) as nat,
        ((a / 0x1_0000) % 0x100) as nat,
        ((a / 0x100) % 0x100) as nat,
        (a % 0x100) as nat,
    ]
}

/// The number whose octets, the most significant first, are `os`.
pub open spec fn pack_octets(os: Seq<nat>) -> nat
    decreases os.len(),
{
    if os.len() == 0 {
        0
    } else {
        pack_octets(os.drop_last()) * 0x100 + os.last()
    }
}

/// The decimal numerals of `os`, separated by dots.
pub open spec fn dotted_text(os: Seq<nat>) -> Seq<char>
    decreases os.len(),
{
    if os.len() == 0 {
        Seq::empty()
    } else if os.len() == 1 {
        decimal(os[0])
    } else {
        decimal(os[0]) + seq!['.'] + dotted_text(os.drop_first())
    }
}

/// The literal of the address `a`.
pub open spec fn ipv4_text(a: u32) -> Seq<char> {
    dotted_text(octets(a))
}

/// How many of the first `limit` characters of `s` are decimal digits in an
/// unbroken run from the front.
pub open spec fn leading_digits(s: Seq<char>, limit: nat) -> nat
    decreases limit,
{
    if limit == 0 || s.len() == 0 || !is_digit(s[0]) {
        0
    } else {
        1 + leading_digits(s.drop_first(), (limit - 1) as nat)
    }
}

/// The octet written at the front of `s`, with the number of characters it
/// takes: a numeral of one to three digits, without a zero in front of another
/// digit, that denotes at most 255.
pub open spec fn read_octet(s: Seq<char>) -> Option<(nat, nat)> {
    let n = leading_digits(s, 3);
    let v = decimal_value(s.take(n as int));
    if n == 0 || (n > 1 && s[0] == '0') || v > 255 {
        None
    } else {
        Some((v as nat, n))
    }
}

/// The `count` octets written at the front of `s` with a dot between each two,
/// and the number of characters they take.
pub open spec fn read_dotted(s: Seq<char>, count: nat) -> Option<(Seq<nat>, nat)>
    decreases count,
{
    if count == 0 {
        None
    } else {
        match read_octet(s) {
            None => None,
            Some((v, n)) => if count == 1 {
                Some((seq![v], n))
            } else if s.len() > n && s[n as int] == '.' {
                match read_dotted(s.skip(n + 1 as int), (count - 1) as nat) {
                    None => None,
                    Some((vs, m)) => Some((seq![v] + vs, n + 1 + m)),
                }
            } else {
                None
            },
        }
    }
}

/// The address whose literal stands at the front of `s`, with the length of
/// that literal.
pub open spec fn read_ipv4(s: Seq<char>) -> Option<(u32, nat)> {
    match read_dotted(s, 4) {
        None => None,
        Some((os, n)) => Some((pack_octets(os) as u32, n)),
    }
}

/// The address that `s` is the literal of, if it is one.
pub open spec fn ipv4_value(s: Seq<char>) -> Option<u32> {
    match read_ipv4(s) {
        Some((a, n)) if n == s.len() => Some(a),
        _ => None,
    }
}

/// What `leading_digits` counts is a run of digits within `s` and within the
/// limit, with no digit behind it where it ends early.
pub proof fn lemma_leading_digits_bound(s: Seq<char>, limit: nat)
    ensures
        leading_digits(s, limit) <= limit,
        leading_digits(s, limit) <= s.len(),
        forall|i: int| 0 <= i < leading_digits(s, limit) ==> is_digit(#[trigger] s[i]),
        leading_digits(s, limit) < limit && leading_digits(s, limit) < s.len() ==> !is_digit(
            s[leading_digits(s, limit) as int],
        ),
    decreases limit,
{
    if limit == 0 || s.len() == 0 || !is_digit(s[0]) {
    } else {
        let t = s.drop_first();
        lemma_leading_digits_bound(t, (limit - 1) as nat);
        let n = leading_digits(t, (limit - 1) as nat);
        assert forall|i: int| 0 <= i < n + 1 implies is_digit(#[trigger] s[i]) by {
            if i > 0 {
                assert(s[i] == t[i - 1]);
            }
        }
        if n + 1 < limit && n + 1 < s.len() {
            assert(s[n + 1 as int] == t[n as int]);
        }
    }
}

/// A run of `n` digits at the front of `s`, with no digit behind it among the
/// first `limit` characters, is what `leading_digits` counts.
pub proof fn lemma_leading_digits_is(s: Seq<char>, limit: nat, n: nat)
    requires
        n <= limit,
        n <= s.len(),
        forall|i: int| 0 <= i < n ==> is_digit(#[trigger] s[i]),
        n == limit || n == s.len() || !is_digit(s[n as int]),
    ensures
        leading_digits(s, limit) == n,
    decreases limit,
{
    if n == 0 {
    } else {
        let t = s.drop_first();
        assert forall|i: int| 0 <= i < n - 1 implies is_digit(#[trigger] t[i]) by {
            assert(t[i] == s[i + 1]);
        }
        if n < limit && n < s.len() {
            assert(t[n - 1] == s[n as int]);
        }
        assert(is_digit(s[0]));
        lemma_leading_digits_is(t, (limit - 1) as nat, (n - 1) as nat);
    }
}

/// What `read_octet` returns is a canonical numeral at the front of `s`.
pub proof fn lemma_read_octet_is_decimal(s: Seq<char>)
    ensures
        match read_octet(s) {
            Some((v, n)) => 1 <= n <= 3 && n <= s.len() && v <= 255 && s.take(n as int) == decimal(
                v,
            ) && (n == s.len() || n == 3 || !is_digit(s[n as int])),
            None => true,
        },
{
    lemma_leading_digits_bound(s, 3);
    let n = leading_digits(s, 3);
    let t = s.take(n as int);
    if read_octet(s) is Some {
        reveal_with_fuel(decimal_value, 4);
        reveal_with_fuel(decimal, 3);
        let v = decimal_value(t);
        assert(is_digit(s[0]));
        if n == 1 {
            assert(t.drop_last().len() == 0);
            assert(t.last() == s[0]);
            assert(v == digit_value(s[0]));
            assert(t =~= decimal(v as nat));
        } else if n == 2 {
            assert(is_digit(s[1]));
            let t1 = t.drop_last();
            assert(t1.drop_last().len() == 0);
            assert(t1.last() == s[0]);
            assert(t.last() == s[1]);
            assert(v == digit_value(s[0]) * 10 + digit_value(s[1]));
            assert(t =~= decimal(v as nat));
        } else {
            assert(is_digit(s[1]));
            assert(is_digit(s[2]));
            let t1 = t.drop_last();
            let t2 = t1.drop_last();
            assert(t2.drop_last().len() == 0);
            assert(t2.last() == s[0]);
            assert(t1.last() == s[1]);
            assert(t.last() == s[2]);
            assert(v == (digit_value(s[0]) * 10 + digit_value(s[1])) * 10 + digit_value(s[2]));
            assert(t =~= decimal(v as nat));
        }
    }
}

/// A canonical numeral of an octet, with no digit behind it, is read back as
/// that octet.
pub proof fn lemma_read_octet_of_decimal(v: nat, rest: Seq<char>)
    requires
        v <= 255,
        rest.len() == 0 || !is_digit(rest[0]),
    ensures
        1 <= decimal(v).len() <= 3,
        read_octet(decimal(v) + rest) == Some((v, decimal(v).len())),
{
    reveal_with_fuel(decimal, 3);
    reveal_with_fuel(decimal_value, 4);
    let d = decimal(v);
    let s = d + rest;
    let n = d.len();
    assert forall|i: int| 0 <= i < n implies is_digit(#[trigger] s[i]) by {
        assert(s[i] == d[i]);
    }
    if rest.len() > 0 {
        assert(s[n as int] == rest[0]);
    }
    lemma_leading_digits_is(s, 3, n);
    let t = s.take(n as int);
    assert(t =~= d);
    if v < 10 {
        assert(d.drop_last().len() == 0);
    } else if v < 100 {
        let d1 = d.drop_last();
        assert(d1 =~= decimal(v / 10));
        assert(d1.drop_last().len() == 0);
    } else {
        let d1 = d.drop_last();
        assert(d1 =~= decimal(v / 10));
        let d2 = d1.drop_last();
        assert(d2 =~= decimal(v / 100));
        assert(d2.drop_last().len() == 0);
    }
    assert(decimal_value(d) == v);
    assert(s[0] == d[0]);
}

/// What `read_dotted` returns are octets whose literal stands at the front of
/// `s`.
pub proof fn lemma_read_dotted_is_text(s: Seq<char>, count: nat)
    ensures
        match read_dotted(s, count) {
            Some((os, n)) => {
                &&& os.len() == count
                &&& n <= s.len()
                &&& forall|i: int| 0 <= i < count ==> #[trigger] os[i] <= 255
                &&& s.take(n as int) == dotted_text(os)
            },
            None => true,
        },
    decreases count,
{
    if count > 0 {
        lemma_read_octet_is_decimal(s);
        match read_octet(s) {
            None => {},
            Some((v, n)) => {
                if count == 1 {
                    assert(seq![v].len() == 1);
                } else if s.len() > n && s[n as int] == '.' {
                    let t = s.skip(n + 1 as int);
                    lemma_read_dotted_is_text(t, (count - 1) as nat);
                    match read_dotted(t, (count - 1) as nat) {
                        None => {},
                        Some((vs, m)) => {
                            let os = seq![v] + vs;
                            assert(os.drop_first() =~= vs);
                            assert(os[0] == v);
                            assert forall|i: int| 0 <= i < count implies #[trigger] os[i]
                                <= 255 by {
                                if i > 0 {
                                    assert(os[i] == vs[i - 1]);
                                }
                            }
                            assert(s.take((n + 1 + m) as int) =~= s.take(n as int) + seq!['.']
                                + t.take(m as int));
                        },
                    }
                }
            },
        }
    }
}

/// The literal of some octets, with nothing behind it that could lengthen its
/// last numeral, is read back as those octets.
pub proof fn lemma_read_dotted_of_text(os: Seq<nat>, rest: Seq<char>)
    requires
        os.len() >= 1,
        forall|i: int| 0 <= i < os.len() ==> #[trigger] os[i] <= 255,
        rest.len() == 0 || !is_digit(rest[0]),
    ensures
        read_dotted(dotted_text(os) + rest, os.len()) == Some((os, dotted_text(os).len())),
    decreases os.len(),
{
    let s = dotted_text(os) + rest;
    let d = decimal(os[0]);
    if os.len() == 1 {
        lemma_read_octet_of_decimal(os[0], rest);
        assert(seq![os[0]] =~= os);
    } else {
        let tail = os.drop_first();
        let after = dotted_text(tail) + rest;
        assert(s =~= d + (seq!['.'] + after));
        lemma_read_octet_of_decimal(os[0], seq!['.'] + after);
        assert(s[d.len() as int] == '.');
        assert(s.skip(d.len() + 1 as int) =~= after);
        assert forall|i: int| 0 <= i < tail.len() implies #[trigger] tail[i] <= 255 by {
            assert(tail[i] == os[i + 1]);
        }
        lemma_read_dotted_of_text(tail, rest);
        assert(seq![os[0]] + tail =~= os);
    }
}

/// Four octets are the octets of the number they pack into.
pub proof fn lemma_octets_of_pack(os: Seq<nat>)
    requires
        os.len() == 4,
        forall|i: int| 0 <= i < 4 ==> #[trigger] os[i] <= 255,
    ensures
        pack_octets(os) <= u32::MAX,
        octets(pack_octets(os) as u32) == os,
{
    reveal_with_fuel(pack_octets, 5);
    let o3 = os.drop_last();
    let o2 = o3.drop_last();
    let o1 = o2.drop_last();
    assert(o1.drop_last().len() == 0);
    assert(o1.last() == os[0]);
    assert(o2.last() == os[1]);
    assert(o3.last() == os[2]);
    assert(os.last() == os[3]);
    assert(os[0] <= 255 && os[1] <= 255 && os[2] <= 255 && os[3] <= 255);
    let p = pack_octets(os);
    assert(p == ((os[0] * 0x100 + os[1]) * 0x100 + os[2]) * 0x100 + os[3]);
    assert(octets(p as u32) =~= os);
}

/// The octets of a number pack into that number.
pub proof fn lemma_pack_of_octets(a: u32)
    ensures
        pack_octets(octets(a)) == a,
        forall|i: int| 0 <= i < 4 ==> #[trigger] octets(a)[i] <= 255,
{
    reveal_with_fuel(pack_octets, 5);
    let os = octets(a);
    let o3 = os.drop_last();
    let o2 = o3.drop_last();
    let o1 = o2.drop_last();
    assert(o1.drop_last().len() == 0);
    assert(o1.last() == os[0]);
    assert(o2.last() == os[1]);
    assert(o3.last() == os[2]);
    assert(os.last() == os[3]);
}

/// Reading a literal gives back the address it was written for.
pub proof fn lemma_ipv4_value_of_text(a: u32)
    ensures
        ipv4_value(ipv4_text(a)) == Some(a),
{
    lemma_pack_of_octets(a);
    lemma_read_dotted_of_text(octets(a), Seq::empty());
    assert(dotted_text(octets(a)) + Seq::<char>::empty() =~= ipv4_text(a));
}

/// The only text that is read as an address is the literal of that address.
pub proof fn lemma_ipv4_text_of_value(s: Seq<char>)
    ensures
        ipv4_value(s) matches Some(a) ==> s == ipv4_text(a),
{
    lemma_read_dotted_is_text(s, 4);
    match read_dotted(s, 4) {
        None => {},
        Some((os, n)) => {
            if n == s.len() {
                lemma_octets_of_pack(os);
                assert(s.take(n as int) =~= s);
            }
        },
    }
}

/// No two addresses share a literal.
pub proof fn lemma_ipv4_text_is_injective(a: u32, b: u32)
    requires
        ipv4_text(a) == ipv4_text(b),
    ensures
        a == b,
{
    lemma_ipv4_value_of_text(a);
    lemma_ipv4_value_of_text(b);
}

/// What reading `count` octets gives when `done` have been read already, in
/// `used` characters.
pub open spec fn read_on(done: Seq<nat>, used: nat, more: Option<(Seq<nat>, nat)>) -> Option<
    (Seq<nat>, nat),
> {
    match more {
        None => None,
        Some((vs, m)) => Some((done + vs, used + m)),
    }
}

/// Reads the octet that starts at `pos`, in the part of `chars` that ends
/// before `hi`. Returns the octet and the position behind it.
fn scan_octet(chars: &Vec<char>, pos: usize, hi: usize) -> (found: Option<(u8, usize)>)
    requires
        pos <= hi <= chars@.len(),
    ensures
        match read_octet(chars@.subrange(pos as int, hi as int)) {
            Some((v, n)) => found == Some((v as u8, (pos + n) as usize)) && v <= 255 && pos + n
                <= hi,
            None => found is None,
        },
{
    let ghost s = chars@.subrange(pos as int, hi as int);
    let mut n: usize = 0;
    let mut v: u32 = 0;
    assert(s.take(0).len() == 0);
    while n < 3 && pos + n < hi && chars[pos + n] >= '0' && chars[pos + n] <= '9'
        invariant
            pos <= hi <= chars@.len(),
            s == chars@.subrange(pos as int, hi as int),
            n <= 3,
            pos + n <= hi,
            forall|i: int| 0 <= i < n ==> is_digit(#[trigger] s[i]),
            v == decimal_value(s.take(n as int)),
            v <= 999,
            n <= 2 ==> v <= 99,
            n <= 1 ==> v <= 9,
            n == 0 ==> v == 0,
        decreases 3 - n,
    {
        let c = chars[pos + n];
        assert(c == s[n as int]);
        assert(s.take(n + 1).drop_last() == s.take(n as int));
        assert(s.take(n + 1).last() == c);
        v = v * 10 + (c as u32 - '0' as u32);
        n += 1;
    }
    proof {
        if n < 3 && pos + n < hi {
            assert(chars@[pos + n] == s[n as int]);
        }
        lemma_leading_digits_is(s, 3, n as nat);
    }
    if n == 0 || (n > 1 && chars[pos] == '0') || v > 255 {
        assert(n > 0 ==> chars@[pos as int] == s[0]);
        None
    } else {
        assert(chars@[pos as int] == s[0]);
        Some((v as u8, pos + n))
    }
}

/// Reads the literal that starts at `pos`, in the part of `chars` that ends
/// before `hi`. Returns the address and the position behind the literal.
pub(crate) fn scan_ipv4(chars: &Vec<char>, pos: usize, hi: usize) -> (found: Option<(u32, usize)>)
    requires
        pos <= hi <= chars@.len(),
    ensures
        match read_ipv4(chars@.subrange(pos as int, hi as int)) {
            Some((a, n)) => found == Some((a, (pos + n) as usize)) && pos + n <= hi,
            None => found is None,
        },
{
    let ghost s = chars@.subrange(pos as int, hi as int);
    let ghost mut done: Seq<nat> = Seq::empty();
    let mut acc: u32 = 0;
    let mut at: usize = pos;
    let mut k: usize = 0;
    assert(s.skip(0) == s);
    assert(read_dotted(s, 4) == read_on(done, 0, read_dotted(s, 4))) by {
        match read_dotted(s, 4) {
            None => {},
            Some((vs, m)) => {
                assert(done + vs == vs);
            },
        }
    }
    while k < 3
        invariant
            pos <= at <= hi <= chars@.len(),
            s == chars@.subrange(pos as int, hi as int),
            k <= 3,
            done.len() == k,
            acc == pack_octets(done),
            k == 0 ==> acc == 0,
            k == 1 ==> acc < 0x100,
            k == 2 ==> acc < 0x1_0000,
            k == 3 ==> acc < 0x100_0000,
            read_dotted(s, 4) == read_on(
                done,
                (at - pos) as nat,
                read_dotted(s.skip(at - pos), (4 - k) as nat),
            ),
        decreases 3 - k,
    {
        let ghost rest = s.skip(at - pos);
        assert(rest == chars@.subrange(at as int, hi as int));
        match scan_octet(chars, at, hi) {
            None => {
                return None;
            },
            Some((v, next)) => {
                if next < hi && chars[next] == '.' {
                    proof {
                        let n = (next - at) as nat;
                        assert(rest[n as int] == chars@[next as int]);
                        assert(rest.skip(n + 1 as int) == s.skip(next + 1 - pos));
                        let after = read_dotted(s.skip(next + 1 - pos), (3 - k) as nat);
                        let grown = done.push(v as nat);
                        assert(grown.drop_last() == done);
                        match after {
                            None => {},
                            Some((vs, m)) => {
                                assert(done + (seq![v as nat] + vs) == grown + vs);
                            },
                        }
                        done = grown;
                    }
                    acc = acc * 0x100 + v as u32;
                    at = next + 1;
                    k += 1;
                } else {
                    proof {
                        let n = (next - at) as nat;
                        if next < hi {
                            assert(rest[n as int] == chars@[next as int]);
                        }
                    }
                    return None;
                }
            },
        }
    }
    let ghost rest = s.skip(at - pos);
    assert(rest == chars@.subrange(at as int, hi as int));
    match scan_octet(chars, at, hi) {
        None => None,
        Some((v, next)) => {
            proof {
                let grown = done.push(v as nat);
                assert(grown.drop_last() == done);
                assert(done + seq![v as nat] == grown);
            }
            Some((acc * 0x100 + v as u32, next))
        },
    }
}

/// Reads the part of `chars` from `lo` up to `hi` as a literal.
pub(crate) fn parse_ipv4_in(chars: &Vec<char>, lo: usize, hi: usize) -> (address: Option<u32>)
    requires
        lo <= hi <= chars@.len(),
    ensures
        address == ipv4_value(chars@.subrange(lo as int, hi as int)),
{
    match scan_ipv4(chars, lo, hi) {
        Some((a, next)) => if next == hi {
            Some(a)
        } else {
            None
        },
        None => None,
    }
}

/// Reads `text` as an IPv4 literal: four decimal octets of at most 255, with
/// a dot between each two, no zero in front of another digit, and nothing
/// before, between or behind them.
pub fn parse_ipv4(text: &str) -> (address: Option<u32>)
    ensures
        address == ipv4_value(text@),
        address matches Some(a) ==> text@ == ipv4_text(a),
        address is None ==> forall|a: u32| text@ != #[trigger] ipv4_text(a),
{
    let chars = chars_of(text);
    let address = parse_ipv4_in(&chars, 0, chars.len());
    proof {
        assert(chars@.subrange(0, chars@.len() as int) == text@);
        lemma_ipv4_text_of_value(text@);
        assert forall|a: u32| address is None implies text@ != #[trigger] ipv4_text(a) by {
            lemma_ipv4_value_of_text(a);
        }
    }
    address
}

/// Appends the literal of `a` to `out`.
pub(crate) fn push_ipv4(out: &mut String, a: u32)
    ensures
        final(out)@ == old(out)@ + ipv4_text(a),
{
    let ghost os = octets(a);
    proof {
        reveal_with_fuel(dotted_text, 4);
        let o1 = os.drop_first();
        let o2 = o1.drop_first();
        let o3 = o2.drop_first();
        assert(o1[0] == os[1] && o2[0] == os[2] && o3[0] == os[3]);
        assert(ipv4_text(a) == decimal(os[0]) + seq!['.'] + (decimal(os[1]) + seq!['.'] + (decimal(
            os[2],
        ) + seq!['.'] + decimal(os[3]))));
        reveal_strlit(".");
        assert("."@ == seq!['.']);
    }
    push_decimal(out, (a / 0x100_0000) as u8);
    out.append(".");
    push_decimal(out, ((a / 0x1_0000) % 0x100) as u8);
    out.append(".");
    push_decimal(out, ((a / 0x100) % 0x100) as u8);
    out.append(".");
    push_decimal(out, (a % 0x100) as u8);
    assert(out@ == old(out)@ + ipv4_text(a));
}

/// The literal of `a`.
pub fn ipv4_to_string(a: u32) -> (text: String)
    ensures
        text@ == ipv4_text(a),
{
    let mut text = String::new();
    push_ipv4(&mut text, a);
    assert(Seq::<char>::empty() + ipv4_text(a) == ipv4_text(a));
    text
}

} // verus!
