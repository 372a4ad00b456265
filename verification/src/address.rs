//! Presentation form of IP addresses.
use crate::text::{
    all_digits, dec, digit_char, digit_value, digits_value, first_index, hex, law_hex_round_trip,
    lemma_dec_digits, lemma_first_index, push_dec, push_hex,
};
use crate::wire::u16_be;
use vstd::prelude::*;
use vstd::string::*;

verus! {

/// Address families.
pub const AF_INET: u16 = 2;
pub const AF_INET6: u16 = 10;

/// Dotted decimal notation of four octets.
pub open spec fn ipv4_text(b: Seq<u8>) -> Seq<char> {
    dec(b[0] as nat) + seq!['.'] + dec(b[1] as nat) + seq!['.'] + dec(b[2] as nat) + seq!['.'] + dec(
        b[3] as nat,
    )
}

/// The eight groups of an IPv6 address.
pub open spec fn groups_of(b: Seq<u8>) -> Seq<u16> {
    Seq::new(8, |i: int| u16_be(b.skip(2 * i)))
}

/// Groups in hexadecimal, separated by colons.
pub open spec fn colon_joined(groups: Seq<u16>) -> Seq<char>
    decreases groups.len(),
{
    if groups.len() == 0 {
        seq![]
    } else if groups.len() == 1 {
        hex(groups[0] as nat)
    } else {
        colon_joined(groups.drop_last()) + seq![':'] + hex(groups.last() as nat)
    }
}

/// The number of consecutive zero groups that start at `i`.
pub open spec fn zeros_at(groups: Seq<u16>, i: int) -> nat
    decreases groups.len() - i,
{
    if 0 <= i < groups.len() && groups[i] == 0 {
        1 + zeros_at(groups, i + 1)
    } else {
        0
    }
}

/// Where the longest run of zero groups starts among the first `n` places; the
/// leftmost of several.
pub open spec fn longest_zeros(groups: Seq<u16>, n: nat) -> nat
    decreases n,
{
    if n == 0 {
        0
    } else {
        let best = longest_zeros(groups, (n - 1) as nat);
        if zeros_at(groups, n - 1) > zeros_at(groups, best as int) {
            (n - 1) as nat
        } else {
            best
        }
    }
}

/// An IPv4 address embedded in an IPv6 address.
pub open spec fn is_mapped(b: Seq<u8>) -> bool {
    &&& forall|i: int| 0 <= i < 10 ==> #[trigger] b[i] == 0
    &&& b[10] == 0xff
    &&& b[11] == 0xff
}

/// Canonical notation of an IPv6 address: lower-case groups without leading
/// zeros, the leftmost longest run of two or more zero groups shortened to a
/// double colon, and an embedded IPv4 address in dotted decimal notation.
pub open spec fn ipv6_text(b: Seq<u8>) -> Seq<char> {
    let groups = groups_of(b);
    let start = longest_zeros(groups, 8) as int;
    let run = zeros_at(groups, start) as int;
    if is_mapped(b) {
        "::ffff:"@ + ipv4_text(b.subrange(12, 16))
    } else if run > 1 {
        colon_joined(groups.take(start)) + "::"@ + colon_joined(groups.skip(start + run))
    } else {
        colon_joined(groups)
    }
}

/// The presentation form of an address; empty when the family is unknown or the
/// address is too short.
pub open spec fn address_text(af: u16, b: Seq<u8>) -> Seq<char> {
    if af == AF_INET && b.len() >= 4 {
        ipv4_text(b)
    } else if af == AF_INET6 && b.len() >= 16 {
        ipv6_text(b)
    } else {
        Seq::empty()
    }
}

fn push_ipv4(s: &mut String, b: &[u8], at: usize)
    requires
        at + 4 <= b@.len(),
    ensures
        final(s)@ == old(s)@ + ipv4_text(b@.skip(at as int)),
{
    push_dec(s, b[at] as u64);
    s.push('.');
    push_dec(s, b[at + 1] as u64);
    s.push('.');
    push_dec(s, b[at + 2] as u64);
    s.push('.');
    push_dec(s, b[at + 3] as u64);
    proof {
        assert(s@ =~= old(s)@ + ipv4_text(b@.skip(at as int)));
    }
}

proof fn lemma_zeros_fit(groups: Seq<u16>, i: int)
    requires
        0 <= i <= groups.len(),
    ensures
        i + zeros_at(groups, i) <= groups.len(),
    decreases groups.len() - i,
{
    if i < groups.len() && groups[i] == 0 {
        lemma_zeros_fit(groups, i + 1);
    }
}

fn count_zeros(groups: &Vec<u16>, i: usize) -> (r: usize)
    requires
        i <= groups@.len(),
    ensures
        r == zeros_at(groups@, i as int),
        i + r <= groups@.len(),
{
    let mut j: usize = i;
    while j < groups.len() && groups[j] == 0
        invariant
            i <= j <= groups.len(),
            zeros_at(groups@, i as int) == (j - i) + zeros_at(groups@, j as int),
        decreases groups.len() - j,
    {
        j += 1;
    }
    j - i
}

fn push_groups(s: &mut String, groups: &Vec<u16>, from: usize, to: usize)
    requires
        from <= to <= groups@.len(),
    ensures
        final(s)@ == old(s)@ + colon_joined(groups@.subrange(from as int, to as int)),
{
    let ghost start = s@;
    let mut i: usize = from;
    proof {
        assert(start + colon_joined(groups@.subrange(from as int, from as int)) =~= start);
    }
    while i < to
        invariant
            from <= i <= to <= groups@.len(),
            s@ == start + colon_joined(groups@.subrange(from as int, i as int)),
        decreases to - i,
    {
        let ghost done = groups@.subrange(from as int, i as int);
        let ghost next = groups@.subrange(from as int, i as int + 1);
        let ghost head = s@;
        if i > from {
            s.push(':');
        }
        push_hex(s, groups[i] as u64);
        proof {
            assert(next.drop_last() =~= done);
            if i > from {
                assert(s@ =~= head + seq![':'] + hex(groups@[i as int] as nat));
                assert(start + colon_joined(next) =~= head + seq![':'] + hex(groups@[i as int] as nat));
            } else {
                assert(colon_joined(done) =~= seq![]);
                assert(s@ =~= start + colon_joined(next));
            }
        }
        i += 1;
    }
}

fn mapped(b: &[u8]) -> (r: bool)
    requires
        b@.len() >= 16,
    ensures
        r == is_mapped(b@),
{
    let mut i: usize = 0;
    while i < 10
        invariant
            i <= 10,
            b@.len() >= 16,
            forall|j: int| 0 <= j < i ==> #[trigger] b@[j] == 0,
        decreases 10 - i,
    {
        if b[i] != 0 {
            return false;
        }
        i += 1;
    }
    b[10] == 0xff && b[11] == 0xff
}

fn push_ipv6(s: &mut String, b: &[u8])
    requires
        b@.len() >= 16,
    ensures
        final(s)@ == old(s)@ + ipv6_text(b@),
{
    let ghost head = s@;
    if mapped(b) {
        s.append("::ffff:");
        push_ipv4(s, b, 12);
        proof {
            assert(b@.skip(12)[0] == b@.subrange(12, 16)[0]);
            assert(b@.skip(12)[1] == b@.subrange(12, 16)[1]);
            assert(b@.skip(12)[2] == b@.subrange(12, 16)[2]);
            assert(b@.skip(12)[3] == b@.subrange(12, 16)[3]);
            assert(s@ =~= head + ipv6_text(b@));
        }
        return;
    }
    let mut groups: Vec<u16> = Vec::new();
    let mut i: usize = 0;
    while i < 8
        invariant
            i <= 8,
            b@.len() >= 16,
            groups@ == groups_of(b@).take(i as int),
        decreases 8 - i,
    {
        groups.push(b[2 * i] as u16 * 0x100 + b[2 * i + 1] as u16);
        proof {
            assert(groups_of(b@).take(i as int).push(groups_of(b@)[i as int]) =~= groups_of(b@).take(
                i as int + 1,
            ));
        }
        i += 1;
    }
    proof {
        assert(groups@ =~= groups_of(b@));
    }
    let mut best: usize = 0;
    let mut best_run: usize = count_zeros(&groups, 0);
    let mut n: usize = 0;
    while n < 8
        invariant
            n <= 8,
            groups@.len() == 8,
            best == longest_zeros(groups@, n as nat),
            best <= 8,
            best_run == zeros_at(groups@, best as int),
        decreases 8 - n,
    {
        let run: usize = count_zeros(&groups, n);
        if run > best_run {
            best = n;
            best_run = run;
        }
        n += 1;
    }
    proof {
        lemma_zeros_fit(groups@, best as int);
    }
    if best_run > 1 {
        push_groups(s, &groups, 0, best);
        s.append("::");
        push_groups(s, &groups, best + best_run, groups.len());
        proof {
            assert(groups@.subrange(0, best as int) =~= groups@.take(best as int));
            assert(groups@.subrange((best + best_run) as int, 8) =~= groups@.skip(
                (best + best_run) as int,
            ));
            assert(s@ =~= head + ipv6_text(b@));
        }
    } else {
        push_groups(s, &groups, 0, groups.len());
        proof {
            assert(groups@.subrange(0, 8) =~= groups@);
        }
    }
}

/// Writes an address in presentation form.
pub fn addr_to_str(af: u16, bytes: &[u8]) -> (r: String)
    ensures
        r@ == address_text(af, bytes@),
{
    let mut r = String::new();
    if af == AF_INET && bytes.len() >= 4 {
        push_ipv4(&mut r, bytes, 0);
        proof {
            assert(bytes@.skip(0) =~= bytes@);
            assert(r@ =~= ipv4_text(bytes@));
        }
    } else if af == AF_INET6 && bytes.len() >= 16 {
        push_ipv6(&mut r, bytes);
        proof {
            assert(r@ =~= ipv6_text(bytes@));
        }
    }
    r
}

proof fn lemma_dec_no_colon(n: nat)
    ensures
        !dec(n).contains(':'),
    decreases n,
{
    if n < 10 {
        assert(digit_char(n) != ':');
        assert forall|i: int| 0 <= i < dec(n).len() implies dec(n)[i] != ':' by {}
    } else {
        lemma_dec_no_colon(n / 10);
        assert(digit_char(n % 10) != ':');
        let head = dec(n / 10);
        assert forall|i: int| 0 <= i < dec(n).len() implies dec(n)[i] != ':' by {
            if i < head.len() {
                assert(dec(n)[i] == head[i]);
                assert(head.contains(head[i]));
            }
        }
    }
}

proof fn lemma_no_colon_join(a: Seq<char>, b: Seq<char>)
    requires
        !a.contains(':'),
        !b.contains(':'),
    ensures
        !(a + b).contains(':'),
{
    assert forall|i: int| 0 <= i < (a + b).len() implies (a + b)[i] != ':' by {
        if i < a.len() {
            assert(a.contains(a[i]));
        } else {
            assert(b.contains(b[i - a.len()]));
        }
    }
}

/// The notation tells the families apart: an IPv4 address is written without a
/// colon, an IPv6 address with one.
pub proof fn law_colon_means_ipv6(b: Seq<u8>)
    ensures
        b.len() >= 4 ==> !address_text(AF_INET, b).contains(':'),
        b.len() >= 16 ==> address_text(AF_INET6, b).contains(':'),
{
    if b.len() >= 4 {
        let dot = seq!['.'];
        assert(!dot.contains(':')) by {
            assert forall|i: int| 0 <= i < dot.len() implies dot[i] != ':' by {}
        }
        let d0 = dec(b[0] as nat);
        let d1 = dec(b[1] as nat);
        let d2 = dec(b[2] as nat);
        let d3 = dec(b[3] as nat);
        lemma_dec_no_colon(b[0] as nat);
        lemma_dec_no_colon(b[1] as nat);
        lemma_dec_no_colon(b[2] as nat);
        lemma_dec_no_colon(b[3] as nat);
        lemma_no_colon_join(d0, dot);
        lemma_no_colon_join(d0 + dot, d1);
        lemma_no_colon_join(d0 + dot + d1, dot);
        lemma_no_colon_join(d0 + dot + d1 + dot, d2);
        lemma_no_colon_join(d0 + dot + d1 + dot + d2, dot);
        lemma_no_colon_join(d0 + dot + d1 + dot + d2 + dot, d3);
    }
    if b.len() >= 16 {
        let groups = groups_of(b);
        let start = longest_zeros(groups, 8) as int;
        let run = zeros_at(groups, start) as int;
        let text = ipv6_text(b);
        reveal_strlit("::ffff:");
        reveal_strlit("::");
        if is_mapped(b) {
            assert(text[0] == ':');
        } else if run > 1 {
            let head = colon_joined(groups.take(start));
            assert(text[head.len() as int] == ':');
        } else {
            let head = colon_joined(groups.drop_last());
            assert(text[head.len() as int] == ':');
        }
    }
}

/// The parts of a text between separators.
pub open spec fn parts(t: Seq<char>, sep: char) -> Seq<Seq<char>>
    decreases t.len(),
{
    let n = first_index(t, sep) as int;
    if n < t.len() {
        seq![t.take(n)] + parts(t.skip(n + 1), sep)
    } else {
        seq![t]
    }
}

proof fn lemma_parts_join(s: Seq<char>, sep: char, rest: Seq<char>)
    requires
        !s.contains(sep),
    ensures
        parts(s, sep) == seq![s],
        parts(s + seq![sep] + rest, sep) == seq![s] + parts(rest, sep),
{
    let t = s + seq![sep] + rest;
    lemma_first_index(s, sep);
    if first_index(s, sep) < s.len() {
        assert(s[first_index(s, sep) as int] == sep);
    }
    lemma_first_index(t, sep);
    let n = first_index(t, sep) as int;
    assert(t[s.len() as int] == sep);
    if n < s.len() {
        assert(t[n] == s[n]);
    }
    assert(n == s.len());
    assert(t.take(n) =~= s);
    assert(t.skip(n + 1) =~= rest);
}

/// Digits are neither dots nor colons.
proof fn lemma_digits_plain(s: Seq<char>, base: nat)
    requires
        all_digits(s, base),
        base <= 16,
    ensures
        !s.contains('.'),
        !s.contains(':'),
{
    assert(digit_value('.', base) is None);
    assert(digit_value(':', base) is None);
}

/// A version 4 address reads back: its four parts, in order, are the decimal
/// numbers of its bytes.
pub proof fn law_ipv4_reads_back(b: Seq<u8>, i: int)
    requires
        b.len() >= 4,
        0 <= i < 4,
    ensures
        parts(address_text(2, b), '.').len() == 4,
        digits_value(parts(address_text(2, b), '.')[i], 10) == b[i],
{
    let d0 = dec(b[0] as nat);
    let d1 = dec(b[1] as nat);
    let d2 = dec(b[2] as nat);
    let d3 = dec(b[3] as nat);
    lemma_dec_digits(b[0] as nat);
    lemma_dec_digits(b[1] as nat);
    lemma_dec_digits(b[2] as nat);
    lemma_dec_digits(b[3] as nat);
    lemma_digits_plain(d0, 10);
    lemma_digits_plain(d1, 10);
    lemma_digits_plain(d2, 10);
    lemma_digits_plain(d3, 10);
    let t2 = d2 + seq!['.'] + d3;
    let t1 = d1 + seq!['.'] + t2;
    let t0 = d0 + seq!['.'] + t1;
    assert(ipv4_text(b) =~= t0);
    lemma_parts_join(d3, '.', seq![]);
    lemma_parts_join(d2, '.', d3);
    lemma_parts_join(d1, '.', t2);
    lemma_parts_join(d0, '.', t1);
    assert(parts(t0, '.') =~= seq![d0, d1, d2, d3]);
}

/// The groups of an address are its bytes in pairs, the first of each pair the
/// higher.
pub proof fn law_groups_are_pairs(b: Seq<u8>, i: int)
    requires
        b.len() >= 16,
        0 <= i < 8,
    ensures
        groups_of(b).len() == 8,
        groups_of(b)[i] == b[2 * i] * 0x100 + b[2 * i + 1],
{
}

/// Groups read back: the parts between the colons, in order, are the
/// hexadecimal numbers of the groups.
pub proof fn law_groups_read_back(groups: Seq<u16>, i: int)
    requires
        0 <= i < groups.len(),
    ensures
        parts(colon_joined(groups), ':').len() == groups.len(),
        digits_value(parts(colon_joined(groups), ':')[i], 16) == groups[i],
{
    lemma_groups_read(groups);
    law_hex_round_trip(groups[i] as nat);
}

proof fn lemma_groups_read(groups: Seq<u16>)
    requires
        groups.len() > 0,
    ensures
        parts(colon_joined(groups), ':') == groups.map_values(|g: u16| hex(g as nat)),
    decreases groups.len(),
{
    let want = groups.map_values(|g: u16| hex(g as nat));
    let last = hex(groups.last() as nat);
    law_hex_round_trip(groups.last() as nat);
    lemma_digits_plain(last, 16);
    if groups.len() == 1 {
        lemma_parts_join(last, ':', seq![]);
        assert(parts(colon_joined(groups), ':') =~= want);
    } else {
        let front = groups.drop_last();
        lemma_groups_read(front);
        lemma_parts_append(colon_joined(front), ':', last);
        assert(colon_joined(groups) =~= colon_joined(front) + seq![':'] + last);
        assert(front.map_values(|g: u16| hex(g as nat)).push(last) =~= want);
    }
}

proof fn lemma_parts_append(t: Seq<char>, sep: char, last: Seq<char>)
    requires
        !last.contains(sep),
    ensures
        parts(t + seq![sep] + last, sep) == parts(t, sep).push(last),
    decreases t.len(),
{
    let all = t + seq![sep] + last;
    lemma_first_index(t, sep);
    let n = first_index(t, sep) as int;
    if n < t.len() {
        let head = t.take(n);
        let rest = t.skip(n + 1);
        assert(!head.contains(sep));
        assert(t =~= head + seq![sep] + rest);
        assert(all =~= head + seq![sep] + (rest + seq![sep] + last));
        lemma_parts_join(head, sep, rest);
        lemma_parts_join(head, sep, rest + seq![sep] + last);
        lemma_parts_append(rest, sep, last);
        assert(parts(all, sep) =~= parts(t, sep).push(last));
    } else {
        assert(!t.contains(sep)) by {
            if t.contains(sep) {
                let j = t.index_of(sep);
                assert(t[j] == sep);
            }
        }
        lemma_parts_join(t, sep, last);
        lemma_parts_join(last, sep, seq![]);
        assert(parts(all, sep) =~= parts(t, sep).push(last));
    }
}

/// A run of zero groups goes as far as there are zeros.
pub proof fn law_run_is_maximal(groups: Seq<u16>, i: int)
    requires
        0 <= i <= groups.len(),
    ensures
        i + zeros_at(groups, i) <= groups.len(),
        forall|j: int| i <= j < i + zeros_at(groups, i) ==> #[trigger] groups[j] == 0,
        i + zeros_at(groups, i) < groups.len() ==> groups[i + zeros_at(groups, i)] != 0,
    decreases groups.len() - i,
{
    if i < groups.len() && groups[i] == 0 {
        law_run_is_maximal(groups, i + 1);
    }
}

/// The run that is cut short is the longest, and of several the first.
pub proof fn law_longest_run_first(groups: Seq<u16>, n: nat, i: int)
    requires
        0 <= i < n,
    ensures
        longest_zeros(groups, n) < n,
        zeros_at(groups, i) <= zeros_at(groups, longest_zeros(groups, n) as int),
        i < longest_zeros(groups, n) ==> zeros_at(groups, i) < zeros_at(
            groups,
            longest_zeros(groups, n) as int,
        ),
    decreases n,
{
    if n > 1 {
        law_longest_run_first(groups, (n - 1) as nat, 0);
        if i < n - 1 {
            law_longest_run_first(groups, (n - 1) as nat, i);
        }
    } else {
        assert(longest_zeros(groups, 0) == 0);
    }
}

/// A version 6 address is written as its groups, in which the first longest run
/// of at least two zero groups, and no other, is left out.
pub proof fn law_ipv6_shape(b: Seq<u8>)
    requires
        b.len() >= 16,
        !is_mapped(b),
    ensures
        ({
            let groups = groups_of(b);
            let start = longest_zeros(groups, 8) as int;
            let run = zeros_at(groups, start) as int;
            &&& run <= 1 ==> address_text(10, b) == colon_joined(groups)
            &&& run > 1 ==> address_text(10, b) == colon_joined(groups.take(start)) + seq![
                ':',
                ':',
            ] + colon_joined(groups.skip(start + run))
        }),
{
    reveal_strlit("::");
    assert("::"@ =~= seq![':', ':']);
}

/// An address of version 4 that is mapped into version 6 keeps its notation.
pub proof fn law_mapped_address(b: Seq<u8>)
    requires
        b.len() >= 16,
        is_mapped(b),
    ensures
        address_text(10, b) == seq![':', ':', 'f', 'f', 'f', 'f', ':'] + address_text(
            2,
            b.subrange(12, 16),
        ),
{
    reveal_strlit("::ffff:");
    assert("::ffff:"@ =~= seq![':', ':', 'f', 'f', 'f', 'f', ':']);
}

/// An address that is too short, or of another family, has no text.
pub proof fn law_no_address(af: u16, b: Seq<u8>)
    ensures
        (af == 2 && b.len() < 4) || (af == 10 && b.len() < 16) || (af != 2 && af != 10)
            ==> address_text(af, b).len() == 0,
{
}

} // verus!
