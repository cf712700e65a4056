//! Recognition of IP address literals in the text forms Rust's `IpAddr` parser
//! accepts: dotted-decimal IPv4 without leading zeros, and IPv6 in eight hex
//! groups, with one `::` standing for at least one zero group, and an optional
//! embedded IPv4 tail.
use vstd::prelude::*;
use crate::text::{occurs_at, find, find_seq, lemma_find_seq, split_char, split_vec, subvec};

verus! {

pub open spec fn is_dec_digit(c: char) -> bool {
    '0' <= c && c <= '9'
}

pub open spec fn hex_digit_val(c: char) -> int {
    if '0' <= c && c <= '9' {
        c as int - '0' as int
    } else if 'a' <= c && c <= 'f' {
        c as int - 'a' as int + 10
    } else if 'A' <= c && c <= 'F' {
        c as int - 'A' as int + 10
    } else {
        -1
    }
}

/// Numeric value of a digit string in base `b`.
pub open spec fn digits_value(s: Seq<char>, b: int) -> int
    decreases s.len(),
{
    if s.len() == 0 {
        0
    } else {
        digits_value(s.drop_last(), b) * b + hex_digit_val(s.last())
    }
}

/// A decimal IPv4 octet: one to three digits, no leading zero, at most 255.
pub open spec fn dec_octet(s: Seq<char>) -> bool {
    &&& 1 <= s.len() <= 3
    &&& forall|k: int| 0 <= k < s.len() ==> is_dec_digit(#[trigger] s[k])
    &&& !(s.len() > 1 && s[0] == '0')
    &&& digits_value(s, 10) <= 255
}

/// A hex group: one to four hex digits.
pub open spec fn hex_group(s: Seq<char>) -> bool {
    &&& 1 <= s.len() <= 4
    &&& forall|k: int| 0 <= k < s.len() ==> hex_digit_val(#[trigger] s[k]) >= 0
}

/// The four octets of a dotted-decimal IPv4 literal.
pub open spec fn ipv4_octets(s: Seq<char>) -> Option<Seq<int>> {
    let parts = split_char(s, '.');
    if parts.len() == 4 && forall|k: int| 0 <= k < 4 ==> dec_octet(#[trigger] parts[k]) {
        Some(parts.map_values(|p: Seq<char>| digits_value(p, 10)))
    } else {
        None
    }
}

/// Every piece is a hex group.
pub open spec fn all_hex_groups(parts: Seq<Seq<char>>) -> bool {
    forall|k: int| 0 <= k < parts.len() ==> hex_group(#[trigger] parts[k])
}

/// The 16-bit groups of hex pieces.
pub open spec fn group_values(parts: Seq<Seq<char>>) -> Seq<int> {
    parts.map_values(|p: Seq<char>| digits_value(p, 16))
}

/// Two 16-bit groups holding an IPv4 address.
pub open spec fn v4_groups(o: Seq<int>) -> Seq<int> {
    seq![o[0] * 256 + o[1], o[2] * 256 + o[3]]
}

/// Pieces split at `:`, none for an empty text.
pub open spec fn colon_parts(s: Seq<char>) -> Seq<Seq<char>> {
    if s.len() == 0 {
        Seq::empty()
    } else {
        split_char(s, ':')
    }
}

/// Groups after `::`: hex groups, the last possibly an IPv4 tail, within `limit` slots.
pub open spec fn tail_groups(parts: Seq<Seq<char>>, limit: int) -> Option<Seq<int>> {
    if parts.len() == 0 {
        Some(Seq::empty())
    } else if parts.last().contains('.') {
        let head = parts.drop_last();
        if all_hex_groups(head) && ipv4_octets(parts.last()) is Some && parts.len() + 1 <= limit {
            Some(group_values(head) + v4_groups(ipv4_octets(parts.last())->0))
        } else {
            None
        }
    } else if all_hex_groups(parts) && parts.len() <= limit {
        Some(group_values(parts))
    } else {
        None
    }
}

/// The eight 16-bit groups of an IPv6 literal.
pub open spec fn ipv6_groups(s: Seq<char>) -> Option<Seq<int>> {
    let dc = find_seq(s, seq![':', ':']);
    if dc < 0 {
        let parts = split_char(s, ':');
        if parts.len() == 8 && all_hex_groups(parts) {
            Some(group_values(parts))
        } else if parts.len() == 7 && all_hex_groups(parts.drop_last()) && ipv4_octets(parts.last()) is Some {
            Some(group_values(parts.drop_last()) + v4_groups(ipv4_octets(parts.last())->0))
        } else {
            None
        }
    } else {
        let left = colon_parts(s.subrange(0, dc));
        let right = colon_parts(s.subrange(dc + 2, s.len() as int));
        if all_hex_groups(left) && left.len() <= 7 {
            match tail_groups(right, 7 - left.len()) {
                Some(t) => Some(group_values(left) + Seq::new((8 - left.len() - t.len()) as nat, |i: int| 0int) + t),
                None => None,
            }
        } else {
            None
        }
    }
}

/// Loopback, unspecified, multicast, private (10/8, 172.16/12, 192.168/16) or
/// link-local (169.254/16) IPv4 octets, as `Ipv4Addr` classifies them.
pub open spec fn v4_internal(o: Seq<int>) -> bool {
    ||| o[0] == 127
    ||| (o[0] == 0 && o[1] == 0 && o[2] == 0 && o[3] == 0)
    ||| (224 <= o[0] && o[0] <= 239)
    ||| o[0] == 10
    ||| (o[0] == 172 && 16 <= o[1] && o[1] <= 31)
    ||| (o[0] == 192 && o[1] == 168)
    ||| (o[0] == 169 && o[1] == 254)
}

/// Loopback (`::1`), unspecified (`::`), multicast (`ff00::/8`) or link-local
/// (`fe80::/10`) IPv6 groups.
pub open spec fn v6_internal(g: Seq<int>) -> bool {
    let zero_prefix = forall|k: int| 0 <= k < 7 ==> g[k] == 0;
    ||| (zero_prefix && (g[7] == 0 || g[7] == 1))
    ||| g[0] >= 0xff00
    ||| (0xfe80 <= g[0] && g[0] <= 0xfebf)
}

/// For an IP literal, whether it names an internal address; `None` when the text
/// is no IP literal (`str::parse::<IpAddr>` fails), IPv4 tried first.
pub open spec fn ip_internal_seq(s: Seq<char>) -> Option<bool> {
    match ipv4_octets(s) {
        Some(o) => Some(v4_internal(o)),
        None => match ipv6_groups(s) {
            Some(g) => Some(v6_internal(g)),
            None => None,
        },
    }
}

fn digit_value(c: char) -> (r: i64)
    ensures
        r == hex_digit_val(c),
{
    if '0' <= c && c <= '9' {
        (c as u32 - '0' as u32) as i64
    } else if 'a' <= c && c <= 'f' {
        (c as u32 - 'a' as u32) as i64 + 10
    } else if 'A' <= c && c <= 'F' {
        (c as u32 - 'A' as u32) as i64 + 10
    } else {
        -1
    }
}

/// Value of a valid digit string of at most four digits in base 10 or 16.
fn small_value(p: &Vec<char>, b: i64) -> (r: i64)
    requires
        p.len() <= 4,
        b == 10 || b == 16,
        forall|k: int| 0 <= k < p@.len() ==> 0 <= hex_digit_val(#[trigger] p@[k]) < b,
    ensures
        r == digits_value(p@, b as int),
        0 <= r < 65536,
{
    let mut v: i64 = 0;
    let mut i: usize = 0;
    while i < p.len()
        invariant
            i <= p.len() <= 4,
            b == 10 || b == 16,
            forall|k: int| 0 <= k < p@.len() ==> 0 <= hex_digit_val(#[trigger] p@[k]) < b,
            v == digits_value(p@.subrange(0, i as int), b as int),
            0 <= v,
            i == 0 ==> v == 0,
            i == 1 ==> v < 16,
            i == 2 ==> v < 256,
            i == 3 ==> v < 4096,
            i == 4 ==> v < 65536,
        decreases p.len() - i,
    {
        let d = digit_value(p[i]);
        assert(p@.subrange(0, i + 1).drop_last() =~= p@.subrange(0, i as int));
        assert(0 <= d < b);
        proof {
            assert(v * b + d < 65536) by (nonlinear_arith)
                requires
                    0 <= d < b,
                    b == 10 || b == 16,
                    i < 4,
                    i == 0 ==> v == 0,
                    i == 1 ==> v < 16,
                    i == 2 ==> v < 256,
                    i == 3 ==> v < 4096,
                    0 <= v,
                    i == 0 || i == 1 || i == 2 || i == 3,
            ;
            assert(i + 1 == 1 ==> v * b + d < 16) by (nonlinear_arith)
                requires 0 <= d < b, b == 10 || b == 16, i == 0 ==> v == 0;
            assert(i + 1 == 2 ==> v * b + d < 256) by (nonlinear_arith)
                requires 0 <= d < b, b == 10 || b == 16, i == 1 ==> v < 16, 0 <= v;
            assert(i + 1 == 3 ==> v * b + d < 4096) by (nonlinear_arith)
                requires 0 <= d < b, b == 10 || b == 16, i == 2 ==> v < 256, 0 <= v;
            assert(0 <= v * b + d) by (nonlinear_arith)
                requires 0 <= d, 0 <= b, 0 <= v;
        }
        v = v * b + d;
        i += 1;
    }
    assert(p@.subrange(0, p@.len() as int) =~= p@);
    v
}

fn is_dec_octet(p: &Vec<char>) -> (r: Option<i64>)
    ensures
        r is Some <==> dec_octet(p@),
        r matches Some(v) ==> 0 <= v <= 255,
        r matches Some(v) ==> v == digits_value(p@, 10),
{
    if p.len() < 1 || p.len() > 3 {
        return None;
    }
    let mut i: usize = 0;
    while i < p.len()
        invariant
            i <= p.len(),
            forall|k: int| 0 <= k < i ==> is_dec_digit(p@[k]),
        decreases p.len() - i,
    {
        if !('0' <= p[i] && p[i] <= '9') {
            return None;
        }
        i += 1;
    }
    if p.len() > 1 && p[0] == '0' {
        return None;
    }
    let v = small_value(p, 10);
    if v > 255 {
        None
    } else {
        Some(v)
    }
}

fn is_hex_group(p: &Vec<char>) -> (r: Option<i64>)
    ensures
        r is Some <==> hex_group(p@),
        r matches Some(v) ==> v == digits_value(p@, 16) && 0 <= v < 65536,
{
    if p.len() < 1 || p.len() > 4 {
        return None;
    }
    let mut i: usize = 0;
    while i < p.len()
        invariant
            i <= p.len(),
            forall|k: int| 0 <= k < i ==> hex_digit_val(p@[k]) >= 0,
        decreases p.len() - i,
    {
        if digit_value(p[i]) < 0 {
            return None;
        }
        i += 1;
    }
    Some(small_value(p, 16))
}

fn ipv4_of(v: &Vec<char>) -> (r: Option<Vec<i64>>)
    ensures
        match (r, ipv4_octets(v@)) {
            (Some(a), Some(b)) => a@.len() == 4 && forall|k: int| 0 <= k < 4 ==> a@[k] == b[k] && 0 <= a@[k] <= 255,
            (None, None) => true,
            _ => false,
        },
{
    let parts = split_vec(v, '.');
    let ghost pv = parts@.map_values(|l: Vec<char>| l@);
    if parts.len() != 4 {
        return None;
    }
    let mut out: Vec<i64> = Vec::new();
    let mut i: usize = 0;
    while i < 4
        invariant
            i <= 4,
            parts@.len() == 4,
            pv == parts@.map_values(|l: Vec<char>| l@),
            pv == split_char(v@, '.'),
            out@.len() == i,
            forall|k: int| 0 <= k < i ==> dec_octet(#[trigger] pv[k]) && out@[k] == digits_value(pv[k], 10) && 0 <= out@[k] <= 255,
        decreases 4 - i,
    {
        match is_dec_octet(&parts[i]) {
            Some(x) => out.push(x),
            None => {
                assert(!dec_octet(pv[i as int]));
                return None;
            },
        }
        i += 1;
    }
    proof {
        assert(pv.len() == 4);
        assert(forall|k: int| 0 <= k < 4 ==> dec_octet(#[trigger] pv[k]));
        assert(ipv4_octets(v@) is Some);
        let b = pv.map_values(|p: Seq<char>| digits_value(p, 10));
        assert(ipv4_octets(v@)->0 == b);
        assert forall|k: int| 0 <= k < 4 implies out@[k] == b[k] && 0 <= out@[k] <= 255 by {}
    }
    Some(out)
}

fn all_hex(parts: &Vec<Vec<char>>, n: usize) -> (r: Option<Vec<i64>>)
    requires
        n <= parts.len(),
    ensures
        match r {
            Some(a) => all_hex_groups(parts@.map_values(|l: Vec<char>| l@).subrange(0, n as int))
                && a@.len() == n && forall|k: int| 0 <= k < n ==> a@[k] == digits_value(parts@[k]@, 16) && 0 <= a@[k] < 65536,
            None => !all_hex_groups(parts@.map_values(|l: Vec<char>| l@).subrange(0, n as int)),
        },
{
    let ghost pv = parts@.map_values(|l: Vec<char>| l@).subrange(0, n as int);
    let mut out: Vec<i64> = Vec::new();
    let mut i: usize = 0;
    while i < n
        invariant
            i <= n <= parts.len(),
            pv == parts@.map_values(|l: Vec<char>| l@).subrange(0, n as int),
            out@.len() == i,
            forall|k: int| 0 <= k < i ==> hex_group(pv[k]) && #[trigger] out@[k] == digits_value(parts@[k]@, 16) && 0 <= out@[k] < 65536,
            forall|k: int| 0 <= k < i ==> hex_group(#[trigger] pv[k]),
        decreases n - i,
    {
        assert(pv[i as int] == parts@[i as int]@);
        match is_hex_group(&parts[i]) {
            Some(x) => out.push(x),
            None => {
                assert(!hex_group(pv[i as int]));
                return None;
            },
        }
        i += 1;
    }
    assert(all_hex_groups(pv));
    Some(out)
}

fn has_dot(p: &Vec<char>) -> (r: bool)
    ensures
        r == p@.contains('.'),
{
    let mut i: usize = 0;
    while i < p.len()
        invariant
            i <= p.len(),
            forall|k: int| 0 <= k < i ==> p@[k] != '.',
        decreases p.len() - i,
    {
        if p[i] == '.' {
            return true;
        }
        i += 1;
    }
    false
}

fn v4_internal_exec(o: &Vec<i64>) -> (r: bool)
    requires
        o@.len() == 4,
    ensures
        r == v4_internal(o@.map_values(|x: i64| x as int)),
{
    let ghost s = o@.map_values(|x: i64| x as int);
    assert(s[0] == o@[0] && s[1] == o@[1] && s[2] == o@[2] && s[3] == o@[3]);
    o[0] == 127 || (o[0] == 0 && o[1] == 0 && o[2] == 0 && o[3] == 0) || (224 <= o[0] && o[0]
        <= 239) || o[0] == 10 || (o[0] == 172 && 16 <= o[1] && o[1] <= 31) || (o[0] == 192 && o[1]
        == 168) || (o[0] == 169 && o[1] == 254)
}

fn v6_internal_exec(g: &Vec<i64>) -> (r: bool)
    requires
        g@.len() == 8,
    ensures
        r == v6_internal(g@.map_values(|x: i64| x as int)),
{
    let ghost s = g@.map_values(|x: i64| x as int);
    let mut zero_prefix = true;
    let mut k: usize = 0;
    while k < 7
        invariant
            k <= 7,
            g@.len() == 8,
            s == g@.map_values(|x: i64| x as int),
            zero_prefix == forall|j: int| 0 <= j < k ==> s[j] == 0,
        decreases 7 - k,
    {
        assert(s[k as int] == g@[k as int]);
        if g[k] != 0 {
            zero_prefix = false;
        }
        k += 1;
    }
    (zero_prefix && (g[7] == 0 || g[7] == 1)) || g[0] >= 0xff00 || (0xfe80 <= g[0] && g[0] <= 0xfebf)
}

/// Whether an IP literal names an internal address; `None` when `v` is no IP literal.
pub fn ip_literal_internal(v: &Vec<char>) -> (r: Option<bool>)
    ensures
        r == ip_internal_seq(v@),
{
    match ipv4_of(v) {
        Some(o) => {
            proof {
                let b = ipv4_octets(v@)->0;
                assert(o@.map_values(|x: i64| x as int) =~= b);
            }
            return Some(v4_internal_exec(&o));
        },
        None => {},
    }
    match ipv6_groups_of(v) {
        Some(g) => Some(v6_internal_exec(&g)),
        None => None,
    }
}

fn append_i64(a: &mut Vec<i64>, b: &Vec<i64>)
    ensures
        final(a)@ == old(a)@ + b@,
{
    let mut i: usize = 0;
    while i < b.len()
        invariant
            i <= b.len(),
            a@ == old(a)@ + b@.subrange(0, i as int),
        decreases b.len() - i,
    {
        a.push(b[i]);
        i += 1;
        assert(a@ =~= old(a)@ + b@.subrange(0, i as int));
    }
    assert(b@.subrange(0, b@.len() as int) =~= b@);
}

fn colon_parts_vec(v: &Vec<char>) -> (r: Vec<Vec<char>>)
    ensures
        r@.map_values(|l: Vec<char>| l@) == colon_parts(v@),
{
    if v.len() == 0 {
        let r: Vec<Vec<char>> = Vec::new();
        assert(r@.map_values(|l: Vec<char>| l@) =~= Seq::<Seq<char>>::empty());
        r
    } else {
        split_vec(v, ':')
    }
}

fn tail_groups_of(parts: &Vec<Vec<char>>, limit: usize) -> (r: Option<Vec<i64>>)
    ensures
        match (r, tail_groups(parts@.map_values(|l: Vec<char>| l@), limit as int)) {
            (Some(a), Some(b)) => a@.map_values(|x: i64| x as int) == b,
            (None, None) => true,
            _ => false,
        },
{
    let ghost pv = parts@.map_values(|l: Vec<char>| l@);
    if parts.len() == 0 {
        let r: Vec<i64> = Vec::new();
        assert(r@.map_values(|x: i64| x as int) =~= Seq::<int>::empty());
        return Some(r);
    }
    let n = parts.len();
    assert(pv.last() == parts@[n - 1]@);
    if has_dot(&parts[n - 1]) {
        let head = all_hex(parts, n - 1);
        let v4 = ipv4_of(&parts[n - 1]);
        proof {
            assert(pv.drop_last() =~= pv.subrange(0, n - 1));
        }
        match (head, v4) {
            (Some(mut h), Some(o)) => {
                if n < limit {
                    let ghost hh = h@;
                    let g1 = o[0] * 256 + o[1];
                    let g2 = o[2] * 256 + o[3];
                    h.push(g1);
                    h.push(g2);
                    proof {
                        let b = ipv4_octets(pv.last())->0;
                        assert(h@.map_values(|x: i64| x as int) =~= group_values(pv.drop_last()) + v4_groups(b));
                    }
                    Some(h)
                } else {
                    None
                }
            },
            _ => None,
        }
    } else {
        match all_hex(parts, n) {
            Some(h) => {
                assert(pv.subrange(0, n as int) =~= pv);
                if n <= limit {
                    assert(h@.map_values(|x: i64| x as int) =~= group_values(pv));
                    Some(h)
                } else {
                    None
                }
            },
            None => {
                assert(pv.subrange(0, n as int) =~= pv);
                None
            },
        }
    }
}

fn ipv6_groups_of(v: &Vec<char>) -> (r: Option<Vec<i64>>)
    ensures
        match (r, ipv6_groups(v@)) {
            (Some(a), Some(b)) => a@.len() == 8 && a@.map_values(|x: i64| x as int) == b,
            (None, None) => true,
            _ => false,
        },
{
    let dcv = vec![':', ':'];
    assert(dcv@ =~= seq![':', ':']);
    let dc = find(v, &dcv);
    proof {
        lemma_find_seq(v@, seq![':', ':']);
    }
    match dc {
        None => {
            let parts = split_vec(v, ':');
            let ghost pv = parts@.map_values(|l: Vec<char>| l@);
            if parts.len() == 8 {
                match all_hex(&parts, 8) {
                    Some(h) => {
                        assert(pv.subrange(0, 8) =~= pv);
                        assert(h@.map_values(|x: i64| x as int) =~= group_values(pv));
                        return Some(h);
                    },
                    None => {
                        assert(pv.subrange(0, 8) =~= pv);
                        return None;
                    },
                }
            }
            if parts.len() == 7 {
                assert(pv.drop_last() =~= pv.subrange(0, 6));
                assert(pv.last() == parts@[6]@);
                match (all_hex(&parts, 6), ipv4_of(&parts[6])) {
                    (Some(mut h), Some(o)) => {
                        let g1 = o[0] * 256 + o[1];
                        let g2 = o[2] * 256 + o[3];
                        h.push(g1);
                        h.push(g2);
                        proof {
                            let b = ipv4_octets(pv.last())->0;
                            assert(h@.map_values(|x: i64| x as int) =~= group_values(pv.drop_last()) + v4_groups(b));
                        }
                        return Some(h);
                    },
                    _ => return None,
                }
            }
            None
        },
        Some(d) => {
            assert(occurs_at(v@, dcv@, d as int));
            assert(d + 2 <= v.len());
            let left_v = subvec(v, 0, d);
            let right_v = subvec(v, d + 2, v.len());
            let left = colon_parts_vec(&left_v);
            let right = colon_parts_vec(&right_v);
            let ghost lv = left@.map_values(|l: Vec<char>| l@);
            if left.len() > 7 {
                return None;
            }
            let head = match all_hex(&left, left.len()) {
                Some(h) => h,
                None => {
                    assert(lv.subrange(0, left.len() as int) =~= lv);
                    return None;
                },
            };
            assert(lv.subrange(0, left.len() as int) =~= lv);
            match tail_groups_of(&right, 7 - left.len()) {
                Some(t) => {
                    let zeros = 8 - left.len() - t.len();
                    let mut out = head;
                    let ghost h0 = out@;
                    let mut z: usize = 0;
                    while z < zeros
                        invariant
                            z <= zeros,
                            out@ == h0 + Seq::new(z as nat, |i: int| 0i64),
                        decreases zeros - z,
                    {
                        out.push(0);
                        z += 1;
                        assert(out@ =~= h0 + Seq::new(z as nat, |i: int| 0i64));
                    }
                    append_i64(&mut out, &t);
                    proof {
                        assert(h0.map_values(|x: i64| x as int) =~= group_values(lv));
                        assert(out@.map_values(|x: i64| x as int) =~= group_values(lv) + Seq::new(zeros as nat, |i: int| 0int) + t@.map_values(|x: i64| x as int));
                    }
                    Some(out)
                },
                None => None,
            }
        },
    }
}

} // verus!
