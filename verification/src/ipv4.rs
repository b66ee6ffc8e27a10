//! Dotted-decimal IPv4 addresses, read as std's `Ipv4Addr` parser reads
//! them: four decimal numbers of one to three digits, each at most 255,
//! without leading zeros, separated by dots, and nothing else.

use vstd::prelude::*;
use vstd::string::StringSliceAdditionalSpecFns;

verus! {

/// An ASCII digit.
pub open spec fn is_digit(c: u8) -> bool {
    48 <= c <= 57
}

/// The shortest decimal digits of `n`.
pub open spec fn decimal_bytes(n: u8) -> Seq<u8> {
    if n < 10 {
        seq![(48 + n) as u8]
    } else if n < 100 {
        seq![(48 + n / 10) as u8, (48 + n % 10) as u8]
    } else {
        seq![(48 + n / 100) as u8, (48 + (n / 10) % 10) as u8, (48 + n % 10) as u8]
    }
}

/// The dotted-decimal text of the four octets of an IPv4 address.
pub open spec fn ipv4_text(ip: Seq<u8>) -> Seq<u8> {
    decimal_bytes(ip[0]) + seq![46u8] + decimal_bytes(ip[1]) + seq![46u8] + decimal_bytes(ip[2])
        + seq![46u8] + decimal_bytes(ip[3])
}

/// `b[pos..end]` is the decimal text of `n`, and no digit follows it.
pub open spec fn octet_ends_at(b: Seq<u8>, pos: int, end: int, n: u8) -> bool {
    &&& 0 <= pos <= end <= b.len()
    &&& b.subrange(pos, end) == decimal_bytes(n)
    &&& (end == b.len() || !is_digit(b[end]))
}

/// The decimal text of a number is one to three digits.
proof fn lemma_decimal_shape(n: u8)
    ensures
        1 <= decimal_bytes(n).len() <= 3,
        forall|i: int| 0 <= i < decimal_bytes(n).len() ==> is_digit(#[trigger] decimal_bytes(n)[i]),
        decimal_bytes(n).len() > 1 ==> decimal_bytes(n)[0] != 48,
{
}

/// Two numbers with the same decimal text are the same number.
proof fn lemma_decimal_injective(n: u8, m: u8)
    requires
        decimal_bytes(n) == decimal_bytes(m),
    ensures
        n == m,
{
    let d = decimal_bytes(n);
    let e = decimal_bytes(m);
    assert(d.len() == e.len());
    if n < 10 {
        assert(m < 10);
        assert(d[0] == e[0]);
    } else if n < 100 {
        assert(10 <= m < 100);
        assert(d[0] == e[0]);
        assert(d[1] == e[1]);
        assert(n == (n / 10) * 10 + n % 10);
        assert(m == (m / 10) * 10 + m % 10);
    } else {
        assert(m >= 100);
        assert(d[0] == e[0]);
        assert(d[1] == e[1]);
        assert(d[2] == e[2]);
        assert(n == (n / 100) * 100 + ((n / 10) % 10) * 10 + n % 10);
        assert(m == (m / 100) * 100 + ((m / 10) % 10) * 10 + m % 10);
    }
}

/// A run of digits that no digit follows has one length only.
proof fn lemma_octet_end_unique(b: Seq<u8>, pos: int, e1: int, n1: u8, e2: int, n2: u8)
    requires
        octet_ends_at(b, pos, e1, n1),
        octet_ends_at(b, pos, e2, n2),
    ensures
        e1 == e2,
        n1 == n2,
{
    lemma_decimal_shape(n1);
    lemma_decimal_shape(n2);
    if e1 < e2 {
        assert(b.subrange(pos, e2)[e1 - pos] == b[e1]);
        assert(is_digit(decimal_bytes(n2)[e1 - pos]));
    } else if e2 < e1 {
        assert(b.subrange(pos, e1)[e2 - pos] == b[e2]);
        assert(is_digit(decimal_bytes(n1)[e2 - pos]));
    }
    lemma_decimal_injective(n1, n2);
}

/// The number written at `pos` and where it ends, if one to three digits
/// start there, they have no leading zero, and their value is at most 255.
fn read_octet(b: &[u8], pos: usize) -> (r: Option<(u8, usize)>)
    requires
        pos <= b@.len(),
    ensures
        r matches Some((n, end)) ==> octet_ends_at(b@, pos as int, end as int, n),
        r is None ==> forall|end: int, n: u8| !octet_ends_at(b@, pos as int, end, n),
{
    let len = b.len();
    let mut k: usize = 0;
    while k < 4 && pos + k < len && 48 <= b[pos + k] && b[pos + k] <= 57
        invariant
            k <= 4,
            pos + k <= len,
            len == b@.len(),
            forall|i: int| pos <= i < pos + k ==> is_digit(#[trigger] b@[i]),
        decreases 4 - k,
    {
        k = k + 1;
    }
    if k == 0 || k == 4 || (k > 1 && b[pos] == 48) {
        proof {
            assert forall|end: int, n: u8| !octet_ends_at(b@, pos as int, end, n) by {
                if octet_ends_at(b@, pos as int, end, n) {
                    lemma_decimal_shape(n);
                    let d = decimal_bytes(n);
                    assert(b@.subrange(pos as int, end)[0] == b@[pos as int]);
                    if k == 0 {
                        assert(is_digit(d[0]));
                    } else if k == 4 {
                        assert(end - pos <= 3);
                        assert(is_digit(b@[end]));
                    } else {
                        if end - pos < k {
                            assert(is_digit(b@[end]));
                        }
                        assert(d.len() > 1);
                    }
                }
            }
        }
        return None;
    }
    let d0 = (b[pos] - 48) as u32;
    let value: u32 = if k == 1 {
        d0
    } else if k == 2 {
        d0 * 10 + (b[pos + 1] - 48) as u32
    } else {
        d0 * 100 + (b[pos + 1] - 48) as u32 * 10 + (b[pos + 2] - 48) as u32
    };
    let end = pos + k;
    assert(end == b@.len() || !is_digit(b@[end as int]));
    if value > 255 {
        proof {
            assert forall|e: int, n: u8| !octet_ends_at(b@, pos as int, e, n) by {
                if octet_ends_at(b@, pos as int, e, n) {
                    lemma_decimal_shape(n);
                    let d = decimal_bytes(n);
                    if e < end {
                        assert(is_digit(b@[e]));
                    } else if e > end {
                        assert(b@.subrange(pos as int, e)[end - pos] == b@[end as int]);
                        assert(is_digit(d[end - pos]));
                    }
                    assert(d[0] == b@[pos as int]);
                    if k >= 2 {
                        assert(d[1] == b@[pos + 1]);
                    }
                    if k == 3 {
                        assert(d[2] == b@[pos + 2]);
                    }
                }
            }
        }
        return None;
    }
    let n = value as u8;
    proof {
        let d = decimal_bytes(n);
        let s = b@.subrange(pos as int, end as int);
        if k == 1 {
            assert(s =~= d);
        } else if k == 2 {
            assert(n >= 10);
            assert(s =~= d);
        } else {
            assert(n >= 100);
            assert(s =~= d);
        }
    }
    Some((n, end))
}

/// The four octets of a dotted-decimal IPv4 address, if `s` is one.
pub fn parse_ipv4(s: &str) -> (r: Option<[u8; 4]>)
    ensures
        r matches Some(ip) ==> s.spec_bytes() == ipv4_text(ip@),
        r is None ==> forall|ip: Seq<u8>| ip.len() == 4 ==> s.spec_bytes() != ipv4_text(ip),
{
    let b = s.as_bytes();
    let len = b.len();
    let ghost bytes = b@;
    let mut ip: [u8; 4] = [0u8; 4];
    let mut pos: usize = 0;
    let mut g: usize = 0;
    while g < 4
        invariant_except_break
            b@ == bytes,
            bytes == s.spec_bytes(),
            len == bytes.len(),
            g <= 4,
            pos <= len,
            g == 0 ==> pos == 0,
            forall|ip2: Seq<u8>| #[trigger] parsed_so_far(bytes, pos as int, g as int, ip@, ip2),
            g > 0 ==> bytes.subrange(0, pos as int) == prefix_text(ip@, g as int),
        ensures
            g == 4,
            b@ == bytes,
            len == bytes.len(),
            pos <= len,
            bytes.subrange(0, pos as int) == prefix_text(ip@, 4),
            forall|ip2: Seq<u8>| #[trigger] parsed_so_far(bytes, pos as int, 4, ip@, ip2),
        decreases 4 - g,
    {
        let start = if g == 0 {
            0
        } else {
            if pos >= len || b[pos] != 46 {
                proof {
                    assert forall|ip2: Seq<u8>| ip2.len() == 4 implies bytes != ipv4_text(
                        ip2,
                    ) by {
                        assert(parsed_so_far(bytes, pos as int, g as int, ip@, ip2));
                        if bytes == ipv4_text(ip2) {
                            lemma_prefix_dot(ip2, g as int);
                        }
                    }
                }
                return None;
            }
            pos + 1
        };
        match read_octet(b, start) {
            Some((n, end)) => {
                proof {
                    assert forall|ip2: Seq<u8>| ip2.len() == 4 && bytes == ipv4_text(ip2) implies end
                        == prefix_len(ip2, g + 1) && n == ip2[g as int] by {
                        assert(parsed_so_far(bytes, pos as int, g as int, ip@, ip2));
                        lemma_prefix_octet(ip2, g as int);
                        lemma_octet_end_unique(
                            bytes,
                            start as int,
                            end as int,
                            n,
                            prefix_len(ip2, g + 1),
                            ip2[g as int],
                        );
                    }
                    lemma_prefix_text_step(ip@.update(g as int, n), g as int);
                    assert(bytes.subrange(0, end as int) =~= bytes.subrange(0, pos as int) + (
                    if g == 0 {
                        Seq::<u8>::empty()
                    } else {
                        seq![46u8]
                    }) + bytes.subrange(start as int, end as int));
                    assert(prefix_text(ip@.update(g as int, n), g as int) == prefix_text(
                        ip@,
                        g as int,
                    )) by {
                        lemma_prefix_text_depends(ip@, ip@.update(g as int, n), g as int);
                    }
                }
                let ghost old_ip = ip@;
                ip[g] = n;
                pos = end;
                proof {
                    assert forall|ip2: Seq<u8>| #[trigger] parsed_so_far(
                        bytes,
                        pos as int,
                        g + 1,
                        ip@,
                        ip2,
                    ) by {
                        assert(parsed_so_far(bytes, start as int - (if g == 0 { 0int } else { 1int }), g as int, old_ip, ip2));
                        if ip2.len() == 4 && bytes == ipv4_text(ip2) {
                            assert forall|j: int| 0 <= j < g + 1 implies ip@[j] == ip2[j] by {
                                if j < g {
                                    assert(ip@[j] == old_ip[j]);
                                }
                            }
                        }
                    }
                }
            },
            None => {
                proof {
                    assert forall|ip2: Seq<u8>| ip2.len() == 4 implies bytes != ipv4_text(
                        ip2,
                    ) by {
                        assert(parsed_so_far(bytes, pos as int, g as int, ip@, ip2));
                        if bytes == ipv4_text(ip2) {
                            lemma_prefix_octet(ip2, g as int);
                        }
                    }
                }
                return None;
            },
        }
        g = g + 1;
    }
    if pos != len {
        proof {
            assert forall|ip2: Seq<u8>| ip2.len() == 4 implies bytes != ipv4_text(ip2) by {
                assert(parsed_so_far(bytes, pos as int, 4, ip@, ip2));
                if bytes == ipv4_text(ip2) {
                    lemma_prefix_full(ip2);
                }
            }
        }
        return None;
    }
    proof {
        assert(bytes =~= bytes.subrange(0, pos as int));
        lemma_prefix_full(ip@);
    }
    Some(ip)
}

/// If the whole text is that of `ip2`, the first `g` octets read so far are
/// those of `ip2` and end at `pos`.
pub open spec fn parsed_so_far(bytes: Seq<u8>, pos: int, g: int, ip: Seq<u8>, ip2: Seq<u8>) -> bool {
    ip2.len() == 4 && bytes == ipv4_text(ip2) ==> pos == prefix_len(ip2, g) && forall|j: int|
        0 <= j < g ==> ip[j] == ip2[j]
}

/// The text of the first `g` octets, dot-separated.
pub open spec fn prefix_text(ip: Seq<u8>, g: int) -> Seq<u8>
    decreases g,
{
    if g <= 0 {
        Seq::empty()
    } else if g == 1 {
        decimal_bytes(ip[0])
    } else {
        prefix_text(ip, g - 1) + seq![46u8] + decimal_bytes(ip[g - 1])
    }
}

/// The length of the text of the first `g` octets.
pub open spec fn prefix_len(ip: Seq<u8>, g: int) -> int {
    prefix_text(ip, g).len() as int
}

proof fn lemma_prefix_full(ip: Seq<u8>)
    ensures
        prefix_text(ip, 4) == ipv4_text(ip),
{
    reveal_with_fuel(prefix_text, 5);
    assert(prefix_text(ip, 4) =~= ipv4_text(ip));
}

proof fn lemma_prefix_text_depends(a: Seq<u8>, b: Seq<u8>, g: int)
    requires
        forall|j: int| 0 <= j < g ==> a[j] == b[j],
    ensures
        prefix_text(a, g) == prefix_text(b, g),
    decreases g,
{
    if g > 1 {
        lemma_prefix_text_depends(a, b, g - 1);
    }
}

proof fn lemma_prefix_text_step(ip: Seq<u8>, g: int)
    requires
        0 <= g,
    ensures
        prefix_text(ip, g + 1) == prefix_text(ip, g) + (if g == 0 {
            Seq::<u8>::empty()
        } else {
            seq![46u8]
        }) + decimal_bytes(ip[g]),
{
    if g == 0 {
        assert(prefix_text(ip, 1) =~= Seq::<u8>::empty() + Seq::<u8>::empty() + decimal_bytes(
            ip[0],
        ));
    }
}

/// The whole text begins with the text of its first `g` octets.
proof fn lemma_prefix_in_text(ip: Seq<u8>, g: int)
    requires
        ip.len() == 4,
        1 <= g <= 4,
    ensures
        prefix_len(ip, g) <= ipv4_text(ip).len(),
        ipv4_text(ip).subrange(0, prefix_len(ip, g)) == prefix_text(ip, g),
        g < 4 ==> ipv4_text(ip)[prefix_len(ip, g)] == 46u8,
{
    let t = ipv4_text(ip);
    lemma_prefix_full(ip);
    lemma_prefix_suffix(ip, g);
}

proof fn lemma_prefix_suffix(ip: Seq<u8>, g: int)
    requires
        ip.len() == 4,
        1 <= g <= 4,
    ensures
        prefix_text(ip, 4).len() >= prefix_text(ip, g).len(),
        prefix_text(ip, 4).subrange(0, prefix_len(ip, g)) == prefix_text(ip, g),
        g < 4 ==> prefix_text(ip, 4)[prefix_len(ip, g)] == 46u8,
    decreases 4 - g,
{
    if g < 4 {
        lemma_prefix_suffix(ip, g + 1);
        let p = prefix_text(ip, g);
        let q = prefix_text(ip, g + 1);
        assert(q == p + seq![46u8] + decimal_bytes(ip[g]));
        assert(q.subrange(0, p.len() as int) =~= p);
        assert(prefix_text(ip, 4).subrange(0, q.len() as int) == q);
        assert(prefix_text(ip, 4).subrange(0, p.len() as int) =~= q.subrange(0, p.len() as int));
        assert(prefix_text(ip, 4)[p.len() as int] == prefix_text(ip, 4).subrange(
            0,
            q.len() as int,
        )[p.len() as int]);
    } else {
        assert(prefix_text(ip, 4).subrange(0, prefix_len(ip, 4)) =~= prefix_text(ip, 4));
    }
}

/// In the text of an address, a dot follows the first `g` octets.
proof fn lemma_prefix_dot(ip: Seq<u8>, g: int)
    requires
        ip.len() == 4,
        1 <= g < 4,
    ensures
        prefix_len(ip, g) < ipv4_text(ip).len(),
        ipv4_text(ip)[prefix_len(ip, g)] == 46u8,
{
    lemma_prefix_in_text(ip, g);
    lemma_prefix_in_text(ip, g + 1);
    lemma_decimal_shape(ip[g]);
}

/// In the text of an address, octet `g` is written where the text of the
/// first `g` octets and its dot end.
proof fn lemma_prefix_octet(ip: Seq<u8>, g: int)
    requires
        ip.len() == 4,
        0 <= g < 4,
    ensures
        octet_ends_at(
            ipv4_text(ip),
            if g == 0 {
                0
            } else {
                prefix_len(ip, g) + 1
            },
            prefix_len(ip, g + 1),
            ip[g],
        ),
{
    let t = ipv4_text(ip);
    let start = if g == 0 {
        0
    } else {
        prefix_len(ip, g) + 1
    };
    lemma_prefix_in_text(ip, g + 1);
    lemma_prefix_text_step(ip, g);
    let q = prefix_text(ip, g + 1);
    assert(t.subrange(start, q.len() as int) =~= q.subrange(start, q.len() as int));
    assert(q.subrange(start, q.len() as int) =~= decimal_bytes(ip[g]));
    if g + 1 < 4 {
        lemma_prefix_dot(ip, g + 1);
    }
    if g + 1 == 4 {
        lemma_prefix_full(ip);
    }
}

/// Two addresses with the same text agree on their first `g` octets.
proof fn lemma_ipv4_agree_upto(a: Seq<u8>, b: Seq<u8>, g: int)
    requires
        a.len() == 4,
        b.len() == 4,
        ipv4_text(a) == ipv4_text(b),
        1 <= g <= 4,
    ensures
        forall|j: int| 0 <= j < g ==> a[j] == b[j],
        prefix_len(a, g) == prefix_len(b, g),
    decreases g,
{
    let t = ipv4_text(a);
    let k = g - 1;
    if k > 0 {
        lemma_ipv4_agree_upto(a, b, k);
    }
    lemma_prefix_octet(a, k);
    lemma_prefix_octet(b, k);
    let start = if k == 0 {
        0
    } else {
        prefix_len(a, k) + 1
    };
    lemma_octet_end_unique(t, start, prefix_len(a, g), a[k], prefix_len(b, g), b[k]);
}

/// The text of an IPv4 address determines the address.
pub proof fn lemma_ipv4_text_injective(a: Seq<u8>, b: Seq<u8>)
    requires
        a.len() == 4,
        b.len() == 4,
        ipv4_text(a) == ipv4_text(b),
    ensures
        a == b,
{
    lemma_ipv4_agree_upto(a, b, 4);
    assert(a =~= b);
}

} // verus!
