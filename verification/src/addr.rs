//! Socket addresses of nodes, and the text they are written as.
//!
//! The text follows the standard library's `Display` for `SocketAddr`: `a.b.c.d:port`
//! for IPv4; for IPv6 `[ip]:port`, or `[ip%scope]:port` with a scope id, where the address
//! is written `::ffff:a.b.c.d` when it maps an IPv4 address, and otherwise as eight
//! lowercase hex groups with the longest run of two or more zero groups (the first such
//! run on ties) written `::`.

use vstd::prelude::*;
use crate::hexcode::hex_digit;

verus! {

/// An IPv4 or IPv6 socket address.
#[derive(Clone, Copy, Debug, PartialEq, Eq, Hash, Structural)]
#[allow(inconsistent_fields)]
pub enum SockAddr {
    /// IPv4: the address as a big-endian number, and the port.
    V4 { ip: u32, port: u16 },
    /// IPv6: the address as a big-endian number, the port, the flow label and the scope id.
    V6 { ip: u128, port: u16, flowinfo: u32, scope_id: u32 },
}

/// `String::push`: appends one character.
#[verifier::external_body]
fn push_char(s: &mut String, c: char)
    ensures
        final(s)@ == old(s)@.push(c),
{
    s.push(c);
}

/// Decimal digits of `n`, without leading zeros.
pub open spec fn decimal_text(n: nat) -> Seq<char>
    decreases n,
{
    if n < 10 {
        seq![(48 + n) as char]
    } else {
        decimal_text(n / 10).push((48 + n % 10) as char)
    }
}

/// Lowercase hex digits of `n`, without leading zeros.
pub open spec fn hex_group_text(n: nat) -> Seq<char>
    decreases n,
{
    if n < 16 {
        seq![hex_digit(n as int)]
    } else {
        hex_group_text(n / 16).push(hex_digit((n % 16) as int))
    }
}

/// Appends the decimal digits of `n`.
pub fn push_decimal(s: &mut String, n: u64)
    ensures
        final(s)@ == old(s)@ + decimal_text(n as nat),
    decreases n,
{
    if n < 10 {
        push_char(s, ((48u64 + n) as u8) as char);
        assert(final(s)@ =~= old(s)@ + decimal_text(n as nat)) by {
            assert(((48u64 + n) as u8) as char == (48 + n) as char);
        }
    } else {
        push_decimal(s, n / 10);
        let d = n % 10;
        push_char(s, ((48u64 + d) as u8) as char);
        assert(((48u64 + d) as u8) as char == (48 + (n as nat) % 10) as char);
        assert(s@ =~= old(s)@ + decimal_text(n as nat));
    }
}

/// Appends the lowercase hex digits of `n`.
pub fn push_hex_group(s: &mut String, n: u16)
    ensures
        final(s)@ == old(s)@ + hex_group_text(n as nat),
    decreases n,
{
    let d = n % 16;
    let c = if d < 10 {
        ((48u16 + d) as u8) as char
    } else {
        ((87u16 + d) as u8) as char
    };
    assert(c == hex_digit(d as int));
    if n < 16 {
        push_char(s, c);
        assert(s@ =~= old(s)@ + hex_group_text(n as nat));
    } else {
        push_hex_group(s, n / 16);
        push_char(s, c);
        assert(s@ =~= old(s)@ + hex_group_text(n as nat));
    }
}

/// Byte `k` (0 is the most significant) of an IPv4 address.
pub open spec fn v4_octet(ip: u32, k: int) -> u32 {
    (ip >> ((24 - 8 * k) as u32)) & 0xff
}

/// Dotted decimal text of an IPv4 address.
pub open spec fn v4_text(ip: u32) -> Seq<char> {
    decimal_text(v4_octet(ip, 0) as nat) + seq!['.'] + decimal_text(v4_octet(ip, 1) as nat) + seq!['.']
        + decimal_text(v4_octet(ip, 2) as nat) + seq!['.'] + decimal_text(v4_octet(ip, 3) as nat)
}

/// Group `k` (0 is the most significant) of an IPv6 address.
pub open spec fn v6_group(ip: u128, k: int) -> u128 {
    (ip >> ((112 - 16 * k) as u32)) & 0xffff
}

/// The eight groups of an IPv6 address.
pub open spec fn v6_groups(ip: u128) -> Seq<u16> {
    Seq::new(8, |k: int| v6_group(ip, k) as u16)
}

/// Groups written in hex, separated by colons.
pub open spec fn groups_text(g: Seq<u16>) -> Seq<char>
    decreases g.len(),
{
    if g.len() == 0 {
        Seq::empty()
    } else if g.len() == 1 {
        hex_group_text(g[0] as nat)
    } else {
        groups_text(g.drop_last()) + seq![':'] + hex_group_text(g.last() as nat)
    }
}

/// `l` zero groups starting at `s`.
pub open spec fn is_zero_run(g: Seq<u16>, s: int, l: int) -> bool {
    &&& 0 <= s
    &&& 0 < l
    &&& s + l <= g.len()
    &&& forall|j: int| s <= j < s + l ==> g[j] == 0
}

/// The longest run of zero groups, the first one among runs of that length.
pub open spec fn is_longest_zero_run(g: Seq<u16>, s: int, l: int) -> bool {
    &&& is_zero_run(g, s, l)
    &&& forall|s2: int, l2: int| is_zero_run(g, s2, l2) ==> l2 <= l
    &&& forall|s2: int| s2 < s ==> !is_zero_run(g, s2, l)
}

/// An IPv6 address that maps an IPv4 address: five zero groups, then `ffff`.
pub open spec fn is_v4_mapped(g: Seq<u16>) -> bool {
    &&& forall|j: int| 0 <= j < 5 ==> g[j] == 0
    &&& g[5] == 0xffff
}

/// Text of an IPv6 address.
pub open spec fn v6_text(ip: u128) -> Seq<char> {
    let g = v6_groups(ip);
    if is_v4_mapped(g) {
        seq![':', ':', 'f', 'f', 'f', 'f', ':'] + v4_text(((g[6] as u32) << 16u32) | (g[7] as u32))
    } else if exists|s: int, l: int| is_longest_zero_run(g, s, l) && l > 1 {
        let (s, l) = choose|s: int, l: int| is_longest_zero_run(g, s, l) && l > 1;
        groups_text(g.subrange(0, s)) + seq![':', ':'] + groups_text(g.subrange(s + l, 8))
    } else {
        groups_text(g)
    }
}

/// Text of a socket address.
pub open spec fn addr_text(a: SockAddr) -> Seq<char> {
    match a {
        SockAddr::V4 { ip, port } => v4_text(ip) + seq![':'] + decimal_text(port as nat),
        SockAddr::V6 { ip, port, flowinfo: _, scope_id } => {
            let scope = if scope_id == 0 {
                Seq::empty()
            } else {
                seq!['%'] + decimal_text(scope_id as nat)
            };
            seq!['['] + v6_text(ip) + scope + seq![']', ':'] + decimal_text(port as nat)
        },
    }
}

/// There is only one longest zero run.
pub proof fn lemma_longest_zero_run_unique(g: Seq<u16>, s: int, l: int, s2: int, l2: int)
    requires
        is_longest_zero_run(g, s, l),
        is_longest_zero_run(g, s2, l2),
    ensures
        s == s2 && l == l2,
{
    assert(l2 <= l && l <= l2);
    if s2 < s {
        assert(!is_zero_run(g, s2, l));
    }
    if s < s2 {
        assert(!is_zero_run(g, s, l2));
    }
}

/// Appends dotted decimal text of an IPv4 address.
fn push_v4(s: &mut String, ip: u32)
    ensures
        final(s)@ == old(s)@ + v4_text(ip),
{
    push_decimal(s, ((ip >> 24u32) & 0xff) as u64);
    push_char(s, '.');
    push_decimal(s, ((ip >> 16u32) & 0xff) as u64);
    push_char(s, '.');
    push_decimal(s, ((ip >> 8u32) & 0xff) as u64);
    push_char(s, '.');
    push_decimal(s, ((ip >> 0u32) & 0xff) as u64);
    assert(s@ =~= old(s)@ + v4_text(ip));
}

/// Appends groups in hex separated by colons.
fn push_groups(s: &mut String, g: &Vec<u16>, from: usize, to: usize)
    requires
        from <= to <= g@.len(),
    ensures
        final(s)@ == old(s)@ + groups_text(g@.subrange(from as int, to as int)),
{
    let mut i = from;
    while i < to
        invariant
            from <= i <= to <= g@.len(),
            s@ == old(s)@ + groups_text(g@.subrange(from as int, i as int)),
        decreases to - i,
    {
        let ghost before = s@;
        if i > from {
            push_char(s, ':');
        }
        push_hex_group(s, g[i]);
        proof {
            let sub = g@.subrange(from as int, i + 1);
            assert(sub.drop_last() =~= g@.subrange(from as int, i as int));
            if i == from {
                assert(g@.subrange(from as int, i as int) =~= Seq::<u16>::empty());
            }
        }
        i = i + 1;
    }
}

/// The groups of an IPv6 address.
fn groups_of(ip: u128) -> (g: Vec<u16>)
    ensures
        g@ == v6_groups(ip),
{
    let mut g: Vec<u16> = Vec::new();
    let mut k: u32 = 0;
    while k < 8
        invariant
            0 <= k <= 8,
            g@.len() == k,
            forall|j: int| 0 <= j < k ==> g@[j] == v6_group(ip, j) as u16,
        decreases 8 - k,
    {
        let v = (ip >> (112 - 16 * k)) & 0xffff;
        assert(v == v6_group(ip, k as int));
        g.push(v as u16);
        k = k + 1;
    }
    assert(g@ =~= v6_groups(ip));
    g
}

/// Finds the longest run of zero groups (the first on ties), if there is any zero group.
fn longest_zero_run(g: &Vec<u16>) -> (r: (usize, usize))
    requires
        g@.len() == 8,
    ensures
        r.1 == 0 ==> forall|j: int| 0 <= j < 8 ==> g@[j] != 0,
        r.1 > 0 ==> is_longest_zero_run(g@, r.0 as int, r.1 as int),
{
    let mut best_s: usize = 0;
    let mut best_l: usize = 0;
    let mut cur_s: usize = 0;
    let mut cur_l: usize = 0;
    for i in 0..8
        invariant
            g@.len() == 8,
            cur_l <= i,
            cur_s == i - cur_l,
            forall|j: int| cur_s <= j < i ==> g@[j] == 0,
            cur_s > 0 ==> g@[cur_s - 1] != 0,
            best_l == 0 ==> forall|j: int| 0 <= j < i ==> g@[j] != 0,
            best_l > 0 ==> is_zero_run(g@, best_s as int, best_l as int) && best_s + best_l <= i,
            forall|s2: int, l2: int| is_zero_run(g@, s2, l2) && s2 + l2 <= i ==> l2 <= best_l,
            forall|s2: int| is_zero_run(g@, s2, best_l as int) && s2 + best_l <= i ==> s2 >= best_s,
    {
        if g[i] == 0 {
            if cur_l == 0 {
                cur_s = i;
            }
            cur_l = cur_l + 1;
            proof {
                assert forall|s2: int, l2: int| is_zero_run(g@, s2, l2) && s2 + l2 == i + 1 implies l2
                    <= cur_l by {
                    if l2 > cur_l {
                        let j = i - cur_l;
                        assert(s2 <= j && j < s2 + l2);
                        assert(g@[j] == 0);
                        assert(j == cur_s - 1);
                    }
                }
            }
            if cur_l > best_l {
                best_s = cur_s;
                best_l = cur_l;
            }
        } else {
            cur_l = 0;
            cur_s = i + 1;
            proof {
                assert forall|s2: int, l2: int| is_zero_run(g@, s2, l2) implies s2 + l2 != i + 1 by {
                    if s2 + l2 == i + 1 {
                        assert(g@[i as int] == 0);
                    }
                }
            }
        }
    }
    (best_s, best_l)
}

/// Appends the text of an IPv6 address.
fn push_v6(s: &mut String, ip: u128)
    ensures
        final(s)@ == old(s)@ + v6_text(ip),
{
    let g = groups_of(ip);
    let ghost gs = g@;
    if g[0] == 0 && g[1] == 0 && g[2] == 0 && g[3] == 0 && g[4] == 0 && g[5] == 0xffff {
        assert(is_v4_mapped(gs));
        push_char(s, ':');
        push_char(s, ':');
        push_char(s, 'f');
        push_char(s, 'f');
        push_char(s, 'f');
        push_char(s, 'f');
        push_char(s, ':');
        let v4 = ((g[6] as u32) << 16u32) | (g[7] as u32);
        push_v4(s, v4);
        assert(s@ =~= old(s)@ + v6_text(ip));
        return;
    }
    assert(!is_v4_mapped(gs));
    let (zs, zl) = longest_zero_run(&g);
    if zl > 1 {
        proof {
            assert(exists|a: int, b: int| is_longest_zero_run(gs, a, b) && b > 1);
            let (a, b) = choose|a: int, b: int| is_longest_zero_run(gs, a, b) && b > 1;
            lemma_longest_zero_run_unique(gs, zs as int, zl as int, a, b);
        }
        push_groups(s, &g, 0, zs);
        push_char(s, ':');
        push_char(s, ':');
        push_groups(s, &g, zs + zl, 8);
        assert(s@ =~= old(s)@ + v6_text(ip));
    } else {
        proof {
            if exists|a: int, b: int| is_longest_zero_run(gs, a, b) && b > 1 {
                let (a, b) = choose|a: int, b: int| is_longest_zero_run(gs, a, b) && b > 1;
                if zl == 0 {
                    assert(gs[a] == 0);
                } else {
                    lemma_longest_zero_run_unique(gs, zs as int, zl as int, a, b);
                }
            }
        }
        push_groups(s, &g, 0, 8);
        assert(gs.subrange(0, 8) =~= gs);
        assert(s@ =~= old(s)@ + v6_text(ip));
    }
}

impl SockAddr {
    /// The address as text, as `SocketAddr`'s `Display` writes it.
    pub fn to_text(&self) -> (t: String)
        ensures
            t@ == addr_text(*self),
    {
        let mut s = String::new();
        match self {
            SockAddr::V4 { ip, port } => {
                push_v4(&mut s, *ip);
                push_char(&mut s, ':');
                push_decimal(&mut s, *port as u64);
            },
            SockAddr::V6 { ip, port, flowinfo: _, scope_id } => {
                push_char(&mut s, '[');
                push_v6(&mut s, *ip);
                if *scope_id != 0 {
                    push_char(&mut s, '%');
                    push_decimal(&mut s, *scope_id as u64);
                }
                push_char(&mut s, ']');
                push_char(&mut s, ':');
                push_decimal(&mut s, *port as u64);
            },
        }
        assert(s@ =~= addr_text(*self));
        s
    }
}

} // verus!
