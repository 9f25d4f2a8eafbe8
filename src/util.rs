//! The Internet checksum (RFC 1071), contiguous byte-run search, and reading
//! the default gateway out of a routing table.
use vstd::prelude::*;
use vstd::arithmetic::div_mod::{lemma_add_mod_noop_right, lemma_fundamental_div_mod, lemma_mod_add_multiples_vanish, lemma_small_mod};
use crate::wire::{be_bytes, lemma_pow256_small, overwrite};

verus! {

/// The modulus of one's-complement 16-bit arithmetic.
pub open spec fn ones_modulus() -> nat {
    0xffff
}

/// The 16-bit word number `i` of `s`: bytes `2i` (high) and `2i + 1` (low); a
/// missing low byte at the end of an odd-length buffer counts as zero.
pub open spec fn word_at(s: Seq<u8>, i: int) -> nat {
    (s[2 * i] * 256 + if 2 * i + 1 < s.len() {
        s[2 * i + 1] as int
    } else {
        0
    }) as nat
}

/// The plain sum of the first `k` words of `s`.
pub open spec fn word_sum_upto(s: Seq<u8>, k: nat) -> nat
    decreases k,
{
    if k == 0 {
        0
    } else {
        word_sum_upto(s, (k - 1) as nat) + word_at(s, k - 1)
    }
}

/// How many 16-bit words `s` is read as.
pub open spec fn word_count(s: Seq<u8>) -> nat {
    ((s.len() + 1) / 2) as nat
}

/// The plain sum of all words of `s`.
pub open spec fn word_sum(s: Seq<u8>) -> nat {
    word_sum_upto(s, word_count(s))
}

/// `n` folded to 16 bits by end-around carry: 0 stays 0, anything else becomes the
/// value in `1..=0xffff` that is congruent to it modulo `0xffff`.
pub open spec fn fold16(n: nat) -> nat {
    if n == 0 {
        0
    } else {
        (((n - 1) as nat) % ones_modulus() + 1) as nat
    }
}

/// The Internet checksum of `s`: the complement of its folded word sum.
pub open spec fn internet_checksum(s: Seq<u8>) -> u16 {
    (0xffff - fold16(word_sum(s))) as u16
}

/// Adding one word to a folded sum and folding the carry back gives the fold of the plain sum.
pub proof fn lemma_fold16_step(n: nat, w: nat)
    requires
        w <= 0xffff,
    ensures
        fold16(n) <= 0xffff,
        fold16(n + w) == if fold16(n) + w > 0xffff {
            fold16(n) + w - 0xffff
        } else {
            fold16(n) + w as int
        },
{
    let m = ones_modulus();
    if n == 0 {
        if w > 0 {
            lemma_small_mod((w - 1) as nat, m);
        }
    } else {
        let f = fold16(n);
        lemma_add_mod_noop_right(w as int, (n - 1) as int, m as int);
        let a = ((n - 1) as nat % m + w) as int;
        assert((n + w - 1) % (m as int) == a % (m as int));
        if a >= m {
            lemma_mod_add_multiples_vanish(a - m, m as int);
            lemma_small_mod((a - m) as nat, m);
        } else {
            lemma_small_mod(a as nat, m);
        }
    }
}

proof fn lemma_word_sum_overwrite(s: Seq<u8>, j: int, c: u16, k: nat)
    requires
        0 <= j,
        2 * j + 2 <= s.len(),
        s[2 * j] == 0,
        s[2 * j + 1] == 0,
        k <= word_count(s),
    ensures
        word_sum_upto(overwrite(s, 2 * j, be_bytes(c as nat, 2)), k) == word_sum_upto(s, k) + if j
            < k {
            c as nat
        } else {
            0
        },
    decreases k,
{
    if k > 0 {
        let t = overwrite(s, 2 * j, be_bytes(c as nat, 2));
        lemma_word_sum_overwrite(s, j, c, (k - 1) as nat);
        if k - 1 == j {
            lemma_pow256_small();
            assert(c as int / 1 == c) by (nonlinear_arith);
            assert(t[2 * j] == (c / 256) as u8);
            assert(t[2 * j + 1] == (c % 256) as u8);
            assert(word_at(t, j) == c);
        } else {
            let i = 2 * (k - 1);
            assert(t[i] == s[i]);
            if i + 1 < s.len() {
                assert(t[i + 1] == s[i + 1]);
            }
            assert(word_at(t, k - 1) == word_at(s, k - 1));
        }
    }
}

/// Writing a header's checksum into its zeroed checksum field (at an even
/// offset) makes the header validate: its checksum becomes zero.
pub proof fn lemma_checksum_validates(s: Seq<u8>, off: int)
    requires
        0 <= off,
        off % 2 == 0,
        off + 2 <= s.len(),
        s[off] == 0,
        s[off + 1] == 0,
    ensures
        internet_checksum(overwrite(s, off, be_bytes(internet_checksum(s) as nat, 2))) == 0,
{
    let c = internet_checksum(s);
    let t = overwrite(s, off, be_bytes(c as nat, 2));
    let j = off / 2;
    assert(off == 2 * j);
    assert(word_count(t) == word_count(s));
    assert(j < word_count(s));
    lemma_word_sum_overwrite(s, j, c, word_count(s));
    let w = word_sum(s);
    let m = ones_modulus() as int;
    let f = fold16(w);
    assert(word_sum(t) == w + c);
    if w == 0 {
        assert(fold16(0xffff) == 0xffff) by {
            lemma_small_mod(0xfffe, 0xffff);
        }
    } else {
        lemma_fundamental_div_mod(w - 1, m);
        let q = (w - 1) / m;
        assert(f == (w - 1) % m + 1);
        assert(w + c - 1 == q * m + (m - 1)) by (nonlinear_arith)
            requires
                w - 1 == m * q + (w - 1) % m,
                f == (w - 1) % m + 1,
                c == m - f,
        ;
        assert((q * m + (m - 1)) % m == m - 1) by (nonlinear_arith)
            requires
                m == 0xffff,
                q >= 0,
        ;
    }
}

/// The Internet checksum (RFC 1071) of `octets`: the buffer is summed as
/// big-endian 16-bit words with end-around carry, an odd trailing byte being
/// the high byte of a zero-padded word, and the sum is complemented.
pub fn checksum(octets: &[u8]) -> (r: u16)
    ensures
        r == internet_checksum(octets@),
{
    let len = octets.len();
    let ghost s = octets@;
    let mut sum: u32 = 0;
    let mut i: usize = 0;
    while len - i >= 2
        invariant
            len == s.len(),
            s == octets@,
            i <= len,
            i % 2 == 0,
            sum <= 0xffff,
            sum == fold16(word_sum_upto(s, (i / 2) as nat)),
        decreases len - i,
    {
        let w: u32 = octets[i] as u32 * 256 + octets[i + 1] as u32;
        proof {
            assert(word_at(s, (i / 2) as int) == w);
            lemma_fold16_step(word_sum_upto(s, (i / 2) as nat), w as nat);
        }
        sum = sum + w;
        if sum > 0xffff {
            sum = sum - 0xffff;
        }
        i = i + 2;
    }
    if i < len {
        let w: u32 = octets[i] as u32 * 256;
        proof {
            assert(word_at(s, (i / 2) as int) == w);
            lemma_fold16_step(word_sum_upto(s, (i / 2) as nat), w as nat);
        }
        sum = sum + w;
        if sum > 0xffff {
            sum = sum - 0xffff;
        }
        assert(i / 2 + 1 == word_count(s));
    } else {
        assert(i / 2 == word_count(s));
    }
    (0xffff - sum) as u16
}

/// Whether `needle` occurs in `hay` as a contiguous run of bytes, at any
/// position including one that ends at the last byte of `hay`.
pub open spec fn has_window(hay: Seq<u8>, needle: Seq<u8>) -> bool {
    exists|i: int|
        0 <= i && i + needle.len() <= hay.len() && #[trigger] hay.subrange(i, i + needle.len())
            == needle
}

/// Search for a contiguous run of bytes.
pub trait Subsequence {
    /// The bytes searched in.
    spec fn searched(&self) -> Seq<u8>;

    fn subsequence(&self, other: &[u8]) -> (r: bool)
        ensures
            r == has_window(self.searched(), other@),
    ;
}

/// Whether the bytes of `hay` from `at` on begin with `needle`.
fn window_matches(hay: &[u8], at: usize, needle: &[u8]) -> (r: bool)
    requires
        at + needle@.len() <= hay@.len(),
    ensures
        r == (hay@.subrange(at as int, at + needle@.len()) == needle@),
{
    let n = hay.len();
    let m = needle.len();
    let mut k: usize = 0;
    while k < m
        invariant
            n == hay@.len(),
            m == needle@.len(),
            at + m <= hay@.len(),
            k <= m,
            forall|t: int| 0 <= t < k ==> hay@[at + t] == needle@[t],
        decreases m - k,
    {
        if hay[at + k] != needle[k] {
            assert(hay@.subrange(at as int, at + m)[k as int] != needle@[k as int]);
            return false;
        }
        k = k + 1;
    }
    assert(hay@.subrange(at as int, at + m) =~= needle@);
    true
}

impl Subsequence for Vec<u8> {
    open spec fn searched(&self) -> Seq<u8> {
        self@
    }

    fn subsequence(&self, other: &[u8]) -> (r: bool) {
        let hay = self.as_slice();
        let n = hay.len();
        let m = other.len();
        if m > n {
            return false;
        }
        if m == 0 {
            assert(self@.subrange(0, 0 + other@.len() as int) =~= other@);
            assert(has_window(self.searched(), other@));
            return true;
        }
        let mut i: usize = 0;
        while i <= n - m
            invariant
                n == hay@.len(),
                hay@ == self@,
                m == other@.len(),
                1 <= m <= n,
                i <= n - m + 1,
                forall|j: int| 0 <= j < i ==> #[trigger] hay@.subrange(j, j + m) != other@,
            decreases n - m + 1 - i,
        {
            if window_matches(hay, i, other) {
                assert(self@.subrange(i as int, i + m) == other@);
                assert(has_window(self.searched(), other@));
                return true;
            }
            i = i + 1;
        }
        false
    }
}

/// The position of the first tab at or after `from` in `s`, or `s.len()` when there is none.
pub open spec fn next_tab(s: Seq<u8>, from: int) -> int
    decreases s.len() - from,
{
    if from >= s.len() {
        s.len() as int
    } else if s[from] == 9 {
        from
    } else {
        next_tab(s, from + 1)
    }
}

/// Tab-separated field number `k` of `line`, counting from the field that starts at `from`.
pub open spec fn field_from(line: Seq<u8>, from: int, k: nat) -> Option<Seq<u8>>
    decreases k,
{
    if k == 0 {
        Some(line.subrange(from, next_tab(line, from)))
    } else if next_tab(line, from) >= line.len() {
        None
    } else {
        field_from(line, next_tab(line, from) + 1, (k - 1) as nat)
    }
}

/// The value of a hexadecimal digit, if `c` is one.
pub open spec fn hex_digit(c: u8) -> Option<nat> {
    if 48 <= c <= 57 {
        Some((c - 48) as nat)
    } else if 65 <= c <= 70 {
        Some((c - 55) as nat)
    } else if 97 <= c <= 102 {
        Some((c - 87) as nat)
    } else {
        None
    }
}

/// Whether every byte of `s` is a hexadecimal digit.
pub open spec fn all_hex(s: Seq<u8>) -> bool {
    forall|i: int| 0 <= i < s.len() ==> (#[trigger] hex_digit(s[i])) is Some
}

/// The number the hexadecimal digits `s` spell.
pub open spec fn hex_value(s: Seq<u8>) -> nat
    decreases s.len(),
{
    if s.len() == 0 {
        0
    } else {
        (hex_value(s.drop_last()) * 16 + hex_digit(s.last()).unwrap()) as nat
    }
}

/// A 32-bit number with its four bytes in reverse order.
pub open spec fn byte_swapped(v: nat) -> nat {
    (v % 256) * 0x100_0000 + ((v / 256) % 256) * 0x1_0000 + ((v / 0x1_0000) % 256) * 256 + (v
        / 0x100_0000) % 256
}

/// The gateway a routing table line names for interface `iface`: its first
/// field is the interface, and its third field, eight or fewer hexadecimal
/// digits other than `00000000`, is the gateway as the kernel prints it (the
/// address's network-order bytes read as a little-endian number).
pub open spec fn route_gateway(line: Seq<u8>, iface: Seq<u8>) -> Option<u32> {
    match (field_from(line, 0, 0), field_from(line, 0, 2)) {
        (Some(name), Some(g)) => if name == iface && g != seq![48u8, 48, 48, 48, 48, 48, 48, 48]
            && 1 <= g.len() <= 8 && all_hex(g) {
            Some(byte_swapped(hex_value(g)) as u32)
        } else {
            None
        },
        _ => None,
    }
}

/// The gateway of `iface` in the first `n` lines of a routing table, the
/// first line being the column titles: the last line that names one wins.
pub open spec fn gateway_in(lines: Seq<Vec<u8>>, iface: Seq<u8>, n: nat) -> Option<u32>
    decreases n,
{
    if n <= 1 {
        None
    } else {
        match route_gateway(lines[n - 1]@, iface) {
            Some(g) => Some(g),
            None => gateway_in(lines, iface, (n - 1) as nat),
        }
    }
}

/// The position of the first tab at or after `from` in `s`, or its length.
fn find_tab(s: &[u8], from: usize) -> (r: usize)
    requires
        from <= s@.len(),
    ensures
        r == next_tab(s@, from as int),
        from <= r <= s@.len(),
{
    let n = s.len();
    let mut i = from;
    while i < n && s[i] != 9
        invariant
            n == s@.len(),
            from <= i <= n,
            next_tab(s@, from as int) == next_tab(s@, i as int),
        decreases n - i,
    {
        i = i + 1;
    }
    i
}

/// Whether `s[start..end]` holds exactly the bytes of `t`.
fn same_bytes(s: &[u8], start: usize, end: usize, t: &[u8]) -> (r: bool)
    requires
        start <= end <= s@.len(),
    ensures
        r == (s@.subrange(start as int, end as int) == t@),
{
    if end - start != t.len() {
        return false;
    }
    window_matches(s, start, t)
}

/// The number the hexadecimal digits `s[start..end]` spell, when they are all
/// digits and at most eight of them.
fn parse_hex(s: &[u8], start: usize, end: usize) -> (r: Option<u32>)
    requires
        start <= end <= s@.len(),
    ensures
        match r {
            Some(v) => all_hex(s@.subrange(start as int, end as int)) && end - start <= 8 && v
                == hex_value(s@.subrange(start as int, end as int)),
            None => !(all_hex(s@.subrange(start as int, end as int)) && end - start <= 8),
        },
{
    if end - start > 8 {
        return None;
    }
    let ghost t = s@.subrange(start as int, end as int);
    let mut v: u64 = 0;
    let mut i = start;
    assert(s@.subrange(start as int, start as int) =~= Seq::<u8>::empty());
    while i < end
        invariant
            start <= i <= end <= s@.len(),
            end - start <= 8,
            t == s@.subrange(start as int, end as int),
            all_hex(s@.subrange(start as int, i as int)),
            v == hex_value(s@.subrange(start as int, i as int)),
            v < pow16((i - start) as nat),
        decreases end - i,
    {
        let c = s[i];
        let d: u64 = if 48 <= c && c <= 57 {
            (c - 48) as u64
        } else if 65 <= c && c <= 70 {
            (c - 55) as u64
        } else if 97 <= c && c <= 102 {
            (c - 87) as u64
        } else {
            assert(!all_hex(t)) by {
                assert(t[(i - start) as int] == c);
                assert(hex_digit(c) is None);
                assert(hex_digit(t[(i - start) as int]) is None);
            }
            return None;
        };
        proof {
            let p = s@.subrange(start as int, i + 1);
            assert(p.drop_last() =~= s@.subrange(start as int, i as int));
            assert(pow16((i + 1 - start) as nat) == 16 * pow16((i - start) as nat));
            lemma_pow16_bound((i - start) as nat);
        }
        v = v * 16 + d;
        i = i + 1;
    }
    proof {
        lemma_pow16_bound((end - start) as nat);
    }
    Some(v as u32)
}

/// 16 raised to `n`.
pub open spec fn pow16(n: nat) -> nat
    decreases n,
{
    if n == 0 {
        1
    } else {
        16 * pow16((n - 1) as nat)
    }
}

proof fn lemma_pow16_bound(n: nat)
    requires
        n <= 8,
    ensures
        pow16(n) <= 0x1_0000_0000,
{
    assert(pow16(0) == 1);
    assert(pow16(1) == 0x10);
    assert(pow16(2) == 0x100);
    assert(pow16(3) == 0x1000);
    assert(pow16(4) == 0x1_0000);
    assert(pow16(5) == 0x10_0000);
    assert(pow16(6) == 0x100_0000);
    assert(pow16(7) == 0x1000_0000);
    assert(pow16(8) == 0x1_0000_0000);
}

/// The gateway one routing table line names for `iface`.
fn line_gateway(line: &[u8], iface: &[u8]) -> (r: Option<u32>)
    ensures
        r == route_gateway(line@, iface@),
{
    let n = line.len();
    let t0 = find_tab(line, 0);
    if t0 >= n {
        return None;
    }
    let t1 = find_tab(line, t0 + 1);
    if t1 >= n {
        return None;
    }
    let t2 = find_tab(line, t1 + 1);
    proof {
        assert(field_from(line@, 0, 2) == field_from(line@, t0 + 1, 1));
        assert(field_from(line@, t0 + 1, 1) == field_from(line@, t1 + 1, 0));
    }
    if !same_bytes(line, 0, t0, iface) {
        return None;
    }
    let zeros: [u8; 8] = [48, 48, 48, 48, 48, 48, 48, 48];
    assert(zeros@ =~= seq![48u8, 48, 48, 48, 48, 48, 48, 48]);
    if same_bytes(line, t1 + 1, t2, &zeros) {
        return None;
    }
    if t2 == t1 + 1 {
        return None;
    }
    match parse_hex(line, t1 + 1, t2) {
        Some(v) => {
            let a = (v % 256) as u64 * 0x100_0000 + ((v / 256) % 256) as u64 * 0x1_0000 + ((v
                / 0x1_0000) % 256) as u64 * 256 + ((v / 0x100_0000) % 256) as u64;
            Some(a as u32)
        },
        None => None,
    }
}

/// The default gateway of interface `iface` in a routing table given line by
/// line, column titles first (as in `/proc/net/route`); `None` when no line
/// names a non-zero gateway for it.
pub fn gateway_from_routes(lines: &Vec<Vec<u8>>, iface: &[u8]) -> (r: Option<u32>)
    ensures
        r == gateway_in(lines@, iface@, lines@.len()),
{
    let n = lines.len();
    let mut result: Option<u32> = None;
    if n == 0 {
        return None;
    }
    let mut i: usize = 1;
    while i < n
        invariant
            n == lines@.len(),
            1 <= i <= n,
            result == gateway_in(lines@, iface@, i as nat),
        decreases n - i,
    {
        match line_gateway(&lines[i], iface) {
            Some(g) => {
                result = Some(g);
            },
            None => {},
        }
        i = i + 1;
    }
    result
}

} // verus!
