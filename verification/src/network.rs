//! Networks in CIDR notation and the addresses they hold.

use crate::text::{
    as_text, ascii_bytes, bounded_number, decimal, is_digit, lemma_decimal_reads_back,
    parse_digits, push_decimal,
};
use vstd::arithmetic::div_mod::{
    lemma_fundamental_div_mod, lemma_fundamental_div_mod_converse, lemma_mod_bound,
    lemma_mod_multiples_basic,
};
use vstd::arithmetic::power2::{
    lemma2_to64, lemma_pow2_adds, lemma_pow2_pos, lemma_pow2_strictly_increases, lemma_pow2_unfold,
    pow2,
};
use vstd::prelude::*;
use vstd::string::*;
use vstd::utf8::is_ascii_chars;

verus! {

/// A text that does not name a network.
#[derive(Clone, Copy, Debug, PartialEq, Eq, Structural)]
pub struct InvalidCidr;

/// Where `c` first stands in `s`; the length of `s` where it does not.
pub open spec fn position(s: Seq<char>, c: char) -> int
    decreases s.len(),
{
    if s.len() == 0 || s[0] == c {
        0
    } else {
        1 + position(s.drop_first(), c)
    }
}

/// What stands before the first `c` in `s` and what stands behind it.
pub open spec fn split(s: Seq<char>, c: char) -> Option<(Seq<char>, Seq<char>)> {
    let p = position(s, c);
    if p < s.len() {
        Some((s.take(p), s.skip(p + 1)))
    } else {
        None
    }
}

/// What `s` denotes as a part of an address: a number of at most `max`
/// in digits, with no zero before it.
pub open spec fn small_number(s: Seq<char>, max: u64) -> Option<u64> {
    if s.len() > 1 && s[0] == '0' {
        None
    } else {
        bounded_number(s, max)
    }
}

/// The address with the four parts `a.b.c.d`.
pub open spec fn address(a: u64, b: u64, c: u64, d: u64) -> u32 {
    (a * 0x100_0000 + b * 0x1_0000 + c * 0x100 + d) as u32
}

/// The IPv4 address that `s` writes: four parts of at most 255 with a dot
/// between them.
pub open spec fn ipv4(s: Seq<char>) -> Option<u32> {
    match split(s, '.') {
        Some((a, r1)) => match split(r1, '.') {
            Some((b, r2)) => match split(r2, '.') {
                Some((c, d)) => match (
                    small_number(a, 255),
                    small_number(b, 255),
                    small_number(c, 255),
                    small_number(d, 255),
                ) {
                    (Some(a), Some(b), Some(c), Some(d)) => Some(address(a, b, c, d)),
                    _ => None,
                },
                None => None,
            },
            None => None,
        },
        None => None,
    }
}

/// The address and the prefix length that `s` writes: an IPv4 address, a
/// slash, and a number of at most 32.
pub open spec fn cidr(s: Seq<char>) -> Option<(u32, u64)> {
    match split(s, '/') {
        Some((a, p)) => match (ipv4(a), small_number(p, 32)) {
            (Some(a), Some(p)) => Some((a, p)),
            _ => None,
        },
        None => None,
    }
}

/// `position` is the least place where `c` stands.
pub proof fn lemma_position(s: Seq<char>, c: char)
    ensures
        0 <= position(s, c) <= s.len(),
        position(s, c) < s.len() ==> s[position(s, c)] == c,
        forall|j: int| 0 <= j < position(s, c) ==> s[j] != c,
    decreases s.len(),
{
    if s.len() == 0 || s[0] == c {
    } else {
        let t = s.drop_first();
        lemma_position(t, c);
        assert forall|j: int| 0 <= j < position(s, c) implies s[j] != c by {
            if j > 0 {
                assert(s[j] == t[j - 1]);
            }
        }
    }
}

/// A place with `c` or the end, and no `c` before it, is `position`.
pub proof fn lemma_position_is(s: Seq<char>, c: char, k: int)
    requires
        0 <= k <= s.len(),
        k < s.len() ==> s[k] == c,
        forall|j: int| 0 <= j < k ==> s[j] != c,
    ensures
        position(s, c) == k,
{
    lemma_position(s, c);
    let p = position(s, c);
    if p < k {
        assert(s[p] != c);
    }
}

/// A text whose parts around the first `c` are ASCII is ASCII.
proof fn lemma_split_is_ascii(s: Seq<char>, c: char)
    requires
        '\0' <= c <= '\u{7f}',
        split(s, c) matches Some((x, y)) && is_ascii_chars(x) && is_ascii_chars(y),
    ensures
        is_ascii_chars(s),
{
    lemma_position(s, c);
    let p = position(s, c);
    let (x, y) = split(s, c)->0;
    assert forall|i: int| 0 <= i < s.len() implies '\0' <= #[trigger] s[i] <= '\u{7f}' by {
        if i < p {
            assert(s[i] == x[i]);
        } else if i > p {
            assert(s[i] == y[i - p - 1]);
        }
    }
}

proof fn lemma_small_number_is_ascii(s: Seq<char>, max: u64)
    requires
        small_number(s, max) is Some,
    ensures
        is_ascii_chars(s),
{
    assert forall|i: int| 0 <= i < s.len() implies '\0' <= #[trigger] s[i] <= '\u{7f}' by {
        assert(is_digit(s[i]));
    }
}

/// A text that `cidr` accepts holds ASCII only.
pub proof fn lemma_cidr_is_ascii(s: Seq<char>)
    requires
        cidr(s) is Some,
    ensures
        is_ascii_chars(s),
{
    let (x, p) = split(s, '/')->0;
    let (a, r1) = split(x, '.')->0;
    let (b, r2) = split(r1, '.')->0;
    let (c, d) = split(r2, '.')->0;
    lemma_small_number_is_ascii(a, 255);
    lemma_small_number_is_ascii(b, 255);
    lemma_small_number_is_ascii(c, 255);
    lemma_small_number_is_ascii(d, 255);
    lemma_small_number_is_ascii(p, 32);
    lemma_split_is_ascii(r2, '.');
    lemma_split_is_ascii(r1, '.');
    lemma_split_is_ascii(x, '.');
    lemma_split_is_ascii(s, '/');
}

/// The first place at `from..to` where `bytes` holds `c`, or `to`.
fn find(bytes: &[u8], from: usize, to: usize, c: u8) -> (r: usize)
    requires
        from <= to <= bytes@.len(),
    ensures
        from <= r <= to,
        r - from == position(as_text(bytes@).subrange(from as int, to as int), c as char),
{
    let ghost s = as_text(bytes@).subrange(from as int, to as int);
    let mut i: usize = from;
    while i < to && bytes[i] != c
        invariant
            from <= i <= to <= bytes@.len(),
            s == as_text(bytes@).subrange(from as int, to as int),
            forall|j: int| 0 <= j < i - from ==> s[j] != c as char,
        decreases to - i,
    {
        assert(s[i - from] == bytes@[i as int] as char);
        i += 1;
    }
    proof {
        if i < to {
            assert(s[i - from] == bytes@[i as int] as char);
        }
        lemma_position_is(s, c as char, i - from);
    }
    i
}

/// Reads the part of an address at `from..to`.
fn parse_small(bytes: &[u8], from: usize, to: usize, max: u64) -> (r: Option<u64>)
    requires
        from <= to <= bytes@.len(),
    ensures
        r == small_number(as_text(bytes@).subrange(from as int, to as int), max),
{
    let ghost s = as_text(bytes@).subrange(from as int, to as int);
    if to - from > 1 && bytes[from] == 48 {
        assert(s[0] == bytes@[from as int] as char);
        None
    } else {
        proof {
            if to - from > 1 {
                assert(s[0] == bytes@[from as int] as char);
            }
        }
        parse_digits(bytes, from, to, max)
    }
}

/// Reads the address at `from..to`.
fn parse_ipv4(bytes: &[u8], from: usize, to: usize) -> (r: Option<u32>)
    requires
        from <= to <= bytes@.len(),
    ensures
        r == ipv4(as_text(bytes@).subrange(from as int, to as int)),
{
    let ghost t = as_text(bytes@);
    let ghost s = t.subrange(from as int, to as int);
    let dot1 = find(bytes, from, to, 46);
    if dot1 == to {
        return None;
    }
    assert(s.take(dot1 - from) =~= t.subrange(from as int, dot1 as int));
    assert(s.skip(dot1 - from + 1) =~= t.subrange(dot1 + 1, to as int));
    let dot2 = find(bytes, dot1 + 1, to, 46);
    if dot2 == to {
        return None;
    }
    let ghost rest1 = t.subrange(dot1 + 1, to as int);
    assert(rest1.take(dot2 - dot1 - 1) =~= t.subrange(dot1 + 1, dot2 as int));
    assert(rest1.skip(dot2 - dot1) =~= t.subrange(dot2 + 1, to as int));
    let dot3 = find(bytes, dot2 + 1, to, 46);
    if dot3 == to {
        return None;
    }
    let ghost rest2 = t.subrange(dot2 + 1, to as int);
    assert(rest2.take(dot3 - dot2 - 1) =~= t.subrange(dot2 + 1, dot3 as int));
    assert(rest2.skip(dot3 - dot2) =~= t.subrange(dot3 + 1, to as int));
    let a = parse_small(bytes, from, dot1, 255);
    let b = parse_small(bytes, dot1 + 1, dot2, 255);
    let c = parse_small(bytes, dot2 + 1, dot3, 255);
    let d = parse_small(bytes, dot3 + 1, to, 255);
    match (a, b, c, d) {
        (Some(a), Some(b), Some(c), Some(d)) => {
            let v: u64 = a * 0x100_0000 + b * 0x1_0000 + c * 0x100 + d;
            Some(v as u32)
        },
        _ => None,
    }
}

/// How many addresses share their first `prefix` bits, for a prefix of at
/// most 32.
pub open spec fn block_size(prefix: u64) -> nat {
    pow2((32 - prefix) as nat)
}

/// The lowest address that shares its first `prefix` bits with `addr`.
pub open spec fn block_start(addr: u32, prefix: u64) -> u32 {
    (addr - (addr as int) % (block_size(prefix) as int)) as u32
}

/// A block of at most 32 bits of prefix has between one and 2^32
/// addresses.
pub proof fn lemma_block_size(prefix: u64)
    requires
        prefix <= 32,
    ensures
        1 <= block_size(prefix) <= 0x1_0000_0000,
        prefix > 0 ==> block_size(prefix) <= 0x8000_0000,
        prefix < 32 ==> block_size(prefix) == 2 * block_size((prefix + 1) as u64),
        block_size(32) == 1,
        pow2(prefix as nat) * block_size(prefix) == 0x1_0000_0000,
{
    lemma2_to64();
    lemma_pow2_pos((32 - prefix) as nat);
    if prefix > 0 {
        if prefix > 1 {
            lemma_pow2_strictly_increases((32 - prefix) as nat, 31);
        }
    }
    if prefix < 32 {
        lemma_pow2_unfold((32 - prefix) as nat);
    }
    lemma_pow2_adds(prefix as nat, (32 - prefix) as nat);
}

/// The prefix length that `cidr` reads is at most 32.
pub proof fn lemma_cidr_prefix(s: Seq<char>)
    requires
        cidr(s) is Some,
    ensures
        cidr(s) matches Some((a, p)) && p <= 32,
{
}

/// The block of `addr` starts at a multiple of its size, holds `addr`, and
/// ends within the 32 bits of an address.
pub proof fn lemma_block_holds_its_address(addr: u32, prefix: u64)
    requires
        prefix <= 32,
    ensures
        (block_start(addr, prefix) as int) % (block_size(prefix) as int) == 0,
        block_start(addr, prefix) <= addr < block_start(addr, prefix) + block_size(prefix),
        block_start(addr, prefix) + block_size(prefix) <= 0x1_0000_0000,
{
    lemma_block_size(prefix);
    let size = block_size(prefix) as int;
    let a = addr as int;
    let q = a / size;
    let m = pow2(prefix as nat) as int;
    lemma_fundamental_div_mod(a, size);
    lemma_mod_bound(a, size);
    lemma_mod_multiples_basic(q, size);
    assert(a - a % size == q * size) by (nonlinear_arith)
        requires
            a == size * q + a % size,
    ;
    assert((q + 1) * size <= m * size) by (nonlinear_arith)
        requires
            size * q <= a,
            a < m * size,
            size >= 1,
    ;
    assert((q + 1) * size == q * size + size) by (nonlinear_arith);
}

/// The addresses that share their first bits with one another.
#[derive(Clone, Copy, Debug, PartialEq, Eq)]
pub struct Ipv4Block {
    first: u32,
    prefix: u8,
    count: u64,
}

impl Ipv4Block {
    #[verifier::type_invariant]
    closed spec fn valid(self) -> bool {
        &&& self.prefix <= 32
        &&& self.count == block_size(self.prefix as u64)
        &&& (self.first as int) % (self.count as int) == 0
        &&& self.first + self.count <= 0x1_0000_0000
    }

    /// The lowest address of the block.
    pub closed spec fn start(self) -> u32 {
        self.first
    }

    /// How many bits the addresses of the block share.
    pub closed spec fn bits(self) -> u64 {
        self.prefix as u64
    }

    /// How many addresses the block holds.
    pub open spec fn size(self) -> nat {
        block_size(self.bits())
    }

    /// The addresses of the block, lowest first.
    pub open spec fn addresses(self) -> Seq<u32> {
        Seq::new(self.size(), |i: int| (self.start() + i) as u32)
    }

    /// What holds of every block: it starts at a multiple of its size and
    /// ends within the 32 bits of an address.
    pub open spec fn wf(self) -> bool {
        &&& self.bits() <= 32
        &&& (self.start() as int) % (self.size() as int) == 0
        &&& self.start() + self.size() <= 0x1_0000_0000
    }

    /// The block of `addr` with `prefix` bits; none for more than 32 bits.
    pub fn new(addr: u32, prefix: u8) -> (r: Option<Ipv4Block>)
        ensures
            r is Some <==> prefix <= 32,
            r matches Some(b) ==> b.start() == block_start(addr, prefix as u64) && b.bits()
                == prefix && b.wf(),
    {
        if prefix > 32 {
            return None;
        }
        let mut count: u64 = 1;
        let mut bits: u8 = 32;
        proof {
            lemma_block_size(32);
        }
        while bits > prefix
            invariant
                prefix <= bits <= 32,
                count == block_size(bits as u64),
            decreases bits,
        {
            proof {
                lemma_block_size(bits as u64);
                lemma_block_size((bits - 1) as u64);
            }
            bits -= 1;
            count = count * 2;
        }
        proof {
            lemma_block_holds_its_address(addr, prefix as u64);
            lemma_block_size(prefix as u64);
        }
        let a: u64 = addr as u64;
        assert(a % count <= a) by (nonlinear_arith)
            requires
                count > 0,
        ;
        let first: u64 = a - a % count;
        Some(Ipv4Block { first: first as u32, prefix, count })
    }

    /// The lowest address.
    pub fn first(&self) -> (a: u32)
        ensures
            a == self.start(),
    {
        self.first
    }

    /// The number of shared bits.
    pub fn prefix(&self) -> (p: u8)
        ensures
            p == self.bits(),
            p <= 32,
    {
        proof {
            use_type_invariant(self);
        }
        self.prefix
    }

    /// The number of addresses, from 1 to 2^32.
    pub fn len(&self) -> (n: u64)
        ensures
            n == self.size(),
            1 <= n <= 0x1_0000_0000,
            self.wf(),
    {
        proof {
            use_type_invariant(self);
            lemma_block_size(self.prefix as u64);
        }
        self.count
    }

    /// The address at place `i`, counted from 0 at the lowest address; none
    /// from `len()` on.
    pub fn nth(&self, i: u64) -> (r: Option<u32>)
        ensures
            r == if i < self.size() {
                Some(self.addresses()[i as int])
            } else {
                None
            },
            i < self.size() ==> self.addresses()[i as int] == self.start() + i,
    {
        proof {
            use_type_invariant(self);
        }
        if i < self.count {
            Some((self.first as u64 + i) as u32)
        } else {
            None
        }
    }

    /// The addresses at the places `from..from + limit`, as far as the
    /// block holds them.
    pub fn list(&self, from: u64, limit: usize) -> (v: Vec<u32>)
        ensures
            v@ == self.addresses().subrange(
                if from < self.size() {
                    from as int
                } else {
                    self.size() as int
                },
                if from + limit < self.size() {
                    from + limit
                } else {
                    self.size() as int
                },
            ),
    {
        let n = self.len();
        let lo: u64 = if from < n {
            from
        } else {
            n
        };
        let hi: u64 = if limit as u64 >= n - lo {
            n
        } else {
            lo + limit as u64
        };
        let mut v: Vec<u32> = Vec::new();
        let mut i: u64 = lo;
        while i < hi
            invariant
                lo <= i <= hi <= n == self.size(),
                v@ == self.addresses().subrange(lo as int, i as int),
            decreases hi - i,
        {
            match self.nth(i) {
                Some(a) => {
                    v.push(a);
                },
                None => {},
            }
            assert(v@ =~= self.addresses().subrange(lo as int, i + 1));
            i += 1;
        }
        v
    }

    /// Whether `addr` is one of the addresses of the block.
    pub fn contains(&self, addr: u32) -> (r: bool)
        ensures
            r == (self.start() <= addr < self.start() + self.size()),
    {
        proof {
            use_type_invariant(self);
        }
        self.first <= addr && ((addr - self.first) as u64) < self.count
    }
}

/// The addresses of a block ascend one by one from its lowest, and they
/// are the addresses that share the block's first bits: those whose own
/// block starts where this one does.
pub proof fn lemma_addresses_in_order(b: Ipv4Block)
    requires
        b.wf(),
    ensures
        b.addresses().len() == b.size(),
        forall|i: int| 0 <= i < b.size() ==> #[trigger] b.addresses()[i] == b.start() + i,
        forall|i: int, j: int|
            0 <= i < j < b.size() ==> #[trigger] b.addresses()[i] < #[trigger] b.addresses()[j],
        forall|a: u32|
            (b.start() <= a < b.start() + b.size()) <==> #[trigger] block_start(a, b.bits())
                == b.start(),
{
    lemma_block_size(b.bits());
    let size = b.size() as int;
    let start = b.start() as int;
    lemma_fundamental_div_mod(start, size);
    assert forall|a: u32|
        (b.start() <= a < b.start() + b.size()) <==> #[trigger] block_start(a, b.bits())
            == b.start() by {
        lemma_block_holds_its_address(a, b.bits());
        if b.start() <= a < b.start() + b.size() {
            let q = start / size;
            assert(a == q * size + (a - start)) by (nonlinear_arith)
                requires
                    start == size * q + start % size,
                    start % size == 0,
            ;
            lemma_fundamental_div_mod_converse(
                a as int,
                size,
                q,
                a - start,
            );
        }
    }
}

/// Reads a network in CIDR notation. The block is that of the address
/// written, whether or not the address is the lowest of its block.
pub fn parse_cidr(s: &str) -> (r: Result<Ipv4Block, InvalidCidr>)
    ensures
        r is Ok <==> cidr(s@) is Some,
        r matches Ok(b) ==> cidr(s@) matches Some((a, p)) && b.start() == block_start(a, p)
            && b.bits() == p && b.wf(),
{
    let bytes = match ascii_bytes(s) {
        Some(bytes) => bytes,
        None => {
            proof {
                if cidr(s@) is Some {
                    lemma_cidr_is_ascii(s@);
                }
            }
            return Err(InvalidCidr);
        },
    };
    let n: usize = bytes.len();
    let slash = find(bytes, 0, n, 47);
    assert(as_text(bytes@).subrange(0, n as int) =~= s@);
    if slash == n {
        return Err(InvalidCidr);
    }
    assert(s@.take(slash as int) =~= s@.subrange(0, slash as int));
    assert(s@.skip(slash + 1) =~= s@.subrange(slash + 1, n as int));
    let addr = parse_ipv4(bytes, 0, slash);
    let prefix = parse_small(bytes, slash + 1, n, 32);
    match (addr, prefix) {
        (Some(a), Some(p)) => match Ipv4Block::new(a, p as u8) {
            Some(b) => Ok(b),
            None => Err(InvalidCidr),
        },
        _ => Err(InvalidCidr),
    }
}

/// An address as text: its four parts in decimal with a dot between them.
pub open spec fn dotted(addr: u32) -> Seq<char> {
    decimal((addr / 0x100_0000) as nat) + "."@ + decimal((addr / 0x1_0000 % 0x100) as nat) + "."@
        + decimal((addr / 0x100 % 0x100) as nat) + "."@ + decimal((addr % 0x100) as nat)
}

/// Writes `addr` as text.
pub fn render_address(addr: u32) -> (r: String)
    ensures
        r@ == dotted(addr),
{
    let mut out = String::new();
    push_decimal(&mut out, (addr / 0x100_0000) as u64);
    out.append(".");
    push_decimal(&mut out, (addr / 0x1_0000 % 0x100) as u64);
    out.append(".");
    push_decimal(&mut out, (addr / 0x100 % 0x100) as u64);
    out.append(".");
    push_decimal(&mut out, (addr % 0x100) as u64);
    assert(out@ =~= dotted(addr));
    out
}

/// Whether `c` stands nowhere in `s`.
pub open spec fn lacks(s: Seq<char>, c: char) -> bool {
    forall|i: int| 0 <= i < s.len() ==> s[i] != c
}

/// `x`, then `c`, then `y`.
pub open spec fn joined(x: Seq<char>, c: char, y: Seq<char>) -> Seq<char> {
    x + seq![c] + y
}

/// What stands before `c` and behind it is what `split` gives back, where
/// `c` does not stand in the first part.
pub proof fn lemma_split_joined(x: Seq<char>, c: char, y: Seq<char>)
    requires
        lacks(x, c),
    ensures
        split(joined(x, c, y), c) == Some((x, y)),
{
    let s = joined(x, c, y);
    lemma_position_is(s, c, x.len() as int);
    assert(s.take(x.len() as int) =~= x);
    assert(s.skip(x.len() as int + 1) =~= y);
}

proof fn lemma_joined_lacks(x: Seq<char>, c: char, y: Seq<char>, d: char)
    requires
        lacks(x, d),
        lacks(y, d),
        c != d,
    ensures
        lacks(joined(x, c, y), d),
{
    let s = joined(x, c, y);
    assert forall|i: int| 0 <= i < s.len() implies s[i] != d by {
        if i < x.len() {
            assert(s[i] == x[i]);
        } else if i > x.len() {
            assert(s[i] == y[i - x.len() - 1]);
        }
    }
}

/// A number of at most `max`, written in decimal, is read back as a part
/// of an address, and holds digits only.
proof fn lemma_part_reads_back(n: nat, max: u64, c: char)
    requires
        n <= max,
        !is_digit(c),
    ensures
        small_number(decimal(n), max) == Some(n as u64),
        lacks(decimal(n), c),
{
    lemma_decimal_reads_back(n);
    assert forall|i: int| 0 <= i < decimal(n).len() implies decimal(n)[i] != c by {
        assert(is_digit(decimal(n)[i]));
    }
}

proof fn lemma_ipv4_of_parts(a: Seq<char>, b: Seq<char>, c: Seq<char>, d: Seq<char>)
    requires
        lacks(a, '.'),
        lacks(b, '.'),
        lacks(c, '.'),
        small_number(a, 255) is Some,
        small_number(b, 255) is Some,
        small_number(c, 255) is Some,
        small_number(d, 255) is Some,
    ensures
        ipv4(joined(a, '.', joined(b, '.', joined(c, '.', d)))) == Some(
            address(
                small_number(a, 255)->0,
                small_number(b, 255)->0,
                small_number(c, 255)->0,
                small_number(d, 255)->0,
            ),
        ),
{
    lemma_split_joined(a, '.', joined(b, '.', joined(c, '.', d)));
    lemma_split_joined(b, '.', joined(c, '.', d));
    lemma_split_joined(c, '.', d);
}

proof fn lemma_address_of_parts(a: u32)
    ensures
        address(
            (a / 0x100_0000) as u64,
            (a / 0x1_0000 % 0x100) as u64,
            (a / 0x100 % 0x100) as u64,
            (a % 0x100) as u64,
        ) == a,
{
}

/// What `render_address` writes, `ipv4` reads back, and there is no slash
/// in it.
pub proof fn lemma_address_reads_back(a: u32)
    ensures
        ipv4(dotted(a)) == Some(a),
        lacks(dotted(a), '/'),
{
    reveal_strlit(".");
    assert("."@ =~= seq!['.']);
    let d3 = decimal((a / 0x100_0000) as nat);
    let d2 = decimal((a / 0x1_0000 % 0x100) as nat);
    let d1 = decimal((a / 0x100 % 0x100) as nat);
    let d0 = decimal((a % 0x100) as nat);
    lemma_part_reads_back((a / 0x100_0000) as nat, 255, '.');
    lemma_part_reads_back((a / 0x1_0000 % 0x100) as nat, 255, '.');
    lemma_part_reads_back((a / 0x100 % 0x100) as nat, 255, '.');
    lemma_part_reads_back((a % 0x100) as nat, 255, '.');
    lemma_part_reads_back((a / 0x100_0000) as nat, 255, '/');
    lemma_part_reads_back((a / 0x1_0000 % 0x100) as nat, 255, '/');
    lemma_part_reads_back((a / 0x100 % 0x100) as nat, 255, '/');
    lemma_part_reads_back((a % 0x100) as nat, 255, '/');
    let whole = joined(d3, '.', joined(d2, '.', joined(d1, '.', d0)));
    assert(whole =~= dotted(a));
    lemma_ipv4_of_parts(d3, d2, d1, d0);
    lemma_address_of_parts(a);
    lemma_joined_lacks(d1, '.', d0, '/');
    lemma_joined_lacks(d2, '.', joined(d1, '.', d0), '/');
    lemma_joined_lacks(d3, '.', joined(d2, '.', joined(d1, '.', d0)), '/');
}

/// An address as `render_address` writes it, a slash and a prefix length
/// in decimal: `cidr` reads back both.
pub proof fn lemma_network_reads_back(a: u32, p: u64)
    requires
        p <= 32,
    ensures
        cidr(dotted(a) + "/"@ + decimal(p as nat)) == Some((a, p)),
{
    reveal_strlit("/");
    assert("/"@ =~= seq!['/']);
    lemma_address_reads_back(a);
    lemma_part_reads_back(p as nat, 32, '.');
    lemma_split_joined(dotted(a), '/', decimal(p as nat));
}

} // verus!
