use vstd::prelude::*;

verus! {

/// `256^n`, the number of values that `n` bytes can hold.
pub open spec fn pow256(n: nat) -> int
    decreases n,
{
    if n == 0 {
        1
    } else {
        0x100 * pow256((n - 1) as nat)
    }
}

/// The value of the `n` bytes of `s` starting at `off`, read little-endian.
pub open spec fn le_val(s: Seq<u8>, off: int, n: nat) -> int
    decreases n,
{
    if n == 0 {
        0
    } else {
        s[off] + 0x100 * le_val(s, off + 1, (n - 1) as nat)
    }
}

pub proof fn lemma_le_val_bound(s: Seq<u8>, off: int, n: nat)
    requires
        0 <= off,
        off + n <= s.len(),
    ensures
        0 <= le_val(s, off, n) < pow256(n),
    decreases n,
{
    if n > 0 {
        lemma_le_val_bound(s, off + 1, (n - 1) as nat);
    }
}

/// A little-endian value depends only on the bytes it covers: reading it
/// inside a subrange gives the same value as reading it in the whole.
pub proof fn lemma_le_val_subrange(s: Seq<u8>, a: int, b: int, off: int, n: nat)
    requires
        0 <= a <= b <= s.len(),
        0 <= off,
        off + n <= b - a,
    ensures
        le_val(s.subrange(a, b), off, n) == le_val(s, a + off, n),
    decreases n,
{
    if n > 0 {
        lemma_le_val_subrange(s, a, b, off + 1, (n - 1) as nat);
    }
}

/// Reads the `n`-byte little-endian value at `off`, `n` at most 8.
pub fn read_le(data: &Vec<u8>, off: usize, n: usize) -> (r: u64)
    requires
        n <= 8,
        off + n <= data@.len(),
    ensures
        r as int == le_val(data@, off as int, n as nat),
{
    proof {
        reveal_with_fuel(pow256, 9);
    }
    let dlen = data.len();
    let mut r: u64 = 0;
    let mut i: usize = n;
    while i > 0
        invariant
            n <= 8,
            off + n <= data@.len(),
            data@.len() == dlen,
            i <= n,
            r as int == le_val(data@, off + i, (n - i) as nat),
            r < pow256((n - i) as nat),
        decreases i,
    {
        proof {
            reveal_with_fuel(pow256, 9);
            lemma_pow256_le((n - i + 1) as nat, 8);
        }
        i = i - 1;
        r = r * 0x100 + data[off + i] as u64;
    }
    r
}

pub proof fn lemma_pow256_pos(n: nat)
    ensures
        pow256(n) >= 1,
    decreases n,
{
    if n > 0 {
        lemma_pow256_pos((n - 1) as nat);
    }
}

pub proof fn lemma_pow256_le(a: nat, b: nat)
    requires
        a <= b,
    ensures
        pow256(a) <= pow256(b),
    decreases b,
{
    lemma_pow256_pos(a);
    if a < b {
        lemma_pow256_le(a, (b - 1) as nat);
        lemma_pow256_pos((b - 1) as nat);
    }
}

/// Reads the four magic bytes at `off` as one little-endian value.
pub fn read_magic(data: &Vec<u8>, off: usize) -> (r: u32)
    requires
        off + 4 <= data@.len(),
    ensures
        r as int == le_val(data@, off as int, 4),
{
    proof {
        reveal_with_fuel(pow256, 5);
        lemma_le_val_bound(data@, off as int, 4);
    }
    let r = read_le(data, off, 4);
    r as u32
}

/// True when the sequences hold the same bytes.
pub fn bytes_eq(a: &[u8], b: &[u8]) -> (r: bool)
    ensures
        r <==> a@ == b@,
{
    if a.len() != b.len() {
        proof {
            assert(a@.len() != b@.len());
        }
        return false;
    }
    let n = a.len();
    let mut i: usize = 0;
    while i < n
        invariant
            n == a@.len() == b@.len(),
            i <= n,
            forall|j: int| 0 <= j < i ==> a@[j] == b@[j],
        decreases n - i,
    {
        if *vstd::slice::slice_index_get(a, i) != *vstd::slice::slice_index_get(b, i) {
            proof {
                assert(a@[i as int] != b@[i as int]);
            }
            return false;
        }
        i = i + 1;
    }
    proof {
        assert(a@ =~= b@);
    }
    true
}

/// Copies the bytes of `src` in `[start, end)` into a fresh vector.
pub fn copy_range(src: &Vec<u8>, start: usize, end: usize) -> (r: Vec<u8>)
    requires
        start <= end <= src@.len(),
    ensures
        r@ == src@.subrange(start as int, end as int),
{
    let s = vstd::slice::slice_subrange(src.as_slice(), start, end);
    vstd::slice::slice_to_vec(s)
}

/// True for the bytes of the ten digits and of the two hexadecimal letter runs.
pub open spec fn is_hex_digit(c: u8) -> bool {
    (0x30 <= c <= 0x39) || (0x61 <= c <= 0x66) || (0x41 <= c <= 0x46)
}

/// The numeric value of a hexadecimal digit byte.
pub open spec fn hex_digit_val(c: u8) -> int {
    if 0x30 <= c <= 0x39 {
        c - 0x30
    } else if 0x61 <= c <= 0x66 {
        c - 0x61 + 10
    } else if 0x41 <= c <= 0x46 {
        c - 0x41 + 10
    } else {
        0
    }
}

/// The upper-case hexadecimal digit byte for a value below 16.
pub open spec fn hex_digit_upper(v: int) -> u8 {
    if v < 10 {
        (0x30 + v) as u8
    } else {
        (0x41 + (v - 10)) as u8
    }
}

/// The lower-case hexadecimal digit byte for a value below 16.
pub open spec fn hex_digit_lower(v: int) -> u8 {
    if v < 10 {
        (0x30 + v) as u8
    } else {
        (0x61 + (v - 10)) as u8
    }
}

/// True when every byte of `s` is a hexadecimal digit.
pub open spec fn all_hex_digits(s: Seq<u8>) -> bool {
    forall|i: int| 0 <= i < s.len() ==> is_hex_digit(#[trigger] s[i])
}

/// The byte that a pair of hexadecimal digits encodes.
pub open spec fn hex_pair_val(s: Seq<u8>, i: int) -> u8 {
    (16 * hex_digit_val(s[2 * i]) + hex_digit_val(s[2 * i + 1])) as u8
}

fn hex_digit_of(c: u8) -> (r: Option<u8>)
    ensures
        match r {
            Some(v) => is_hex_digit(c) && v as int == hex_digit_val(c),
            None => !is_hex_digit(c),
        },
{
    if 0x30 <= c && c <= 0x39 {
        Some(c - 0x30)
    } else if 0x61 <= c && c <= 0x66 {
        Some(c - 0x61 + 10)
    } else if 0x41 <= c && c <= 0x46 {
        Some(c - 0x41 + 10)
    } else {
        None
    }
}

/// Decodes a run of hexadecimal digit bytes into the bytes it spells.
/// Returns nothing when the run has odd length or holds a non-digit.
pub fn hex_decode(s: &[u8]) -> (r: Option<Vec<u8>>)
    ensures
        match r {
            Some(v) => {
                &&& s@.len() % 2 == 0
                &&& all_hex_digits(s@)
                &&& v@.len() == s@.len() / 2
                &&& forall|i: int| 0 <= i < v@.len() ==> v@[i] == #[trigger] hex_pair_val(s@, i)
            },
            None => s@.len() % 2 != 0 || !all_hex_digits(s@),
        },
{
    if s.len() % 2 != 0 {
        return None;
    }
    let n = s.len() / 2;
    let mut v: Vec<u8> = Vec::new();
    let mut i: usize = 0;
    while i < n
        invariant
            s@.len() == 2 * n,
            s@.len() <= usize::MAX,
            i <= n,
            v@.len() == i,
            forall|j: int| 0 <= j < 2 * i ==> is_hex_digit(#[trigger] s@[j]),
            forall|j: int| 0 <= j < i ==> v@[j] == #[trigger] hex_pair_val(s@, j),
        decreases n - i,
    {
        let hi = hex_digit_of(*vstd::slice::slice_index_get(s, 2 * i));
        let lo = hex_digit_of(*vstd::slice::slice_index_get(s, 2 * i + 1));
        match (hi, lo) {
            (Some(h), Some(l)) => {
                v.push(16 * h + l);
            },
            _ => {
                return None;
            },
        }
        i = i + 1;
    }
    Some(v)
}

/// Encodes bytes as upper-case hexadecimal digit bytes, two per byte.
pub fn hex_encode_upper(b: &[u8]) -> (r: Vec<u8>)
    ensures
        r@.len() == 2 * b@.len(),
        forall|i: int|
            0 <= i < b@.len() ==> r@[2 * i] == hex_digit_upper(#[trigger] b@[i] as int / 16)
                && r@[2 * i + 1] == hex_digit_upper(b@[i] as int % 16),
        forall|i: int| 0 <= i < r@.len() ==> #[trigger] r@[i] < 0x80,
{
    let n = b.len();
    let mut r: Vec<u8> = Vec::new();
    let mut i: usize = 0;
    while i < n
        invariant
            n == b@.len(),
            i <= n,
            r@.len() == 2 * i,
            forall|j: int|
                0 <= j < i ==> r@[2 * j] == hex_digit_upper(#[trigger] b@[j] as int / 16) && r@[2
                    * j + 1] == hex_digit_upper(b@[j] as int % 16),
            forall|j: int| 0 <= j < r@.len() ==> #[trigger] r@[j] < 0x80,
        decreases n - i,
    {
        let c = *vstd::slice::slice_index_get(b, i);
        let hi = c / 16;
        let lo = c % 16;
        if hi < 10 {
            r.push(0x30 + hi);
        } else {
            r.push(0x41 + (hi - 10));
        }
        if lo < 10 {
            r.push(0x30 + lo);
        } else {
            r.push(0x41 + (lo - 10));
        }
        i = i + 1;
    }
    r
}

/// The byte with any lower-case letter raised to its upper-case form.
pub open spec fn ascii_upper(c: u8) -> u8 {
    if 0x61 <= c <= 0x7A {
        (c - 0x20) as u8
    } else {
        c
    }
}

/// Raises every lower-case letter byte to upper case.
pub fn to_ascii_upper(s: &[u8]) -> (r: Vec<u8>)
    ensures
        r@.len() == s@.len(),
        forall|i: int| 0 <= i < s@.len() ==> r@[i] == ascii_upper(#[trigger] s@[i]),
{
    let n = s.len();
    let mut r: Vec<u8> = Vec::new();
    let mut i: usize = 0;
    while i < n
        invariant
            n == s@.len(),
            i <= n,
            r@.len() == i,
            forall|j: int| 0 <= j < i ==> r@[j] == ascii_upper(#[trigger] s@[j]),
        decreases n - i,
    {
        let c = *vstd::slice::slice_index_get(s, i);
        if 0x61 <= c && c <= 0x7A {
            r.push(c - 0x20);
        } else {
            r.push(c);
        }
        i = i + 1;
    }
    r
}

/// The value of `n` hexadecimal digit bytes starting at `off`, most
/// significant digit first.
pub open spec fn hex_val_be(s: Seq<u8>, off: int, n: nat) -> int
    decreases n,
{
    if n == 0 {
        0
    } else {
        16 * hex_val_be(s, off, (n - 1) as nat) + hex_digit_val(s[off + n - 1])
    }
}

proof fn lemma_hex_val_be_bound(s: Seq<u8>, off: int, n: nat)
    ensures
        0 <= hex_val_be(s, off, n) < pow16(n),
    decreases n,
{
    if n > 0 {
        lemma_hex_val_be_bound(s, off, (n - 1) as nat);
        assert(hex_digit_val(s[off + n - 1]) < 16);
    }
}

pub open spec fn pow16(n: nat) -> int
    decreases n,
{
    if n == 0 {
        1
    } else {
        16 * pow16((n - 1) as nat)
    }
}

/// Parses the `n` hexadecimal digit bytes at `off` as one value, most
/// significant digit first; `n` at most 16. Returns nothing when a byte
/// is not a hexadecimal digit.
pub fn parse_hex_be(s: &[u8], off: usize, n: usize) -> (r: Option<u64>)
    requires
        n <= 16,
        off + n <= s@.len(),
    ensures
        match r {
            Some(v) => {
                &&& v as int == hex_val_be(s@, off as int, n as nat)
                &&& forall|i: int| off <= i < off + n ==> is_hex_digit(#[trigger] s@[i])
            },
            None => exists|i: int| off <= i < off + n && !is_hex_digit(#[trigger] s@[i]),
        },
{
    proof {
        reveal_with_fuel(pow16, 17);
    }
    let slen = s.len();
    let mut r: u64 = 0;
    let mut i: usize = 0;
    while i < n
        invariant
            n <= 16,
            off + n <= s@.len(),
            s@.len() == slen,
            i <= n,
            r as int == hex_val_be(s@, off as int, i as nat),
            r < pow16(i as nat),
            forall|j: int| off <= j < off + i ==> is_hex_digit(#[trigger] s@[j]),
        decreases n - i,
    {
        proof {
            reveal_with_fuel(pow16, 17);
            lemma_pow16_le((i + 1) as nat, 16);
        }
        match hex_digit_of(*vstd::slice::slice_index_get(s, off + i)) {
            Some(d) => {
                r = r * 16 + d as u64;
            },
            None => {
                return None;
            },
        }
        i = i + 1;
    }
    Some(r)
}

proof fn lemma_pow16_pos(n: nat)
    ensures
        pow16(n) >= 1,
    decreases n,
{
    if n > 0 {
        lemma_pow16_pos((n - 1) as nat);
    }
}

proof fn lemma_pow16_le(a: nat, b: nat)
    requires
        a <= b,
    ensures
        pow16(a) <= pow16(b),
    decreases b,
{
    lemma_pow16_pos(a);
    if a < b {
        lemma_pow16_le(a, (b - 1) as nat);
        lemma_pow16_pos((b - 1) as nat);
    }
}


/// True for the ASCII whitespace bytes: space and the five controls
/// from tab through carriage return.
pub open spec fn is_ws(c: u8) -> bool {
    c == 0x20 || (0x09 <= c <= 0x0D)
}

/// `s` with leading and trailing whitespace bytes removed.
pub open spec fn trim_spec(s: Seq<u8>) -> Seq<u8>
    decreases s.len(),
{
    if s.len() > 0 && is_ws(s[0]) {
        trim_spec(s.skip(1))
    } else if s.len() > 0 && is_ws(s.last()) {
        trim_spec(s.take(s.len() - 1))
    } else {
        s
    }
}

/// The index of the first `b` in `s`, or the length when there is none.
pub open spec fn find_byte_spec(s: Seq<u8>, b: u8) -> int
    decreases s.len(),
{
    if s.len() == 0 {
        0
    } else if s[0] == b {
        0
    } else {
        1 + find_byte_spec(s.skip(1), b)
    }
}

pub proof fn lemma_find_byte_spec(s: Seq<u8>, b: u8, k: int)
    requires
        0 <= k <= s.len(),
        forall|j: int| 0 <= j < k ==> s[j] != b,
        k == s.len() || s[k] == b,
    ensures
        find_byte_spec(s, b) == k,
    decreases k,
{
    if k > 0 {
        lemma_find_byte_spec(s.skip(1), b, k - 1);
    }
}

pub proof fn lemma_find_byte_facts(s: Seq<u8>, b: u8)
    ensures
        0 <= find_byte_spec(s, b) <= s.len(),
        forall|j: int| 0 <= j < find_byte_spec(s, b) ==> s[j] != b,
        find_byte_spec(s, b) == s.len() || s[find_byte_spec(s, b)] == b,
    decreases s.len(),
{
    if s.len() > 0 && s[0] != b {
        lemma_find_byte_facts(s.skip(1), b);
        let f = find_byte_spec(s, b);
        assert forall|j: int| 0 <= j < f implies s[j] != b by {
            if j > 0 {
                assert(s.skip(1)[j - 1] != b);
            }
        }
    }
}

/// The index of the first `b` in `v` at or after `from`, or `v`'s length
/// when there is none in that range.
pub fn find_byte(v: &[u8], from: usize, b: u8) -> (r: usize)
    requires
        from <= v@.len(),
    ensures
        r - from == find_byte_spec(v@.skip(from as int), b),
        from <= r <= v@.len(),
        forall|j: int| from <= j < r ==> v@[j] != b,
        r == v@.len() || v@[r as int] == b,
{
    let n = v.len();
    let mut i = from;
    while i < n
        invariant
            from <= i <= n,
            n == v@.len(),
            forall|j: int| from <= j < i ==> v@[j] != b,
        decreases n - i,
    {
        if *vstd::slice::slice_index_get(v, i) == b {
            proof {
                lemma_find_byte_spec(v@.skip(from as int), b, i - from);
            }
            return i;
        }
        i = i + 1;
    }
    proof {
        lemma_find_byte_spec(v@.skip(from as int), b, n - from);
    }
    n
}

/// The number of occurrences of `b` in `s`.
pub open spec fn count_byte_spec(s: Seq<u8>, b: u8) -> int
    decreases s.len(),
{
    if s.len() == 0 {
        0
    } else {
        (if s[0] == b {
            1int
        } else {
            0int
        }) + count_byte_spec(s.skip(1), b)
    }
}

pub proof fn lemma_count_byte_split(s: Seq<u8>, b: u8, k: int)
    requires
        0 <= k <= s.len(),
    ensures
        count_byte_spec(s, b) == count_byte_spec(s.take(k), b) + count_byte_spec(s.skip(k), b),
    decreases k,
{
    if k == 0 {
        assert(s.take(0) =~= Seq::<u8>::empty());
        assert(s.skip(0) =~= s);
    } else {
        assert(s.take(k).skip(1) =~= s.skip(1).take(k - 1));
        assert(s.skip(1).skip(k - 1) =~= s.skip(k));
        lemma_count_byte_split(s.skip(1), b, k - 1);
    }
}

/// Counts the occurrences of `b` in `v`.
pub fn count_byte(v: &[u8], b: u8) -> (r: usize)
    ensures
        r == count_byte_spec(v@, b),
{
    let n = v.len();
    let mut i: usize = 0;
    let mut c: usize = 0;
    while i < n
        invariant
            i <= n,
            n == v@.len(),
            c == count_byte_spec(v@.take(i as int), b),
            c <= i,
        decreases n - i,
    {
        proof {
            lemma_count_byte_split(v@.take(i + 1), b, i as int);
            assert(v@.take(i + 1).take(i as int) =~= v@.take(i as int));
            assert(v@.take(i + 1).skip(i as int) =~= seq![v@[i as int]]);
            assert(seq![v@[i as int]].skip(1) =~= Seq::<u8>::empty());
            assert(count_byte_spec(Seq::<u8>::empty(), b) == 0);
            assert(count_byte_spec(seq![v@[i as int]], b) == (if v@[i as int] == b {
                1int
            } else {
                0int
            }) + count_byte_spec(seq![v@[i as int]].skip(1), b));
        }
        if *vstd::slice::slice_index_get(v, i) == b {
            c = c + 1;
        }
        i = i + 1;
    }
    proof {
        assert(v@.take(n as int) =~= v@);
    }
    c
}

fn ws_at(v: &[u8], i: usize) -> (r: bool)
    requires
        i < v@.len(),
    ensures
        r == is_ws(v@[i as int]),
{
    let c = *vstd::slice::slice_index_get(v, i);
    c == 0x20 || (0x09 <= c && c <= 0x0D)
}

/// The bounds of the whitespace-trimmed middle of `v`'s window
/// `[start, end)`: the returned pair cuts that window down to
/// `trim_spec` of it.
pub fn trim_range(v: &[u8], start: usize, end: usize) -> (r: (usize, usize))
    requires
        start <= end <= v@.len(),
    ensures
        start <= r.0 <= r.1 <= end,
        v@.subrange(r.0 as int, r.1 as int) == trim_spec(v@.subrange(start as int, end as int)),
{
    let mut a = start;
    let mut b = end;
    while a < b && ws_at(v, a)
        invariant
            start <= a <= b <= end <= v@.len(),
            trim_spec(v@.subrange(a as int, b as int)) == trim_spec(
                v@.subrange(start as int, end as int),
            ),
        decreases b - a,
    {
        proof {
            let s = v@.subrange(a as int, b as int);
            assert(s.skip(1) =~= v@.subrange(a + 1, b as int));
        }
        a = a + 1;
    }
    while b > a && ws_at(v, b - 1)
        invariant
            start <= a <= b <= end <= v@.len(),
            trim_spec(v@.subrange(a as int, b as int)) == trim_spec(
                v@.subrange(start as int, end as int),
            ),
            a == b || !is_ws(v@[a as int]),
        decreases b,
    {
        proof {
            let s = v@.subrange(a as int, b as int);
            assert(s.take(s.len() - 1) =~= v@.subrange(a as int, b - 1));
        }
        b = b - 1;
    }
    proof {
        let s = v@.subrange(a as int, b as int);
        assert(trim_spec(s) == s);
    }
    (a, b)
}


/// Copies the bytes of `src` in `[start, end)` into a fresh vector.
pub fn copy_slice_range(src: &[u8], start: usize, end: usize) -> (r: Vec<u8>)
    requires
        start <= end <= src@.len(),
    ensures
        r@ == src@.subrange(start as int, end as int),
{
    let s = vstd::slice::slice_subrange(src, start, end);
    vstd::slice::slice_to_vec(s)
}


/// True when `name` begins with `prefix`.
pub fn starts_with(name: &[u8], prefix: &[u8]) -> (r: bool)
    ensures
        r == (name@.len() >= prefix@.len() && name@.take(prefix@.len() as int) == prefix@),
{
    let nl = name.len();
    let pl = prefix.len();
    if nl < pl {
        return false;
    }
    let head = slice_subrange_helper(name, 0, pl);
    bytes_eq(head, prefix)
}

/// True when `name` ends with `suffix`.
pub fn ends_with(name: &[u8], suffix: &[u8]) -> (r: bool)
    ensures
        r == (name@.len() >= suffix@.len() && name@.skip(name@.len() - suffix@.len()) == suffix@),
{
    let nl = name.len();
    let sl = suffix.len();
    if nl < sl {
        return false;
    }
    let tail = slice_subrange_helper(name, nl - sl, nl);
    bytes_eq(tail, suffix)
}

fn slice_subrange_helper<'a>(v: &'a [u8], i: usize, j: usize) -> (r: &'a [u8])
    requires
        i <= j <= v@.len(),
    ensures
        r@ == v@.subrange(i as int, j as int),
{
    vstd::slice::slice_subrange(v, i, j)
}


/// Relies on String::from_utf8: bytes below 0x80 are one-byte UTF-8
/// sequences and decode to the characters with the same code points.
#[verifier::external_body]
pub fn ascii_to_string(v: Vec<u8>) -> (r: String)
    requires
        forall|i: int| 0 <= i < v@.len() ==> v@[i] < 0x80,
    ensures
        r@.len() == v@.len(),
        forall|i: int| 0 <= i < r@.len() ==> r@[i] == (v@[i] as char),
{
    String::from_utf8(v).unwrap()
}


/// Appends the bytes of `s` to `v`.
pub fn extend_from(v: &mut Vec<u8>, s: &[u8])
    ensures
        final(v)@ == old(v)@ + s@,
{
    let n = s.len();
    let mut i: usize = 0;
    while i < n
        invariant
            i <= n,
            n == s@.len(),
            v@ == old(v)@ + s@.take(i as int),
        decreases n - i,
    {
        v.push(*vstd::slice::slice_index_get(s, i));
        proof {
            assert(old(v)@ + s@.take(i as int) + seq![s@[i as int]] =~= old(v)@ + s@.take(i + 1));
        }
        i = i + 1;
    }
    proof {
        assert(s@.take(n as int) =~= s@);
    }
}

} // verus!
