//! Byte-sequence helpers shared by the parser, the router and the writer:
//! searching for a byte, slicing, trimming ASCII whitespace, and reading or
//! printing decimal numbers.

use vstd::prelude::*;

verus! {

/// Index of the first occurrence of `b` in `s` at or after `from`.
pub open spec fn spec_find(s: Seq<u8>, b: u8, from: int) -> Option<int>
    decreases s.len() - from,
{
    if from < 0 || from >= s.len() {
        None
    } else if s[from] == b {
        Some(from)
    } else {
        spec_find(s, b, from + 1)
    }
}

/// `spec_find` returns exactly the least in-range index holding `b`.
pub proof fn lemma_find_some(s: Seq<u8>, b: u8, from: int, i: int)
    requires
        0 <= from <= i < s.len(),
        s[i] == b,
        forall|j: int| from <= j < i ==> s[j] != b,
    ensures
        spec_find(s, b, from) == Some(i),
    decreases i - from,
{
    if from < i {
        lemma_find_some(s, b, from + 1, i);
    }
}

/// When no in-range index holds `b`, `spec_find` returns `None`.
pub proof fn lemma_find_none(s: Seq<u8>, b: u8, from: int)
    requires
        0 <= from,
        forall|j: int| from <= j < s.len() ==> s[j] != b,
    ensures
        spec_find(s, b, from) == None::<int>,
    decreases s.len() - from,
{
    if from < s.len() {
        lemma_find_none(s, b, from + 1);
    }
}

/// The converse direction: what a `spec_find` result says about `s`.
pub proof fn lemma_find_props(s: Seq<u8>, b: u8, from: int)
    requires
        0 <= from,
    ensures
        match spec_find(s, b, from) {
            Some(i) => from <= i < s.len() && s[i] == b && forall|j: int|
                from <= j < i ==> s[j] != b,
            None => forall|j: int| from <= j < s.len() ==> s[j] != b,
        },
    decreases s.len() - from,
{
    if from < s.len() && s[from] != b {
        lemma_find_props(s, b, from + 1);
    }
}

/// First occurrence of `b` within `v[from..to]`, as an absolute index.
pub fn find_byte(v: &Vec<u8>, b: u8, from: usize, to: usize) -> (r: Option<usize>)
    requires
        from <= to <= v@.len(),
    ensures
        match r {
            Some(i) => from <= i < to && v@[i as int] == b && forall|j: int|
                from <= j < i ==> v@[j] != b,
            None => forall|j: int| from <= j < to ==> v@[j] != b,
        },
{
    let mut i: usize = from;
    while i < to
        invariant
            from <= i <= to <= v@.len(),
            forall|j: int| from <= j < i ==> v@[j] != b,
        decreases to - i,
    {
        if v[i] == b {
            return Some(i);
        }
        i = i + 1;
    }
    None
}

/// Copy of `v[from..to]` as a fresh vector.
pub fn copy_range(v: &Vec<u8>, from: usize, to: usize) -> (r: Vec<u8>)
    requires
        from <= to <= v@.len(),
    ensures
        r@ == v@.subrange(from as int, to as int),
{
    let mut out: Vec<u8> = Vec::new();
    let mut i: usize = from;
    while i < to
        invariant
            from <= i <= to <= v@.len(),
            out@ =~= v@.subrange(from as int, i as int),
        decreases to - i,
    {
        out.push(v[i]);
        assert(out@ =~= v@.subrange(from as int, i + 1));
        i = i + 1;
    }
    out
}

/// Append a copy of `v` to `out`.
pub fn push_all(out: &mut Vec<u8>, v: &Vec<u8>)
    ensures
        final(out)@ == old(out)@ + v@,
{
    let mut i: usize = 0;
    while i < v.len()
        invariant
            i <= v@.len(),
            out@ =~= old(out)@ + v@.subrange(0, i as int),
        decreases v@.len() - i,
    {
        out.push(v[i]);
        assert(out@ =~= old(out)@ + v@.subrange(0, i + 1));
        i = i + 1;
    }
    assert(out@ =~= old(out)@ + v@);
}

/// Byte-string equality, reflected into the views.
pub fn bytes_eq(a: &Vec<u8>, b: &Vec<u8>) -> (r: bool)
    ensures
        r == (a@ == b@),
{
    let r = a == b;
    proof {
        if r {
            assert(a@ =~= b@);
        } else {
            assert(!(a@ =~= b@)) by {
                assert(a@.len() == a.len() && b@.len() == b.len());
            }
        }
    }
    r
}

/// ASCII whitespace, as far as header-value trimming is concerned.
pub open spec fn is_ws(b: u8) -> bool {
    b == 32u8 || b == 9u8 || b == 13u8 || b == 10u8
}

/// `s` with leading ASCII whitespace removed.
pub open spec fn spec_trim_front(s: Seq<u8>) -> Seq<u8>
    decreases s.len(),
{
    if s.len() > 0 && is_ws(s[0]) {
        spec_trim_front(s.drop_first())
    } else {
        s
    }
}

/// `s` with trailing ASCII whitespace removed.
pub open spec fn spec_trim_back(s: Seq<u8>) -> Seq<u8>
    decreases s.len(),
{
    if s.len() > 0 && is_ws(s.last()) {
        spec_trim_back(s.drop_last())
    } else {
        s
    }
}

/// `s` with surrounding ASCII whitespace removed.
pub open spec fn spec_trim(s: Seq<u8>) -> Seq<u8> {
    spec_trim_back(spec_trim_front(s))
}

/// Copy of `v[from..to]` with trailing ASCII whitespace removed.
pub fn trim_back_range(v: &Vec<u8>, from: usize, to: usize) -> (r: Vec<u8>)
    requires
        from <= to <= v@.len(),
    ensures
        r@ == spec_trim_back(v@.subrange(from as int, to as int)),
{
    let ghost s = v@.subrange(from as int, to as int);
    let mut hi: usize = to;
    while hi > from && (v[hi - 1] == 32u8 || v[hi - 1] == 9u8 || v[hi - 1] == 13u8 || v[hi - 1]
        == 10u8)
        invariant
            from <= hi <= to <= v@.len(),
            s == v@.subrange(from as int, to as int),
            spec_trim_back(s) == spec_trim_back(v@.subrange(from as int, hi as int)),
        decreases hi,
    {
        assert(v@.subrange(from as int, hi as int).drop_last() =~= v@.subrange(
            from as int,
            hi - 1,
        ));
        hi = hi - 1;
    }
    assert(spec_trim_back(v@.subrange(from as int, hi as int)) == v@.subrange(
        from as int,
        hi as int,
    ));
    copy_range(v, from, hi)
}

/// Copy of `v[from..to]` with surrounding ASCII whitespace removed.
pub fn trim_range(v: &Vec<u8>, from: usize, to: usize) -> (r: Vec<u8>)
    requires
        from <= to <= v@.len(),
    ensures
        r@ == spec_trim(v@.subrange(from as int, to as int)),
{
    let ghost s = v@.subrange(from as int, to as int);
    let mut lo: usize = from;
    while lo < to && (v[lo] == 32u8 || v[lo] == 9u8 || v[lo] == 13u8 || v[lo] == 10u8)
        invariant
            from <= lo <= to <= v@.len(),
            s == v@.subrange(from as int, to as int),
            spec_trim_front(s) == spec_trim_front(v@.subrange(lo as int, to as int)),
        decreases to - lo,
    {
        assert(v@.subrange(lo as int, to as int).drop_first() =~= v@.subrange(lo + 1, to as int));
        lo = lo + 1;
    }
    assert(spec_trim_front(v@.subrange(lo as int, to as int)) == v@.subrange(lo as int, to as int));
    trim_back_range(v, lo, to)
}

/// An ASCII decimal digit.
pub open spec fn is_digit(b: u8) -> bool {
    48 <= b <= 57
}

pub open spec fn all_digits(s: Seq<u8>) -> bool {
    forall|i: int| 0 <= i < s.len() ==> is_digit(#[trigger] s[i])
}

/// Numeric value of a most-significant-first digit string.
pub open spec fn dec_value(s: Seq<u8>) -> int
    decreases s.len(),
{
    if s.len() == 0 {
        0
    } else {
        dec_value(s.drop_last()) * 10 + (s.last() - 48)
    }
}

pub open spec fn pow10(n: nat) -> int
    decreases n,
{
    if n == 0 {
        1
    } else {
        10 * pow10((n - 1) as nat)
    }
}

/// Leading zeros do not change a digit string's value.
pub proof fn lemma_dec_value_drop_zero(s: Seq<u8>)
    requires
        s.len() > 0,
        s[0] == 48u8,
    ensures
        dec_value(s) == dec_value(s.drop_first()),
    decreases s.len(),
{
    if s.len() == 1 {
        assert(s.drop_first().len() == 0);
        assert(s.last() == s[0]);
        assert(s.drop_last().len() == 0);
        assert(dec_value(s) == dec_value(s.drop_last()) * 10 + (s.last() - 48));
    } else {
        assert(s.drop_last()[0] == 48u8);
        lemma_dec_value_drop_zero(s.drop_last());
        assert(s.drop_last().drop_first() =~= s.drop_first().drop_last());
        assert(s.drop_first().last() == s.last());
        assert(dec_value(s.drop_first()) == dec_value(s.drop_first().drop_last()) * 10 + (
        s.drop_first().last() - 48));
    }
}

/// What `i32::from_str` accepts: an optional sign, then at least one digit,
/// with the value in `i32`'s range.
pub open spec fn spec_parse_i32(s: Seq<u8>) -> Option<int> {
    let mag = if s.len() > 0 && (s[0] == 43u8 || s[0] == 45u8) {
        s.drop_first()
    } else {
        s
    };
    let neg = s.len() > 0 && s[0] == 45u8;
    if mag.len() > 0 && all_digits(mag) {
        let v = if neg {
            -dec_value(mag)
        } else {
            dec_value(mag)
        };
        if -0x8000_0000 <= v <= 0x7fff_ffff {
            Some(v)
        } else {
            None
        }
    } else {
        None
    }
}

/// A digit string that does not start with `0` is at least `10^(len-1)`.
pub proof fn lemma_dec_value_lower(s: Seq<u8>)
    requires
        all_digits(s),
        s.len() > 0,
        s[0] != 48u8,
    ensures
        dec_value(s) >= pow10((s.len() - 1) as nat),
    decreases s.len(),
{
    if s.len() == 1 {
        assert(dec_value(s) == dec_value(s.drop_last()) * 10 + (s.last() - 48));
    } else {
        assert(all_digits(s.drop_last()));
        assert(s.drop_last()[0] == s[0]);
        lemma_dec_value_lower(s.drop_last());
        assert(dec_value(s) == dec_value(s.drop_last()) * 10 + (s.last() - 48));
    }
}

pub proof fn lemma_pow10_pos(n: nat)
    ensures
        pow10(n) >= 1,
    decreases n,
{
    if n > 0 {
        lemma_pow10_pos((n - 1) as nat);
    }
}

pub proof fn lemma_pow10_mono(a: nat, b: nat)
    requires
        a <= b,
    ensures
        1 <= pow10(a) <= pow10(b),
    decreases b,
{
    lemma_pow10_pos(a);
    if a < b {
        lemma_pow10_mono(a, (b - 1) as nat);
    }
}

/// What `i32::from_str` would return on these bytes, executably.
pub fn parse_i32(v: &Vec<u8>) -> (r: Option<i32>)
    ensures
        match r {
            Some(n) => spec_parse_i32(v@) == Some(n as int),
            None => spec_parse_i32(v@) is None,
        },
{
    let n = v.len();
    let mut start: usize = 0;
    let mut neg = false;
    if n > 0 && (v[0] == 43u8 || v[0] == 45u8) {
        start = 1;
        neg = v[0] == 45u8;
    }
    let ghost mag = if start == 1 {
        v@.drop_first()
    } else {
        v@
    };
    proof {
        assert(mag =~= v@.subrange(start as int, n as int));
    }
    if start >= n {
        return None;
    }
    let mut i: usize = start;
    while i < n
        invariant
            start <= i <= n == v@.len(),
            start <= 1,
            start == 1 <==> n > 0 && (v@[0] == 43u8 || v@[0] == 45u8),
            neg <==> n > 0 && v@[0] == 45u8,
            mag == v@.subrange(start as int, n as int),
            forall|j: int| start <= j < i ==> is_digit(#[trigger] v@[j]),
        decreases n - i,
    {
        if v[i] < 48u8 || v[i] > 57u8 {
            proof {
                assert(mag.len() == n - start);
                assert(mag[i - start] == v@[i as int]);
                assert(!is_digit(mag[i - start]));
            }
            return None;
        }
        i = i + 1;
    }
    proof {
        assert(all_digits(mag));
    }
    let mut z: usize = start;
    while z < n && v[z] == 48u8
        invariant
            start <= z <= n == v@.len(),
            start < n,
            start <= 1,
            start == 1 <==> n > 0 && (v@[0] == 43u8 || v@[0] == 45u8),
            neg <==> n > 0 && v@[0] == 45u8,
            mag == v@.subrange(start as int, n as int),
            all_digits(mag),
            dec_value(mag) == dec_value(v@.subrange(z as int, n as int)),
        decreases n - z,
    {
        proof {
            let cur = v@.subrange(z as int, n as int);
            assert(cur[0] == 48u8);
            lemma_dec_value_drop_zero(cur);
            assert(cur.drop_first() =~= v@.subrange(z + 1, n as int));
        }
        z = z + 1;
    }
    let ghost core = v@.subrange(z as int, n as int);
    proof {
        assert(forall|j: int| 0 <= j < core.len() ==> is_digit(#[trigger] core[j]));
    }
    if n - z > 10 {
        proof {
            lemma_dec_value_lower(core);
            lemma_pow10_mono(10, (core.len() - 1) as nat);
            reveal_with_fuel(pow10, 11);
            assert(pow10(10) == 10_000_000_000);
        }
        return None;
    }
    let mut acc: u64 = 0;
    let mut j: usize = z;
    while j < n
        invariant
            start <= z <= n,
            start < n,
            z <= j <= n == v@.len(),
            j - z <= 10,
            n - z <= 10,
            start <= 1,
            start == 1 <==> n > 0 && (v@[0] == 43u8 || v@[0] == 45u8),
            neg <==> n > 0 && v@[0] == 45u8,
            mag == v@.subrange(start as int, n as int),
            all_digits(mag),
            dec_value(mag) == dec_value(core),
            core == v@.subrange(z as int, n as int),
            forall|t: int| 0 <= t < core.len() ==> is_digit(#[trigger] core[t]),
            acc == dec_value(v@.subrange(z as int, j as int)),
            acc < pow10((j - z) as nat),
        decreases n - j,
    {
        proof {
            let pre = v@.subrange(z as int, j as int);
            let post = v@.subrange(z as int, j + 1);
            assert(post.drop_last() =~= pre);
            assert(is_digit(v@[j as int])) by {
                assert(core[j - z] == v@[j as int]);
            }
            assert(pow10((j + 1 - z) as nat) == 10 * pow10((j - z) as nat));
            lemma_pow10_mono((j - z) as nat, 9);
            reveal_with_fuel(pow10, 11);
            assert(pow10(10) == 10_000_000_000);
            assert(pow10(9) == 1_000_000_000);
        }
        acc = acc * 10 + (v[j] - 48) as u64;
        proof {
            assert(v@.subrange(z as int, j + 1).last() == v@[j as int]);
            assert(acc == dec_value(v@.subrange(z as int, j + 1)));
        }
        j = j + 1;
    }
    proof {
        assert(dec_value(mag) == acc);
        lemma_pow10_mono((n - z) as nat, 10);
        reveal_with_fuel(pow10, 11);
        assert(pow10(10) == 10_000_000_000);
    }
    if neg {
        if acc > 2_147_483_648u64 {
            None
        } else {
            Some((-(acc as i64)) as i32)
        }
    } else {
        if acc > 2_147_483_647u64 {
            None
        } else {
            Some(acc as i32)
        }
    }
}

/// Decimal digits of `n`, most significant first, no sign and no leading
/// zero (a single `0` for zero).
pub open spec fn dec_repr(n: nat) -> Seq<u8>
    decreases n,
{
    if n < 10 {
        seq![(48 + n) as u8]
    } else {
        dec_repr(n / 10).push((48 + n % 10) as u8)
    }
}

/// Append the decimal digits of `n` to `out`.
pub fn push_dec(out: &mut Vec<u8>, n: usize)
    ensures
        final(out)@ == old(out)@ + dec_repr(n as nat),
    decreases n,
{
    if n < 10 {
        out.push(48 + n as u8);
        assert(out@ =~= old(out)@ + dec_repr(n as nat));
    } else {
        push_dec(out, n / 10);
        out.push(48 + (n % 10) as u8);
        assert(out@ =~= old(out)@ + dec_repr(n as nat));
    }
}

} // verus!
