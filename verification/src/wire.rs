//! Byte-level helpers shared by the request parser and the response
//! serializer: searching for separators, slicing, trimming, case folding,
//! and decimal numbers as they appear on the wire.

use vstd::prelude::*;

verus! {

broadcast use vstd::group_vstd_default;

/// Space or horizontal tab, the whitespace trimmed from header values.
pub open spec fn is_ws(b: u8) -> bool {
    b == 32 || b == 9
}

/// An ASCII decimal digit.
pub open spec fn is_digit(b: u8) -> bool {
    48 <= b <= 57
}

/// ASCII lower-casing of a single byte; other bytes are unchanged.
pub open spec fn lower(b: u8) -> u8 {
    if 65 <= b <= 90 {
        (b + 32) as u8
    } else {
        b
    }
}

/// Case-insensitive equality of two byte strings (ASCII folding only).
pub open spec fn name_eq_ci(a: Seq<u8>, b: Seq<u8>) -> bool {
    a.len() == b.len() && (forall|i: int| 0 <= i < a.len() ==> lower(a[i]) == lower(b[i]))
}

/// A CR LF pair starts at index `i` of `s`.
pub open spec fn crlf_at(s: Seq<u8>, i: int) -> bool {
    0 <= i && i + 1 < s.len() && s[i] == 13 && s[i + 1] == 10
}

/// Index of the first CR LF pair in `s`, or -1 if there is none.
pub open spec fn find_crlf(s: Seq<u8>) -> int
    decreases s.len(),
{
    if s.len() < 2 {
        -1
    } else if s[0] == 13 && s[1] == 10 {
        0
    } else {
        let r = find_crlf(s.skip(1));
        if r == -1 {
            -1
        } else {
            r + 1
        }
    }
}

pub proof fn lemma_find_crlf(s: Seq<u8>)
    ensures
        find_crlf(s) >= -1,
        find_crlf(s) == -1 ==> forall|i: int| !crlf_at(s, i),
        find_crlf(s) >= 0 ==> crlf_at(s, find_crlf(s)),
        find_crlf(s) >= 0 ==> forall|i: int| 0 <= i < find_crlf(s) ==> !crlf_at(s, i),
        find_crlf(s) >= 0 ==> find_crlf(s) + 2 <= s.len(),
    decreases s.len(),
{
    if s.len() < 2 {
    } else if s[0] == 13 && s[1] == 10 {
    } else {
        let t = s.skip(1);
        lemma_find_crlf(t);
        let r = find_crlf(t);
        if r == -1 {
            assert forall|i: int| !crlf_at(s, i) by {
                if crlf_at(s, i) && i >= 1 {
                    assert(t[i - 1] == s[i]);
                    assert(t[i] == s[i + 1]);
                    assert(crlf_at(t, i - 1));
                }
            }
        } else {
            assert(t[r] == s[r + 1]);
            assert(t[r + 1] == s[r + 2]);
            assert(crlf_at(s, r + 1));
            assert forall|i: int| 0 <= i < r + 1 implies !crlf_at(s, i) by {
                if crlf_at(s, i) && i >= 1 {
                    assert(t[i - 1] == s[i]);
                    assert(t[i] == s[i + 1]);
                    assert(crlf_at(t, i - 1));
                }
            }
        }
    }
}

/// Index of the first occurrence of `b` in `s`, or -1 if there is none.
pub open spec fn find_byte(s: Seq<u8>, b: u8) -> int
    decreases s.len(),
{
    if s.len() == 0 {
        -1
    } else if s[0] == b {
        0
    } else {
        let r = find_byte(s.skip(1), b);
        if r == -1 {
            -1
        } else {
            r + 1
        }
    }
}

pub proof fn lemma_find_byte(s: Seq<u8>, b: u8)
    ensures
        find_byte(s, b) >= -1,
        find_byte(s, b) == -1 ==> forall|i: int| 0 <= i < s.len() ==> s[i] != b,
        find_byte(s, b) >= 0 ==> find_byte(s, b) < s.len() && s[find_byte(s, b)] == b,
        find_byte(s, b) >= 0 ==> forall|i: int| 0 <= i < find_byte(s, b) ==> s[i] != b,
    decreases s.len(),
{
    if s.len() == 0 {
    } else if s[0] == b {
    } else {
        let t = s.skip(1);
        lemma_find_byte(t, b);
        let r = find_byte(t, b);
        if r == -1 {
            assert forall|i: int| 0 <= i < s.len() implies s[i] != b by {
                if i >= 1 {
                    assert(t[i - 1] == s[i]);
                }
            }
        } else {
            assert(t[r] == s[r + 1]);
            assert forall|i: int| 0 <= i < r + 1 implies s[i] != b by {
                if i >= 1 {
                    assert(t[i - 1] == s[i]);
                }
            }
        }
    }
}

/// First CR LF at or after `from`, reported as an absolute index.
pub fn find_crlf_in(s: &[u8], from: usize) -> (r: Option<usize>)
    requires
        from <= s@.len(),
    ensures
        match r {
            Some(i) => from <= i && i as int == from + find_crlf(s@.skip(from as int)),
            None => find_crlf(s@.skip(from as int)) == -1,
        },
{
    let ghost sub = s@.skip(from as int);
    proof {
        lemma_find_crlf(sub);
        assert(forall|j: int| 0 <= j < sub.len() ==> sub[j] == s@[from + j]);
    }
    let mut i: usize = from;
    loop
        invariant
            from <= i <= s@.len(),
            sub == s@.skip(from as int),
            forall|j: int| 0 <= j < i - from ==> !crlf_at(sub, j),
        decreases s@.len() - i,
    {
        if s.len() - i < 2 {
            proof {
                lemma_find_crlf(sub);
                assert forall|j: int| !crlf_at(sub, j) by {
                    if crlf_at(sub, j) {
                        assert(j + 1 < sub.len());
                        assert(j >= i - from);
                    }
                }
            }
            return None;
        }
        if s[i] == 13 && s[i + 1] == 10 {
            proof {
                lemma_find_crlf(sub);
                assert(sub[i - from] == s@[i as int]);
                assert(sub[i - from + 1] == s@[i + 1]);
                assert(crlf_at(sub, i - from));
            }
            return Some(i);
        }
        proof {
            assert(sub[i - from] == s@[i as int]);
            assert(sub[i - from + 1] == s@[i + 1]);
        }
        i = i + 1;
    }
}

/// First occurrence of `b` within `s[from..to]`, as an absolute index.
pub fn find_byte_in(s: &[u8], from: usize, to: usize, b: u8) -> (r: Option<usize>)
    requires
        from <= to <= s@.len(),
    ensures
        match r {
            Some(i) => from <= i && i < to && i as int == from + find_byte(
                s@.subrange(from as int, to as int),
                b,
            ),
            None => find_byte(s@.subrange(from as int, to as int), b) == -1,
        },
{
    let ghost sub = s@.subrange(from as int, to as int);
    proof {
        lemma_find_byte(sub, b);
        assert(forall|j: int| 0 <= j < sub.len() ==> sub[j] == s@[from + j]);
    }
    let mut i: usize = from;
    while i < to
        invariant
            from <= i <= to <= s@.len(),
            sub == s@.subrange(from as int, to as int),
            forall|j: int| 0 <= j < i - from ==> sub[j] != b,
        decreases to - i,
    {
        if s[i] == b {
            proof {
                lemma_find_byte(sub, b);
                assert(sub[i - from] == s@[i as int]);
            }
            return Some(i);
        }
        proof {
            assert(sub[i - from] == s@[i as int]);
        }
        i = i + 1;
    }
    None
}

/// Copies `s[a..b]` into a fresh vector.
pub fn copy_range(s: &[u8], a: usize, b: usize) -> (v: Vec<u8>)
    requires
        a <= b <= s@.len(),
    ensures
        v@ == s@.subrange(a as int, b as int),
{
    let mut v: Vec<u8> = Vec::new();
    let mut i: usize = a;
    while i < b
        invariant
            a <= i <= b <= s@.len(),
            v@ == s@.subrange(a as int, i as int),
        decreases b - i,
    {
        v.push(s[i]);
        proof {
            assert(v@ =~= s@.subrange(a as int, i + 1));
        }
        i = i + 1;
    }
    v
}

/// Appends `s[a..b]` to `out`.
pub fn append_range(out: &mut Vec<u8>, s: &[u8], a: usize, b: usize)
    requires
        a <= b <= s@.len(),
    ensures
        final(out)@ == old(out)@ + s@.subrange(a as int, b as int),
{
    let ghost base = out@;
    let mut i: usize = a;
    while i < b
        invariant
            a <= i <= b <= s@.len(),
            out@ == base + s@.subrange(a as int, i as int),
        decreases b - i,
    {
        out.push(s[i]);
        proof {
            assert(out@ =~= base + s@.subrange(a as int, i + 1));
        }
        i = i + 1;
    }
    proof {
        if a == b {
            assert(out@ =~= base + s@.subrange(a as int, b as int));
        }
    }
}

/// Exact equality of two byte strings.
pub fn bytes_eq(a: &[u8], b: &[u8]) -> (r: bool)
    ensures
        r == (a@ == b@),
{
    if a.len() != b.len() {
        return false;
    }
    let mut i: usize = 0;
    while i < a.len()
        invariant
            i <= a@.len(),
            a@.len() == b@.len(),
            forall|j: int| 0 <= j < i ==> a@[j] == b@[j],
        decreases a@.len() - i,
    {
        if a[i] != b[i] {
            return false;
        }
        i = i + 1;
    }
    proof {
        assert(a@ =~= b@);
    }
    true
}

/// Case-insensitive equality of two byte strings.
pub fn bytes_eq_ci(a: &[u8], b: &[u8]) -> (r: bool)
    ensures
        r == name_eq_ci(a@, b@),
{
    if a.len() != b.len() {
        return false;
    }
    let mut i: usize = 0;
    while i < a.len()
        invariant
            i <= a@.len(),
            a@.len() == b@.len(),
            forall|j: int| 0 <= j < i ==> lower(a@[j]) == lower(b@[j]),
        decreases a@.len() - i,
    {
        let ca = a[i];
        let cb = b[i];
        let la: u8 = if 65 <= ca && ca <= 90 {
            ca + 32
        } else {
            ca
        };
        let lb: u8 = if 65 <= cb && cb <= 90 {
            cb + 32
        } else {
            cb
        };
        if la != lb {
            return false;
        }
        i = i + 1;
    }
    true
}

/// `s` with leading whitespace removed.
pub open spec fn trim_front(s: Seq<u8>) -> Seq<u8>
    decreases s.len(),
{
    if s.len() > 0 && is_ws(s[0]) {
        trim_front(s.skip(1))
    } else {
        s
    }
}

/// `s` with trailing whitespace removed.
pub open spec fn trim_back(s: Seq<u8>) -> Seq<u8>
    decreases s.len(),
{
    if s.len() > 0 && is_ws(s.last()) {
        trim_back(s.drop_last())
    } else {
        s
    }
}

/// `s` with leading and trailing whitespace removed.
pub open spec fn trim(s: Seq<u8>) -> Seq<u8> {
    trim_back(trim_front(s))
}

/// Copies `s[a..b]`, trimmed of leading and trailing whitespace.
pub fn trim_range(s: &[u8], a: usize, b: usize) -> (v: Vec<u8>)
    requires
        a <= b <= s@.len(),
    ensures
        v@ == trim(s@.subrange(a as int, b as int)),
{
    let ghost orig = s@.subrange(a as int, b as int);
    let mut lo: usize = a;
    while lo < b && (s[lo] == 32 || s[lo] == 9)
        invariant
            a <= lo <= b <= s@.len(),
            trim_front(orig) == trim_front(s@.subrange(lo as int, b as int)),
        decreases b - lo,
    {
        proof {
            let cur = s@.subrange(lo as int, b as int);
            assert(cur[0] == s@[lo as int]);
            assert(cur.skip(1) =~= s@.subrange(lo + 1, b as int));
        }
        lo = lo + 1;
    }
    proof {
        let cur = s@.subrange(lo as int, b as int);
        if lo < b {
            assert(cur[0] == s@[lo as int]);
        }
        assert(trim_front(orig) == cur);
    }
    let mut hi: usize = b;
    while hi > lo && (s[hi - 1] == 32 || s[hi - 1] == 9)
        invariant
            a <= lo <= hi <= b <= s@.len(),
            trim_front(orig) == s@.subrange(lo as int, b as int),
            trim_back(s@.subrange(lo as int, b as int)) == trim_back(
                s@.subrange(lo as int, hi as int),
            ),
        decreases hi,
    {
        proof {
            let cur = s@.subrange(lo as int, hi as int);
            assert(cur.last() == s@[hi - 1]);
            assert(cur.drop_last() =~= s@.subrange(lo as int, hi - 1));
        }
        hi = hi - 1;
    }
    proof {
        let cur = s@.subrange(lo as int, hi as int);
        if hi > lo {
            assert(cur.last() == s@[hi - 1]);
        }
        assert(trim_back(cur) == cur);
    }
    copy_range(s, lo, hi)
}

/// Value of a string of decimal digits, most significant first.
pub open spec fn dec_val(s: Seq<u8>) -> nat
    decreases s.len(),
{
    if s.len() == 0 {
        0
    } else {
        dec_val(s.drop_last()) * 10 + ((s.last() - 48) as nat)
    }
}

/// Decimal representation of `n` in ASCII, without leading zeros.
pub open spec fn dec_rep(n: nat) -> Seq<u8>
    decreases n,
{
    if n < 10 {
        seq![(48 + n) as u8]
    } else {
        dec_rep(n / 10).push((48 + n % 10) as u8)
    }
}

pub proof fn lemma_dec_val_mono(s: Seq<u8>, i: int)
    requires
        all_digits(s),
        0 <= i <= s.len(),
    ensures
        dec_val(s.take(i)) <= dec_val(s),
    decreases s.len() - i,
{
    if i == s.len() {
        assert(s.take(i) =~= s);
    } else {
        let a = s.take(i);
        let c = s.take(i + 1);
        assert(c.drop_last() =~= a);
        assert(c.last() == s[i]);
        lemma_dec_val_mono(s, i + 1);
    }
}

/// Every byte of `s` is a decimal digit.
pub open spec fn all_digits(s: Seq<u8>) -> bool {
    forall|i: int| 0 <= i < s.len() ==> is_digit(s[i])
}

/// Builds the decimal representation of `n`.
pub fn dec_bytes(n: usize) -> (v: Vec<u8>)
    ensures
        v@ == dec_rep(n as nat),
    decreases n,
{
    if n < 10 {
        let mut v: Vec<u8> = Vec::new();
        v.push(48 + (n as u8));
        proof {
            assert(v@ =~= dec_rep(n as nat));
        }
        v
    } else {
        let mut v = dec_bytes(n / 10);
        let d: usize = n % 10;
        v.push(48 + (d as u8));
        v
    }
}

/// Reads a decimal number; `None` if `s` is empty, holds a non-digit, or
/// does not fit in `usize`.
pub fn parse_dec(s: &[u8]) -> (r: Option<usize>)
    ensures
        match r {
            Some(n) => s@.len() > 0 && all_digits(s@) && dec_val(s@) == n as nat,
            None => s@.len() == 0 || !all_digits(s@) || dec_val(s@) > usize::MAX as nat,
        },
{
    if s.len() == 0 {
        return None;
    }
    let mut acc: usize = 0;
    let mut i: usize = 0;
    while i < s.len()
        invariant
            i <= s@.len(),
            all_digits(s@.take(i as int)),
            acc as nat == dec_val(s@.take(i as int)),
        decreases s@.len() - i,
    {
        let c = s[i];
        if c < 48 || c > 57 {
            return None;
        }
        let d: usize = (c - 48) as usize;
        proof {
            let a = s@.take(i as int);
            let b = s@.take(i + 1);
            assert(b.drop_last() =~= a);
            assert(b.last() == s@[i as int]);
        }
        let step = match acc.checked_mul(10) {
            Some(m) => m.checked_add(d),
            None => None,
        };
        match step {
            Some(next) => {
                acc = next;
            },
            None => {
                proof {
                    if all_digits(s@) {
                        assert(dec_val(s@.take(i + 1)) > usize::MAX as nat);
                        lemma_dec_val_mono(s@, i + 1);
                    }
                }
                return None;
            },
        }
        i = i + 1;
    }
    proof {
        assert(s@.take(s@.len() as int) =~= s@);
    }
    Some(acc)
}

/// View of a header list as pairs of byte strings.
pub open spec fn hviews(hs: Seq<(Vec<u8>, Vec<u8>)>) -> Seq<(Seq<u8>, Seq<u8>)> {
    hs.map_values(|p: (Vec<u8>, Vec<u8>)| (p.0@, p.1@))
}

pub broadcast proof fn lemma_hviews_len(hs: Seq<(Vec<u8>, Vec<u8>)>)
    ensures
        #[trigger] hviews(hs).len() == hs.len(),
{
}

pub broadcast proof fn lemma_hviews_index(hs: Seq<(Vec<u8>, Vec<u8>)>, i: int)
    requires
        0 <= i < hs.len(),
    ensures
        #[trigger] hviews(hs)[i] == (hs[i].0@, hs[i].1@),
{
}

/// Copies one byte vector.
pub fn clone_bytes(v: &Vec<u8>) -> (r: Vec<u8>)
    ensures
        r@ == v@,
{
    let mut r: Vec<u8> = Vec::new();
    let mut i: usize = 0;
    while i < v.len()
        invariant
            i <= v@.len(),
            r@ == v@.subrange(0, i as int),
        decreases v@.len() - i,
    {
        r.push(v[i]);
        proof {
            assert(r@ =~= v@.subrange(0, i + 1));
        }
        i = i + 1;
    }
    proof {
        assert(v@.subrange(0, v@.len() as int) =~= v@);
    }
    r
}

} // verus!
