//! Byte-level helpers shared by the scanner, the adapter and the encoder:
//! ASCII classification and lowering, UTF-8 validity, and decimal
//! parsing/formatting. All text in this crate is held as UTF-8 bytes.
use vstd::prelude::*;

verus! {

/// A space or horizontal tab, the bytes stripped from the front of a
/// header value.
pub open spec fn is_ws_byte(b: u8) -> bool {
    b == 32 || b == 9
}

/// An ASCII decimal digit.
pub open spec fn is_digit_byte(b: u8) -> bool {
    48 <= b && b <= 57
}

/// ASCII lower-casing of a single byte; bytes outside `A`..`Z` are kept.
pub open spec fn lower_byte(b: u8) -> u8 {
    if 65 <= b && b <= 90 {
        (b + 32) as u8
    } else {
        b
    }
}

/// ASCII lower-casing of a byte sequence, byte for byte.
pub open spec fn to_lower(s: Seq<u8>) -> Seq<u8> {
    Seq::new(s.len(), |i: int| lower_byte(s[i]))
}

pub fn lower_u8(b: u8) -> (r: u8)
    ensures
        r == lower_byte(b),
{
    if 65 <= b && b <= 90 {
        b + 32
    } else {
        b
    }
}

/// A UTF-8 continuation byte, `0x80`..`0xBF`.
pub open spec fn is_cont_byte(b: u8) -> bool {
    128 <= b && b <= 191
}

/// The bytes of `s` from `i` (inclusive) to `end` (exclusive) form a
/// well-formed UTF-8 sequence: every scalar is encoded in its shortest
/// form and no surrogate or value above `U+10FFFF` appears.
pub open spec fn is_utf8_between(s: Seq<u8>, i: int, end: int) -> bool
    decreases end - i,
{
    if i >= end {
        true
    } else {
        let b0 = s[i];
        if b0 < 128 {
            is_utf8_between(s, i + 1, end)
        } else if 194 <= b0 && b0 <= 223 {
            i + 2 <= end && is_cont_byte(s[i + 1]) && is_utf8_between(s, i + 2, end)
        } else if b0 == 224 {
            i + 3 <= end && 160 <= s[i + 1] && s[i + 1] <= 191 && is_cont_byte(s[i + 2])
                && is_utf8_between(s, i + 3, end)
        } else if (225 <= b0 && b0 <= 236) || b0 == 238 || b0 == 239 {
            i + 3 <= end && is_cont_byte(s[i + 1]) && is_cont_byte(s[i + 2])
                && is_utf8_between(s, i + 3, end)
        } else if b0 == 237 {
            i + 3 <= end && 128 <= s[i + 1] && s[i + 1] <= 159 && is_cont_byte(s[i + 2])
                && is_utf8_between(s, i + 3, end)
        } else if b0 == 240 {
            i + 4 <= end && 144 <= s[i + 1] && s[i + 1] <= 191 && is_cont_byte(s[i + 2])
                && is_cont_byte(s[i + 3]) && is_utf8_between(s, i + 4, end)
        } else if 241 <= b0 && b0 <= 243 {
            i + 4 <= end && is_cont_byte(s[i + 1]) && is_cont_byte(s[i + 2])
                && is_cont_byte(s[i + 3]) && is_utf8_between(s, i + 4, end)
        } else if b0 == 244 {
            i + 4 <= end && 128 <= s[i + 1] && s[i + 1] <= 143 && is_cont_byte(s[i + 2])
                && is_cont_byte(s[i + 3]) && is_utf8_between(s, i + 4, end)
        } else {
            false
        }
    }
}

/// Decides UTF-8 validity of `buffer[start..end]`.
pub fn check_utf8(buffer: &[u8], start: usize, end: usize) -> (r: bool)
    requires
        start <= end,
        end <= buffer.len(),
    ensures
        r == is_utf8_between(buffer@, start as int, end as int),
{
    let mut i = start;
    while i < end
        invariant
            start <= i <= end <= buffer.len(),
            is_utf8_between(buffer@, start as int, end as int) == is_utf8_between(
                buffer@,
                i as int,
                end as int,
            ),
        decreases end - i,
    {
        let b0 = buffer[i];
        if b0 < 128 {
            i = i + 1;
        } else if 194 <= b0 && b0 <= 223 {
            if end - i < 2 {
                return false;
            }
            let b1 = buffer[i + 1];
            if !(128 <= b1 && b1 <= 191) {
                return false;
            }
            i = i + 2;
        } else if b0 == 224 {
            if end - i < 3 {
                return false;
            }
            let b1 = buffer[i + 1];
            let b2 = buffer[i + 2];
            if !(160 <= b1 && b1 <= 191) || !(128 <= b2 && b2 <= 191) {
                return false;
            }
            i = i + 3;
        } else if (225 <= b0 && b0 <= 236) || b0 == 238 || b0 == 239 {
            if end - i < 3 {
                return false;
            }
            let b1 = buffer[i + 1];
            let b2 = buffer[i + 2];
            if !(128 <= b1 && b1 <= 191) || !(128 <= b2 && b2 <= 191) {
                return false;
            }
            i = i + 3;
        } else if b0 == 237 {
            if end - i < 3 {
                return false;
            }
            let b1 = buffer[i + 1];
            let b2 = buffer[i + 2];
            if !(128 <= b1 && b1 <= 159) || !(128 <= b2 && b2 <= 191) {
                return false;
            }
            i = i + 3;
        } else if b0 == 240 {
            if end - i < 4 {
                return false;
            }
            let b1 = buffer[i + 1];
            let b2 = buffer[i + 2];
            let b3 = buffer[i + 3];
            if !(144 <= b1 && b1 <= 191) || !(128 <= b2 && b2 <= 191) || !(128 <= b3 && b3 <= 191) {
                return false;
            }
            i = i + 4;
        } else if 241 <= b0 && b0 <= 243 {
            if end - i < 4 {
                return false;
            }
            let b1 = buffer[i + 1];
            let b2 = buffer[i + 2];
            let b3 = buffer[i + 3];
            if !(128 <= b1 && b1 <= 191) || !(128 <= b2 && b2 <= 191) || !(128 <= b3 && b3 <= 191) {
                return false;
            }
            i = i + 4;
        } else if b0 == 244 {
            if end - i < 4 {
                return false;
            }
            let b1 = buffer[i + 1];
            let b2 = buffer[i + 2];
            let b3 = buffer[i + 3];
            if !(128 <= b1 && b1 <= 143) || !(128 <= b2 && b2 <= 191) || !(128 <= b3 && b3 <= 191) {
                return false;
            }
            i = i + 4;
        } else {
            return false;
        }
    }
    true
}

/// Every byte of `s` is an ASCII decimal digit.
pub open spec fn all_digits(s: Seq<u8>) -> bool {
    forall|i: int| 0 <= i < s.len() ==> is_digit_byte(s[i])
}

/// A non-empty run of ASCII decimal digits: the only shape accepted as a
/// `Content-Length` value.
pub open spec fn is_dec_seq(s: Seq<u8>) -> bool {
    s.len() > 0 && all_digits(s)
}

/// The number denoted by a digit sequence, most significant digit first.
pub open spec fn dec_value(s: Seq<u8>) -> int
    decreases s.len(),
{
    if s.len() == 0 {
        0
    } else {
        dec_value(s.drop_last()) * 10 + (s.last() - 48)
    }
}

pub proof fn lemma_dec_value_nonneg(s: Seq<u8>)
    requires
        all_digits(s),
    ensures
        dec_value(s) >= 0,
    decreases s.len(),
{
    if s.len() > 0 {
        assert(all_digits(s.drop_last()));
        lemma_dec_value_nonneg(s.drop_last());
    }
}

/// Once some prefix of an all-digit sequence already denotes more than
/// `usize::MAX`, the whole sequence does too.
proof fn lemma_dec_prefix_exceeds(s: Seq<u8>, i: int)
    requires
        0 <= i <= s.len(),
        all_digits(s),
        dec_value(s.subrange(0, i)) > usize::MAX as int,
    ensures
        dec_value(s) > usize::MAX as int,
    decreases s.len() - i,
{
    if i == s.len() {
        assert(s.subrange(0, i) =~= s);
    } else {
        let p = s.subrange(0, i);
        let q = s.subrange(0, i + 1);
        assert(q.drop_last() =~= p);
        assert(q.last() == s[i]);
        assert(dec_value(q) == dec_value(p) * 10 + (s[i] - 48));
        assert(dec_value(p) * 10 >= dec_value(p)) by (nonlinear_arith)
            requires
                dec_value(p) >= 0,
        ;
        lemma_dec_prefix_exceeds(s, i + 1);
    }
}

/// Parses `buffer[start..end]` as an unsigned decimal number. Returns
/// `Some` exactly when the range is a non-empty run of digits whose value
/// fits in `usize`.
pub fn parse_dec(buffer: &[u8], start: usize, end: usize) -> (r: Option<usize>)
    requires
        start <= end,
        end <= buffer.len(),
    ensures
        ({
            let s = buffer@.subrange(start as int, end as int);
            match r {
                Some(v) => is_dec_seq(s) && dec_value(s) == v as int,
                None => !(is_dec_seq(s) && dec_value(s) <= usize::MAX as int),
            }
        }),
{
    let ghost s = buffer@.subrange(start as int, end as int);
    if start == end {
        return None;
    }
    let mut i = start;
    let mut acc: usize = 0;
    while i < end
        invariant
            start <= i <= end <= buffer.len(),
            s == buffer@.subrange(start as int, end as int),
            all_digits(s.subrange(0, i - start)),
            acc as int == dec_value(s.subrange(0, i - start)),
        decreases end - i,
    {
        let b = buffer[i];
        proof {
            assert(s[i - start] == buffer@[i as int]);
        }
        if !(48 <= b && b <= 57) {
            proof {
                assert(!is_digit_byte(s[i - start]));
            }
            return None;
        }
        let d = (b - 48) as usize;
        let ghost p = s.subrange(0, i - start);
        let ghost q = s.subrange(0, i - start + 1);
        proof {
            assert(q.drop_last() =~= p);
            assert(q.last() == s[i - start]);
            assert(dec_value(q) == dec_value(p) * 10 + d);
        }
        if acc > (usize::MAX - d) / 10 {
            proof {
                let m = usize::MAX as int;
                vstd::arithmetic::div_mod::lemma_fundamental_div_mod(m - d, 10);
                let qd = (m - d) / 10;
                assert(m - d == 10 * qd + (m - d) % 10);
                assert(0 <= (m - d) % 10 < 10) by {
                    vstd::arithmetic::div_mod::lemma_mod_bound(m - d, 10);
                }
                assert(acc as int >= qd + 1);
                assert(acc as int * 10 >= (qd + 1) * 10) by (nonlinear_arith)
                    requires
                        acc as int >= qd + 1,
                ;
                assert(dec_value(q) > m);
                if all_digits(s) {
                    lemma_dec_prefix_exceeds(s, i - start + 1);
                }
            }
            return None;
        }
        proof {
            let m = usize::MAX as int;
            vstd::arithmetic::div_mod::lemma_fundamental_div_mod(m - d, 10);
            let qd = (m - d) / 10;
            assert(m - d == 10 * qd + (m - d) % 10);
            assert(0 <= (m - d) % 10 < 10) by {
                vstd::arithmetic::div_mod::lemma_mod_bound(m - d, 10);
            }
            assert(acc as int * 10 <= qd * 10) by (nonlinear_arith)
                requires
                    acc as int <= qd,
            ;
        }
        acc = acc * 10 + d;
        i = i + 1;
    }
    proof {
        assert(s.subrange(0, i - start) =~= s);
    }
    Some(acc)
}

/// The shortest decimal rendering of `n`, most significant digit first.
pub open spec fn dec_rep(n: nat) -> Seq<u8>
    decreases n,
{
    if n <= 9 {
        seq![(48 + n) as u8]
    } else {
        dec_rep(n / 10).push((48 + n % 10) as u8)
    }
}

/// Appends the decimal rendering of `n` to `out`.
pub fn push_dec(out: &mut Vec<u8>, n: usize)
    ensures
        final(out)@ == old(out)@ + dec_rep(n as nat),
    decreases n,
{
    if n > 9 {
        push_dec(out, n / 10);
        out.push((n % 10) as u8 + 48);
        proof {
            assert(final(out)@ =~= old(out)@ + dec_rep(n as nat));
        }
    } else {
        out.push(n as u8 + 48);
        proof {
            assert(final(out)@ =~= old(out)@ + dec_rep(n as nat));
        }
    }
}

/// Appends all of `src` to `out`.
pub fn push_all(out: &mut Vec<u8>, src: &[u8])
    ensures
        final(out)@ == old(out)@ + src@,
{
    let mut i: usize = 0;
    while i < src.len()
        invariant
            i <= src.len(),
            out@ == old(out)@ + src@.subrange(0, i as int),
        decreases src.len() - i,
    {
        out.push(src[i]);
        proof {
            assert(old(out)@ + src@.subrange(0, i as int) + seq![src@[i as int]] =~= old(out)@
                + src@.subrange(0, i + 1));
        }
        i = i + 1;
    }
    proof {
        assert(src@.subrange(0, src@.len() as int) =~= src@);
    }
}

/// Copies `buffer[start..end]` into an owned vector.
pub fn copy_range(buffer: &[u8], start: usize, end: usize) -> (r: Vec<u8>)
    requires
        start <= end,
        end <= buffer.len(),
    ensures
        r@ == buffer@.subrange(start as int, end as int),
{
    let mut v: Vec<u8> = Vec::new();
    let mut i = start;
    while i < end
        invariant
            start <= i <= end <= buffer.len(),
            v@ == buffer@.subrange(start as int, i as int),
        decreases end - i,
    {
        v.push(buffer[i]);
        proof {
            assert(buffer@.subrange(start as int, i as int).push(buffer@[i as int]) =~= buffer
                @.subrange(start as int, i + 1));
        }
        i = i + 1;
    }
    v
}

/// Copies `buffer[start..end]` into an owned vector, lower-casing ASCII
/// letters on the way.
pub fn lower_range(buffer: &[u8], start: usize, end: usize) -> (r: Vec<u8>)
    requires
        start <= end,
        end <= buffer.len(),
    ensures
        r@ == to_lower(buffer@.subrange(start as int, end as int)),
{
    let mut v: Vec<u8> = Vec::new();
    let mut i = start;
    while i < end
        invariant
            start <= i <= end <= buffer.len(),
            v@ == to_lower(buffer@.subrange(start as int, i as int)),
        decreases end - i,
    {
        let b = lower_u8(buffer[i]);
        v.push(b);
        proof {
            assert(to_lower(buffer@.subrange(start as int, i as int)).push(b) =~= to_lower(
                buffer@.subrange(start as int, i + 1),
            ));
        }
        i = i + 1;
    }
    v
}

/// Compares two byte slices, byte for byte.
pub fn bytes_eq(a: &[u8], b: &[u8]) -> (r: bool)
    ensures
        r == (a@ == b@),
{
    if a.len() != b.len() {
        return false;
    }
    let mut i: usize = 0;
    while i < a.len()
        invariant
            i <= a.len(),
            a@.len() == b@.len(),
            forall|j: int| 0 <= j < i ==> a@[j] == b@[j],
        decreases a.len() - i,
    {
        if a[i] != b[i] {
            return false;
        }
        i = i + 1;
    }
    proof {
        assert(a@ =~= b@);
    }
    true
}

/// Compares `buffer[start..end]` with `pat`, byte for byte.
pub fn range_eq(buffer: &[u8], start: usize, end: usize, pat: &Vec<u8>) -> (r: bool)
    requires
        start <= end,
        end <= buffer.len(),
    ensures
        r == (buffer@.subrange(start as int, end as int) == pat@),
{
    let ghost s = buffer@.subrange(start as int, end as int);
    if end - start != pat.len() {
        return false;
    }
    let mut i: usize = 0;
    while i < pat.len()
        invariant
            i <= pat.len(),
            pat@.len() == end - start,
            start <= end <= buffer.len(),
            s == buffer@.subrange(start as int, end as int),
            forall|j: int| 0 <= j < i ==> s[j] == pat@[j],
        decreases pat.len() - i,
    {
        if buffer[start + i] != pat[i] {
            proof {
                assert(s[i as int] == buffer@[start + i]);
            }
            return false;
        }
        proof {
            assert(s[i as int] == buffer@[start + i]);
        }
        i = i + 1;
    }
    proof {
        assert(s =~= pat@);
    }
    true
}

/// Compares the ASCII-lowered bytes of `buffer[start..end]` with `pat`.
pub fn range_lower_eq(buffer: &[u8], start: usize, end: usize, pat: &Vec<u8>) -> (r: bool)
    requires
        start <= end,
        end <= buffer.len(),
    ensures
        r == (to_lower(buffer@.subrange(start as int, end as int)) == pat@),
{
    let ghost s = to_lower(buffer@.subrange(start as int, end as int));
    if end - start != pat.len() {
        return false;
    }
    let mut i: usize = 0;
    while i < pat.len()
        invariant
            i <= pat.len(),
            pat@.len() == end - start,
            start <= end <= buffer.len(),
            s == to_lower(buffer@.subrange(start as int, end as int)),
            forall|j: int| 0 <= j < i ==> s[j] == pat@[j],
        decreases pat.len() - i,
    {
        let b = lower_u8(buffer[start + i]);
        if b != pat[i] {
            proof {
                assert(s[i as int] == lower_byte(buffer@[start + i]));
            }
            return false;
        }
        proof {
            assert(s[i as int] == lower_byte(buffer@[start + i]));
        }
        i = i + 1;
    }
    proof {
        assert(s =~= pat@);
    }
    true
}

} // verus!
