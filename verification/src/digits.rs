//! Base-ten text: rendering a number as its decimal digits and reading
//! the digits back. The resource record a parent publishes to its child
//! and the bridge's output lines both speak decimal.

use vstd::prelude::*;

verus! {

/// The decimal digits of n, highest first, as bytes of text.
pub open spec fn dec_digits(n: nat) -> Seq<u8>
    decreases n,
{
    if n < 10 {
        seq![(48 + n) as u8]
    } else {
        dec_digits(n / 10) + seq![(48 + (n % 10)) as u8]
    }
}

/// The value of a string of decimal digits.
pub open spec fn digits_val(s: Seq<u8>) -> nat
    decreases s.len(),
{
    if s.len() == 0 {
        0
    } else {
        (digits_val(s.drop_last()) * 10 + (s.last() - 48)) as nat
    }
}

/// Is this byte a decimal digit?
pub open spec fn is_digit(b: u8) -> bool {
    48 <= b <= 57
}

/// A nonempty string of decimal digits.
pub open spec fn is_digits(s: Seq<u8>) -> bool {
    s.len() > 0 && forall|i: int| 0 <= i < s.len() ==> is_digit(#[trigger] s[i])
}

/// The digits of a number are digits.
pub proof fn lemma_dec_digits_are_digits(n: nat)
    ensures
        is_digits(dec_digits(n)),
        1 <= dec_digits(n).len(),
    decreases n,
{
    if n >= 10 {
        lemma_dec_digits_are_digits(n / 10);
        let s = dec_digits(n);
        assert forall|i: int| 0 <= i < s.len() implies is_digit(#[trigger] s[i]) by {
            if i < dec_digits(n / 10).len() {
                assert(s[i] == dec_digits(n / 10)[i]);
            }
        }
    }
}

/// Reading the digits of a number gives the number back.
pub proof fn lemma_digits_roundtrip(n: nat)
    ensures
        digits_val(dec_digits(n)) == n,
    decreases n,
{
    if n < 10 {
        let s = dec_digits(n);
        assert(s.drop_last() =~= Seq::<u8>::empty());
        assert(s.last() == (48 + n) as u8);
        assert(digits_val(s) == (digits_val(s.drop_last()) * 10 + (s.last() - 48)) as nat);
        assert(digits_val(Seq::<u8>::empty()) == 0);
    } else {
        lemma_digits_roundtrip(n / 10);
        let s = dec_digits(n);
        assert(s.drop_last() =~= dec_digits(n / 10));
        assert(s.last() == (48 + (n % 10)) as u8);
        assert(digits_val(s) == (n / 10) * 10 + (n % 10));
    }
}

/// A prefix of a digit string is worth no more than the whole.
pub proof fn lemma_digits_val_prefix(s: Seq<u8>, i: int)
    requires
        forall|k: int| 0 <= k < s.len() ==> is_digit(#[trigger] s[k]),
        0 <= i <= s.len(),
    ensures
        digits_val(s.take(i)) <= digits_val(s),
    decreases s.len() - i,
{
    if i < s.len() {
        lemma_digits_val_prefix(s, i + 1);
        assert(s.take(i + 1).drop_last() =~= s.take(i));
        assert(s.take(i + 1).last() == s[i]);
        assert(digits_val(s.take(i + 1)) == digits_val(s.take(i)) * 10 + (s[i] - 48));
    } else {
        assert(s.take(i) =~= s);
    }
}

/// The digits of a number never start with a superfluous zero.
pub proof fn lemma_dec_digits_no_leading_zero(n: nat)
    ensures
        dec_digits(n).len() > 1 ==> dec_digits(n)[0] != 48,
    decreases n,
{
    if n >= 10 {
        lemma_dec_digits_no_leading_zero(n / 10);
        lemma_dec_digits_are_digits(n / 10);
        assert(dec_digits(n)[0] == dec_digits(n / 10)[0]);
        if dec_digits(n / 10).len() == 1 {
            assert(dec_digits(n / 10) =~= dec_digits(n / 10));
            if n / 10 < 10 {
                assert(dec_digits(n / 10)[0] == (48 + n / 10) as u8);
            } else {
                assert(dec_digits(n / 10).len() == dec_digits((n / 10) / 10).len() + 1);
                lemma_dec_digits_are_digits((n / 10) / 10);
                assert(false);
            }
        }
    }
}

/// A digit string that does not start with zero is worth something.
pub proof fn lemma_digits_val_positive(s: Seq<u8>)
    requires
        is_digits(s),
        s[0] != 48,
    ensures
        digits_val(s) >= 1,
    decreases s.len(),
{
    if s.len() == 1 {
        assert(s.drop_last() =~= Seq::<u8>::empty());
        assert(s.last() == s[0]);
    } else {
        assert(s.drop_last()[0] == s[0]);
        assert(is_digits(s.drop_last())) by {
            assert(forall|k: int| 0 <= k < s.len() - 1 ==> s.drop_last()[k] == #[trigger] s[k]);
        }
        lemma_digits_val_positive(s.drop_last());
    }
}

/// Decimal text is unique: any digit string without a superfluous leading
/// zero is the digit string of its own value.
pub proof fn lemma_digits_unique(s: Seq<u8>)
    requires
        is_digits(s),
        s.len() > 1 ==> s[0] != 48,
    ensures
        dec_digits(digits_val(s)) == s,
    decreases s.len(),
{
    if s.len() == 1 {
        assert(s.drop_last() =~= Seq::<u8>::empty());
        assert(s.last() == s[0]);
        assert(digits_val(Seq::<u8>::empty()) == 0);
        assert(digits_val(s) == (s[0] - 48) as nat);
        assert(dec_digits(digits_val(s)) =~= s);
    } else {
        let pre = s.drop_last();
        assert(pre[0] == s[0]);
        assert(is_digits(pre)) by {
            assert(forall|k: int| 0 <= k < s.len() - 1 ==> pre[k] == #[trigger] s[k]);
        }
        lemma_digits_unique(pre);
        lemma_digits_val_positive(pre);
        let v = digits_val(s);
        assert(v == digits_val(pre) * 10 + (s.last() - 48));
        assert(v >= 10);
        assert(v / 10 == digits_val(pre) && v % 10 == (s.last() - 48)) by {
            assert(digits_val(pre) * 10 + (s.last() - 48) == v);
        };
        assert(dec_digits(v) == dec_digits(v / 10) + seq![(48 + (v % 10)) as u8]);
        assert(dec_digits(v) =~= s);
    }
}

/// Append the decimal digits of n.
pub fn render_u64(n: u64, out: &mut Vec<u8>)
    ensures
        final(out)@ == old(out)@ + dec_digits(n as nat),
    decreases n,
{
    if n < 10 {
        out.push(48 + (n as u8));
        proof {
            assert(out@ =~= old(out)@ + dec_digits(n as nat));
        }
    } else {
        render_u64(n / 10, out);
        out.push(48 + ((n % 10) as u8));
        proof {
            assert(out@ =~= old(out)@ + dec_digits(n as nat));
        }
    }
}

/// Read a run of decimal digits at pos as a number. The run ends at the
/// first non-digit or the end of the buffer; an empty run is nothing, and
/// a run worth more than the largest value is rejected — on the digits of
/// any value this reads that value and consumes exactly its digits.
pub fn parse_u64(buf: &Vec<u8>, pos: usize) -> (r: Option<(u64, usize)>)
    requires
        pos <= buf@.len(),
    ensures
        match r {
            Some(p) => {
                &&& pos < p.1 <= buf@.len()
                &&& is_digits(buf@.subrange(pos as int, p.1 as int))
                &&& p.0 as nat == digits_val(buf@.subrange(pos as int, p.1 as int))
                &&& (p.1 == buf@.len() || !is_digit(buf@[p.1 as int]))
            },
            None => true,
        },
        forall|n: u64, run: int|
            pos <= run <= buf@.len() && buf@.subrange(pos as int, run) == dec_digits(n as nat) && (
            run == buf@.len() || !is_digit(buf@[run])) ==> r == Some((n, run as usize)),
{
    let len = buf.len();
    let mut end: usize = pos;
    while end < len && buf[end] >= 48 && buf[end] <= 57
        invariant
            pos <= end <= len,
            len == buf@.len(),
            pos <= buf@.len(),
            forall|k: int| pos <= k < end ==> is_digit(#[trigger] buf@[k]),
        decreases len - end,
    {
        end = end + 1;
    }
    if end == pos {
        proof {
            assert forall|n: u64, run: int|
                pos <= run <= buf@.len() && buf@.subrange(pos as int, run) == dec_digits(n as nat)
                    && (run == buf@.len() || !is_digit(buf@[run])) implies false by {
                lemma_dec_digits_are_digits(n as nat);
                assert(buf@.subrange(pos as int, run)[0] == buf@[pos as int]);
            }
        }
        return None;
    }
    let ghost run = buf@.subrange(pos as int, end as int);
    proof {
        assert forall|k: int| 0 <= k < run.len() implies is_digit(#[trigger] run[k]) by {
            assert(run[k] == buf@[pos + k]);
        }
    }
    let mut val: u64 = 0;
    let mut i: usize = pos;
    while i < end
        invariant
            pos <= i <= end <= len,
            len == buf@.len(),
            run == buf@.subrange(pos as int, end as int),
            forall|k: int| 0 <= k < run.len() ==> is_digit(#[trigger] run[k]),
            forall|k: int| pos <= k < end ==> is_digit(#[trigger] buf@[k]),
            val as nat == digits_val(buf@.subrange(pos as int, i as int)),
            digits_val(buf@.subrange(pos as int, i as int)) <= digits_val(run),
        decreases end - i,
    {
        let d = buf[i];
        let ghost cur = buf@.subrange(pos as int, i as int);
        let ghost next = buf@.subrange(pos as int, i + 1);
        proof {
            assert(next.drop_last() =~= cur);
            assert(next.last() == buf@[i as int]);
            assert(digits_val(next) == digits_val(cur) * 10 + (buf@[i as int] - 48));
            assert(run.take(i + 1 - pos) =~= next);
            lemma_digits_val_prefix(run, i + 1 - pos);
        }
        if val > (0xFFFFFFFFFFFFFFFFu64 - ((d - 48) as u64)) / 10 {
            proof {
                assert(digits_val(next) > 0xFFFFFFFFFFFFFFFF);
                assert forall|n: u64, r2: int|
                    pos <= r2 <= buf@.len() && buf@.subrange(pos as int, r2) == dec_digits(
                        n as nat,
                    ) && (r2 == buf@.len() || !is_digit(buf@[r2])) implies false by {
                    lemma_digits_roundtrip(n as nat);
                    lemma_dec_digits_are_digits(n as nat);
                    assert(r2 >= end || is_digit(buf@[r2]) || r2 == buf@.len());
                    assert(r2 >= end) by {
                        if r2 < end {
                            assert(is_digit(buf@[r2]));
                        }
                    }
                    assert(end <= r2);
                    assert(buf@.subrange(pos as int, r2).take(i + 1 - pos) =~= next);
                    lemma_digits_val_prefix(buf@.subrange(pos as int, r2), i + 1 - pos);
                    assert(digits_val(buf@.subrange(pos as int, r2)) == n as nat);
                }
            }
            return None;
        }
        val = val * 10 + ((d - 48) as u64);
        i = i + 1;
    }
    proof {
        assert forall|n: u64, r2: int|
            pos <= r2 <= buf@.len() && buf@.subrange(pos as int, r2) == dec_digits(n as nat) && (r2
                == buf@.len() || !is_digit(buf@[r2])) implies Some((val, end))
            == Some::<(u64, usize)>((n, r2 as usize)) by {
            lemma_digits_roundtrip(n as nat);
            lemma_dec_digits_are_digits(n as nat);
            assert(r2 >= end) by {
                if r2 < end {
                    assert(is_digit(buf@[r2]));
                }
            }
            assert(r2 <= end) by {
                if r2 > end {
                    assert(buf@.subrange(pos as int, r2)[end - pos] == buf@[end as int]);
                    assert(is_digit(buf@[end as int]));
                    assert(end < len);
                }
            }
            assert(buf@.subrange(pos as int, r2) =~= run);
            assert(n as nat == digits_val(run));
        }
    }
    Some((val, end))
}

} // verus!
