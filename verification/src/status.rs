//! Exit status of a supervised process, how a Unix wait result becomes
//! one, and the bridge's aggregation of many children's statuses into
//! one.

use vstd::prelude::*;

verus! {

/// How a worker ended: cleanly, with a nonzero exit code, or by a signal.
#[derive(Clone, Copy, PartialEq, Eq, Structural, Hash, Debug)]
pub enum ExitStatus {
    /// Exited with code zero.
    Success,
    /// Exited with the given nonzero code.
    Code(u8),
    /// Ended by the given signal.
    Signaled(u8),
}

/// A well-formed status never carries code zero under `Code`: that case is
/// `Success`. The constructors only build well-formed statuses.
pub open spec fn status_wf(s: ExitStatus) -> bool {
    match s {
        ExitStatus::Code(c) => c != 0,
        _ => true,
    }
}

impl ExitStatus {
    /// A Unix exit code, as `wait` reports it, read as a status: zero is
    /// success.
    pub fn from_unix_status(code: u8) -> (r: ExitStatus)
        ensures
            code == 0 ==> r == ExitStatus::Success,
            code != 0 ==> r == ExitStatus::Code(code),
            status_wf(r),
    {
        if code == 0 {
            ExitStatus::Success
        } else {
            ExitStatus::Code(code)
        }
    }

    /// A terminating signal, as `wait` reports it, read as a status.
    pub fn from_unix_signal(signal: u8) -> (r: ExitStatus)
        ensures
            r == ExitStatus::Signaled(signal),
    {
        ExitStatus::Signaled(signal)
    }

    /// Is this a clean exit?
    pub fn is_success(&self) -> (r: bool)
        ensures
            r == (*self is Success),
    {
        matches!(*self, ExitStatus::Success)
    }

    /// Fold one more child status into a running aggregate: the aggregate
    /// stays at the first non-success it ever saw, and is success only
    /// while every child has succeeded.
    pub fn combine(self, other: ExitStatus) -> (r: ExitStatus)
        ensures
            self is Success ==> r == other,
            !(self is Success) ==> r == self,
    {
        if self.is_success() {
            other
        } else {
            self
        }
    }

    /// The code the aggregating process exits with: 0 for success, the
    /// child's code for a plain failure, and the conventional 128 + signal
    /// for death by signal.
    pub fn exit_code(&self) -> (r: i32)
        ensures
            *self is Success ==> r == 0,
            forall|c: u8| *self == ExitStatus::Code(c) ==> r == c as int,
            forall|s: u8| *self == ExitStatus::Signaled(s) ==> r == 128 + s as int,
    {
        match *self {
            ExitStatus::Success => 0,
            ExitStatus::Code(c) => c as i32,
            ExitStatus::Signaled(s) => 128 + (s as i32),
        }
    }
}

/// An aggregate of well-formed statuses exits with code zero exactly when
/// it is success: one crashed or killed child makes the whole run fail.
pub proof fn lemma_exit_code_zero_iff_success(s: ExitStatus)
    requires
        status_wf(s),
    ensures
        (match s {
            ExitStatus::Success => 0,
            ExitStatus::Code(c) => c as int,
            ExitStatus::Signaled(g) => 128 + g as int,
        } == 0) <==> s is Success,
{
}

/// Combining keeps well-formedness, keeps success exactly when both sides
/// are successes, and keeps the earliest failure: once the aggregate is a
/// failure, no later status changes it.
pub proof fn lemma_combine_laws(a: ExitStatus, b: ExitStatus)
    ensures
        status_wf(a) && status_wf(b) ==> status_wf(spec_combine(a, b)),
        (spec_combine(a, b) is Success) <==> (a is Success && b is Success),
        !(a is Success) ==> spec_combine(a, b) == a,
{
}

/// Spec form of [`ExitStatus::combine`].
pub open spec fn spec_combine(a: ExitStatus, b: ExitStatus) -> ExitStatus {
    if a is Success {
        b
    } else {
        a
    }
}

/// Folding statuses is associative, so the aggregate of a run is the same
/// however the arrivals are grouped — it is always the first non-success
/// in arrival order.
pub proof fn lemma_combine_associative(a: ExitStatus, b: ExitStatus, c: ExitStatus)
    ensures
        spec_combine(spec_combine(a, b), c) == spec_combine(a, spec_combine(b, c)),
{
}

/// Encoding of a status: a tag byte, then the code or signal if any.
pub open spec fn status_enc(s: ExitStatus) -> Seq<u8> {
    match s {
        ExitStatus::Success => seq![0u8],
        ExitStatus::Code(c) => seq![1u8, c],
        ExitStatus::Signaled(g) => seq![2u8, g],
    }
}

/// Append the encoding of s.
pub fn enc_status(s: &ExitStatus, out: &mut Vec<u8>)
    ensures
        final(out)@ == old(out)@ + status_enc(*s),
{
    match *s {
        ExitStatus::Success => {
            out.push(0);
            proof {
                assert(out@ =~= old(out)@ + status_enc(*s));
            }
        },
        ExitStatus::Code(c) => {
            out.push(1);
            out.push(c);
            proof {
                assert(out@ =~= old(out)@ + status_enc(*s));
            }
        },
        ExitStatus::Signaled(g) => {
            out.push(2);
            out.push(g);
            proof {
                assert(out@ =~= old(out)@ + status_enc(*s));
            }
        },
    }
}

/// What decoding a status finds at the front of a byte string: the status
/// and how many bytes it took, or nothing when the bytes are no status.
pub open spec fn status_dec(s: Seq<u8>) -> Option<(ExitStatus, int)> {
    if s.len() >= 1 && s[0] == 0 {
        Some((ExitStatus::Success, 1))
    } else if s.len() >= 2 && s[0] == 1 {
        Some((ExitStatus::Code(s[1]), 2))
    } else if s.len() >= 2 && s[0] == 2 {
        Some((ExitStatus::Signaled(s[1]), 2))
    } else {
        None
    }
}

/// Decode a status at pos.
pub fn dec_status(buf: &Vec<u8>, pos: usize) -> (r: Option<(ExitStatus, usize)>)
    requires
        pos <= buf@.len(),
    ensures
        match status_dec(buf@.subrange(pos as int, buf@.len() as int)) {
            Some(p) => r is Some && r.unwrap().0 == p.0 && r.unwrap().1 == pos + p.1,
            None => r is None,
        },
{
    let ghost tail = buf@.subrange(pos as int, buf@.len() as int);
    if pos >= buf.len() {
        return None;
    }
    let tag = buf[pos];
    proof {
        assert(tail[0] == buf@[pos as int]);
    }
    if tag == 0 {
        Some((ExitStatus::Success, pos + 1))
    } else if tag == 1 {
        if pos + 1 >= buf.len() {
            return None;
        }
        proof {
            assert(tail[1] == buf@[pos + 1]);
        }
        Some((ExitStatus::Code(buf[pos + 1]), pos + 2))
    } else if tag == 2 {
        if pos + 1 >= buf.len() {
            return None;
        }
        proof {
            assert(tail[1] == buf@[pos + 1]);
        }
        Some((ExitStatus::Signaled(buf[pos + 1]), pos + 2))
    } else {
        None
    }
}

/// Decoding a status from its encoding followed by anything yields the
/// status back and consumes exactly its encoding.
pub proof fn lemma_status_roundtrip(s: ExitStatus, rest: Seq<u8>)
    ensures
        status_dec(status_enc(s) + rest) == Some((s, status_enc(s).len() as int)),
{
    let whole = status_enc(s) + rest;
    match s {
        ExitStatus::Success => {
            assert(whole[0] == 0);
        },
        ExitStatus::Code(c) => {
            assert(whole[0] == 1 && whole[1] == c);
        },
        ExitStatus::Signaled(g) => {
            assert(whole[0] == 2 && whole[1] == g);
        },
    }
}

} // verus!
