//! Byte-level building blocks of the Prometheus text exposition format.
//!
//! The exposition document is a byte sequence; every piece appended to it is
//! specified here as a function of the appended data, so that a whole
//! collection pass can be pinned down byte for byte.

use vstd::prelude::*;

verus! {

/// The UTF-8 encoding of a string, the unit in which document specs are stated.
pub open spec fn utf8(s: Seq<char>) -> Seq<u8> {
    vstd::utf8::encode_utf8(s)
}

/// Decimal digits of a non-negative integer, most significant first.
pub open spec fn dec_bytes(n: int) -> Seq<u8>
    decreases n,
{
    if n < 10 {
        seq![(48 + if n >= 0 { n } else { 0 }) as u8]
    } else {
        dec_bytes(n / 10) + seq![(48 + n % 10) as u8]
    }
}

/// Decimal rendering of a signed integer: a minus sign before the magnitude.
pub open spec fn dec_bytes_signed(n: int) -> Seq<u8> {
    if n < 0 {
        seq![45u8] + dec_bytes(-n)
    } else {
        dec_bytes(n)
    }
}

/// Appends the decimal digits of `n` to `out`.
pub fn append_u64(out: &mut Vec<u8>, n: u64)
    ensures
        final(out)@ == old(out)@ + dec_bytes(n as int),
    decreases n,
{
    if n < 10 {
        out.push(48 + (n as u8));
        assert(final(out)@ =~= old(out)@ + dec_bytes(n as int));
    } else {
        append_u64(out, n / 10);
        out.push(48 + ((n % 10) as u8));
        assert(final(out)@ =~= old(out)@ + dec_bytes(n as int));
    }
}

/// Appends the decimal rendering of a signed integer to `out`.
pub fn append_i64(out: &mut Vec<u8>, n: i64)
    ensures
        final(out)@ == old(out)@ + dec_bytes_signed(n as int),
{
    if n >= 0 {
        append_u64(out, n as u64);
    } else {
        out.push(45);
        let m: u64 = ((-(n + 1)) as u64) + 1;
        assert(m == -(n as int));
        append_u64(out, m);
        assert(final(out)@ =~= old(out)@ + dec_bytes_signed(n as int));
    }
}

/// Appends the UTF-8 bytes of `s` to `out`.
pub fn append_str(out: &mut Vec<u8>, s: &str)
    ensures
        final(out)@ == old(out)@ + utf8(s@),
{
    let bytes: &[u8] = s.as_bytes();
    out.extend_from_slice(bytes);
    proof {
        assert forall|i: int| 0 <= i < final(out)@.len() implies final(out)@[i] == (old(out)@
            + utf8(s@))[i] by {
            if i >= old(out)@.len() {
                assert(vstd::prelude::cloned::<u8>(
                    bytes@[i - old(out)@.len()],
                    final(out)@[i],
                ));
            }
        }
        assert(final(out)@ =~= old(out)@ + utf8(s@));
    }
}

/// How one byte of a label value is escaped: backslash, double quote and
/// newline get a backslash escape, everything else stands as it is.
pub open spec fn escape_label_byte(b: u8) -> Seq<u8> {
    if b == 92 {
        seq![92u8, 92u8]
    } else if b == 34 {
        seq![92u8, 34u8]
    } else if b == 10 {
        seq![92u8, 110u8]
    } else {
        seq![b]
    }
}

/// A label value with every byte escaped.
pub open spec fn escape_label_bytes(s: Seq<u8>) -> Seq<u8>
    decreases s.len(),
{
    if s.len() == 0 {
        Seq::empty()
    } else {
        escape_label_bytes(s.drop_last()) + escape_label_byte(s.last())
    }
}

/// How one byte of a help text is escaped: backslash and newline only.
pub open spec fn escape_help_byte(b: u8) -> Seq<u8> {
    if b == 92 {
        seq![92u8, 92u8]
    } else if b == 10 {
        seq![92u8, 110u8]
    } else {
        seq![b]
    }
}

/// A help text with every byte escaped.
pub open spec fn escape_help_bytes(s: Seq<u8>) -> Seq<u8>
    decreases s.len(),
{
    if s.len() == 0 {
        Seq::empty()
    } else {
        escape_help_bytes(s.drop_last()) + escape_help_byte(s.last())
    }
}

/// Appends `s` to `out` with label-value escaping applied.
pub fn append_escaped_label(out: &mut Vec<u8>, s: &str)
    ensures
        final(out)@ == old(out)@ + escape_label_bytes(utf8(s@)),
{
    let bytes: &[u8] = s.as_bytes();
    let n: usize = bytes.len();
    let mut i: usize = 0;
    while i < n
        invariant
            n == bytes@.len(),
            bytes@ == utf8(s@),
            0 <= i <= n,
            out@ == old(out)@ + escape_label_bytes(bytes@.take(i as int)),
        decreases n - i,
    {
        let b = bytes[i];
        if b == 92 {
            out.push(92);
            out.push(92);
        } else if b == 34 {
            out.push(92);
            out.push(34);
        } else if b == 10 {
            out.push(92);
            out.push(110);
        } else {
            out.push(b);
        }
        proof {
            assert(bytes@.take(i + 1).drop_last() =~= bytes@.take(i as int));
            assert(bytes@.take(i + 1).last() == bytes@[i as int]);
            assert(out@ =~= old(out)@ + escape_label_bytes(bytes@.take(i + 1)));
        }
        i = i + 1;
    }
    proof {
        assert(bytes@.take(n as int) =~= bytes@);
    }
}

/// Appends `s` to `out` with help-text escaping applied.
pub fn append_escaped_help(out: &mut Vec<u8>, s: &str)
    ensures
        final(out)@ == old(out)@ + escape_help_bytes(utf8(s@)),
{
    let bytes: &[u8] = s.as_bytes();
    let n: usize = bytes.len();
    let mut i: usize = 0;
    while i < n
        invariant
            n == bytes@.len(),
            bytes@ == utf8(s@),
            0 <= i <= n,
            out@ == old(out)@ + escape_help_bytes(bytes@.take(i as int)),
        decreases n - i,
    {
        let b = bytes[i];
        if b == 92 {
            out.push(92);
            out.push(92);
        } else if b == 10 {
            out.push(92);
            out.push(110);
        } else {
            out.push(b);
        }
        proof {
            assert(bytes@.take(i + 1).drop_last() =~= bytes@.take(i as int));
            assert(bytes@.take(i + 1).last() == bytes@[i as int]);
            assert(out@ =~= old(out)@ + escape_help_bytes(bytes@.take(i + 1)));
        }
        i = i + 1;
    }
    proof {
        assert(bytes@.take(n as int) =~= bytes@);
    }
}

} // verus!
