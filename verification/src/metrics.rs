//! Per-frame byte and decode-time counters, so the choice of JSON as the
//! codec can be revisited against numbers rather than estimates.

use vstd::prelude::*;

use crate::decimal::{decimal_chars, push_decimal_str};

verus! {

/// The largest total a `std::time::Duration` can hold, in nanoseconds.
pub const MAX_DURATION_NANOS: u128 = 18_446_744_073_709_551_615_999_999_999;

/// Running totals over the frames of one session.
#[derive(Debug)]
pub struct Frames {
    count: u64,
    bytes: u64,
    max_bytes: usize,
    /// Total decode time, in nanoseconds.
    decode_nanos: u128,
}

impl Frames {
    pub closed spec fn count(&self) -> nat {
        self.count as nat
    }

    pub closed spec fn bytes(&self) -> nat {
        self.bytes as nat
    }

    pub closed spec fn max_bytes(&self) -> nat {
        self.max_bytes as nat
    }

    pub closed spec fn decode_nanos(&self) -> nat {
        self.decode_nanos as nat
    }

    /// Room for one more frame of `bytes` bytes decoded in `decode_nanos`:
    /// the counters and the total duration do not overflow.
    pub open spec fn spec_can_record(&self, bytes: usize, decode_nanos: u128) -> bool {
        &&& self.count() < u64::MAX
        &&& self.bytes() + bytes <= u64::MAX
        &&& self.decode_nanos() + decode_nanos <= MAX_DURATION_NANOS
    }

    /// Whether one more frame fits in the counters.
    #[verifier::when_used_as_spec(spec_can_record)]
    pub fn can_record(&self, bytes: usize, decode_nanos: u128) -> (r: bool)
        ensures
            r == self.spec_can_record(bytes, decode_nanos),
    {
        self.count < u64::MAX && bytes as u64 <= u64::MAX - self.bytes && self.decode_nanos
            <= MAX_DURATION_NANOS && decode_nanos <= MAX_DURATION_NANOS - self.decode_nanos
    }

    /// Record one frame: its framed size on the wire and the time spent
    /// turning it into typed instructions, in nanoseconds.
    pub fn record(&mut self, bytes: usize, decode_nanos: u128)
        requires
            old(self).can_record(bytes, decode_nanos),
        ensures
            final(self).count() == old(self).count() + 1,
            final(self).bytes() == old(self).bytes() + bytes,
            final(self).max_bytes() == if bytes > old(self).max_bytes() {
                bytes as nat
            } else {
                old(self).max_bytes()
            },
            final(self).decode_nanos() == old(self).decode_nanos() + decode_nanos,
    {
        self.count = self.count + 1;
        self.bytes = self.bytes + bytes as u64;
        if bytes > self.max_bytes {
            self.max_bytes = bytes;
        }
        self.decode_nanos = self.decode_nanos + decode_nanos;
    }

    /// The one-line summary: `0 frames` before any frame, else the count,
    /// the byte total, the average and largest frame, and the average
    /// decode time in whole microseconds.
    pub open spec fn report_text(&self) -> Seq<char> {
        if self.count() == 0 {
            seq!['0', ' ', 'f', 'r', 'a', 'm', 'e', 's']
        } else {
            decimal_chars(self.count()) + seq![' ', 'f', 'r', 'a', 'm', 'e', 's', ',', ' ']
                + decimal_chars(self.bytes()) + seq![
                ' ',
                'B',
                ' ',
                't',
                'o',
                't',
                'a',
                'l',
                ',',
                ' ',
                'a',
                'v',
                'g',
                ' ',
            ] + decimal_chars(self.bytes() / self.count()) + seq![
                ' ',
                'B',
                ',',
                ' ',
                'm',
                'a',
                'x',
                ' ',
            ] + decimal_chars(self.max_bytes()) + seq![
                ' ',
                'B',
                ',',
                ' ',
                'a',
                'v',
                'g',
                ' ',
                'd',
                'e',
                'c',
                'o',
                'd',
                'e',
                ' ',
            ] + decimal_chars((self.decode_nanos() / 1000) / self.count()) + seq!['u', 's']
        }
    }

    /// A one-line summary for stderr.
    pub fn report(&self) -> (r: String)
        ensures
            r@ == self.report_text(),
    {
        if self.count == 0 {
            let r = String::from_str("0 frames");
            proof {
                reveal_strlit("0 frames");
            }
            return r;
        }
        let average_bytes = self.bytes / self.count;
        let average_decode = (self.decode_nanos / 1000) / (self.count as u128);
        let mut r = String::new();
        push_decimal_str(&mut r, self.count as u128);
        r.append(" frames, ");
        push_decimal_str(&mut r, self.bytes as u128);
        r.append(" B total, avg ");
        push_decimal_str(&mut r, average_bytes as u128);
        r.append(" B, max ");
        push_decimal_str(&mut r, self.max_bytes as u128);
        r.append(" B, avg decode ");
        push_decimal_str(&mut r, average_decode);
        r.append("us");
        proof {
            reveal_strlit(" frames, ");
            reveal_strlit(" B total, avg ");
            reveal_strlit(" B, max ");
            reveal_strlit(" B, avg decode ");
            reveal_strlit("us");
            assert(r@ =~= self.report_text());
        }
        r
    }
}

impl Default for Frames {
    fn default() -> (r: Self)
        ensures
            r.count() == 0,
            r.bytes() == 0,
            r.max_bytes() == 0,
            r.decode_nanos() == 0,
    {
        Frames { count: 0, bytes: 0, max_bytes: 0, decode_nanos: 0 }
    }
}

/// The report's figures: with any frame recorded, it gives the frame
/// count, the byte total, an average that is the total divided by the
/// count rounded down, the largest frame, and an average decode time that
/// is the total decode time in microseconds divided by the count, rounded
/// down; before any frame it says `0 frames`.
pub proof fn lemma_report_figures(f: Frames)
    ensures
        f.count() == 0 ==> f.report_text() == seq!['0', ' ', 'f', 'r', 'a', 'm', 'e', 's'],
        f.count() > 0 ==> exists|avg: nat, dec: nat|
            #![trigger decimal_chars(avg), decimal_chars(dec)]
            {
                &&& avg * f.count() <= f.bytes() < (avg + 1) * f.count()
                &&& dec * f.count() * 1000 <= f.decode_nanos() < (dec + 1) * f.count() * 1000
                &&& f.report_text() == decimal_chars(f.count()) + seq![' ', 'f', 'r', 'a', 'm', 'e', 's', ',', ' '] + decimal_chars(f.bytes())
                    + seq![' ', 'B', ' ', 't', 'o', 't', 'a', 'l', ',', ' ', 'a', 'v', 'g', ' '] + decimal_chars(avg) + seq![' ', 'B', ',', ' ', 'm', 'a', 'x', ' '] + decimal_chars(f.max_bytes()) + seq![' ', 'B', ',', ' ', 'a', 'v', 'g', ' ', 'd', 'e', 'c', 'o', 'd', 'e', ' ']
                    + decimal_chars(dec) + seq!['u', 's']
            },
{
    if f.count() > 0 {
        let c = f.count();
        let avg = f.bytes() / c;
        let dec = (f.decode_nanos() / 1000) / c;
        assert(avg * c <= f.bytes() < (avg + 1) * c) by (nonlinear_arith)
            requires
                c > 0,
                avg == f.bytes() / c,
        ;
        let m = f.decode_nanos() / 1000;
        assert(m * 1000 <= f.decode_nanos() < (m + 1) * 1000) by (nonlinear_arith)
            requires
                m == f.decode_nanos() / 1000,
        ;
        assert(dec * c <= m < (dec + 1) * c) by (nonlinear_arith)
            requires
                c > 0,
                dec == m / c,
        ;
        assert(dec * c * 1000 <= f.decode_nanos() < (dec + 1) * c * 1000) by (nonlinear_arith)
            requires
                dec * c <= m < (dec + 1) * c,
                m * 1000 <= f.decode_nanos() < (m + 1) * 1000,
        ;
        assert(f.report_text() == decimal_chars(c) + seq![' ', 'f', 'r', 'a', 'm', 'e', 's', ',', ' '] + decimal_chars(f.bytes()) + seq![' ', 'B', ' ', 't', 'o', 't', 'a', 'l', ',', ' ', 'a', 'v', 'g', ' ']
            + decimal_chars(avg) + seq![' ', 'B', ',', ' ', 'm', 'a', 'x', ' '] + decimal_chars(f.max_bytes()) + seq![' ', 'B', ',', ' ', 'a', 'v', 'g', ' ', 'd', 'e', 'c', 'o', 'd', 'e', ' '] + decimal_chars(dec)
            + seq!['u', 's']);
    }
}

} // verus!
