//! Script push-data primitives: the minimal push encoding used by Bitcoin
//! script for arbitrary data, and its parser.
//!
//! A push of `n` bytes is written as a single length byte for `n <= 75`,
//! as `0x4c n` for `n <= 255`, and as `0x4d` plus a little-endian 16-bit
//! length otherwise. The envelope codec never emits longer pushes, and the
//! parser refuses anything else, including non-push opcodes.

use vstd::prelude::*;

verus! {

/// The minimal push encoding of one datum, for data up to 65535 bytes.
pub open spec fn spec_push(data: Seq<u8>) -> Seq<u8> {
    if data.len() <= 75 {
        seq![data.len() as u8] + data
    } else if data.len() <= 255 {
        seq![0x4cu8, data.len() as u8] + data
    } else {
        seq![0x4du8, (data.len() % 256) as u8, ((data.len() / 256) % 256) as u8] + data
    }
}

/// One push parsed at index `i` of `s`: the pushed data and the index just
/// past it. Refuses out-of-bounds lengths, pushes above 65535 bytes, and
/// every opcode that is not a plain data push.
pub open spec fn spec_parse_push(s: Seq<u8>, i: int) -> Option<(Seq<u8>, int)> {
    if i < 0 || i >= s.len() {
        None
    } else {
        let op = s[i];
        if op <= 75 {
            if i + 1 + op <= s.len() {
                Some((s.subrange(i + 1, i + 1 + op), i + 1 + op))
            } else {
                None
            }
        } else if op == 0x4c {
            if i + 2 <= s.len() && i + 2 + s[i + 1] <= s.len() {
                Some((s.subrange(i + 2, i + 2 + s[i + 1]), i + 2 + s[i + 1]))
            } else {
                None
            }
        } else if op == 0x4d {
            if i + 3 <= s.len() && i + 3 + s[i + 1] + 256 * s[i + 2] <= s.len() {
                Some(
                    (
                        s.subrange(i + 3, i + 3 + s[i + 1] + 256 * s[i + 2]),
                        i + 3 + s[i + 1] + 256 * s[i + 2],
                    ),
                )
            } else {
                None
            }
        } else {
            None
        }
    }
}

/// Parsing at the start of an encoded push recovers exactly the data and
/// stops exactly past it, whatever follows.
pub proof fn lemma_parse_push_at(s: Seq<u8>, i: int, data: Seq<u8>)
    requires
        data.len() <= 65535,
        0 <= i,
        i + spec_push(data).len() <= s.len(),
        s.subrange(i, i + spec_push(data).len()) == spec_push(data),
    ensures
        spec_parse_push(s, i) == Some((data, i + spec_push(data).len())),
{
    let p = spec_push(data);
    let n = data.len() as int;
    let h = p.len() - n;
    assert(s[i] == p[0]) by {
        assert(s.subrange(i, i + p.len())[0] == s[i]);
    }
    if h >= 2 {
        assert(s[i + 1] == p[1]) by {
            assert(s.subrange(i, i + p.len())[1] == s[i + 1]);
        }
    }
    if h >= 3 {
        assert(s[i + 2] == p[2]) by {
            assert(s.subrange(i, i + p.len())[2] == s[i + 2]);
        }
    }
    assert(s.subrange(i + h, i + h + n) =~= data) by {
        assert forall|k: int| 0 <= k < n implies s.subrange(i + h, i + h + n)[k] == data[k] by {
            assert(s.subrange(i, i + p.len())[h + k] == s[i + h + k]);
        }
    }
    if n <= 75 {
    } else if n <= 255 {
        assert(s[i + 1] == n as u8);
    } else {
        assert(s[i + 1] == (n % 256) as u8);
        assert(s[i + 2] == ((n / 256) % 256) as u8);
        assert(s[i + 1] + 256 * s[i + 2] == n) by {
            assert((n % 256) + 256 * ((n / 256) % 256) == n) by (nonlinear_arith)
                requires 256 <= n <= 65535;
        }
    }
}

/// Append the minimal push encoding of `data` to `out`.
pub fn push_data(out: &mut Vec<u8>, data: &Vec<u8>)
    requires
        data@.len() <= 65535,
    ensures
        final(out)@ == old(out)@ + spec_push(data@),
{
    let n = data.len();
    if n <= 75 {
        out.push(n as u8);
    } else if n <= 255 {
        out.push(0x4cu8);
        out.push(n as u8);
    } else {
        out.push(0x4du8);
        out.push((n % 256) as u8);
        out.push(((n / 256) % 256) as u8);
    }
    let ghost mid = out@;
    let mut k: usize = 0;
    while k < data.len()
        invariant
            k <= data.len(),
            out@ == mid + data@.take(k as int),
        decreases data.len() - k,
    {
        out.push(data[k]);
        proof {
            assert(out@ =~= mid + data@.take(k + 1 as int));
        }
        k += 1;
    }
    proof {
        assert(data@.take(data@.len() as int) =~= data@);
        assert(out@ =~= old(out)@ + spec_push(data@));
    }
}

/// Copy `s[a..b]` into a fresh vector.
pub fn copy_range(s: &Vec<u8>, a: usize, b: usize) -> (r: Vec<u8>)
    requires
        a <= b <= s@.len(),
    ensures
        r@ == s@.subrange(a as int, b as int),
{
    let mut out: Vec<u8> = Vec::new();
    let mut k: usize = a;
    while k < b
        invariant
            a <= k <= b <= s@.len(),
            out@ == s@.subrange(a as int, k as int),
        decreases b - k,
    {
        out.push(s[k]);
        proof {
            assert(out@ =~= s@.subrange(a as int, k + 1 as int));
        }
        k += 1;
    }
    out
}

/// Parse one push at index `i`, mirroring `spec_parse_push`.
pub fn parse_push(s: &Vec<u8>, i: usize) -> (r: Option<(Vec<u8>, usize)>)
    ensures
        match r {
            Some(p) => spec_parse_push(s@, i as int) == Some((p.0@, p.1 as int)) && i < p.1
                <= s@.len(),
            None => spec_parse_push(s@, i as int) is None,
        },
{
    if i >= s.len() {
        return None;
    }
    let op = s[i];
    if op <= 75 {
        let n = op as usize;
        if n <= s.len() - i - 1 {
            let d = copy_range(s, i + 1, i + 1 + n);
            Some((d, i + 1 + n))
        } else {
            None
        }
    } else if op == 0x4c {
        if s.len() - i >= 2 {
            let n = s[i + 1] as usize;
            if n <= s.len() - i - 2 {
                let d = copy_range(s, i + 2, i + 2 + n);
                Some((d, i + 2 + n))
            } else {
                None
            }
        } else {
            None
        }
    } else if op == 0x4d {
        if s.len() - i >= 3 {
            let n = (s[i + 1] as usize) + 256 * (s[i + 2] as usize);
            if n <= s.len() - i - 3 {
                let d = copy_range(s, i + 3, i + 3 + n);
                Some((d, i + 3 + n))
            } else {
                None
            }
        } else {
            None
        }
    } else {
        None
    }
}

/// Concatenation of byte sequences is associative.
pub proof fn seq_assoc(a: Seq<u8>, b: Seq<u8>, c: Seq<u8>)
    ensures
        (a + b) + c == a + (b + c),
{
    assert((a + b) + c =~= a + (b + c));
}

/// A window of `s` equal to a concatenation splits into the two parts.
pub proof fn lemma_subrange_split(s: Seq<u8>, i: int, a: Seq<u8>, b: Seq<u8>)
    requires
        0 <= i,
        i + a.len() + b.len() <= s.len(),
        s.subrange(i, i + a.len() + b.len()) == a + b,
    ensures
        s.subrange(i, i + a.len()) == a,
        s.subrange(i + a.len(), i + a.len() + b.len()) == b,
{
    let w = s.subrange(i, i + a.len() + b.len());
    assert(s.subrange(i, i + a.len()) =~= a) by {
        assert forall|k: int| 0 <= k < a.len() implies s.subrange(i, i + a.len() as int)[k] == a[k]
        by {
            assert(w[k] == s[i + k]);
        }
    }
    assert(s.subrange(i + a.len(), i + a.len() + b.len()) =~= b) by {
        assert forall|k: int|
            0 <= k < b.len() implies s.subrange(
            i + a.len(),
            i + a.len() + b.len(),
        )[k] == b[k] by {
            assert(w[a.len() + k] == s[i + a.len() + k]);
        }
    }
}

} // verus!
