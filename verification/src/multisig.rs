//! Multisig descriptor extraction and assembly: scan each participant's
//! exported descriptors for the external (`/0/*`) and internal (`/1/*`)
//! watch-only entries, strip origin-path prefixes and script-wrapper
//! suffixes, and assemble the fixed-arity sorted-multisig descriptor
//! pair for N-of-3 funding.

use vstd::prelude::*;

use crate::errors::UtilsError;
use crate::script::{copy_range, seq_assoc};

verus! {

/// A created multisig wallet: its name, the required signer count, and
/// the participating wallet names.
#[derive(Debug, PartialEq, Eq)]
pub struct MultisigWallet {
    pub name: String,
    pub nrequired: u32,
    pub signers: Vec<String>,
}

/// One participant's extracted extended keys: the external and internal
/// watch-only key expressions, origin paths stripped.
#[derive(Debug, PartialEq, Eq)]
pub struct ParticipantXpubs {
    pub external: Vec<u8>,
    pub internal: Vec<u8>,
}

/// The view of a list of byte strings.
pub open spec fn view_list(ds: Seq<Vec<u8>>) -> Seq<Seq<u8>> {
    Seq::new(ds.len(), |i: int| ds[i]@)
}

/// The bytes of "wpkh", the watch-only descriptor prefix looked for.
pub open spec fn wpkh_prefix() -> Seq<u8> {
    seq![0x77u8, 0x70u8, 0x6bu8, 0x68u8]
}

/// The bytes of "/0/*", the external derivation suffix.
pub open spec fn external_path_marker() -> Seq<u8> {
    seq![0x2fu8, 0x30u8, 0x2fu8, 0x2au8]
}

/// The bytes of "/1/*", the internal derivation suffix.
pub open spec fn internal_path_marker() -> Seq<u8> {
    seq![0x2fu8, 0x31u8, 0x2fu8, 0x2au8]
}

/// `p` occurs in `s` starting at `i`.
pub open spec fn has_sub_at(s: Seq<u8>, p: Seq<u8>, i: int) -> bool {
    0 <= i && i + p.len() <= s.len() && s.subrange(i, i + p.len()) == p
}

/// `p` occurs somewhere in `s`.
pub open spec fn has_sub(s: Seq<u8>, p: Seq<u8>) -> bool {
    exists|i: int| has_sub_at(s, p, i)
}

/// The index of the last occurrence of `b` in `s`, or -1 when absent.
pub open spec fn last_index_of(s: Seq<u8>, b: u8) -> int
    decreases s.len(),
{
    if s.len() == 0 {
        -1
    } else if s[s.len() - 1] == b {
        s.len() - 1
    } else {
        last_index_of(s.drop_last(), b)
    }
}

/// The index of the first occurrence of `b` in `s`, or `s.len()` when
/// absent.
pub open spec fn first_index_of(s: Seq<u8>, b: u8) -> int
    decreases s.len(),
{
    if s.len() == 0 {
        0
    } else if s[0] == b {
        0
    } else {
        1 + first_index_of(s.drop_first(), b)
    }
}

/// Strip a descriptor string down to its key expression: take what
/// follows the last ']' (dropping the origin-path prefix), then what
/// precedes the first ')' (dropping the script-wrapper suffix).
pub open spec fn strip_xpub(s: Seq<u8>) -> Seq<u8> {
    let t = if last_index_of(s, 0x5d) >= 0 {
        s.subrange(last_index_of(s, 0x5d) + 1, s.len() as int)
    } else {
        s
    };
    t.subrange(0, first_index_of(t, 0x29))
}

/// A watch-only descriptor for the wanted derivation: it starts with
/// "wpkh" and contains the derivation suffix.
pub open spec fn matches_descriptor(d: Seq<u8>, marker: Seq<u8>) -> bool {
    wpkh_prefix().is_prefix_of(d) && has_sub(d, marker)
}

/// The first descriptor matching the derivation suffix, if any.
pub open spec fn find_matching(ds: Seq<Seq<u8>>, marker: Seq<u8>) -> Option<Seq<u8>>
    decreases ds.len(),
{
    if ds.len() == 0 {
        None
    } else if matches_descriptor(ds[0], marker) {
        Some(ds[0])
    } else {
        find_matching(ds.drop_first(), marker)
    }
}

/// A participant's stripped external key expression, if their descriptor
/// set holds an external watch-only entry.
pub open spec fn participant_external(ds: Seq<Vec<u8>>) -> Option<Seq<u8>> {
    match find_matching(view_list(ds), external_path_marker()) {
        Some(d) => Some(strip_xpub(d)),
        None => None,
    }
}

/// A participant's stripped internal key expression, if their descriptor
/// set holds an internal watch-only entry.
pub open spec fn participant_internal(ds: Seq<Vec<u8>>) -> Option<Seq<u8>> {
    match find_matching(view_list(ds), internal_path_marker()) {
        Some(d) => Some(strip_xpub(d)),
        None => None,
    }
}

proof fn lemma_first_index_range(s: Seq<u8>, b: u8)
    ensures
        0 <= first_index_of(s, b) <= s.len(),
    decreases s.len(),
{
    if s.len() > 0 && s[0] != b {
        lemma_first_index_range(s.drop_first(), b);
    }
}

proof fn lemma_first_index_found(s: Seq<u8>, b: u8, idx: int)
    requires
        0 <= idx < s.len(),
        s[idx] == b,
        forall|j: int| 0 <= j < idx ==> s[j] != b,
    ensures
        first_index_of(s, b) == idx,
    decreases idx,
{
    if idx > 0 {
        assert forall|j: int| 0 <= j < idx - 1 implies s.drop_first()[j] != b by {
            assert(s.drop_first()[j] == s[j + 1]);
        }
        assert(s.drop_first()[idx - 1] == s[idx]);
        lemma_first_index_found(s.drop_first(), b, idx - 1);
    }
}

proof fn lemma_first_index_absent(s: Seq<u8>, b: u8)
    requires
        forall|j: int| 0 <= j < s.len() ==> s[j] != b,
    ensures
        first_index_of(s, b) == s.len(),
    decreases s.len(),
{
    if s.len() > 0 {
        assert forall|j: int| 0 <= j < s.drop_first().len() implies s.drop_first()[j] != b by {
            assert(s.drop_first()[j] == s[j + 1]);
        }
        lemma_first_index_absent(s.drop_first(), b);
    }
}

proof fn lemma_last_index_found(s: Seq<u8>, b: u8, idx: int)
    requires
        0 <= idx < s.len(),
        s[idx] == b,
        forall|j: int| idx < j < s.len() ==> s[j] != b,
    ensures
        last_index_of(s, b) == idx,
    decreases s.len(),
{
    if idx < s.len() - 1 {
        assert(s.drop_last()[idx] == s[idx]);
        assert forall|j: int| idx < j < s.drop_last().len() implies s.drop_last()[j] != b by {
            assert(s.drop_last()[j] == s[j]);
        }
        lemma_last_index_found(s.drop_last(), b, idx);
    }
}

proof fn lemma_last_index_absent(s: Seq<u8>, b: u8)
    requires
        forall|j: int| 0 <= j < s.len() ==> s[j] != b,
    ensures
        last_index_of(s, b) == -1,
    decreases s.len(),
{
    if s.len() > 0 {
        assert forall|j: int| 0 <= j < s.drop_last().len() implies s.drop_last()[j] != b by {
            assert(s.drop_last()[j] == s[j]);
        }
        lemma_last_index_absent(s.drop_last(), b);
    }
}

fn find_last_byte(s: &Vec<u8>, b: u8) -> (r: Option<usize>)
    ensures
        match r {
            Some(i) => i < s@.len() && last_index_of(s@, b) == i,
            None => last_index_of(s@, b) == -1,
        },
{
    let mut k: usize = s.len();
    while k > 0
        invariant
            k <= s@.len(),
            forall|j: int| k <= j < s@.len() ==> s@[j] != b,
        decreases k,
    {
        k -= 1;
        if s[k] == b {
            proof {
                lemma_last_index_found(s@, b, k as int);
            }
            return Some(k);
        }
    }
    proof {
        lemma_last_index_absent(s@, b);
    }
    None
}

fn find_first_byte(s: &Vec<u8>, b: u8) -> (r: usize)
    ensures
        r == first_index_of(s@, b),
        r <= s@.len(),
{
    let mut k: usize = 0;
    while k < s.len()
        invariant
            k <= s@.len(),
            forall|j: int| 0 <= j < k ==> s@[j] != b,
        decreases s@.len() - k,
    {
        if s[k] == b {
            proof {
                lemma_first_index_found(s@, b, k as int);
            }
            return k;
        }
        k += 1;
    }
    proof {
        lemma_first_index_absent(s@, b);
    }
    s.len()
}

/// Strip a descriptor to its key expression, as `strip_xpub` describes.
fn strip_xpub_exec(s: &Vec<u8>) -> (r: Vec<u8>)
    ensures
        r@ == strip_xpub(s@),
{
    let n = s.len();
    let start = match find_last_byte(s, 0x5d) {
        Some(i) => {
            proof {
                assert(i < n);
            }
            i + 1
        },
        None => 0,
    };
    let t = copy_range(s, start, s.len());
    proof {
        if last_index_of(s@, 0x5d) >= 0 {
        } else {
            assert(t@ =~= s@);
        }
    }
    let close = find_first_byte(&t, 0x29);
    let r = copy_range(&t, 0, close);
    proof {
        lemma_first_index_range(t@, 0x29);
    }
    r
}

fn match_at(s: &Vec<u8>, p: &Vec<u8>, i: usize) -> (r: bool)
    requires
        i + p@.len() <= s@.len(),
    ensures
        r == has_sub_at(s@, p@, i as int),
{
    let n = s.len();
    proof {
        assert(i + p@.len() <= n);
    }
    let mut k: usize = 0;
    while k < p.len()
        invariant
            n == s@.len(),
            k <= p@.len(),
            i + p@.len() <= s@.len(),
            forall|j: int| 0 <= j < k ==> s@[i + j] == p@[j],
        decreases p@.len() - k,
    {
        if s[i + k] != p[k] {
            proof {
                if has_sub_at(s@, p@, i as int) {
                    assert(s@.subrange(i as int, i + p@.len())[k as int] == s@[i + k]);
                }
            }
            return false;
        }
        k += 1;
    }
    proof {
        assert(s@.subrange(i as int, i + p@.len()) =~= p@);
    }
    true
}

fn starts_with(s: &Vec<u8>, p: &Vec<u8>) -> (r: bool)
    ensures
        r == p@.is_prefix_of(s@),
{
    if p.len() > s.len() {
        return false;
    }
    let r = match_at(s, p, 0);
    proof {
        assert(s@.subrange(0, p@.len() as int) == s@.subrange(0 as int, 0 + p@.len() as int));
    }
    r
}

fn contains_sub(s: &Vec<u8>, p: &Vec<u8>) -> (r: bool)
    ensures
        r == has_sub(s@, p@),
{
    if p.len() > s.len() {
        proof {
            assert(!has_sub(s@, p@)) by {
                if has_sub(s@, p@) {
                    let i = choose|i: int| has_sub_at(s@, p@, i);
                }
            }
        }
        return false;
    }
    if p.len() == 0 {
        proof {
            assert(s@.subrange(0, 0) =~= p@);
            assert(has_sub_at(s@, p@, 0));
        }
        return true;
    }
    let n = s.len();
    let mut i: usize = 0;
    while i <= s.len() - p.len()
        invariant
            n == s@.len(),
            p@.len() >= 1,
            p@.len() <= s@.len(),
            i <= s@.len() - p@.len() + 1,
            forall|j: int| 0 <= j < i ==> !has_sub_at(s@, p@, j),
        decreases s@.len() - p@.len() + 1 - i,
    {
        if match_at(s, p, i) {
            return true;
        }
        i += 1;
    }
    proof {
        assert(!has_sub(s@, p@)) by {
            if has_sub(s@, p@) {
                let j = choose|j: int| has_sub_at(s@, p@, j);
                assert(j < i);
            }
        }
    }
    false
}

fn wpkh_pattern() -> (r: Vec<u8>)
    ensures
        r@ == wpkh_prefix(),
{
    let mut v: Vec<u8> = Vec::new();
    v.push(0x77u8);
    v.push(0x70u8);
    v.push(0x6bu8);
    v.push(0x68u8);
    proof {
        assert(v@ =~= wpkh_prefix());
    }
    v
}

fn path_marker(internal: bool) -> (r: Vec<u8>)
    ensures
        r@ == if internal {
            internal_path_marker()
        } else {
            external_path_marker()
        },
{
    let mut v: Vec<u8> = Vec::new();
    v.push(0x2fu8);
    if internal {
        v.push(0x31u8);
    } else {
        v.push(0x30u8);
    }
    v.push(0x2fu8);
    v.push(0x2au8);
    proof {
        if internal {
            assert(v@ =~= internal_path_marker());
        } else {
            assert(v@ =~= external_path_marker());
        }
    }
    v
}

fn find_descriptor(ds: &Vec<Vec<u8>>, marker: &Vec<u8>) -> (r: Option<Vec<u8>>)
    ensures
        match r {
            Some(d) => find_matching(view_list(ds@), marker@) == Some(d@),
            None => find_matching(view_list(ds@), marker@) is None,
        },
{
    let ghost dv = view_list(ds@);
    let wpkh = wpkh_pattern();
    proof {
        assert(dv.skip(0) =~= dv);
    }
    let mut i: usize = 0;
    while i < ds.len()
        invariant
            i <= ds@.len(),
            dv == view_list(ds@),
            dv.len() == ds@.len(),
            wpkh@ == wpkh_prefix(),
            find_matching(dv, marker@) == find_matching(dv.skip(i as int), marker@),
        decreases ds@.len() - i,
    {
        let d = &ds[i];
        proof {
            assert(dv.skip(i as int)[0] == dv[i as int]);
            assert(dv[i as int] == ds@[i as int]@);
            assert(dv.skip(i as int).drop_first() =~= dv.skip(i + 1 as int));
        }
        if starts_with(d, &wpkh) && contains_sub(d, marker) {
            return Some(copy_range(d, 0, d.len()));
        }
        i += 1;
    }
    proof {
        assert(dv.skip(dv.len() as int) =~= Seq::<Seq<u8>>::empty());
    }
    None
}

/// Extract one participant's external (`/0/*`) and internal (`/1/*`)
/// watch-only key expressions from their exported descriptor strings,
/// stripping origin-path prefixes and script-wrapper suffixes. Fails with
/// `DescriptorNotFound` exactly when either pattern is absent.
pub fn extract_int_ext_xpubs(descriptors: &Vec<Vec<u8>>) -> (r: Result<
    ParticipantXpubs,
    UtilsError,
>)
    ensures
        match r {
            Ok(p) => participant_external(descriptors@) == Some(p.external@)
                && participant_internal(descriptors@) == Some(p.internal@),
            Err(e) => e == UtilsError::DescriptorNotFound && (participant_external(descriptors@)
                is None || participant_internal(descriptors@) is None),
        },
        r is Ok <==> (participant_external(descriptors@) is Some && participant_internal(
            descriptors@,
        ) is Some),
{
    let ext_marker = path_marker(false);
    let int_marker = path_marker(true);
    let ext_desc = match find_descriptor(descriptors, &ext_marker) {
        Some(d) => d,
        None => {
            return Err(UtilsError::DescriptorNotFound);
        },
    };
    let int_desc = match find_descriptor(descriptors, &int_marker) {
        Some(d) => d,
        None => {
            return Err(UtilsError::DescriptorNotFound);
        },
    };
    let external = strip_xpub_exec(&ext_desc);
    let internal = strip_xpub_exec(&int_desc);
    Ok(ParticipantXpubs { external, internal })
}

/// The decimal digits of `n`.
pub open spec fn dec_digits(n: nat) -> Seq<u8>
    decreases n,
{
    if n < 10 {
        seq![(0x30 + n) as u8]
    } else {
        dec_digits(n / 10) + seq![(0x30 + n % 10) as u8]
    }
}

fn u32_to_decimal(n: u32) -> (r: Vec<u8>)
    ensures
        r@ == dec_digits(n as nat),
    decreases n,
{
    if n < 10 {
        let mut v: Vec<u8> = Vec::new();
        v.push(0x30u8 + n as u8);
        proof {
            assert(v@ =~= dec_digits(n as nat));
        }
        v
    } else {
        let mut v = u32_to_decimal(n / 10);
        v.push(0x30u8 + (n % 10) as u8);
        proof {
            assert(v@ =~= dec_digits((n / 10) as nat) + seq![(0x30 + (n as nat) % 10) as u8]);
        }
        v
    }
}

/// The bytes of "wsh(sortedmulti(".
pub open spec fn descriptor_open() -> Seq<u8> {
    seq![
        0x77u8, 0x73u8, 0x68u8, 0x28u8, 0x73u8, 0x6fu8, 0x72u8, 0x74u8, 0x65u8, 0x64u8, 0x6du8,
        0x75u8, 0x6cu8, 0x74u8, 0x69u8, 0x28u8,
    ]
}

/// The bytes of ", ".
pub open spec fn descriptor_sep() -> Seq<u8> {
    seq![0x2cu8, 0x20u8]
}

/// The bytes of "))".
pub open spec fn descriptor_close() -> Seq<u8> {
    seq![0x29u8, 0x29u8]
}

/// A fixed-arity sorted-multisig descriptor:
/// `wsh(sortedmulti(n, x0, x1, x2))`.
pub open spec fn spec_multisig_descriptor(n: nat, xs: Seq<Seq<u8>>) -> Seq<u8>
    recommends
        xs.len() == 3,
{
    descriptor_open() + dec_digits(n) + descriptor_sep() + xs[0] + descriptor_sep() + xs[1]
        + descriptor_sep() + xs[2] + descriptor_close()
}

fn push_descriptor_open(out: &mut Vec<u8>)
    ensures
        final(out)@ == old(out)@ + descriptor_open(),
{
    out.push(0x77u8);
    out.push(0x73u8);
    out.push(0x68u8);
    out.push(0x28u8);
    out.push(0x73u8);
    out.push(0x6fu8);
    out.push(0x72u8);
    out.push(0x74u8);
    out.push(0x65u8);
    out.push(0x64u8);
    out.push(0x6du8);
    out.push(0x75u8);
    out.push(0x6cu8);
    out.push(0x74u8);
    out.push(0x69u8);
    out.push(0x28u8);
    proof {
        assert(out@ =~= old(out)@ + descriptor_open());
    }
}

fn push_all(out: &mut Vec<u8>, v: &Vec<u8>)
    ensures
        final(out)@ == old(out)@ + v@,
{
    let mut k: usize = 0;
    while k < v.len()
        invariant
            k <= v.len(),
            out@ == old(out)@ + v@.take(k as int),
        decreases v.len() - k,
    {
        out.push(v[k]);
        proof {
            assert(out@ =~= old(out)@ + v@.take(k + 1 as int));
        }
        k += 1;
    }
    proof {
        assert(v@.take(v@.len() as int) =~= v@);
    }
}

/// Assemble the sorted-multisig descriptor string for exactly three
/// signer keys.
pub fn multisig_descriptor(nrequired: u32, xpubs: &Vec<Vec<u8>>) -> (r: Vec<u8>)
    requires
        xpubs@.len() == 3,
    ensures
        r@ == spec_multisig_descriptor(nrequired as nat, view_list(xpubs@)),
{
    let mut out: Vec<u8> = Vec::new();
    let ghost base = out@;
    let ghost xs = view_list(xpubs@);
    push_descriptor_open(&mut out);
    let num = u32_to_decimal(nrequired);
    push_all(&mut out, &num);
    proof {
        seq_assoc(base, descriptor_open(), dec_digits(nrequired as nat));
    }
    let ghost p1 = descriptor_open() + dec_digits(nrequired as nat);
    out.push(0x2cu8);
    out.push(0x20u8);
    proof {
        assert(out@ =~= (base + p1) + descriptor_sep());
        seq_assoc(base, p1, descriptor_sep());
    }
    let ghost p2 = p1 + descriptor_sep();
    push_all(&mut out, &xpubs[0]);
    proof {
        assert(xs[0] == xpubs@[0]@);
        seq_assoc(base, p2, xs[0]);
    }
    let ghost p3 = p2 + xs[0];
    out.push(0x2cu8);
    out.push(0x20u8);
    proof {
        assert(out@ =~= (base + p3) + descriptor_sep());
        seq_assoc(base, p3, descriptor_sep());
    }
    let ghost p4 = p3 + descriptor_sep();
    push_all(&mut out, &xpubs[1]);
    proof {
        assert(xs[1] == xpubs@[1]@);
        seq_assoc(base, p4, xs[1]);
    }
    let ghost p5 = p4 + xs[1];
    out.push(0x2cu8);
    out.push(0x20u8);
    proof {
        assert(out@ =~= (base + p5) + descriptor_sep());
        seq_assoc(base, p5, descriptor_sep());
    }
    let ghost p6 = p5 + descriptor_sep();
    push_all(&mut out, &xpubs[2]);
    proof {
        assert(xs[2] == xpubs@[2]@);
        seq_assoc(base, p6, xs[2]);
    }
    let ghost p7 = p6 + xs[2];
    out.push(0x29u8);
    out.push(0x29u8);
    proof {
        assert(out@ =~= (base + p7) + descriptor_close());
        seq_assoc(base, p7, descriptor_close());
        assert(spec_multisig_descriptor(nrequired as nat, xs) == p7 + descriptor_close());
        assert(base + (p7 + descriptor_close()) =~= p7 + descriptor_close());
    }
    out
}

/// Assemble the external and internal sorted-multisig descriptors for
/// exactly three participants from their exported descriptor sets. Fails
/// with `DescriptorNotFound` exactly when some participant lacks an
/// external or internal watch-only entry.
pub fn multisig_descriptors_for(
    nrequired: u32,
    participants: &Vec<Vec<Vec<u8>>>,
) -> (r: Result<(Vec<u8>, Vec<u8>), UtilsError>)
    requires
        participants@.len() == 3,
        nrequired <= 3,
    ensures
        match r {
            Ok(p) => {
                &&& participant_external(participants@[0]@) is Some
                &&& participant_external(participants@[1]@) is Some
                &&& participant_external(participants@[2]@) is Some
                &&& participant_internal(participants@[0]@) is Some
                &&& participant_internal(participants@[1]@) is Some
                &&& participant_internal(participants@[2]@) is Some
                &&& p.0@ == spec_multisig_descriptor(
                    nrequired as nat,
                    seq![
                        participant_external(participants@[0]@)->Some_0,
                        participant_external(participants@[1]@)->Some_0,
                        participant_external(participants@[2]@)->Some_0,
                    ],
                )
                &&& p.1@ == spec_multisig_descriptor(
                    nrequired as nat,
                    seq![
                        participant_internal(participants@[0]@)->Some_0,
                        participant_internal(participants@[1]@)->Some_0,
                        participant_internal(participants@[2]@)->Some_0,
                    ],
                )
            },
            Err(e) => e == UtilsError::DescriptorNotFound && (exists|k: int|
                0 <= k < 3 && (participant_external(#[trigger] participants@[k]@) is None
                    || participant_internal(participants@[k]@) is None)),
        },
{
    let p0 = match extract_int_ext_xpubs(&participants[0]) {
        Ok(p) => p,
        Err(e) => {
            return Err(e);
        },
    };
    let p1 = match extract_int_ext_xpubs(&participants[1]) {
        Ok(p) => p,
        Err(e) => {
            return Err(e);
        },
    };
    let p2 = match extract_int_ext_xpubs(&participants[2]) {
        Ok(p) => p,
        Err(e) => {
            return Err(e);
        },
    };
    let mut externals: Vec<Vec<u8>> = Vec::new();
    externals.push(p0.external);
    externals.push(p1.external);
    externals.push(p2.external);
    let mut internals: Vec<Vec<u8>> = Vec::new();
    internals.push(p0.internal);
    internals.push(p1.internal);
    internals.push(p2.internal);
    let ext_desc = multisig_descriptor(nrequired, &externals);
    let int_desc = multisig_descriptor(nrequired, &internals);
    proof {
        assert(view_list(externals@) =~= seq![
            participant_external(participants@[0]@)->Some_0,
            participant_external(participants@[1]@)->Some_0,
            participant_external(participants@[2]@)->Some_0,
        ]);
        assert(view_list(internals@) =~= seq![
            participant_internal(participants@[0]@)->Some_0,
            participant_internal(participants@[1]@)->Some_0,
            participant_internal(participants@[2]@)->Some_0,
        ]);
    }
    Ok((ext_desc, int_desc))
}

} // verus!
