//! The envelope codec: serializing typed payloads into a guarded script
//! fragment, and the inverse used for validation.
//!
//! The payload sits between an `OP_FALSE OP_IF` pair and an `OP_ENDIF`, so
//! it is never executed. After the protocol marker, each field is emitted
//! as tag/value push pairs in a fixed order; the body and metadata fields,
//! and only those, may span several chunks of at most the maximum single
//! push size. Every other field must fit in one push.

use vstd::prelude::*;
use vstd::utf8::valid_utf8;
use vstd::utf8::decode_utf8;

use crate::errors::WalletError;
use crate::script::{
    spec_push, spec_parse_push, push_data, parse_push, copy_range, lemma_parse_push_at, seq_assoc,
    lemma_subrange_split,
};

verus! {

pub const CONTENT_TYPE_TAG: u8 = 1;

pub const POINTER_TAG: u8 = 2;

pub const PARENT_TAG: u8 = 3;

pub const METADATA_TAG: u8 = 5;

pub const METAPROTOCOL_TAG: u8 = 7;

pub const CONTENT_ENCODING_TAG: u8 = 9;

pub const DELEGATE_TAG: u8 = 11;

pub const RUNE_TAG: u8 = 13;

/// The largest datum a single script push may carry.
pub const MAX_SCRIPT_ELEMENT_SIZE: usize = 520;

pub const OP_FALSE: u8 = 0x00;

pub const OP_IF: u8 = 0x63;

pub const OP_ENDIF: u8 = 0x68;

/// A structured payload to embed in a reveal script. The two flag pairs
/// (`duplicate_field`, `incomplete_field`) and `unrecognized_even_field`
/// are set during decoding only, never during encoding.
#[derive(Debug, PartialEq, Eq)]
pub struct InscriptionData {
    pub body: Option<Vec<u8>>,
    pub content_encoding: Option<Vec<u8>>,
    pub content_type: Option<Vec<u8>>,
    pub delegate: Option<Vec<u8>>,
    pub duplicate_field: bool,
    pub incomplete_field: bool,
    pub metadata: Option<Vec<u8>>,
    pub metaprotocol: Option<Vec<u8>>,
    pub parents: Vec<Vec<u8>>,
    pub pointer: Option<Vec<u8>>,
    pub rune: Option<Vec<u8>>,
    pub unrecognized_even_field: bool,
}

/// The mathematical model of an envelope: every byte field as a sequence.
#[verifier::ext_equal]
pub ghost struct EnvModel {
    pub body: Option<Seq<u8>>,
    pub content_encoding: Option<Seq<u8>>,
    pub content_type: Option<Seq<u8>>,
    pub delegate: Option<Seq<u8>>,
    pub duplicate_field: bool,
    pub incomplete_field: bool,
    pub metadata: Option<Seq<u8>>,
    pub metaprotocol: Option<Seq<u8>>,
    pub parents: Seq<Seq<u8>>,
    pub pointer: Option<Seq<u8>>,
    pub rune: Option<Seq<u8>>,
    pub unrecognized_even_field: bool,
}

/// The view of an optional byte field.
pub open spec fn view_opt(v: Option<Vec<u8>>) -> Option<Seq<u8>> {
    match v {
        Some(d) => Some(d@),
        None => None,
    }
}

/// The view of the parent list: each entry as a byte sequence.
pub open spec fn view_parents(ps: Seq<Vec<u8>>) -> Seq<Seq<u8>> {
    Seq::new(ps.len(), |i: int| ps[i]@)
}

impl View for InscriptionData {
    type V = EnvModel;

    open spec fn view(&self) -> EnvModel {
        EnvModel {
            body: view_opt(self.body),
            content_encoding: view_opt(self.content_encoding),
            content_type: view_opt(self.content_type),
            delegate: view_opt(self.delegate),
            duplicate_field: self.duplicate_field,
            incomplete_field: self.incomplete_field,
            metadata: view_opt(self.metadata),
            metaprotocol: view_opt(self.metaprotocol),
            parents: view_parents(self.parents@),
            pointer: view_opt(self.pointer),
            rune: view_opt(self.rune),
            unrecognized_even_field: self.unrecognized_even_field,
        }
    }
}

/// The envelope with no fields set and no flags raised.
pub open spec fn empty_model() -> EnvModel {
    EnvModel {
        body: None,
        content_encoding: None,
        content_type: None,
        delegate: None,
        duplicate_field: false,
        incomplete_field: false,
        metadata: None,
        metaprotocol: None,
        parents: Seq::empty(),
        pointer: None,
        rune: None,
        unrecognized_even_field: false,
    }
}

impl Default for InscriptionData {
    /// An empty envelope.
    fn default() -> (res: Self)
        ensures
            res@ == empty_model(),
    {
        let res = InscriptionData {
            body: None,
            content_encoding: None,
            content_type: None,
            delegate: None,
            duplicate_field: false,
            incomplete_field: false,
            metadata: None,
            metaprotocol: None,
            parents: Vec::new(),
            pointer: None,
            rune: None,
            unrecognized_even_field: false,
        };
        proof {
            assert(res@ =~= empty_model());
        }
        res
    }
}

fn clone_opt(v: &Option<Vec<u8>>) -> (r: Option<Vec<u8>>)
    ensures
        view_opt(r) == view_opt(*v),
{
    match v {
        Some(d) => Some(copy_range(d, 0, d.len())),
        None => None,
    }
}

fn clone_parents(ps: &Vec<Vec<u8>>) -> (r: Vec<Vec<u8>>)
    ensures
        view_parents(r@) == view_parents(ps@),
{
    let mut out: Vec<Vec<u8>> = Vec::new();
    let mut i: usize = 0;
    while i < ps.len()
        invariant
            i <= ps.len(),
            out@.len() == i,
            forall|k: int| 0 <= k < i ==> #[trigger] out@[k]@ == ps@[k]@,
        decreases ps.len() - i,
    {
        let entry = &ps[i];
        out.push(copy_range(entry, 0, entry.len()));
        i += 1;
    }
    proof {
        assert(view_parents(out@) =~= view_parents(ps@));
    }
    out
}

impl Clone for InscriptionData {
    /// A field-for-field copy.
    fn clone(&self) -> (res: Self)
        ensures
            res@ == self@,
    {
        let res = InscriptionData {
            body: clone_opt(&self.body),
            content_encoding: clone_opt(&self.content_encoding),
            content_type: clone_opt(&self.content_type),
            delegate: clone_opt(&self.delegate),
            duplicate_field: self.duplicate_field,
            incomplete_field: self.incomplete_field,
            metadata: clone_opt(&self.metadata),
            metaprotocol: clone_opt(&self.metaprotocol),
            parents: clone_parents(&self.parents),
            pointer: clone_opt(&self.pointer),
            rune: clone_opt(&self.rune),
            unrecognized_even_field: self.unrecognized_even_field,
        };
        proof {
            assert(res@ =~= self@);
        }
        res
    }
}

/// `b` occurs somewhere in `s`.
pub open spec fn has_byte(s: Seq<u8>, b: u8) -> bool {
    exists|k: int| 0 <= k < s.len() && s[k] == b
}

/// The guard and protocol marker that open every envelope:
/// `OP_FALSE OP_IF` followed by a push of the three bytes "ord".
pub open spec fn spec_envelope_header() -> Seq<u8> {
    seq![0x00u8, 0x63u8, 0x03u8, 0x6fu8, 0x72u8, 0x64u8]
}

/// One single-push field: a push of the one-byte tag, then a push of the
/// value.
pub open spec fn spec_opt_field(tag: u8, v: Option<Seq<u8>>) -> Seq<u8> {
    match v {
        None => Seq::empty(),
        Some(d) => seq![1u8, tag] + spec_push(d),
    }
}

/// A chunked field: the tag is repeated before every chunk of at most the
/// maximum push size. An empty value emits nothing.
pub open spec fn spec_chunks(tag: u8, d: Seq<u8>) -> Seq<u8>
    decreases d.len(),
{
    if d.len() == 0 {
        Seq::empty()
    } else if d.len() <= 520 {
        seq![1u8, tag] + spec_push(d)
    } else {
        seq![1u8, tag] + spec_push(d.take(520)) + spec_chunks(tag, d.skip(520))
    }
}

/// The repeated parent references, one tag/value pair each, in order.
pub open spec fn spec_parents(ps: Seq<Seq<u8>>) -> Seq<u8>
    decreases ps.len(),
{
    if ps.len() == 0 {
        Seq::empty()
    } else {
        seq![1u8, PARENT_TAG] + spec_push(ps[0]) + spec_parents(ps.drop_first())
    }
}

/// The body chunks: plain pushes with no repeated tag.
pub open spec fn spec_body_chunks(d: Seq<u8>) -> Seq<u8>
    decreases d.len(),
{
    if d.len() == 0 {
        Seq::empty()
    } else if d.len() <= 520 {
        spec_push(d)
    } else {
        spec_push(d.take(520)) + spec_body_chunks(d.skip(520))
    }
}

/// The body section: an empty push as marker, then the chunks.
pub open spec fn spec_body_section(b: Option<Seq<u8>>) -> Seq<u8> {
    match b {
        None => Seq::empty(),
        Some(d) => seq![0u8] + spec_body_chunks(d),
    }
}

/// The field blocks of the envelope, in emission order: content type,
/// content encoding, metaprotocol, parents, delegate, pointer, metadata,
/// protocol tag.
pub open spec fn spec_envelope_fields(e: EnvModel) -> Seq<u8> {
    spec_opt_field(CONTENT_TYPE_TAG, e.content_type) + spec_opt_field(
        CONTENT_ENCODING_TAG,
        e.content_encoding,
    ) + spec_opt_field(METAPROTOCOL_TAG, e.metaprotocol) + spec_parents(e.parents)
        + spec_opt_field(DELEGATE_TAG, e.delegate) + spec_opt_field(POINTER_TAG, e.pointer) + (
    match e.metadata {
        None => Seq::empty(),
        Some(d) => spec_chunks(METADATA_TAG, d),
    }) + spec_opt_field(RUNE_TAG, e.rune)
}

/// The first four field blocks.
pub open spec fn spec_fields_a(e: EnvModel) -> Seq<u8> {
    spec_opt_field(CONTENT_TYPE_TAG, e.content_type) + spec_opt_field(
        CONTENT_ENCODING_TAG,
        e.content_encoding,
    ) + spec_opt_field(METAPROTOCOL_TAG, e.metaprotocol) + spec_parents(e.parents)
}

/// The last four field blocks.
pub open spec fn spec_fields_b(e: EnvModel) -> Seq<u8> {
    spec_opt_field(DELEGATE_TAG, e.delegate) + spec_opt_field(POINTER_TAG, e.pointer) + (
    match e.metadata {
        None => Seq::<u8>::empty(),
        Some(d) => spec_chunks(METADATA_TAG, d),
    }) + spec_opt_field(RUNE_TAG, e.rune)
}

/// The whole encoded envelope.
pub open spec fn spec_encode_envelope(e: EnvModel) -> Seq<u8> {
    spec_envelope_header() + spec_envelope_fields(e) + spec_body_section(e.body) + seq![0x68u8]
}

/// Every single-push field fits in one push.
pub open spec fn fields_fit(e: EnvModel) -> bool {
    &&& (e.content_type matches Some(d) ==> d.len() <= 520)
    &&& (e.content_encoding matches Some(d) ==> d.len() <= 520)
    &&& (e.metaprotocol matches Some(d) ==> d.len() <= 520)
    &&& (e.delegate matches Some(d) ==> d.len() <= 520)
    &&& (e.pointer matches Some(d) ==> d.len() <= 520)
    &&& (e.rune matches Some(d) ==> d.len() <= 520)
    &&& (forall|k: int| 0 <= k < e.parents.len() ==> #[trigger] e.parents[k].len() <= 520)
}

/// The content type, when present, must decode as text and contain a '/'.
pub open spec fn content_type_ok(e: EnvModel) -> bool {
    e.content_type matches Some(ct) ==> (valid_utf8(ct) && has_byte(ct, 0x2f))
}

/// Relies on core::str::from_utf8: it accepts a byte slice exactly when
/// the bytes are valid UTF-8.
#[verifier::external_body]
fn utf8_check(bytes: &Vec<u8>) -> (r: bool)
    ensures
        r == valid_utf8(bytes@),
{
    core::str::from_utf8(bytes.as_slice()).is_ok()
}

/// Relies on alloc's String::from_utf8: it decodes a byte vector exactly
/// when the bytes are valid UTF-8, into their decoded characters.
#[verifier::external_body]
fn bytes_to_string(bytes: &Vec<u8>) -> (r: Option<String>)
    ensures
        match r {
            Some(s) => valid_utf8(bytes@) && s@ == decode_utf8(bytes@),
            None => !valid_utf8(bytes@),
        },
{
    String::from_utf8(bytes.clone()).ok()
}

fn contains_byte(v: &Vec<u8>, b: u8) -> (r: bool)
    ensures
        r == has_byte(v@, b),
{
    let mut k: usize = 0;
    while k < v.len()
        invariant
            k <= v.len(),
            forall|j: int| 0 <= j < k ==> v@[j] != b,
        decreases v.len() - k,
    {
        if v[k] == b {
            return true;
        }
        k += 1;
    }
    false
}

fn opt_fits(v: &Option<Vec<u8>>) -> (r: bool)
    ensures
        r == (view_opt(*v) matches Some(d) ==> d.len() <= 520),
{
    match v {
        None => true,
        Some(d) => d.len() <= MAX_SCRIPT_ELEMENT_SIZE,
    }
}

fn parents_fit(ps: &Vec<Vec<u8>>) -> (r: bool)
    ensures
        r == (forall|k: int|
            0 <= k < view_parents(ps@).len() ==> #[trigger] view_parents(ps@)[k].len() <= 520),
{
    let mut i: usize = 0;
    while i < ps.len()
        invariant
            i <= ps.len(),
            forall|k: int| 0 <= k < i ==> #[trigger] view_parents(ps@)[k].len() <= 520,
        decreases ps.len() - i,
    {
        if ps[i].len() > MAX_SCRIPT_ELEMENT_SIZE {
            proof {
                assert(view_parents(ps@)[i as int].len() > 520);
            }
            return false;
        }
        proof {
            assert(view_parents(ps@)[i as int] == ps@[i as int]@);
        }
        i += 1;
    }
    true
}

fn append_opt_field(out: &mut Vec<u8>, tag: u8, v: &Option<Vec<u8>>)
    requires
        (view_opt(*v) matches Some(d) ==> d.len() <= 520),
    ensures
        final(out)@ == old(out)@ + spec_opt_field(tag, view_opt(*v)),
{
    match v {
        None => {
            proof {
                assert(out@ =~= old(out)@ + spec_opt_field(tag, view_opt(*v)));
            }
        },
        Some(d) => {
            let mut t: Vec<u8> = Vec::new();
            t.push(tag);
            push_data(out, &t);
            push_data(out, d);
            proof {
                assert(t@ =~= seq![tag]);
                assert(spec_push(seq![tag]) =~= seq![1u8, tag]);
                assert(out@ =~= old(out)@ + spec_opt_field(tag, view_opt(*v)));
            }
        },
    }
}

fn append_chunked(out: &mut Vec<u8>, tag: u8, d: &Vec<u8>)
    ensures
        final(out)@ == old(out)@ + spec_chunks(tag, d@),
{
    let ghost base = out@;
    proof {
        assert(d@.skip(0) =~= d@);
    }
    let mut o: usize = 0;
    while d.len() - o > 520
        invariant
            o <= d@.len(),
            out@ + spec_chunks(tag, d@.skip(o as int)) == base + spec_chunks(tag, d@),
        decreases d@.len() - o,
    {
        let chunk = copy_range(d, o, o + 520);
        let mut t: Vec<u8> = Vec::new();
        t.push(tag);
        push_data(out, &t);
        push_data(out, &chunk);
        proof {
            assert(t@ =~= seq![tag]);
            assert(spec_push(seq![tag]) =~= seq![1u8, tag]);
            let rem = d@.skip(o as int);
            assert(rem.take(520) =~= chunk@);
            assert(rem.skip(520) =~= d@.skip(o + 520 as int));
            assert(out@ + spec_chunks(tag, d@.skip(o + 520 as int)) =~= base + spec_chunks(
                tag,
                d@,
            ));
        }
        o += 520;
    }
    if d.len() - o > 0 {
        let chunk = copy_range(d, o, d.len());
        let mut t: Vec<u8> = Vec::new();
        t.push(tag);
        push_data(out, &t);
        push_data(out, &chunk);
        proof {
            assert(t@ =~= seq![tag]);
            assert(spec_push(seq![tag]) =~= seq![1u8, tag]);
            assert(d@.skip(o as int) =~= chunk@);
            assert(out@ =~= base + spec_chunks(tag, d@));
        }
    } else {
        proof {
            assert(d@.skip(o as int) =~= Seq::<u8>::empty());
            assert(out@ =~= base + spec_chunks(tag, d@));
        }
    }
}

fn append_body_chunks(out: &mut Vec<u8>, d: &Vec<u8>)
    ensures
        final(out)@ == old(out)@ + spec_body_chunks(d@),
{
    let ghost base = out@;
    proof {
        assert(d@.skip(0) =~= d@);
    }
    let mut o: usize = 0;
    while d.len() - o > 520
        invariant
            o <= d@.len(),
            out@ + spec_body_chunks(d@.skip(o as int)) == base + spec_body_chunks(d@),
        decreases d@.len() - o,
    {
        let chunk = copy_range(d, o, o + 520);
        push_data(out, &chunk);
        proof {
            let rem = d@.skip(o as int);
            assert(rem.take(520) =~= chunk@);
            assert(rem.skip(520) =~= d@.skip(o + 520 as int));
            assert(out@ + spec_body_chunks(d@.skip(o + 520 as int)) =~= base + spec_body_chunks(
                d@,
            ));
        }
        o += 520;
    }
    if d.len() - o > 0 {
        let chunk = copy_range(d, o, d.len());
        push_data(out, &chunk);
        proof {
            assert(d@.skip(o as int) =~= chunk@);
            assert(out@ =~= base + spec_body_chunks(d@));
        }
    } else {
        proof {
            assert(d@.skip(o as int) =~= Seq::<u8>::empty());
            assert(out@ =~= base + spec_body_chunks(d@));
        }
    }
}

fn append_parents(out: &mut Vec<u8>, ps: &Vec<Vec<u8>>)
    requires
        forall|k: int|
            0 <= k < view_parents(ps@).len() ==> #[trigger] view_parents(ps@)[k].len() <= 520,
    ensures
        final(out)@ == old(out)@ + spec_parents(view_parents(ps@)),
{
    let ghost base = out@;
    let ghost pv = view_parents(ps@);
    proof {
        assert(pv.skip(0) =~= pv);
    }
    let mut i: usize = 0;
    while i < ps.len()
        invariant
            i <= ps.len(),
            pv == view_parents(ps@),
            pv.len() == ps@.len(),
            forall|k: int| 0 <= k < pv.len() ==> #[trigger] pv[k].len() <= 520,
            out@ + spec_parents(pv.skip(i as int)) == base + spec_parents(pv),
        decreases ps.len() - i,
    {
        let entry = &ps[i];
        proof {
            assert(pv[i as int] == ps@[i as int]@);
        }
        let mut t: Vec<u8> = Vec::new();
        t.push(PARENT_TAG);
        push_data(out, &t);
        push_data(out, entry);
        proof {
            assert(t@ =~= seq![PARENT_TAG]);
            assert(spec_push(seq![PARENT_TAG]) =~= seq![1u8, PARENT_TAG]);
            let rem = pv.skip(i as int);
            assert(rem[0] == pv[i as int]);
            assert(rem.drop_first() =~= pv.skip(i + 1 as int));
            assert(out@ + spec_parents(pv.skip(i + 1 as int)) =~= base + spec_parents(pv));
        }
        i += 1;
    }
    proof {
        assert(pv.skip(pv.len() as int) =~= Seq::<Seq<u8>>::empty());
        assert(out@ =~= base + spec_parents(pv));
    }
}

/// Append every field block of the envelope, in emission order.
fn append_all_fields(out: &mut Vec<u8>, d: &InscriptionData)
    requires
        fields_fit(d@),
    ensures
        final(out)@ == old(out)@ + spec_envelope_fields(d@),
{
    let ghost m = d@;
    proof {
        assert(m.parents == view_parents(d.parents@));
        assert(forall|k: int|
            0 <= k < view_parents(d.parents@).len() ==> #[trigger] view_parents(
                d.parents@,
            )[k].len() <= 520);
    }
    let ghost base = out@;
    let ghost b1 = spec_opt_field(CONTENT_TYPE_TAG, m.content_type);
    let ghost b2 = spec_opt_field(CONTENT_ENCODING_TAG, m.content_encoding);
    let ghost b3 = spec_opt_field(METAPROTOCOL_TAG, m.metaprotocol);
    let ghost b4 = spec_parents(m.parents);
    let ghost b5 = spec_opt_field(DELEGATE_TAG, m.delegate);
    let ghost b6 = spec_opt_field(POINTER_TAG, m.pointer);
    let ghost b7 = (match m.metadata {
        None => Seq::<u8>::empty(),
        Some(md) => spec_chunks(METADATA_TAG, md),
    });
    let ghost b8 = spec_opt_field(RUNE_TAG, m.rune);
    append_opt_field(out, CONTENT_TYPE_TAG, &d.content_type);
    append_opt_field(out, CONTENT_ENCODING_TAG, &d.content_encoding);
    proof {
        seq_assoc(base, b1, b2);
    }
    append_opt_field(out, METAPROTOCOL_TAG, &d.metaprotocol);
    proof {
        seq_assoc(base, b1 + b2, b3);
    }
    append_parents(out, &d.parents);
    proof {
        seq_assoc(base, b1 + b2 + b3, b4);
    }
    append_opt_field(out, DELEGATE_TAG, &d.delegate);
    proof {
        seq_assoc(base, b1 + b2 + b3 + b4, b5);
    }
    append_opt_field(out, POINTER_TAG, &d.pointer);
    proof {
        seq_assoc(base, b1 + b2 + b3 + b4 + b5, b6);
    }
    match &d.metadata {
        Some(md) => append_chunked(out, METADATA_TAG, md),
        None => {
            proof {
                assert((base + (b1 + b2 + b3 + b4 + b5 + b6)) + b7 =~= base + (b1 + b2 + b3 + b4
                    + b5 + b6));
            }
        },
    }
    proof {
        seq_assoc(base, b1 + b2 + b3 + b4 + b5 + b6, b7);
    }
    append_opt_field(out, RUNE_TAG, &d.rune);
    proof {
        seq_assoc(base, b1 + b2 + b3 + b4 + b5 + b6 + b7, b8);
        assert(spec_envelope_fields(m) == b1 + b2 + b3 + b4 + b5 + b6 + b7 + b8);
    }
}

fn check_fields_fit(d: &InscriptionData) -> (r: bool)
    ensures
        r == fields_fit(d@),
{
    let f1 = opt_fits(&d.content_type);
    let f2 = opt_fits(&d.content_encoding);
    let f3 = opt_fits(&d.metaprotocol);
    let f4 = opt_fits(&d.delegate);
    let f5 = opt_fits(&d.pointer);
    let f6 = opt_fits(&d.rune);
    let f7 = parents_fit(&d.parents);
    proof {
        assert(d@.content_type == view_opt(d.content_type));
        assert(d@.content_encoding == view_opt(d.content_encoding));
        assert(d@.metaprotocol == view_opt(d.metaprotocol));
        assert(d@.delegate == view_opt(d.delegate));
        assert(d@.pointer == view_opt(d.pointer));
        assert(d@.rune == view_opt(d.rune));
        assert(d@.parents == view_parents(d.parents@));
    }
    f1 && f2 && f3 && f4 && f5 && f6 && f7
}

impl InscriptionData {
    /// Append the encoded envelope to an already started script. Fails
    /// with `InvalidContentType` when the content type is not text with a
    /// '/', and with `FieldTooLarge` when a single-push field exceeds the
    /// maximum push size.
    #[verifier::rlimit(60)]
    pub fn append_reveal_script_to_builder(&self, builder: Vec<u8>) -> (r: Result<
        Vec<u8>,
        WalletError,
    >)
        ensures
            r matches Ok(v) ==> v@ == builder@ + spec_encode_envelope(self@),
            r is Ok <==> (content_type_ok(self@) && fields_fit(self@)),
            r == Err::<Vec<u8>, WalletError>(WalletError::InvalidContentType) <==> !content_type_ok(
                self@,
            ),
            r == Err::<Vec<u8>, WalletError>(WalletError::FieldTooLarge) <==> (content_type_ok(
                self@,
            ) && !fields_fit(self@)),
    {
        match &self.content_type {
            Some(ct) => {
                if !utf8_check(ct) {
                    return Err(WalletError::InvalidContentType);
                }
                if !contains_byte(ct, 0x2f) {
                    return Err(WalletError::InvalidContentType);
                }
            },
            None => {},
        }
        if !check_fields_fit(self) {
            return Err(WalletError::FieldTooLarge);
        }
        let mut out = builder;
        let ghost start = out@;
        out.push(OP_FALSE);
        out.push(OP_IF);
        let mut proto: Vec<u8> = Vec::new();
        proto.push(0x6fu8);
        proto.push(0x72u8);
        proto.push(0x64u8);
        push_data(&mut out, &proto);
        proof {
            assert(proto@ =~= seq![0x6fu8, 0x72u8, 0x64u8]);
            assert(out@ =~= start + spec_envelope_header());
        }
        let ghost m = self@;
        append_all_fields(&mut out, self);
        let ghost h2 = spec_envelope_header() + spec_envelope_fields(m);
        proof {
            seq_assoc(start, spec_envelope_header(), spec_envelope_fields(m));
        }
        match &self.body {
            Some(d) => {
                out.push(0x00u8);
                proof {
                    assert(out@ =~= (start + h2) + seq![0x00u8]);
                }
                append_body_chunks(&mut out, d);
                proof {
                    seq_assoc(start + h2, seq![0x00u8], spec_body_chunks(d@));
                    seq_assoc(start, h2, spec_body_section(m.body));
                }
            },
            None => {
                proof {
                    assert((start + h2) + spec_body_section(m.body) =~= start + h2);
                    seq_assoc(start, h2, spec_body_section(m.body));
                }
            },
        }
        let ghost h3 = h2 + spec_body_section(m.body);
        out.push(OP_ENDIF);
        proof {
            assert(out@ =~= (start + h3) + seq![0x68u8]);
            seq_assoc(start, h3, seq![0x68u8]);
            assert(spec_encode_envelope(m) == h3 + seq![0x68u8]);
        }
        Ok(out)
    }

    /// The encoded envelope as a standalone script, starting from the
    /// given (normally empty) script prefix.
    pub fn reveal_script_as_scriptbuf(&self, builder: Vec<u8>) -> (r: Result<Vec<u8>, WalletError>)
        ensures
            r matches Ok(v) ==> v@ == builder@ + spec_encode_envelope(self@),
            r is Ok <==> (content_type_ok(self@) && fields_fit(self@)),
            r == Err::<Vec<u8>, WalletError>(WalletError::InvalidContentType) <==> !content_type_ok(
                self@,
            ),
            r == Err::<Vec<u8>, WalletError>(WalletError::FieldTooLarge) <==> (content_type_ok(
                self@,
            ) && !fields_fit(self@)),
    {
        self.append_reveal_script_to_builder(builder)
    }

    /// The envelope unchanged when its content type, if any, is valid
    /// text containing a '/'; `InvalidContentType` otherwise.
    pub fn validate_content_type(&self) -> (r: Result<InscriptionData, WalletError>)
        ensures
            r matches Ok(d) ==> d@ == self@,
            r is Ok <==> content_type_ok(self@),
            r is Err ==> r == Err::<InscriptionData, WalletError>(WalletError::InvalidContentType),
    {
        match &self.content_type {
            Some(ct) => {
                if !utf8_check(ct) {
                    return Err(WalletError::InvalidContentType);
                }
                if !contains_byte(ct, 0x2f) {
                    return Err(WalletError::InvalidContentType);
                }
            },
            None => {},
        }
        Ok(self.clone())
    }

    /// The body decoded as text, when present and valid.
    pub fn body(&self) -> (r: Option<String>)
        ensures
            match r {
                Some(s) => self@.body matches Some(b) && valid_utf8(b) && s@ == decode_utf8(b),
                None => (self@.body matches Some(b) ==> !valid_utf8(b)),
            },
    {
        match &self.body {
            Some(b) => bytes_to_string(b),
            None => None,
        }
    }

    /// The content type decoded as text, when present and valid.
    pub fn content_type(&self) -> (r: Option<String>)
        ensures
            match r {
                Some(s) => self@.content_type matches Some(b) && valid_utf8(b) && s@
                    == decode_utf8(b),
                None => (self@.content_type matches Some(b) ==> !valid_utf8(b)),
            },
    {
        match &self.content_type {
            Some(b) => bytes_to_string(b),
            None => None,
        }
    }
}

/// A tag the decoder knows.
pub open spec fn is_known_tag(t: u8) -> bool {
    t == CONTENT_TYPE_TAG || t == POINTER_TAG || t == PARENT_TAG || t == METADATA_TAG || t
        == METAPROTOCOL_TAG || t == CONTENT_ENCODING_TAG || t == DELEGATE_TAG || t == RUNE_TAG
}

/// Fold one decoded tag/value pair into the envelope. A repeated
/// non-repeatable tag raises the duplicate flag and keeps the first value;
/// parents collect in order; metadata chunks concatenate; an unknown even
/// tag raises the forward-compatibility flag; an unknown odd tag is
/// ignored entirely.
pub open spec fn apply_tag(m: EnvModel, tag: u8, val: Seq<u8>) -> EnvModel {
    if tag == CONTENT_TYPE_TAG {
        if m.content_type is None {
            EnvModel { content_type: Some(val), ..m }
        } else {
            EnvModel { duplicate_field: true, ..m }
        }
    } else if tag == POINTER_TAG {
        if m.pointer is None {
            EnvModel { pointer: Some(val), ..m }
        } else {
            EnvModel { duplicate_field: true, ..m }
        }
    } else if tag == PARENT_TAG {
        EnvModel { parents: m.parents.push(val), ..m }
    } else if tag == METADATA_TAG {
        EnvModel {
            metadata: Some(
                match m.metadata {
                    None => val,
                    Some(p) => p + val,
                },
            ),
            ..m
        }
    } else if tag == METAPROTOCOL_TAG {
        if m.metaprotocol is None {
            EnvModel { metaprotocol: Some(val), ..m }
        } else {
            EnvModel { duplicate_field: true, ..m }
        }
    } else if tag == CONTENT_ENCODING_TAG {
        if m.content_encoding is None {
            EnvModel { content_encoding: Some(val), ..m }
        } else {
            EnvModel { duplicate_field: true, ..m }
        }
    } else if tag == DELEGATE_TAG {
        if m.delegate is None {
            EnvModel { delegate: Some(val), ..m }
        } else {
            EnvModel { duplicate_field: true, ..m }
        }
    } else if tag == RUNE_TAG {
        if m.rune is None {
            EnvModel { rune: Some(val), ..m }
        } else {
            EnvModel { duplicate_field: true, ..m }
        }
    } else if tag % 2 == 0 {
        EnvModel { unrecognized_even_field: true, ..m }
    } else {
        m
    }
}

/// Parse body chunks from index `i` until the closing `OP_ENDIF`, which
/// must be the last script byte; `acc` carries the chunks read so far.
pub open spec fn spec_parse_body(s: Seq<u8>, i: int, acc: Seq<u8>) -> Option<(Seq<u8>, int)>
    decreases s.len() - i,
{
    if i < 0 || i >= s.len() {
        None
    } else if s[i] == 0x68 {
        if i + 1 == s.len() {
            Some((acc, i + 1))
        } else {
            None
        }
    } else {
        match spec_parse_push(s, i) {
            None => None,
            Some(p) => spec_parse_body(s, p.1, acc + p.0),
        }
    }
}

/// Parse tag/value pairs from index `i` until the closing `OP_ENDIF`
/// (which must end the script) or the empty-push body marker, folding each
/// pair into `m`. A tag push that is not empty and not a single byte, or a
/// tag left without a value before anything but the end, refuses the
/// script.
pub open spec fn spec_parse_fields(s: Seq<u8>, i: int, m: EnvModel) -> Option<(EnvModel, int)>
    decreases s.len() - i,
{
    if i < 0 || i >= s.len() {
        None
    } else if s[i] == 0x68 {
        if i + 1 == s.len() {
            Some((m, i + 1))
        } else {
            None
        }
    } else {
        match spec_parse_push(s, i) {
            None => None,
            Some(p) => if p.0.len() == 0 {
                match spec_parse_body(s, p.1, Seq::empty()) {
                    None => None,
                    Some(b) => Some((EnvModel { body: Some(b.0), ..m }, b.1)),
                }
            } else if p.0.len() == 1 {
                if p.1 < s.len() && s[p.1] == 0x68 {
                    if p.1 + 1 == s.len() {
                        Some((EnvModel { incomplete_field: true, ..m }, p.1 + 1))
                    } else {
                        None
                    }
                } else {
                    match spec_parse_push(s, p.1) {
                        None => None,
                        Some(q) => spec_parse_fields(s, q.1, apply_tag(m, p.0[0], q.0)),
                    }
                }
            } else {
                None
            },
        }
    }
}

/// The decoded envelope: the header must open the script, and the fields
/// run to its final byte.
pub open spec fn spec_decode_envelope(s: Seq<u8>) -> Option<EnvModel> {
    if s.len() >= 6 && s.subrange(0, 6) == spec_envelope_header() {
        match spec_parse_fields(s, 6, empty_model()) {
            None => None,
            Some(p) => Some(p.0),
        }
    } else {
        None
    }
}

fn apply_tag_exec(cur: &mut InscriptionData, tag: u8, val: Vec<u8>)
    ensures
        final(cur)@ == apply_tag(old(cur)@, tag, val@),
{
    if tag == CONTENT_TYPE_TAG {
        if cur.content_type.is_none() {
            cur.content_type = Some(val);
        } else {
            cur.duplicate_field = true;
        }
    } else if tag == POINTER_TAG {
        if cur.pointer.is_none() {
            cur.pointer = Some(val);
        } else {
            cur.duplicate_field = true;
        }
    } else if tag == PARENT_TAG {
        cur.parents.push(val);
        proof {
            assert(view_parents(cur.parents@) =~= old(cur)@.parents.push(val@));
        }
    } else if tag == METADATA_TAG {
        let prev = cur.metadata.take();
        let mut base = match prev {
            Some(v) => v,
            None => Vec::new(),
        };
        let mut chunk = val;
        base.append(&mut chunk);
        cur.metadata = Some(base);
        proof {
            match old(cur)@.metadata {
                None => {
                    assert(cur@.metadata == Some(Seq::<u8>::empty() + val@));
                    assert(Seq::<u8>::empty() + val@ =~= val@);
                },
                Some(p) => {},
            }
        }
    } else if tag == METAPROTOCOL_TAG {
        if cur.metaprotocol.is_none() {
            cur.metaprotocol = Some(val);
        } else {
            cur.duplicate_field = true;
        }
    } else if tag == CONTENT_ENCODING_TAG {
        if cur.content_encoding.is_none() {
            cur.content_encoding = Some(val);
        } else {
            cur.duplicate_field = true;
        }
    } else if tag == DELEGATE_TAG {
        if cur.delegate.is_none() {
            cur.delegate = Some(val);
        } else {
            cur.duplicate_field = true;
        }
    } else if tag == RUNE_TAG {
        if cur.rune.is_none() {
            cur.rune = Some(val);
        } else {
            cur.duplicate_field = true;
        }
    } else if tag % 2 == 0 {
        cur.unrecognized_even_field = true;
    }
    proof {
        assert(cur@ =~= apply_tag(old(cur)@, tag, val@));
    }
}

/// Decode a reveal script back into its envelope, the inverse of the
/// encoder, used for validation. Returns nothing when the script is not a
/// well-formed envelope; recoverable oddities (duplicate or unfinished
/// fields, unknown even tags) are reported through the envelope's flags
/// instead.
pub fn decode_reveal_script(script: &Vec<u8>) -> (r: Option<InscriptionData>)
    ensures
        match r {
            Some(d) => spec_decode_envelope(script@) == Some(d@),
            None => spec_decode_envelope(script@) is None,
        },
{
    let ghost s = script@;
    if script.len() < 6 {
        return None;
    }
    if !(script[0] == 0x00 && script[1] == 0x63 && script[2] == 0x03 && script[3] == 0x6f
        && script[4] == 0x72 && script[5] == 0x64) {
        proof {
            assert(s.subrange(0, 6) != spec_envelope_header()) by {
                if s.subrange(0, 6) == spec_envelope_header() {
                    assert(s.subrange(0, 6)[0] == s[0]);
                    assert(s.subrange(0, 6)[1] == s[1]);
                    assert(s.subrange(0, 6)[2] == s[2]);
                    assert(s.subrange(0, 6)[3] == s[3]);
                    assert(s.subrange(0, 6)[4] == s[4]);
                    assert(s.subrange(0, 6)[5] == s[5]);
                }
            }
        }
        return None;
    }
    proof {
        assert(s.subrange(0, 6) =~= spec_envelope_header());
    }
    let mut cur = InscriptionData::default();
    let mut i: usize = 6;
    loop
        invariant
            6 <= i <= s.len(),
            s == script@,
            s.len() >= 6,
            s.subrange(0, 6) == spec_envelope_header(),
            spec_parse_fields(s, 6, empty_model()) == spec_parse_fields(s, i as int, cur@),
        decreases s.len() - i,
    {
        if i >= script.len() {
            return None;
        }
        if script[i] == OP_ENDIF {
            if i + 1 == script.len() {
                return Some(cur);
            } else {
                return None;
            }
        }
        let (tag, j) = match parse_push(script, i) {
            None => {
                return None;
            },
            Some(p) => p,
        };
        if tag.len() == 0 {
            // Body marker: the rest of the script is body chunks.
            let ghost base_model = cur@;
            let mut acc: Vec<u8> = Vec::new();
            let mut k: usize = j;
            proof {
                assert(acc@ =~= Seq::<u8>::empty());
            }
            loop
                invariant
                    j <= k <= s.len(),
                    s == script@,
                    s.len() >= 6,
                    s.subrange(0, 6) == spec_envelope_header(),
                    cur@ == base_model,
                    spec_parse_body(s, j as int, Seq::empty()) == spec_parse_body(
                        s,
                        k as int,
                        acc@,
                    ),
                    spec_parse_fields(s, 6, empty_model()) == (match spec_parse_body(
                        s,
                        j as int,
                        Seq::empty(),
                    ) {
                        None => None::<(EnvModel, int)>,
                        Some(b) => Some((EnvModel { body: Some(b.0), ..base_model }, b.1)),
                    }),
                decreases s.len() - k,
            {
                if k >= script.len() {
                    return None;
                }
                if script[k] == OP_ENDIF {
                    if k + 1 == script.len() {
                        cur.body = Some(acc);
                        proof {
                            assert(cur@ =~= EnvModel { body: Some(acc@), ..base_model });
                        }
                        return Some(cur);
                    } else {
                        return None;
                    }
                }
                let (chunk, k2) = match parse_push(script, k) {
                    None => {
                        return None;
                    },
                    Some(p) => p,
                };
                let mut chunk2 = chunk;
                acc.append(&mut chunk2);
                k = k2;
            }
        } else if tag.len() == 1 {
            if j < script.len() && script[j] == OP_ENDIF {
                if j + 1 == script.len() {
                    cur.incomplete_field = true;
                    return Some(cur);
                } else {
                    return None;
                }
            }
            let (val, k) = match parse_push(script, j) {
                None => {
                    return None;
                },
                Some(p) => p,
            };
            let t0 = tag[0];
            apply_tag_exec(&mut cur, t0, val);
            i = k;
        } else {
            return None;
        }
    }
}

/// One tag/value pair, consumed by the field parser as one `apply_tag`
/// step.
proof fn lemma_parse_fields_pair(s: Seq<u8>, i: int, m: EnvModel, tag: u8, v: Seq<u8>)
    requires
        v.len() <= 520,
        0 <= i,
        i + 2 + spec_push(v).len() <= s.len(),
        s.subrange(i, i + 2 + spec_push(v).len()) == seq![1u8, tag] + spec_push(v),
    ensures
        spec_parse_fields(s, i, m) == spec_parse_fields(
            s,
            i + 2 + spec_push(v).len(),
            apply_tag(m, tag, v),
        ),
{
    let pv = spec_push(v);
    let total = 2 + pv.len();
    assert(seq![1u8, tag].len() == 2);
    lemma_subrange_split(s, i, seq![1u8, tag], pv);
    assert(seq![1u8, tag] =~= spec_push(seq![tag]));
    lemma_parse_push_at(s, i, seq![tag]);
    assert(s[i] == 1) by {
        assert(s.subrange(i, i + 2)[0] == s[i]);
    }
    lemma_parse_push_at(s, i + 2, v);
    assert(s[i + 2] != 0x68) by {
        assert(s.subrange(i + 2, i + total)[0] == s[i + 2]);
        assert(pv[0] != 0x68);
    }
}

/// A run of parent tag/value pairs appends the entries to the parent
/// list, in order.
proof fn lemma_parse_parents(s: Seq<u8>, i: int, m: EnvModel, ps: Seq<Seq<u8>>)
    requires
        forall|k: int| 0 <= k < ps.len() ==> #[trigger] ps[k].len() <= 520,
        0 <= i,
        i + spec_parents(ps).len() <= s.len(),
        s.subrange(i, i + spec_parents(ps).len()) == spec_parents(ps),
    ensures
        spec_parse_fields(s, i, m) == spec_parse_fields(
            s,
            i + spec_parents(ps).len(),
            EnvModel { parents: m.parents + ps, ..m },
        ),
    decreases ps.len(),
{
    if ps.len() == 0 {
        assert(m.parents + ps =~= m.parents);
        assert(EnvModel { parents: m.parents + ps, ..m } =~= m);
    } else {
        let p0 = ps[0];
        let blk = seq![1u8, PARENT_TAG] + spec_push(p0);
        let rest = spec_parents(ps.drop_first());
        assert(spec_parents(ps) == blk + rest);
        lemma_subrange_split(s, i, blk, rest);
        lemma_parse_fields_pair(s, i, m, PARENT_TAG, p0);
        let m1 = apply_tag(m, PARENT_TAG, p0);
        lemma_parse_parents(s, i + blk.len(), m1, ps.drop_first());
        assert(m.parents.push(p0) + ps.drop_first() =~= m.parents + ps);
        assert(EnvModel { parents: m1.parents + ps.drop_first(), ..m1 } =~= EnvModel {
            parents: m.parents + ps,
            ..m
        });
    }
}

/// A run of metadata chunks concatenates into one metadata value.
proof fn lemma_parse_metadata(s: Seq<u8>, i: int, m: EnvModel, d: Seq<u8>)
    requires
        d.len() > 0,
        0 <= i,
        i + spec_chunks(METADATA_TAG, d).len() <= s.len(),
        s.subrange(i, i + spec_chunks(METADATA_TAG, d).len()) == spec_chunks(METADATA_TAG, d),
    ensures
        spec_parse_fields(s, i, m) == spec_parse_fields(
            s,
            i + spec_chunks(METADATA_TAG, d).len(),
            EnvModel {
                metadata: Some(
                    match m.metadata {
                        None => d,
                        Some(p) => p + d,
                    },
                ),
                ..m
            },
        ),
    decreases d.len(),
{
    if d.len() <= 520 {
        lemma_parse_fields_pair(s, i, m, METADATA_TAG, d);
    } else {
        let c0 = d.take(520);
        let blk = seq![1u8, METADATA_TAG] + spec_push(c0);
        let rest = spec_chunks(METADATA_TAG, d.skip(520));
        assert(spec_chunks(METADATA_TAG, d) == blk + rest);
        lemma_subrange_split(s, i, blk, rest);
        lemma_parse_fields_pair(s, i, m, METADATA_TAG, c0);
        let m1 = apply_tag(m, METADATA_TAG, c0);
        lemma_parse_metadata(s, i + blk.len(), m1, d.skip(520));
        let inner = (match m.metadata {
            None => c0,
            Some(p) => p + c0,
        });
        assert(inner + d.skip(520) =~= (match m.metadata {
            None => d,
            Some(p) => p + d,
        })) by {
            assert(c0 + d.skip(520) =~= d);
            match m.metadata {
                None => {},
                Some(p) => {
                    seq_assoc(p, c0, d.skip(520));
                },
            }
        }
        assert(EnvModel {
            metadata: Some(inner + d.skip(520)),
            ..m1
        } =~= EnvModel {
            metadata: Some(
                match m.metadata {
                    None => d,
                    Some(p) => p + d,
                },
            ),
            ..m
        });
    }
}

/// Body chunks followed by the final `OP_ENDIF` parse into the
/// concatenated body.
proof fn lemma_parse_body_at(s: Seq<u8>, j: int, acc: Seq<u8>, d: Seq<u8>)
    requires
        0 <= j,
        j + spec_body_chunks(d).len() + 1 == s.len(),
        s.subrange(j, j + spec_body_chunks(d).len()) == spec_body_chunks(d),
        s[s.len() - 1] == 0x68,
    ensures
        spec_parse_body(s, j, acc) == Some((acc + d, s.len() as int)),
    decreases d.len(),
{
    if d.len() == 0 {
        assert(s[j] == 0x68);
        assert(acc + d =~= acc);
    } else if d.len() <= 520 {
        lemma_parse_push_at(s, j, d);
        assert(s[j] != 0x68) by {
            assert(s.subrange(j, j + spec_push(d).len())[0] == s[j]);
            assert(spec_push(d)[0] != 0x68);
        }
        let j2 = j + spec_push(d).len();
        assert(s[j2] == 0x68);
        assert((acc + d) + Seq::<u8>::empty() =~= acc + d);
        assert(spec_parse_body(s, j2, acc + d) == Some((acc + d, s.len() as int)));
    } else {
        let c0 = d.take(520);
        let rest = spec_body_chunks(d.skip(520));
        assert(spec_body_chunks(d) == spec_push(c0) + rest);
        lemma_subrange_split(s, j, spec_push(c0), rest);
        lemma_parse_push_at(s, j, c0);
        assert(s[j] != 0x68) by {
            assert(s.subrange(j, j + spec_push(c0).len())[0] == s[j]);
            assert(spec_push(c0)[0] != 0x68);
        }
        lemma_parse_body_at(s, j + spec_push(c0).len(), acc + c0, d.skip(520));
        seq_assoc(acc, c0, d.skip(520));
        assert(c0 + d.skip(520) =~= d);
    }
}

/// An envelope whose single-push fields fit and whose metadata, if any,
/// is non-empty, with no decode-time flags raised.
pub open spec fn encodable(e: EnvModel) -> bool {
    &&& content_type_ok(e)
    &&& fields_fit(e)
    &&& (e.metadata matches Some(md) ==> md.len() > 0)
    &&& !e.duplicate_field
    &&& !e.incomplete_field
    &&& !e.unrecognized_even_field
}

/// Walk the field parser over an encoded field/body tail: starting from a
/// state with no data fields set, it consumes everything up to the final
/// `OP_ENDIF` and yields the encoded envelope's data with the starting
/// state's flags.
/// Walk the field parser over the first four field blocks: content type,
/// content encoding, metaprotocol, parents.
#[verifier::rlimit(100)]
#[verifier::spinoff_prover]
proof fn lemma_parse_fields_run_a(e: EnvModel, s: Seq<u8>, i: int, m: EnvModel)
    requires
        (e.content_type matches Some(d) ==> d.len() <= 520),
        (e.content_encoding matches Some(d) ==> d.len() <= 520),
        (e.metaprotocol matches Some(d) ==> d.len() <= 520),
        (forall|k: int| 0 <= k < e.parents.len() ==> #[trigger] e.parents[k].len() <= 520),
        m.content_type is None,
        m.content_encoding is None,
        m.metaprotocol is None,
        m.parents.len() == 0,
        0 <= i,
        i + spec_fields_a(e).len() <= s.len(),
        s.subrange(i, i + spec_fields_a(e).len()) == spec_fields_a(e),
    ensures
        spec_parse_fields(s, i, m) == spec_parse_fields(
            s,
            i + spec_fields_a(e).len(),
            EnvModel {
                content_type: e.content_type,
                content_encoding: e.content_encoding,
                metaprotocol: e.metaprotocol,
                parents: e.parents,
                ..m
            },
        ),
{
    let b1 = spec_opt_field(CONTENT_TYPE_TAG, e.content_type);
    let b2 = spec_opt_field(CONTENT_ENCODING_TAG, e.content_encoding);
    let b3 = spec_opt_field(METAPROTOCOL_TAG, e.metaprotocol);
    let b4 = spec_parents(e.parents);
    let t4 = b4;
    let t3 = b3 + t4;
    let t2 = b2 + t3;
    let t1 = b1 + t2;
    assert(t3.len() == b3.len() + t4.len());
    assert(t2.len() == b2.len() + t3.len());
    assert(t1.len() == b1.len() + t2.len());
    let n = i + spec_fields_a(e).len() as int;
    assert(s.subrange(i, n).len() == n - i);
    assert(s.subrange(i, n) == t1) by {
        let f2 = b1 + b2;
        assert(spec_fields_a(e) == (f2 + b3) + b4);
        seq_assoc(f2, b3, t4);
        seq_assoc(b1, b2, t3);
    }
    // content type
    lemma_subrange_split(s, i, b1, t2);
    let i1 = i + b1.len();
    let m1 = (if e.content_type is Some {
        apply_tag(m, CONTENT_TYPE_TAG, e.content_type->Some_0)
    } else {
        m
    });
    if e.content_type is Some {
        lemma_parse_fields_pair(s, i, m, CONTENT_TYPE_TAG, e.content_type->Some_0);
    }
    assert(m1 =~= EnvModel { content_type: e.content_type, ..m });
    assert(spec_parse_fields(s, i, m) == spec_parse_fields(s, i1, m1));
    assert(s.subrange(i1, n) == t2);
    // content encoding
    lemma_subrange_split(s, i1, b2, t3);
    let i2 = i1 + b2.len();
    let m2 = (if e.content_encoding is Some {
        apply_tag(m1, CONTENT_ENCODING_TAG, e.content_encoding->Some_0)
    } else {
        m1
    });
    if e.content_encoding is Some {
        lemma_parse_fields_pair(s, i1, m1, CONTENT_ENCODING_TAG, e.content_encoding->Some_0);
    }
    assert(m2 =~= EnvModel { content_encoding: e.content_encoding, ..m1 });
    assert(spec_parse_fields(s, i1, m1) == spec_parse_fields(s, i2, m2));
    assert(s.subrange(i2, n) == t3);
    // metaprotocol
    lemma_subrange_split(s, i2, b3, t4);
    let i3 = i2 + b3.len();
    let m3 = (if e.metaprotocol is Some {
        apply_tag(m2, METAPROTOCOL_TAG, e.metaprotocol->Some_0)
    } else {
        m2
    });
    if e.metaprotocol is Some {
        lemma_parse_fields_pair(s, i2, m2, METAPROTOCOL_TAG, e.metaprotocol->Some_0);
    }
    assert(m3 =~= EnvModel { metaprotocol: e.metaprotocol, ..m2 });
    assert(spec_parse_fields(s, i2, m2) == spec_parse_fields(s, i3, m3));
    assert(s.subrange(i3, n) == t4);
    // parents
    lemma_parse_parents(s, i3, m3, e.parents);
    let m4 = EnvModel { parents: m3.parents + e.parents, ..m3 };
    assert(m3.parents + e.parents =~= e.parents);
    assert(m4 =~= EnvModel { parents: e.parents, ..m3 });
    assert(spec_parse_fields(s, i3, m3) == spec_parse_fields(s, n, m4));
    assert(m4 =~= EnvModel {
        content_type: e.content_type,
        content_encoding: e.content_encoding,
        metaprotocol: e.metaprotocol,
        parents: e.parents,
        ..m
    });
}

/// Walk the field parser over the last four field blocks: delegate,
/// pointer, metadata, protocol tag.
#[verifier::rlimit(100)]
#[verifier::spinoff_prover]
proof fn lemma_parse_fields_run_b(e: EnvModel, s: Seq<u8>, i: int, m: EnvModel)
    requires
        (e.delegate matches Some(d) ==> d.len() <= 520),
        (e.pointer matches Some(d) ==> d.len() <= 520),
        (e.rune matches Some(d) ==> d.len() <= 520),
        (e.metadata matches Some(md) ==> md.len() > 0),
        m.delegate is None,
        m.pointer is None,
        m.metadata is None,
        m.rune is None,
        0 <= i,
        i + spec_fields_b(e).len() <= s.len(),
        s.subrange(i, i + spec_fields_b(e).len()) == spec_fields_b(e),
    ensures
        spec_parse_fields(s, i, m) == spec_parse_fields(
            s,
            i + spec_fields_b(e).len(),
            EnvModel {
                delegate: e.delegate,
                pointer: e.pointer,
                metadata: e.metadata,
                rune: e.rune,
                ..m
            },
        ),
{
    let b5 = spec_opt_field(DELEGATE_TAG, e.delegate);
    let b6 = spec_opt_field(POINTER_TAG, e.pointer);
    let b7 = (match e.metadata {
        None => Seq::<u8>::empty(),
        Some(md) => spec_chunks(METADATA_TAG, md),
    });
    let b8 = spec_opt_field(RUNE_TAG, e.rune);
    let t8 = b8;
    let t7 = b7 + t8;
    let t6 = b6 + t7;
    let t5 = b5 + t6;
    assert(t7.len() == b7.len() + t8.len());
    assert(t6.len() == b6.len() + t7.len());
    assert(t5.len() == b5.len() + t6.len());
    let n = i + spec_fields_b(e).len() as int;
    assert(s.subrange(i, n).len() == n - i);
    assert(s.subrange(i, n) == t5) by {
        let f6 = b5 + b6;
        assert(spec_fields_b(e) == (f6 + b7) + b8);
        seq_assoc(f6, b7, t8);
        seq_assoc(b5, b6, t7);
    }
    // delegate
    lemma_subrange_split(s, i, b5, t6);
    let i5 = i + b5.len();
    let m5 = (if e.delegate is Some {
        apply_tag(m, DELEGATE_TAG, e.delegate->Some_0)
    } else {
        m
    });
    if e.delegate is Some {
        lemma_parse_fields_pair(s, i, m, DELEGATE_TAG, e.delegate->Some_0);
    }
    assert(m5 =~= EnvModel { delegate: e.delegate, ..m });
    assert(spec_parse_fields(s, i, m) == spec_parse_fields(s, i5, m5));
    assert(s.subrange(i5, n) == t6);
    // pointer
    lemma_subrange_split(s, i5, b6, t7);
    let i6 = i5 + b6.len();
    let m6 = (if e.pointer is Some {
        apply_tag(m5, POINTER_TAG, e.pointer->Some_0)
    } else {
        m5
    });
    if e.pointer is Some {
        lemma_parse_fields_pair(s, i5, m5, POINTER_TAG, e.pointer->Some_0);
    }
    assert(m6 =~= EnvModel { pointer: e.pointer, ..m5 });
    assert(spec_parse_fields(s, i5, m5) == spec_parse_fields(s, i6, m6));
    assert(s.subrange(i6, n) == t7);
    // metadata
    lemma_subrange_split(s, i6, b7, t8);
    let i7 = i6 + b7.len();
    let m7 = (if e.metadata is Some {
        EnvModel { metadata: Some(e.metadata->Some_0), ..m6 }
    } else {
        m6
    });
    if e.metadata is Some {
        lemma_parse_metadata(s, i6, m6, e.metadata->Some_0);
        assert(m6.metadata is None);
    }
    assert(m7 =~= EnvModel { metadata: e.metadata, ..m6 });
    assert(spec_parse_fields(s, i6, m6) == spec_parse_fields(s, i7, m7));
    assert(s.subrange(i7, n) == t8);
    // protocol tag
    let m8 = (if e.rune is Some {
        apply_tag(m7, RUNE_TAG, e.rune->Some_0)
    } else {
        m7
    });
    if e.rune is Some {
        lemma_parse_fields_pair(s, i7, m7, RUNE_TAG, e.rune->Some_0);
    }
    assert(m8 =~= EnvModel { rune: e.rune, ..m7 });
    assert(spec_parse_fields(s, i7, m7) == spec_parse_fields(s, n, m8));
    assert(m8 =~= EnvModel {
        delegate: e.delegate,
        pointer: e.pointer,
        metadata: e.metadata,
        rune: e.rune,
        ..m
    });
}

/// Walk the field parser over the eight field blocks of an envelope,
/// starting from a state with no data fields set.
#[verifier::rlimit(100)]
#[verifier::spinoff_prover]
proof fn lemma_parse_fields_run(e: EnvModel, s: Seq<u8>, i: int, m: EnvModel)
    requires
        fields_fit(e),
        (e.metadata matches Some(md) ==> md.len() > 0),
        m.content_type is None,
        m.content_encoding is None,
        m.metaprotocol is None,
        m.parents.len() == 0,
        m.delegate is None,
        m.pointer is None,
        m.metadata is None,
        m.rune is None,
        0 <= i,
        i + spec_envelope_fields(e).len() <= s.len(),
        s.subrange(i, i + spec_envelope_fields(e).len()) == spec_envelope_fields(e),
    ensures
        spec_parse_fields(s, i, m) == spec_parse_fields(
            s,
            i + spec_envelope_fields(e).len(),
            EnvModel {
                body: m.body,
                duplicate_field: m.duplicate_field,
                incomplete_field: m.incomplete_field,
                unrecognized_even_field: m.unrecognized_even_field,
                ..e
            },
        ),
{
    let fa = spec_fields_a(e);
    let fb = spec_fields_b(e);
    let n = i + spec_envelope_fields(e).len() as int;
    assert(spec_envelope_fields(e) == fa + fb) by {
        let b5 = spec_opt_field(DELEGATE_TAG, e.delegate);
        let b6 = spec_opt_field(POINTER_TAG, e.pointer);
        let b7 = (match e.metadata {
            None => Seq::<u8>::empty(),
            Some(md) => spec_chunks(METADATA_TAG, md),
        });
        let b8 = spec_opt_field(RUNE_TAG, e.rune);
        seq_assoc(fa, b5, b6);
        seq_assoc(fa, b5 + b6, b7);
        seq_assoc(fa, (b5 + b6) + b7, b8);
    }
    assert(s.subrange(i, n).len() == n - i);
    assert((fa + fb).len() == fa.len() + fb.len());
    lemma_subrange_split(s, i, fa, fb);
    lemma_parse_fields_run_a(e, s, i, m);
    let ma = EnvModel {
        content_type: e.content_type,
        content_encoding: e.content_encoding,
        metaprotocol: e.metaprotocol,
        parents: e.parents,
        ..m
    };
    lemma_parse_fields_run_b(e, s, i + fa.len(), ma);
    assert(EnvModel {
        delegate: e.delegate,
        pointer: e.pointer,
        metadata: e.metadata,
        rune: e.rune,
        ..ma
    } =~= EnvModel {
        body: m.body,
        duplicate_field: m.duplicate_field,
        incomplete_field: m.incomplete_field,
        unrecognized_even_field: m.unrecognized_even_field,
        ..e
    });
}

/// The body section and the closing `OP_ENDIF` finish the parse.
#[verifier::rlimit(100)]
#[verifier::spinoff_prover]
proof fn lemma_parse_end(s: Seq<u8>, i: int, m: EnvModel, b: Option<Seq<u8>>)
    requires
        m.body is None,
        0 <= i <= s.len(),
        s.subrange(i, s.len() as int) == spec_body_section(b) + seq![0x68u8],
    ensures
        spec_parse_fields(s, i, m) == Some((EnvModel { body: b, ..m }, s.len() as int)),
{
    let n = s.len() as int;
    let bs = spec_body_section(b);
    let be = seq![0x68u8];
    assert(s.subrange(i, n).len() == n - i);
    match b {
        None => {
            assert(bs + be =~= be);
            assert(n - i == 1);
            assert(s[i] == 0x68) by {
                assert(s.subrange(i, n)[0] == s[i]);
            }
            assert(spec_parse_fields(s, i, m) == Some((m, n)));
            assert(EnvModel { body: b, ..m } =~= m);
        },
        Some(d) => {
            let chunks = spec_body_chunks(d);
            assert(bs == seq![0u8] + chunks);
            seq_assoc(seq![0u8], chunks, be);
            lemma_subrange_split(s, i, seq![0u8], chunks + be);
            assert(s[i] == 0) by {
                assert(s.subrange(i, i + 1)[0] == s[i]);
            }
            assert(s.subrange(i, i + 1) =~= spec_push(Seq::<u8>::empty()));
            lemma_parse_push_at(s, i, Seq::empty());
            lemma_subrange_split(s, i + 1, chunks, be);
            assert(s[n - 1] == 0x68) by {
                assert(s.subrange(i + 1 + chunks.len(), n)[0] == s[i + 1 + chunks.len()]);
            }
            lemma_parse_body_at(s, i + 1, Seq::empty(), d);
            assert(Seq::<u8>::empty() + d =~= d);
        },
    }
}

/// Walk the field parser over an encoded field/body tail: starting from a
/// state with no data fields set, it consumes everything up to the final
/// `OP_ENDIF` and yields the encoded envelope's data with the starting
/// state's flags.
#[verifier::rlimit(100)]
#[verifier::spinoff_prover]
proof fn lemma_parse_tail(e: EnvModel, s: Seq<u8>, i: int, m: EnvModel)
    requires
        fields_fit(e),
        (e.metadata matches Some(md) ==> md.len() > 0),
        m.content_type is None,
        m.content_encoding is None,
        m.metaprotocol is None,
        m.parents.len() == 0,
        m.delegate is None,
        m.pointer is None,
        m.metadata is None,
        m.rune is None,
        m.body is None,
        0 <= i <= s.len(),
        s.subrange(i, s.len() as int) == spec_envelope_fields(e) + spec_body_section(e.body)
            + seq![0x68u8],
    ensures
        spec_parse_fields(s, i, m) == Some(
            (
                EnvModel {
                    duplicate_field: m.duplicate_field,
                    incomplete_field: m.incomplete_field,
                    unrecognized_even_field: m.unrecognized_even_field,
                    ..e
                },
                s.len() as int,
            ),
        ),
{
    let n = s.len() as int;
    let bf = spec_envelope_fields(e);
    let rest = spec_body_section(e.body) + seq![0x68u8];
    seq_assoc(bf, spec_body_section(e.body), seq![0x68u8]);
    assert(s.subrange(i, n).len() == n - i);
    assert(rest.len() == spec_body_section(e.body).len() + 1);
    lemma_subrange_split(s, i, bf, rest);
    lemma_parse_fields_run(e, s, i, m);
    let mid = EnvModel {
        body: m.body,
        duplicate_field: m.duplicate_field,
        incomplete_field: m.incomplete_field,
        unrecognized_even_field: m.unrecognized_even_field,
        ..e
    };
    lemma_parse_end(s, i + bf.len(), mid, e.body);
    assert(EnvModel { body: e.body, ..mid } =~= EnvModel {
        duplicate_field: m.duplicate_field,
        incomplete_field: m.incomplete_field,
        unrecognized_even_field: m.unrecognized_even_field,
        ..e
    });
}

/// Envelope round-trip: decoding an encoded envelope restores it exactly,
/// for every envelope whose single-push fields fit within one push (the
/// body and metadata may span any number of chunks).
#[verifier::rlimit(100)]
#[verifier::spinoff_prover]
pub proof fn lemma_envelope_round_trip(e: EnvModel)
    requires
        encodable(e),
    ensures
        spec_decode_envelope(spec_encode_envelope(e)) == Some(e),
{
    let s = spec_encode_envelope(e);
    let hdr = spec_envelope_header();
    let tail = spec_envelope_fields(e) + spec_body_section(e.body) + seq![0x68u8];
    assert(s == hdr + tail) by {
        seq_assoc(hdr + spec_envelope_fields(e), spec_body_section(e.body), seq![0x68u8]);
        seq_assoc(hdr, spec_envelope_fields(e), spec_body_section(e.body) + seq![0x68u8]);
        seq_assoc(spec_envelope_fields(e), spec_body_section(e.body), seq![0x68u8]);
    }
    assert(s.subrange(0, s.len() as int) =~= s);
    lemma_subrange_split(s, 0, hdr, tail);
    lemma_parse_tail(e, s, 6, empty_model());
    assert(EnvModel {
        duplicate_field: false,
        incomplete_field: false,
        unrecognized_even_field: false,
        ..e
    } =~= e);
}

/// An envelope script carrying one extra, unrecognized even-numbered
/// tag/value pair right after the protocol marker.
pub open spec fn spec_encode_with_unknown(e: EnvModel, tag: u8, v: Seq<u8>) -> Seq<u8> {
    spec_envelope_header() + (seq![1u8, tag] + spec_push(v)) + (spec_envelope_fields(e)
        + spec_body_section(e.body) + seq![0x68u8])
}

/// Forward compatibility: an unrecognized even-numbered tag still decodes
/// successfully, leaving every field intact and raising only
/// `unrecognized_even_field`.
#[verifier::rlimit(100)]
#[verifier::spinoff_prover]
pub proof fn lemma_unknown_even_tag(e: EnvModel, tag: u8, v: Seq<u8>)
    requires
        encodable(e),
        !is_known_tag(tag),
        tag % 2 == 0,
        v.len() <= 520,
    ensures
        spec_decode_envelope(spec_encode_with_unknown(e, tag, v)) == Some(
            EnvModel { unrecognized_even_field: true, ..e },
        ),
{
    let s = spec_encode_with_unknown(e, tag, v);
    let hdr = spec_envelope_header();
    let blk = seq![1u8, tag] + spec_push(v);
    let tail = spec_envelope_fields(e) + spec_body_section(e.body) + seq![0x68u8];
    assert(s == hdr + (blk + tail)) by {
        seq_assoc(hdr, blk, tail);
    }
    assert(s.subrange(0, s.len() as int) =~= s);
    lemma_subrange_split(s, 0, hdr, blk + tail);
    lemma_subrange_split(s, 6, blk, tail);
    lemma_parse_fields_pair(s, 6, empty_model(), tag, v);
    let m1 = apply_tag(empty_model(), tag, v);
    assert(m1 =~= EnvModel { unrecognized_even_field: true, ..empty_model() });
    lemma_parse_tail(e, s, 6 + blk.len() as int, m1);
    assert(EnvModel {
        duplicate_field: false,
        incomplete_field: false,
        unrecognized_even_field: true,
        ..e
    } =~= EnvModel { unrecognized_even_field: true, ..e });
}

/// An unrecognized odd-numbered tag is ignored entirely: the envelope
/// decodes as if the pair were absent.
#[verifier::rlimit(100)]
#[verifier::spinoff_prover]
pub proof fn lemma_unknown_odd_tag(e: EnvModel, tag: u8, v: Seq<u8>)
    requires
        encodable(e),
        !is_known_tag(tag),
        tag % 2 == 1,
        v.len() <= 520,
    ensures
        spec_decode_envelope(spec_encode_with_unknown(e, tag, v)) == Some(e),
{
    let s = spec_encode_with_unknown(e, tag, v);
    let hdr = spec_envelope_header();
    let blk = seq![1u8, tag] + spec_push(v);
    let tail = spec_envelope_fields(e) + spec_body_section(e.body) + seq![0x68u8];
    assert(s == hdr + (blk + tail)) by {
        seq_assoc(hdr, blk, tail);
    }
    assert(s.subrange(0, s.len() as int) =~= s);
    lemma_subrange_split(s, 0, hdr, blk + tail);
    lemma_subrange_split(s, 6, blk, tail);
    lemma_parse_fields_pair(s, 6, empty_model(), tag, v);
    let m1 = apply_tag(empty_model(), tag, v);
    assert(m1 =~= empty_model());
    lemma_parse_tail(e, s, 6 + blk.len() as int, m1);
    assert(EnvModel {
        duplicate_field: false,
        incomplete_field: false,
        unrecognized_even_field: false,
        ..e
    } =~= e);
}

/// Whether a field tag is chunked when emitted: only the metadata tag is
/// (the body is chunked too, but carries no repeated tag).
pub fn is_chunked(tag: [u8; 1]) -> (r: bool)
    ensures
        r == (tag@[0] == METADATA_TAG),
{
    tag[0] == METADATA_TAG
}

} // verus!
