//! The transaction model and its consensus serialization.
//!
//! Transactions built by this library are plain values: amounts in
//! satoshis, scripts and transaction ids as byte vectors. Serialization
//! follows the standard encoding: little-endian integers, compact-size
//! lengths, and the extended marker/flag format whenever any input
//! carries witness data.

use vstd::prelude::*;

use crate::script::seq_assoc;

verus! {

/// A transaction output: an amount in satoshis and its locking script.
#[derive(Debug, PartialEq, Eq)]
pub struct TxOut {
    pub value: u64,
    pub script_pubkey: Vec<u8>,
}

/// A transaction input: the output it spends, an unlock script, a
/// sequence number, and the witness stack.
#[derive(Debug, PartialEq, Eq)]
pub struct TxIn {
    pub prev_txid: Vec<u8>,
    pub prev_vout: u32,
    pub script_sig: Vec<u8>,
    pub sequence: u32,
    pub witness: Vec<Vec<u8>>,
}

/// A transaction: version, inputs, outputs, lock time.
#[derive(Debug, PartialEq, Eq)]
pub struct Transaction {
    pub version: u32,
    pub lock_time: u32,
    pub input: Vec<TxIn>,
    pub output: Vec<TxOut>,
}

/// Sequence number that opts into replace-by-fee without a relative lock
/// time.
pub const SEQUENCE_ENABLE_RBF_NO_LOCKTIME: u32 = 0xFFFFFFFD;

/// A 32-bit integer in little-endian bytes.
pub open spec fn spec_le32(x: u32) -> Seq<u8> {
    seq![
        (x % 256) as u8,
        ((x / 0x100) % 256) as u8,
        ((x / 0x10000) % 256) as u8,
        ((x / 0x1000000) % 256) as u8,
    ]
}

/// A 64-bit integer in little-endian bytes.
pub open spec fn spec_le64(x: u64) -> Seq<u8> {
    seq![
        (x % 256) as u8,
        ((x / 0x100) % 256) as u8,
        ((x / 0x10000) % 256) as u8,
        ((x / 0x1000000) % 256) as u8,
        ((x / 0x100000000) % 256) as u8,
        ((x / 0x10000000000) % 256) as u8,
        ((x / 0x1000000000000) % 256) as u8,
        ((x / 0x100000000000000) % 256) as u8,
    ]
}

/// A compact-size length prefix.
pub open spec fn spec_varint(n: nat) -> Seq<u8> {
    if n < 0xfd {
        seq![n as u8]
    } else if n <= 0xffff {
        seq![0xfdu8, (n % 256) as u8, ((n / 256) % 256) as u8]
    } else if n <= 0xffffffff {
        seq![0xfeu8] + spec_le32(n as u32)
    } else {
        seq![0xffu8] + spec_le64(n as u64)
    }
}

/// One serialized output.
pub open spec fn spec_ser_out(o: TxOut) -> Seq<u8> {
    spec_le64(o.value) + spec_varint(o.script_pubkey@.len()) + o.script_pubkey@
}

/// The outputs in order.
pub open spec fn spec_ser_outs(os: Seq<TxOut>) -> Seq<u8>
    decreases os.len(),
{
    if os.len() == 0 {
        Seq::empty()
    } else {
        spec_ser_out(os[0]) + spec_ser_outs(os.drop_first())
    }
}

/// One serialized input (without its witness stack).
pub open spec fn spec_ser_in(x: TxIn) -> Seq<u8> {
    x.prev_txid@ + spec_le32(x.prev_vout) + spec_varint(x.script_sig@.len()) + x.script_sig@
        + spec_le32(x.sequence)
}

/// The inputs in order.
pub open spec fn spec_ser_ins(ins: Seq<TxIn>) -> Seq<u8>
    decreases ins.len(),
{
    if ins.len() == 0 {
        Seq::empty()
    } else {
        spec_ser_in(ins[0]) + spec_ser_ins(ins.drop_first())
    }
}

/// One witness stack item: its length, then its bytes.
pub open spec fn spec_ser_witness_items(ws: Seq<Vec<u8>>) -> Seq<u8>
    decreases ws.len(),
{
    if ws.len() == 0 {
        Seq::empty()
    } else {
        spec_varint(ws[0]@.len()) + ws[0]@ + spec_ser_witness_items(ws.drop_first())
    }
}

/// One input's witness stack: the item count, then the items.
pub open spec fn spec_ser_stack(x: TxIn) -> Seq<u8> {
    spec_varint(x.witness@.len()) + spec_ser_witness_items(x.witness@)
}

/// The witness stacks of all inputs, in input order.
pub open spec fn spec_ser_stacks(ins: Seq<TxIn>) -> Seq<u8>
    decreases ins.len(),
{
    if ins.len() == 0 {
        Seq::empty()
    } else {
        spec_ser_stack(ins[0]) + spec_ser_stacks(ins.drop_first())
    }
}

/// Whether any input carries witness data.
pub open spec fn spec_has_witness(t: Transaction) -> bool {
    exists|k: int| 0 <= k < t.input@.len() && #[trigger] t.input@[k].witness@.len() > 0
}

/// The legacy serialization, used when no input has witness data.
pub open spec fn spec_ser_tx_legacy(t: Transaction) -> Seq<u8> {
    spec_le32(t.version) + spec_varint(t.input@.len()) + spec_ser_ins(t.input@) + spec_varint(
        t.output@.len(),
    ) + spec_ser_outs(t.output@) + spec_le32(t.lock_time)
}

/// The extended serialization with the marker/flag pair and witness
/// stacks.
pub open spec fn spec_ser_tx_segwit(t: Transaction) -> Seq<u8> {
    spec_le32(t.version) + seq![0u8, 1u8] + spec_varint(t.input@.len()) + spec_ser_ins(t.input@)
        + spec_varint(t.output@.len()) + spec_ser_outs(t.output@) + spec_ser_stacks(t.input@)
        + spec_le32(t.lock_time)
}

/// The consensus serialization of a transaction.
pub open spec fn spec_ser_tx(t: Transaction) -> Seq<u8> {
    if spec_has_witness(t) {
        spec_ser_tx_segwit(t)
    } else {
        spec_ser_tx_legacy(t)
    }
}

fn push_le32(out: &mut Vec<u8>, x: u32)
    ensures
        final(out)@ == old(out)@ + spec_le32(x),
{
    out.push((x % 256) as u8);
    out.push(((x / 0x100) % 256) as u8);
    out.push(((x / 0x10000) % 256) as u8);
    out.push(((x / 0x1000000) % 256) as u8);
    proof {
        assert(out@ =~= old(out)@ + spec_le32(x));
    }
}

fn push_le64(out: &mut Vec<u8>, x: u64)
    ensures
        final(out)@ == old(out)@ + spec_le64(x),
{
    out.push((x % 256) as u8);
    out.push(((x / 0x100) % 256) as u8);
    out.push(((x / 0x10000) % 256) as u8);
    out.push(((x / 0x1000000) % 256) as u8);
    out.push(((x / 0x100000000) % 256) as u8);
    out.push(((x / 0x10000000000) % 256) as u8);
    out.push(((x / 0x1000000000000) % 256) as u8);
    out.push(((x / 0x100000000000000) % 256) as u8);
    proof {
        assert(out@ =~= old(out)@ + spec_le64(x));
    }
}

fn push_varint(out: &mut Vec<u8>, n: usize)
    ensures
        final(out)@ == old(out)@ + spec_varint(n as nat),
{
    if n < 0xfd {
        out.push(n as u8);
        proof {
            assert(out@ =~= old(out)@ + spec_varint(n as nat));
        }
    } else if n <= 0xffff {
        out.push(0xfdu8);
        out.push((n % 256) as u8);
        out.push(((n / 256) % 256) as u8);
        proof {
            assert(out@ =~= old(out)@ + spec_varint(n as nat));
        }
    } else if n <= 0xffffffff {
        out.push(0xfeu8);
        push_le32(out, n as u32);
        proof {
            assert(out@ =~= old(out)@ + spec_varint(n as nat));
        }
    } else {
        out.push(0xffu8);
        push_le64(out, n as u64);
        proof {
            assert(out@ =~= old(out)@ + spec_varint(n as nat));
        }
    }
}

fn push_bytes_of(out: &mut Vec<u8>, v: &Vec<u8>)
    ensures
        final(out)@ == old(out)@ + v@,
{
    let mut k: usize = 0;
    while k < v.len()
        invariant
            k <= v.len(),
            out@ == old(out)@ + v@.take(k as int),
        decreases v.len() - k,
    {
        out.push(v[k]);
        proof {
            assert(out@ =~= old(out)@ + v@.take(k + 1 as int));
        }
        k += 1;
    }
    proof {
        assert(v@.take(v@.len() as int) =~= v@);
    }
}

fn append_output(out: &mut Vec<u8>, o: &TxOut)
    ensures
        final(out)@ == old(out)@ + spec_ser_out(*o),
{
    push_le64(out, o.value);
    push_varint(out, o.script_pubkey.len());
    push_bytes_of(out, &o.script_pubkey);
    proof {
        seq_assoc(old(out)@, spec_le64(o.value), spec_varint(o.script_pubkey@.len()));
        seq_assoc(
            old(out)@,
            spec_le64(o.value) + spec_varint(o.script_pubkey@.len()),
            o.script_pubkey@,
        );
    }
}

fn append_input(out: &mut Vec<u8>, x: &TxIn)
    ensures
        final(out)@ == old(out)@ + spec_ser_in(*x),
{
    let ghost base = out@;
    push_bytes_of(out, &x.prev_txid);
    push_le32(out, x.prev_vout);
    proof {
        seq_assoc(base, x.prev_txid@, spec_le32(x.prev_vout));
    }
    push_varint(out, x.script_sig.len());
    proof {
        seq_assoc(
            base,
            x.prev_txid@ + spec_le32(x.prev_vout),
            spec_varint(x.script_sig@.len()),
        );
    }
    push_bytes_of(out, &x.script_sig);
    proof {
        seq_assoc(
            base,
            x.prev_txid@ + spec_le32(x.prev_vout) + spec_varint(x.script_sig@.len()),
            x.script_sig@,
        );
    }
    push_le32(out, x.sequence);
    proof {
        seq_assoc(
            base,
            x.prev_txid@ + spec_le32(x.prev_vout) + spec_varint(x.script_sig@.len())
                + x.script_sig@,
            spec_le32(x.sequence),
        );
    }
}

fn append_outputs(out: &mut Vec<u8>, os: &Vec<TxOut>)
    ensures
        final(out)@ == old(out)@ + spec_ser_outs(os@),
{
    let ghost base = out@;
    proof {
        assert(os@.skip(0) =~= os@);
    }
    let mut i: usize = 0;
    while i < os.len()
        invariant
            i <= os@.len(),
            out@ + spec_ser_outs(os@.skip(i as int)) == base + spec_ser_outs(os@),
        decreases os@.len() - i,
    {
        let ghost pre = out@;
        append_output(out, &os[i]);
        proof {
            let rem = os@.skip(i as int);
            assert(rem[0] == os@[i as int]);
            assert(rem.drop_first() =~= os@.skip(i + 1 as int));
            seq_assoc(pre, spec_ser_out(os@[i as int]), spec_ser_outs(os@.skip(i + 1 as int)));
        }
        i += 1;
    }
    proof {
        assert(os@.skip(os@.len() as int) =~= Seq::<TxOut>::empty());
        assert(out@ + Seq::<u8>::empty() =~= out@);
    }
}

fn append_inputs(out: &mut Vec<u8>, ins: &Vec<TxIn>)
    ensures
        final(out)@ == old(out)@ + spec_ser_ins(ins@),
{
    let ghost base = out@;
    proof {
        assert(ins@.skip(0) =~= ins@);
    }
    let mut i: usize = 0;
    while i < ins.len()
        invariant
            i <= ins@.len(),
            out@ + spec_ser_ins(ins@.skip(i as int)) == base + spec_ser_ins(ins@),
        decreases ins@.len() - i,
    {
        let ghost pre = out@;
        append_input(out, &ins[i]);
        proof {
            let rem = ins@.skip(i as int);
            assert(rem[0] == ins@[i as int]);
            assert(rem.drop_first() =~= ins@.skip(i + 1 as int));
            seq_assoc(pre, spec_ser_in(ins@[i as int]), spec_ser_ins(ins@.skip(i + 1 as int)));
        }
        i += 1;
    }
    proof {
        assert(ins@.skip(ins@.len() as int) =~= Seq::<TxIn>::empty());
        assert(out@ + Seq::<u8>::empty() =~= out@);
    }
}

fn append_stack(out: &mut Vec<u8>, x: &TxIn)
    ensures
        final(out)@ == old(out)@ + spec_ser_stack(*x),
{
    let ghost base = out@;
    push_varint(out, x.witness.len());
    let ghost items = x.witness@;
    proof {
        assert(items.skip(0) =~= items);
    }
    let mut i: usize = 0;
    while i < x.witness.len()
        invariant
            i <= items.len(),
            items == x.witness@,
            out@ + spec_ser_witness_items(items.skip(i as int)) == (base + spec_varint(
                items.len(),
            )) + spec_ser_witness_items(items),
        decreases items.len() - i,
    {
        let ghost pre = out@;
        push_varint(out, x.witness[i].len());
        push_bytes_of(out, &x.witness[i]);
        proof {
            let rem = items.skip(i as int);
            assert(rem[0] == items[i as int]);
            assert(rem.drop_first() =~= items.skip(i + 1 as int));
            seq_assoc(pre, spec_varint(items[i as int]@.len()), items[i as int]@);
            seq_assoc(
                pre,
                spec_varint(items[i as int]@.len()) + items[i as int]@,
                spec_ser_witness_items(items.skip(i + 1 as int)),
            );
        }
        i += 1;
    }
    proof {
        assert(items.skip(items.len() as int) =~= Seq::<Vec<u8>>::empty());
        assert(out@ + Seq::<u8>::empty() =~= out@);
        seq_assoc(base, spec_varint(items.len()), spec_ser_witness_items(items));
    }
}

fn append_stacks(out: &mut Vec<u8>, ins: &Vec<TxIn>)
    ensures
        final(out)@ == old(out)@ + spec_ser_stacks(ins@),
{
    let ghost base = out@;
    proof {
        assert(ins@.skip(0) =~= ins@);
    }
    let mut i: usize = 0;
    while i < ins.len()
        invariant
            i <= ins@.len(),
            out@ + spec_ser_stacks(ins@.skip(i as int)) == base + spec_ser_stacks(ins@),
        decreases ins@.len() - i,
    {
        let ghost pre = out@;
        append_stack(out, &ins[i]);
        proof {
            let rem = ins@.skip(i as int);
            assert(rem[0] == ins@[i as int]);
            assert(rem.drop_first() =~= ins@.skip(i + 1 as int));
            seq_assoc(
                pre,
                spec_ser_stack(ins@[i as int]),
                spec_ser_stacks(ins@.skip(i + 1 as int)),
            );
        }
        i += 1;
    }
    proof {
        assert(ins@.skip(ins@.len() as int) =~= Seq::<TxIn>::empty());
        assert(out@ + Seq::<u8>::empty() =~= out@);
    }
}

fn has_witness(t: &Transaction) -> (r: bool)
    ensures
        r == spec_has_witness(*t),
{
    let mut i: usize = 0;
    while i < t.input.len()
        invariant
            i <= t.input@.len(),
            forall|k: int| 0 <= k < i ==> #[trigger] t.input@[k].witness@.len() == 0,
        decreases t.input@.len() - i,
    {
        if t.input[i].witness.len() > 0 {
            return true;
        }
        i += 1;
    }
    false
}

/// The consensus serialization of a transaction: legacy when no input has
/// witness data, the extended marker/flag format otherwise.
pub fn serialize_transaction(t: &Transaction) -> (r: Vec<u8>)
    ensures
        r@ == spec_ser_tx(*t),
{
    let mut out: Vec<u8> = Vec::new();
    let ghost base = out@;
    push_le32(&mut out, t.version);
    if has_witness(t) {
        out.push(0u8);
        out.push(1u8);
        proof {
            assert(out@ =~= (base + spec_le32(t.version)) + seq![0u8, 1u8]);
            seq_assoc(base, spec_le32(t.version), seq![0u8, 1u8]);
        }
        let ghost p1 = spec_le32(t.version) + seq![0u8, 1u8];
        push_varint(&mut out, t.input.len());
        proof {
            seq_assoc(base, p1, spec_varint(t.input@.len()));
        }
        let ghost p2 = p1 + spec_varint(t.input@.len());
        append_inputs(&mut out, &t.input);
        proof {
            seq_assoc(base, p2, spec_ser_ins(t.input@));
        }
        let ghost p3 = p2 + spec_ser_ins(t.input@);
        push_varint(&mut out, t.output.len());
        proof {
            seq_assoc(base, p3, spec_varint(t.output@.len()));
        }
        let ghost p4 = p3 + spec_varint(t.output@.len());
        append_outputs(&mut out, &t.output);
        proof {
            seq_assoc(base, p4, spec_ser_outs(t.output@));
        }
        let ghost p5 = p4 + spec_ser_outs(t.output@);
        append_stacks(&mut out, &t.input);
        proof {
            seq_assoc(base, p5, spec_ser_stacks(t.input@));
        }
        let ghost p6 = p5 + spec_ser_stacks(t.input@);
        push_le32(&mut out, t.lock_time);
        proof {
            seq_assoc(base, p6, spec_le32(t.lock_time));
            assert(spec_ser_tx_segwit(*t) == p6 + spec_le32(t.lock_time));
            assert(base + spec_ser_tx_segwit(*t) =~= spec_ser_tx_segwit(*t));
        }
    } else {
        let ghost p1 = spec_le32(t.version);
        push_varint(&mut out, t.input.len());
        proof {
            seq_assoc(base, p1, spec_varint(t.input@.len()));
        }
        let ghost p2 = p1 + spec_varint(t.input@.len());
        append_inputs(&mut out, &t.input);
        proof {
            seq_assoc(base, p2, spec_ser_ins(t.input@));
        }
        let ghost p3 = p2 + spec_ser_ins(t.input@);
        push_varint(&mut out, t.output.len());
        proof {
            seq_assoc(base, p3, spec_varint(t.output@.len()));
        }
        let ghost p4 = p3 + spec_varint(t.output@.len());
        append_outputs(&mut out, &t.output);
        proof {
            seq_assoc(base, p4, spec_ser_outs(t.output@));
        }
        let ghost p5 = p4 + spec_ser_outs(t.output@);
        push_le32(&mut out, t.lock_time);
        proof {
            seq_assoc(base, p5, spec_le32(t.lock_time));
            assert(spec_ser_tx_legacy(*t) == p5 + spec_le32(t.lock_time));
            assert(base + spec_ser_tx_legacy(*t) =~= spec_ser_tx_legacy(*t));
        }
    }
    out
}

/// The summed value of a list of outputs.
pub open spec fn sum_output_values(os: Seq<TxOut>) -> int
    decreases os.len(),
{
    if os.len() == 0 {
        0
    } else {
        os[0].value + sum_output_values(os.drop_first())
    }
}

/// Sum the output values, reporting whether the total fits in a 64-bit
/// amount.
pub fn total_output_value(os: &Vec<TxOut>) -> (r: Option<u64>)
    ensures
        match r {
            Some(v) => v == sum_output_values(os@),
            None => sum_output_values(os@) > u64::MAX,
        },
{
    proof {
        lemma_sum_outputs_nonneg(os@);
    }
    let mut total: u64 = 0;
    let mut i: usize = 0;
    while i < os.len()
        invariant
            i <= os@.len(),
            total == sum_output_values(os@.take(i as int)),
        decreases os@.len() - i,
    {
        proof {
            lemma_sum_outputs_take_step(os@, i as int);
        }
        match total.checked_add(os[i].value) {
            Some(nt) => {
                total = nt;
            },
            None => {
                proof {
                    assert(os@ =~= os@.take(i + 1 as int) + os@.skip(i + 1 as int));
                    lemma_sum_outputs_append(os@.take(i + 1 as int), os@.skip(i + 1 as int));
                    lemma_sum_outputs_nonneg(os@.skip(i + 1 as int));
                }
                return None;
            },
        }
        i += 1;
    }
    proof {
        assert(os@.take(os@.len() as int) =~= os@);
    }
    Some(total)
}

proof fn lemma_sum_outputs_nonneg(os: Seq<TxOut>)
    ensures
        sum_output_values(os) >= 0,
    decreases os.len(),
{
    if os.len() > 0 {
        lemma_sum_outputs_nonneg(os.drop_first());
    }
}

proof fn lemma_sum_outputs_append(a: Seq<TxOut>, b: Seq<TxOut>)
    ensures
        sum_output_values(a + b) == sum_output_values(a) + sum_output_values(b),
    decreases a.len(),
{
    if a.len() == 0 {
        assert(a + b =~= b);
    } else {
        lemma_sum_outputs_append(a.drop_first(), b);
        assert((a + b).drop_first() =~= a.drop_first() + b);
        assert((a + b)[0] == a[0]);
    }
}

proof fn lemma_sum_outputs_singleton(x: TxOut)
    ensures
        sum_output_values(seq![x]) == x.value,
{
    assert(seq![x].drop_first() =~= Seq::<TxOut>::empty());
    assert(seq![x][0] == x);
    assert(sum_output_values(Seq::<TxOut>::empty()) == 0);
}

proof fn lemma_sum_outputs_take_step(os: Seq<TxOut>, j: int)
    requires
        0 <= j < os.len(),
    ensures
        sum_output_values(os.take(j + 1)) == sum_output_values(os.take(j)) + os[j].value,
{
    assert(os.take(j + 1) =~= os.take(j) + seq![os[j]]);
    lemma_sum_outputs_append(os.take(j), seq![os[j]]);
    lemma_sum_outputs_singleton(os[j]);
}

} // verus!
