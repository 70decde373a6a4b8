//! The binary wire format for transactions: fixed-width little-endian
//! integers and length-prefixed byte strings. The encoder is specified by
//! `enc_tx`, the decoder by `dec_tx`; the decoder accepts one whole
//! encoding, rejects trailing bytes, and `lemma_round_trip` shows that it
//! inverts the encoder.

use vstd::prelude::*;
use crate::errors::RitCoinErrror;
use crate::transaction::{Input, InputV, OutPoint, OutPointV, Output, OutputV, Transaction, TransactionV};

verus! {

// ---------------------------------------------------------------------------
// Encoding
// ---------------------------------------------------------------------------

/// The two little-endian bytes of a `u16`.
pub open spec fn u16_le(n: u16) -> Seq<u8> {
    seq![(n % 256) as u8, ((n / 256) % 256) as u8]
}

/// The four little-endian bytes of a `u32`.
pub open spec fn u32_le(n: u32) -> Seq<u8> {
    seq![
        (n % 256) as u8,
        ((n / 256) % 256) as u8,
        ((n / 65536) % 256) as u8,
        ((n / 16777216) % 256) as u8,
    ]
}

/// The eight little-endian bytes of a `u64`.
pub open spec fn u64_le(n: u64) -> Seq<u8> {
    seq![
        (n % 256) as u8,
        ((n / 256) % 256) as u8,
        ((n / 65536) % 256) as u8,
        ((n / 16777216) % 256) as u8,
        ((n / 4294967296) % 256) as u8,
        ((n / 1099511627776) % 256) as u8,
        ((n / 281474976710656) % 256) as u8,
        ((n / 72057594037927936) % 256) as u8,
    ]
}

/// A byte string, length-prefixed with its eight-byte length.
pub open spec fn enc_bytes(b: Seq<u8>) -> Seq<u8> {
    u64_le(b.len() as u64) + b
}

/// One encoded input.
pub open spec fn enc_input(i: InputV) -> Seq<u8> {
    (((enc_bytes(i.previous_output.tx_id) + u32_le(i.previous_output.index)) + u16_le(
        i.script_bytes,
    )) + enc_bytes(i.sig_script)) + u32_le(i.sequence)
}

/// One encoded output.
pub open spec fn enc_output(o: OutputV) -> Seq<u8> {
    (u64_le(o.amount) + u16_le(o.script_length)) + enc_bytes(o.script_pubkey)
}

/// The inputs encoded in order.
pub open spec fn enc_inputs(ins: Seq<InputV>) -> Seq<u8>
    decreases ins.len(),
{
    if ins.len() == 0 {
        Seq::empty()
    } else {
        enc_inputs(ins.drop_last()) + enc_input(ins.last())
    }
}

/// The outputs encoded in order.
pub open spec fn enc_outputs(outs: Seq<OutputV>) -> Seq<u8>
    decreases outs.len(),
{
    if outs.len() == 0 {
        Seq::empty()
    } else {
        enc_outputs(outs.drop_last()) + enc_output(outs.last())
    }
}

/// A whole encoded transaction: version, input count field, the inputs as a
/// counted list, output count field, the outputs as a counted list, lock
/// time.
#[verifier::opaque]
pub open spec fn enc_tx(t: TransactionV) -> Seq<u8> {
    ((((((u32_le(t.version) + u16_le(t.tx_in_count)) + u64_le(t.tx_in.len() as u64)) + enc_inputs(
        t.tx_in,
    )) + u16_le(t.tx_out_count)) + u64_le(t.tx_out.len() as u64)) + enc_outputs(t.tx_out)) + u32_le(
        t.lock_time,
    )
}

// ---------------------------------------------------------------------------
// Decoding
// ---------------------------------------------------------------------------

/// The value of two little-endian bytes.
pub open spec fn u16_of_le(s: Seq<u8>) -> u16
    recommends
        s.len() == 2,
{
    (s[0] + 256 * s[1]) as u16
}

/// The value of four little-endian bytes.
pub open spec fn u32_of_le(s: Seq<u8>) -> u32
    recommends
        s.len() == 4,
{
    (s[0] + 256 * s[1] + 65536 * s[2] + 16777216 * s[3]) as u32
}

/// The value of eight little-endian bytes.
pub open spec fn u64_of_le(s: Seq<u8>) -> u64
    recommends
        s.len() == 8,
{
    (s[0] + 256 * s[1] + 65536 * s[2] + 16777216 * s[3] + 4294967296 * s[4] + 1099511627776 * s[5]
        + 281474976710656 * s[6] + 72057594037927936 * s[7]) as u64
}

/// Reads a `u16` at `pos`.
pub open spec fn dec_u16(s: Seq<u8>, pos: int) -> Option<(u16, int)> {
    if 0 <= pos && pos + 2 <= s.len() {
        Some((u16_of_le(s.subrange(pos, pos + 2)), pos + 2))
    } else {
        None
    }
}

/// Reads a `u32` at `pos`.
pub open spec fn dec_u32(s: Seq<u8>, pos: int) -> Option<(u32, int)> {
    if 0 <= pos && pos + 4 <= s.len() {
        Some((u32_of_le(s.subrange(pos, pos + 4)), pos + 4))
    } else {
        None
    }
}

/// Reads a `u64` at `pos`.
pub open spec fn dec_u64(s: Seq<u8>, pos: int) -> Option<(u64, int)> {
    if 0 <= pos && pos + 8 <= s.len() {
        Some((u64_of_le(s.subrange(pos, pos + 8)), pos + 8))
    } else {
        None
    }
}

/// Reads a length-prefixed byte string at `pos`.
pub open spec fn dec_bytes(s: Seq<u8>, pos: int) -> Option<(Seq<u8>, int)> {
    match dec_u64(s, pos) {
        Some((n, p)) => if p + n <= s.len() {
            Some((s.subrange(p, p + n), p + n))
        } else {
            None
        },
        None => None,
    }
}

/// Reads one input at `pos`.
pub open spec fn dec_input(s: Seq<u8>, pos: int) -> Option<(InputV, int)> {
    match dec_bytes(s, pos) {
        Some((tx_id, p1)) => match dec_u32(s, p1) {
            Some((index, p2)) => match dec_u16(s, p2) {
                Some((script_bytes, p3)) => match dec_bytes(s, p3) {
                    Some((sig_script, p4)) => match dec_u32(s, p4) {
                        Some((sequence, p5)) => Some(
                            (
                                InputV {
                                    previous_output: OutPointV { tx_id, index },
                                    script_bytes,
                                    sig_script,
                                    sequence,
                                },
                                p5,
                            ),
                        ),
                        None => None,
                    },
                    None => None,
                },
                None => None,
            },
            None => None,
        },
        None => None,
    }
}

/// Reads one output at `pos`.
pub open spec fn dec_output(s: Seq<u8>, pos: int) -> Option<(OutputV, int)> {
    match dec_u64(s, pos) {
        Some((amount, p1)) => match dec_u16(s, p1) {
            Some((script_length, p2)) => match dec_bytes(s, p2) {
                Some((script_pubkey, p3)) => Some(
                    (OutputV { amount, script_length, script_pubkey }, p3),
                ),
                None => None,
            },
            None => None,
        },
        None => None,
    }
}

/// Reads `count` inputs at `pos`.
pub open spec fn dec_inputs(s: Seq<u8>, pos: int, count: u64) -> Option<(Seq<InputV>, int)>
    decreases count,
{
    if count == 0 {
        Some((Seq::empty(), pos))
    } else {
        match dec_input(s, pos) {
            Some((i, p)) => match dec_inputs(s, p, (count - 1) as u64) {
                Some((rest, p2)) => Some((seq![i] + rest, p2)),
                None => None,
            },
            None => None,
        }
    }
}

/// Reads `count` outputs at `pos`.
pub open spec fn dec_outputs(s: Seq<u8>, pos: int, count: u64) -> Option<(Seq<OutputV>, int)>
    decreases count,
{
    if count == 0 {
        Some((Seq::empty(), pos))
    } else {
        match dec_output(s, pos) {
            Some((o, p)) => match dec_outputs(s, p, (count - 1) as u64) {
                Some((rest, p2)) => Some((seq![o] + rest, p2)),
                None => None,
            },
            None => None,
        }
    }
}

/// Decodes a whole transaction, rejecting trailing bytes.
pub open spec fn dec_tx(s: Seq<u8>) -> Option<TransactionV> {
    match dec_u32(s, 0) {
        Some((version, p1)) => match dec_u16(s, p1) {
            Some((tx_in_count, p2)) => match dec_u64(s, p2) {
                Some((n_in, p3)) => match dec_inputs(s, p3, n_in) {
                    Some((tx_in, p4)) => match dec_u16(s, p4) {
                        Some((tx_out_count, p5)) => match dec_u64(s, p5) {
                            Some((n_out, p6)) => match dec_outputs(s, p6, n_out) {
                                Some((tx_out, p7)) => match dec_u32(s, p7) {
                                    Some((lock_time, p8)) => if p8 == s.len() {
                                        Some(
                                            TransactionV {
                                                version,
                                                tx_in_count,
                                                tx_in,
                                                tx_out_count,
                                                tx_out,
                                                lock_time,
                                            },
                                        )
                                    } else {
                                        None
                                    },
                                    None => None,
                                },
                                None => None,
                            },
                            None => None,
                        },
                        None => None,
                    },
                    None => None,
                },
                None => None,
            },
            None => None,
        },
        None => None,
    }
}

// ---------------------------------------------------------------------------
// Executable encoder
// ---------------------------------------------------------------------------

fn push_u16_le(buf: &mut Vec<u8>, n: u16)
    ensures
        final(buf)@ == old(buf)@ + u16_le(n),
{
    buf.push((n % 256) as u8);
    buf.push(((n / 256) % 256) as u8);
    assert(buf@ =~= old(buf)@ + u16_le(n));
}

fn push_u32_le(buf: &mut Vec<u8>, n: u32)
    ensures
        final(buf)@ == old(buf)@ + u32_le(n),
{
    buf.push((n % 256) as u8);
    buf.push(((n / 256) % 256) as u8);
    buf.push(((n / 65536) % 256) as u8);
    buf.push(((n / 16777216) % 256) as u8);
    assert(buf@ =~= old(buf)@ + u32_le(n));
}

fn push_u64_le(buf: &mut Vec<u8>, n: u64)
    ensures
        final(buf)@ == old(buf)@ + u64_le(n),
{
    buf.push((n % 256) as u8);
    buf.push(((n / 256) % 256) as u8);
    buf.push(((n / 65536) % 256) as u8);
    buf.push(((n / 16777216) % 256) as u8);
    buf.push(((n / 4294967296) % 256) as u8);
    buf.push(((n / 1099511627776) % 256) as u8);
    buf.push(((n / 281474976710656) % 256) as u8);
    buf.push(((n / 72057594037927936) % 256) as u8);
    assert(buf@ =~= old(buf)@ + u64_le(n));
}

fn push_bytes(buf: &mut Vec<u8>, b: &[u8])
    ensures
        final(buf)@ == old(buf)@ + enc_bytes(b@),
{
    push_u64_le(buf, b.len() as u64);
    buf.extend_from_slice(b);
    assert(buf@ =~= old(buf)@ + enc_bytes(b@));
}

fn push_input(buf: &mut Vec<u8>, i: &Input)
    ensures
        final(buf)@ == old(buf)@ + enc_input(i@),
{
    let (tx_id, index) = i.get_previous_output().get();
    push_bytes(buf, tx_id);
    push_u32_le(buf, index);
    push_u16_le(buf, i.get_script_bytes());
    push_bytes(buf, i.get_sig_script());
    push_u32_le(buf, i.get_sequence());
    assert(buf@ =~= old(buf)@ + enc_input(i@));
}

fn push_output(buf: &mut Vec<u8>, o: &Output)
    ensures
        final(buf)@ == old(buf)@ + enc_output(o@),
{
    push_u64_le(buf, o.get_amount());
    push_u16_le(buf, o.get_script_length());
    push_bytes(buf, o.get_script_pubkey());
    assert(buf@ =~= old(buf)@ + enc_output(o@));
}

proof fn lemma_enc_inputs_step(ins: Seq<InputV>, i: int)
    requires
        0 <= i < ins.len(),
    ensures
        enc_inputs(ins.take(i + 1)) == enc_inputs(ins.take(i)) + enc_input(ins[i]),
{
    assert(ins.take(i + 1).drop_last() =~= ins.take(i));
    assert(ins.take(i + 1).last() == ins[i]);
}

proof fn lemma_enc_outputs_step(outs: Seq<OutputV>, i: int)
    requires
        0 <= i < outs.len(),
    ensures
        enc_outputs(outs.take(i + 1)) == enc_outputs(outs.take(i)) + enc_output(outs[i]),
{
    assert(outs.take(i + 1).drop_last() =~= outs.take(i));
    assert(outs.take(i + 1).last() == outs[i]);
}

/// Encodes a transaction in the wire format.
pub fn serialize(transaction: &Transaction) -> (r: Vec<u8>)
    ensures
        r@ == enc_tx(transaction@),
{
    let mut buf: Vec<u8> = Vec::new();
    push_u32_le(&mut buf, transaction.get_version());
    push_u16_le(&mut buf, transaction.get_tx_in_count());
    let tx_in = transaction.get_tx_in();
    let tx_out = transaction.get_tx_out();
    let n_in = tx_in.len();
    push_u64_le(&mut buf, n_in as u64);
    let ghost head = (u32_le(transaction@.version) + u16_le(transaction@.tx_in_count)) + u64_le(
        transaction@.tx_in.len() as u64,
    );
    assert(buf@ =~= head);
    assert(transaction@.tx_in.take(0) =~= Seq::<InputV>::empty());
    for i in 0..n_in
        invariant
            n_in == tx_in@.len(),
            transaction@.tx_in == tx_in@.map_values(|x: Input| x@),
            transaction@.tx_in.len() == n_in,
            buf@ == head + enc_inputs(transaction@.tx_in.take(i as int)),
    {
        assert(tx_in@[i as int]@ == transaction@.tx_in[i as int]);
        push_input(&mut buf, &tx_in[i]);
        proof {
            lemma_enc_inputs_step(transaction@.tx_in, i as int);
            assert(buf@ =~= head + enc_inputs(transaction@.tx_in.take(i + 1)));
        }
    }
    assert(transaction@.tx_in.take(n_in as int) =~= transaction@.tx_in);
    push_u16_le(&mut buf, transaction.get_tx_out_count());
    let n_out = tx_out.len();
    push_u64_le(&mut buf, n_out as u64);
    let ghost mid = (((head + enc_inputs(transaction@.tx_in)) + u16_le(transaction@.tx_out_count))
        + u64_le(transaction@.tx_out.len() as u64));
    assert(buf@ =~= mid);
    assert(transaction@.tx_out.take(0) =~= Seq::<OutputV>::empty());
    assert(buf@ =~= mid + enc_outputs(transaction@.tx_out.take(0)));
    for i in 0..n_out
        invariant
            n_out == tx_out@.len(),
            transaction@.tx_out == tx_out@.map_values(|x: Output| x@),
            transaction@.tx_out.len() == n_out,
            buf@ == mid + enc_outputs(transaction@.tx_out.take(i as int)),
    {
        assert(tx_out@[i as int]@ == transaction@.tx_out[i as int]);
        push_output(&mut buf, &tx_out[i]);
        proof {
            lemma_enc_outputs_step(transaction@.tx_out, i as int);
            assert(buf@ =~= mid + enc_outputs(transaction@.tx_out.take(i + 1)));
        }
    }
    assert(transaction@.tx_out.take(n_out as int) =~= transaction@.tx_out);
    push_u32_le(&mut buf, transaction.get_lock_time());
    proof {
        reveal(enc_tx);
    }
    assert(buf@ =~= enc_tx(transaction@));
    buf
}

// ---------------------------------------------------------------------------
// Executable decoder
// ---------------------------------------------------------------------------

fn read_u16(s: &[u8], pos: usize) -> (r: Option<(u16, usize)>)
    ensures
        dec_u16(s@, pos as int) is Some <==> r is Some,
        r matches Some(p) ==> dec_u16(s@, pos as int) == Some((p.0, p.1 as int)),
{
    if pos < s.len() && s.len() - pos >= 2 {
        let b0 = s[pos] as u16;
        let b1 = s[pos + 1] as u16;
        let v = b0 + 256 * b1;
        assert(s@.subrange(pos as int, pos + 2)[0] == s@[pos as int]);
        assert(s@.subrange(pos as int, pos + 2)[1] == s@[pos + 1]);
        Some((v, pos + 2))
    } else {
        None
    }
}

fn read_u32(s: &[u8], pos: usize) -> (r: Option<(u32, usize)>)
    ensures
        dec_u32(s@, pos as int) is Some <==> r is Some,
        r matches Some(p) ==> dec_u32(s@, pos as int) == Some((p.0, p.1 as int)),
{
    if pos < s.len() && s.len() - pos >= 4 {
        let b0 = s[pos] as u32;
        let b1 = s[pos + 1] as u32;
        let b2 = s[pos + 2] as u32;
        let b3 = s[pos + 3] as u32;
        let v = b0 + 256 * b1 + 65536 * b2 + 16777216 * b3;
        let ghost sub = s@.subrange(pos as int, pos + 4);
        assert(sub[0] == s@[pos as int] && sub[1] == s@[pos + 1] && sub[2] == s@[pos + 2] && sub[3]
            == s@[pos + 3]);
        Some((v, pos + 4))
    } else {
        None
    }
}

fn read_u64(s: &[u8], pos: usize) -> (r: Option<(u64, usize)>)
    ensures
        dec_u64(s@, pos as int) is Some <==> r is Some,
        r matches Some(p) ==> dec_u64(s@, pos as int) == Some((p.0, p.1 as int)),
{
    if pos < s.len() && s.len() - pos >= 8 {
        let b0 = s[pos] as u64;
        let b1 = s[pos + 1] as u64;
        let b2 = s[pos + 2] as u64;
        let b3 = s[pos + 3] as u64;
        let b4 = s[pos + 4] as u64;
        let b5 = s[pos + 5] as u64;
        let b6 = s[pos + 6] as u64;
        let b7 = s[pos + 7] as u64;
        let v = b0 + 256 * b1 + 65536 * b2 + 16777216 * b3 + 4294967296 * b4 + 1099511627776 * b5
            + 281474976710656 * b6 + 72057594037927936 * b7;
        let ghost sub = s@.subrange(pos as int, pos + 8);
        assert(sub[0] == s@[pos as int] && sub[1] == s@[pos + 1] && sub[2] == s@[pos + 2] && sub[3]
            == s@[pos + 3] && sub[4] == s@[pos + 4] && sub[5] == s@[pos + 5] && sub[6] == s@[pos
            + 6] && sub[7] == s@[pos + 7]);
        Some((v, pos + 8))
    } else {
        None
    }
}

fn read_bytes(s: &[u8], pos: usize) -> (r: Option<(Vec<u8>, usize)>)
    ensures
        dec_bytes(s@, pos as int) is Some <==> r is Some,
        r matches Some(p) ==> (dec_bytes(s@, pos as int) matches Some(q) && p.0@ == q.0 && p.1
            as int == q.1),
{
    match read_u64(s, pos) {
        None => None,
        Some((n, p)) => {
            if n <= (usize::MAX - p) as u64 && p + (n as usize) <= s.len() {
                let end = p + (n as usize);
                let mut out: Vec<u8> = Vec::new();
                out.extend_from_slice(&s[p..end]);
                assert(out@ =~= s@.subrange(p as int, p + n));
                Some((out, end))
            } else {
                assert(p + n > s.len());
                None
            }
        },
    }
}

fn read_input(s: &[u8], pos: usize) -> (r: Option<(Input, usize)>)
    ensures
        dec_input(s@, pos as int) is Some <==> r is Some,
        r matches Some(p) ==> (dec_input(s@, pos as int) matches Some(q) && p.0@ == q.0 && p.1
            as int == q.1),
{
    let (tx_id, p1) = match read_bytes(s, pos) {
        Some(x) => x,
        None => {
            return None;
        },
    };
    let (index, p2) = match read_u32(s, p1) {
        Some(x) => x,
        None => {
            return None;
        },
    };
    let (script_bytes, p3) = match read_u16(s, p2) {
        Some(x) => x,
        None => {
            return None;
        },
    };
    let (sig_script, p4) = match read_bytes(s, p3) {
        Some(x) => x,
        None => {
            return None;
        },
    };
    let (sequence, p5) = match read_u32(s, p4) {
        Some(x) => x,
        None => {
            return None;
        },
    };
    let input = Input::from_parts(OutPoint::new(tx_id, index), script_bytes, sig_script, sequence);
    Some((input, p5))
}

fn read_output(s: &[u8], pos: usize) -> (r: Option<(Output, usize)>)
    ensures
        dec_output(s@, pos as int) is Some <==> r is Some,
        r matches Some(p) ==> (dec_output(s@, pos as int) matches Some(q) && p.0@ == q.0 && p.1
            as int == q.1),
{
    let (amount, p1) = match read_u64(s, pos) {
        Some(x) => x,
        None => {
            return None;
        },
    };
    let (script_length, p2) = match read_u16(s, p1) {
        Some(x) => x,
        None => {
            return None;
        },
    };
    let (script_pubkey, p3) = match read_bytes(s, p2) {
        Some(x) => x,
        None => {
            return None;
        },
    };
    let output = Output::from_parts(amount, script_length, script_pubkey);
    Some((output, p3))
}

/// Decodes a transaction from the wire format. Fails exactly when the bytes
/// are not one whole well-formed encoding.
pub fn deserialize(serialized: &[u8]) -> (r: Result<Transaction, RitCoinErrror>)
    ensures
        r is Ok <==> dec_tx(serialized@) is Some,
        r matches Ok(t) ==> dec_tx(serialized@) == Some(t@),
        r matches Err(e) ==> e is EncodingError,
{
    let (version, p1) = match read_u32(serialized, 0) {
        Some(x) => x,
        None => {
            return Err(RitCoinErrror::EncodingError("malformed transaction encoding".to_string()));
        },
    };
    let (tx_in_count, p2) = match read_u16(serialized, p1) {
        Some(x) => x,
        None => {
            return Err(RitCoinErrror::EncodingError("malformed transaction encoding".to_string()));
        },
    };
    let (n_in, p3) = match read_u64(serialized, p2) {
        Some(x) => x,
        None => {
            return Err(RitCoinErrror::EncodingError("malformed transaction encoding".to_string()));
        },
    };
    let (tx_in, p4) = match read_inputs(serialized, p3, n_in) {
        Some(x) => x,
        None => {
            return Err(RitCoinErrror::EncodingError("malformed transaction encoding".to_string()));
        },
    };
    let (tx_out_count, p5) = match read_u16(serialized, p4) {
        Some(x) => x,
        None => {
            return Err(RitCoinErrror::EncodingError("malformed transaction encoding".to_string()));
        },
    };
    let (n_out, p6) = match read_u64(serialized, p5) {
        Some(x) => x,
        None => {
            return Err(RitCoinErrror::EncodingError("malformed transaction encoding".to_string()));
        },
    };
    let (tx_out, p7) = match read_outputs(serialized, p6, n_out) {
        Some(x) => x,
        None => {
            return Err(RitCoinErrror::EncodingError("malformed transaction encoding".to_string()));
        },
    };
    let (lock_time, p8) = match read_u32(serialized, p7) {
        Some(x) => x,
        None => {
            return Err(RitCoinErrror::EncodingError("malformed transaction encoding".to_string()));
        },
    };
    if p8 != serialized.len() {
        return Err(RitCoinErrror::EncodingError("trailing bytes after transaction".to_string()));
    }
    let t = Transaction::from_parts(version, tx_in_count, tx_in, tx_out_count, tx_out, lock_time);
    Ok(t)
}

fn read_inputs(s: &[u8], pos: usize, count: u64) -> (r: Option<(Vec<Input>, usize)>)
    ensures
        dec_inputs(s@, pos as int, count) is Some <==> r is Some,
        r matches Some(p) ==> (dec_inputs(s@, pos as int, count) matches Some(q) && p.0@.map_values(
            |x: Input| x@,
        ) == q.0 && p.1 as int == q.1),
{
    let mut out: Vec<Input> = Vec::new();
    let mut cur = pos;
    let mut remaining = count;
    let ghost full = dec_inputs(s@, pos as int, count);
    assert(out@.map_values(|x: Input| x@) =~= Seq::<InputV>::empty());
    while remaining > 0
        invariant
            full == dec_inputs(s@, pos as int, count),
            remaining <= count,
            match dec_inputs(s@, cur as int, remaining) {
                Some(q) => full matches Some(f) && f.0 == out@.map_values(|x: Input| x@) + q.0
                    && f.1 == q.1,
                None => full is None,
            },
        decreases remaining,
    {
        let ghost pre = out@.map_values(|x: Input| x@);
        match read_input(s, cur) {
            Some((input, p)) => {
                let ghost iv = input@;
                out.push(input);
                assert(out@.map_values(|x: Input| x@) =~= pre.push(iv));
                cur = p;
                remaining = remaining - 1;
                proof {
                    match dec_inputs(s@, cur as int, remaining) {
                        Some(q) => {
                            assert(pre + (seq![iv] + q.0) =~= pre.push(iv) + q.0);
                        },
                        None => {},
                    }
                }
            },
            None => {
                return None;
            },
        }
    }
    assert(out@.map_values(|x: Input| x@) + Seq::<InputV>::empty() =~= out@.map_values(
        |x: Input| x@,
    ));
    Some((out, cur))
}

fn read_outputs(s: &[u8], pos: usize, count: u64) -> (r: Option<(Vec<Output>, usize)>)
    ensures
        dec_outputs(s@, pos as int, count) is Some <==> r is Some,
        r matches Some(p) ==> (dec_outputs(s@, pos as int, count) matches Some(q)
            && p.0@.map_values(|x: Output| x@) == q.0 && p.1 as int == q.1),
{
    let mut out: Vec<Output> = Vec::new();
    let mut cur = pos;
    let mut remaining = count;
    let ghost full = dec_outputs(s@, pos as int, count);
    assert(out@.map_values(|x: Output| x@) =~= Seq::<OutputV>::empty());
    while remaining > 0
        invariant
            full == dec_outputs(s@, pos as int, count),
            remaining <= count,
            match dec_outputs(s@, cur as int, remaining) {
                Some(q) => full matches Some(f) && f.0 == out@.map_values(|x: Output| x@) + q.0
                    && f.1 == q.1,
                None => full is None,
            },
        decreases remaining,
    {
        let ghost pre = out@.map_values(|x: Output| x@);
        match read_output(s, cur) {
            Some((output, p)) => {
                let ghost ov = output@;
                out.push(output);
                assert(out@.map_values(|x: Output| x@) =~= pre.push(ov));
                cur = p;
                remaining = remaining - 1;
                proof {
                    match dec_outputs(s@, cur as int, remaining) {
                        Some(q) => {
                            assert(pre + (seq![ov] + q.0) =~= pre.push(ov) + q.0);
                        },
                        None => {},
                    }
                }
            },
            None => {
                return None;
            },
        }
    }
    assert(out@.map_values(|x: Output| x@) + Seq::<OutputV>::empty() =~= out@.map_values(
        |x: Output| x@,
    ));
    Some((out, cur))
}

// ---------------------------------------------------------------------------
// The round trip: decoding inverts encoding
// ---------------------------------------------------------------------------

/// Whether an input's byte fields carry the lengths the wire format's
/// eight-byte prefixes can hold.
pub open spec fn input_fits(i: InputV) -> bool {
    &&& i.previous_output.tx_id.len() < 0x1_0000_0000_0000_0000
    &&& i.sig_script.len() < 0x1_0000_0000_0000_0000
}

/// Whether an output's byte field fits the wire format.
pub open spec fn output_fits(o: OutputV) -> bool {
    o.script_pubkey.len() < 0x1_0000_0000_0000_0000
}

/// Whether a whole transaction fits the wire format.
pub open spec fn tx_fits(t: TransactionV) -> bool {
    &&& t.tx_in.len() < 0x1_0000_0000_0000_0000
    &&& t.tx_out.len() < 0x1_0000_0000_0000_0000
    &&& forall|j: int| 0 <= j < t.tx_in.len() ==> input_fits(#[trigger] t.tx_in[j])
    &&& forall|j: int| 0 <= j < t.tx_out.len() ==> output_fits(#[trigger] t.tx_out[j])
}

proof fn lemma_u16_le_round_trip(v: u16)
    ensures
        u16_le(v).len() == 2,
        u16_of_le(u16_le(v)) == v,
{
    assert(v as int == (v as int) % 256 + 256 * ((v as int) / 256));
}

proof fn lemma_u32_le_round_trip(v: u32)
    ensures
        u32_le(v).len() == 4,
        u32_of_le(u32_le(v)) == v,
{
    let x = v as int;
    vstd::arithmetic::div_mod::lemma_div_denominator(x, 256, 256);
    vstd::arithmetic::div_mod::lemma_div_denominator(x, 65536, 256);
    assert(x == x % 256 + 256 * (x / 256));
    assert(x / 256 == (x / 256) % 256 + 256 * (x / 65536));
    assert(x / 65536 == (x / 65536) % 256 + 256 * (x / 16777216));
    assert(x / 16777216 < 256);
}

proof fn lemma_u64_le_round_trip(v: u64)
    ensures
        u64_le(v).len() == 8,
        u64_of_le(u64_le(v)) == v,
{
    let x = v as int;
    vstd::arithmetic::div_mod::lemma_div_denominator(x, 256, 256);
    vstd::arithmetic::div_mod::lemma_div_denominator(x, 65536, 256);
    vstd::arithmetic::div_mod::lemma_div_denominator(x, 16777216, 256);
    vstd::arithmetic::div_mod::lemma_div_denominator(x, 4294967296, 256);
    vstd::arithmetic::div_mod::lemma_div_denominator(x, 1099511627776, 256);
    vstd::arithmetic::div_mod::lemma_div_denominator(x, 281474976710656, 256);
    assert(x == x % 256 + 256 * (x / 256));
    assert(x / 256 == (x / 256) % 256 + 256 * (x / 65536));
    assert(x / 65536 == (x / 65536) % 256 + 256 * (x / 16777216));
    assert(x / 16777216 == (x / 16777216) % 256 + 256 * (x / 4294967296));
    assert(x / 4294967296 == (x / 4294967296) % 256 + 256 * (x / 1099511627776));
    assert(x / 1099511627776 == (x / 1099511627776) % 256 + 256 * (x / 281474976710656));
    assert(x / 281474976710656 == (x / 281474976710656) % 256 + 256 * (x
        / 72057594037927936));
    assert(x / 72057594037927936 < 256);
}

proof fn lemma_dec_u16_at(s: Seq<u8>, pos: int, v: u16)
    requires
        0 <= pos,
        pos + 2 <= s.len(),
        s.subrange(pos, pos + 2) == u16_le(v),
    ensures
        dec_u16(s, pos) == Some((v, pos + 2)),
{
    lemma_u16_le_round_trip(v);
}

proof fn lemma_dec_u32_at(s: Seq<u8>, pos: int, v: u32)
    requires
        0 <= pos,
        pos + 4 <= s.len(),
        s.subrange(pos, pos + 4) == u32_le(v),
    ensures
        dec_u32(s, pos) == Some((v, pos + 4)),
{
    lemma_u32_le_round_trip(v);
}

proof fn lemma_dec_u64_at(s: Seq<u8>, pos: int, v: u64)
    requires
        0 <= pos,
        pos + 8 <= s.len(),
        s.subrange(pos, pos + 8) == u64_le(v),
    ensures
        dec_u64(s, pos) == Some((v, pos + 8)),
{
    lemma_u64_le_round_trip(v);
}

proof fn lemma_slice_at(s: Seq<u8>, pos: int, e: Seq<u8>, a: int, b: int)
    requires
        0 <= pos,
        pos + e.len() <= s.len(),
        s.subrange(pos, pos + e.len()) == e,
        0 <= a <= b <= e.len(),
    ensures
        s.subrange(pos + a, pos + b) == e.subrange(a, b),
{
    assert(s.subrange(pos + a, pos + b) =~= e.subrange(a, b)) by {
        assert forall|t: int| 0 <= t < b - a implies s.subrange(pos + a, pos + b)[t] == e.subrange(
            a,
            b,
        )[t] by {
            assert(e[a + t] == s.subrange(pos, pos + e.len())[a + t]);
        }
    }
}

proof fn lemma_dec_bytes_at(s: Seq<u8>, pos: int, b: Seq<u8>)
    requires
        b.len() < 0x1_0000_0000_0000_0000,
        0 <= pos,
        pos + 8 + b.len() <= s.len(),
        s.subrange(pos, pos + 8 + b.len()) == enc_bytes(b),
    ensures
        dec_bytes(s, pos) == Some((b, pos + 8 + b.len())),
{
    let e = enc_bytes(b);
    assert(e.len() == 8 + b.len());
    assert(e.subrange(0, 8) =~= u64_le(b.len() as u64));
    lemma_slice_at(s, pos, e, 0, 8);
    lemma_dec_u64_at(s, pos, b.len() as u64);
    assert(e.subrange(8, 8 + b.len() as int) =~= b);
    lemma_slice_at(s, pos, e, 8, 8 + b.len() as int);
}

#[verifier::rlimit(100)]
#[verifier::spinoff_prover]
proof fn lemma_dec_input_at(s: Seq<u8>, pos: int, i: InputV)
    requires
        input_fits(i),
        0 <= pos,
        pos + enc_input(i).len() <= s.len(),
        s.subrange(pos, pos + enc_input(i).len()) == enc_input(i),
    ensures
        dec_input(s, pos) == Some((i, pos + enc_input(i).len())),
{
    let e = enc_input(i);
    let c1 = enc_bytes(i.previous_output.tx_id);
    let c4 = enc_bytes(i.sig_script);
    let o1 = c1.len() as int;
    let o2 = o1 + 4;
    let o3 = o2 + 2;
    let o4 = o3 + c4.len() as int;
    let o5 = o4 + 4;
    assert(e.len() == o5);
    assert(e.subrange(0, o1) =~= c1);
    lemma_slice_at(s, pos, e, 0, o1);
    lemma_dec_bytes_at(s, pos, i.previous_output.tx_id);
    assert(e.subrange(o1, o2) =~= u32_le(i.previous_output.index));
    lemma_slice_at(s, pos, e, o1, o2);
    lemma_dec_u32_at(s, pos + o1, i.previous_output.index);
    assert(e.subrange(o2, o3) =~= u16_le(i.script_bytes));
    lemma_slice_at(s, pos, e, o2, o3);
    lemma_dec_u16_at(s, pos + o2, i.script_bytes);
    assert(e.subrange(o3, o4) =~= c4);
    lemma_slice_at(s, pos, e, o3, o4);
    lemma_dec_bytes_at(s, pos + o3, i.sig_script);
    assert(e.subrange(o4, o5) =~= u32_le(i.sequence));
    lemma_slice_at(s, pos, e, o4, o5);
    lemma_dec_u32_at(s, pos + o4, i.sequence);
}

#[verifier::rlimit(100)]
#[verifier::spinoff_prover]
proof fn lemma_dec_output_at(s: Seq<u8>, pos: int, o: OutputV)
    requires
        output_fits(o),
        0 <= pos,
        pos + enc_output(o).len() <= s.len(),
        s.subrange(pos, pos + enc_output(o).len()) == enc_output(o),
    ensures
        dec_output(s, pos) == Some((o, pos + enc_output(o).len())),
{
    let e = enc_output(o);
    let c3 = enc_bytes(o.script_pubkey);
    let o1 = 8int;
    let o2 = o1 + 2;
    let o3 = o2 + c3.len() as int;
    assert(e.len() == o3);
    assert(e.subrange(0, o1) =~= u64_le(o.amount));
    lemma_slice_at(s, pos, e, 0, o1);
    lemma_dec_u64_at(s, pos, o.amount);
    assert(e.subrange(o1, o2) =~= u16_le(o.script_length));
    lemma_slice_at(s, pos, e, o1, o2);
    lemma_dec_u16_at(s, pos + o1, o.script_length);
    assert(e.subrange(o2, o3) =~= c3);
    lemma_slice_at(s, pos, e, o2, o3);
    lemma_dec_bytes_at(s, pos + o2, o.script_pubkey);
}

proof fn lemma_enc_inputs_front(ins: Seq<InputV>)
    requires
        ins.len() > 0,
    ensures
        enc_inputs(ins) == enc_input(ins[0]) + enc_inputs(ins.drop_first()),
    decreases ins.len(),
{
    if ins.len() == 1 {
        assert(ins.drop_last() =~= Seq::<InputV>::empty());
        assert(ins.drop_first() =~= Seq::<InputV>::empty());
        assert(enc_inputs(ins) =~= enc_input(ins[0]) + enc_inputs(ins.drop_first()));
    } else {
        lemma_enc_inputs_front(ins.drop_last());
        assert(ins.drop_last()[0] == ins[0]);
        assert(ins.drop_last().drop_first() =~= ins.drop_first().drop_last());
        assert(ins.drop_first().last() == ins.last());
        assert(enc_inputs(ins) == enc_inputs(ins.drop_last()) + enc_input(ins.last()));
        assert(enc_input(ins[0]) + enc_inputs(ins.drop_first()) =~= (enc_input(ins[0])
            + enc_inputs(ins.drop_first().drop_last())) + enc_input(ins.last()));
    }
}

proof fn lemma_enc_outputs_front(outs: Seq<OutputV>)
    requires
        outs.len() > 0,
    ensures
        enc_outputs(outs) == enc_output(outs[0]) + enc_outputs(outs.drop_first()),
    decreases outs.len(),
{
    if outs.len() == 1 {
        assert(outs.drop_last() =~= Seq::<OutputV>::empty());
        assert(outs.drop_first() =~= Seq::<OutputV>::empty());
        assert(enc_outputs(outs) =~= enc_output(outs[0]) + enc_outputs(outs.drop_first()));
    } else {
        lemma_enc_outputs_front(outs.drop_last());
        assert(outs.drop_last()[0] == outs[0]);
        assert(outs.drop_last().drop_first() =~= outs.drop_first().drop_last());
        assert(outs.drop_first().last() == outs.last());
        assert(enc_outputs(outs) == enc_outputs(outs.drop_last()) + enc_output(outs.last()));
        assert(enc_output(outs[0]) + enc_outputs(outs.drop_first()) =~= (enc_output(outs[0])
            + enc_outputs(outs.drop_first().drop_last())) + enc_output(outs.last()));
    }
}

#[verifier::rlimit(100)]
proof fn lemma_dec_inputs_at(s: Seq<u8>, pos: int, ins: Seq<InputV>)
    requires
        ins.len() < 0x1_0000_0000_0000_0000,
        forall|j: int| 0 <= j < ins.len() ==> input_fits(#[trigger] ins[j]),
        0 <= pos,
        pos + enc_inputs(ins).len() <= s.len(),
        s.subrange(pos, pos + enc_inputs(ins).len()) == enc_inputs(ins),
    ensures
        dec_inputs(s, pos, ins.len() as u64) == Some((ins, pos + enc_inputs(ins).len())),
    decreases ins.len(),
{
    if ins.len() == 0 {
        assert(dec_inputs(s, pos, 0) == Some((Seq::<InputV>::empty(), pos)));
        assert(ins =~= Seq::<InputV>::empty());
    } else {
        lemma_enc_inputs_front(ins);
        let e = enc_inputs(ins);
        let e0 = enc_input(ins[0]);
        let rest = enc_inputs(ins.drop_first());
        assert(e.subrange(0, e0.len() as int) =~= e0);
        lemma_slice_at(s, pos, e, 0, e0.len() as int);
        lemma_dec_input_at(s, pos, ins[0]);
        assert(e.subrange(e0.len() as int, e.len() as int) =~= rest);
        lemma_slice_at(s, pos, e, e0.len() as int, e.len() as int);
        assert(forall|j: int|
            0 <= j < ins.drop_first().len() ==> input_fits(#[trigger] ins.drop_first()[j]));
        lemma_dec_inputs_at(s, pos + e0.len(), ins.drop_first());
        assert(ins.drop_first().len() as u64 == (ins.len() as u64 - 1) as u64);
        assert(seq![ins[0]] + ins.drop_first() =~= ins);
    }
}

#[verifier::rlimit(100)]
proof fn lemma_dec_outputs_at(s: Seq<u8>, pos: int, outs: Seq<OutputV>)
    requires
        outs.len() < 0x1_0000_0000_0000_0000,
        forall|j: int| 0 <= j < outs.len() ==> output_fits(#[trigger] outs[j]),
        0 <= pos,
        pos + enc_outputs(outs).len() <= s.len(),
        s.subrange(pos, pos + enc_outputs(outs).len()) == enc_outputs(outs),
    ensures
        dec_outputs(s, pos, outs.len() as u64) == Some((outs, pos + enc_outputs(outs).len())),
    decreases outs.len(),
{
    if outs.len() == 0 {
        assert(dec_outputs(s, pos, 0) == Some((Seq::<OutputV>::empty(), pos)));
        assert(outs =~= Seq::<OutputV>::empty());
    } else {
        lemma_enc_outputs_front(outs);
        let e = enc_outputs(outs);
        let e0 = enc_output(outs[0]);
        let rest = enc_outputs(outs.drop_first());
        assert(e.subrange(0, e0.len() as int) =~= e0);
        lemma_slice_at(s, pos, e, 0, e0.len() as int);
        lemma_dec_output_at(s, pos, outs[0]);
        assert(e.subrange(e0.len() as int, e.len() as int) =~= rest);
        lemma_slice_at(s, pos, e, e0.len() as int, e.len() as int);
        assert(forall|j: int|
            0 <= j < outs.drop_first().len() ==> output_fits(#[trigger] outs.drop_first()[j]));
        lemma_dec_outputs_at(s, pos + e0.len(), outs.drop_first());
        assert(outs.drop_first().len() as u64 == (outs.len() as u64 - 1) as u64);
        assert(seq![outs[0]] + outs.drop_first() =~= outs);
    }
}

proof fn lemma_concat_slice(a: Seq<u8>, b: Seq<u8>, whole: Seq<u8>)
    requires
        whole == a + b,
    ensures
        whole.subrange(0, a.len() as int) == a,
        whole.subrange(a.len() as int, whole.len() as int) == b,
{
    assert(whole.subrange(0, a.len() as int) =~= a);
    assert(whole.subrange(a.len() as int, whole.len() as int) =~= b);
}

/// The round-trip law of the wire format: decoding an encoded transaction
/// yields the transaction back. With `serialize`'s and `deserialize`'s
/// contracts this makes the two exact inverses on every transaction whose
/// byte fields fit the format's length prefixes.
#[verifier::rlimit(100)]
#[verifier::spinoff_prover]
pub proof fn lemma_round_trip(t: TransactionV)
    requires
        tx_fits(t),
    ensures
        dec_tx(enc_tx(t)) == Some(t),
{
    reveal(enc_tx);
    let s = enc_tx(t);
    let c1 = u32_le(t.version);
    let c2 = u16_le(t.tx_in_count);
    let c3 = u64_le(t.tx_in.len() as u64);
    let c4 = enc_inputs(t.tx_in);
    let c5 = u16_le(t.tx_out_count);
    let c6 = u64_le(t.tx_out.len() as u64);
    let c7 = enc_outputs(t.tx_out);
    let c8 = u32_le(t.lock_time);
    let h2 = c1 + c2;
    let h3 = h2 + c3;
    let h4 = h3 + c4;
    let h5 = h4 + c5;
    let h6 = h5 + c6;
    let h7 = h6 + c7;
    let p1 = 4int;
    let p2 = p1 + 2;
    let p3 = p2 + 8;
    let p4 = p3 + c4.len() as int;
    let p5 = p4 + 2;
    let p6 = p5 + 8;
    let p7 = p6 + c7.len() as int;
    let p8 = p7 + 4;
    assert(s == h7 + c8);
    lemma_concat_slice(h7, c8, s);
    lemma_dec_u32_at(s, p7, t.lock_time);
    lemma_concat_slice(h6, c7, h7);
    lemma_slice_at(s, 0, h7, 0, p6);
    lemma_slice_at(s, 0, h7, p6, p7);
    lemma_dec_outputs_at(s, p6, t.tx_out);
    lemma_concat_slice(h5, c6, h6);
    lemma_slice_at(s, 0, h6, 0, p5);
    lemma_slice_at(s, 0, h6, p5, p6);
    lemma_dec_u64_at(s, p5, t.tx_out.len() as u64);
    lemma_concat_slice(h4, c5, h5);
    lemma_slice_at(s, 0, h5, 0, p4);
    lemma_slice_at(s, 0, h5, p4, p5);
    lemma_dec_u16_at(s, p4, t.tx_out_count);
    lemma_concat_slice(h3, c4, h4);
    lemma_slice_at(s, 0, h4, 0, p3);
    lemma_slice_at(s, 0, h4, p3, p4);
    lemma_dec_inputs_at(s, p3, t.tx_in);
    lemma_concat_slice(h2, c3, h3);
    lemma_slice_at(s, 0, h3, 0, p2);
    lemma_slice_at(s, 0, h3, p2, p3);
    lemma_dec_u64_at(s, p2, t.tx_in.len() as u64);
    lemma_concat_slice(c1, c2, h2);
    lemma_slice_at(s, 0, h2, 0, p1);
    lemma_slice_at(s, 0, h2, p1, p2);
    lemma_dec_u16_at(s, p1, t.tx_in_count);
    lemma_dec_u32_at(s, 0, t.version);
}

} // verus!
