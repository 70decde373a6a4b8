//! The script engine: a minimal stack machine that proves ownership of a
//! locking script's pubkey-hash. The unlocking script is parsed into a
//! signature and a 65-byte uncompressed public key from a fixed binary
//! layout (one length byte, the signature bytes, one sighash-type byte, one
//! length byte, the public key bytes); the locking script is then consumed
//! one byte at a time, unrecognized bytes accumulating as embedded data.

use vstd::prelude::*;
use vstd::std_specs::cmp::PartialEqSpec;
use crate::errors::RitCoinErrror;
use crate::opcodes::{is_opcode, OP_CHECKSIG, OP_DUP, OP_EQUALVERIFY, OP_HASH160};
use crate::wallet::{pk_hash_from_public_key, pk_hash_of, sig_valid, verify};

verus! {

/// Whether an unlocking script has the fixed layout: a length byte holding
/// the signature length plus one, the signature, one sighash-type byte, a
/// length byte holding 65, and the 65 public key bytes.
pub open spec fn unlock_wf(s: Seq<u8>) -> bool {
    &&& s.len() >= 1
    &&& s[0] >= 1
    &&& s.len() == s[0] + 67
    &&& s[s[0] as int + 1] == 65
}

/// The signature bytes of a well-formed unlocking script.
pub open spec fn unlock_sig(s: Seq<u8>) -> Seq<u8> {
    s.subrange(1, s[0] as int)
}

/// The public key bytes of a well-formed unlocking script.
pub open spec fn unlock_pubkey(s: Seq<u8>) -> Seq<u8> {
    s.subrange(s[0] as int + 2, s.len() as int)
}

/// One step of the stack machine on locking-script byte `op`: `None` is a
/// script failure, `Some` the next stack and embedded-data accumulator.
pub open spec fn lock_step(st: Seq<Seq<u8>>, acc: Seq<u8>, op: u8, hash: Seq<u8>) -> Option<
    (Seq<Seq<u8>>, Seq<u8>),
> {
    if op == OP_DUP {
        if st.len() >= 1 {
            Some((st.push(st.last()), acc))
        } else {
            None
        }
    } else if op == OP_HASH160 {
        if st.len() >= 1 {
            Some((st.update(st.len() - 1, pk_hash_of(st.last())), acc))
        } else {
            None
        }
    } else if op == OP_EQUALVERIFY {
        // The accumulated embedded data is pushed first, then the top two
        // elements are popped and must be equal.
        if st.len() >= 1 && acc == st.last() {
            Some((st.drop_last(), acc))
        } else {
            None
        }
    } else if op == OP_CHECKSIG {
        if st.len() >= 2 && sig_valid(hash, st[st.len() - 2], st.last()) {
            Some((st.take(st.len() - 2), acc))
        } else {
            None
        }
    } else {
        Some((st, acc.push(op)))
    }
}

/// Runs the stack machine over a whole locking script.
pub open spec fn lock_run(st: Seq<Seq<u8>>, acc: Seq<u8>, script: Seq<u8>, hash: Seq<u8>) -> Option<
    (Seq<Seq<u8>>, Seq<u8>),
>
    decreases script.len(),
{
    if script.len() == 0 {
        Some((st, acc))
    } else {
        match lock_step(st, acc, script[0], hash) {
            Some(next) => lock_run(next.0, next.1, script.drop_first(), hash),
            None => None,
        }
    }
}

/// Whether executing `lock` against the unlocking script `unlock` and
/// signature hash `hash` succeeds: the unlocking script parses, and every
/// opcode of the locking script completes.
pub open spec fn script_succeeds(unlock: Seq<u8>, lock: Seq<u8>, hash: Seq<u8>) -> bool {
    &&& unlock_wf(unlock)
    &&& lock_run(seq![unlock_sig(unlock), unlock_pubkey(unlock)], Seq::empty(), lock, hash)
        is Some
}

/// The stack of byte strings that the machine operates on.
pub struct Stack {
    items: Vec<Vec<u8>>,
}

impl View for Stack {
    type V = Seq<Seq<u8>>;

    closed spec fn view(&self) -> Seq<Seq<u8>> {
        self.items.deep_view()
    }
}

impl Stack {
    /// Parses an unlocking script into the two initial stack elements,
    /// signature below public key. Fails exactly on a malformed layout.
    pub fn new(sig_script: &[u8]) -> (r: Result<Stack, RitCoinErrror>)
        ensures
            r is Ok <==> unlock_wf(sig_script@),
            r matches Ok(st) ==> st@ =~= seq![unlock_sig(sig_script@), unlock_pubkey(sig_script@)],
            r matches Err(e) ==> e is ScriptError,
    {
        let n = sig_script.len();
        if n < 1 {
            return Err(RitCoinErrror::ScriptError("empty unlocking script".to_string()));
        }
        let l = sig_script[0] as usize;
        if l < 1 || n != l + 67 {
            return Err(
                RitCoinErrror::ScriptError("unlocking script length mismatch".to_string()),
            );
        }
        if sig_script[l + 1] != 65 {
            return Err(
                RitCoinErrror::ScriptError(
                    "unlocking script public key must be 65 bytes".to_string(),
                ),
            );
        }
        let mut sig: Vec<u8> = Vec::new();
        sig.extend_from_slice(&sig_script[1..l]);
        let mut pubkey: Vec<u8> = Vec::new();
        pubkey.extend_from_slice(&sig_script[l + 2..n]);
        assert(sig@ =~= unlock_sig(sig_script@));
        assert(pubkey@ =~= unlock_pubkey(sig_script@));
        let mut items: Vec<Vec<u8>> = Vec::new();
        items.push(sig);
        items.push(pubkey);
        let stack = Stack { items };
        assert(stack@ =~~= seq![unlock_sig(sig_script@), unlock_pubkey(sig_script@)]);
        Ok(stack)
    }

    /// Pushes one element; used for the embedded data before
    /// `OP_EQUALVERIFY`.
    pub fn push(&mut self, item: Vec<u8>)
        ensures
            final(self)@ =~= old(self)@.push(item@),
    {
        self.items.push(item);
        assert(self@ =~~= old(self)@.push(item@));
    }

    /// `OP_DUP`: duplicates the top element; fails on an empty stack.
    pub fn op_dup(&mut self) -> (r: Result<(), RitCoinErrror>)
        ensures
            old(self)@.len() >= 1 ==> {
                &&& r is Ok
                &&& final(self)@ =~= old(self)@.push(old(self)@.last())
            },
            old(self)@.len() == 0 ==> {
                &&& r is Err
                &&& final(self)@ == old(self)@
            },
            r matches Err(e) ==> e is ScriptError,
    {
        let n = self.items.len();
        if n >= 1 {
            let last = self.items[n - 1].clone();
            assert(last@ =~= old(self)@.last());
            self.items.push(last);
            assert(self@ =~~= old(self)@.push(old(self)@.last()));
            Ok(())
        } else {
            Err(RitCoinErrror::ScriptError("stack must contain at least 1 element".to_string()))
        }
    }

    /// `OP_HASH160`: replaces the top element with
    /// `RIPEMD160(SHA256(top))`; fails on an empty stack.
    pub fn op_hash160(&mut self) -> (r: Result<(), RitCoinErrror>)
        ensures
            old(self)@.len() >= 1 ==> {
                &&& r is Ok
                &&& final(self)@ =~= old(self)@.update(
                    old(self)@.len() - 1,
                    pk_hash_of(old(self)@.last()),
                )
            },
            old(self)@.len() == 0 ==> {
                &&& r is Err
                &&& final(self)@ == old(self)@
            },
            r matches Err(e) ==> e is ScriptError,
    {
        let n = self.items.len();
        if n >= 1 {
            assert(self.items@[n - 1]@ =~= old(self)@.last());
            let hashed = pk_hash_from_public_key(self.items[n - 1].as_slice());
            self.items.set(n - 1, hashed);
            assert(self@ =~~= old(self)@.update(old(self)@.len() - 1, pk_hash_of(old(self)@.last())));
            Ok(())
        } else {
            Err(RitCoinErrror::ScriptError("stack must contain at least 1 element".to_string()))
        }
    }

    /// `OP_EQUALVERIFY`: pops two elements and fails unless they are equal;
    /// fails when fewer than two exist, popping what is there.
    pub fn op_equalverify(&mut self) -> (r: Result<(), RitCoinErrror>)
        ensures
            old(self)@.len() >= 2 ==> {
                &&& (r is Ok <==> old(self)@.last() == old(self)@[old(self)@.len() - 2])
                &&& final(self)@ =~= old(self)@.take(old(self)@.len() - 2)
            },
            old(self)@.len() < 2 ==> {
                &&& r is Err
                &&& final(self)@ =~= Seq::<Seq<u8>>::empty()
            },
            r matches Err(e) ==> e is ScriptError,
    {
        let a = self.items.pop();
        let b = self.items.pop();
        match (a, b) {
            (Some(a), Some(b)) => {
                assert(self@ =~~= old(self)@.take(old(self)@.len() - 2));
                assert(old(self)@.last() =~= a@);
                assert(old(self)@[old(self)@.len() - 2] =~= b@);
                if a == b {
                    assert(a@ =~= b@);
                    Ok(())
                } else {
                    assert(a@ != b@) by {
                        if a@ == b@ {
                            assert(forall|i: int|
                                0 <= i < a@.len() ==> a@[i] == b@[i]);
                            assert(a.eq_spec(&b));
                        }
                    }
                    Err(RitCoinErrror::ScriptError("pkhashes did not match".to_string()))
                }
            },
            _ => {
                assert(self@ =~~= Seq::<Seq<u8>>::empty());
                Err(RitCoinErrror::ScriptError("pkhash not found".to_string()))
            },
        }
    }

    /// `OP_CHECKSIG`: pops the public key, then the signature, and verifies
    /// the signature over the supplied hash; a verification failure is a
    /// script error, not a panic.
    pub fn op_check_sig(&mut self, hash: &[u8]) -> (r: Result<(), RitCoinErrror>)
        ensures
            old(self)@.len() >= 2 ==> {
                &&& (r is Ok <==> sig_valid(
                    hash@,
                    old(self)@[old(self)@.len() - 2],
                    old(self)@.last(),
                ))
                &&& final(self)@ =~= old(self)@.take(old(self)@.len() - 2)
            },
            old(self)@.len() < 2 ==> {
                &&& r is Err
                &&& final(self)@ =~= Seq::<Seq<u8>>::empty()
            },
            r matches Err(e) ==> e is ScriptError || e is CryptoError,
    {
        let public_key = self.items.pop();
        let signature = self.items.pop();
        match (public_key, signature) {
            (Some(public_key), Some(signature)) => {
                assert(self@ =~~= old(self)@.take(old(self)@.len() - 2));
                assert(signature@ == old(self)@[old(self)@.len() - 2]);
                assert(public_key@ == old(self)@.last());
                verify(hash, signature.as_slice(), public_key.as_slice())
            },
            _ => {
                assert(self@ =~~= Seq::<Seq<u8>>::empty());
                Err(RitCoinErrror::ScriptError("public key or signature not found".to_string()))
            },
        }
    }
}

/// A failed step fails the whole remaining run.
proof fn lemma_lock_run_fail(st: Seq<Seq<u8>>, acc: Seq<u8>, script: Seq<u8>, hash: Seq<u8>)
    requires
        script.len() >= 1,
        lock_step(st, acc, script[0], hash) is None,
    ensures
        lock_run(st, acc, script, hash) is None,
{
}

/// Executes a locking script against an unlocking script and a signature
/// hash: succeeds exactly when the unlocking script parses and every opcode
/// completes without stack underflow, mismatch, or verification failure.
pub fn execute(sig_script: &[u8], script_pubkey: &[u8], hash: &[u8]) -> (r: Result<
    (),
    RitCoinErrror,
>)
    ensures
        r is Ok <==> script_succeeds(sig_script@, script_pubkey@, hash@),
        r matches Err(e) ==> e is ScriptError || e is CryptoError,
{
    let mut stack = match Stack::new(sig_script) {
        Ok(stack) => stack,
        Err(e) => {
            return Err(e);
        },
    };
    let ghost init_st = stack@;
    let mut pk_hash: Vec<u8> = Vec::new();
    let n = script_pubkey.len();
    assert(script_pubkey@.skip(0) =~= script_pubkey@);
    for i in 0..n
        invariant
            unlock_wf(sig_script@),
            init_st == seq![unlock_sig(sig_script@), unlock_pubkey(sig_script@)],
            n == script_pubkey@.len(),
            lock_run(init_st, Seq::empty(), script_pubkey@, hash@) == lock_run(
                stack@,
                pk_hash@,
                script_pubkey@.skip(i as int),
                hash@,
            ),
    {
        let opcode = script_pubkey[i];
        let ghost pre_st = stack@;
        let ghost pre_acc = pk_hash@;
        let ghost rest = script_pubkey@.skip(i as int);
        assert(rest[0] == opcode);
        assert(rest.drop_first() =~= script_pubkey@.skip(i + 1));
        if opcode == OP_DUP {
            match stack.op_dup() {
                Ok(()) => {
                    assert(lock_step(pre_st, pre_acc, opcode, hash@) == Some((stack@, pk_hash@)));
                },
                Err(e) => {
                    proof {
                        assert(lock_step(pre_st, pre_acc, opcode, hash@) is None);
                        lemma_lock_run_fail(pre_st, pre_acc, rest, hash@);
                        assert(lock_run(init_st, Seq::empty(), script_pubkey@, hash@) is None);
                    }
                    return Err(e);
                },
            }
        } else if opcode == OP_HASH160 {
            match stack.op_hash160() {
                Ok(()) => {
                    assert(lock_step(pre_st, pre_acc, opcode, hash@) == Some((stack@, pk_hash@)));
                },
                Err(e) => {
                    proof {
                        assert(lock_step(pre_st, pre_acc, opcode, hash@) is None);
                        lemma_lock_run_fail(pre_st, pre_acc, rest, hash@);
                        assert(lock_run(init_st, Seq::empty(), script_pubkey@, hash@) is None);
                    }
                    return Err(e);
                },
            }
        } else if opcode == OP_EQUALVERIFY {
            let acc_copy = pk_hash.clone();
            assert(acc_copy@ =~= pk_hash@);
            stack.push(acc_copy);
            let ghost pushed = pre_st.push(pre_acc);
            assert(stack@ == pushed);
            assert(pushed.last() == pre_acc);
            match stack.op_equalverify() {
                Ok(()) => {
                    proof {
                        assert(pushed.len() >= 2);
                        assert(pushed[pushed.len() - 2] == pre_st.last());
                        assert(pre_acc == pre_st.last());
                        assert(pushed.take(pushed.len() - 2) =~= pre_st.drop_last());
                        assert(lock_step(pre_st, pre_acc, opcode, hash@) == Some(
                            (stack@, pk_hash@),
                        ));
                    }
                },
                Err(e) => {
                    proof {
                        if pre_st.len() >= 1 {
                            assert(pushed[pushed.len() - 2] == pre_st.last());
                            assert(pre_acc != pre_st.last());
                        }
                        assert(lock_step(pre_st, pre_acc, opcode, hash@) is None);
                        lemma_lock_run_fail(pre_st, pre_acc, rest, hash@);
                        assert(lock_run(init_st, Seq::empty(), script_pubkey@, hash@) is None);
                    }
                    return Err(e);
                },
            }
        } else if opcode == OP_CHECKSIG {
            match stack.op_check_sig(hash) {
                Ok(()) => {
                    assert(lock_step(pre_st, pre_acc, opcode, hash@) == Some((stack@, pk_hash@)));
                },
                Err(e) => {
                    proof {
                        assert(lock_step(pre_st, pre_acc, opcode, hash@) is None);
                        lemma_lock_run_fail(pre_st, pre_acc, rest, hash@);
                        assert(lock_run(init_st, Seq::empty(), script_pubkey@, hash@) is None);
                    }
                    return Err(e);
                },
            }
        } else {
            pk_hash.push(opcode);
            assert(lock_step(pre_st, pre_acc, opcode, hash@) == Some((stack@, pk_hash@)));
        }
    }
    proof {
        assert(script_pubkey@.skip(n as int) =~= Seq::<u8>::empty());
        assert(lock_run(stack@, pk_hash@, Seq::<u8>::empty(), hash@) is Some);
        assert(lock_run(init_st, Seq::empty(), script_pubkey@, hash@) is Some);
        assert(script_succeeds(sig_script@, script_pubkey@, hash@));
    }
    Ok(())
}

/// The P2PKH locking script for a pubkey-hash: duplicate, hash, compare
/// against the embedded operand, check the signature.
pub open spec fn p2pkh_lock_script(pkhash: Seq<u8>) -> Seq<u8> {
    (seq![OP_DUP, OP_HASH160] + pkhash) + seq![OP_EQUALVERIFY, OP_CHECKSIG]
}

/// Whether a byte string contains no opcode byte, so that the machine
/// accumulates all of it as embedded data.
pub open spec fn data_only(s: Seq<u8>) -> bool {
    forall|i: int| 0 <= i < s.len() ==> !is_opcode(s[i])
}

/// A run over data-only bytes just accumulates them.
proof fn lemma_lock_run_data(
    st: Seq<Seq<u8>>,
    acc: Seq<u8>,
    data: Seq<u8>,
    rest: Seq<u8>,
    hash: Seq<u8>,
)
    requires
        data_only(data),
    ensures
        lock_run(st, acc, data + rest, hash) == lock_run(st, acc + data, rest, hash),
    decreases data.len(),
{
    if data.len() == 0 {
        assert(data + rest =~= rest);
        assert(acc + data =~= acc);
    } else {
        let script = data + rest;
        assert(!is_opcode(script[0]));
        assert(lock_step(st, acc, script[0], hash) == Some((st, acc.push(script[0]))));
        assert(script.drop_first() =~= data.drop_first() + rest);
        assert(acc.push(data[0]) + data.drop_first() =~= acc + data);
        lemma_lock_run_data(st, acc.push(data[0]), data.drop_first(), rest, hash);
    }
}

/// How a correctly laid-out P2PKH exchange executes: with a stack holding a
/// signature and a public key, running the locking script for an embedded
/// pubkey-hash `pkhash` (data-only bytes) succeeds exactly when `pkhash` is
/// the hash of that public key and the signature verifies over the supplied
/// hash. In particular a flipped byte in the embedded pubkey-hash, or an
/// invalid signature, fails the script.
pub proof fn lemma_p2pkh_execution(sig: Seq<u8>, pk: Seq<u8>, pkhash: Seq<u8>, hash: Seq<u8>)
    requires
        data_only(pkhash),
    ensures
        lock_run(seq![sig, pk], Seq::empty(), p2pkh_lock_script(pkhash), hash) is Some <==> (pkhash
            == pk_hash_of(pk) && sig_valid(hash, sig, pk)),
{
    let st0 = seq![sig, pk];
    let empty_acc = Seq::<u8>::empty();
    let script = p2pkh_lock_script(pkhash);
    let evcs = seq![OP_EQUALVERIFY, OP_CHECKSIG];
    assert(script[0] == OP_DUP);
    let st1 = st0.push(pk);
    assert(st0.last() == pk);
    assert(lock_step(st0, empty_acc, OP_DUP, hash) == Some((st1, empty_acc)));
    assert(lock_run(st0, empty_acc, script, hash) == lock_run(
        st1,
        empty_acc,
        script.drop_first(),
        hash,
    ));
    assert(script.drop_first()[0] == OP_HASH160);
    let st2 = st1.update(2, pk_hash_of(pk));
    assert(st1.last() == pk);
    assert(lock_step(st1, empty_acc, OP_HASH160, hash) == Some((st2, empty_acc)));
    let tail = script.drop_first().drop_first();
    assert(lock_run(st1, empty_acc, script.drop_first(), hash) == lock_run(
        st2,
        empty_acc,
        tail,
        hash,
    ));
    assert(tail =~= pkhash + evcs);
    lemma_lock_run_data(st2, empty_acc, pkhash, evcs, hash);
    assert(empty_acc + pkhash =~= pkhash);
    assert(lock_run(st0, empty_acc, script, hash) == lock_run(st2, pkhash, evcs, hash));
    assert(st2.last() == pk_hash_of(pk));
    assert(evcs[0] == OP_EQUALVERIFY);
    if pkhash == pk_hash_of(pk) {
        let st3 = st2.drop_last();
        assert(lock_step(st2, pkhash, OP_EQUALVERIFY, hash) == Some((st3, pkhash)));
        let cs = evcs.drop_first();
        assert(lock_run(st2, pkhash, evcs, hash) == lock_run(st3, pkhash, cs, hash));
        assert(cs =~= seq![OP_CHECKSIG]);
        assert(cs[0] == OP_CHECKSIG);
        assert(st3 =~= seq![sig, pk]);
        assert(st3.len() == 2 && st3.last() == pk && st3[0] == sig);
        if sig_valid(hash, sig, pk) {
            let st4 = st3.take(0);
            assert(lock_step(st3, pkhash, OP_CHECKSIG, hash) == Some((st4, pkhash)));
            assert(lock_run(st3, pkhash, cs, hash) == lock_run(
                st4,
                pkhash,
                cs.drop_first(),
                hash,
            ));
            assert(cs.drop_first().len() == 0);
            assert(lock_run(st4, pkhash, cs.drop_first(), hash) is Some);
        } else {
            assert(lock_step(st3, pkhash, OP_CHECKSIG, hash) is None);
            assert(lock_run(st3, pkhash, cs, hash) is None);
        }
    } else {
        assert(lock_step(st2, pkhash, OP_EQUALVERIFY, hash) is None);
        assert(lock_run(st2, pkhash, evcs, hash) is None);
    }
}

/// The same claim at the level of `script_succeeds`, for an unlocking script
/// with the fixed layout: execution of the P2PKH locking script succeeds
/// exactly when the embedded pubkey-hash matches the unlocking script's
/// public key and its signature verifies.
pub proof fn lemma_p2pkh_script_succeeds(unlock: Seq<u8>, pkhash: Seq<u8>, hash: Seq<u8>)
    requires
        unlock_wf(unlock),
        data_only(pkhash),
    ensures
        script_succeeds(unlock, p2pkh_lock_script(pkhash), hash) <==> (pkhash == pk_hash_of(
            unlock_pubkey(unlock),
        ) && sig_valid(hash, unlock_sig(unlock), unlock_pubkey(unlock))),
{
    lemma_p2pkh_execution(unlock_sig(unlock), unlock_pubkey(unlock), pkhash, hash);
}

} // verus!
