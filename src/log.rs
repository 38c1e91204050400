//! Length-framed records: requests and replies on a connection, and the
//! records of the binary write-ahead log.

use vstd::prelude::*;
use crate::bytes::{le_bytes, le_decode, le_value, write_usize};
use crate::codec::{decode, decoded_view, encode, DecodeError, Transaction, TxModel};

verus! {

/// `payload` behind its length as eight little-endian bytes.
pub open spec fn framed(payload: Seq<u8>) -> Seq<u8> {
    le_bytes(payload.len() as u64) + payload
}

/// Puts the length of `payload` in front of it.
pub fn frame(payload: &Vec<u8>) -> (r: Vec<u8>)
    ensures
        r@ == framed(payload@),
{
    let mut r = write_usize(payload.len());
    let mut body = payload.clone();
    r.append(&mut body);
    r
}

/// The log record of a transaction.
pub fn log_record(t: &Transaction) -> (r: Vec<u8>)
    ensures
        r@ == framed(encode(t@)),
{
    frame(&t.to_bytes())
}

/// `ts` in front of the transactions of `r`, or the error of `r`.
pub open spec fn prepend(ts: Seq<TxModel>, r: Result<Seq<TxModel>, DecodeError>) -> Result<Seq<TxModel>, DecodeError> {
    match r {
        Ok(rest) => Ok(ts + rest),
        Err(e) => Err(e),
    }
}

/// The transactions of the binary log `b` from offset `p` on. The log ends
/// where fewer than eight bytes are left, at a zero length, or at a record cut
/// short; a record that does not decode is an error.
pub open spec fn log_from(b: Seq<u8>, p: int) -> Result<Seq<TxModel>, DecodeError>
    decreases b.len() - p,
{
    if p < 0 || b.len() - p < 8 {
        Ok(Seq::empty())
    } else {
        let n = le_value(b.subrange(p, p + 8)) as int;
        if n == 0 || b.len() - (p + 8) < n {
            Ok(Seq::empty())
        } else {
            match decode(b.subrange(p + 8, p + 8 + n)) {
                Ok(t) => prepend(seq![t], log_from(b, p + 8 + n)),
                Err(e) => Err(e),
            }
        }
    }
}

proof fn lemma_prepend_assoc(a: Seq<TxModel>, b: Seq<TxModel>, r: Result<Seq<TxModel>, DecodeError>)
    ensures
        prepend(a, prepend(b, r)) == prepend(a + b, r),
{
    match r {
        Ok(rest) => {
            assert(a + (b + rest) =~= (a + b) + rest);
        },
        Err(_) => {},
    }
}

/// Reads every transaction of a binary log, in order.
pub fn load_transactions(data: &[u8]) -> (r: Result<Vec<Transaction>, DecodeError>)
    ensures
        match r {
            Ok(ts) => log_from(data@, 0) == Ok::<Seq<TxModel>, DecodeError>(
                ts@.map_values(|t: Transaction| t@),
            ),
            Err(e) => log_from(data@, 0) == Err::<Seq<TxModel>, DecodeError>(e),
        },
{
    let mut out: Vec<Transaction> = Vec::new();
    let mut p: usize = 0;
    let len = data.len();
    assert(out@.map_values(|t: Transaction| t@) =~= Seq::<TxModel>::empty());
    assert(log_from(data@, 0) == prepend(Seq::empty(), log_from(data@, 0))) by {
        match log_from(data@, 0) {
            Ok(rest) => {
                assert(Seq::<TxModel>::empty() + rest =~= rest);
            },
            Err(_) => {},
        }
    }
    while len - p >= 8
        invariant
            0 <= p <= len,
            len == data@.len(),
            log_from(data@, 0) == prepend(out@.map_values(|t: Transaction| t@), log_from(data@, p as int)),
        decreases len - p,
    {
        let n = le_decode(&data[p..p + 8]);
        if n == 0 || ((len - (p + 8)) as u64) < n {
            proof {
                assert(log_from(data@, p as int) == Ok::<Seq<TxModel>, DecodeError>(Seq::empty()));
                assert(out@.map_values(|t: Transaction| t@) + Seq::<TxModel>::empty()
                    =~= out@.map_values(|t: Transaction| t@));
            }
            return Ok(out);
        }
        let q = p + 8 + n as usize;
        let ghost before = out@.map_values(|t: Transaction| t@);
        let body = vstd::slice::slice_to_vec(&data[p + 8..q]);
        match Transaction::from(body) {
            Err(e) => {
                return Err(e);
            },
            Ok(t) => {
                let ghost tv = t@;
                out.push(t);
                proof {
                    assert(out@.map_values(|t: Transaction| t@) =~= before + seq![tv]);
                    lemma_prepend_assoc(before, seq![tv], log_from(data@, q as int));
                }
                p = q;
            },
        }
    }
    proof {
        assert(log_from(data@, p as int) == Ok::<Seq<TxModel>, DecodeError>(Seq::empty()));
        assert(out@.map_values(|t: Transaction| t@) + Seq::<TxModel>::empty() =~= out@.map_values(
            |t: Transaction| t@,
        ));
    }
    Ok(out)
}

} // verus!
