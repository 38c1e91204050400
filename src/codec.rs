//! The wire format of a transaction, the unit of work and of logging.
//!
//! A request is `[command:1][object:8][key_len:8][key][value_len:8][value][other:8]`,
//! integers little-endian; a `Create` request is the command byte alone.

use vstd::prelude::*;
use vstd::utf8::{encode_utf8, encode_utf8_decode_utf8, encode_utf8_valid_utf8};
use vstd::string::StringExecFns;
use crate::bytes::{
    le_bytes, le_decode, le_value, lemma_le_round_trip, read_string, read_usize, text_of, write_string,
    write_usize,
};
use crate::text::{decimal, decimal_digits};

verus! {

/// What a transaction asks of the store.
#[derive(Debug, PartialEq, Eq, Structural, Copy, Clone)]
pub enum Command {
    Create,
    SetValue,
    Get,
    Link,
    GetRaw,
}

/// The byte that stands for a command on the wire.
pub open spec fn command_code(c: Command) -> u8 {
    match c {
        Command::Create => 0,
        Command::SetValue => 1,
        Command::Get => 2,
        Command::Link => 3,
        Command::GetRaw => 4,
    }
}

/// The command that a byte stands for.
pub open spec fn command_of(n: u8) -> Command
    recommends
        n <= 4,
{
    if n == 0 {
        Command::Create
    } else if n == 1 {
        Command::SetValue
    } else if n == 2 {
        Command::Get
    } else if n == 3 {
        Command::Link
    } else {
        Command::GetRaw
    }
}

/// Reads leave the store as it is; the other commands change it.
pub open spec fn is_read(c: Command) -> bool {
    c == Command::Get || c == Command::GetRaw
}

impl Command {
    /// The command whose code is `n`.
    pub fn from(n: u8) -> (r: Command)
        requires
            n <= 4,
        ensures
            r == command_of(n),
            command_code(r) == n,
    {
        if n == 0 {
            Command::Create
        } else if n == 1 {
            Command::SetValue
        } else if n == 2 {
            Command::Get
        } else if n == 3 {
            Command::Link
        } else {
            Command::GetRaw
        }
    }

    /// The code of `c` on the wire.
    pub fn to_u8(c: &Command) -> (r: u8)
        ensures
            r == command_code(*c),
            command_of(r) == *c,
    {
        match c {
            Command::Create => 0,
            Command::SetValue => 1,
            Command::Get => 2,
            Command::Link => 3,
            Command::GetRaw => 4,
        }
    }

    /// Whether the command only reads the store.
    pub fn is_read(&self) -> (r: bool)
        ensures
            r == is_read(*self),
    {
        match self {
            Command::Get | Command::GetRaw => true,
            _ => false,
        }
    }
}

/// Why a byte string is not a transaction.
#[derive(Debug, PartialEq, Eq, Structural, Copy, Clone)]
pub enum DecodeError {
    /// The bytes end before a field does.
    Truncated,
    /// The first byte is no command.
    UnknownCommand(u8),
}

/// One request: a command with its target object, key path, value and other object.
#[derive(Debug)]
pub struct Transaction {
    pub cmd: Command,
    pub obj: usize,
    pub key: String,
    pub val: String,
    pub othr: usize,
}

/// The mathematical value of a transaction.
pub struct TxModel {
    pub cmd: Command,
    pub obj: usize,
    pub key: Seq<char>,
    pub val: Seq<char>,
    pub othr: usize,
}

impl View for Transaction {
    type V = TxModel;

    open spec fn view(&self) -> TxModel {
        TxModel {
            cmd: self.cmd,
            obj: self.obj,
            key: self.key@,
            val: self.val@,
            othr: self.othr,
        }
    }
}

/// The value of a decoded transaction, or the error.
pub open spec fn decoded_view(r: Result<Transaction, DecodeError>) -> Result<TxModel, DecodeError> {
    match r {
        Ok(t) => Ok(t@),
        Err(e) => Err(e),
    }
}

/// A length-prefixed text field.
pub open spec fn text_field(s: Seq<char>) -> Seq<u8> {
    le_bytes(encode_utf8(s).len() as u64) + encode_utf8(s)
}

/// The bytes of a transaction: the command byte alone for `Create`, all five
/// fields otherwise.
pub open spec fn encode(t: TxModel) -> Seq<u8> {
    if t.cmd == Command::Create {
        seq![0u8]
    } else {
        seq![command_code(t.cmd)] + le_bytes(t.obj as u64) + text_field(t.key) + text_field(t.val)
            + le_bytes(t.othr as u64)
    }
}

/// The transaction of the given fields.
pub open spec fn tx(cmd: Command, obj: usize, key: Seq<char>, val: Seq<char>, othr: usize) -> TxModel {
    TxModel { cmd, obj, key, val, othr }
}

/// Reads a transaction from bytes. The command decides which fields are read:
/// `Get` stops after the key, `Set` reads the value, `Link` and `GetRaw` skip
/// the value and read the other object. Bytes after the last field read are
/// ignored.
pub open spec fn decode(b: Seq<u8>) -> Result<TxModel, DecodeError> {
    if b.len() == 0 {
        Err(DecodeError::Truncated)
    } else if b[0] > 4 {
        Err(DecodeError::UnknownCommand(b[0]))
    } else if b[0] == 0 {
        Ok(tx(Command::Create, 0, Seq::empty(), Seq::empty(), 0))
    } else if b.len() < 17 {
        Err(DecodeError::Truncated)
    } else {
        let obj = le_value(b.subrange(1, 9)) as usize;
        let klen = le_value(b.subrange(9, 17)) as int;
        if b.len() - 17 < klen {
            Err(DecodeError::Truncated)
        } else {
            let key = text_of(b.subrange(17, 17 + klen));
            let p = 17 + klen;
            if b[0] == 2 {
                Ok(tx(Command::Get, obj, key, Seq::empty(), 0))
            } else if b.len() - p < 8 {
                Err(DecodeError::Truncated)
            } else {
                let vlen = le_value(b.subrange(p, p + 8)) as int;
                if b.len() - (p + 8) < vlen {
                    Err(DecodeError::Truncated)
                } else {
                    let q = p + 8 + vlen;
                    if b[0] == 1 {
                        Ok(tx(Command::SetValue, obj, key, text_of(b.subrange(p + 8, q)), 0))
                    } else if b.len() - q < 8 {
                        Err(DecodeError::Truncated)
                    } else {
                        let othr = le_value(b.subrange(q, q + 8)) as usize;
                        Ok(tx(command_of(b[0]), obj, key, Seq::empty(), othr))
                    }
                }
            }
        }
    }
}

/// A transaction holds only the fields that its command carries on the wire.
pub open spec fn canonical(t: TxModel) -> bool {
    match t.cmd {
        Command::Create => t.obj == 0 && t.key.len() == 0 && t.val.len() == 0 && t.othr == 0,
        Command::Get => t.val.len() == 0 && t.othr == 0,
        Command::SetValue => t.othr == 0,
        Command::Link | Command::GetRaw => t.val.len() == 0,
    }
}

/// The line of the text log for a transaction: the command code, the object,
/// the key and the value in double quotes, and the other object.
pub open spec fn text_line(t: TxModel) -> Seq<char> {
    decimal_digits(command_code(t.cmd) as nat) + seq![','] + decimal_digits(t.obj as nat) + seq![
        ',',
        '"',
    ] + t.key + seq!['"', ',', '"'] + t.val + seq!['"', ','] + decimal_digits(t.othr as nat) + seq![
        '\n',
    ]
}

impl Transaction {
    pub fn new(cmd: Command, obj: usize, key: String, val: String, othr: usize) -> (r: Transaction)
        ensures
            r@ == tx(cmd, obj, key@, val@, othr),
    {
        Transaction { cmd, obj, key, val, othr }
    }

    /// Width in bytes of the integer fields.
    #[allow(non_snake_case)]
    pub fn UINT_SIZE() -> (r: usize)
        ensures
            r == 8,
    {
        crate::bytes::UINT_BYTES
    }

    /// Decodes a transaction.
    pub fn from(data: Vec<u8>) -> (r: Result<Transaction, DecodeError>)
        ensures
            decoded_view(r) == decode(data@),
    {
        let len = data.len();
        if len == 0 {
            return Err(DecodeError::Truncated);
        }
        let code = data[0];
        if code > 4 {
            return Err(DecodeError::UnknownCommand(code));
        }
        let cmd = Command::from(code);
        if code == 0 {
            return Ok(Transaction::new(cmd, 0, String::new(), String::new(), 0));
        }
        if len < 17 {
            return Err(DecodeError::Truncated);
        }
        let obj = read_usize(&data[1..9]);
        let klen = le_decode(&data[9..17]);
        if ((len - 17) as u64) < klen {
            return Err(DecodeError::Truncated);
        }
        let p = 17 + klen as usize;
        let key = read_string(&data[17..p]);
        if code == 2 {
            return Ok(Transaction::new(cmd, obj, key, String::new(), 0));
        }
        if len - p < 8 {
            return Err(DecodeError::Truncated);
        }
        let vlen = le_decode(&data[p..p + 8]);
        if ((len - (p + 8)) as u64) < vlen {
            return Err(DecodeError::Truncated);
        }
        let q = p + 8 + vlen as usize;
        if code == 1 {
            let val = read_string(&data[p + 8..q]);
            return Ok(Transaction::new(cmd, obj, key, val, 0));
        }
        if len - q < 8 {
            return Err(DecodeError::Truncated);
        }
        let othr = read_usize(&data[q..q + 8]);
        Ok(Transaction::new(cmd, obj, key, String::new(), othr))
    }

    /// Encodes the transaction.
    pub fn to_bytes(&self) -> (r: Vec<u8>)
        ensures
            r@ == encode(self@),
    {
        let mut bytes: Vec<u8> = Vec::new();
        bytes.push(Command::to_u8(&self.cmd));
        if self.cmd == Command::Create {
            assert(bytes@ =~= encode(self@));
            return bytes;
        }
        let mut obj = write_usize(self.obj);
        bytes.append(&mut obj);
        let mut key = write_string(self.key.clone());
        let mut key_size = write_usize(key.len());
        bytes.append(&mut key_size);
        bytes.append(&mut key);
        let mut value = write_string(self.val.clone());
        let mut value_size = write_usize(value.len());
        bytes.append(&mut value_size);
        bytes.append(&mut value);
        let mut other = write_usize(self.othr);
        bytes.append(&mut other);
        assert(bytes@ =~= encode(self@));
        bytes
    }

    /// The transaction as one line of the text log.
    pub fn to_string(&self) -> (r: String)
        ensures
            r@ == text_line(self@),
    {
        let line = decimal(Command::to_u8(&self.cmd) as u64);
        let line = line.concat(",");
        let line = line.concat(decimal(self.obj as u64).as_str());
        let line = line.concat(",\"");
        let line = line.concat(self.key.as_str());
        let line = line.concat("\",\"");
        let line = line.concat(self.val.as_str());
        let line = line.concat("\",");
        let line = line.concat(decimal(self.othr as u64).as_str());
        let line = line.concat("\n");
        proof {
            reveal_strlit(",");
            reveal_strlit(",\"");
            reveal_strlit("\",\"");
            reveal_strlit("\",");
            reveal_strlit("\n");
        }
        assert(line@ =~= text_line(self@));
        line
    }
}

/// Decoding the bytes of a transaction gives the transaction back, for all
/// five commands and for empty keys and values alike, whenever the
/// transaction holds only the fields that its command carries on the wire.
#[verifier::rlimit(40)]
pub proof fn lemma_round_trip(t: TxModel)
    requires
        canonical(t),
        encode_utf8(t.key).len() <= usize::MAX,
        encode_utf8(t.val).len() <= usize::MAX,
    ensures
        decode(encode(t)) == Ok::<TxModel, DecodeError>(t),
{
    let b = encode(t);
    if t.cmd == Command::Create {
        assert(t.key =~= Seq::<char>::empty());
        assert(t.val =~= Seq::<char>::empty());
    } else {
        let kb = encode_utf8(t.key);
        let vb = encode_utf8(t.val);
        let kl = kb.len() as u64;
        let vl = vb.len() as u64;
        lemma_le_round_trip(t.obj as u64);
        lemma_le_round_trip(kl);
        lemma_le_round_trip(vl);
        lemma_le_round_trip(t.othr as u64);
        encode_utf8_valid_utf8(t.key);
        encode_utf8_valid_utf8(t.val);
        encode_utf8_decode_utf8(t.key);
        encode_utf8_decode_utf8(t.val);
        let p = 17 + kb.len() as int;
        let q = p + 8 + vb.len() as int;
        assert(b.len() == q + 8);
        assert(b[0] == command_code(t.cmd));
        assert(b.subrange(1, 9) =~= le_bytes(t.obj as u64));
        assert(b.subrange(9, 17) =~= le_bytes(kl));
        assert(b.subrange(17, p) =~= kb);
        assert(b.subrange(p, p + 8) =~= le_bytes(vl));
        assert(b.subrange(p + 8, q) =~= vb);
        assert(b.subrange(q, q + 8) =~= le_bytes(t.othr as u64));
        assert(le_value(b.subrange(1, 9)) as usize == t.obj);
        assert(le_value(b.subrange(9, 17)) as int == kb.len());
        assert(text_of(b.subrange(17, p)) == t.key);
        assert(le_value(b.subrange(p, p + 8)) as int == vb.len());
        assert(text_of(b.subrange(p + 8, q)) == t.val);
        assert(le_value(b.subrange(q, q + 8)) as usize == t.othr);
        assert(command_of(b[0]) == t.cmd);
        if t.cmd == Command::Get || t.cmd == Command::Link || t.cmd == Command::GetRaw {
            assert(t.val =~= Seq::<char>::empty());
        }
    }
}

} // verus!
