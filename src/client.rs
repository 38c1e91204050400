//! The caller's side of the protocol: requests built and replies read. A
//! client here talks to a store in the same process through the wire format;
//! a remote connection carries the same bytes.

use vstd::prelude::*;
use vstd::utf8::{encode_utf8, encode_utf8_decode_utf8, encode_utf8_valid_utf8};
use crate::bytes::{le_bytes, le_value, lemma_le_round_trip, lemma_le_value_prefix, read_string, read_usize, text_of};
use crate::codec::{canonical, encode, lemma_round_trip, tx, Command, Transaction, TxModel};
use crate::executor::{
    fail_text, handle, ok_text, outcome, reply, write_walk,
};
use crate::path::split_dots;
use crate::space::{created, Space, SpaceModel};
use crate::text::{decimal, decimal_digits};

verus! {

/// A reply is some identifier followed by some text.
pub open spec fn is_reply(b: Seq<u8>) -> bool {
    exists|id: usize, text: Seq<char>| b == #[trigger] reply(id, text)
}

proof fn lemma_reply_parts(id: usize, text: Seq<char>)
    ensures
        reply(id, text).len() >= 8,
        le_value(reply(id, text)) as usize == id,
        text_of(reply(id, text).subrange(8, reply(id, text).len() as int)) == text,
{
    let b = reply(id, text);
    lemma_le_round_trip(id as u64);
    assert(b.subrange(0, 8) =~= le_bytes(id as u64).subrange(0, 8));
    lemma_le_value_prefix(b, le_bytes(id as u64));
    assert(b.subrange(8, b.len() as int) =~= encode_utf8(text));
    encode_utf8_valid_utf8(text);
    encode_utf8_decode_utf8(text);
}

proof fn lemma_walk_reply(m: SpaceModel, ks: Seq<Seq<char>>, i: int, cur: usize, t: TxModel)
    ensures
        is_reply(write_walk(m, ks, i, cur, t).1),
    decreases ks.len() - i,
{
    let r = write_walk(m, ks, i, cur, t).1;
    if i < 0 || i >= ks.len() {
        assert(r == reply(0, fail_text()));
    } else if i == ks.len() - 1 || ks[i].len() == 0 {
        if t.cmd == Command::SetValue {
            match crate::space::set_result(m, cur, ks[i], t.val) {
                Ok((_, id)) => assert(r == reply(id, ok_text())),
                Err(_) => assert(r == reply(0, fail_text())),
            }
        } else {
            match crate::space::link_result(m, cur, ks[i], t.othr) {
                Ok(_) => assert(r == reply(0, ok_text())),
                Err(_) => assert(r == reply(0, fail_text())),
            }
        }
    } else {
        match crate::space::resolve(m, cur, ks[i]) {
            None => assert(r == reply(0, fail_text())),
            Some(id) => match crate::space::node_at(m, id) {
                Some(crate::space::NodeModel::Entity(_)) => lemma_walk_reply(m, ks, i + 1, id, t),
                _ => assert(r == reply(id, fail_text())),
            },
        }
    }
}

/// Every reply but the one to `Create` is an identifier and a text.
proof fn lemma_outcome_reply(m: SpaceModel, t: TxModel)
    requires
        t.cmd != Command::Create,
    ensures
        is_reply(outcome(m, t).1),
{
    if crate::codec::is_read(t.cmd) {
        let (id, text) = crate::executor::read_outcome(m, t);
        assert(outcome(m, t).1 == reply(id, text));
    } else {
        lemma_walk_reply(m, split_dots(t.key), 0, t.obj, t);
    }
}

/// The identifier and text of a reply.
fn read_reply(bytes: &Vec<u8>) -> (r: (usize, String))
    requires
        is_reply(bytes@),
    ensures
        bytes@ == reply(r.0, r.1@),
{
    let ghost (id0, text0) = choose|id: usize, text: Seq<char>| bytes@ == #[trigger] reply(id, text);
    proof {
        lemma_reply_parts(id0, text0);
    }
    let id = read_usize(bytes.as_slice());
    let text = read_string(&bytes.as_slice()[8..bytes.len()]);
    (id, text)
}

/// A client of one store, known by its address.
pub struct Client {
    addr: String,
}

impl Client {
    pub fn new(addr: &str) -> (r: Client)
        ensures
            r.addr()@ == addr@,
    {
        Client { addr: addr.to_owned() }
    }

    /// The address of the store this client is meant for.
    pub closed spec fn addr(&self) -> String {
        self.addr
    }

    /// The address as text.
    pub fn address(&self) -> (r: &str)
        ensures
            r@ == self.addr()@,
    {
        self.addr.as_str()
    }

    /// Encodes the transaction, has the store serve it, and returns the reply bytes.
    fn send(&self, server: &mut Space, cmd: Command, obj: usize, key: String, val: String, other_obj: usize) -> (r: Vec<u8>)
        requires
            old(server).wf(),
            old(server).has_room(),
            canonical(tx(cmd, obj, key@, val@, other_obj)),
        ensures
            final(server).wf(),
            (final(server).view(), r@) == outcome(old(server).view(), tx(cmd, obj, key@, val@, other_obj)),
    {
        let t = Transaction::new(cmd, obj, key, val, other_obj);
        let data = t.to_bytes();
        // the length of the encoding bounds the lengths of the key and the value
        let n = data.len();
        proof {
            if cmd != Command::Create {
                assert(encode(t@).len() == 33 + encode_utf8(t@.key).len() + encode_utf8(t@.val).len());
            } else {
                assert(t@.key =~= Seq::<char>::empty());
                assert(t@.val =~= Seq::<char>::empty());
            }
            lemma_round_trip(t@);
        }
        match handle(server, data) {
            Ok(bytes) => bytes,
            Err(_) => Vec::new(),
        }
    }

    /// Creates an entity and returns its identifier.
    pub fn create(&self, server: &mut Space) -> (r: usize)
        requires
            old(server).wf(),
            old(server).has_room(),
        ensures
            final(server).wf(),
            (final(server).view(), r) == created(old(server).view()),
    {
        let bytes = self.send(server, Command::Create, 0, String::new(), String::new(), 0);
        let ghost id = created(old(server).view()).1;
        proof {
            lemma_le_round_trip(id as u64);
        }
        read_usize(bytes.as_slice())
    }

    /// Sets property `key` (a path) of `obj` to the string `val`.
    pub fn set(&self, server: &mut Space, obj: usize, key: &str, val: &str) -> (r: (usize, String))
        requires
            old(server).wf(),
            old(server).has_room(),
        ensures
            final(server).wf(),
            (final(server).view(), reply(r.0, r.1@)) == outcome(
                old(server).view(),
                tx(Command::SetValue, obj, key@, val@, 0),
            ),
    {
        let bytes = self.send(server, Command::SetValue, obj, key.to_owned(), val.to_owned(), 0);
        proof {
            lemma_outcome_reply(old(server).view(), tx(Command::SetValue, obj, key@, val@, 0));
        }
        read_reply(&bytes)
    }

    /// Links property `key` (a path) of `obj` to `othr`.
    pub fn link(&self, server: &mut Space, obj: usize, key: &str, othr: usize) -> (r: (usize, String))
        requires
            old(server).wf(),
            old(server).has_room(),
        ensures
            final(server).wf(),
            (final(server).view(), reply(r.0, r.1@)) == outcome(
                old(server).view(),
                tx(Command::Link, obj, key@, Seq::empty(), othr),
            ),
    {
        let bytes = self.send(server, Command::Link, obj, key.to_owned(), String::new(), othr);
        proof {
            lemma_outcome_reply(old(server).view(), tx(Command::Link, obj, key@, Seq::empty(), othr));
        }
        read_reply(&bytes)
    }

    /// Reads what the path `key` from `obj` reaches: a string, or JSON.
    pub fn get_str(&self, server: &mut Space, obj: usize, key: &str) -> (r: (usize, String))
        requires
            old(server).wf(),
            old(server).has_room(),
        ensures
            final(server).view() == old(server).view(),
            final(server).wf(),
            (final(server).view(), reply(r.0, r.1@)) == outcome(
                old(server).view(),
                tx(Command::Get, obj, key@, Seq::empty(), 0),
            ),
    {
        let bytes = self.send(server, Command::Get, obj, key.to_owned(), String::new(), 0);
        proof {
            lemma_outcome_reply(old(server).view(), tx(Command::Get, obj, key@, Seq::empty(), 0));
        }
        read_reply(&bytes)
    }

    /// Reads what the path `key` from `obj` reaches and gives its identifier,
    /// also as decimal text.
    pub fn get_usize(&self, server: &mut Space, obj: usize, key: &str) -> (r: (usize, String))
        requires
            old(server).wf(),
            old(server).has_room(),
        ensures
            final(server).view() == old(server).view(),
            final(server).wf(),
            r.0 == le_value(outcome(old(server).view(), tx(Command::Get, obj, key@, Seq::empty(), 0)).1) as usize,
            r.1@ == decimal_digits(r.0 as nat),
    {
        let (id, text) = self.get_str(server, obj, key);
        proof {
            lemma_reply_parts(id, text@);
        }
        (id, decimal(id as u64))
    }

    /// Reads object `obj` itself: a string, or JSON.
    pub fn get_obj(&self, server: &mut Space, obj: usize) -> (r: (usize, String))
        requires
            old(server).wf(),
            old(server).has_room(),
        ensures
            final(server).view() == old(server).view(),
            final(server).wf(),
            (final(server).view(), reply(r.0, r.1@)) == outcome(
                old(server).view(),
                tx(Command::Get, obj, Seq::empty(), Seq::empty(), 0),
            ),
    {
        let bytes = self.send(server, Command::Get, obj, String::new(), String::new(), 0);
        proof {
            lemma_outcome_reply(old(server).view(), tx(Command::Get, obj, Seq::empty(), Seq::empty(), 0));
        }
        read_reply(&bytes)
    }
}

} // verus!
