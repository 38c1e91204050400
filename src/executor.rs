//! Runs transactions against the store: dotted paths for reads and writes,
//! the replies sent back, and replay of a log.

use vstd::prelude::*;
use vstd::utf8::encode_utf8;
use crate::bytes::{le_bytes, write_usize};
use crate::codec::{decode, is_read, tx, Command, DecodeError, Transaction, TxModel};
use crate::json::{ent_to_json, json_object, null_text};
use crate::path::{lemma_split_nonempty, lemma_split_single, split_dots, split_path};
use crate::space::{
    bound, created, empty_space, find_from, interned, lemma_find_from, lemma_lookup_assign, link_result,
    node_at, resolve, set_result, space_wf, write_target, NodeModel, Node, Space, SpaceModel,
    StoreError,
};

verus! {

/// A reply: the 8-byte result identifier, then UTF-8 text.
pub open spec fn reply(id: usize, text: Seq<char>) -> Seq<u8> {
    le_bytes(id as u64) + encode_utf8(text)
}

pub open spec fn ok_text() -> Seq<char> {
    seq!['o', 'k']
}

pub open spec fn fail_text() -> Seq<char> {
    seq!['f', 'a', 'i', 'l']
}

/// What a read shows of node `id`: a value's string, or an entity as JSON.
pub open spec fn shown(m: SpaceModel, id: usize, raw: bool) -> Seq<char> {
    match node_at(m, id) {
        Some(NodeModel::Value(v)) => v,
        Some(NodeModel::Entity(ps)) => json_object(m, ps, raw, seq![id]),
        None => null_text(),
    }
}

/// A read that walks the path `ks[i..]` from `cur`; `last` is the last node
/// reached so far (0 for none). The walk ends at the last piece, or at an
/// empty one, and shows the node reached; reaching nothing, or a value before
/// the end, gives `null`.
pub open spec fn read_walk(m: SpaceModel, ks: Seq<Seq<char>>, i: int, cur: usize, last: usize, raw: bool) -> (usize, Seq<char>)
    decreases ks.len() - i,
{
    if i < 0 || i >= ks.len() {
        (last, null_text())
    } else {
        match resolve(m, cur, ks[i]) {
            None => (last, null_text()),
            Some(id) => {
                if i == ks.len() - 1 || ks[i].len() == 0 {
                    (id, shown(m, id, raw))
                } else {
                    match node_at(m, id) {
                        Some(NodeModel::Entity(_)) => read_walk(m, ks, i + 1, id, id, raw),
                        _ => (id, null_text()),
                    }
                }
            },
        }
    }
}

/// The result identifier and text of a read transaction.
pub open spec fn read_outcome(m: SpaceModel, t: TxModel) -> (usize, Seq<char>) {
    read_walk(m, split_dots(t.key), 0, t.obj, 0, t.cmd == Command::GetRaw)
}

/// The last step of a write: set or link property `k` of `obj`.
pub open spec fn write_last(m: SpaceModel, obj: usize, k: Seq<char>, t: TxModel) -> (SpaceModel, Seq<u8>) {
    if t.cmd == Command::SetValue {
        match set_result(m, obj, k, t.val) {
            Ok((m2, id)) => (m2, reply(id, ok_text())),
            Err(_) => (m, reply(0, fail_text())),
        }
    } else {
        match link_result(m, obj, k, t.othr) {
            Ok(m2) => (m2, reply(0, ok_text())),
            Err(_) => (m, reply(0, fail_text())),
        }
    }
}

/// A write that walks `ks[i..]` from `cur` as a read does, then writes at the
/// last piece (or at an empty one). A walk that reaches nothing, or a value
/// before the end, fails and changes nothing.
pub open spec fn write_walk(m: SpaceModel, ks: Seq<Seq<char>>, i: int, cur: usize, t: TxModel) -> (SpaceModel, Seq<u8>)
    decreases ks.len() - i,
{
    if i < 0 || i >= ks.len() {
        (m, reply(0, fail_text()))
    } else if i == ks.len() - 1 || ks[i].len() == 0 {
        write_last(m, cur, ks[i], t)
    } else {
        match resolve(m, cur, ks[i]) {
            None => (m, reply(0, fail_text())),
            Some(id) => match node_at(m, id) {
                Some(NodeModel::Entity(_)) => write_walk(m, ks, i + 1, id, t),
                _ => (m, reply(id, fail_text())),
            },
        }
    }
}

/// The store after a write transaction, and the reply. `Create` ignores the
/// key and answers with the new identifier alone.
pub open spec fn write_outcome(m: SpaceModel, t: TxModel) -> (SpaceModel, Seq<u8>) {
    if t.cmd == Command::Create {
        let (m2, id) = created(m);
        (m2, le_bytes(id as u64))
    } else {
        write_walk(m, split_dots(t.key), 0, t.obj, t)
    }
}

/// The store after any transaction, and the reply.
pub open spec fn outcome(m: SpaceModel, t: TxModel) -> (SpaceModel, Seq<u8>) {
    if is_read(t.cmd) {
        let (id, text) = read_outcome(m, t);
        (m, reply(id, text))
    } else {
        write_outcome(m, t)
    }
}

/// The store after applying `ts` in order.
pub open spec fn replayed(m: SpaceModel, ts: Seq<TxModel>) -> SpaceModel
    decreases ts.len(),
{
    if ts.len() == 0 {
        m
    } else {
        outcome(replayed(m, ts.drop_last()), ts.last()).0
    }
}

/// The reply bytes for identifier `id` and text `text`.
fn make_reply(id: usize, text: &str) -> (r: Vec<u8>)
    ensures
        r@ == reply(id, text@),
{
    let mut r = write_usize(id);
    let mut b = vstd::slice::slice_to_vec(text.as_bytes());
    r.append(&mut b);
    r
}

/// Runs a read transaction (`Get` expands nested entities, `GetRaw` gives
/// their identifiers).
pub fn execute_read(space: &Space, t: &Transaction) -> (r: Vec<u8>)
    requires
        space.wf(),
    ensures
        r@ == reply(read_outcome(space.view(), t@).0, read_outcome(space.view(), t@).1),
{
    let ghost m = space.view();
    let raw = t.cmd == Command::GetRaw;
    let keys = split_path(t.key.as_str());
    let ghost ks = split_dots(t.key@);
    proof {
        lemma_split_nonempty(t.key@);
    }
    assert(keys@.len() == ks.len());
    let mut i: usize = 0;
    let mut cur = t.obj;
    let mut last: usize = 0;
    loop
        invariant
            0 <= i < keys@.len(),
            m == space.view(),
            keys@.map_values(|p: String| p@) == ks,
            raw == (t.cmd == Command::GetRaw),
            read_walk(m, ks, i as int, cur, last, raw) == read_outcome(m, t@),
        decreases keys@.len() - i,
    {
        let k = keys[i].as_str();
        assert(k@ == ks[i as int]);
        proof {
            reveal_strlit("null");
            assert("null"@ =~= null_text());
        }
        match space.get(cur, k) {
            None => {
                return make_reply(last, "null");
            },
            Some((id, node)) => {
                let at_end = i == keys.len() - 1 || k.is_empty();
                match node {
                    Node::Entity(ent) => {
                        if at_end {
                            let mut seen = vec![id];
                            let json = ent_to_json(&ent.props, space, raw, &mut seen);
                            assert(seq![id] =~= seen@);
                            return make_reply(id, json.as_str());
                        }
                        cur = id;
                        last = id;
                        i += 1;
                    },
                    Node::Value(v) => {
                        if at_end {
                            return make_reply(id, v.val.as_str());
                        }
                        return make_reply(id, "null");
                    },
                }
            },
        }
    }
}

/// Runs a write transaction (`Create`, `Set` or `Link`).
pub fn execute_write(space: &mut Space, t: &Transaction) -> (r: Vec<u8>)
    requires
        old(space).wf(),
        old(space).has_room(),
        !is_read(t.cmd),
    ensures
        final(space).wf(),
        (final(space).view(), r@) == write_outcome(old(space).view(), t@),
        final(space).nodes@.len() <= old(space).nodes@.len() + 1,
{
    if t.cmd == Command::Create {
        let id = space.create();
        assert(space.view().nodes.len() == space.nodes@.len());
        assert(old(space).view().nodes.len() == old(space).nodes@.len());
        return write_usize(id);
    }
    let ghost m = space.view();
    let keys = split_path(t.key.as_str());
    let ghost ks = split_dots(t.key@);
    proof {
        lemma_split_nonempty(t.key@);
    }
    assert(keys@.len() == ks.len());
    let mut i: usize = 0;
    let mut cur = t.obj;
    loop
        invariant
            0 <= i < keys@.len(),
            m == space.view(),
            m == old(space).view(),
            space.wf(),
            space.has_room(),
            t.cmd != Command::Create,
            !is_read(t.cmd),
            keys@.map_values(|p: String| p@) == ks,
            write_walk(m, ks, i as int, cur, t@) == write_outcome(m, t@),
            space.nodes@.len() == old(space).nodes@.len(),
        decreases keys@.len() - i,
    {
        let k = keys[i].as_str();
        assert(k@ == ks[i as int]);
        proof {
            reveal_strlit("ok");
            reveal_strlit("fail");
            assert("ok"@ =~= ok_text());
            assert("fail"@ =~= fail_text());
        }
        assert(space.view().nodes.len() == space.nodes@.len());
        if i == keys.len() - 1 || k.is_empty() {
            assert(keys@.len() == ks.len());
            assert(write_walk(m, ks, i as int, cur, t@) == write_last(m, cur, k@, t@));
            if t.cmd == Command::SetValue {
                let res = space.set(cur, k, t.val.as_str());
                assert(space.view().nodes.len() == space.nodes@.len());
                return match res {
                    Ok(id) => make_reply(id, "ok"),
                    Err(_) => make_reply(0, "fail"),
                };
            } else {
                let res = space.link(cur, k, t.othr);
                assert(space.view().nodes.len() == space.nodes@.len());
                return match res {
                    Ok(()) => make_reply(0, "ok"),
                    Err(_) => make_reply(0, "fail"),
                };
            }
        }
        match space.get(cur, k) {
            None => {
                return make_reply(0, "fail");
            },
            Some((id, node)) => {
                match node {
                    Node::Entity(_) => {
                        cur = id;
                        i += 1;
                    },
                    Node::Value(_) => {
                        return make_reply(id, "fail");
                    },
                }
            },
        }
    }
}

/// Runs one transaction: reads under the read rules, writes under the write rules.
pub fn execute(space: &mut Space, t: &Transaction) -> (r: Vec<u8>)
    requires
        old(space).wf(),
        old(space).has_room(),
    ensures
        final(space).wf(),
        (final(space).view(), r@) == outcome(old(space).view(), t@),
        final(space).nodes@.len() <= old(space).nodes@.len() + 1,
{
    if t.cmd.is_read() {
        execute_read(space, t)
    } else {
        execute_write(space, t)
    }
}

/// Serves one request body: decodes it and runs it. A body that does not
/// decode changes nothing and gives its error.
pub fn handle(space: &mut Space, body: Vec<u8>) -> (r: Result<Vec<u8>, DecodeError>)
    requires
        old(space).wf(),
        old(space).has_room(),
    ensures
        final(space).wf(),
        final(space).nodes@.len() <= old(space).nodes@.len() + 1,
        match decode(body@) {
            Ok(t) => r is Ok && (final(space).view(), r->Ok_0@) == outcome(old(space).view(), t),
            Err(e) => r == Err::<Vec<u8>, DecodeError>(e) && *final(space) == *old(space),
        },
{
    match Transaction::from(body) {
        Ok(t) => Ok(execute(space, &t)),
        Err(e) => Err(e),
    }
}

/// Applies a log to the store, in order; replies are dropped.
pub fn replay(space: &mut Space, log: &Vec<Transaction>)
    requires
        old(space).wf(),
        old(space).nodes@.len() + log@.len() + 1 < usize::MAX,
    ensures
        final(space).wf(),
        final(space).view() == replayed(old(space).view(), log@.map_values(|t: Transaction| t@)),
{
    let ghost ts = log@.map_values(|t: Transaction| t@);
    let mut i: usize = 0;
    while i < log.len()
        invariant
            0 <= i <= log@.len(),
            ts == log@.map_values(|t: Transaction| t@),
            space.wf(),
            space.nodes@.len() <= old(space).nodes@.len() + i,
            old(space).nodes@.len() + log@.len() + 1 < usize::MAX,
            space.view() == replayed(old(space).view(), ts.subrange(0, i as int)),
        decreases log@.len() - i,
    {
        execute(space, &log[i]);
        assert(ts.subrange(0, i + 1).drop_last() =~= ts.subrange(0, i as int));
        i += 1;
    }
    assert(ts.subrange(0, i as int) =~= ts);
}

/// Replay is deterministic: two stores rebuilt from a fresh store with the
/// same log hold the same nodes under the same identifiers, the same
/// properties and the same interning index.
pub proof fn lemma_replay_deterministic(ts: Seq<TxModel>, a: SpaceModel, b: SpaceModel)
    requires
        a == replayed(empty_space(), ts),
        b == replayed(empty_space(), ts),
    ensures
        a == b,
{
}

/// Replaying a log in two parts, the second on the result of the first, is
/// replaying the whole log.
pub proof fn lemma_replay_split(m: SpaceModel, ts: Seq<TxModel>, us: Seq<TxModel>)
    ensures
        replayed(m, ts + us) == replayed(replayed(m, ts), us),
    decreases us.len(),
{
    if us.len() == 0 {
        assert(ts + us =~= ts);
    } else {
        assert((ts + us).drop_last() =~= ts + us.drop_last());
        lemma_replay_split(m, ts, us.drop_last());
    }
}

/// Writing a string to a property of an entity and reading that property
/// back gives the string, under the identifier of its interned value node.
pub proof fn lemma_set_then_get(m: SpaceModel, o: usize, k: Seq<char>, v: Seq<char>)
    requires
        space_wf(m),
        m.nodes.len() + 1 < usize::MAX,
        write_target(m, o) is Ok,
        k.len() > 0,
        !k.contains('.'),
    ensures
        ({
            let (m2, r) = outcome(m, tx(Command::SetValue, o, k, v, 0));
            let id = interned(m, v).1;
            &&& r == reply(id, ok_text())
            &&& read_outcome(m2, tx(Command::Get, o, k, Seq::empty(), 0)) == (id, v)
        }),
{
    lemma_split_single(k);
    let ps = write_target(m, o)->Ok_0;
    let (mi, id) = interned(m, v);
    let m2 = bound(mi, o, ps, k, id);
    assert(set_result(m, o, k, v) == Ok::<(SpaceModel, usize), StoreError>((m2, id)));
    assert(outcome(m, tx(Command::SetValue, o, k, v, 0)) == (m2, reply(id, ok_text())));
    lemma_find_from(m.reverse, v, 0);
    match find_from(m.reverse, v, 0) {
        Some(j) => {
            assert(1 <= m.reverse[j].1 <= m.nodes.len());
        },
        None => {},
    }
    assert(mi.nodes[id - 1] == NodeModel::Value(v));
    assert(mi.nodes[o - 1] == m.nodes[o - 1]);
    assert(node_at(m2, id) == Some(NodeModel::Value(v)));
    lemma_lookup_assign(ps, k, id, k);
    assert(resolve(m2, o, k) == Some(id));
}

} // verus!
