//! Entities rendered as JSON objects.

use vstd::prelude::*;
use vstd::string::StringExecFns;
use crate::space::{node_at, pairs_view, NodeModel, Node, Pairs, Space, SpaceModel};
use crate::text::{decimal, decimal_digits, escape, escaped};

verus! {

/// `s` in double quotes.
pub open spec fn quoted(s: Seq<char>) -> Seq<char> {
    seq!['"'] + s + seq!['"']
}

/// The text `null`.
pub open spec fn null_text() -> Seq<char> {
    seq!['n', 'u', 'l', 'l']
}

/// The JSON members for the properties `ps[i..]`, separated by commas.
///
/// A string value is quoted and escaped, a missing target is `null`, and an
/// entity is expanded in place, unless `raw` asks for identifiers only or the
/// entity is already being expanded further out (`seen`), in which case its
/// identifier stands there: cycles are cut where they close.
pub open spec fn json_from(m: SpaceModel, ps: Pairs, i: int, raw: bool, seen: Seq<usize>) -> Seq<char>
    decreases m.nodes.len() - seen.len(), ps.len() - i,
{
    if i < 0 || i >= ps.len() {
        Seq::empty()
    } else {
        let name = ps[i].0;
        let id = ps[i].1;
        let item = match node_at(m, id) {
            None => quoted(name) + seq![':', ' '] + null_text(),
            Some(NodeModel::Value(v)) => quoted(name) + seq![':'] + quoted(escaped(v)),
            Some(NodeModel::Entity(ps2)) => quoted(name) + seq![':', ' '] + if raw || seen.contains(id)
                || seen.len() >= m.nodes.len() {
                decimal_digits(id as nat)
            } else {
                seq!['{'] + json_from(m, ps2, 0, raw, seen.push(id)) + seq!['}']
            },
        };
        if i + 1 < ps.len() {
            item + seq![','] + json_from(m, ps, i + 1, raw, seen)
        } else {
            item
        }
    }
}

/// The JSON object of an entity with properties `ps`.
pub open spec fn json_object(m: SpaceModel, ps: Pairs, raw: bool, seen: Seq<usize>) -> Seq<char> {
    seq!['{'] + json_from(m, ps, 0, raw, seen) + seq!['}']
}

/// Whether `x` is in `v`.
fn contains(v: &Vec<usize>, x: usize) -> (r: bool)
    ensures
        r == v@.contains(x),
{
    let mut i: usize = 0;
    while i < v.len()
        invariant
            0 <= i <= v@.len(),
            forall|j: int| 0 <= j < i ==> v@[j] != x,
        decreases v@.len() - i,
    {
        if v[i] == x {
            return true;
        }
        i += 1;
    }
    false
}

/// The JSON object for the properties `props` of an entity. With
/// `shallowmode` nested entities are given by identifier; otherwise they are
/// expanded, except those in `seen` (the entities being expanded around this one).
#[verifier::rlimit(100)]
pub fn ent_to_json(props: &Vec<(String, usize)>, space: &Space, shallowmode: bool, seen: &mut Vec<usize>) -> (r: String)
    requires
        old(seen)@.len() <= space.nodes@.len(),
    ensures
        r@ == json_object(space.view(), pairs_view(props@), shallowmode, old(seen)@),
        final(seen)@ == old(seen)@,
    decreases space.nodes@.len() - seen@.len(),
{
    let ghost m = space.view();
    let ghost ps = pairs_view(props@);
    let ghost seen0 = seen@;
    let mut json = String::from_str("{");
    proof {
        reveal_strlit("{");
    }
    let mut i: usize = 0;
    while i < props.len()
        invariant
            0 <= i <= props@.len(),
            ps == pairs_view(props@),
            m == space.view(),
            seen@ == seen0,
            old(seen)@ == seen0,
            seen0.len() <= space.nodes@.len(),
            json@ + json_from(m, ps, i as int, shallowmode, seen0) == seq!['{'] + json_from(
                m,
                ps,
                0,
                shallowmode,
                seen0,
            ),
        decreases props@.len() - i,
    {
        let name = &props[i].0;
        let id = props[i].1;
        assert(ps[i as int] == (name@, id));
        let ghost before = json@;
        proof {
            reveal_strlit(",");
            reveal_strlit("\"");
            reveal_strlit(": ");
            reveal_strlit(":");
            reveal_strlit("null");
        }
        json.append("\"");
        json.append(name.as_str());
        json.append("\"");
        if id == 0 || id > space.nodes.len() {
            json.append(": ");
            json.append("null");
            assert(json@ =~= before + quoted(name@) + seq![':', ' '] + null_text());
        } else {
            assert(m.nodes[id - 1] == space.nodes@[id - 1]@);
            match &space.nodes[id - 1] {
                Node::Value(v) => {
                    json.append(":");
                    json.append("\"");
                    json.append(escape(v.val.as_str()).as_str());
                    json.append("\"");
                    assert(json@ =~= before + quoted(name@) + seq![':'] + quoted(escaped(v.val@)));
                },
                Node::Entity(sub) => {
                    json.append(": ");
                    if shallowmode || contains(seen, id) || seen.len() >= space.nodes.len() {
                        json.append(decimal(id as u64).as_str());
                        assert(json@ =~= before + quoted(name@) + seq![':', ' '] + decimal_digits(id as nat));
                    } else {
                        seen.push(id);
                        assert(seen@.len() == seen0.len() + 1);
                        assert(seen@.len() <= space.nodes@.len());
                        let inner = ent_to_json(&sub.props, space, shallowmode, seen);
                        seen.pop();
                        assert(seen@ =~= seen0);
                        json.append(inner.as_str());
                        assert(json@ =~= before + quoted(name@) + seq![':', ' '] + json_object(m, pairs_view(sub.props@), shallowmode, seen0.push(id)));
                    }
                },
            }
        }
        assert(json@ =~= before + match node_at(m, id) {
            None => quoted(name@) + seq![':', ' '] + null_text(),
            Some(NodeModel::Value(v)) => quoted(name@) + seq![':'] + quoted(escaped(v)),
            Some(NodeModel::Entity(ps2)) => quoted(name@) + seq![':', ' '] + if shallowmode
                || seen0.contains(id) || seen0.len() >= m.nodes.len() {
                decimal_digits(id as nat)
            } else {
                seq!['{'] + json_from(m, ps2, 0, shallowmode, seen0.push(id)) + seq!['}']
            },
        });
        if i + 1 < props.len() {
            json.append(",");
        }
        assert(json@ + json_from(m, ps, i + 1, shallowmode, seen0) =~= before + json_from(
            m,
            ps,
            i as int,
            shallowmode,
            seen0,
        ));
        i += 1;
    }
    json.append("}");
    proof {
        reveal_strlit("}");
    }
    assert(json@ =~= json_object(m, ps, shallowmode, seen0));
    json
}

} // verus!
